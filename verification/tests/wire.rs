use wasi_tcp::wire::{decode_completion, decode_transfer, encode_completion, encode_transfer};
use wasi_tcp::{ErrorKind, Poll, SocketAddrV4};

fn kind(code: u8) -> ErrorKind {
    ErrorKind { code }
}

#[test]
fn transfer_words() {
    assert_eq!(encode_transfer(Poll::Pending), 0);
    assert_eq!(encode_transfer(Poll::Ready(Ok(0))), 1);
    assert_eq!(encode_transfer(Poll::Ready(Ok(5))), 0x5_0000_0001);
    assert_eq!(encode_transfer(Poll::Ready(Ok(0xffff_ffff))), 0xffff_ffff_0000_0001);
    assert_eq!(encode_transfer(Poll::Ready(Err(kind(0)))), 2);
    assert_eq!(encode_transfer(Poll::Ready(Err(kind(40)))), 42);
    assert_eq!(encode_transfer(Poll::Ready(Err(kind(255)))), 257);
}

#[test]
fn transfer_word_drops_what_does_not_fit() {
    let len: usize = (0x7_0000_0003u64) as usize;
    assert_eq!(encode_transfer(Poll::Ready(Ok(len))), 0x3_0000_0001);
}

#[test]
fn transfer_outcomes() {
    assert_eq!(decode_transfer(0), Poll::Pending);
    assert_eq!(decode_transfer(0x9_0000_0000), Poll::Pending);
    assert_eq!(decode_transfer(1), Poll::Ready(Ok(0)));
    assert_eq!(decode_transfer(0x10_0000_0001), Poll::Ready(Ok(16)));
    assert_eq!(decode_transfer(2), Poll::Ready(Err(kind(0))));
    assert_eq!(decode_transfer(0x1_0000_0007), Poll::Ready(Err(kind(5))));
    assert_eq!(decode_transfer(258), Poll::Ready(Err(kind(0))));
    assert_eq!(decode_transfer(0xffff_ffff), Poll::Ready(Err(kind(253))));
}

#[test]
fn transfers_round_trip() {
    for code in 0..=255u8 {
        assert_eq!(
            decode_transfer(encode_transfer(Poll::Ready(Err(kind(code))))),
            Poll::Ready(Err(kind(code)))
        );
    }
    for len in [0usize, 1, 2, 255, 65_536, 0xffff_ffff] {
        assert_eq!(
            decode_transfer(encode_transfer(Poll::Ready(Ok(len)))),
            Poll::Ready(Ok(len))
        );
    }
    assert_eq!(decode_transfer(encode_transfer(Poll::Pending)), Poll::Pending);
}

#[test]
fn completion_statuses() {
    assert_eq!(encode_completion(Poll::Pending), 0);
    assert_eq!(encode_completion(Poll::Ready(Ok(()))), 1);
    assert_eq!(encode_completion(Poll::Ready(Err(kind(0)))), 2);
    assert_eq!(encode_completion(Poll::Ready(Err(kind(254)))), 256);
    assert_eq!(decode_completion(0), Poll::Pending);
    assert_eq!(decode_completion(1), Poll::Ready(Ok(())));
    assert_eq!(decode_completion(2), Poll::Ready(Err(kind(0))));
    assert_eq!(decode_completion(255), Poll::Ready(Err(kind(253))));
}

#[test]
fn completions_round_trip() {
    for code in 0..=253u8 {
        let status = encode_completion(Poll::Ready(Err(kind(code))));
        assert_eq!(decode_completion(status as u8), Poll::Ready(Err(kind(code))));
    }
    assert_eq!(
        decode_completion(encode_completion(Poll::Ready(Ok(()))) as u8),
        Poll::Ready(Ok(()))
    );
    assert_eq!(decode_completion(encode_completion(Poll::Pending) as u8), Poll::Pending);
}

#[test]
fn address_on_wire() {
    let gateway = SocketAddrV4 { ip: [10, 0, 0, 10], port: 4444 };
    assert_eq!(gateway.to_wire(), (0x0a00_000a, 4444));
    let last = SocketAddrV4 { ip: [255, 254, 253, 252], port: 65_535 };
    assert_eq!(last.to_wire(), (0xfffe_fdfc, 65_535));
    assert_eq!(
        SocketAddrV4::from_wire(0x7f00_0001, 80),
        SocketAddrV4 { ip: [127, 0, 0, 1], port: 80 }
    );
}

#[test]
fn port_is_cut_to_sixteen_bits() {
    assert_eq!(SocketAddrV4::from_wire(0, 0x1_0050).port, 80);
}

#[test]
fn addresses_round_trip() {
    for ip in [[0u8, 0, 0, 0], [1, 2, 3, 4], [10, 0, 0, 10], [255, 255, 255, 255]] {
        let addr = SocketAddrV4 { ip, port: 8080 };
        let (bits, port) = addr.to_wire();
        assert_eq!(SocketAddrV4::from_wire(bits, port as u32), addr);
    }
}
