use tokio::io::ReadBuf;
use wasi_tcp::{
    open_tcp, poll, poll_task, write_tcp_open_results, ErrorKind, FutureWrapper, Poll,
    SocketAddrV4, TcpConnector, TcpWrapper,
};

#[test]
fn read_request_asks_for_the_room() {
    let mut bytes = [0u8; 10];
    let mut buf = ReadBuf::new(&mut bytes);
    buf.put_slice(b"abc");
    let stream = TcpWrapper(9);
    assert_eq!(stream.read_request(&buf), (9, 7));
    assert_eq!(buf.filled(), b"abc");
    assert_eq!(buf.initialized().len(), 10);
}

#[test]
fn read_request_initializes_nothing() {
    let mut bytes = [std::mem::MaybeUninit::<u8>::uninit(); 6];
    let mut buf = ReadBuf::uninit(&mut bytes);
    buf.put_slice(b"xy");
    assert_eq!(TcpWrapper(1).read_request(&buf), (1, 4));
    assert_eq!(buf.initialized(), b"xy");
    assert_eq!(buf.filled(), b"xy");
}

#[test]
fn read_takes_the_bytes() {
    let mut bytes = [0u8; 8];
    let mut buf = ReadBuf::new(&mut bytes);
    buf.put_slice(b"ab");
    let stream = TcpWrapper(4);
    assert_eq!(stream.read_request(&buf), (4, 6));
    let polled = stream.poll_read(&mut buf, b"cdexyz", 0x3_0000_0001);
    assert_eq!(polled, Poll::Ready(Ok(())));
    assert_eq!(buf.filled(), b"abcde");
    assert_eq!(buf.remaining(), 3);
    assert_eq!(buf.initialized().len(), 8);
}

#[test]
fn read_initializes_what_it_reads() {
    let mut bytes = [std::mem::MaybeUninit::<u8>::uninit(); 9];
    let mut buf = ReadBuf::uninit(&mut bytes);
    buf.put_slice(b"abcd");
    buf.set_filled(1);
    let stream = TcpWrapper(4);
    assert_eq!(stream.poll_read(&mut buf, b"xy", 0x2_0000_0001), Poll::Ready(Ok(())));
    assert_eq!(buf.filled(), b"axy");
    assert_eq!(buf.initialized(), b"axyd");
    assert_eq!(stream.poll_read(&mut buf, b"123", 0x3_0000_0001), Poll::Ready(Ok(())));
    assert_eq!(buf.filled(), b"axy123");
    assert_eq!(buf.initialized(), b"axy123");
    assert_eq!(buf.remaining(), 3);
}

#[test]
fn read_of_nothing_is_the_end() {
    let mut bytes = [0u8; 4];
    let mut buf = ReadBuf::new(&mut bytes);
    assert_eq!(TcpWrapper(0).poll_read(&mut buf, b"", 1), Poll::Ready(Ok(())));
    assert_eq!(buf.filled().len(), 0);
}

#[test]
fn pending_and_failed_reads_leave_the_buffer() {
    let mut bytes = [std::mem::MaybeUninit::<u8>::uninit(); 4];
    let mut buf = ReadBuf::uninit(&mut bytes);
    buf.put_slice(b"z");
    let stream = TcpWrapper(0);
    assert_eq!(stream.poll_read(&mut buf, b"abc", 0), Poll::Pending);
    assert_eq!(stream.poll_read(&mut buf, b"abc", 0x2_0000_0000), Poll::Pending);
    assert_eq!(
        stream.poll_read(&mut buf, b"abc", 0x7_0000_000d),
        Poll::Ready(Err(ErrorKind { code: 11 }))
    );
    assert_eq!(buf.filled(), b"z");
    assert_eq!(buf.initialized(), b"z");
    assert_eq!(buf.remaining(), 3);
}

#[test]
fn answered_read_fits_the_buffer() {
    let mut bytes = [0u8; 5];
    let mut buf = ReadBuf::new(&mut bytes);
    let stream = TcpWrapper(2);
    let (_, room) = stream.read_request(&buf);
    let word = wasi_tcp::wire::encode_transfer(Poll::Ready(Ok(room as usize)));
    assert_eq!(stream.poll_read(&mut buf, b"hello", word), Poll::Ready(Ok(())));
    assert_eq!(buf.filled(), b"hello");
    assert_eq!(buf.remaining(), 0);
}

#[test]
fn writes() {
    let stream = TcpWrapper(77);
    assert_eq!(stream.write_request(b"hello"), (77, 5));
    assert_eq!(stream.poll_write(0), Poll::Pending);
    assert_eq!(stream.poll_write(0x5_0000_0001), Poll::Ready(Ok(5)));
    assert_eq!(stream.poll_write(3), Poll::Ready(Err(ErrorKind { code: 1 })));
}

#[test]
fn flush_and_shutdown() {
    let stream = TcpWrapper(1);
    assert_eq!(stream.poll_flush(0), Poll::Pending);
    assert_eq!(stream.poll_flush(1), Poll::Ready(Ok(())));
    assert_eq!(stream.poll_flush(9), Poll::Ready(Err(ErrorKind { code: 7 })));
    assert_eq!(stream.poll_shutdown(0), Poll::Pending);
    assert_eq!(stream.poll_shutdown(1), Poll::Ready(Ok(())));
    assert_eq!(stream.poll_shutdown(2), Poll::Ready(Err(ErrorKind { code: 0 })));
}

#[test]
fn connection_that_opens() {
    let mut connect = open_tcp(12);
    assert_eq!(connect.future, 12);
    assert_eq!(connect.results, None);
    assert_eq!(connect.poll(false), Poll::Pending);
    write_tcp_open_results(&mut connect, 31, 0, false);
    assert_eq!(connect.results, Some(Ok(TcpWrapper(31))));
    assert_eq!(connect.poll(true), Poll::Ready(Ok(TcpWrapper(31))));
    assert_eq!(connect.results, None);
    assert_eq!(connect.future, 12);
}

#[test]
fn connection_that_fails() {
    let mut connect = open_tcp(1);
    write_tcp_open_results(&mut connect, 0, 0x103, true);
    assert_eq!(connect.poll(true), Poll::Ready(Err(ErrorKind { code: 3 })));
}

#[test]
fn results_wait_for_the_poll() {
    let mut connect = open_tcp(1);
    write_tcp_open_results(&mut connect, 6, 0, false);
    assert_eq!(connect.poll(false), Poll::Pending);
    assert_eq!(connect.results, Some(Ok(TcpWrapper(6))));
}

#[test]
fn connector_addresses() {
    let mut connector = TcpConnector;
    assert_eq!(connector.poll_ready(), Poll::Ready(Ok(())));
    let gateway = |port| SocketAddrV4 { ip: [10, 0, 0, 10], port };
    assert_eq!(connector.address(None), gateway(4444));
    assert_eq!(connector.address(Some(80)), gateway(80));
    assert_eq!(connector.call("http://google.com/file12"), Some(gateway(4444)));
    assert_eq!(connector.call("http://google.com:8080/file12"), Some(gateway(8080)));
    assert_eq!(connector.call("http://[::1]:99/"), Some(gateway(99)));
    assert_eq!(connector.call("/only/a/path"), Some(gateway(4444)));
}

#[test]
fn connector_refuses_what_is_no_uri() {
    let mut connector = TcpConnector;
    assert_eq!(connector.call(""), None);
    assert_eq!(connector.call("http://"), None);
    assert_eq!(connector.call("not a uri"), None);
}

#[test]
fn task_answers() {
    assert_eq!(poll(Poll::Pending), 0);
    assert_eq!(poll(Poll::Ready(())), 1);
}

#[test]
fn task_values() {
    assert_eq!(poll_task::<u8, ()>(Poll::Pending), Poll::Pending);
    assert_eq!(poll_task::<u8, ()>(Poll::Ready(Ok(8))), Poll::Ready(8));
}

#[test]
fn wrapper_holds_the_future() {
    let wrapper = FutureWrapper::new(String::from("work"));
    assert_eq!(wrapper.fut, "work");
}
