use wasi_tcp::host::OpenResults;
use wasi_tcp::{
    guest_range, open_tcp, write_tcp_open_results, ErrorKind, Poll, TcpWrapper, WasmResources,
};

fn with_stream(resources: &mut WasmResources, stream: u64) -> u64 {
    assert!(resources.has_connect_room());
    let future = resources.tcp_connect(1);
    assert!(resources.has_stream_room());
    let answer = resources.poll_tcp_connect(future, Poll::Ready(Ok(stream)));
    answer.results.unwrap().handle
}

#[test]
fn connections_are_found_by_their_handles() {
    let mut resources = WasmResources::new();
    let a = resources.tcp_connect(100);
    let b = resources.tcp_connect(200);
    assert_ne!(a, b);
    assert_eq!(resources.pending_connect(a), Some(100));
    assert_eq!(resources.pending_connect(b), Some(200));
    assert_eq!(resources.pending_connect(b + 1000), None);
}

#[test]
fn pending_connection_stays() {
    let mut resources = WasmResources::new();
    let future = resources.tcp_connect(100);
    let answer = resources.poll_tcp_connect(future, Poll::Pending);
    assert_eq!(answer.done, 0);
    assert_eq!(answer.results, None);
    assert_eq!(resources.pending_connect(future), Some(100));
}

#[test]
fn opened_connection_becomes_a_stream() {
    let mut resources = WasmResources::new();
    let other = resources.tcp_connect(7);
    let future = resources.tcp_connect(100);
    let answer = resources.poll_tcp_connect(future, Poll::Ready(Ok(500)));
    assert_eq!(answer.done, 1);
    let results = answer.results.unwrap();
    assert_eq!((results.error, results.is_error), (0, 0));
    assert_eq!(resources.pending_connect(future), None);
    assert_eq!(resources.pending_connect(other), Some(7));
    assert_eq!(resources.take_stream(results.handle), Some(500));
}

#[test]
fn failed_connection_is_dropped() {
    let mut resources = WasmResources::new();
    let future = resources.tcp_connect(100);
    let answer = resources.poll_tcp_connect(future, Poll::Ready(Err(ErrorKind { code: 3 })));
    assert_eq!(answer.done, 1);
    assert_eq!(
        answer.results,
        Some(OpenResults { handle: 0, error: 3, is_error: 1 })
    );
    assert_eq!(resources.pending_connect(future), None);
    assert_eq!(resources.take_stream(0), None);
}

#[test]
fn guest_finds_what_the_host_writes() {
    let mut resources = WasmResources::new();
    let handle = with_stream(&mut resources, 1);
    for (outcome, failed) in [(Ok(2), None), (Err(ErrorKind { code: 255 }), Some(255))] {
        let future = resources.tcp_connect(9);
        let answer = resources.poll_tcp_connect(future, Poll::Ready(outcome));
        let results = answer.results.unwrap();
        let mut connect = open_tcp(future);
        write_tcp_open_results(
            &mut connect,
            results.handle,
            results.error,
            results.is_error != 0,
        );
        let found = connect.poll(answer.done == 1);
        match failed {
            None => {
                assert_ne!(results.handle, handle);
                assert_eq!(found, Poll::Ready(Ok(TcpWrapper(results.handle))));
            }
            Some(code) => assert_eq!(found, Poll::Ready(Err(ErrorKind { code }))),
        }
    }
}

#[test]
fn stream_is_out_while_it_is_polled() {
    let mut resources = WasmResources::new();
    let handle = with_stream(&mut resources, 500);
    let other = with_stream(&mut resources, 600);
    assert_ne!(handle, other);
    assert_eq!(resources.take_stream(handle), Some(500));
    assert_eq!(resources.take_stream(handle), None);
    assert_eq!(resources.tcp_read_poll(handle, 500, Poll::Pending), 0);
    assert_eq!(resources.take_stream(handle), Some(500));
    assert_eq!(resources.take_stream(other), Some(600));
}

#[test]
fn unknown_stream() {
    let mut resources = WasmResources::new();
    assert_eq!(resources.take_stream(3), None);
}

#[test]
fn answers() {
    let mut resources = WasmResources::new();
    let handle = with_stream(&mut resources, 5);
    let kind = ErrorKind { code: 10 };
    assert_eq!(resources.tcp_read_poll(handle, 5, Poll::Ready(Ok(3))), 0x3_0000_0001);
    assert_eq!(resources.tcp_read_poll(handle, 5, Poll::Ready(Err(kind))), 12);
    assert_eq!(resources.tcp_write_poll(handle, 5, Poll::Pending), 0);
    assert_eq!(resources.tcp_write_poll(handle, 5, Poll::Ready(Ok(4))), 0x4_0000_0001);
    assert_eq!(resources.tcp_write_poll(handle, 5, Poll::Ready(Err(kind))), 12);
    assert_eq!(resources.tcp_flush_poll(handle, 5, Poll::Pending), 0);
    assert_eq!(resources.tcp_flush_poll(handle, 5, Poll::Ready(Ok(()))), 1);
    assert_eq!(resources.tcp_flush_poll(handle, 5, Poll::Ready(Err(kind))), 12);
    assert_eq!(resources.tcp_shutdown_poll(handle, 5, Poll::Pending), 0);
    assert_eq!(resources.tcp_shutdown_poll(handle, 5, Poll::Ready(Ok(()))), 1);
    assert_eq!(resources.tcp_shutdown_poll(handle, 5, Poll::Ready(Err(kind))), 12);
    assert_eq!(resources.take_stream(handle), Some(5));
}

#[test]
fn ranges() {
    assert_eq!(guest_range(16, 4, 64), Some((16, 20)));
    assert_eq!(guest_range(60, 4, 64), Some((60, 64)));
    assert_eq!(guest_range(64, 0, 64), Some((64, 64)));
    assert_eq!(guest_range(60, 5, 64), None);
    assert_eq!(guest_range(65, 0, 64), None);
    assert_eq!(guest_range(0xffff_ffff, 1, usize::MAX), None);
    assert_eq!(guest_range(0xffff_ffff, 0, usize::MAX), Some((0xffff_ffff, 0xffff_ffff)));
}
