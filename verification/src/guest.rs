//! The guest's side: sockets that the host owns, seen through its answers.
//!
//! Each method is one half of a call to the host: either it makes the integers
//! that the host is called with, or it takes the integers that the host
//! returned.
use vstd::prelude::*;
use vstd::slice::slice_subrange;

use tokio::io::ReadBuf;

use crate::outcome::ErrorKind;
use crate::outcome::Poll;
use crate::wire::ANSWER_PENDING;
use crate::wire::ANSWER_READY;
use crate::wire::SocketAddrV4;
use crate::wire::completion_outcome;
use crate::wire::decode_completion;
use crate::wire::decode_transfer;
use crate::wire::half;
use crate::wire::task_answer;
use crate::wire::transfer_outcome;
use crate::wire::transfer_round_trip;
use crate::wire::transfer_word;

verus! {

/// A buffer that a read fills from the front: `tokio::io::ReadBuf`.
#[verifier::external_type_specification]
#[verifier::external_body]
pub struct ExReadBuf<'a>(ReadBuf<'a>);

/// The bytes of a buffer that hold data.
pub uninterp spec fn buf_filled(buf: ReadBuf<'_>) -> Seq<u8>;

/// The bytes of a buffer that follow the data and have been initialized.
pub uninterp spec fn buf_spare(buf: ReadBuf<'_>) -> Seq<u8>;

/// The number of bytes that a buffer has room for behind its data.
pub uninterp spec fn buf_room(buf: ReadBuf<'_>) -> nat;

/// `ReadBuf::remaining`: the number of bytes that there is room for behind the
/// data.
#[verifier::external_body]
pub(crate) fn read_buf_remaining(buf: &ReadBuf<'_>) -> (len: usize)
    ensures
        len == buf_room(*buf),
{
    buf.remaining()
}

/// `ReadBuf::put_slice`: writes the bytes behind the data, for which there must
/// be room, and counts them as data. What was initialized behind them stays so,
/// and nothing else becomes so.
#[verifier::external_body]
pub(crate) fn read_buf_put_slice(buf: &mut ReadBuf<'_>, bytes: &[u8])
    requires
        bytes@.len() <= buf_room(*old(buf)),
    ensures
        buf_filled(*final(buf)) == buf_filled(*old(buf)) + bytes@,
        buf_room(*final(buf)) == buf_room(*old(buf)) - bytes@.len(),
        buf_spare(*final(buf)) == (if bytes@.len() <= buf_spare(*old(buf)).len() {
            buf_spare(*old(buf)).skip(bytes@.len() as int)
        } else {
            Seq::<u8>::empty()
        }),
{
    buf.put_slice(bytes)
}

/// The number of bytes of a buffer that have been initialized, data or not.
pub open spec fn buf_initialized(buf: ReadBuf<'_>) -> nat {
    buf_filled(buf).len() + buf_spare(buf).len()
}

/// A length as the host gets it, cut to the width of the guest's addresses.
fn length_on_wire(len: usize) -> (short: u32)
    ensures
        short == len as int % half(),
        short == len as int % 0x1_0000_0000,
{
    let wide: u64 = len as u64;
    proof {
        assert(wide as u32 == wide % 0x1_0000_0000) by (bit_vector);
    }
    wide as u32
}

/// A stream that the host keeps under this handle.
#[derive(Clone, Copy, PartialEq, Eq, Structural, Debug)]
pub struct TcpWrapper(pub u64);

impl TcpWrapper {
    /// Makes what the host is called with to read into a buffer: the stream's
    /// handle and the number of bytes that there is room for.
    pub fn read_request(&self, buf: &ReadBuf<'_>) -> (request: (u64, u32))
        ensures
            request.0 == self.0,
            request.1 == buf_room(*buf) as int % half(),
            buf_room(*buf) <= u32::MAX ==> request.1 == buf_room(*buf),
    {
        (self.0, length_on_wire(read_buf_remaining(buf)))
    }

    /// Takes the host's answer to a read, and what the host has written: on
    /// success, as many of those bytes as it says become data. Otherwise the
    /// buffer is left as it was.
    pub fn poll_read(&self, buf: &mut ReadBuf<'_>, written: &[u8], word: u64) -> (polled: Poll<
        Result<(), ErrorKind>,
    >)
        requires
            transfer_outcome(word as int) matches Poll::Ready(Ok(len)) ==> len <= written@.len()
                && len <= buf_room(*old(buf)),
        ensures
            match transfer_outcome(word as int) {
                Poll::Pending => {
                    &&& polled == (Poll::<Result<(), ErrorKind>>::Pending)
                    &&& *final(buf) == *old(buf)
                },
                Poll::Ready(Ok(len)) => {
                    &&& polled == (Poll::Ready(Ok::<(), ErrorKind>(())))
                    &&& buf_filled(*final(buf)) == buf_filled(*old(buf)) + written@.take(len as int)
                    &&& buf_room(*final(buf)) == buf_room(*old(buf)) - len
                    &&& buf_spare(*final(buf)) == (if len <= buf_spare(*old(buf)).len() {
                        buf_spare(*old(buf)).skip(len as int)
                    } else {
                        Seq::<u8>::empty()
                    })
                    &&& buf_initialized(*final(buf)) == (if buf_filled(*old(buf)).len() + len
                        <= buf_initialized(*old(buf)) {
                        buf_initialized(*old(buf))
                    } else {
                        buf_filled(*old(buf)).len() + len as nat
                    })
                },
                Poll::Ready(Err(kind)) => {
                    &&& polled == (Poll::Ready(Err::<(), ErrorKind>(kind)))
                    &&& *final(buf) == *old(buf)
                },
            },
            word & 0xffff_ffff == 0 <==> polled is Pending,
            word & 0xffff_ffff == 1 <==> polled matches Poll::Ready(Ok(_)),
            word & 0xffff_ffff == 1 ==> buf_filled(*final(buf)) == buf_filled(*old(buf))
                + written@.take((word >> 32) as int),
            word & 0xffff_ffff != 1 ==> *final(buf) == *old(buf),
            polled matches Poll::Ready(Err(kind)) ==> kind.code == ((word & 0xffff_ffff) - 2) % 256,
    {
        match decode_transfer(word) {
            Poll::Pending => Poll::Pending,
            Poll::Ready(Ok(len)) => {
                let bytes: &[u8] = slice_subrange(written, 0, len);
                assert(bytes@ =~= written@.take(len as int));
                read_buf_put_slice(buf, bytes);
                Poll::Ready(Ok(()))
            },
            Poll::Ready(Err(kind)) => Poll::Ready(Err(kind)),
        }
    }

    /// Makes what the host is called with to write these bytes: the stream's
    /// handle and their number.
    pub fn write_request(&self, bytes: &[u8]) -> (request: (u64, u32))
        ensures
            request.0 == self.0,
            request.1 == bytes@.len() as int % half(),
            bytes@.len() <= u32::MAX ==> request.1 == bytes@.len(),
    {
        (self.0, length_on_wire(bytes.len()))
    }

    /// Takes the host's answer to a write: the number of bytes written.
    pub fn poll_write(&self, word: u64) -> (polled: Poll<Result<usize, ErrorKind>>)
        ensures
            polled == transfer_outcome(word as int),
            word & 0xffff_ffff == 0 <==> polled is Pending,
            word & 0xffff_ffff == 1 <==> polled matches Poll::Ready(Ok(_)),
            polled matches Poll::Ready(Ok(len)) ==> len == word >> 32,
            polled matches Poll::Ready(Err(kind)) ==> kind.code == ((word & 0xffff_ffff) - 2) % 256,
    {
        decode_transfer(word)
    }

    /// Takes the host's answer to a flush.
    pub fn poll_flush(&self, status: u8) -> (polled: Poll<Result<(), ErrorKind>>)
        ensures
            polled == completion_outcome(status as int),
            status == 0 <==> polled is Pending,
            status == 1 <==> polled matches Poll::Ready(Ok(_)),
            polled matches Poll::Ready(Err(kind)) ==> kind.code + 2 == status,
    {
        decode_completion(status)
    }

    /// Takes the host's answer to a shutdown.
    pub fn poll_shutdown(&self, status: u8) -> (polled: Poll<Result<(), ErrorKind>>)
        ensures
            polled == completion_outcome(status as int),
            status == 0 <==> polled is Pending,
            status == 1 <==> polled matches Poll::Ready(Ok(_)),
            polled matches Poll::Ready(Err(kind)) ==> kind.code + 2 == status,
    {
        decode_completion(status)
    }
}

/// A host that reads no more than it was asked for gives an answer that fits the
/// buffer.
pub proof fn answered_read_fits(room: nat, len: usize)
    requires
        len <= room as int % half(),
    ensures
        transfer_outcome(transfer_word(Poll::Ready(Ok(len)))) == (Poll::Ready(
            Ok::<usize, ErrorKind>(len),
        )),
        len <= room,
{
    transfer_round_trip(Poll::Ready(Ok(len)));
}

/// A connection that the host is opening.
pub struct TcpConnectFuture {
    /// The host's handle of the connection.
    pub future: u64,
    /// What came of it, once the host has written it here.
    pub results: Option<Result<TcpWrapper, ErrorKind>>,
}

/// What the host's three integers say of a connection that it has opened, or
/// failed to.
pub open spec fn open_results(handle: u64, error: u32, is_error: bool) -> Result<
    TcpWrapper,
    ErrorKind,
> {
    if is_error {
        Err(ErrorKind { code: (error as int % 256) as u8 })
    } else {
        Ok(TcpWrapper(handle))
    }
}

/// The guest finds an error exactly if the flag says so, whatever the handle and
/// the error's number. The error's code is the lowest byte of that number, and a
/// stream has the very handle that was written.
pub proof fn the_flag_decides(handle: u64, error: u32, is_error: bool)
    ensures
        open_results(handle, error, is_error) is Err <==> is_error,
        open_results(handle, error, is_error) matches Ok(stream) ==> stream.0 == handle,
        open_results(handle, error, is_error) matches Err(kind) ==> kind.code == error as u8,
{
    assert(error as u8 == error % 256) by (bit_vector);
}

/// Takes what the host writes about a connection, in the middle of a poll of
/// it.
pub fn write_tcp_open_results(
    result_location: &mut TcpConnectFuture,
    handle: u64,
    error: u32,
    is_error: bool,
)
    ensures
        final(result_location).future == old(result_location).future,
        final(result_location).results == Some(open_results(handle, error, is_error)),
        final(result_location).results matches Some(results) && (results is Err <==> is_error),
        final(result_location).results matches Some(Ok(stream)) ==> stream.0 == handle,
        final(result_location).results matches Some(Err(kind)) ==> kind.code == error as u8,
{
    proof {
        assert(error as u8 == error % 256) by (bit_vector);
    }
    result_location.results = Some(
        if is_error {
            Err(ErrorKind { code: error as u8 })
        } else {
            Ok(TcpWrapper(handle))
        },
    );
}

/// A connection that the host has begun to open, under this handle.
pub fn open_tcp(future: u64) -> (connect: TcpConnectFuture)
    ensures
        connect.future == future,
        connect.results is None,
{
    TcpConnectFuture { future, results: None }
}

impl TcpConnectFuture {
    /// Takes the host's answer to a poll. When the host says that the connection
    /// is done, it has written what came of it before.
    pub fn poll(&mut self, is_done: bool) -> (polled: Poll<Result<TcpWrapper, ErrorKind>>)
        requires
            is_done ==> old(self).results is Some,
        ensures
            final(self).future == old(self).future,
            is_done ==> polled == Poll::Ready(old(self).results->0) && final(self).results is None,
            !is_done ==> polled == (Poll::<Result<TcpWrapper, ErrorKind>>::Pending)
                && final(self).results == old(self).results,
    {
        if is_done {
            Poll::Ready(self.results.take().unwrap())
        } else {
            Poll::Pending
        }
    }
}

/// The port that a text gives as a URI: `None` if it is no URI, and
/// `Some(None)` if it is one without a port.
pub uninterp spec fn uri_port(text: Seq<char>) -> Option<Option<u16>>;

/// `hyper::Uri`'s `from_str` and `port_u16`: the port in the authority of the
/// URI that the text is. The grammar of URIs is left to that crate.
#[verifier::external_body]
fn parse_uri_port(text: &str) -> (port: Option<Option<u16>>)
    ensures
        port == uri_port(text@),
{
    match text.parse::<hyper::Uri>() {
        Ok(uri) => Some(uri.port_u16()),
        Err(_) => None,
    }
}

/// The port that is connected to when a URI names none.
pub const DEFAULT_PORT: u16 = 4444;

/// Whether this is the gateway's address for a URI with this port.
pub open spec fn is_gateway(addr: SocketAddrV4, port: Option<u16>) -> bool {
    &&& addr.ip@ == seq![10u8, 0, 0, 10]
    &&& addr.port == (match port {
        Some(p) => p,
        None => DEFAULT_PORT,
    })
}

/// The gateway is at 10.0.0.10 for every URI, at the very port that the URI names,
/// whichever that is, and at 4444 if it names none. So two URIs with different
/// ports never lead to the same address.
pub proof fn gateway_keeps_the_port(addr: SocketAddrV4, port: Option<u16>)
    ensures
        is_gateway(addr, port) ==> addr.ip@ == seq![10u8, 0, 0, 10],
        forall|p: u16| #[trigger] is_gateway(addr, Some(p)) ==> addr.port == p,
        is_gateway(addr, None) ==> addr.port == 4444,
        forall|p: u16, q: u16|
            #![trigger is_gateway(addr, Some(p)), is_gateway(addr, Some(q))]
            is_gateway(addr, Some(p)) && is_gateway(addr, Some(q)) ==> p == q,
{
}

/// The connector of the guest's HTTP client: whatever host a URI names, it
/// connects to one gateway.
#[derive(Clone, Copy, Debug)]
pub struct TcpConnector;

impl TcpConnector {
    /// The connector takes a request at any time.
    pub fn poll_ready(&mut self) -> (polled: Poll<Result<(), ErrorKind>>)
        ensures
            polled == (Poll::Ready(Ok::<(), ErrorKind>(()))),
    {
        Poll::Ready(Ok(()))
    }

    /// The address to connect to for a URI with this port.
    pub fn address(&self, port: Option<u16>) -> (addr: SocketAddrV4)
        ensures
            is_gateway(addr, port),
            addr.ip@ == seq![10u8, 0, 0, 10],
            port matches Some(p) ==> addr.port == p,
            port is None ==> addr.port == 4444,
    {
        let addr = SocketAddrV4 { ip: [10, 0, 0, 10], port: port.unwrap_or(DEFAULT_PORT) };
        assert(addr.ip@ =~= seq![10u8, 0, 0, 10]);
        addr
    }

    /// The address to connect to for this URI, or `None` if the text is no URI.
    pub fn call(&mut self, req: &str) -> (addr: Option<SocketAddrV4>)
        ensures
            match uri_port(req@) {
                Some(port) => addr matches Some(a) && is_gateway(a, port),
                None => addr is None,
            },
            addr is Some <==> uri_port(req@) is Some,
            addr matches Some(a) ==> a.ip@ == seq![10u8, 0, 0, 10],
            uri_port(req@) matches Some(Some(p)) ==> (addr matches Some(a) && a.port == p),
            uri_port(req@) matches Some(None) ==> (addr matches Some(a) && a.port == 4444),
    {
        match parse_uri_port(req) {
            Some(port) => Some(self.address(port)),
            None => None,
        }
    }
}

/// Makes the guest's answer to a poll of one of its tasks.
pub fn poll(polled: Poll<()>) -> (status: u8)
    ensures
        status == task_answer(polled),
        polled is Ready ==> status == 1,
        polled is Pending ==> status == 0,
{
    match polled {
        Poll::Pending => ANSWER_PENDING,
        Poll::Ready(_) => ANSWER_READY,
    }
}

/// A task as the guest hands it to the host: a future that gives nothing back.
pub struct FutureWrapper<F> {
    pub fut: F,
}

impl<F> FutureWrapper<F> {
    /// Wraps a future.
    pub fn new(fut: F) -> (wrapper: FutureWrapper<F>)
        ensures
            wrapper.fut == fut,
    {
        FutureWrapper { fut }
    }
}

/// What a poll of a spawned task finds, from what a poll of the channel that
/// carries its value found. The caller has ruled out that the task was dropped
/// before it sent the value, when the channel gives an error. How the task fares
/// in between, and so what the channel gives, is left unsaid.
pub fn poll_task<T, E>(received: Poll<Result<T, E>>) -> (polled: Poll<T>)
    requires
        !(received matches Poll::Ready(Err(_))),
    ensures
        match received {
            Poll::Ready(Ok(value)) => polled == Poll::Ready(value),
            _ => polled == Poll::<T>::Pending,
        },
{
    match received {
        Poll::Ready(Ok(value)) => Poll::Ready(value),
        _ => Poll::Pending,
    }
}

} // verus!
