//! The host's side: what it keeps for a guest, and its answers to the guest's
//! calls.
//!
//! The sockets themselves belong to the program around this library, which
//! knows each of them by a number of its choosing. A call of the guest is
//! answered in two steps: the first finds the socket, the program polls it, and
//! the second takes the outcome of that poll and makes the answer.
use vstd::prelude::*;

use crate::colonies::ConnectColony;
use crate::colonies::SLOT_LIMIT;
use crate::colonies::StreamColony;
use crate::colonies::connect_slots;
use crate::colonies::connects_get;
use crate::colonies::connects_insert;
use crate::colonies::connects_len;
use crate::colonies::connects_new;
use crate::colonies::connects_remove;
use crate::colonies::stream_slots;
use crate::colonies::streams_get_mut;
use crate::colonies::streams_insert;
use crate::colonies::streams_len;
use crate::colonies::streams_new;
use crate::guest::TcpWrapper;
use crate::guest::open_results;
use crate::outcome::ErrorKind;
use crate::outcome::Poll;
use crate::wire::completion_status;
use crate::wire::encode_completion;
use crate::wire::encode_transfer;
use crate::wire::transfer_word;

verus! {

/// What the host writes to the guest about a connection that is done: the
/// arguments of `write_tcp_open_results`, behind the place to write to.
#[derive(Clone, Copy, PartialEq, Eq, Structural, Debug)]
pub struct OpenResults {
    pub handle: u64,
    pub error: u32,
    pub is_error: u32,
}

/// The host's answer to a poll of a connection.
#[derive(Clone, Copy, PartialEq, Eq, Debug)]
pub struct ConnectAnswer {
    /// What to write to the guest first, if the connection is done.
    pub results: Option<OpenResults>,
    /// What the guest's call returns: 1 if the connection is done, else 0.
    pub done: u32,
}

/// What the host writes for a stream under this handle, or for a failure.
pub open spec fn open_results_of(opened: Result<usize, ErrorKind>) -> OpenResults {
    match opened {
        Ok(handle) => OpenResults { handle: handle as u64, error: 0, is_error: 0 },
        Err(kind) => OpenResults { handle: 0, error: kind.code as u32, is_error: 1 },
    }
}

/// The slot that the guest means by a handle.
pub open spec fn slot(handle: u64) -> usize {
    handle as usize
}

/// Whether every stream is in its place.
pub open spec fn settled(streams: Map<usize, Option<u64>>) -> bool {
    forall|h: usize| #[trigger] streams.contains_key(h) ==> streams[h] is Some
}

/// Where a buffer of the guest lies in its memory: the start and the end of it,
/// or `None` if not all of it is there.
pub fn guest_range(buf: u32, buf_length: u32, memory_len: usize) -> (range: Option<(usize, usize)>)
    ensures
        match range {
            Some((start, end)) => start == buf && end == buf + buf_length && end <= memory_len
                && end <= u32::MAX,
            None => buf + buf_length > memory_len || buf + buf_length > u32::MAX,
        },
{
    match buf.checked_add(buf_length) {
        Some(end) => if end as usize <= memory_len {
            Some((buf as usize, end as usize))
        } else {
            None
        },
        None => None,
    }
}

/// What the host keeps for one guest.
pub struct WasmResources {
    tcp_streams: StreamColony,
    in_progress_connects: ConnectColony,
}

impl WasmResources {
    /// The streams by their handles. A slot is `None` while its stream is out to
    /// be polled.
    pub closed spec fn streams(&self) -> Map<usize, Option<u64>> {
        stream_slots(self.tcp_streams)
    }

    /// The connections that are being opened, by their handles.
    pub closed spec fn connects(&self) -> Map<usize, u64> {
        connect_slots(self.in_progress_connects)
    }

    /// A guest without streams and connections.
    pub fn new() -> (resources: WasmResources)
        ensures
            resources.streams() == (Map::<usize, Option<u64>>::empty()),
            resources.connects() == (Map::<usize, u64>::empty()),
            settled(resources.streams()),
    {
        WasmResources { tcp_streams: streams_new(), in_progress_connects: connects_new() }
    }

    /// Whether there is room for one more connection.
    pub fn has_connect_room(&self) -> (room: bool)
        ensures
            room == (self.connects().len() < SLOT_LIMIT),
    {
        connects_len(&self.in_progress_connects) < SLOT_LIMIT
    }

    /// Whether there is room for one more stream.
    pub fn has_stream_room(&self) -> (room: bool)
        ensures
            room == (self.streams().len() < SLOT_LIMIT),
    {
        streams_len(&self.tcp_streams) < SLOT_LIMIT
    }

    /// Keeps a connection that has been begun, and returns its handle.
    pub fn tcp_connect(&mut self, connect: u64) -> (future: u64)
        requires
            old(self).connects().len() < SLOT_LIMIT,
        ensures
            future <= usize::MAX,
            !old(self).connects().contains_key(slot(future)),
            final(self).connects() == old(self).connects().insert(slot(future), connect),
            final(self).streams() == old(self).streams(),
    {
        connects_insert(&mut self.in_progress_connects, connect) as u64
    }

    /// The connection that the guest means by a handle, if there is one.
    pub fn pending_connect(&self, future: u64) -> (connect: Option<u64>)
        ensures
            connect == (if self.connects().contains_key(slot(future)) {
                Some(self.connects()[slot(future)])
            } else {
                None
            }),
    {
        connects_get(&self.in_progress_connects, future as usize)
    }

    /// Takes the outcome of a poll of a connection. One that is done is dropped,
    /// and the stream that came of it is kept under a handle of its own.
    pub fn poll_tcp_connect(
        &mut self,
        future: u64,
        polled: Poll<Result<u64, ErrorKind>>,
    ) -> (answer: ConnectAnswer)
        requires
            old(self).connects().contains_key(slot(future)),
            polled matches Poll::Ready(Ok(_)) ==> old(self).streams().len() < SLOT_LIMIT,
        ensures
            answer.done == 1 <==> answer.results is Some,
            answer.done == 1 <==> polled is Ready,
            polled matches Poll::Ready(Ok(_)) ==> (answer.results matches Some(results)
                && results.is_error == 0 && results.error == 0),
            polled matches Poll::Ready(Err(kind)) ==> (answer.results matches Some(results)
                && results.is_error == 1 && results.error == kind.code && results.handle == 0),
            match polled {
                Poll::Pending => {
                    &&& answer.done == 0
                    &&& answer.results is None
                    &&& final(self).connects() == old(self).connects()
                    &&& final(self).streams() == old(self).streams()
                },
                Poll::Ready(Ok(stream)) => {
                    &&& answer.done == 1
                    &&& answer.results matches Some(results)
                    &&& results == open_results_of(Ok(slot(results.handle)))
                    &&& !old(self).streams().contains_key(slot(results.handle))
                    &&& final(self).streams() == old(self).streams().insert(
                        slot(results.handle),
                        Some(stream),
                    )
                    &&& final(self).connects() == old(self).connects().remove(slot(future))
                },
                Poll::Ready(Err(kind)) => {
                    &&& answer.done == 1
                    &&& answer.results == Some(open_results_of(Err(kind)))
                    &&& final(self).connects() == old(self).connects().remove(slot(future))
                    &&& final(self).streams() == old(self).streams()
                },
            },
    {
        match polled {
            Poll::Pending => ConnectAnswer { results: None, done: 0 },
            Poll::Ready(opened) => {
                connects_remove(&mut self.in_progress_connects, future as usize);
                let results = match opened {
                    Ok(stream) => {
                        let handle: usize = streams_insert(&mut self.tcp_streams, Some(stream));
                        OpenResults { handle: handle as u64, error: 0, is_error: 0 }
                    },
                    Err(kind) => OpenResults { handle: 0, error: kind.code as u32, is_error: 1 },
                };
                ConnectAnswer { results: Some(results), done: 1 }
            },
        }
    }

    /// Takes the stream that the guest means by a handle out of its place, to be
    /// polled. There is none if the handle is unknown or its stream is out.
    pub fn take_stream(&mut self, handle: u64) -> (stream: Option<u64>)
        ensures
            final(self).connects() == old(self).connects(),
            stream == (if old(self).streams().contains_key(slot(handle)) {
                old(self).streams()[slot(handle)]
            } else {
                None
            }),
            final(self).streams() == (if stream is Some {
                old(self).streams().insert(slot(handle), None)
            } else {
                old(self).streams()
            }),
    {
        match streams_get_mut(&mut self.tcp_streams, handle as usize) {
            Some(place) => place.take(),
            None => None,
        }
    }

    /// Puts a stream back into its place.
    fn return_stream(&mut self, handle: u64, stream: u64)
        requires
            old(self).streams().contains_key(slot(handle)),
        ensures
            final(self).connects() == old(self).connects(),
            final(self).streams() == old(self).streams().insert(slot(handle), Some(stream)),
    {
        match streams_get_mut(&mut self.tcp_streams, handle as usize) {
            Some(place) => {
                *place = Some(stream);
            },
            None => {},
        }
    }

    /// Takes the outcome of a read from a stream, which goes back to its place.
    pub fn tcp_read_poll(
        &mut self,
        handle: u64,
        stream: u64,
        polled: Poll<Result<usize, ErrorKind>>,
    ) -> (word: u64)
        requires
            old(self).streams().contains_key(slot(handle)),
        ensures
            word == transfer_word(polled),
            polled is Pending ==> word == 0,
            polled matches Poll::Ready(Ok(len)) ==> word & 0xffff_ffff == 1 && word >> 32 == (
            len as u64) & 0xffff_ffff,
            polled matches Poll::Ready(Err(kind)) ==> word - 2 == kind.code,
            final(self).connects() == old(self).connects(),
            final(self).streams() == old(self).streams().insert(slot(handle), Some(stream)),
    {
        self.return_stream(handle, stream);
        encode_transfer(polled)
    }

    /// Takes the outcome of a write to a stream, which goes back to its place.
    pub fn tcp_write_poll(
        &mut self,
        handle: u64,
        stream: u64,
        polled: Poll<Result<usize, ErrorKind>>,
    ) -> (word: u64)
        requires
            old(self).streams().contains_key(slot(handle)),
        ensures
            word == transfer_word(polled),
            polled is Pending ==> word == 0,
            polled matches Poll::Ready(Ok(len)) ==> word & 0xffff_ffff == 1 && word >> 32 == (
            len as u64) & 0xffff_ffff,
            polled matches Poll::Ready(Err(kind)) ==> word - 2 == kind.code,
            final(self).connects() == old(self).connects(),
            final(self).streams() == old(self).streams().insert(slot(handle), Some(stream)),
    {
        self.return_stream(handle, stream);
        encode_transfer(polled)
    }

    /// Takes the outcome of a flush of a stream, which goes back to its place.
    pub fn tcp_flush_poll(
        &mut self,
        handle: u64,
        stream: u64,
        polled: Poll<Result<(), ErrorKind>>,
    ) -> (status: u32)
        requires
            old(self).streams().contains_key(slot(handle)),
        ensures
            status == completion_status(polled),
            polled is Pending ==> status == 0,
            polled matches Poll::Ready(Ok(_)) ==> status == 1,
            polled matches Poll::Ready(Err(kind)) ==> status - 2 == kind.code,
            final(self).connects() == old(self).connects(),
            final(self).streams() == old(self).streams().insert(slot(handle), Some(stream)),
    {
        self.return_stream(handle, stream);
        encode_completion(polled)
    }

    /// Takes the outcome of a shutdown of a stream, which goes back to its
    /// place.
    pub fn tcp_shutdown_poll(
        &mut self,
        handle: u64,
        stream: u64,
        polled: Poll<Result<(), ErrorKind>>,
    ) -> (status: u32)
        requires
            old(self).streams().contains_key(slot(handle)),
        ensures
            status == completion_status(polled),
            polled is Pending ==> status == 0,
            polled matches Poll::Ready(Ok(_)) ==> status == 1,
            polled matches Poll::Ready(Err(kind)) ==> status - 2 == kind.code,
            final(self).connects() == old(self).connects(),
            final(self).streams() == old(self).streams().insert(slot(handle), Some(stream)),
    {
        self.return_stream(handle, stream);
        encode_completion(polled)
    }
}

/// What the host writes about a connection is what the guest finds in it: the
/// handle of the new stream, or the error.
pub proof fn open_results_round_trip(opened: Result<usize, ErrorKind>)
    ensures
        ({
            let results = open_results_of(opened);
            open_results(results.handle, results.error, results.is_error != 0) == (match opened {
                Ok(handle) => Ok::<TcpWrapper, ErrorKind>(TcpWrapper(handle as u64)),
                Err(kind) => Err(kind),
            })
        }),
{
}

/// The host writes the flag 0 for every connection that opened, whatever its
/// handle, and 1 with the error's code for every one that failed.
pub proof fn the_flag_tells_failure(opened: Result<usize, ErrorKind>)
    ensures
        opened matches Ok(handle) ==> open_results_of(opened).is_error == 0 && open_results_of(
            opened,
        ).error == 0 && open_results_of(opened).handle == handle,
        opened matches Err(kind) ==> open_results_of(opened).is_error == 1 && open_results_of(
            opened,
        ).error == kind.code && open_results_of(opened).handle == 0,
{
}

/// The handle that the guest gets for a slot means that slot to the host, and a
/// handle that an index can hold means the slot with that index.
pub proof fn handle_round_trip(h: usize)
    ensures
        slot(h as u64) == h,
        forall|handle: u64| handle <= usize::MAX ==> #[trigger] slot(handle) == handle,
{
}

/// A stream that is taken out and put back leaves the streams as they were.
pub proof fn stream_returns(streams: Map<usize, Option<u64>>, h: usize, stream: u64)
    requires
        streams.contains_key(h),
        streams[h] == Some(stream),
    ensures
        streams.insert(h, None).insert(h, Some(stream)) == streams,
{
    assert(streams.insert(h, None).insert(h, Some(stream)) =~= streams);
}

/// No stream stays out: if all are in their places, they still are after a
/// stream was taken out and put back, and after a new one came.
pub proof fn streams_stay_settled(streams: Map<usize, Option<u64>>, h: usize, stream: u64)
    requires
        settled(streams),
    ensures
        settled(streams.insert(h, None).insert(h, Some(stream))),
        settled(streams.insert(h, Some(stream))),
{
}

/// The streams are in their places exactly if no slot that is in use is empty.
pub proof fn settled_means_no_empty_slot(streams: Map<usize, Option<u64>>)
    ensures
        settled(streams) <==> !exists|h: usize|
            #![trigger streams.contains_key(h)]
            streams.contains_key(h) && streams[h] == None::<u64>,
{
}

} // verus!
