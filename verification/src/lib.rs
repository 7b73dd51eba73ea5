//! The logic of asynchronous TCP for WebAssembly guests.
//!
//! A guest cannot open sockets. Its host opens and polls them for it, and the
//! two talk in calls that pass plain integers: words that tell how a poll went,
//! handles of streams and of connections that are being opened, and handles of
//! wakers. The host in turn polls the guest's tasks. This crate holds what both
//! sides decide and compute; the calls themselves, the sockets and the wakers
//! belong to the program around it.
//!
//! * [`outcome`]: the outcome of a poll.
//! * [`wire`]: the integers in which outcomes and addresses cross.
//! * [`guest`]: the guest's sockets, its connector and its tasks.
//! * [`host`]: what the host keeps for a guest, and its answers.
//! * [`executor`]: the rounds in which the host polls the guest's tasks.
//! * [`waker`]: who owns a waker.
//! * [`colonies`]: the slot maps behind the host's handles.
pub mod colonies;
pub mod executor;
pub mod guest;
pub mod host;
pub mod outcome;
pub mod waker;
pub mod wire;

pub use executor::WasmFutures;
pub use guest::FutureWrapper;
pub use guest::TcpConnectFuture;
pub use guest::TcpConnector;
pub use guest::TcpWrapper;
pub use guest::open_tcp;
pub use guest::poll;
pub use guest::poll_task;
pub use guest::write_tcp_open_results;
pub use host::WasmResources;
pub use host::guest_range;
pub use outcome::ErrorKind;
pub use outcome::Poll;
pub use waker::WakerCall;
pub use waker::waker_effect;
pub use wire::SocketAddrV4;
