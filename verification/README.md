# wasi_tcp

Asynchronous TCP for WebAssembly guests: a guest polls sockets that its host
keeps, and the host polls the guest's tasks. `src/` is the logic of both sides,
verified with Verus; `app/` is the host program and the guest around it.

- `src/outcome.rs`: the outcome of a poll.
- `src/wire.rs`: the integers in which outcomes and addresses cross.
- `src/guest.rs`: the guest's sockets, connector and tasks.
- `src/host.rs`: what the host keeps for a guest, and its answers.
- `src/executor.rs`: the rounds in which the host polls the guest's tasks.
- `src/waker.rs`: who owns a waker.
- `src/colonies.rs`: the slot maps behind the host's handles.

What is trusted without proof: the contracts of the slot maps in
`src/colonies.rs` (the `colony` crate), and in `src/guest.rs` those of the read
buffer (`tokio`) and of the port of a URI (`hyper`).
