# tako

How two peers of a task server authenticate each other, how the messages of their connection are
sealed and put into frames, and how the scheduling solver is set up. The library is written in
Verus: what each function does is stated in its contract and proved.

- `src/auth.rs`, `src/handshake.rs`: the authentication of a peer, and its course over a connection.
- `src/transfer.rs`: sealing and opening messages, cutting them into frames and joining them.
- `src/config.rs`, `src/processes.rs`: the time limit and the threads of the solver.
- `src/*_laws.rs`: what holds across these functions, such as that matching peers accept each
  other and that messages arrive as they were sent.
- `src/stream.rs`, `src/buffer.rs`: what is taken on trust of the crates `orion` and `bytes`. What
  comes from `nix`, the limit on threads and the user, stands in `src/config.rs` and
  `src/processes.rs`; of its values nothing is claimed.
- `src/text.rs`, `src/messages.rs`, `src/error.rs`: the text, messages and errors of the others.
- `app/`: the network, the environment and serialization around the library.
