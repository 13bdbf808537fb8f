# decentralized_election

A verified model of an on-chain election program. An officer starts an
election for a number of winning seats; candidates apply and register while it
registers; voters vote while it votes; closing the vote leaves the winners,
most votes first, in the election account.

- `src/` is the library, verified with Verus. Each instruction
  (`initiate_election`, `apply`, `register`, `change_phase`, `vote`) takes the
  accounts it works on as plain values and states in its contract exactly what
  it leaves in them or which error refuses it. `src/model.rs` gives the
  election account as a mathematical value, `src/leaderboard.rs` the board of
  winners, and `src/laws.rs` what holds across instructions, and `src/lifetime.rs`
  what holds over any sequence of instructions after an election starts.
- `app/` is the Anchor program (`main.rs`, `onchain.rs`) that stores the
  accounts on chain and hands them to the library, and the client
  (`client.rs`) that drives an election over RPC.
- `tests/` runs the instructions on concrete accounts.
