# tictactoe

A multiplayer tic-tac-toe game with proved game, protocol and wire-format logic.

- `src/board.rs`: the shared board: cells, reads and writes, and the wire
  numbers of cell kinds.
- `src/protocol.rs`: the messages of the login and play exchanges, the
  decisions that server and client take on them, and the proof that a board
  sent by the server arrives whole at a client.
- `src/codec.rs`, `src/wire.rs`: variable-length numbers, strings and message
  framing on the wire, with the proofs that what is written is read back.
- `src/local.rs`, `src/text.rs`: the two-player game on one terminal and the
  reading of typed numbers.
- `app/`: the programs (server, network client, local game) around the library.
