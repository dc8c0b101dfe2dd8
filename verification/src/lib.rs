//! A multiplayer tic-tac-toe game: the shared board model, the rules of the
//! local two-player game, and the messages that a server and its clients
//! exchange to keep their boards in step.

pub mod board;
pub mod local;
pub mod text;
pub mod protocol;
pub mod codec;
pub mod wire;
