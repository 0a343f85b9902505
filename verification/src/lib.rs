//! Verified core of the NeuroBlasters tank game: the wire-level protocol
//! types, the client session state machine, map data, grid path finding and
//! the small pieces of client bookkeeping that do not touch graphics or I/O.

pub mod ai;
pub mod fps;
pub mod game;
pub mod lobby;
pub mod net;
pub mod protocol;
pub mod session;
pub mod text_input;
pub mod training;
pub mod views;
