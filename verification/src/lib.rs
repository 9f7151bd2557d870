//! A turn-based capture game on a hexagonal grid, played by remote players
//! through a server that owns the state of every game.
//!
//! - [`models`]: the three forms of a hex-grid coordinate and the
//!   conversions between them.
//! - [`colors`], [`ui`]: the colors of players and of cells.
//! - [`board`]: the board engine: cells, pieces, legal moves and captures,
//!   and the two ways to make a board.
//! - [`structures`]: players, lobbies and the messages of the protocol.
//! - [`order`]: the order of player ids, by which the lead is handed on.
//! - [`server`]: a lobby as the server holds it, and what each change of
//!   it sends to whom.
//! - [`registry`]: the registry of lobbies and the steps of a connection's
//!   handler.
//! - [`client`]: what a client decides between messages and clicks.
//!
//! The library performs no input or output. The operations of the server
//! return the deliveries that they ask for, and the program around the
//! library carries them out.

pub mod board;
pub mod client;
pub mod colors;
pub mod models;
pub mod order;
pub mod registry;
pub mod server;
pub mod structures;
pub mod ui;
