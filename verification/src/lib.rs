//! A two-faction tactical battle simulation: units, per-tick movement and
//! combat resolution, the request protocol and the snapshot wire format.

pub mod entity;
mod random;
pub mod turn_order;
pub mod movement;
pub mod combat;
pub mod codec;
pub mod protocol;
pub mod server;
pub mod render;
pub mod client;
