//! Client-side logic of the MiIO protocol spoken by the RoboRock vacuum:
//! the binary frame codec, payload encryption, device discovery and the
//! status query.

pub mod config;
pub mod crypto;
pub mod deviceinfo;
pub mod discovery;
pub mod frame;
pub mod miiopayloads;
pub mod packet;
