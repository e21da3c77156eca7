//! A local data mover: a binary request/response protocol over a Unix
//! socket, a pool of fixed-size buffers for the kernel's I/O ring, and the
//! settings that size them.
//!
//! - `config`: settings from environment-style text, and their checks.
//! - `protocol`: the wire format and its decoder.
//! - `iouring`: the buffer pool, the ring handle, and how batched reads join.
//! - `server`: what one connection decides.
//! - `optimizers`: names and settings of the workflow optimisation passes.
//! - `le`, `text`: little-endian integers and decimal text.

pub mod config;
pub mod iouring;
pub mod le;
pub mod optimizers;
pub mod protocol;
pub mod server;
pub mod text;
