//! Client side of a line- and block-oriented instrument-control protocol.
//!
//! The library holds what decides: how a command is framed, how one reply is
//! recognised in a byte stream (a text line or a `#`-prefixed binary block),
//! the state of a device's connection, and how the outcome of an operation run
//! under a temporary timeout is reported.
pub mod frame;
pub mod laws;
pub mod link;
pub mod reply;

pub use frame::{command_frame, remove_newline};
pub use link::{scoped_outcome, step_result, Link, LxiError, ScopedError};
pub use reply::{decode_reply, FrameFault, LxiHook, LxiTextHook, ReplyDecoder, Response, Step};
