//! Client-side engine for a line-oriented mail-transfer protocol (SMTP/LMTP):
//! message-body transparency encoding, incremental reply framing, command
//! pipelining, and the session-establishment state machine.
//!
//! The transport, the response grammar parser, and the authentication
//! mechanisms are outside collaborators; what this crate states and proves is
//! the logic between them.

pub mod pipeline;
pub mod reader;
pub mod reply;
pub mod session;
pub mod transparency;
