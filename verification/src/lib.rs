//! The protocol engine of a pinentry responder that answers `GETPIN` with a
//! secret from a password manager instead of asking the user.
//!
//! - [`command`] recognizes the command that a request line names.
//! - [`pinentry`] holds the session: its state, its handlers and its replies.
//! - [`op`] holds the rules of the secret provider.
//! - [`text`] holds the text helpers that the others share.
//!
//! The library does no input or output. A session collects its replies, and
//! the program around it reads the requests and sends the replies.

pub mod command;
pub mod op;
pub mod pinentry;
pub mod text;
