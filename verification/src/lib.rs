//! Verified building blocks of a few small command-line tools: a password
//! generator with strength scoring, a Markdown to HTML converter, a terminal
//! chat client and server, and a command dispatcher.
use vstd::prelude::*;

pub mod chat_client;
pub mod chat_server;
pub mod commands;
pub mod markdown;
pub mod password;
pub mod prompt;
pub mod text;

verus! {

} // verus!
