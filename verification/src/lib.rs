//! The engine of a Git workbench: a server that shows a client the commit graph,
//! the status and the references of a repository, and carries out writes that
//! can be undone.
//!
//! This crate holds what the engine decides and computes; reading files, running
//! `git` and talking to the client are left to the program around it.
//! - `protocol`, `framing`, `json` and `server`: messages, how they are framed,
//!   what they ask for and how they are answered;
//! - `graph`, `graph_read`, `lanes` and `cache`: pages of the commit graph, how
//!   they are read, the lanes that commits are drawn in, and what is kept of
//!   both;
//! - `status` and `git`: what is made of what the repository and `git` give;
//! - `session`: the epoch, and what changes to files mean;
//! - `names`, `write_queue` and `queue`: writes, the names that may reach `git`,
//!   and the order in which writes are carried out and settled;
//! - `snapshot`, `restore`, `undo` and `undo_laws`: the undo stack;
//! - `text`, `args` and `adapt`: operations on text, the arguments of the
//!   program, and what is taken from the library that reads repositories;
//! - `text_laws`, `view_laws` and `message_laws`: what holds of the operations on
//!   text, of the views of the types, and of the messages of errors.
pub mod adapt;
pub mod args;
pub mod cache;
pub mod framing;
pub mod git;
pub mod graph;
pub mod graph_read;
pub mod json;
pub mod lanes;
pub mod message_laws;
pub mod names;
pub mod protocol;
pub mod queue;
pub mod restore;
pub mod server;
pub mod session;
pub mod snapshot;
pub mod status;
pub mod text;
pub mod text_laws;
pub mod undo;
pub mod undo_laws;
pub mod view_laws;
pub mod write_queue;
