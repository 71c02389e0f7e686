//! The logic of a plugin that shows the conversations of a chat service in
//! the buffers of a terminal chat client.
//!
//! The client runs on one thread and may be touched from that thread only;
//! the connection to the service runs on others. At the core of the library
//! is what keeps the two apart and in step: the queue of jobs for the main
//! thread (`sync`), the tracker of who is typing (`typing`), the cache of the
//! messages that each buffer shows (`message_manager`) and the decisions that
//! gateway events lead to (`event_handler`). Around it stand the grammars and
//! formats of the plugin: command lines, stored names, mentions, Markdown.
//!
//! Nothing here reads a clock, a file or a socket, starts a thread or calls
//! the host. The embedding program does that and hands over plain values.

pub mod bar_items;
pub mod buffers;
pub mod command;
pub mod config;
pub mod event_handler;
pub mod flatten;
pub mod formatting;
pub mod hook;
pub mod mentions;
pub mod message_manager;
pub mod nicklist;
pub mod numbers;
pub mod parsing;
pub mod printing;
pub mod search;
pub mod sync;
pub mod text;
pub mod typing;
pub mod utils;
