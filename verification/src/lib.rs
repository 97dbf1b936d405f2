//! A LAN chat library: passphrase-derived keys, sealed chat messages,
//! the server's session rules, and the chat window's state.

pub mod text;
pub mod emoji;
pub mod crypto;
pub mod color;
pub mod lines;
pub mod registry;
pub mod session;
pub mod client;
pub mod chat_view;
pub mod line_client;
pub mod threaded_server;
pub mod settings;
