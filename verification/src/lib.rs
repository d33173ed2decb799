//! Game logic of the Phira duel mode and its companion tools: the duel
//! protocol and room state machine, the launcher's network helpers, the
//! daily challenge, the local play history and the play configuration.

pub mod proto;
pub mod text;
pub mod server;
pub mod net;
pub mod launcher;
pub mod config;
pub mod daily;
pub mod history;
pub mod game;
pub mod history_page;
pub mod paths;
