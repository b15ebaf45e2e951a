//! A verified social backend for multiplayer games: player identity, a
//! symmetric friendship graph with blocking and friend requests, session
//! bookkeeping, and room/whisper chat routing.

pub mod clock;
pub mod data_access;
pub mod dispatch;
pub mod error;
pub mod ids;
pub mod i18n;
pub mod laws;
pub mod protocol;
pub mod server;
pub mod session;
pub mod store;
pub mod text;
pub mod validation;
