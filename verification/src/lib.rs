//! Verified core of the Codex quota bar: data-source status, token and
//! document handling, settings, tray rendering and taskbar placement.
pub mod geometry;
pub mod text;
pub mod status;
pub mod base64url;
pub mod doc;
pub mod parse;
pub mod account;
pub mod usage;
pub mod fetch;
pub mod settings;
pub mod poll;
pub mod tray;
pub mod taskbar;
