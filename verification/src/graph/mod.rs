//! The Microsoft Graph family: mail, calendar, meetings, chats and shared
//! files.

pub mod artifacts;
pub mod auth;
pub mod chat;
pub mod client;
pub mod config;
pub mod explicit;
pub mod folder;
pub mod inbox;
pub mod plugins;
pub mod records;
pub mod sharepoint;
pub mod sync;
pub mod transcript;
pub mod urls;
pub mod window;
