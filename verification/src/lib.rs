//! The verified core of a browser-hosted editor and of the server behind it.

pub mod client_state;
pub mod clipboard;
pub mod database;
pub mod json;
pub mod kernels;
pub mod notebook;
pub mod percent;
pub mod request;
pub mod serve;
pub mod settings;
pub mod terminal;
pub mod text;
pub mod title_bar;
