//! The workspace server: tokens, file transfer, routing, and the sessions of the
//! browsers attached to a workspace.

pub mod auth;
pub mod connection;
pub mod files;
pub mod http;
pub mod multiplayer;
pub mod paths;
pub mod session;
pub mod state;
pub mod token;
pub mod transfer;
pub mod walk;
pub mod wire;
