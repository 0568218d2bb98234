//! Long Lens: the connection, clipboard and input logic of a minimal RDP
//! client, with its behaviour stated as contracts.

pub mod clipboard_codec;
pub mod config;
pub mod destinations;
pub mod input;
pub mod key_handler;
pub mod portal_transfer;
pub mod rdp_file;
pub mod secrets;
pub mod session;
pub mod text;
pub mod ui;
