//! Chunked, authenticated streaming encryption layered under compression.

pub mod args;
pub mod buffer;
pub mod cipher;
pub mod codec;
pub mod command;
pub mod cryptor;
pub mod decryptor;
pub mod encoding;
pub mod error;
pub mod framing;
pub mod list;
pub mod pipeline;
pub mod text;
