pub mod args;
pub mod bytes;
pub mod checksum;
pub mod commands;
pub mod chunk;
pub mod chunk_type;
pub mod error;
pub mod path;
pub mod png;
pub mod text;
