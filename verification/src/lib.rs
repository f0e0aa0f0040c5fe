//! A file-serving daemon's core: request parsing, routing and its security
//! gate, byte-range file responses, response serialization and admission
//! control, each as a function on plain values with a proved contract.

pub mod assets;
pub mod cli;
pub mod error;
pub mod fields;
pub mod fs;
pub mod http;
pub mod pattern;
pub mod range;
pub mod response;
pub mod router;
pub mod server;
pub mod templates;
pub mod text;
pub mod utils;
