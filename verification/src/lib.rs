pub mod argon2;
pub mod b2;
pub mod block;
pub mod compress;
pub mod config;
pub mod context;
pub mod encoding;
pub mod engine;
pub mod error;
pub mod memory;
pub mod result;
pub mod thread_mode;
pub mod variant;
pub mod version;
pub mod visualization;
pub mod words;
