pub mod codec;
pub mod decoder;
pub mod errors;
pub mod filter;
pub mod hello;
pub mod json;
pub mod player;
pub mod proto;
pub mod session;
pub mod settings;
pub mod timeval;
