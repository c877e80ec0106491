pub mod text;
pub mod message;
pub mod display;
pub mod server;
pub mod client;
pub mod wire;
