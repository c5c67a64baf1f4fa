pub mod deck;
pub mod protocol;
pub mod text;
pub mod engine;
pub mod strategy;
pub mod clock;
pub mod player;
pub mod room;
pub mod handshake;
pub mod logger;
pub mod commands;
pub mod server;
