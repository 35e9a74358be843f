pub mod clock;
pub mod config;
pub mod health;
pub mod node;
pub mod proxy;
pub mod ring;
