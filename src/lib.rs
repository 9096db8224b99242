pub mod game;
pub mod interval;
pub mod player;
pub mod provider;
