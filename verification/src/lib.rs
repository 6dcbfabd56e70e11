pub mod args;
pub mod decimal;
pub mod dispatch;
pub mod game;
pub mod laws;
pub mod level_checker;
pub mod listing;
pub mod menu;
pub mod message;
pub mod scoring;
