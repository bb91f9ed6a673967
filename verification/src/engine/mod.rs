pub mod binding;
pub mod events;
pub mod game;
pub mod handlers;
pub mod models;
