pub mod chat;
pub mod common;
pub mod entity;
pub mod player;
