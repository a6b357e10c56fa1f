pub mod player_input;
pub mod server_join;
