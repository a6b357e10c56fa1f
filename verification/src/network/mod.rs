pub mod net_manage;
pub mod net_message;
pub mod net_system;
pub mod net_tasks;
pub mod server;
