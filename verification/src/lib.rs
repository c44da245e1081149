pub mod app_state;
pub mod config;
pub mod form;
pub mod ids;
pub mod reconnect;
pub mod ssh;
pub mod ssh_config;
pub mod startup;
pub mod notification;
pub mod tray;
pub mod text;
