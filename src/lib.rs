pub mod agent;
pub mod auth;
pub mod config;
pub mod hardware;
pub mod heartbeat;
pub mod parse;
pub mod reference;
pub mod software;
pub mod store;
pub mod system;
pub mod text;
