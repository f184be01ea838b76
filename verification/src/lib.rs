pub mod agent;
pub mod cli;
pub mod daemon;
pub mod db;
pub mod json;
pub mod server;
pub mod store;
pub mod text;
