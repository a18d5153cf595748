pub mod event;
pub mod text;
pub mod server;
pub mod audit;
pub mod config;
pub mod memory;
pub mod gate;
pub mod intent;
pub mod tools;
pub mod skills;
pub mod mcp;
pub mod agent;
