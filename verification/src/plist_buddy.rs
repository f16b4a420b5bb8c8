pub mod args;
pub mod commands;
pub mod dispatch;
pub mod laws;
pub mod render;
pub mod session;
pub mod tokens;
