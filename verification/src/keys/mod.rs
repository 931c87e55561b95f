pub mod input;
pub mod commands;
