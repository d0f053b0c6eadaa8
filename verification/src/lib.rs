pub mod text;
pub mod style;
pub mod size;
pub mod config;
pub mod dates;
pub mod commands;
pub mod archiver;
