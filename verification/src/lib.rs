pub mod text;
pub mod size;
pub mod pvesh;
pub mod commands;
pub mod download;
pub mod catalog;
pub mod config;
pub mod cli;
pub mod choices;
pub mod hashing;
pub mod flows;
