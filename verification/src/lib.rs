pub mod config;
pub mod db;
pub mod food;
pub mod loader;
pub mod sources;
pub mod text;
