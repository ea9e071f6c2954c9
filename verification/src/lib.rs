pub mod error;
pub mod text;
pub mod decimal;
pub mod digest;
pub mod time;
pub mod ordering;
pub mod autocut;
pub mod paths;
pub mod config;
pub mod model;
pub mod story;
pub mod validate;
pub mod cache;
pub mod ffmpeg;
pub mod planner;
pub mod render;
