pub mod audio;
pub mod catalog;
pub mod chars;
pub mod commands;
pub mod metadata;
pub mod playlist;
pub mod probe;
pub mod tui;
pub mod utils;
