//! A branching-story interpreter: story nodes are loaded from semicolon
//! separated rows, and a game state walks them by tag while a life counter
//! rises and falls.

pub mod engine;
pub mod loader;
pub mod story;
pub mod text;
