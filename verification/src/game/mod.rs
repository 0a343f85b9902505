pub mod engine;
pub mod feed_text;
pub mod map;
pub mod pathfinding;
pub mod player;
pub mod priority;
