pub mod messages;
pub mod objects;
