pub mod position;
pub mod tile;
pub mod chunk;
pub mod level;
pub mod direction;
