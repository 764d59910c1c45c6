pub mod sprite_atlas;
pub mod sprite_set;
