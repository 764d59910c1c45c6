pub mod ai_system;
pub mod chunk_system;
pub mod control_system;
pub mod health_system;
pub mod movement_system;
