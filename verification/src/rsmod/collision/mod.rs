pub mod collision;
pub mod collision_strategy;
pub mod zone;
