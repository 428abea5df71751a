pub mod block_flag;
pub mod collision_flag;
pub mod direction_flag;
pub mod zone_flag;
