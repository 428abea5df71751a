pub mod collision;
pub mod coord_grid;
pub mod flag;
pub mod line;
pub mod loc_angle;
pub mod loc_shape;
pub mod utils;
pub mod step_validator;
pub mod reach;
pub mod pathfinder;
pub mod line_pathfinder;
pub mod line_validator;
pub mod naive_pathfinder;
