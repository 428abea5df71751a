pub mod reach_strategy;
pub mod rectangle_boundary;
