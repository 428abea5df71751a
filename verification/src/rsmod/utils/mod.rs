pub mod rotation;
