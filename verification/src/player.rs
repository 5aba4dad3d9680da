pub mod controller;
pub mod spaceship_controller;
