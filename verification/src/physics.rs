pub mod physics_sim;
