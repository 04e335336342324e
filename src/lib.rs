//! A steering simulation for a mouse-reactive swarm of agents.
pub mod vector;
pub mod steering;
pub mod boids;
mod random;
pub mod bullets;
pub mod flock;
pub mod pausing;
