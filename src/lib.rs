//! Cooperative particle-filter localisation on fixed-point integers.
//!
//! Agents estimate their positions from noisy ranges to fixed anchors and to
//! each other. Lengths are micrometres, velocities micrometres per second,
//! accelerations micrometres per second squared and time steps milliseconds.
//! Particle weights are fractions of [`particle_filter::WEIGHT_ONE`]. Every
//! random draw but the enclosures' and the resampling offset's is made by the
//! caller and handed in, so each step is a function of its inputs.
pub mod error;
pub mod geometry;

pub mod dynamics_model;
pub mod enclosure;
pub mod likelihood;
pub mod ranging;

pub mod particle_filter;
pub mod resampling;
pub mod weights;

pub mod anchor;
pub mod measurements;
pub mod simulation;
pub mod swarm_element;
pub mod visulization;

mod random;
