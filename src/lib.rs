//! A swarm of drifting points ("fireflies") and a brute-force search for
//! each point's nearest neighbours, on integer fixed-point coordinates.

mod chance;
pub mod particle;
pub mod proximity;
pub mod simulation;
