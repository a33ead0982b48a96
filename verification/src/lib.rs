//! The verified core of the Wrela compiler library.
pub mod hashing;
pub mod text;
pub mod ordering;
pub mod architecture_planning;
pub mod compiler;
pub mod completed_semantic;
pub mod executable_demand;
pub mod completed_actors;
pub mod core_program;
pub mod core_oracle;
pub mod control_flow;
pub mod distribution;
pub mod evaluator;
