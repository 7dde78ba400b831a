//! Planning core of a small Ackermann-steered robot: behaviour state machine,
//! global path search, local planners and the command arbitrator.
//!
//! All arithmetic is IEEE-754 arithmetic carried out on bit patterns, so that
//! every contract can say exactly which number comes out.
pub mod arbitrator;
pub mod behavior;
pub mod config;
pub mod e2e;
pub mod fault;
pub mod figures;
pub mod geometry;
pub mod geometry_laws;
pub mod global_planner;
pub mod ieee;
pub mod local_planner;
pub mod trig;
