//! A conflict-free timetable engine driven by simulated annealing.

pub mod annealing;
pub mod data_types;
pub mod illegal_state;
pub mod input;
pub mod output;
