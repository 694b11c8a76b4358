//! The annealing engine: the slot index, its mutations and their bookkeeping.

pub mod adapter;
pub mod annealing_buffer;
pub mod annealing_run;
pub mod annealing_state;
pub mod energy;
pub mod illegal_buffer;
pub mod inner_state;
pub mod mutation;
