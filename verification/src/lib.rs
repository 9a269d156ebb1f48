//! The verified core of a statistics and simulation toolkit: a
//! discrete-event simulator for a pipeline of single-server service stages
//! on integer time, and the whole-number parts of frequency tables and
//! stem-and-leaf displays. Every function is proved against its contract.

pub mod aggregation;
pub mod errors;
pub mod ffi;
pub mod simulations;
