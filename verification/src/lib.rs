//! Symbolic analog network engine.
pub mod circuit;
pub mod corners;
pub mod cutsets;
pub mod dae;
pub mod device;
pub mod export;
pub mod forest;
pub mod index2;
pub mod instants;
pub mod netlist;
pub mod numerics;
pub mod osdi;
pub mod paths;
pub mod reals;
pub mod scripting;
pub mod source_fn;
pub mod symbolic;
pub mod table;
pub mod text;
pub mod waveform;
pub mod wholes;
