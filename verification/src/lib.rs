//! Binary formats, simulation and FPGA synthesis for a four-tape Polynomial Turing Machine.
pub mod be_bytes;
pub mod crc32;
pub mod text;
pub mod magic;
pub mod header;
pub mod state;
pub mod tape;
pub mod transition_table;
pub mod snapshot;
pub mod simulator;
pub mod pattern;
pub mod trace_analyzer;
pub mod state_machine;
pub mod cyclone_target;
pub mod tape_ctrl;
pub mod verilog_gen;
pub mod anomaly;
