//! The engine proper: timing, random numbers, the command plane and the mixer.

pub mod fixed;
pub mod blast_rand;
pub mod text;
pub mod lists;
pub mod blast_time;
pub mod spsc_q;
pub mod commands;
pub mod mirror;
pub mod grammar;
pub mod parser;
pub mod processes;
pub mod engine;
pub mod dispatch;
pub mod invariants;
pub mod coherence;
pub mod laws;
