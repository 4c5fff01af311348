pub mod cli;
pub mod diff;
