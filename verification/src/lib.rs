//! Flattening of replaypacks: every file with a given extension that lies
//! anywhere below a replaypack is copied into one flat output directory
//! under a freshly generated name, and a mapping document records where
//! each copy came from.
//!
//! The library takes the decisions and leaves the filesystem to its caller.
//! It says which entries of a walk are files to copy (`filter`, `scanner`),
//! names the copies (`identifier`), keeps the table from generated name to
//! relative path (`mapping`) and prints it (`persister`), and it
//! drives the whole run as a state machine that hands out one filesystem
//! action at a time and takes back what became of it (`materializer`,
//! `orchestrator`). What holds of every run is proved in `runs`.

pub mod filter;
pub mod identifier;
pub mod mapping;
pub mod materializer;
pub mod orchestrator;
pub mod path;
pub mod persister;
pub mod runs;
pub mod scanner;
