//! A sequencer for reversible, numbered actions: directories whose names
//! lead with digits become an ordered list, a persisted cursor records how
//! far the list has been applied, and runs apply (`do`) or revert (`undo`)
//! one action at a time, stopping at the first failure so that a later run
//! can resume where this one ended.

pub mod config;
