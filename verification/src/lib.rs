//! A launcher that toggles a game between its original and a modded
//! configuration: it terminates the running game, reconciles the on-disk
//! mod-pak directory with the user's choice, and hands a launch plan to the
//! process layer.
//!
//! The verified core lives here: the config-file grammar with its round-trip
//! proof, the input selector, the mod-state reconciliation, and the launch
//! argument rule.  Filesystem, process, and dialog I/O stay outside.

pub mod config_store;
pub mod launch;
pub mod reconcile;
pub mod selector;
