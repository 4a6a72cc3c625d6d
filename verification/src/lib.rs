//! Reconciliation engine for a multi-room audio server.
//!
//! The library decides; it never talks to the server. Given the desired
//! configuration and a snapshot of what the server reports, it computes the
//! ordered list of commands that brings the server into line, and the mapping
//! from configured group names to live group identifiers that later
//! corrections go through.
//!
//! - [`config`] and [`state`] hold the desired and the observed state.
//! - [`startup`] plans the full reconciliation, [`follow`] the correction made
//!   when a stream starts to play, and [`control`] is the loop around both.
//! - [`command`] names what can be asked of the server, and [`effect`] says
//!   what the engine expects each command to do.
//! - [`convergence`] and [`laws`] prove what holds of every plan.
//! - [`mapping`], [`names`] and [`seqs`] are the tools of the rest.

pub mod command;
pub mod config;
pub mod control;
pub mod convergence;
pub mod effect;
pub mod follow;
pub mod laws;
pub mod mapping;
pub mod names;
pub mod seqs;
pub mod startup;
pub mod state;
