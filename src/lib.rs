//! Bootstraps a development machine from a tree of script-based jobs:
//! resolves the variables that each job asks for, orders the jobs by their
//! declared dependencies and decides, step by step, how each job is run.

pub mod text;
pub mod error;
pub mod pairs;
pub mod envmap;
pub mod common;
pub mod config;
pub mod jobs;
pub mod schedule;
pub mod ordering;
pub mod vars;
pub mod pipeline;
