//! Verified core of the HPC filesystem management framework.
pub mod agent;
pub mod bench;
pub mod cli;
pub mod config;
pub mod daemon;
pub mod diag;
pub mod error;
pub mod monitor;
pub mod outcomes;
pub mod output;
pub mod proto;
pub mod session;
pub mod table;
pub mod text;
pub mod types;
