//! State management and RPC-protocol decisions of a control daemon that
//! collects status reports from independently running scripts, consolidates
//! them into one status by precedence, and signals shutdown to its host.

pub mod aggregate;
pub mod cli;
pub mod daemon;
pub mod hook;
pub mod reporter;
pub mod rpc;
pub mod status;
pub mod store;
