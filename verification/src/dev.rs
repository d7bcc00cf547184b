//! Config-driven local service supervision for `aster services up`.
pub mod allocation;
pub mod ansi;
pub mod broker;
pub mod control;
pub mod daemon;
pub mod dashboard;
pub mod environment;
pub mod log_files;
pub mod plan;
pub mod port_allocator;
pub mod port_cleanup;
pub mod port_report;
pub mod ports;
pub mod process;
pub mod requests;
pub mod runner;
pub mod search;
pub mod services;
pub mod starts;
pub mod supervisor;
pub mod template;
pub mod tls;
