//! Building, checking and reading masscan command lines and scan results.
pub mod text;
pub mod masscan_cli;
pub mod cli;
pub mod results;
pub mod notifications;
pub mod db;
