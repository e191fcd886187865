//! One module per shortcut subcommand, and the tab-separated output format.

pub mod compile;
pub mod connection_args;
pub mod doc;
pub mod exec;
pub mod query;
pub mod tsv;
