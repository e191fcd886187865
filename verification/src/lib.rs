//! Command logic of the `iris-agentic-dev` command-line shortcuts: how
//! arguments select code sources, how class and document names are derived,
//! how query results are laid out as tab-separated text, and how compile
//! outcomes are reported.

pub mod text;
pub mod cmd;
pub mod url;
