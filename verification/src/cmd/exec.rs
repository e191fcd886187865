//! `exec`: run ObjectScript given inline, from a file, or from stdin.

use vstd::prelude::*;
use super::connection_args::ConnectionArgs;
use crate::text::text_eq;

verus! {

/// How the ObjectScript code is supplied.
pub enum CodeSource {
    /// The code itself, verbatim.
    Inline(String),
    /// Read the code from standard input.
    Stdin,
    /// Read the code from the file at this path.
    File(String),
}

/// The `exec` subcommand's arguments.
pub struct ExecCommand {
    /// ObjectScript code to execute. `-` reads it from stdin.
    pub code: Option<String>,
    /// Read code from a file (mutually exclusive with inline code)
    pub file: Option<String>,
    pub conn: ConnectionArgs,
}

impl ExecCommand {
    /// Resolve which code source applies: `--file` wins; otherwise inline
    /// code, except that `-` or no code at all means stdin.
    pub fn source(&self) -> (res: CodeSource)
        ensures
            self.file matches Some(p) ==> res == CodeSource::File(p),
            self.file is None ==> match self.code {
                Some(s) => if s@ == "-"@ {
                    res == CodeSource::Stdin
                } else {
                    res == CodeSource::Inline(s)
                },
                None => res == CodeSource::Stdin,
            },
    {
        if let Some(path) = &self.file {
            return CodeSource::File(path.clone());
        }
        match &self.code {
            Some(s) => {
                if text_eq(s.as_str(), "-") {
                    CodeSource::Stdin
                } else {
                    CodeSource::Inline(s.clone())
                }
            },
            None => CodeSource::Stdin,
        }
    }
}

} // verus!
