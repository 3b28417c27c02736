//! Output formats and the rows that the listing commands produce.
use vstd::prelude::*;

use crate::error::CliError;
use crate::text::{owned, str_eq};
use crate::text_order::Keyed;

verus! {

/// How results are printed.
#[derive(Debug, Clone, Copy, PartialEq, Eq, Structural)]
pub enum OutputFormat {
    Json,
    Table,
}

impl OutputFormat {
    /// The format named `s`.
    pub open spec fn spec_from_str(s: Seq<char>) -> Option<OutputFormat> {
        if s == "json"@ {
            Some(OutputFormat::Json)
        } else if s == "table"@ {
            Some(OutputFormat::Table)
        } else {
            None
        }
    }

    /// Parse an output format name.
    pub fn from_str(s: &str) -> (r: Result<OutputFormat, CliError>)
        ensures
            match r {
                Ok(f) => Self::spec_from_str(s@) == Some(f),
                Err(e) => Self::spec_from_str(s@) is None && (e matches CliError::UnknownFormat {
                    name,
                } && name@ == s@),
            },
    {
        if str_eq(s, "json") {
            Ok(OutputFormat::Json)
        } else if str_eq(s, "table") {
            Ok(OutputFormat::Table)
        } else {
            Err(CliError::UnknownFormat { name: owned(s) })
        }
    }
}

/// A single domain's overrides for the `list` command: (setting CLI name, value) pairs.
#[derive(Debug)]
pub struct DomainOverrides {
    pub domain: String,
    pub overrides: Vec<(String, String)>,
}

impl DomainOverrides {
    pub open spec fn model(self) -> (Seq<char>, Seq<(Seq<char>, Seq<char>)>) {
        (self.domain@, pairs_model(self.overrides@))
    }
}

/// The model of a list of (name, value) pairs.
pub open spec fn pairs_model(p: Seq<(String, String)>) -> Seq<(Seq<char>, Seq<char>)> {
    p.map_values(|q: (String, String)| (q.0@, q.1@))
}

/// The models of a list of domain overrides.
pub open spec fn overrides_model(v: Seq<DomainOverrides>) -> Seq<(Seq<char>, Seq<(Seq<char>, Seq<char>)>)> {
    v.map_values(|d: DomainOverrides| d.model())
}

impl Keyed for DomainOverrides {
    open spec fn key_of(&self) -> Seq<char> {
        self.domain@
    }

    fn key(&self) -> (r: &str) {
        self.domain.as_str()
    }
}

/// A (setting CLI name, value) pair is found by its name.
impl Keyed for (String, String) {
    open spec fn key_of(&self) -> Seq<char> {
        self.0@
    }

    fn key(&self) -> (r: &str) {
        self.0.as_str()
    }
}

} // verus!
