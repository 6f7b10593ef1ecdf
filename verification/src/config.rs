//! Validated run configuration: a query string and a source identifier,
//! built from an argv-style list of raw tokens.

use vstd::prelude::*;

verus! {

/// The ways building a [`Config`] can fail: one variant for each of the two
/// required tokens that can be missing.
#[derive(Clone, Copy, Debug, PartialEq, Eq, Structural)]
pub enum ConfigError {
    /// No token was available for the query position.
    MissingQuery,
    /// A query was found, but no token was available for the source position.
    MissingSource,
}

impl ConfigError {
    /// A human-readable description of the error, for the caller to print.
    pub fn message(&self) -> (m: &'static str)
        ensures
            self is MissingQuery ==> m@ == "No query string found"@,
            self is MissingSource ==> m@ == "No filename found"@,
    {
        match self {
            ConfigError::MissingQuery => "No query string found",
            ConfigError::MissingSource => "No filename found",
        }
    }
}

/// A validated pair of query string and source identifier. Immutable once
/// constructed; both fields are always present.
#[derive(Debug)]
pub struct Config {
    query: String,
    filename: String,
}

impl Config {
    /// The substring to search for, as a sequence of characters.
    pub closed spec fn query_spec(&self) -> Seq<char> {
        self.query@
    }

    /// The source identifier (for example a file path), as a sequence of
    /// characters. It is opaque to the search engine.
    pub closed spec fn filename_spec(&self) -> Seq<char> {
        self.filename@
    }

    /// Builds a `Config` from an argv-style token list: the first token is a
    /// program-name placeholder and is discarded, the next two become the
    /// query and the source identifier, and any further tokens are ignored.
    pub fn new(args: Vec<String>) -> (r: Result<Config, ConfigError>)
        ensures
            args@.len() >= 3 ==> (r matches Ok(c)
                && c.query_spec() == args@[1]@
                && c.filename_spec() == args@[2]@),
            args@.len() <= 1 ==> r == Err::<Config, ConfigError>(ConfigError::MissingQuery),
            args@.len() == 2 ==> r == Err::<Config, ConfigError>(ConfigError::MissingSource),
    {
        if args.len() <= 1 {
            Err(ConfigError::MissingQuery)
        } else if args.len() == 2 {
            Err(ConfigError::MissingSource)
        } else {
            Ok(Config { query: args[1].clone(), filename: args[2].clone() })
        }
    }

    /// The query this configuration was built with.
    pub fn query(&self) -> (q: &String)
        ensures
            q@ == self.query_spec(),
    {
        &self.query
    }

    /// The source identifier this configuration was built with.
    pub fn filename(&self) -> (f: &String)
        ensures
            f@ == self.filename_spec(),
    {
        &self.filename
    }
}

} // verus!
