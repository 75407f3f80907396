//! The library's error type.
use vstd::prelude::*;
use crate::config::ConfigError;
use crate::text::{concat2, copy_string};

verus! {

/// An error of a workspace operation.
#[derive(Debug)]
pub enum HarmoniaError {
    Config(ConfigError),
    Git(String),
    Io(String),
    Other(String),
}

impl HarmoniaError {
    pub open spec fn spec_message(&self) -> Seq<char> {
        match self {
            HarmoniaError::Config(e) => "config error: "@ + e.spec_message(),
            HarmoniaError::Git(m) => "git error: "@ + m@,
            HarmoniaError::Io(m) => "io error: "@ + m@,
            HarmoniaError::Other(m) => m@,
        }
    }

    /// The error's text.
    pub fn message(&self) -> (r: String)
        ensures
            r@ == self.spec_message(),
    {
        match self {
            HarmoniaError::Config(e) => {
                let m = e.message();
                concat2("config error: ", m.as_str())
            },
            HarmoniaError::Git(m) => concat2("git error: ", m.as_str()),
            HarmoniaError::Io(m) => concat2("io error: ", m.as_str()),
            HarmoniaError::Other(m) => copy_string(m),
        }
    }
}

} // verus!
