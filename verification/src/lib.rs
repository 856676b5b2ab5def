//! Compare the responses of two HTTP endpoints described by a named profile.
//!
//! The library holds the verified core: merging runtime overrides into a
//! request template, normalizing a raw response into a deterministic text
//! form, and diffing the two normalized texts. Transport and file I/O live
//! outside, in the surrounding application.

use vstd::prelude::*;

mod ascii;
mod canon;
pub mod cli;
mod config;
mod json;
mod req;
mod textdiff;
mod value;

pub use ascii::bytes_eq;
pub use config::{after_first, DiffConfig, DiffProfile, NextStep, ResponseProfile};
pub use json::{escape_bytes, parse_json, to_json, to_json_pretty};
pub use req::{check_absolute_url, filter_json, MergedRequest, RequestProfile, ResponseExt};
pub use textdiff::diff_text;
pub use value::{JVal, JsonValue};

verus! {

/// Runtime overrides supplied by the command line: ordered lists of
/// (key, value) pairs aimed at the headers, the query, or the body.
#[derive(Debug, Clone)]
pub struct ExtraArgs {
    pub headers: Vec<(Vec<u8>, Vec<u8>)>,
    pub query: Vec<(Vec<u8>, Vec<u8>)>,
    pub body: Vec<(Vec<u8>, Vec<u8>)>,
}

/// Everything that can go wrong in a run. The first error anywhere in the
/// pipeline aborts the rest of it and is surfaced unchanged.
#[derive(Debug)]
pub enum Error {
    /// A malformed override token on the command line.
    InvalidOverride,
    /// A header override whose name or value holds illegal bytes.
    InvalidHeader,
    /// An effective content type the body encoder does not know.
    UnsupportedContentType,
    /// A transport-level failure, with the transport's message.
    Io(Vec<u8>),
    /// A response declared as JSON whose body does not parse.
    MalformedBody,
    /// The requested profile is not in the configuration.
    ProfileNotFound,
    /// Configuration text whose shape is not a profile mapping.
    MalformedConfig,
}

} // verus!
