//! TermProof: evidence-first verification for TUI and terminal applications.
use vstd::prelude::*;

pub mod agent;
pub mod assertions;
pub mod attributed;
pub mod build_info;
pub mod cache;
pub mod before_after;
pub mod command;
pub mod dedup;
pub mod planner;
pub mod pypath;
pub mod pyregex;
pub mod pyschema;
pub mod config;
pub mod error;
pub mod execution;
pub mod junit;
pub mod parity;
pub mod pyrepr;
pub mod render;
pub mod report;
pub mod result;
pub mod run_config;
pub mod schema_message;
pub mod screen;
pub mod selection;
pub mod session;
pub mod steps;
pub mod store;
pub mod text;
pub mod uploader;
pub mod video;
pub mod visual_diff;
pub mod vocabulary;

verus! {

/// Canonical product name used by the CLI and diagnostics.
pub const NAME: &'static str = "termproof";

/// Canonical crate/product version.
pub const VERSION: &'static str = "0.3.3";

/// Render the canonical `name version` banner used by the CLI greeting.
pub fn banner() -> (s: String)
    ensures
        s@ == NAME@ + " "@ + VERSION@ + " (rust workspace baseline)"@,
{
    let mut s = String::new();
    text::push_str(&mut s, NAME);
    text::push_str(&mut s, " ");
    text::push_str(&mut s, VERSION);
    text::push_str(&mut s, " (rust workspace baseline)");
    s
}

} // verus!
