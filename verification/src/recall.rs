//! `at-recall` — read-only inspection of history and the working tree.
//!
//! It differs from `at-peek` in one way: it reads `.git`, through one subprocess whose every
//! command comes from a closed list of read verbs and whose invocation neutralises the
//! configuration that could make git execute something else. Here are the arguments it builds,
//! the parsers for what git prints, and what each verb makes of it.

use vstd::prelude::*;

pub mod catalogue;
pub mod cli;
pub mod facts;
pub mod git;
pub mod status;
pub mod verbs;

verus! {

/// The name a transcript and an allowlist entry use.
pub const TOOL: &'static str = "at-recall";

/// The version, so a caller can tell two installs apart.
pub const VERSION: &'static str = "0.1.0";

} // verus!
