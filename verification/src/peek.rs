//! `at-peek` — read-only inspection of the working tree.
//!
//! What makes `at-peek` safe to allowlist is negative: it never opens `.git`, never spawns a
//! process, never opens a socket, and has no write path in any form. Here are its grammar, its
//! targets and ranges, and what each verb makes of the files the program read for it.

use vstd::prelude::*;

pub mod catalogue;
pub mod cli;
pub mod paths;
pub mod verbs;

verus! {

/// The name a transcript and an allowlist entry use.
pub const TOOL: &'static str = "at-peek";

/// The version, so a caller can tell two installs apart.
pub const VERSION: &'static str = "0.1.0";

} // verus!
