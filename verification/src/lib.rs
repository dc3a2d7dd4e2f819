//! playbook — resolve and render agent rules for a project and a target, and the
//! read-only inspection toolkit that ships beside it.
//!
//! Everything under this crate is pure logic over plain values: the file system, the
//! process environment and `git` are reached from the program around it, which hands
//! the library the text it read and takes back the text to print.

pub mod text;
pub mod frontmatter;
pub mod model;
pub mod install;
pub mod render;
pub mod load;
pub mod resolve;
pub mod contract;
pub mod catalogue;
pub mod peek;
pub mod recall;
pub mod describe;
pub mod cli;
