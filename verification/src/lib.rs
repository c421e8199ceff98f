//! Resolve named groups of workspace packages.
//!
//! A *group* is a user-declared name bound to a list of glob patterns.
//! Each pattern selects workspace packages either by package identifier
//! (prefix `pkg:`) or by workspace-relative path (prefix `path:`, which is
//! also the default for unprefixed patterns).  Resolving a group yields the
//! set of packages matched by any of its patterns, optionally reduced to the
//! top-level members: packages that no other matched package depends on.

use vstd::prelude::*;

pub mod errors;
pub mod globs;
pub mod pattern;
pub mod groups;
pub mod options;
pub mod resolve;

verus! {

} // verus!
