//! Errors produced while resolving a group.

use vstd::prelude::*;

verus! {

/// Why a group could not be resolved.
#[derive(Debug, PartialEq, Eq)]
pub enum GroupsError {
    /// A raw pattern's glob part has invalid glob syntax; carries the
    /// offending raw pattern string.
    ParseError { pattern: String },
    /// The requested group name has no entry in the group list; carries the
    /// requested name.
    GroupNotFound { name: String },
    /// Every pattern's glob part parsed, but the glob engine failed to
    /// assemble the compiled matcher (an engine-internal limit).
    MatcherBuild,
}

impl GroupsError {
    /// A short human-readable description of the error.
    pub fn describe(&self) -> (r: String)
        ensures
            match self {
                GroupsError::ParseError { pattern } => r@ == "invalid glob pattern: "@ + pattern@,
                GroupsError::GroupNotFound { name } => r@ == "Group not found: "@ + name@,
                GroupsError::MatcherBuild => r@ == "failed to build glob matcher"@,
            },
    {
        match self {
            GroupsError::ParseError { pattern } => concat_str("invalid glob pattern: ", pattern),
            GroupsError::GroupNotFound { name } => concat_str("Group not found: ", name),
            GroupsError::MatcherBuild => "failed to build glob matcher".to_owned(),
        }
    }
}

/// Relies on `alloc::string::String::push_str`: appends the given string
/// slice onto the end of the string.
#[verifier::external_body]
fn push_str(s: &mut String, suffix: &str)
    ensures
        final(s)@ == old(s)@ + suffix@,
{
    s.push_str(suffix)
}

fn concat_str(prefix: &str, suffix: &String) -> (r: String)
    ensures
        r@ == prefix@ + suffix@,
{
    let mut r = prefix.to_owned();
    push_str(&mut r, suffix.as_str());
    r
}

} // verus!
