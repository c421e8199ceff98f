//! Glob compilation and matching, through the `globset` crate.
//!
//! The engine never inspects a compiled glob; it only needs to know which
//! pattern strings a compiled value stands for.  Those contents are named by
//! uninterpreted spec functions, and every call into `globset` goes through a
//! trusted wrapper whose contract speaks over those names.

use vstd::prelude::*;

use globset::{Glob, GlobSet, GlobSetBuilder};

use crate::errors::GroupsError;

verus! {

#[verifier::external_type_specification]
#[verifier::external_body]
pub struct ExGlob(Glob);

#[verifier::external_type_specification]
#[verifier::external_body]
pub struct ExGlobSet(GlobSet);

#[verifier::external_type_specification]
#[verifier::external_body]
pub struct ExGlobSetBuilder(GlobSetBuilder);

#[verifier::external_type_specification]
#[verifier::external_body]
pub struct ExGlobsetError(globset::Error);

/// Whether a pattern string is valid glob syntax, i.e. whether
/// `globset::Glob::new` accepts it.
pub uninterp spec fn glob_syntax_ok(pattern: Seq<char>) -> bool;

/// The pattern string a compiled `Glob` was built from.
pub uninterp spec fn glob_pattern(g: Glob) -> Seq<char>;

/// The pattern strings of the globs added to a `GlobSetBuilder` so far, in
/// insertion order.
pub uninterp spec fn builder_patterns(b: GlobSetBuilder) -> Seq<Seq<char>>;

/// The pattern strings a compiled `GlobSet` was built from, in insertion
/// order.
pub uninterp spec fn glob_set_patterns(s: GlobSet) -> Seq<Seq<char>>;

/// Whether the glob engine can assemble a set matcher over the given
/// pattern strings.  `GlobSetBuilder::build` decides this from the patterns
/// alone (it compiles their regexes under the engine's fixed limits), per
/// build target.
pub uninterp spec fn glob_set_buildable(pats: Seq<Seq<char>>) -> bool;

/// Whether a single glob pattern matches a candidate string, under the
/// `globset` dialect with default options (as compiled by `Glob::new`),
/// per build target: the engine's defaults are fixed at compile time.
pub uninterp spec fn glob_match(pattern: Seq<char>, candidate: Seq<char>) -> bool;

/// Whether any pattern in `pats` matches `candidate`.
pub open spec fn set_matches(pats: Seq<Seq<char>>, candidate: Seq<char>) -> bool {
    exists|i: int| 0 <= i < pats.len() && glob_match(pats[i], candidate)
}

/// Relies on `globset::Glob::new`: it parses the pattern string alone,
/// returns `Ok` exactly when the string is valid glob syntax, and the
/// compiled glob stands for that pattern string.
#[verifier::external_body]
pub(crate) fn glob_new(pattern: &str) -> (r: Result<Glob, globset::Error>)
    ensures
        r is Ok <==> glob_syntax_ok(pattern@),
        r matches Ok(g) ==> glob_pattern(g) == pattern@,
{
    Glob::new(pattern)
}

/// Relies on `globset::GlobSetBuilder::new`: a fresh builder holds no
/// patterns.
#[verifier::external_body]
pub(crate) fn glob_builder_new() -> (r: GlobSetBuilder)
    ensures
        builder_patterns(r) == Seq::<Seq<char>>::empty(),
{
    GlobSetBuilder::new()
}

/// Relies on `globset::GlobSetBuilder::add`: it appends the glob to the
/// builder's pattern list.
#[verifier::external_body]
pub(crate) fn glob_builder_add(b: &mut GlobSetBuilder, g: &Glob)
    ensures
        builder_patterns(*final(b)) == builder_patterns(*old(b)).push(glob_pattern(*g)),
{
    b.add(g.clone());
}

/// Relies on `globset::GlobSetBuilder::build`: whether it succeeds is a
/// function of the patterns added so far (it can fail only on the engine's
/// internal regex limits); with no patterns it returns the empty set
/// outright; and on success the compiled set holds exactly the patterns
/// added.
#[verifier::external_body]
pub(crate) fn glob_builder_build(b: &GlobSetBuilder) -> (r: Result<GlobSet, globset::Error>)
    ensures
        r is Ok <==> glob_set_buildable(builder_patterns(*b)),
        builder_patterns(*b).len() == 0 ==> r is Ok,
        r matches Ok(s) ==> glob_set_patterns(s) == builder_patterns(*b),
{
    b.build()
}

/// Relies on `globset::GlobSet::is_match`: it returns true iff some glob in
/// the set matches the candidate, and each glob's verdict is a function of
/// its pattern string and the candidate alone.
#[verifier::external_body]
pub(crate) fn glob_set_is_match(s: &GlobSet, candidate: &str) -> (r: bool)
    ensures
        r == (exists|i: int|
            0 <= i < glob_set_patterns(*s).len() && glob_match(
                glob_set_patterns(*s)[i],
                candidate@,
            )),
        r == set_matches(glob_set_patterns(*s), candidate@),
{
    s.is_match(candidate)
}

/// Compile a list of globs into one set matcher over all of them.  This
/// succeeds exactly when the glob engine can assemble a set over their
/// patterns, and always does when there is no glob at all.
pub(crate) fn make_glob_set(globs: &Vec<Glob>) -> (r: Result<GlobSet, GroupsError>)
    ensures
        r is Ok <==> glob_set_buildable(globs@.map_values(|g: Glob| glob_pattern(g))),
        globs@.len() == 0 ==> r is Ok,
        r matches Ok(s) ==> glob_set_patterns(s) == globs@.map_values(|g: Glob| glob_pattern(g)),
        r is Err ==> r matches Err(GroupsError::MatcherBuild),
{
    let mut builder = glob_builder_new();
    assert(builder_patterns(builder) =~= globs@.subrange(0, 0).map_values(|g: Glob| glob_pattern(g)));
    for i in 0..globs.len()
        invariant
            builder_patterns(builder) == globs@.subrange(0, i as int).map_values(
                |g: Glob| glob_pattern(g),
            ),
    {
        glob_builder_add(&mut builder, &globs[i]);
        proof {
            assert(builder_patterns(builder) =~= globs@.subrange(0, i + 1 as int).map_values(
                |g: Glob| glob_pattern(g),
            ));
        }
    }
    proof {
        assert(globs@.subrange(0, globs@.len() as int) =~= globs@);
    }
    match glob_builder_build(&builder) {
        Ok(s) => Ok(s),
        Err(_) => Err(GroupsError::MatcherBuild),
    }
}

} // verus!
