//! Pattern classification and matcher compilation.
//!
//! A raw group pattern selects packages by identifier when it starts with
//! `pkg:`, and by workspace-relative path when it starts with `path:` or has
//! no prefix at all.  The part after the prefix (or the whole unprefixed
//! string) is a glob.  A group's patterns compile into one [`CompiledMatcher`]
//! holding two glob sets, one per namespace.

use vstd::prelude::*;
use vstd::string::StrSliceExecFns;

use globset::{Glob, GlobSet};

use crate::errors::GroupsError;
use crate::globs::{
    glob_new, glob_pattern, glob_set_buildable, glob_set_is_match, glob_set_patterns,
    glob_syntax_ok, make_glob_set, set_matches,
};

verus! {

/// The characters of the `pkg:` prefix.
pub open spec fn pkg_prefix() -> Seq<char> {
    seq!['p', 'k', 'g', ':']
}

/// The characters of the `path:` prefix.
pub open spec fn path_prefix() -> Seq<char> {
    seq!['p', 'a', 't', 'h', ':']
}

/// Whether `s` starts with `pre`.
pub open spec fn has_prefix(s: Seq<char>, pre: Seq<char>) -> bool {
    pre.len() <= s.len() && s.subrange(0, pre.len() as int) == pre
}

/// Whether a raw pattern is an identifier rule (`pkg:`-prefixed).
pub open spec fn rule_is_id(raw: Seq<char>) -> bool {
    has_prefix(raw, pkg_prefix())
}

/// The glob part of a raw pattern: the remainder after its prefix, or the
/// whole string when it has none.
pub open spec fn glob_of(raw: Seq<char>) -> Seq<char> {
    if has_prefix(raw, pkg_prefix()) {
        raw.skip(4)
    } else if has_prefix(raw, path_prefix()) {
        raw.skip(5)
    } else {
        raw
    }
}

/// The views of a sequence of strings.
pub open spec fn str_views(strs: Seq<String>) -> Seq<Seq<char>> {
    strs.map_values(|s: String| s@)
}

/// The glob parts of the identifier rules among `raws`, in order.
pub open spec fn id_patterns_of(raws: Seq<Seq<char>>) -> Seq<Seq<char>>
    decreases raws.len(),
{
    if raws.len() == 0 {
        Seq::empty()
    } else {
        let rest = id_patterns_of(raws.drop_last());
        if rule_is_id(raws.last()) {
            rest.push(glob_of(raws.last()))
        } else {
            rest
        }
    }
}

/// The glob parts of the path rules among `raws`, in order.
pub open spec fn path_patterns_of(raws: Seq<Seq<char>>) -> Seq<Seq<char>>
    decreases raws.len(),
{
    if raws.len() == 0 {
        Seq::empty()
    } else {
        let rest = path_patterns_of(raws.drop_last());
        if !rule_is_id(raws.last()) {
            rest.push(glob_of(raws.last()))
        } else {
            rest
        }
    }
}

/// Whether every raw pattern's glob part is valid glob syntax.
pub open spec fn all_globs_ok(raws: Seq<Seq<char>>) -> bool {
    forall|i: int| 0 <= i < raws.len() ==> glob_syntax_ok(glob_of(#[trigger] raws[i]))
}

/// Whether `raws[i]` is the first raw pattern whose glob part is invalid.
pub open spec fn first_bad_pattern_at(raws: Seq<Seq<char>>, i: int) -> bool {
    &&& 0 <= i < raws.len()
    &&& !glob_syntax_ok(glob_of(raws[i]))
    &&& forall|j: int| 0 <= j < i ==> glob_syntax_ok(glob_of(#[trigger] raws[j]))
}

/// A raw pattern classified into its namespace, carrying its glob part.
pub enum PatternRule {
    ByIdentifier(String),
    ByPath(String),
}

impl PatternRule {
    /// The glob part this rule carries.
    pub open spec fn glob_view(self) -> Seq<char> {
        match self {
            PatternRule::ByIdentifier(g) => g@,
            PatternRule::ByPath(g) => g@,
        }
    }
}

/// Classify one raw pattern by its prefix and strip the prefix off.
pub fn classify_pattern(pattern: &String) -> (r: PatternRule)
    ensures
        r is ByIdentifier <==> rule_is_id(pattern@),
        r.glob_view() == glob_of(pattern@),
{
    let s = pattern.as_str();
    let n = s.unicode_len();
    if n >= 4 && s.get_char(0) == 'p' && s.get_char(1) == 'k' && s.get_char(2) == 'g'
        && s.get_char(3) == ':' {
        proof {
            assert(pattern@.subrange(0, 4) =~= pkg_prefix());
        }
        PatternRule::ByIdentifier(s.substring_char(4, n).to_owned())
    } else if n >= 5 && s.get_char(0) == 'p' && s.get_char(1) == 'a' && s.get_char(2) == 't'
        && s.get_char(3) == 'h' && s.get_char(4) == ':' {
        proof {
            assert(pattern@.subrange(0, 5) =~= path_prefix());
            assert(!has_prefix(pattern@, pkg_prefix())) by {
                if has_prefix(pattern@, pkg_prefix()) {
                    assert(pattern@.subrange(0, 4)[1] == pkg_prefix()[1]);
                }
            }
        }
        PatternRule::ByPath(s.substring_char(5, n).to_owned())
    } else {
        proof {
            assert(!has_prefix(pattern@, pkg_prefix())) by {
                if has_prefix(pattern@, pkg_prefix()) {
                    assert(pattern@.subrange(0, 4)[0] == pkg_prefix()[0]);
                    assert(pattern@.subrange(0, 4)[1] == pkg_prefix()[1]);
                    assert(pattern@.subrange(0, 4)[2] == pkg_prefix()[2]);
                    assert(pattern@.subrange(0, 4)[3] == pkg_prefix()[3]);
                }
            }
            assert(!has_prefix(pattern@, path_prefix())) by {
                if has_prefix(pattern@, path_prefix()) {
                    assert(pattern@.subrange(0, 5)[0] == path_prefix()[0]);
                    assert(pattern@.subrange(0, 5)[1] == path_prefix()[1]);
                    assert(pattern@.subrange(0, 5)[2] == path_prefix()[2]);
                    assert(pattern@.subrange(0, 5)[3] == path_prefix()[3]);
                    assert(pattern@.subrange(0, 5)[4] == path_prefix()[4]);
                }
            }
        }
        PatternRule::ByPath(pattern.clone())
    }
}

/// Two compiled glob sets: one over the identifier rules' globs, one over
/// the path rules' globs.  Immutable after construction.
pub struct CompiledMatcher {
    id_set: GlobSet,
    path_set: GlobSet,
}

impl CompiledMatcher {
    /// The patterns of the identifier matcher.
    pub closed spec fn id_patterns(self) -> Seq<Seq<char>> {
        glob_set_patterns(self.id_set)
    }

    /// The patterns of the path matcher.
    pub closed spec fn path_patterns(self) -> Seq<Seq<char>> {
        glob_set_patterns(self.path_set)
    }

    /// Whether some identifier glob matches the candidate.
    pub fn identifier_matches(&self, candidate: &String) -> (r: bool)
        ensures
            r == set_matches(self.id_patterns(), candidate@),
    {
        glob_set_is_match(&self.id_set, candidate.as_str())
    }

    /// Whether some path glob matches the candidate.
    pub fn path_matches(&self, candidate: &String) -> (r: bool)
        ensures
            r == set_matches(self.path_patterns(), candidate@),
    {
        glob_set_is_match(&self.path_set, candidate.as_str())
    }
}

proof fn lemma_patterns_of_push(raws: Seq<Seq<char>>, k: int)
    requires
        0 <= k < raws.len(),
    ensures
        id_patterns_of(raws.subrange(0, k + 1)) == (if rule_is_id(raws[k]) {
            id_patterns_of(raws.subrange(0, k)).push(glob_of(raws[k]))
        } else {
            id_patterns_of(raws.subrange(0, k))
        }),
        path_patterns_of(raws.subrange(0, k + 1)) == (if !rule_is_id(raws[k]) {
            path_patterns_of(raws.subrange(0, k)).push(glob_of(raws[k]))
        } else {
            path_patterns_of(raws.subrange(0, k))
        }),
{
    let s1 = raws.subrange(0, k + 1);
    assert(s1.drop_last() =~= raws.subrange(0, k));
    assert(s1.last() == raws[k]);
}

/// Classify a group's raw patterns and compile each namespace's globs into
/// one matcher.  Fails with `ParseError` naming the first raw pattern whose
/// glob part is invalid; a pattern list whose globs are all valid compiles
/// exactly when the glob engine can assemble both namespaces' sets
/// (otherwise `MatcherBuild`), and an empty pattern list always compiles.
pub fn classify(group_patterns: &Vec<String>) -> (r: Result<CompiledMatcher, GroupsError>)
    ensures
        ({
            let raws = str_views(group_patterns@);
            &&& match r {
                Ok(m) => all_globs_ok(raws) && m.id_patterns() == id_patterns_of(raws)
                    && m.path_patterns() == path_patterns_of(raws),
                Err(GroupsError::ParseError { pattern }) => exists|i: int|
                    #[trigger] first_bad_pattern_at(raws, i) && pattern@ == raws[i],
                Err(GroupsError::MatcherBuild) => all_globs_ok(raws),
                Err(GroupsError::GroupNotFound { .. }) => false,
            }
            &&& (r is Ok <==> all_globs_ok(raws) && glob_set_buildable(id_patterns_of(raws))
                && glob_set_buildable(path_patterns_of(raws)))
            &&& (raws.len() == 0 ==> r is Ok)
        }),
{
    let ghost raws = str_views(group_patterns@);
    let mut id_globs: Vec<Glob> = Vec::new();
    let mut path_globs: Vec<Glob> = Vec::new();
    assert(raws.subrange(0, 0) =~= Seq::<Seq<char>>::empty());
    for k in 0..group_patterns.len()
        invariant
            raws == str_views(group_patterns@),
            id_globs@.map_values(|g: Glob| glob_pattern(g)) == id_patterns_of(
                raws.subrange(0, k as int),
            ),
            path_globs@.map_values(|g: Glob| glob_pattern(g)) == path_patterns_of(
                raws.subrange(0, k as int),
            ),
            forall|j: int| 0 <= j < k ==> glob_syntax_ok(glob_of(#[trigger] raws[j])),
    {
        proof {
            assert(raws[k as int] == group_patterns@[k as int]@);
        }
        let rule = classify_pattern(&group_patterns[k]);
        let compiled = match &rule {
            PatternRule::ByIdentifier(g) => glob_new(g.as_str()),
            PatternRule::ByPath(g) => glob_new(g.as_str()),
        };
        match compiled {
            Ok(g) => {
                proof {
                    lemma_patterns_of_push(raws, k as int);
                }
                match rule {
                    PatternRule::ByIdentifier(_) => {
                        id_globs.push(g);
                        proof {
                            assert(id_globs@.map_values(|g: Glob| glob_pattern(g))
                                =~= id_patterns_of(raws.subrange(0, k + 1 as int)));
                        }
                    },
                    PatternRule::ByPath(_) => {
                        path_globs.push(g);
                        proof {
                            assert(path_globs@.map_values(|g: Glob| glob_pattern(g))
                                =~= path_patterns_of(raws.subrange(0, k + 1 as int)));
                        }
                    },
                }
            },
            Err(_) => {
                proof {
                    assert(first_bad_pattern_at(raws, k as int));
                    assert(!all_globs_ok(raws));
                }
                return Err(GroupsError::ParseError { pattern: group_patterns[k].clone() });
            },
        }
    }
    proof {
        assert(raws.subrange(0, raws.len() as int) =~= raws);
    }
    let id_set = match make_glob_set(&id_globs) {
        Ok(s) => s,
        Err(e) => {
            proof {
                if raws.len() == 0 {
                    assert(id_patterns_of(raws).len() == 0);
                }
            }
            return Err(e);
        },
    };
    let path_set = match make_glob_set(&path_globs) {
        Ok(s) => s,
        Err(e) => {
            proof {
                if raws.len() == 0 {
                    assert(path_patterns_of(raws).len() == 0);
                }
            }
            return Err(e);
        },
    };
    Ok(CompiledMatcher { id_set, path_set })
}

/// Law: a `pkg:`-prefixed pattern classifies as an identifier rule whose
/// glob part is exactly the remainder after the prefix.
pub proof fn lemma_pkg_prefix_rule(g: Seq<char>)
    ensures
        rule_is_id(pkg_prefix() + g),
        glob_of(pkg_prefix() + g) == g,
{
    let raw = pkg_prefix() + g;
    assert(raw.subrange(0, 4) =~= pkg_prefix());
    assert(raw.skip(4) =~= g);
}

/// Law: a pattern with neither prefix classifies exactly as its
/// `path:`-prefixed form does: both are path rules with the same glob part.
pub proof fn lemma_path_prefix_equivalent(g: Seq<char>)
    requires
        !has_prefix(g, pkg_prefix()),
        !has_prefix(g, path_prefix()),
    ensures
        !rule_is_id(path_prefix() + g),
        !rule_is_id(g),
        glob_of(path_prefix() + g) == g,
        glob_of(g) == g,
{
    let raw = path_prefix() + g;
    assert(!has_prefix(raw, pkg_prefix())) by {
        if has_prefix(raw, pkg_prefix()) {
            assert(raw.subrange(0, 4)[1] == pkg_prefix()[1]);
            assert(raw[1] == path_prefix()[1]);
        }
    }
    assert(raw.subrange(0, 5) =~= path_prefix());
    assert(raw.skip(5) =~= g);
}

/// Law: classification is pointwise — two pattern lists whose entries
/// classify to the same rules compile to the same matcher pattern lists,
/// and hence match the same packages.
pub proof fn lemma_classify_pointwise(raws1: Seq<Seq<char>>, raws2: Seq<Seq<char>>)
    requires
        raws1.len() == raws2.len(),
        forall|i: int|
            #![trigger raws1[i], raws2[i]]
            0 <= i < raws1.len() ==> rule_is_id(raws1[i]) == rule_is_id(raws2[i]) && glob_of(
                raws1[i],
            ) == glob_of(raws2[i]),
    ensures
        id_patterns_of(raws1) == id_patterns_of(raws2),
        path_patterns_of(raws1) == path_patterns_of(raws2),
    decreases raws1.len(),
{
    if raws1.len() > 0 {
        let d1 = raws1.drop_last();
        let d2 = raws2.drop_last();
        assert forall|i: int|
            #![trigger d1[i], d2[i]]
            0 <= i < d1.len() implies rule_is_id(d1[i]) == rule_is_id(d2[i]) && glob_of(d1[i])
            == glob_of(d2[i]) by {
            assert(d1[i] == raws1[i]);
            assert(d2[i] == raws2[i]);
        }
        lemma_classify_pointwise(d1, d2);
        assert(raws1.last() == raws1[raws1.len() - 1]);
        assert(raws2.last() == raws2[raws2.len() - 1]);
    }
}

} // verus!
