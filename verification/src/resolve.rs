//! Matching packages against a compiled matcher, and top-level reduction.
//!
//! Matching keeps every package whose identifier matches the identifier
//! matcher or whose path matches the path matcher.  Top-level reduction then
//! drops every matched package that some matched package directly depends
//! on; coverage is judged against the full originally-matched set, so a
//! package removed by the reduction still covers its own dependencies.

use vstd::prelude::*;

use crate::errors::GroupsError;
use crate::globs::{glob_set_buildable, set_matches};
use crate::pattern::{
    all_globs_ok, classify, first_bad_pattern_at, id_patterns_of, path_patterns_of, str_views,
    CompiledMatcher,
};

verus! {

/// A workspace package as the engine sees it: plain values supplied by the
/// workspace-metadata collaborator.
#[derive(Debug, PartialEq, Eq)]
pub struct Package {
    /// The package's identifier, unique within the workspace.
    pub identifier: String,
    /// The package's workspace-relative path, forward-slash separated.
    pub path: String,
    /// The identifiers of the package's direct dependencies.  Entries that
    /// name no workspace package are irrelevant to resolution.
    pub dependencies: Vec<String>,
}

/// The mathematical content of a [`Package`].
#[verifier::ext_equal]
pub struct PackageView {
    pub identifier: Seq<char>,
    pub path: Seq<char>,
    pub dependencies: Seq<Seq<char>>,
}

impl View for Package {
    type V = PackageView;

    open spec fn view(&self) -> PackageView {
        PackageView {
            identifier: self.identifier@,
            path: self.path@,
            dependencies: self.dependencies@.map_values(|d: String| d@),
        }
    }
}

/// The views of a sequence of packages.
pub open spec fn pkg_views(s: Seq<Package>) -> Seq<PackageView> {
    s.map_values(|p: Package| p@)
}

/// Whether `p`'s direct dependencies include the identifier `id`.
pub open spec fn depends_on(p: PackageView, id: Seq<char>) -> bool {
    p.dependencies.contains(id)
}

/// Whether a package matches the group: its identifier matches some
/// identifier glob, or its path matches some path glob.
pub open spec fn package_matches(
    ids: Seq<Seq<char>>,
    paths: Seq<Seq<char>>,
    p: PackageView,
) -> bool {
    set_matches(ids, p.identifier) || set_matches(paths, p.path)
}

/// The subsequence of `s` whose members satisfy `pred`.
pub open spec fn filtered(pred: spec_fn(PackageView) -> bool, s: Seq<PackageView>) -> Seq<
    PackageView,
>
    decreases s.len(),
{
    if s.len() == 0 {
        Seq::empty()
    } else {
        let rest = filtered(pred, s.drop_last());
        if pred(s.last()) {
            rest.push(s.last())
        } else {
            rest
        }
    }
}

/// The packages of `pkgs` matched by the compiled patterns, in input order.
pub open spec fn matched_of(
    ids: Seq<Seq<char>>,
    paths: Seq<Seq<char>>,
    pkgs: Seq<PackageView>,
) -> Seq<PackageView> {
    filtered(|p: PackageView| package_matches(ids, paths, p), pkgs)
}

/// Whether some member of `s` directly depends on the identifier `id`.
pub open spec fn covered_by(s: Seq<PackageView>, id: Seq<char>) -> bool {
    exists|i: int| 0 <= i < s.len() && depends_on(#[trigger] s[i], id)
}

/// Top-level reduction: the members of `s` that no member of `s` directly
/// depends on.  Coverage is judged against all of `s`, so a member that is
/// itself removed still covers its own dependencies.
pub open spec fn reduce_of(s: Seq<PackageView>) -> Seq<PackageView> {
    filtered(|p: PackageView| !covered_by(s, p.identifier), s)
}

/// The resolved crates of a group, as a function of its raw patterns, the
/// workspace's packages, and whether top-level reduction applies.
pub open spec fn group_crates_of(
    raws: Seq<Seq<char>>,
    pkgs: Seq<PackageView>,
    only_top_level: bool,
) -> Seq<PackageView> {
    let m = matched_of(id_patterns_of(raws), path_patterns_of(raws), pkgs);
    if only_top_level {
        reduce_of(m)
    } else {
        m
    }
}

/// Whether no two members of `s` share an identifier.
pub open spec fn unique_identifiers(s: Seq<PackageView>) -> bool {
    forall|i: int, j: int|
        #![trigger s[i], s[j]]
        0 <= i < s.len() && 0 <= j < s.len() && i != j ==> s[i].identifier != s[j].identifier
}

proof fn lemma_filtered_push(pred: spec_fn(PackageView) -> bool, s: Seq<PackageView>, k: int)
    requires
        0 <= k < s.len(),
    ensures
        filtered(pred, s.subrange(0, k + 1)) == (if pred(s[k]) {
            filtered(pred, s.subrange(0, k)).push(s[k])
        } else {
            filtered(pred, s.subrange(0, k))
        }),
{
    let s1 = s.subrange(0, k + 1);
    assert(s1.drop_last() =~= s.subrange(0, k));
    assert(s1.last() == s[k]);
}

proof fn lemma_filtered_characterization(
    pred: spec_fn(PackageView) -> bool,
    s: Seq<PackageView>,
    p: PackageView,
)
    ensures
        filtered(pred, s).contains(p) <==> s.contains(p) && pred(p),
    decreases s.len(),
{
    if s.len() > 0 {
        let d = s.drop_last();
        let last = s.last();
        lemma_filtered_characterization(pred, d, p);
        assert(s.contains(p) <==> d.contains(p) || p == last) by {
            if d.contains(p) {
                let i = choose|i: int| 0 <= i < d.len() && d[i] == p;
                assert(s[i] == p);
            }
            if p == last {
                assert(s[s.len() - 1] == p);
            }
            if s.contains(p) {
                let i = choose|i: int| 0 <= i < s.len() && s[i] == p;
                if i < s.len() - 1 {
                    assert(d[i] == p);
                }
            }
        }
        if pred(last) {
            let fd = filtered(pred, d);
            assert(filtered(pred, s) == fd.push(last));
            assert(fd.push(last).contains(p) <==> fd.contains(p) || p == last) by {
                if fd.contains(p) {
                    let i = choose|i: int| 0 <= i < fd.len() && fd[i] == p;
                    assert(fd.push(last)[i] == p);
                }
                if p == last {
                    assert(fd.push(last)[fd.len() as int] == p);
                }
                if fd.push(last).contains(p) {
                    let i = choose|i: int| 0 <= i < fd.push(last).len() && fd.push(last)[i] == p;
                    if i < fd.len() {
                        assert(fd[i] == p);
                    }
                }
            }
        }
    }
}

proof fn lemma_filtered_identity(pred: spec_fn(PackageView) -> bool, s: Seq<PackageView>)
    requires
        forall|i: int| 0 <= i < s.len() ==> pred(#[trigger] s[i]),
    ensures
        filtered(pred, s) == s,
    decreases s.len(),
{
    if s.len() > 0 {
        let d = s.drop_last();
        assert forall|i: int| 0 <= i < d.len() implies pred(#[trigger] d[i]) by {
            assert(d[i] == s[i]);
        }
        lemma_filtered_identity(pred, d);
        assert(pred(s.last()));
        assert(d.push(s.last()) =~= s);
    }
}

proof fn lemma_filtered_unique(pred: spec_fn(PackageView) -> bool, s: Seq<PackageView>)
    requires
        unique_identifiers(s),
    ensures
        unique_identifiers(filtered(pred, s)),
    decreases s.len(),
{
    if s.len() > 0 {
        let d = s.drop_last();
        let last = s.last();
        assert forall|i: int, j: int|
            #![trigger d[i], d[j]]
            0 <= i < d.len() && 0 <= j < d.len() && i != j implies d[i].identifier
            != d[j].identifier by {
            assert(d[i] == s[i]);
            assert(d[j] == s[j]);
        }
        lemma_filtered_unique(pred, d);
        if pred(last) {
            let fd = filtered(pred, d);
            let f = fd.push(last);
            assert forall|i: int|
                0 <= i < fd.len() implies #[trigger] fd[i].identifier != last.identifier by {
                assert(fd.contains(fd[i]));
                lemma_filtered_characterization(pred, d, fd[i]);
                let k = choose|k: int| 0 <= k < d.len() && d[k] == fd[i];
                assert(s[k] == fd[i]);
                assert(s[s.len() - 1] == last);
            }
            assert forall|i: int, j: int|
                #![trigger f[i], f[j]]
                0 <= i < f.len() && 0 <= j < f.len() && i != j implies f[i].identifier
                != f[j].identifier by {
                if i < fd.len() && j < fd.len() {
                    assert(f[i] == fd[i]);
                    assert(f[j] == fd[j]);
                } else if i < fd.len() {
                    assert(f[i] == fd[i]);
                    assert(f[j] == last);
                } else {
                    assert(f[i] == last);
                    assert(f[j] == fd[j]);
                }
            }
        }
    }
}

/// Law: a package is among the matched packages iff it is among the inputs
/// and its identifier matches some identifier glob or its path matches some
/// path glob.
pub proof fn lemma_match_membership(
    ids: Seq<Seq<char>>,
    paths: Seq<Seq<char>>,
    pkgs: Seq<PackageView>,
    p: PackageView,
)
    ensures
        matched_of(ids, paths, pkgs).contains(p) <==> (pkgs.contains(p) && (set_matches(
            ids,
            p.identifier,
        ) || set_matches(paths, p.path))),
{
    lemma_filtered_characterization(|q: PackageView| package_matches(ids, paths, q), pkgs, p);
}

/// Law: matching never duplicates a package — if the input packages have
/// pairwise distinct identifiers, so do the matched packages, even when a
/// package satisfies both matchers.
pub proof fn lemma_match_unique(ids: Seq<Seq<char>>, paths: Seq<Seq<char>>, pkgs: Seq<PackageView>)
    requires
        unique_identifiers(pkgs),
    ensures
        unique_identifiers(matched_of(ids, paths, pkgs)),
{
    lemma_filtered_unique(|q: PackageView| package_matches(ids, paths, q), pkgs);
}

/// Law: a package survives top-level reduction iff it is a member that no
/// member of the original set directly depends on.
pub proof fn lemma_reduce_membership(s: Seq<PackageView>, p: PackageView)
    ensures
        reduce_of(s).contains(p) <==> (s.contains(p) && !covered_by(s, p.identifier)),
{
    lemma_filtered_characterization(|q: PackageView| !covered_by(s, q.identifier), s, p);
}

/// Law: top-level reduction preserves pairwise distinct identifiers.
pub proof fn lemma_reduce_unique(s: Seq<PackageView>)
    requires
        unique_identifiers(s),
    ensures
        unique_identifiers(reduce_of(s)),
{
    lemma_filtered_unique(|q: PackageView| !covered_by(s, q.identifier), s);
}

/// Law: top-level reduction is idempotent — reducing an already-reduced set
/// changes nothing, because coverage comes from the packages' fixed
/// dependency edges, not from the shrinking result.
pub proof fn lemma_reduce_idempotent(s: Seq<PackageView>)
    ensures
        reduce_of(reduce_of(s)) == reduce_of(s),
{
    let r = reduce_of(s);
    assert forall|i: int| 0 <= i < r.len() implies !covered_by(r, #[trigger] r[i].identifier) by {
        assert(r.contains(r[i]));
        lemma_reduce_membership(s, r[i]);
        if covered_by(r, r[i].identifier) {
            let j = choose|j: int| 0 <= j < r.len() && depends_on(#[trigger] r[j], r[i].identifier);
            assert(r.contains(r[j]));
            lemma_reduce_membership(s, r[j]);
            let k = choose|k: int| 0 <= k < s.len() && s[k] == r[j];
            assert(depends_on(s[k], r[i].identifier));
            assert(covered_by(s, r[i].identifier));
        }
    }
    lemma_filtered_identity(|q: PackageView| !covered_by(r, q.identifier), r);
}

/// Law: two pattern lists whose entries classify to the same rules resolve
/// to the same crates on every workspace, with or without reduction.  In
/// particular a `path:`-prefixed pattern and its bare form are
/// interchangeable.
pub proof fn lemma_equivalent_patterns_same_crates(
    raws1: Seq<Seq<char>>,
    raws2: Seq<Seq<char>>,
    pkgs: Seq<PackageView>,
    only_top_level: bool,
)
    requires
        raws1.len() == raws2.len(),
        forall|i: int|
            #![trigger raws1[i], raws2[i]]
            0 <= i < raws1.len() ==> crate::pattern::rule_is_id(raws1[i])
                == crate::pattern::rule_is_id(raws2[i]) && crate::pattern::glob_of(raws1[i])
                == crate::pattern::glob_of(raws2[i]),
    ensures
        group_crates_of(raws1, pkgs, only_top_level) == group_crates_of(
            raws2,
            pkgs,
            only_top_level,
        ),
{
    crate::pattern::lemma_classify_pointwise(raws1, raws2);
}

fn clone_string_vec(v: &Vec<String>) -> (r: Vec<String>)
    ensures
        r@ == v@,
{
    let mut r: Vec<String> = Vec::new();
    assert(r@ =~= v@.subrange(0, 0));
    for i in 0..v.len()
        invariant
            r@ == v@.subrange(0, i as int),
    {
        r.push(v[i].clone());
        proof {
            assert(r@ =~= v@.subrange(0, i + 1 as int));
        }
    }
    proof {
        assert(v@.subrange(0, v@.len() as int) =~= v@);
    }
    r
}

/// Copy a package; the copy carries the same identifier, path and
/// dependency list.
pub fn clone_package(p: &Package) -> (r: Package)
    ensures
        r@ == p@,
{
    let r = Package {
        identifier: p.identifier.clone(),
        path: p.path.clone(),
        dependencies: clone_string_vec(&p.dependencies),
    };
    proof {
        assert(r@ =~= p@);
    }
    r
}

/// Keep every package matched by the compiled group patterns.  Matching one
/// package never affects another; the result keeps input order.
pub fn match_packages(matcher: &CompiledMatcher, packages: &Vec<Package>) -> (r: Vec<Package>)
    ensures
        pkg_views(r@) == matched_of(
            matcher.id_patterns(),
            matcher.path_patterns(),
            pkg_views(packages@),
        ),
{
    let ghost ids = matcher.id_patterns();
    let ghost paths = matcher.path_patterns();
    let ghost all = pkg_views(packages@);
    let mut r: Vec<Package> = Vec::new();
    assert(pkg_views(r@) =~= filtered(
        |p: PackageView| package_matches(ids, paths, p),
        all.subrange(0, 0),
    ));
    for i in 0..packages.len()
        invariant
            ids == matcher.id_patterns(),
            paths == matcher.path_patterns(),
            all == pkg_views(packages@),
            pkg_views(r@) == filtered(
                |p: PackageView| package_matches(ids, paths, p),
                all.subrange(0, i as int),
            ),
    {
        proof {
            assert(all[i as int] == packages@[i as int]@);
            lemma_filtered_push(|p: PackageView| package_matches(ids, paths, p), all, i as int);
        }
        let p = &packages[i];
        if matcher.identifier_matches(&p.identifier) || matcher.path_matches(&p.path) {
            r.push(clone_package(p));
        }
        proof {
            assert(pkg_views(r@) =~= filtered(
                |p: PackageView| package_matches(ids, paths, p),
                all.subrange(0, i + 1 as int),
            ));
        }
    }
    proof {
        assert(all.subrange(0, all.len() as int) =~= all);
    }
    r
}

/// Whether some package in `matched` declares a direct dependency on `id`.
fn is_covered(matched: &Vec<Package>, id: &String) -> (r: bool)
    ensures
        r == covered_by(pkg_views(matched@), id@),
{
    let ghost all = pkg_views(matched@);
    for i in 0..matched.len()
        invariant
            all == pkg_views(matched@),
            forall|k: int| 0 <= k < i ==> !depends_on(#[trigger] all[k], id@),
    {
        proof {
            assert(all[i as int] == matched@[i as int]@);
        }
        let deps = &matched[i].dependencies;
        for j in 0..deps.len()
            invariant
                all == pkg_views(matched@),
                i < matched@.len(),
                deps@ == matched@[i as int].dependencies@,
                forall|l: int| 0 <= l < j ==> all[i as int].dependencies[l] != id@,
        {
            proof {
                assert(all[i as int] == matched@[i as int]@);
                assert(all[i as int].dependencies[j as int] == deps@[j as int]@);
            }
            if deps[j].eq(id) {
                proof {
                    assert(depends_on(all[i as int], id@));
                }
                return true;
            }
        }
        proof {
            assert(!depends_on(all[i as int], id@));
        }
    }
    proof {
        if covered_by(all, id@) {
            let i = choose|i: int| 0 <= i < all.len() && depends_on(#[trigger] all[i], id@);
            assert(false);
        }
    }
    false
}

/// Drop every matched package that some matched package directly depends
/// on.  Coverage is judged against the full input set, so a dropped package
/// still covers its own dependencies.
pub fn reduce_to_top_level(matched: &Vec<Package>) -> (r: Vec<Package>)
    ensures
        pkg_views(r@) == reduce_of(pkg_views(matched@)),
{
    let ghost all = pkg_views(matched@);
    let mut r: Vec<Package> = Vec::new();
    assert(pkg_views(r@) =~= filtered(
        |p: PackageView| !covered_by(all, p.identifier),
        all.subrange(0, 0),
    ));
    for i in 0..matched.len()
        invariant
            all == pkg_views(matched@),
            pkg_views(r@) == filtered(
                |p: PackageView| !covered_by(all, p.identifier),
                all.subrange(0, i as int),
            ),
    {
        proof {
            assert(all[i as int] == matched@[i as int]@);
            lemma_filtered_push(|p: PackageView| !covered_by(all, p.identifier), all, i as int);
        }
        if !is_covered(matched, &matched[i].identifier) {
            r.push(clone_package(&matched[i]));
        }
        proof {
            assert(pkg_views(r@) =~= filtered(
                |p: PackageView| !covered_by(all, p.identifier),
                all.subrange(0, i + 1 as int),
            ));
        }
    }
    proof {
        assert(all.subrange(0, all.len() as int) =~= all);
    }
    r
}

/// Resolve a compiled matcher against the workspace's packages: keep every
/// matching package and, when asked, reduce the result to its top-level
/// members.  This is total: matching and reduction cannot fail, and a
/// matcher that matches nothing yields an empty set.  Packages with
/// pairwise distinct identifiers stay pairwise distinct: no identifier is
/// ever emitted twice.
pub fn resolve(
    matcher: &CompiledMatcher,
    packages: &Vec<Package>,
    only_run_top_level: bool,
) -> (r: Vec<Package>)
    ensures
        pkg_views(r@) == ({
            let m = matched_of(
                matcher.id_patterns(),
                matcher.path_patterns(),
                pkg_views(packages@),
            );
            if only_run_top_level {
                reduce_of(m)
            } else {
                m
            }
        }),
        unique_identifiers(pkg_views(packages@)) ==> unique_identifiers(pkg_views(r@)),
{
    proof {
        if unique_identifiers(pkg_views(packages@)) {
            lemma_match_unique(
                matcher.id_patterns(),
                matcher.path_patterns(),
                pkg_views(packages@),
            );
            lemma_reduce_unique(
                matched_of(matcher.id_patterns(), matcher.path_patterns(), pkg_views(packages@)),
            );
        }
    }
    let matched = match_packages(matcher, packages);
    if only_run_top_level {
        reduce_to_top_level(&matched)
    } else {
        matched
    }
}

/// Resolve a group's raw patterns against the workspace's packages: compile
/// the patterns, keep the matching packages, and, when asked, reduce to the
/// top-level members.  Fails with `ParseError` naming the first raw pattern
/// whose glob part is invalid, and succeeds exactly when every glob part is
/// valid and the glob engine can assemble both namespaces' sets — always,
/// in particular, on an empty pattern list.  Matching and reduction
/// themselves cannot fail, and matching nothing is not an error.
pub fn get_group_crates(
    group_patterns: &Vec<String>,
    packages: &Vec<Package>,
    only_run_top_level: bool,
) -> (r: Result<Vec<Package>, GroupsError>)
    ensures
        ({
            let raws = str_views(group_patterns@);
            &&& match r {
                Ok(v) => all_globs_ok(raws) && pkg_views(v@) == group_crates_of(
                    raws,
                    pkg_views(packages@),
                    only_run_top_level,
                ),
                Err(GroupsError::ParseError { pattern }) => exists|i: int|
                    #[trigger] first_bad_pattern_at(raws, i) && pattern@ == raws[i],
                Err(GroupsError::MatcherBuild) => all_globs_ok(raws),
                Err(GroupsError::GroupNotFound { .. }) => false,
            }
            &&& (r is Ok <==> all_globs_ok(raws) && glob_set_buildable(id_patterns_of(raws))
                && glob_set_buildable(path_patterns_of(raws)))
            &&& (raws.len() == 0 ==> r is Ok)
        }),
{
    let matcher = match classify(group_patterns) {
        Ok(m) => m,
        Err(e) => {
            return Err(e);
        },
    };
    Ok(resolve(&matcher, packages, only_run_top_level))
}

} // verus!
