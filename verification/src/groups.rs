//! Named groups and their resolution.
//!
//! The group list maps each group name to its ordered raw pattern list; it
//! is loaded once by the caller and is immutable for the duration of a
//! resolution.  Looking up an unknown name is the one failure that matching
//! itself can never produce.

use vstd::prelude::*;

use crate::errors::GroupsError;
use crate::options::{command_args_of, group_command_args, CommandOptions, Features};
use crate::globs::glob_set_buildable;
use crate::pattern::{all_globs_ok, first_bad_pattern_at, id_patterns_of, path_patterns_of, str_views};
use crate::resolve::{get_group_crates, group_crates_of, pkg_views, Package};

verus! {

/// A named group: a group name bound to an ordered list of raw patterns.
pub struct GroupDef {
    pub name: String,
    pub patterns: Vec<String>,
}

/// The position of the first group named `name`, if any.
pub open spec fn find_group_index(groups: Seq<GroupDef>, name: Seq<char>) -> Option<int>
    decreases groups.len(),
{
    if groups.len() == 0 {
        None
    } else if groups[0].name@ == name {
        Some(0int)
    } else {
        match find_group_index(groups.skip(1), name) {
            Some(i) => Some(i + 1),
            None => None,
        }
    }
}

proof fn lemma_find_group_index_at(groups: Seq<GroupDef>, name: Seq<char>, k: int)
    requires
        0 <= k < groups.len(),
        groups[k].name@ == name,
        forall|j: int| 0 <= j < k ==> (#[trigger] groups[j].name)@ != name,
    ensures
        find_group_index(groups, name) == Some(k),
    decreases k,
{
    if k == 0 {
    } else {
        let t = groups.skip(1);
        assert(groups[0].name@ != name);
        assert(t[k - 1] == groups[k]);
        assert forall|j: int| 0 <= j < k - 1 implies (#[trigger] t[j].name)@ != name by {
            assert(t[j] == groups[j + 1]);
        }
        lemma_find_group_index_at(t, name, k - 1);
    }
}

proof fn lemma_find_group_index_none(groups: Seq<GroupDef>, name: Seq<char>)
    requires
        forall|j: int| 0 <= j < groups.len() ==> (#[trigger] groups[j].name)@ != name,
    ensures
        find_group_index(groups, name) is None,
    decreases groups.len(),
{
    if groups.len() > 0 {
        let t = groups.skip(1);
        assert forall|j: int| 0 <= j < t.len() implies (#[trigger] t[j].name)@ != name by {
            assert(t[j] == groups[j + 1]);
        }
        lemma_find_group_index_none(t, name);
    }
}

/// Law: group lookup succeeds iff some group bears the requested name, and
/// what it finds is the first group with that name.
pub proof fn lemma_find_group_index_spec(groups: Seq<GroupDef>, name: Seq<char>)
    ensures
        find_group_index(groups, name) is None <==> (forall|j: int|
            0 <= j < groups.len() ==> (#[trigger] groups[j].name)@ != name),
        find_group_index(groups, name) matches Some(i) ==> 0 <= i < groups.len()
            && groups[i].name@ == name && (forall|j: int|
            0 <= j < i ==> (#[trigger] groups[j].name)@ != name),
    decreases groups.len(),
{
    if groups.len() > 0 {
        let t = groups.skip(1);
        lemma_find_group_index_spec(t, name);
        assert forall|j: int| 0 <= j < t.len() implies t[j] == groups[j + 1] by {}
        if groups[0].name@ == name {
        } else {
            match find_group_index(t, name) {
                Some(i) => {
                    assert(find_group_index(groups, name) == Some(i + 1));
                    assert(groups[i + 1] == t[i]);
                    assert forall|j: int|
                        0 <= j < i + 1 implies (#[trigger] groups[j].name)@ != name by {
                        if j > 0 {
                            assert(groups[j] == t[j - 1]);
                        }
                    }
                },
                None => {
                    assert forall|j: int|
                        0 <= j < groups.len() implies (#[trigger] groups[j].name)@ != name by {
                        if j > 0 {
                            assert(groups[j] == t[j - 1]);
                        }
                    }
                },
            }
        }
    }
}

/// Resolve a named group against the workspace's packages.  An unknown
/// name fails with `GroupNotFound` carrying that name, whatever the
/// package list; a known group resolves exactly as its pattern list does,
/// succeeding exactly when every glob part is valid and the glob engine
/// can assemble both namespaces' sets, and matching zero packages is not
/// an error.
pub fn resolve_group(
    groups: &Vec<GroupDef>,
    name: &String,
    packages: &Vec<Package>,
    only_run_top_level: bool,
) -> (r: Result<Vec<Package>, GroupsError>)
    ensures
        ({
            let gi = find_group_index(groups@, name@);
            let gpat = str_views(groups@[gi->Some_0].patterns@);
            &&& (r is Ok ==> gi is Some && all_globs_ok(gpat) && pkg_views(r->Ok_0@)
                == group_crates_of(gpat, pkg_views(packages@), only_run_top_level))
            &&& (r matches Err(GroupsError::GroupNotFound { name: missing }) ==> gi is None
                && missing@ == name@)
            &&& (r matches Err(GroupsError::ParseError { pattern }) ==> gi is Some && (exists|k: int|
                #[trigger] first_bad_pattern_at(gpat, k) && pattern@ == gpat[k]))
            &&& (r matches Err(GroupsError::MatcherBuild) ==> gi is Some && all_globs_ok(gpat))
            &&& (gi is None <==> r matches Err(GroupsError::GroupNotFound { .. }))
            &&& (r is Ok <==> gi is Some && all_globs_ok(gpat) && glob_set_buildable(
                id_patterns_of(gpat),
            ) && glob_set_buildable(path_patterns_of(gpat)))
        }),
{
    for i in 0..groups.len()
        invariant
            forall|j: int| 0 <= j < i ==> (#[trigger] groups@[j].name)@ != name@,
    {
        let gd = &groups[i];
        proof {
            assert(*gd == groups@[i as int]);
        }
        if gd.name.eq(name) {
            proof {
                lemma_find_group_index_at(groups@, name@, i as int);
            }
            let r2 = get_group_crates(&gd.patterns, packages, only_run_top_level);
            proof {
                let gi = find_group_index(groups@, name@);
                assert(gi == Some(i as int));
                assert(groups@[gi->Some_0] == *gd);
                assert(str_views(groups@[gi->Some_0].patterns@) == str_views(gd.patterns@));
            }
            return r2;
        }
    }
    proof {
        lemma_find_group_index_none(groups@, name@);
    }
    Err(GroupsError::GroupNotFound { name: name.clone() })
}

/// Plan one invocation of the external build tool on a group: resolve the
/// group, then lay out the full argument list — subcommand, feature flags,
/// option flags, and a `-p` selection per resolved crate.  The caller
/// spawns the tool; nothing here does.
pub fn plan_group_command(
    groups: &Vec<GroupDef>,
    subcommand: &String,
    group: &String,
    features: &Features,
    options: &CommandOptions,
    packages: &Vec<Package>,
    only_run_top_level: bool,
) -> (r: Result<Vec<String>, GroupsError>)
    ensures
        ({
            let gi = find_group_index(groups@, group@);
            let gpat = str_views(groups@[gi->Some_0].patterns@);
            &&& (r is Ok ==> gi is Some && all_globs_ok(gpat) && str_views(r->Ok_0@)
                == command_args_of(
                subcommand@,
                *features,
                *options,
                group_crates_of(gpat, pkg_views(packages@), only_run_top_level),
            ))
            &&& (r matches Err(GroupsError::GroupNotFound { name: missing }) ==> gi is None
                && missing@ == group@)
            &&& (r matches Err(GroupsError::ParseError { pattern }) ==> gi is Some && (exists|k: int|
                #[trigger] first_bad_pattern_at(gpat, k) && pattern@ == gpat[k]))
            &&& (r matches Err(GroupsError::MatcherBuild) ==> gi is Some && all_globs_ok(gpat))
            &&& (gi is None <==> r matches Err(GroupsError::GroupNotFound { .. }))
            &&& (r is Ok <==> gi is Some && all_globs_ok(gpat) && glob_set_buildable(
                id_patterns_of(gpat),
            ) && glob_set_buildable(path_patterns_of(gpat)))
        }),
{
    let members = match resolve_group(groups, group, packages, only_run_top_level) {
        Ok(m) => m,
        Err(e) => {
            return Err(e);
        },
    };
    let args = group_command_args(subcommand, features, options, &members);
    proof {
        let gi = find_group_index(groups@, group@);
        let gpat = str_views(groups@[gi->Some_0].patterns@);
        assert(gi is Some);
        assert(pkg_views(members@) == group_crates_of(
            gpat,
            pkg_views(packages@),
            only_run_top_level,
        ));
        assert(str_views(args@) == command_args_of(
            subcommand@,
            *features,
            *options,
            pkg_views(members@),
        ));
    }
    Ok(args)
}

} // verus!
