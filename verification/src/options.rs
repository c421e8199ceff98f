//! Argument lists for the external build tool.
//!
//! The engine never spawns anything; it only lays out the exact argument
//! list — subcommand, feature flags, option flags, and a `-p` selection per
//! resolved crate — for the caller to hand to the build tool.

use vstd::prelude::*;

use crate::pattern::str_views;
use crate::resolve::{pkg_views, Package, PackageView};

verus! {

/// Feature selection flags, mirroring the build tool's own.
pub struct Features {
    pub all_features: bool,
    pub no_default_features: bool,
    pub features: Vec<String>,
}

/// The standalone feature flags, in the order they are emitted.
pub open spec fn feature_flag_args(f: Features) -> Seq<Seq<char>> {
    (if f.no_default_features {
        seq!["--no-default-features"@]
    } else {
        Seq::<Seq<char>>::empty()
    }) + (if f.all_features {
        seq!["--all-features"@]
    } else {
        Seq::<Seq<char>>::empty()
    })
}

/// Every argument feature selection appends: the standalone flags, then
/// `--features` followed by each named feature, when any is named.
pub open spec fn feature_args_of(f: Features) -> Seq<Seq<char>> {
    feature_flag_args(f) + (if f.features@.len() > 0 {
        seq!["--features"@] + str_views(f.features@)
    } else {
        Seq::<Seq<char>>::empty()
    })
}

/// Append the feature-selection arguments to a command's argument list.
pub fn add_features(cmd: &mut Vec<String>, features: &Features)
    ensures
        str_views(final(cmd)@) == str_views(old(cmd)@) + feature_args_of(*features),
{
    let ghost pre = cmd@;
    if features.no_default_features {
        cmd.push("--no-default-features".to_owned());
    }
    if features.all_features {
        cmd.push("--all-features".to_owned());
    }
    proof {
        assert(str_views(cmd@) =~= str_views(pre) + feature_flag_args(*features));
    }
    let ghost mid = cmd@;
    if features.features.len() > 0 {
        cmd.push("--features".to_owned());
        proof {
            assert(str_views(cmd@) =~= str_views(mid).push("--features"@));
        }
        let ghost mid2 = cmd@;
        for i in 0..features.features.len()
            invariant
                str_views(mid2) == str_views(mid).push("--features"@),
                str_views(mid) == str_views(pre) + feature_flag_args(*features),
                features.features@.len() > 0,
                str_views(cmd@) == str_views(mid2) + str_views(
                    features.features@.subrange(0, i as int),
                ),
        {
            cmd.push(features.features[i].clone());
            proof {
                let fv = features.features@;
                assert(str_views(fv.subrange(0, i + 1 as int)) =~= str_views(
                    fv.subrange(0, i as int),
                ).push(fv[i as int]@));
                assert(str_views(cmd@) =~= (str_views(mid2) + str_views(
                    fv.subrange(0, i as int),
                )).push(fv[i as int]@));
                assert(str_views(cmd@) =~= str_views(mid2) + str_views(
                    fv.subrange(0, i + 1 as int),
                ));
            }
        }
        proof {
            assert(features.features@.subrange(0, features.features@.len() as int)
                =~= features.features@);
            assert(str_views(cmd@) =~= str_views(pre) + feature_args_of(*features));
        }
    } else {
        proof {
            assert(str_views(cmd@) =~= str_views(pre) + feature_args_of(*features));
        }
    }
}

/// Subcommand-specific option sets: a closed set of variants, each applying
/// its own flags to a command's argument list.
pub enum SpecificOptions {
    /// No subcommand-specific flags.
    Default,
    /// Lint-run flags: apply suggested fixes, and allow doing so in a dirty
    /// working tree.
    Clippy { fix: bool, allow_dirty: bool },
}

/// The arguments a subcommand-specific option set appends.
pub open spec fn specific_args_of(o: SpecificOptions) -> Seq<Seq<char>> {
    match o {
        SpecificOptions::Default => Seq::<Seq<char>>::empty(),
        SpecificOptions::Clippy { fix, allow_dirty } => (if fix {
            seq!["--fix"@]
        } else {
            Seq::<Seq<char>>::empty()
        }) + (if allow_dirty {
            seq!["--allow-dirty"@]
        } else {
            Seq::<Seq<char>>::empty()
        }),
    }
}

impl SpecificOptions {
    /// Append this option set's flags to a command's argument list.
    pub fn add_to_command(&self, cmd: &mut Vec<String>)
        ensures
            str_views(final(cmd)@) == str_views(old(cmd)@) + specific_args_of(*self),
    {
        let ghost pre = cmd@;
        match self {
            SpecificOptions::Default => {
                proof {
                    assert(str_views(cmd@) =~= str_views(pre) + specific_args_of(*self));
                }
            },
            SpecificOptions::Clippy { fix, allow_dirty } => {
                if *fix {
                    cmd.push("--fix".to_owned());
                }
                if *allow_dirty {
                    cmd.push("--allow-dirty".to_owned());
                }
                proof {
                    assert(str_views(cmd@) =~= str_views(pre) + specific_args_of(*self));
                }
            },
        }
    }
}

/// Flags common to every subcommand, plus the subcommand-specific set.
pub struct CommandOptions {
    pub release: bool,
    pub specific: SpecificOptions,
}

/// The arguments a full option bundle appends: the common flags, then the
/// subcommand-specific ones.
pub open spec fn options_args_of(o: CommandOptions) -> Seq<Seq<char>> {
    (if o.release {
        seq!["--release"@]
    } else {
        Seq::<Seq<char>>::empty()
    }) + specific_args_of(o.specific)
}

impl CommandOptions {
    /// Append the common flags, then the subcommand-specific ones.
    pub fn add_to_command(&self, cmd: &mut Vec<String>)
        ensures
            str_views(final(cmd)@) == str_views(old(cmd)@) + options_args_of(*self),
    {
        let ghost pre = cmd@;
        if self.release {
            cmd.push("--release".to_owned());
        }
        proof {
            assert(str_views(cmd@) =~= str_views(pre) + (if self.release {
                seq!["--release"@]
            } else {
                Seq::<Seq<char>>::empty()
            }));
        }
        self.specific.add_to_command(cmd);
        proof {
            assert(str_views(cmd@) =~= str_views(pre) + options_args_of(*self));
        }
    }
}

/// The `-p <identifier>` pair for each selected package, in order.
pub open spec fn member_args_of(members: Seq<PackageView>) -> Seq<Seq<char>>
    decreases members.len(),
{
    if members.len() == 0 {
        Seq::<Seq<char>>::empty()
    } else {
        member_args_of(members.drop_last()) + seq!["-p"@, members.last().identifier]
    }
}

/// The full argument list for running a subcommand on a resolved set of
/// crates.
pub open spec fn command_args_of(
    subcommand: Seq<char>,
    features: Features,
    options: CommandOptions,
    members: Seq<PackageView>,
) -> Seq<Seq<char>> {
    seq![subcommand] + feature_args_of(features) + options_args_of(options) + member_args_of(
        members,
    )
}

proof fn lemma_member_args_push(members: Seq<PackageView>, k: int)
    requires
        0 <= k < members.len(),
    ensures
        member_args_of(members.subrange(0, k + 1)) == member_args_of(members.subrange(0, k))
            + seq!["-p"@, members[k].identifier],
{
    let s1 = members.subrange(0, k + 1);
    assert(s1.drop_last() =~= members.subrange(0, k));
    assert(s1.last() == members[k]);
}

/// Lay out the full argument list for the external build tool: the
/// subcommand, the feature flags, the option flags, and a `-p` selection
/// per crate.
pub fn group_command_args(
    subcommand: &String,
    features: &Features,
    options: &CommandOptions,
    members: &Vec<Package>,
) -> (r: Vec<String>)
    ensures
        str_views(r@) == command_args_of(subcommand@, *features, *options, pkg_views(members@)),
{
    let ghost mviews = pkg_views(members@);
    let mut cmd: Vec<String> = Vec::new();
    cmd.push(subcommand.clone());
    proof {
        assert(str_views(cmd@) =~= seq![subcommand@]);
    }
    add_features(&mut cmd, features);
    options.add_to_command(&mut cmd);
    let ghost head = str_views(cmd@);
    proof {
        assert(head =~= seq![subcommand@] + feature_args_of(*features) + options_args_of(*options));
        assert(str_views(cmd@) =~= head + member_args_of(mviews.subrange(0, 0)));
    }
    for i in 0..members.len()
        invariant
            mviews == pkg_views(members@),
            head == seq![subcommand@] + feature_args_of(*features) + options_args_of(*options),
            str_views(cmd@) == head + member_args_of(mviews.subrange(0, i as int)),
    {
        proof {
            assert(mviews[i as int] == members@[i as int]@);
            lemma_member_args_push(mviews, i as int);
        }
        let ghost before = cmd@;
        cmd.push("-p".to_owned());
        cmd.push(members[i].identifier.clone());
        proof {
            assert(cmd@[before.len() as int]@ == "-p"@);
            assert(cmd@[before.len() as int + 1]@ == mviews[i as int].identifier);
            assert(str_views(cmd@) =~= str_views(before) + seq![
                "-p"@,
                mviews[i as int].identifier,
            ]);
            assert(str_views(cmd@) =~= head + member_args_of(mviews.subrange(0, i + 1 as int)));
        }
    }
    proof {
        assert(mviews.subrange(0, mviews.len() as int) =~= mviews);
        assert(str_views(cmd@) =~= command_args_of(subcommand@, *features, *options, mviews));
    }
    cmd
}

} // verus!
