//! Selectable profiles: the TOML files of the configuration directory, and
//! the `selected.toml` link that names the active one.

use crate::config::{Config, ProfileInfo};
use crate::order::{is_permutation, key_less, seq_less, sorted_order};
use crate::text::str_eq;
use vstd::prelude::*;

verus! {

/// A path is absolute when it starts at the root.
pub open spec fn is_absolute(p: Seq<char>) -> bool {
    p.len() > 0 && p[0] == '/'
}

/// `Path::join`: `name` below `dir`, or `name` itself when it is absolute.
pub open spec fn join(dir: Seq<char>, name: Seq<char>) -> Seq<char> {
    if is_absolute(name) || dir.len() == 0 {
        name
    } else if dir[dir.len() - 1] == '/' {
        dir + name
    } else {
        dir + seq!['/'] + name
    }
}

/// `name` below `dir`, as `Path::join` forms it.
pub fn join_path(dir: &str, name: &str) -> (r: String)
    ensures
        r@ == join(dir@, name@),
{
    let n = dir.unicode_len();
    if (name.unicode_len() > 0 && name.get_char(0) == '/') || n == 0 {
        return name.to_owned();
    }
    let mut r = dir.to_owned();
    if dir.get_char(n - 1) != '/' {
        r.append("/");
        proof {
            reveal_strlit("/");
        }
    }
    r.append(name);
    r
}

/// A file name that is a profile: a `.toml` file with a stem, other than the
/// `selected.toml` link.
pub open spec fn is_profile_name(n: Seq<char>) -> bool {
    &&& n != "selected.toml"@
    &&& n.len() >= 6
    &&& n.subrange(n.len() - 5, n.len() as int) == ".toml"@
}

fn is_profile_name_exec(n: &str) -> (r: bool)
    ensures
        r == is_profile_name(n@),
{
    let len = n.unicode_len();
    if str_eq(n, "selected.toml") || len < 6 {
        return false;
    }
    let tail = n.substring_char(len - 5, len);
    str_eq(tail, ".toml")
}

/// The profile names among the directory's file names, in their order.
pub open spec fn profile_names(files: Seq<String>) -> Seq<Seq<char>> {
    files.map_values(|s: String| s@).filter(|n: Seq<char>| is_profile_name(n))
}

/// Profiles are listed `default.toml` first, then by name.
pub open spec fn profile_key(name: Seq<char>) -> (bool, Seq<char>) {
    (name != "default.toml"@, name)
}

impl Config {
    /// The profiles among the file names of the configuration directory
    /// `dir`: every `*.toml` file but `selected.toml`, `default.toml` first,
    /// the others by name.
    pub fn list_profiles(dir: &str, files: &Vec<String>) -> (out: Vec<ProfileInfo>)
        ensures
            out@.len() == profile_names(files@).len(),
            exists|order: Seq<usize>|
                {
                    &&& is_permutation(order, profile_names(files@).len() as int)
                    &&& forall|i: int|
                        0 <= i < out@.len() ==> #[trigger] out@[i].name@ == profile_names(
                            files@,
                        )[order[i] as int]
                },
            forall|i: int, j: int|
                0 <= i < j < out@.len() ==> !key_less(
                    profile_key(#[trigger] out@[j].name@),
                    profile_key(#[trigger] out@[i].name@),
                ),
            forall|i: int| 0 <= i < out@.len() ==> #[trigger] out@[i].path@ == join(dir@, out@[i].name@),
    {
        let ghost all = files@.map_values(|s: String| s@);
        let mut names: Vec<String> = Vec::new();
        let mut ranks: Vec<bool> = Vec::new();
        let mut k: usize = 0;
        while k < files.len()
            invariant
                k <= files@.len(),
                all == files@.map_values(|s: String| s@),
                names@.len() == ranks@.len(),
                names@.map_values(|s: String| s@) == all.take(k as int).filter(
                    |n: Seq<char>| is_profile_name(n),
                ),
                forall|i: int| 0 <= i < names@.len() ==> #[trigger] ranks@[i] == (names@[i]@ != "default.toml"@),
            decreases files@.len() - k,
        {
            let f = files[k].as_str();
            proof {
                assert(all.take(k + 1).drop_last() =~= all.take(k as int));
                assert(all.take(k + 1).last() == f@);
                reveal(Seq::filter);
            }
            let ghost before = names@;
            if is_profile_name_exec(f) {
                names.push(f.to_owned());
                ranks.push(!str_eq(f, "default.toml"));
                proof {
                    assert(names@.map_values(|s: String| s@) =~= before.map_values(|s: String| s@).push(f@));
                }
            }
            k = k + 1;
        }
        proof {
            assert(all.take(files@.len() as int) =~= all);
        }
        let ghost fnames = names@.map_values(|s: String| s@);
        let order = sorted_order(&ranks, &names);
        let mut out: Vec<ProfileInfo> = Vec::new();
        let mut i: usize = 0;
        while i < order.len()
            invariant
                i <= order@.len(),
                is_permutation(order@, names@.len() as int),
                crate::order::is_stably_sorted(order@, ranks@, names@),
                forall|j: int| 0 <= j < names@.len() ==> #[trigger] ranks@[j] == (names@[j]@ != "default.toml"@),
                out@.len() == i,
                forall|j: int| 0 <= j < i ==> #[trigger] out@[j].name@ == names@[order@[j] as int]@,
                forall|j: int| 0 <= j < i ==> #[trigger] out@[j].path@ == join(dir@, out@[j].name@),
            decreases order@.len() - i,
        {
            let name = names[order[i]].clone();
            let path = join_path(dir, name.as_str());
            out.push(ProfileInfo { name, path });
            i = i + 1;
        }
        proof {
            assert(fnames =~= profile_names(files@));
            assert forall|a: int, b: int| 0 <= a < b < out@.len() implies !key_less(
                profile_key(#[trigger] out@[b].name@),
                profile_key(#[trigger] out@[a].name@),
            ) by {
                assert(profile_key(out@[a].name@) == crate::order::key_at(
                    ranks@,
                    names@,
                    order@[a] as int,
                ));
                assert(profile_key(out@[b].name@) == crate::order::key_at(
                    ranks@,
                    names@,
                    order@[b] as int,
                ));
            }
            assert(forall|j: int|
                0 <= j < out@.len() ==> #[trigger] out@[j].name@ == profile_names(files@)[order@[j] as int]);
        }
        out
    }
}

/// What `selected.toml` is in the configuration directory.
#[derive(Debug, Clone, PartialEq, Eq)]
pub enum SelectedLink {
    /// There is no `selected.toml` (or it points nowhere).
    Absent,
    /// It is a link to this target.
    Link(String),
    /// It exists but is not a link.
    NotALink,
}

/// The file that holds the active profile, given what `selected.toml` is.
pub open spec fn active_path(dir: Seq<char>, selected: SelectedLink) -> Seq<char> {
    match selected {
        SelectedLink::Absent => join(dir, "default.toml"@),
        SelectedLink::Link(t) => if is_absolute(t@) {
            t@
        } else {
            join(dir, t@)
        },
        SelectedLink::NotALink => join(dir, "selected.toml"@),
    }
}

/// The link to make so that a profile becomes the active one: `link`, made to
/// point at `target`.
#[derive(Debug, Clone)]
pub struct LinkRequest {
    pub link: String,
    pub target: String,
}

impl Config {
    /// The active profile's file: the target of `selected.toml` (below `dir`
    /// when relative), `selected.toml` itself when it is no link, and
    /// `default.toml` when it is absent.
    pub fn active_profile_path(dir: &str, selected: &SelectedLink) -> (p: String)
        ensures
            p@ == active_path(dir@, *selected),
    {
        match selected {
            SelectedLink::Absent => join_path(dir, "default.toml"),
            SelectedLink::Link(t) => {
                if t.unicode_len() > 0 && t.as_str().get_char(0) == '/' {
                    t.clone()
                } else {
                    join_path(dir, t.as_str())
                }
            },
            SelectedLink::NotALink => join_path(dir, "selected.toml"),
        }
    }

    /// Make `profile` the active one: replace `selected.toml` in `dir` by a
    /// link to the profile's file.
    pub fn set_active_profile(dir: &str, profile: &ProfileInfo) -> (r: LinkRequest)
        ensures
            r.link@ == join(dir@, "selected.toml"@),
            r.target@ == profile.path@,
    {
        LinkRequest { link: join_path(dir, "selected.toml"), target: profile.path.clone() }
    }
}

/// Selecting a profile whose file has an absolute path makes it the active
/// profile: once the requested link is made, the active profile's file is
/// the profile's file.
pub proof fn lemma_selected_profile_is_active(dir: Seq<char>, profile_path: String)
    requires
        is_absolute(profile_path@),
    ensures
        active_path(dir, SelectedLink::Link(profile_path)) == profile_path@,
{
}

} // verus!
