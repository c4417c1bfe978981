//! The data of the tar build steps and the per-entry placement rule of the
//! unpacker: where one archive entry lands under the target, honoring a
//! subdirectory filter and include/exclude prefixes.

use vstd::prelude::*;
use vstd::string::StringExecFns;
use crate::paths::path_join;
use crate::paths::path_join_spec;
use crate::strutil::split_char;
use crate::strutil::split_spec;
use crate::strutil::str_eq;

verus! {

/// Unpacks an archive into a path of the container.
pub struct Tar {
    pub url: String,
    pub sha256: Option<String>,
    pub path: String,
    pub subdir: String,
}

impl Tar {
    /// The container this step depends on: none.
    pub fn is_dependent_on<'a>(&'a self) -> (r: Option<&'a str>)
        ensures
            r is None,
    {
        None
    }
}

/// Unpacks an archive into a temporary place and runs its install script.
pub struct TarInstall {
    pub url: String,
    pub sha256: Option<String>,
    pub subdir: Option<String>,
    pub script: String,
}

impl TarInstall {
    /// The container this step depends on: none.
    pub fn is_dependent_on<'a>(&'a self) -> (r: Option<&'a str>)
        ensures
            r is None,
    {
        None
    }
}

/// The path components of `s`: the pieces between separators, with empty
/// pieces and `.` dropped.
pub open spec fn comp_filter(parts: Seq<Seq<char>>) -> Seq<Seq<char>>
    decreases parts.len(),
{
    if parts.len() == 0 {
        Seq::<Seq<char>>::empty()
    } else {
        let pre = comp_filter(parts.drop_last());
        let last = parts.last();
        if last == Seq::<char>::empty() || last == seq!['.'] {
            pre
        } else {
            pre.push(last)
        }
    }
}

/// The components of a path.
pub open spec fn comps(s: Seq<char>) -> Seq<Seq<char>> {
    comp_filter(split_spec(s, '/'))
}

/// Whether `pre` is a component-wise prefix of `s` (both absolute or both
/// relative).
pub open spec fn is_path_prefix(pre: Seq<char>, s: Seq<char>) -> bool {
    ((pre.len() > 0 && pre[0] == '/') == (s.len() > 0 && s[0] == '/')) && comps(pre).is_prefix_of(comps(s))
}

/// The components from `i` on, joined with separators.
pub open spec fn join_from(parts: Seq<Seq<char>>, i: int) -> Seq<char>
    decreases parts.len() - i,
{
    if i < 0 || i >= parts.len() {
        Seq::<char>::empty()
    } else if i == parts.len() - 1 {
        parts[i]
    } else {
        parts[i] + seq!['/'] + join_from(parts, i + 1)
    }
}

/// Where one archive entry lands: nothing when an include prefix does not
/// cover it or an exclude prefix does; under a subdirectory filter, the
/// entry must lie in the subdirectory and lands at the target joined with
/// the remainder, and the flag says it did; without one it lands at the
/// target joined with its own path.
pub open spec fn entry_file_path_spec(
    entry: Seq<char>,
    tgt: Seq<char>,
    subdir: Option<Seq<char>>,
    included: Seq<Seq<char>>,
    exclude: Seq<Seq<char>>,
) -> (Option<Seq<char>>, bool) {
    if included.len() > 0 && (exists|i: int| 0 <= i < included.len() && !is_path_prefix(included[i], entry)) {
        (None, false)
    } else if exists|i: int| 0 <= i < exclude.len() && is_path_prefix(exclude[i], entry) {
        (None, false)
    } else {
        match subdir {
            Some(sd) => {
                if is_path_prefix(sd, entry) {
                    (Some(path_join_spec(tgt, join_from(comps(entry), comps(sd).len() as int))), true)
                } else {
                    (None, false)
                }
            },
            None => (Some(path_join_spec(tgt, entry)), false),
        }
    }
}

/// Splits a path into its components.
pub fn comps_of(s: &str) -> (r: Vec<String>)
    ensures
        r.deep_view() == comps(s@),
{
    let parts = split_char(s, '/');
    let n = parts.len();
    let mut r: Vec<String> = Vec::new();
    let mut i: usize = 0;
    while i < n
        invariant
            0 <= i <= n == parts@.len(),
            parts.deep_view() == split_spec(s@, '/'),
            r.deep_view() == comp_filter(parts.deep_view().subrange(0, i as int)),
        decreases n - i,
    {
        proof {
            assert(parts.deep_view().subrange(0, i + 1).drop_last() =~= parts.deep_view().subrange(0, i as int));
            assert(parts.deep_view().subrange(0, i + 1).last() == parts.deep_view()[i as int]);
        }
        let p = &parts[i];
        let keep: bool;
        if str_eq(p.as_str(), "") {
            keep = false;
            proof {
                reveal_strlit("");
                assert(p@ =~= Seq::<char>::empty());
            }
        } else if str_eq(p.as_str(), ".") {
            keep = false;
            proof {
                reveal_strlit(".");
                assert(p@ =~= seq!['.']);
            }
        } else {
            keep = true;
            proof {
                reveal_strlit("");
                reveal_strlit(".");
                assert(""@ =~= Seq::<char>::empty());
                assert("."@ =~= seq!['.']);
                assert(p@ != Seq::<char>::empty());
                assert(p@ != seq!['.']);
            }
        }
        if keep {
            let copy = p.clone();
            let ghost pre = r.deep_view();
            r.push(copy);
            proof {
                assert(r.deep_view() =~= pre.push(parts.deep_view()[i as int]));
            }
        }
        i += 1;
    }
    proof {
        assert(parts.deep_view().subrange(0, n as int) =~= parts.deep_view());
    }
    r
}

/// Tests whether one path is a component-wise prefix of another.
pub fn path_starts_with(s: &str, pre: &str) -> (r: bool)
    ensures
        r == is_path_prefix(pre@, s@),
{
    let s_root = s.unicode_len() > 0 && s.get_char(0) == '/';
    let p_root = pre.unicode_len() > 0 && pre.get_char(0) == '/';
    if s_root != p_root {
        return false;
    }
    let cs = comps_of(s);
    let cp = comps_of(pre);
    let np = cp.len();
    if np > cs.len() {
        proof {
            assert(!comps(pre@).is_prefix_of(comps(s@)));
        }
        return false;
    }
    let mut i: usize = 0;
    while i < np
        invariant
            0 <= i <= np == cp@.len(),
            np <= cs@.len(),
            cp.deep_view() == comps(pre@),
            cs.deep_view() == comps(s@),
            forall|j: int| 0 <= j < i ==> cp.deep_view()[j] == cs.deep_view()[j],
        decreases np - i,
    {
        if !str_eq(cp[i].as_str(), cs[i].as_str()) {
            proof {
                assert(cp.deep_view()[i as int] != cs.deep_view()[i as int]);
                assert(!comps(pre@).is_prefix_of(comps(s@)));
            }
            return false;
        }
        i += 1;
    }
    proof {
        assert(comps(pre@) =~= comps(s@).subrange(0, np as int));
    }
    true
}

/// Joins the components from `i` on with separators.
fn join_comps_from(parts: &Vec<String>, i: usize) -> (r: String)
    requires
        i <= parts@.len(),
    ensures
        r@ == join_from(parts.deep_view(), i as int),
    decreases parts@.len() - i,
{
    let n = parts.len();
    if i >= n {
        return String::new();
    }
    if i == n - 1 {
        return parts[i].clone();
    }
    let mut r = parts[i].clone();
    r.append("/");
    let rest = join_comps_from(parts, i + 1);
    r.append(rest.as_str());
    proof {
        reveal_strlit("/");
        assert("/"@ =~= seq!['/']);
        assert(parts.deep_view()[i as int] == parts@[i as int]@);
    }
    r
}

/// Decides where one archive entry lands under the target, as
/// `entry_file_path_spec` describes; the error case never arises.
pub fn get_entry_file_path(entry_path: &str, tgt: &str, subdir: Option<&str>, included: &Vec<String>, exclude: &Vec<String>) -> (r: Result<(Option<String>, bool), String>)
    ensures
        r is Ok,
        ({
            let sdv = match subdir {
                Some(sd) => Some(sd@),
                None => None,
            };
            let spec_r = entry_file_path_spec(entry_path@, tgt@, sdv, included.deep_view(), exclude.deep_view());
            (match r->Ok_0.0 {
                Some(p) => spec_r.0 is Some && p@ == spec_r.0->0,
                None => spec_r.0 is None,
            }) && r->Ok_0.1 == spec_r.1
        }),
{
    let ni = included.len();
    if ni > 0 {
        let mut i: usize = 0;
        while i < ni
            invariant
                0 <= i <= ni == included@.len(),
                forall|j: int| 0 <= j < i ==> is_path_prefix(#[trigger] included.deep_view()[j], entry_path@),
            decreases ni - i,
        {
            proof {
                assert(included.deep_view()[i as int] == included@[i as int]@);
            }
            if !path_starts_with(entry_path, included[i].as_str()) {
                return Ok((None, false));
            }
            i += 1;
        }
    }
    let ne = exclude.len();
    let mut k: usize = 0;
    while k < ne
        invariant
            0 <= k <= ne == exclude@.len(),
            forall|j: int| 0 <= j < k ==> !is_path_prefix(#[trigger] exclude.deep_view()[j], entry_path@),
        decreases ne - k,
    {
        proof {
            assert(exclude.deep_view()[k as int] == exclude@[k as int]@);
        }
        if path_starts_with(entry_path, exclude[k].as_str()) {
            return Ok((None, false));
        }
        k += 1;
    }
    match subdir {
        Some(sd) => {
            if path_starts_with(entry_path, sd) {
                let ce = comps_of(entry_path);
                let csd = comps_of(sd);
                let nsd = csd.len();
                proof {
                    assert(comps(sd@).is_prefix_of(comps(entry_path@)));
                }
                let rest = join_comps_from(&ce, nsd);
                let file_path = path_join(tgt, rest.as_str());
                Ok((Some(file_path), true))
            } else {
                Ok((None, false))
            }
        },
        None => {
            let file_path = path_join(tgt, entry_path);
            Ok((Some(file_path), false))
        },
    }
}

} // verus!
