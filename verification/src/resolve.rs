//! Symlink resolution inside a sysroot snapshot. Links are followed one at a
//! time; a relative target is taken relative to the directory of the link
//! being followed; every visited path is recorded (normalized) and a target
//! that was already visited fails with a recursive-link error, so resolution
//! always terminates.

use vstd::prelude::*;
use vstd::string::StrSliceExecFns;
use vstd::string::StringExecFns;
use crate::errors::ErrAbs;
use crate::errors::LddError;
use crate::fstree::FsNode;
use crate::fstree::FsNodeAbs;
use crate::fstree::FsTree;
use crate::fstree::fs_is_symlink;
use crate::fstree::fs_keys;
use crate::fstree::fs_lookup;
use crate::fstree::lemma_distinct_members_bound;
use crate::fstree::lemma_lookup_found_key;
use crate::paths::normalize_path;
use crate::paths::normalize_spec;
use crate::paths::parent_dir;
use crate::paths::parent_dir_spec;
use crate::paths::path_join;
use crate::paths::path_join_spec;
use crate::paths::with_sysroot;
use crate::paths::with_sysroot_spec;
use crate::strutil::vec_contains_str;

verus! {

/// Where a symlink at `cur` with target `tgt` points: an absolute target
/// stands alone, a relative one is taken from the directory of the link.
pub open spec fn symlink_dest(cur: Seq<char>, tgt: Seq<char>) -> Seq<char> {
    if tgt.len() > 0 && tgt[0] == '/' {
        tgt
    } else {
        path_join_spec(parent_dir_spec(cur), tgt)
    }
}

/// One resolution state: the current path, the chain of paths walked so
/// far (as computed), and the set of visited normalized paths. The fuel
/// only bounds the recursion depth; with fuel of at least one more than
/// the snapshot size it is never exhausted, because every continuing step
/// visits a distinct symlink key of the snapshot.
#[verifier::opaque]
pub open spec fn resolve_rec(
    fs: Seq<(Seq<char>, FsNodeAbs)>,
    cur: Seq<char>,
    chain: Seq<Seq<char>>,
    seen: Seq<Seq<char>>,
    fuel: nat,
) -> Result<(Seq<char>, Seq<Seq<char>>), ErrAbs>
    decreases fuel,
{
    if fuel == 0 {
        Err(ErrAbs::RecursiveLink(cur))
    } else {
        match fs_lookup(fs, normalize_spec(cur)) {
            None => Err(ErrAbs::Io(cur)),
            Some(FsNodeAbs::Symlink(tgt)) => {
                let dst = symlink_dest(cur, tgt);
                if seen.contains(normalize_spec(dst)) {
                    Err(ErrAbs::RecursiveLink(dst))
                } else {
                    resolve_rec(fs, dst, chain.push(dst), seen.push(normalize_spec(dst)), (fuel - 1) as nat)
                }
            },
            Some(_) => Ok((cur, chain)),
        }
    }
}

/// What resolving `p` in the snapshot yields: the sysroot-relative real
/// path and the chain of link target paths walked, in order. The chain is
/// empty when `p` itself is not a link, and otherwise records the resulting
/// path of each link followed, the final non-link path included.
pub open spec fn resolve_abs(fs: Seq<(Seq<char>, FsNodeAbs)>, p: Seq<char>) -> Result<(Seq<char>, Seq<Seq<char>>), ErrAbs> {
    resolve_rec(fs, p, Seq::<Seq<char>>::empty(), seq![normalize_spec(p)], (fs.len() + 1) as nat)
}

/// Follows symlinks from `rel_path`, inside the snapshot, to the first
/// non-link entry; errors carry sysroot-relative paths.
pub(crate) fn resolve_rel(fs: &FsTree, rel_path: &str) -> (r: Result<(String, Vec<String>), LddError>)
    ensures
        match resolve_abs(fs.abs(), rel_path@) {
            Ok(p) => r is Ok && r->Ok_0.0@ == p.0 && r->Ok_0.1.deep_view() == p.1,
            Err(e) => r is Err && r->Err_0.abs() == e,
        },
{
    let ghost fsv = fs.abs();
    let ghost target = resolve_abs(fsv, rel_path@);
    let mut cur: String = rel_path.to_owned();
    let mut chain: Vec<String> = Vec::new();
    let mut seen: Vec<String> = Vec::new();
    seen.push(normalize_path(rel_path));
    proof {
        reveal(resolve_rec);
        assert(chain.deep_view() =~= Seq::<Seq<char>>::empty());
        assert(seen.deep_view() =~= seq![normalize_spec(rel_path@)]);
    }
    loop
        invariant
            fsv == fs.abs(),
            target == resolve_abs(fsv, rel_path@),
            seen.deep_view().len() >= 1,
            seen.deep_view().len() - 1 <= fsv.len(),
            seen.deep_view().no_duplicates(),
            seen.deep_view().last() == normalize_spec(cur@),
            forall|j: int| 0 <= j < seen.deep_view().len() - 1 ==> fs_keys(fsv).contains(#[trigger] seen.deep_view()[j]) && fs_is_symlink(fsv, seen.deep_view()[j]),
            resolve_rec(fsv, cur@, chain.deep_view(), seen.deep_view(), (fsv.len() + 1 - (seen.deep_view().len() - 1)) as nat) == target,
        decreases fsv.len() + 1 - seen.deep_view().len(),
    {
        let ghost fuel = (fsv.len() + 1 - (seen.deep_view().len() - 1)) as nat;
        proof {
            reveal(resolve_rec);
            assert(fuel >= 1);
        }
        let key = normalize_path(cur.as_str());
        match fs.lookup(key.as_str()) {
            None => {
                return Err(LddError::Io(cur));
            },
            Some(node) => {
                match node {
                    FsNode::Symlink(tgt) => {
                        proof {
                            assert(fs_lookup(fsv, normalize_spec(cur@)) == Some(FsNodeAbs::Symlink(tgt@)));
                        }
                        let dst: String;
                        if tgt.as_str().unicode_len() > 0 && tgt.as_str().get_char(0) == '/' {
                            dst = tgt.clone();
                        } else {
                            let dir = parent_dir(cur.as_str());
                            dst = path_join(dir.as_str(), tgt.as_str());
                        }
                        proof {
                            assert(dst@ == symlink_dest(cur@, tgt@));
                        }
                        let nd = normalize_path(dst.as_str());
                        if vec_contains_str(&seen, nd.as_str()) {
                            return Err(LddError::RecursiveLink(dst));
                        }
                        let ghost old_seen = seen.deep_view();
                        let ghost old_chain = chain.deep_view();
                        chain.push(dst.clone());
                        seen.push(nd);
                        proof {
                            assert(seen.deep_view() =~= old_seen.push(normalize_spec(dst@)));
                            assert(chain.deep_view() =~= old_chain.push(dst@));
                            assert(seen.deep_view().no_duplicates());
                            lemma_lookup_found_key(fsv, normalize_spec(cur@));
                            assert(fs_is_symlink(fsv, old_seen.last()));
                            assert forall|j: int| 0 <= j < seen.deep_view().len() - 1 implies fs_keys(fsv).contains(#[trigger] seen.deep_view()[j]) && fs_is_symlink(fsv, seen.deep_view()[j]) by {
                                if j < old_seen.len() - 1 {
                                    assert(seen.deep_view()[j] == old_seen[j]);
                                } else {
                                    assert(seen.deep_view()[j] == old_seen.last());
                                }
                            }
                            lemma_distinct_members_bound(seen.deep_view().drop_last(), fs_keys(fsv));
                            assert(seen.deep_view().len() - 1 <= fs_keys(fsv).len());
                            assert(fs_keys(fsv).len() == fsv.len());
                        }
                        cur = dst;
                    },
                    FsNode::File(_) => {
                        return Ok((cur, chain));
                    },
                    FsNode::Dir => {
                        return Ok((cur, chain));
                    },
                }
            },
        }
    }
}

/// What the errors of `resolve_link` carry once mapped under the sysroot:
/// an I/O error names the host path, the others are unchanged.
pub open spec fn err_under_sysroot(sysroot: Seq<char>, e: ErrAbs) -> ErrAbs {
    match e {
        ErrAbs::Io(p) => ErrAbs::Io(with_sysroot_spec(sysroot, p)),
        other => other,
    }
}

/// Repeatedly follows symbolic links rooted at the sysroot, returning the
/// real path (mapped under the sysroot) and the chain of link target paths
/// walked — empty when the path was never a link — or failing on a missing
/// entry or a link cycle.
pub fn resolve_link(sysroot: &str, fs: &FsTree, rel_path: &str) -> (r: Result<(String, Vec<String>), LddError>)
    ensures
        match resolve_abs(fs.abs(), rel_path@) {
            Ok(p) => r is Ok && r->Ok_0.0@ == with_sysroot_spec(sysroot@, p.0) && r->Ok_0.1.deep_view() == p.1,
            Err(e) => r is Err && r->Err_0.abs() == err_under_sysroot(sysroot@, e),
        },
{
    match resolve_rel(fs, rel_path) {
        Ok(p) => {
            let (rp, chain) = p;
            Ok((with_sysroot(sysroot, rp.as_str()), chain))
        },
        Err(e) => {
            match e {
                LddError::Io(p) => Err(LddError::Io(with_sysroot(sysroot, p.as_str()))),
                other => Err(other),
            }
        },
    }
}

} // verus!
