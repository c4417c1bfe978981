//! An in-memory snapshot of the filesystem tree under a sysroot. Every path
//! operation of the resolver works on such a snapshot, so the resolution
//! logic is a pure function of it: keys are normalized sysroot-relative
//! absolute paths, and each key carries a symlink target, file contents, or
//! a directory marker.

use vstd::prelude::*;
use crate::strutil::str_eq;

verus! {

/// One filesystem entry: a symbolic link with its target, a regular file
/// with its contents, or a directory.
pub enum FsNode {
    Symlink(String),
    File(Vec<u8>),
    Dir,
}

/// The mathematical value of one entry.
pub ghost enum FsNodeAbs {
    Symlink(Seq<char>),
    File(Seq<u8>),
    Dir,
}

impl FsNode {
    /// The mathematical value of this entry.
    pub open spec fn abs(&self) -> FsNodeAbs {
        match self {
            FsNode::Symlink(t) => FsNodeAbs::Symlink(t@),
            FsNode::File(b) => FsNodeAbs::File(b@),
            FsNode::Dir => FsNodeAbs::Dir,
        }
    }
}

/// A snapshot of everything under a sysroot, keyed by normalized
/// sysroot-relative absolute path (`/usr/lib/libc.so.6`). When a key occurs
/// twice, the first occurrence wins everywhere.
pub struct FsTree {
    pub entries: Vec<(String, FsNode)>,
}

/// The association sequence a snapshot stands for.
pub open spec fn fs_abs_of(entries: Seq<(String, FsNode)>) -> Seq<(Seq<char>, FsNodeAbs)> {
    entries.map_values(|e: (String, FsNode)| (e.0@, e.1.abs()))
}

/// First entry under `key`, if any.
pub open spec fn fs_lookup(fs: Seq<(Seq<char>, FsNodeAbs)>, key: Seq<char>) -> Option<FsNodeAbs>
    decreases fs.len(),
{
    if fs.len() == 0 {
        None
    } else if fs[0].0 == key {
        Some(fs[0].1)
    } else {
        fs_lookup(fs.drop_first(), key)
    }
}

/// Whether `key` names a symbolic link in the snapshot.
pub open spec fn fs_is_symlink(fs: Seq<(Seq<char>, FsNodeAbs)>, key: Seq<char>) -> bool {
    fs_lookup(fs, key) is Some && fs_lookup(fs, key)->Some_0 is Symlink
}

/// The keys of the snapshot, in order.
pub open spec fn fs_keys(fs: Seq<(Seq<char>, FsNodeAbs)>) -> Seq<Seq<char>> {
    fs.map_values(|e: (Seq<char>, FsNodeAbs)| e.0)
}

impl FsTree {
    /// The mathematical value of this snapshot.
    pub open spec fn abs(&self) -> Seq<(Seq<char>, FsNodeAbs)> {
        fs_abs_of(self.entries@)
    }

    /// An empty snapshot.
    pub fn new() -> (r: FsTree)
        ensures
            r.abs() == Seq::<(Seq<char>, FsNodeAbs)>::empty(),
    {
        let r = FsTree { entries: Vec::new() };
        proof {
            assert(r.abs() =~= Seq::<(Seq<char>, FsNodeAbs)>::empty());
        }
        r
    }

    /// Appends an entry to the snapshot.
    pub fn add(&mut self, path: String, node: FsNode)
        ensures
            final(self).abs() == old(self).abs().push((path@, node.abs())),
    {
        let ghost pv = path@;
        let ghost nv = node.abs();
        self.entries.push((path, node));
        proof {
            assert(self.abs() =~= old(self).abs().push((pv, nv)));
        }
    }

    /// Looks a normalized key up, returning the first entry under it.
    pub fn lookup<'a>(&'a self, key: &str) -> (r: Option<&'a FsNode>)
        ensures
            match r {
                Some(node) => fs_lookup(self.abs(), key@) == Some(node.abs()),
                None => fs_lookup(self.abs(), key@) is None,
            },
    {
        let n = self.entries.len();
        let mut i: usize = 0;
        proof {
            assert(self.abs().subrange(0, n as int) =~= self.abs());
        }
        while i < n
            invariant
                0 <= i <= n == self.entries@.len(),
                n == self.abs().len(),
                fs_lookup(self.abs(), key@) == fs_lookup(self.abs().subrange(i as int, n as int), key@),
            decreases n - i,
        {
            proof {
                let sub = self.abs().subrange(i as int, n as int);
                assert(sub[0] == self.abs()[i as int]);
                assert(sub.drop_first() =~= self.abs().subrange(i + 1, n as int));
            }
            if str_eq(self.entries[i].0.as_str(), key) {
                return Some(&self.entries[i].1);
            }
            i += 1;
        }
        None
    }
}

impl FsTree {
    /// The snapshot's keys, in entry order.
    pub fn keys(&self) -> (r: Vec<String>)
        ensures
            r.deep_view() == fs_keys(self.abs()),
    {
        let n = self.entries.len();
        let mut r: Vec<String> = Vec::new();
        let mut i: usize = 0;
        while i < n
            invariant
                0 <= i <= n == self.entries@.len(),
                n == self.abs().len(),
                r.deep_view().len() == i,
                forall|j: int| 0 <= j < i ==> r.deep_view()[j] == fs_keys(self.abs())[j],
            decreases n - i,
        {
            let k = self.entries[i].0.clone();
            let ghost pre = r.deep_view();
            r.push(k);
            proof {
                assert(r.deep_view() =~= pre.push(self.entries@[i as int].0@));
                assert(fs_keys(self.abs())[i as int] == self.abs()[i as int].0);
            }
            i += 1;
        }
        proof {
            assert(r.deep_view() =~= fs_keys(self.abs()));
        }
        r
    }
}

/// A key that `fs_lookup` finds occurs among the snapshot's keys.
pub proof fn lemma_lookup_found_key(fs: Seq<(Seq<char>, FsNodeAbs)>, key: Seq<char>)
    requires
        fs_lookup(fs, key) is Some,
    ensures
        fs_keys(fs).contains(key),
    decreases fs.len(),
{
    if fs.len() > 0 {
        if fs[0].0 == key {
            assert(fs_keys(fs)[0] == key);
        } else {
            lemma_lookup_found_key(fs.drop_first(), key);
            let i = choose|i: int| 0 <= i < fs_keys(fs.drop_first()).len() && fs_keys(fs.drop_first())[i] == key;
            assert(fs_keys(fs)[i + 1] == key);
        }
    }
}

/// A pairwise-distinct sequence whose members all occur in `keys` cannot be
/// longer than `keys`.
pub proof fn lemma_distinct_members_bound(seen: Seq<Seq<char>>, keys: Seq<Seq<char>>)
    requires
        seen.no_duplicates(),
        forall|i: int| 0 <= i < seen.len() ==> keys.contains(seen[i]),
    ensures
        seen.len() <= keys.len(),
{
    broadcast use vstd::seq_lib::seq_to_set_is_finite;

    seen.unique_seq_to_set();
    assert forall|x: Seq<char>| seen.to_set().contains(x) implies keys.to_set().contains(x) by {
        assert(seen.contains(x));
        let i = choose|i: int| 0 <= i < seen.len() && seen[i] == x;
        assert(keys.contains(seen[i]));
    }
    keys.lemma_cardinality_of_set();
    vstd::set_lib::lemma_len_subset(seen.to_set(), keys.to_set());
}

} // verus!
