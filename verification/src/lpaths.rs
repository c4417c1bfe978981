//! The prioritized, deduplicating library search path. Five sources feed it,
//! each with its own decrementing priority counter, so that earlier entries
//! from one source outrank later ones and higher-precedence sources always
//! outrank lower ones. Ordering is realized directly as an ordered map from
//! path to priority rather than through a priority-queue abstraction.

use vstd::prelude::*;
use crate::strutil::lex_lt;
use crate::strutil::str_lt;

verus! {

/// Base priority for default system library directories.
pub const DEFAULT_PATH_PRIORITY: i32 = 1000;

/// Base priority for directories read from `ld.so.conf`.
pub const LD_SO_CONF_PRIORITY: i32 = 2000;

/// Base priority for directories from a binary's RUNPATH.
pub const RUNPATH_PRIORITY: i32 = 3000;

/// Base priority for directories from `LD_LIBRARY_PATH`.
pub const LD_LIBRARY_PATH_PRIORITY: i32 = 4000;

/// Base priority for directories from a binary's RPATH.
pub const RPATH_PRIORITY: i32 = 5000;

/// Where a search directory came from; each source owns one priority
/// counter.
#[derive(Debug, Clone, Copy, PartialEq, Eq, Structural)]
pub enum LPathSource {
    RPath,
    LdLibraryPath,
    RunPath,
    LdSoConf,
    DefaultPath,
}

/// The mathematical content of an `LPaths` value: the path-to-priority map
/// (as an association sequence with distinct paths) and the five counters.
pub ghost struct LPathsAbs {
    pub entries: Seq<(Seq<char>, int)>,
    pub rpath_prio: int,
    pub ld_library_path_prio: int,
    pub runpath_prio: int,
    pub ld_so_conf_prio: int,
    pub default_path_prio: int,
}

/// An ordered, deduplicated collection of search directories tagged with
/// priorities.
pub struct LPaths {
    entries: Vec<(String, i32)>,
    rpath_prio: i32,
    ld_library_path_prio: i32,
    runpath_prio: i32,
    ld_so_conf_prio: i32,
    default_path_prio: i32,
}

/// The association sequence a vector of (path, priority) pairs stands for.
pub open spec fn view_entries(v: Seq<(String, i32)>) -> Seq<(Seq<char>, int)> {
    v.map_values(|e: (String, i32)| (e.0@, e.1 as int))
}

/// Index of `p` in the association sequence, or -1.
pub open spec fn lp_find(entries: Seq<(Seq<char>, int)>, p: Seq<char>) -> int
    decreases entries.len(),
{
    if entries.len() == 0 {
        -1
    } else if entries[0].0 == p {
        0
    } else {
        let r = lp_find(entries.drop_first(), p);
        if r < 0 {
            -1
        } else {
            r + 1
        }
    }
}

/// One decrement of a source counter, stopping at the lower machine bound.
pub open spec fn dec_prio(p: int) -> int {
    if p > i32::MIN {
        p - 1
    } else {
        p
    }
}

/// What one `add` does to the association sequence: an unseen path is
/// appended at the given priority; a seen path is promoted when the new
/// priority is strictly higher, and left alone otherwise.
pub open spec fn lp_add_entries(entries: Seq<(Seq<char>, int)>, p: Seq<char>, prio: int) -> Seq<(Seq<char>, int)> {
    let k = lp_find(entries, p);
    if k < 0 {
        entries.push((p, prio))
    } else if entries[k].1 < prio {
        entries.update(k, (p, prio))
    } else {
        entries
    }
}

/// The counter a source selects.
pub open spec fn counter_of(a: LPathsAbs, source: LPathSource) -> int {
    match source {
        LPathSource::RPath => a.rpath_prio,
        LPathSource::LdLibraryPath => a.ld_library_path_prio,
        LPathSource::RunPath => a.runpath_prio,
        LPathSource::LdSoConf => a.ld_so_conf_prio,
        LPathSource::DefaultPath => a.default_path_prio,
    }
}

/// What one `add` does to the whole collection: the entries change as
/// `lp_add_entries` says and the chosen counter decrements.
pub open spec fn lp_add_spec(a: LPathsAbs, p: Seq<char>, source: LPathSource) -> LPathsAbs {
    let prio = counter_of(a, source);
    let entries = lp_add_entries(a.entries, p, prio);
    match source {
        LPathSource::RPath => LPathsAbs { entries, rpath_prio: dec_prio(prio), ..a },
        LPathSource::LdLibraryPath => LPathsAbs { entries, ld_library_path_prio: dec_prio(prio), ..a },
        LPathSource::RunPath => LPathsAbs { entries, runpath_prio: dec_prio(prio), ..a },
        LPathSource::LdSoConf => LPathsAbs { entries, ld_so_conf_prio: dec_prio(prio), ..a },
        LPathSource::DefaultPath => LPathsAbs { entries, default_path_prio: dec_prio(prio), ..a },
    }
}

/// Strict iteration order of the finalized search path: descending
/// priority, ties broken by ascending path.
pub open spec fn lp_before(a: (Seq<char>, int), b: (Seq<char>, int)) -> bool {
    a.1 > b.1 || (a.1 == b.1 && lex_lt(a.0, b.0))
}

/// Insertion into an ordered association sequence, before the first entry
/// that the inserted one precedes.
pub open spec fn lp_insert(s: Seq<(Seq<char>, int)>, e: (Seq<char>, int)) -> Seq<(Seq<char>, int)>
    decreases s.len(),
{
    if s.len() == 0 {
        seq![e]
    } else if lp_before(e, s[0]) {
        seq![e] + s
    } else {
        seq![s[0]] + lp_insert(s.drop_first(), e)
    }
}

/// Insertion sort of an association sequence in the `lp_before` order.
pub open spec fn lp_sort(s: Seq<(Seq<char>, int)>) -> Seq<(Seq<char>, int)>
    decreases s.len(),
{
    if s.len() == 0 {
        Seq::<(Seq<char>, int)>::empty()
    } else {
        lp_insert(lp_sort(s.drop_last()), s.last())
    }
}

/// The directories of the finalized search path, in search order.
pub open spec fn lp_sorted_paths(entries: Seq<(Seq<char>, int)>) -> Seq<Seq<char>> {
    lp_sort(entries).map_values(|e: (Seq<char>, int)| e.0)
}

proof fn lemma_lp_insert_at(s: Seq<(Seq<char>, int)>, e: (Seq<char>, int), k: int)
    requires
        0 <= k <= s.len(),
        forall|j: int| 0 <= j < k ==> !lp_before(e, s[j]),
        k < s.len() ==> lp_before(e, s[k]),
    ensures
        lp_insert(s, e) == s.subrange(0, k) + seq![e] + s.subrange(k, s.len() as int),
    decreases s.len(),
{
    if s.len() == 0 {
        assert(lp_insert(s, e) =~= s.subrange(0, k) + seq![e] + s.subrange(k, s.len() as int));
    } else if k == 0 {
        assert(lp_insert(s, e) =~= s.subrange(0, k) + seq![e] + s.subrange(k, s.len() as int));
    } else {
        assert(!lp_before(e, s[0]));
        let rest = s.drop_first();
        assert(forall|j: int| 0 <= j < k - 1 ==> rest[j] == s[j + 1] && !lp_before(e, rest[j]));
        lemma_lp_insert_at(rest, e, k - 1);
        assert(lp_insert(s, e) =~= s.subrange(0, k) + seq![e] + s.subrange(k, s.len() as int));
    }
}

impl LPaths {
    /// The abstract value this collection stands for.
    pub closed spec fn abs(&self) -> LPathsAbs {
        LPathsAbs {
            entries: view_entries(self.entries@),
            rpath_prio: self.rpath_prio as int,
            ld_library_path_prio: self.ld_library_path_prio as int,
            runpath_prio: self.runpath_prio as int,
            ld_so_conf_prio: self.ld_so_conf_prio as int,
            default_path_prio: self.default_path_prio as int,
        }
    }

    /// The abstract value of a fresh, empty search path.
    pub open spec fn init_abs() -> LPathsAbs {
        LPathsAbs {
            entries: Seq::<(Seq<char>, int)>::empty(),
            rpath_prio: RPATH_PRIORITY as int,
            ld_library_path_prio: LD_LIBRARY_PATH_PRIORITY as int,
            runpath_prio: RUNPATH_PRIORITY as int,
            ld_so_conf_prio: LD_SO_CONF_PRIORITY as int,
            default_path_prio: DEFAULT_PATH_PRIORITY as int,
        }
    }

    /// An empty search path with every counter at its base priority.
    pub fn new() -> (r: LPaths)
        ensures
            r.abs() == LPaths::init_abs(),
    {
        let r = LPaths {
            entries: Vec::new(),
            rpath_prio: RPATH_PRIORITY,
            ld_library_path_prio: LD_LIBRARY_PATH_PRIORITY,
            runpath_prio: RUNPATH_PRIORITY,
            ld_so_conf_prio: LD_SO_CONF_PRIORITY,
            default_path_prio: DEFAULT_PATH_PRIORITY,
        };
        proof {
            assert(r.abs().entries =~= LPaths::init_abs().entries);
        }
        r
    }

    /// An identical copy, entry by entry.
    pub fn duplicate(&self) -> (r: LPaths)
        ensures
            r.abs() == self.abs(),
    {
        let mut entries: Vec<(String, i32)> = Vec::new();
        let n = self.entries.len();
        let mut i: usize = 0;
        while i < n
            invariant
                0 <= i <= n == self.entries@.len(),
                entries@.len() == i,
                forall|j: int| 0 <= j < i ==> entries@[j].0@ == self.entries@[j].0@ && entries@[j].1 == self.entries@[j].1,
            decreases n - i,
        {
            let p = self.entries[i].0.clone();
            let prio = self.entries[i].1;
            entries.push((p, prio));
            i += 1;
        }
        proof {
            assert(view_entries(entries@) =~= view_entries(self.entries@));
        }
        LPaths {
            entries,
            rpath_prio: self.rpath_prio,
            ld_library_path_prio: self.ld_library_path_prio,
            runpath_prio: self.runpath_prio,
            ld_so_conf_prio: self.ld_so_conf_prio,
            default_path_prio: self.default_path_prio,
        }
    }

    /// Records a directory from a source: an unseen directory enters at the
    /// source's current priority, a seen one is only promoted, and the
    /// source's counter decrements either way.
    pub fn add(&mut self, path: String, source: LPathSource)
        ensures
            final(self).abs() == lp_add_spec(old(self).abs(), path@, source),
    {
        let prio: i32 = match source {
            LPathSource::RPath => self.rpath_prio,
            LPathSource::LdLibraryPath => self.ld_library_path_prio,
            LPathSource::RunPath => self.runpath_prio,
            LPathSource::LdSoConf => self.ld_so_conf_prio,
            LPathSource::DefaultPath => self.default_path_prio,
        };
        let n = self.entries.len();
        let mut i: usize = 0;
        let mut found: bool = false;
        proof {
            assert(view_entries(self.entries@).subrange(0, n as int) =~= view_entries(self.entries@));
        }
        while i < n && !found
            invariant
                0 <= i <= n == self.entries@.len(),
                n == view_entries(self.entries@).len(),
                !found ==> lp_find(view_entries(self.entries@), path@) == lift_find(lp_find(view_entries(self.entries@).subrange(i as int, n as int), path@), i as int),
                found ==> i < n && lp_find(view_entries(self.entries@), path@) == i && self.entries@[i as int].0@ == path@,
            decreases n - i, (if found { 0int } else { 1int }),
        {
            proof {
                lemma_lp_find_step(view_entries(self.entries@), path@, i as int);
                assert(view_entries(self.entries@)[i as int] == (self.entries@[i as int].0@, self.entries@[i as int].1 as int));
            }
            if crate::strutil::str_eq(self.entries[i].0.as_str(), path.as_str()) {
                found = true;
            } else {
                i += 1;
            }
        }
        proof {
            if !found {
                lemma_lp_find_step(view_entries(self.entries@), path@, n as int);
            }
        }
        if found {
            if self.entries[i].1 < prio {
                let owned = path;
                self.entries[i] = (owned, prio);
                proof {
                    assert(view_entries(self.entries@) =~= lp_add_entries(view_entries(old(self).entries@), path@, prio as int));
                }
            } else {
                proof {
                    assert(view_entries(self.entries@) =~= lp_add_entries(view_entries(old(self).entries@), path@, prio as int));
                }
            }
        } else {
            self.entries.push((path, prio));
            proof {
                assert(view_entries(self.entries@) =~= lp_add_entries(view_entries(old(self).entries@), path@, prio as int));
            }
        }
        match source {
            LPathSource::RPath => {
                if self.rpath_prio > i32::MIN {
                    self.rpath_prio = self.rpath_prio - 1;
                }
            },
            LPathSource::LdLibraryPath => {
                if self.ld_library_path_prio > i32::MIN {
                    self.ld_library_path_prio = self.ld_library_path_prio - 1;
                }
            },
            LPathSource::RunPath => {
                if self.runpath_prio > i32::MIN {
                    self.runpath_prio = self.runpath_prio - 1;
                }
            },
            LPathSource::LdSoConf => {
                if self.ld_so_conf_prio > i32::MIN {
                    self.ld_so_conf_prio = self.ld_so_conf_prio - 1;
                }
            },
            LPathSource::DefaultPath => {
                if self.default_path_prio > i32::MIN {
                    self.default_path_prio = self.default_path_prio - 1;
                }
            },
        }
    }

    /// The directories ordered by descending priority (ties by ascending
    /// path): the order in which the walker probes for a needed library.
    pub fn into_vec(self) -> (r: Vec<String>)
        ensures
            r.deep_view() == lp_sorted_paths(self.abs().entries),
    {
        let entries = self.entries;
        let n = entries.len();
        let mut sorted: Vec<(String, i32)> = Vec::new();
        let mut i: usize = 0;
        while i < n
            invariant
                0 <= i <= n == entries@.len(),
                n == view_entries(entries@).len(),
                view_entries(sorted@) == lp_sort(view_entries(entries@).subrange(0, i as int)),
            decreases n - i,
        {
            let e = (entries[i].0.clone(), entries[i].1);
            let m = sorted.len();
            let mut k: usize = 0;
            while k < m && !lp_before_exec(&e, &sorted[k])
                invariant
                    0 <= k <= m == sorted@.len(),
                    forall|j: int| 0 <= j < k ==> !lp_before((e.0@, e.1 as int), view_entries(sorted@)[j]),
                decreases m - k,
            {
                proof {
                    assert(view_entries(sorted@)[k as int] == (sorted@[k as int].0@, sorted@[k as int].1 as int));
                }
                k += 1;
            }
            proof {
                if k < m {
                    assert(view_entries(sorted@)[k as int] == (sorted@[k as int].0@, sorted@[k as int].1 as int));
                }
                lemma_lp_insert_at(view_entries(sorted@), (e.0@, e.1 as int), k as int);
            }
            let ghost presorted = view_entries(sorted@);
            sorted.insert(k, e);
            proof {
                let sub = view_entries(entries@).subrange(0, i + 1);
                assert(sub.drop_last() =~= view_entries(entries@).subrange(0, i as int));
                assert(sub.last() == view_entries(entries@)[i as int]);
                assert(view_entries(entries@)[i as int] == (entries@[i as int].0@, entries@[i as int].1 as int));
                assert(view_entries(sorted@) =~= presorted.subrange(0, k as int) + seq![(e.0@, e.1 as int)] + presorted.subrange(k as int, presorted.len() as int));
                assert((e.0@, e.1 as int) == (entries@[i as int].0@, entries@[i as int].1 as int));
                assert(view_entries(sorted@) == lp_sort(sub));
            }
            i += 1;
        }
        proof {
            assert(view_entries(entries@).subrange(0, n as int) =~= view_entries(entries@));
        }
        let mut r: Vec<String> = Vec::new();
        let m = sorted.len();
        let mut k: usize = 0;
        while k < m
            invariant
                0 <= k <= m == sorted@.len(),
                r.deep_view().len() == k,
                forall|j: int| 0 <= j < k ==> r.deep_view()[j] == view_entries(sorted@)[j].0,
            decreases m - k,
        {
            let s = sorted[k].0.clone();
            let ghost pre = r.deep_view();
            r.push(s);
            proof {
                assert(r@.len() == pre.len() + 1);
                assert(r.deep_view() =~= pre.push(s@));
                assert(view_entries(sorted@)[k as int] == (sorted@[k as int].0@, sorted@[k as int].1 as int));
            }
            k += 1;
        }
        proof {
            assert(r.deep_view() =~= lp_sorted_paths(view_entries(entries@)));
        }
        r
    }
}

/// A found index names an entry with the sought path.
pub proof fn lemma_lp_find_hit(s: Seq<(Seq<char>, int)>, p: Seq<char>)
    ensures
        lp_find(s, p) >= 0 ==> 0 <= lp_find(s, p) < s.len() && s[lp_find(s, p)].0 == p,
    decreases s.len(),
{
    if s.len() > 0 && s[0].0 != p {
        lemma_lp_find_hit(s.drop_first(), p);
        if lp_find(s.drop_first(), p) >= 0 {
            assert(s[lp_find(s, p)] == s.drop_first()[lp_find(s.drop_first(), p)]);
        }
    }
}

/// A later insertion never evicts a recorded directory and never lowers
/// its priority: every entry survives an `add`, at the same or a higher
/// priority.
pub proof fn lemma_add_never_demotes(a: LPathsAbs, p: Seq<char>, source: LPathSource, k: int)
    requires
        0 <= k < a.entries.len(),
    ensures
        exists|j: int|
            0 <= j < lp_add_spec(a, p, source).entries.len()
            && (#[trigger] lp_add_spec(a, p, source).entries[j]).0 == a.entries[k].0
            && lp_add_spec(a, p, source).entries[j].1 >= a.entries[k].1,
{
    let prio = counter_of(a, source);
    let f = lp_find(a.entries, p);
    lemma_lp_find_hit(a.entries, p);
    let entries2 = lp_add_entries(a.entries, p, prio);
    assert(lp_add_spec(a, p, source).entries == entries2);
    if f < 0 {
        assert(entries2[k] == a.entries[k]);
    } else if a.entries[f].1 < prio {
        if k == f {
            assert(entries2[k].0 == a.entries[k].0 && entries2[k].1 >= a.entries[k].1);
        } else {
            assert(entries2[k] == a.entries[k]);
        }
    } else {
        assert(entries2[k] == a.entries[k]);
    }
}

/// Shifts a find result from a suffix back to the whole sequence.
pub open spec fn lift_find(r: int, base: int) -> int {
    if r < 0 {
        -1
    } else {
        r + base
    }
}

proof fn lemma_lp_find_step(s: Seq<(Seq<char>, int)>, p: Seq<char>, i: int)
    requires
        0 <= i <= s.len(),
    ensures
        i < s.len() && s[i].0 == p ==> lift_find(lp_find(s.subrange(i, s.len() as int), p), i) == i,
        i < s.len() && s[i].0 != p ==> lift_find(lp_find(s.subrange(i, s.len() as int), p), i) == lift_find(lp_find(s.subrange(i + 1, s.len() as int), p), i + 1),
        i == s.len() ==> lift_find(lp_find(s.subrange(i, s.len() as int), p), i) == -1,
{
    let sub = s.subrange(i, s.len() as int);
    if i < s.len() {
        assert(sub[0] == s[i]);
        if s[i].0 != p {
            assert(sub.drop_first() =~= s.subrange(i + 1, s.len() as int));
        }
    }
}

/// Executable mirror of `lp_before`.
fn lp_before_exec(a: &(String, i32), b: &(String, i32)) -> (r: bool)
    ensures
        r == lp_before((a.0@, a.1 as int), (b.0@, b.1 as int)),
{
    a.1 > b.1 || (a.1 == b.1 && str_lt(a.0.as_str(), b.0.as_str()))
}

} // verus!
