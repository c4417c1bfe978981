//! Container signature checking: comparing the recorded index of a
//! container against a freshly scanned one, entry by entry, and reporting
//! what is missing, extra, or corrupted. The scanning and hashing of the
//! filesystem is the caller's business; this diff works on the parsed
//! entries alone.

use vstd::prelude::*;
use crate::strutil::str_eq;

verus! {

/// One file entry of a container index: its path, whether it is
/// executable, its size, and its content hashes as recorded bytes.
pub struct SigEntry {
    pub path: String,
    pub exe: bool,
    pub size: u64,
    pub hashes: Vec<u8>,
}

/// The value of one entry.
pub open spec fn sig_abs(e: SigEntry) -> (Seq<char>, bool, u64, Seq<u8>) {
    (e.path@, e.exe, e.size, e.hashes@)
}

/// The values of an entry list.
pub open spec fn sigs_abs(v: Seq<SigEntry>) -> Seq<(Seq<char>, bool, u64, Seq<u8>)> {
    v.map_values(|e: SigEntry| sig_abs(e))
}

/// Index of the first entry under `p`, or -1.
pub open spec fn sig_find(v: Seq<SigEntry>, p: Seq<char>) -> int
    decreases v.len(),
{
    if v.len() == 0 {
        -1
    } else if v[0].path@ == p {
        0
    } else {
        let r = sig_find(v.drop_first(), p);
        if r < 0 {
            -1
        } else {
            r + 1
        }
    }
}

/// The expected paths that the actual index lacks, in order.
pub open spec fn missing_spec(exp: Seq<SigEntry>, act: Seq<SigEntry>, i: int) -> Seq<Seq<char>>
    decreases exp.len() - i,
{
    if i < 0 || i >= exp.len() {
        Seq::<Seq<char>>::empty()
    } else {
        let rest = missing_spec(exp, act, i + 1);
        if sig_find(act, exp[i].path@) < 0 {
            seq![exp[i].path@] + rest
        } else {
            rest
        }
    }
}

/// The actual paths that the expected index lacks, in order.
pub open spec fn extra_spec(exp: Seq<SigEntry>, act: Seq<SigEntry>, i: int) -> Seq<Seq<char>>
    decreases act.len() - i,
{
    if i < 0 || i >= act.len() {
        Seq::<Seq<char>>::empty()
    } else {
        let rest = extra_spec(exp, act, i + 1);
        if sig_find(exp, act[i].path@) < 0 {
            seq![act[i].path@] + rest
        } else {
            rest
        }
    }
}

/// The expected paths present in the actual index whose entry differs, in
/// order.
pub open spec fn corrupted_spec(exp: Seq<SigEntry>, act: Seq<SigEntry>, i: int) -> Seq<Seq<char>>
    decreases exp.len() - i,
{
    if i < 0 || i >= exp.len() {
        Seq::<Seq<char>>::empty()
    } else {
        let rest = corrupted_spec(exp, act, i + 1);
        let k = sig_find(act, exp[i].path@);
        if k >= 0 && sig_abs(act[k]) != sig_abs(exp[i]) {
            seq![exp[i].path@] + rest
        } else {
            rest
        }
    }
}

/// What a corrupted container differs in: paths in the recorded index that
/// are gone, paths not in it, and paths whose entry changed.
pub struct Diff {
    pub missing_paths: Vec<String>,
    pub extra_paths: Vec<String>,
    pub corrupted_paths: Vec<String>,
}

/// Compares one entry to another.
fn sig_entry_eq(a: &SigEntry, b: &SigEntry) -> (r: bool)
    ensures
        r == (sig_abs(*a) == sig_abs(*b)),
{
    if a.exe != b.exe || a.size != b.size {
        return false;
    }
    if !str_eq(a.path.as_str(), b.path.as_str()) {
        return false;
    }
    let n = a.hashes.len();
    if n != b.hashes.len() {
        return false;
    }
    let mut i: usize = 0;
    while i < n
        invariant
            0 <= i <= n == a.hashes@.len(),
            n == b.hashes@.len(),
            forall|j: int| 0 <= j < i ==> a.hashes@[j] == b.hashes@[j],
        decreases n - i,
    {
        if a.hashes[i] != b.hashes[i] {
            return false;
        }
        i += 1;
    }
    proof {
        assert(a.hashes@ =~= b.hashes@);
    }
    true
}

/// Finds the first entry under a path.
fn sig_find_exec<'a>(v: &'a Vec<SigEntry>, p: &str) -> (r: Option<&'a SigEntry>)
    ensures
        match r {
            Some(e) => sig_find(v@, p@) >= 0 && sig_abs(*e) == sig_abs(v@[sig_find(v@, p@)]),
            None => sig_find(v@, p@) == -1,
        },
{
    let n = v.len();
    let mut i: usize = 0;
    proof {
        assert(v@.subrange(0, n as int) =~= v@);
    }
    while i < n
        invariant
            0 <= i <= n == v@.len(),
            sig_find(v@, p@) == lift_sig(sig_find(v@.subrange(i as int, n as int), p@), i as int),
        decreases n - i,
    {
        proof {
            let sub = v@.subrange(i as int, n as int);
            assert(sub[0] == v@[i as int]);
            assert(sub.drop_first() =~= v@.subrange(i + 1, n as int));
        }
        if str_eq(v[i].path.as_str(), p) {
            return Some(&v[i]);
        }
        i += 1;
    }
    None
}

/// Shifts a find result from a suffix back to the whole sequence.
pub open spec fn lift_sig(r: int, base: int) -> int {
    if r < 0 {
        -1
    } else {
        r + base
    }
}

/// Checks a recorded container index against a freshly scanned one: equal
/// indexes yield nothing; differing indexes yield exactly which paths are
/// missing, extra, and corrupted.
pub fn check_signature(expected: &Vec<SigEntry>, actual: &Vec<SigEntry>) -> (r: Option<Diff>)
    ensures
        r is None <==> sigs_abs(expected@) == sigs_abs(actual@),
        r is Some ==> r->0.missing_paths.deep_view() == missing_spec(expected@, actual@, 0),
        r is Some ==> r->0.extra_paths.deep_view() == extra_spec(expected@, actual@, 0),
        r is Some ==> r->0.corrupted_paths.deep_view() == corrupted_spec(expected@, actual@, 0),
{
    let ne = expected.len();
    let na = actual.len();
    let mut same: bool = ne == na;
    if same {
        let mut i: usize = 0;
        while i < ne && same
            invariant
                0 <= i <= ne == expected@.len(),
                ne == na == actual@.len(),
                same ==> forall|j: int| 0 <= j < i ==> sig_abs(expected@[j]) == sig_abs(actual@[j]),
                !same ==> sigs_abs(expected@) != sigs_abs(actual@),
            decreases ne - i, (if same { 1int } else { 0int }),
        {
            if !sig_entry_eq(&expected[i], &actual[i]) {
                proof {
                    assert(sigs_abs(expected@)[i as int] != sigs_abs(actual@)[i as int]);
                }
                same = false;
            }
            i += 1;
        }
        if same {
            proof {
                assert(sigs_abs(expected@) =~= sigs_abs(actual@));
            }
            return None;
        }
    } else {
        proof {
            assert(sigs_abs(expected@).len() != sigs_abs(actual@).len());
        }
    }
    let mut missing: Vec<String> = Vec::new();
    let mut corrupted: Vec<String> = Vec::new();
    let mut i: usize = 0;
    while i < ne
        invariant
            0 <= i <= ne == expected@.len(),
            missing.deep_view() + missing_spec(expected@, actual@, i as int) =~= missing_spec(expected@, actual@, 0),
            corrupted.deep_view() + corrupted_spec(expected@, actual@, i as int) =~= corrupted_spec(expected@, actual@, 0),
        decreases ne - i,
    {
        let hit = sig_find_exec(actual, expected[i].path.as_str());
        match hit {
            None => {
                let p = expected[i].path.clone();
                missing.push(p);
                proof {
                    assert(missing.deep_view() + missing_spec(expected@, actual@, i + 1) =~= missing_spec(expected@, actual@, 0));
                    assert(corrupted.deep_view() + corrupted_spec(expected@, actual@, i + 1) =~= corrupted_spec(expected@, actual@, 0));
                }
            },
            Some(e) => {
                if !sig_entry_eq(e, &expected[i]) {
                    let p = expected[i].path.clone();
                    corrupted.push(p);
                }
                proof {
                    assert(missing.deep_view() + missing_spec(expected@, actual@, i + 1) =~= missing_spec(expected@, actual@, 0));
                    assert(corrupted.deep_view() + corrupted_spec(expected@, actual@, i + 1) =~= corrupted_spec(expected@, actual@, 0));
                }
            },
        }
        i += 1;
    }
    proof {
        assert(missing_spec(expected@, actual@, ne as int) =~= Seq::<Seq<char>>::empty());
        assert(corrupted_spec(expected@, actual@, ne as int) =~= Seq::<Seq<char>>::empty());
        assert(missing.deep_view() =~= missing_spec(expected@, actual@, 0));
        assert(corrupted.deep_view() =~= corrupted_spec(expected@, actual@, 0));
    }
    let mut extra: Vec<String> = Vec::new();
    let mut k: usize = 0;
    while k < na
        invariant
            0 <= k <= na == actual@.len(),
            extra.deep_view() + extra_spec(expected@, actual@, k as int) =~= extra_spec(expected@, actual@, 0),
        decreases na - k,
    {
        let hit = sig_find_exec(expected, actual[k].path.as_str());
        match hit {
            None => {
                let p = actual[k].path.clone();
                extra.push(p);
                proof {
                    assert(extra.deep_view() + extra_spec(expected@, actual@, k + 1) =~= extra_spec(expected@, actual@, 0));
                }
            },
            Some(_) => {
                proof {
                    assert(extra.deep_view() + extra_spec(expected@, actual@, k + 1) =~= extra_spec(expected@, actual@, 0));
                }
            },
        }
        k += 1;
    }
    proof {
        assert(extra_spec(expected@, actual@, na as int) =~= Seq::<Seq<char>>::empty());
        assert(extra.deep_view() =~= extra_spec(expected@, actual@, 0));
    }
    Some(Diff { missing_paths: missing, extra_paths: extra, corrupted_paths: corrupted })
}

} // verus!
