//! The dependency graph walker. For a starting binary it resolves the real
//! path, reads the NEEDED/RPATH/RUNPATH entries of the dynamic section,
//! augments a local copy of the search path with the binary's own
//! directives ($ORIGIN substituted and normalized), probes the finalized
//! search order for every needed soname, and recurses into each newly found
//! dependency. The accumulated dependency set is kept sorted, so the final
//! enumeration order is lexical whatever the traversal order was.

use vstd::prelude::*;
use vstd::string::StrSliceExecFns;
use vstd::string::StringExecFns;
use crate::conf::parse_conf_abs;
use crate::conf::parse_conf_inner;
use crate::elfread::DynKind;
use crate::elfread::elf_dyn_entries_of;
use crate::elfread::read_dynamic_entries;
use crate::errors::ErrAbs;
use crate::errors::LddError;
use crate::fstree::FsNode;
use crate::fstree::FsNodeAbs;
use crate::fstree::FsTree;
use crate::fstree::fs_keys;
use crate::fstree::fs_lookup;
use crate::fstree::lemma_distinct_members_bound;
use crate::fstree::lemma_lookup_found_key;
use crate::lpaths::LPaths;
use crate::lpaths::LPathsAbs;
use crate::lpaths::LPathSource;
use crate::lpaths::lp_add_spec;
use crate::lpaths::lp_sorted_paths;
use crate::paths::normalize_path;
use crate::paths::normalize_spec;
use crate::paths::parent_dir;
use crate::paths::parent_dir_spec;
use crate::paths::path_join;
use crate::paths::path_join_spec;
use crate::paths::strip_slashes;
use crate::paths::subst_origin;
use crate::paths::subst_origin_spec;
use crate::paths::with_sysroot;
use crate::paths::with_sysroot_spec;
use crate::resolve::err_under_sysroot;
use crate::resolve::resolve_abs;
use crate::resolve::resolve_rel;
use crate::strutil::split_char;
use crate::strutil::split_spec;
use crate::strutil::str_insert;
use crate::strutil::vec_contains_str;

verus! {

/// The three default system library directories, consulted last.
pub open spec fn default_library_paths() -> Seq<Seq<char>> {
    seq!["/usr/local/lib"@, "/usr/lib"@, "/lib"@]
}

/// The mathematical value of an `Ldd` instance: the sysroot path, the
/// snapshot it resolves against, and the base search path.
pub ghost struct LddAbs {
    pub sysroot: Seq<char>,
    pub fs: Seq<(Seq<char>, FsNodeAbs)>,
    pub lpaths: LPathsAbs,
}

/// The `$ORIGIN` directory of a binary whose resolved sysroot-relative
/// path is `rel`: the directory holding it, written as an absolute path.
pub open spec fn origin_spec(rel: Seq<char>) -> Seq<char> {
    seq!['/'] + parent_dir_spec(strip_slashes(rel))
}

/// Computes the `$ORIGIN` directory of a resolved binary path.
pub fn origin_of(rel: &str) -> (r: String)
    ensures
        r@ == origin_spec(rel@),
{
    let n = rel.unicode_len();
    let mut k: usize = 0;
    proof {
        assert(rel@.subrange(0, n as int) =~= rel@);
    }
    while k < n && rel.get_char(k) == '/'
        invariant
            0 <= k <= n == rel@.len(),
            strip_slashes(rel@) == strip_slashes(rel@.subrange(k as int, n as int)),
        decreases n - k,
    {
        proof {
            assert(rel@.subrange(k as int, n as int).drop_first() =~= rel@.subrange(k + 1, n as int));
        }
        k += 1;
    }
    let stripped = rel.substring_char(k, n);
    proof {
        if k < n {
            assert(rel@.subrange(k as int, n as int)[0] != '/');
        }
    }
    let p = parent_dir(stripped);
    let mut r = "/".to_owned();
    r.append(p.as_str());
    proof {
        reveal_strlit("/");
        assert("/"@ =~= seq!['/']);
    }
    r
}

/// One search-path directory token folded in: `$ORIGIN` is substituted,
/// the token is normalized, and the result is added under the source.
pub open spec fn add_tokens(lp: LPathsAbs, toks: Seq<Seq<char>>, origin: Seq<char>, source: LPathSource, i: int) -> LPathsAbs
    decreases toks.len() - i,
{
    if i < 0 || i >= toks.len() {
        lp
    } else {
        add_tokens(
            lp_add_spec(lp, normalize_spec(subst_origin_spec(toks[i], origin)), source),
            toks,
            origin,
            source,
            i + 1,
        )
    }
}

/// The dynamic entries folded into a local search path, in entry order:
/// each RPATH or RUNPATH value is split on `:` and its tokens added under
/// the matching source; NEEDED entries leave the search path alone.
pub open spec fn add_entries_lp(lp: LPathsAbs, entries: Seq<(DynKind, Seq<char>)>, origin: Seq<char>, i: int) -> LPathsAbs
    decreases entries.len() - i,
{
    if i < 0 || i >= entries.len() {
        lp
    } else {
        let lp2 = match entries[i].0 {
            DynKind::Needed => lp,
            DynKind::RPath => add_tokens(lp, split_spec(entries[i].1, ':'), origin, LPathSource::RPath, 0),
            DynKind::RunPath => add_tokens(lp, split_spec(entries[i].1, ':'), origin, LPathSource::RunPath, 0),
        };
        add_entries_lp(lp2, entries, origin, i + 1)
    }
}

/// The sonames of the NEEDED entries, in entry order.
pub open spec fn neededs_of(entries: Seq<(DynKind, Seq<char>)>, i: int) -> Seq<Seq<char>>
    decreases entries.len() - i,
{
    if i < 0 || i >= entries.len() {
        Seq::<Seq<char>>::empty()
    } else {
        let rest = neededs_of(entries, i + 1);
        if entries[i].0 is Needed {
            seq![entries[i].1] + rest
        } else {
            rest
        }
    }
}

/// The first search directory, from `k` on, in which the soname resolves;
/// the hit is the joined, still unnormalized candidate path.
pub open spec fn probe_spec(fs: Seq<(Seq<char>, FsNodeAbs)>, order: Seq<Seq<char>>, needed: Seq<char>, k: int) -> Option<Seq<char>>
    decreases order.len() - k,
{
    if k < 0 || k >= order.len() {
        None
    } else {
        let rel_dep = path_join_spec(order[k], needed);
        if resolve_abs(fs, rel_dep) is Ok {
            Some(rel_dep)
        } else {
            probe_spec(fs, order, needed, k + 1)
        }
    }
}

/// Resolving one binary: its real path is found, its dynamic entries are
/// read (a missing or unreadable entry is an I/O failure, an unparseable
/// one a binary-format failure, both named by the host path), the local
/// search path is augmented with its directives, and every NEEDED soname
/// is walked. The fuel only bounds the recursion depth; with fuel of at
/// least one more than the snapshot size it is never exhausted, because
/// every recursion step records a distinct new key of the snapshot.
#[verifier::opaque]
pub open spec fn find_deps_rec(
    fs: Seq<(Seq<char>, FsNodeAbs)>,
    sysroot: Seq<char>,
    rel: Seq<char>,
    lp: LPathsAbs,
    deps: Seq<Seq<char>>,
    fuel: nat,
) -> Result<Seq<Seq<char>>, ErrAbs>
    decreases fuel, 1int, 0int,
{
    match resolve_abs(fs, rel) {
        Err(e) => Err(err_under_sysroot(sysroot, e)),
        Ok(p) => {
            let rel_real = p.0;
            match fs_lookup(fs, normalize_spec(rel_real)) {
                Some(FsNodeAbs::File(bytes)) => {
                    match elf_dyn_entries_of(bytes) {
                        None => Err(ErrAbs::Elf(with_sysroot_spec(sysroot, rel_real))),
                        Some(entries) => {
                            let origin = origin_spec(rel_real);
                            let lp2 = add_entries_lp(lp, entries, origin, 0);
                            let order = lp_sorted_paths(lp2.entries);
                            walk_needed(fs, sysroot, neededs_of(entries, 0), 0, order, lp2, deps, fuel)
                        },
                    }
                },
                Some(_) => Err(ErrAbs::Elf(with_sysroot_spec(sysroot, rel_real))),
                None => Err(ErrAbs::Io(with_sysroot_spec(sysroot, rel_real))),
            }
        },
    }
}

/// Walking the NEEDED list from `i` on: each soname is probed along the
/// finalized search order; the first directory in which it resolves is the
/// hit, a soname with no hit fails the whole walk, and a hit not yet
/// recorded is inserted (normalized, in sorted position) and recursed
/// into, reusing the same local search-path snapshot.
#[verifier::opaque]
pub open spec fn walk_needed(
    fs: Seq<(Seq<char>, FsNodeAbs)>,
    sysroot: Seq<char>,
    neededs: Seq<Seq<char>>,
    i: int,
    order: Seq<Seq<char>>,
    lp: LPathsAbs,
    deps: Seq<Seq<char>>,
    fuel: nat,
) -> Result<Seq<Seq<char>>, ErrAbs>
    decreases fuel, 0int, neededs.len() - i,
{
    if i < 0 || i >= neededs.len() {
        Ok(deps)
    } else {
        match probe_spec(fs, order, neededs[i], 0) {
            None => Err(ErrAbs::NotFound(neededs[i])),
            Some(rel_dep) => {
                let key = normalize_spec(rel_dep);
                if deps.contains(key) {
                    walk_needed(fs, sysroot, neededs, i + 1, order, lp, deps, fuel)
                } else if fuel == 0 {
                    Err(ErrAbs::RecursiveLink(rel_dep))
                } else {
                    match find_deps_rec(fs, sysroot, rel_dep, lp, str_insert(deps, key), (fuel - 1) as nat) {
                        Err(e) => Err(e),
                        Ok(deps2) => walk_needed(fs, sysroot, neededs, i + 1, order, lp, deps2, fuel),
                    }
                }
            },
        }
    }
}

/// The base search path an `Ldd` instance is constructed with: the three
/// default directories at the lowest precedence, and, when
/// `/etc/ld.so.conf` resolves, every directory it yields at `ld.so.conf`
/// precedence; a configuration file that resolves but cannot be parsed
/// fails construction.
pub open spec fn new_lpaths_spec(fs: Seq<(Seq<char>, FsNodeAbs)>) -> Result<LPathsAbs, ErrAbs> {
    let lp0 = add_dirs(LPaths::init_abs(), default_library_paths(), LPathSource::DefaultPath, 0);
    if resolve_abs(fs, "/etc/ld.so.conf"@) is Err {
        Ok(lp0)
    } else {
        match parse_conf_abs(fs, "/etc/ld.so.conf"@) {
            Err(e) => Err(e),
            Ok(dirs) => Ok(add_dirs(lp0, dirs, LPathSource::LdSoConf, 0)),
        }
    }
}

/// Directories folded into the search path verbatim, in order.
pub open spec fn add_dirs(lp: LPathsAbs, dirs: Seq<Seq<char>>, source: LPathSource, i: int) -> LPathsAbs
    decreases dirs.len() - i,
{
    if i < 0 || i >= dirs.len() {
        lp
    } else {
        add_dirs(lp_add_spec(lp, dirs[i], source), dirs, source, i + 1)
    }
}

/// The full dependency set of a binary: the sorted, duplicate-free list of
/// normalized sysroot-relative paths of everything it loads, transitively,
/// or the first failure.
pub open spec fn deps_spec(l: LddAbs, rel: Seq<char>) -> Result<Seq<Seq<char>>, ErrAbs> {
    find_deps_rec(l.fs, l.sysroot, rel, l.lpaths, Seq::<Seq<char>>::empty(), (l.fs.len() + 1) as nat)
}

/// The dynamic library dependency resolver: a sysroot snapshot together
/// with the base search path computed from the defaults and `ld.so.conf`.
pub struct Ldd {
    sysroot: String,
    fs: FsTree,
    lpaths: LPaths,
}

impl Ldd {
    /// The mathematical value of this resolver.
    pub closed spec fn abs(&self) -> LddAbs {
        LddAbs { sysroot: self.sysroot@, fs: self.fs.abs(), lpaths: self.lpaths.abs() }
    }

    /// Builds a resolver over a sysroot snapshot: the default library
    /// directories are seeded at the lowest precedence and
    /// `/etc/ld.so.conf` is parsed when it resolves; when it does not, the
    /// defaults alone remain.
    pub fn new(sysroot: String, fs: FsTree) -> (r: Result<Ldd, LddError>)
        ensures
            match new_lpaths_spec(fs.abs()) {
                Ok(lp) => r is Ok && r->Ok_0.abs() == (LddAbs { sysroot: sysroot@, fs: fs.abs(), lpaths: lp }),
                Err(e) => r is Err && r->Err_0.abs() == err_under_sysroot(sysroot@, e),
            },
    {
        let ghost fsv = fs.abs();
        let mut lpaths = LPaths::new();
        lpaths.add("/usr/local/lib".to_owned(), LPathSource::DefaultPath);
        lpaths.add("/usr/lib".to_owned(), LPathSource::DefaultPath);
        lpaths.add("/lib".to_owned(), LPathSource::DefaultPath);
        proof {
            let d = default_library_paths();
            let l0 = LPaths::init_abs();
            let l1 = lp_add_spec(l0, d[0], LPathSource::DefaultPath);
            let l2 = lp_add_spec(l1, d[1], LPathSource::DefaultPath);
            let l3 = lp_add_spec(l2, d[2], LPathSource::DefaultPath);
            assert(add_dirs(l3, d, LPathSource::DefaultPath, 3) == l3);
            assert(add_dirs(l2, d, LPathSource::DefaultPath, 2) == l3);
            assert(add_dirs(l1, d, LPathSource::DefaultPath, 1) == l3);
            assert(add_dirs(l0, d, LPathSource::DefaultPath, 0) == l3);
            assert(lpaths.abs() == l3);
        }
        let conf_path = "/etc/ld.so.conf";
        let probe = resolve_rel(&fs, conf_path);
        match probe {
            Err(_) => {},
            Ok(_) => {
                let mut visited: Vec<String> = Vec::new();
                proof {
                    assert(visited.deep_view() =~= Seq::<Seq<char>>::empty());
                }
                let parsed = parse_conf_inner(&fs, conf_path, &mut visited, Ghost((fsv.len() + 1) as nat));
                match parsed {
                    Err(e) => {
                        match e {
                            LddError::Io(p) => {
                                return Err(LddError::Io(with_sysroot(sysroot.as_str(), p.as_str())));
                            },
                            other => {
                                return Err(other);
                            },
                        }
                    },
                    Ok(dirs) => {
                        let ghost dirsv = dirs.deep_view();
                        let nd = dirs.len();
                        let mut i: usize = 0;
                        while i < nd
                            invariant
                                0 <= i <= nd == dirs@.len(),
                                nd == dirsv.len(),
                                dirs.deep_view() == dirsv,
                                add_dirs(lpaths.abs(), dirsv, LPathSource::LdSoConf, i as int) == add_dirs(
                                    add_dirs(LPaths::init_abs(), default_library_paths(), LPathSource::DefaultPath, 0),
                                    dirsv,
                                    LPathSource::LdSoConf,
                                    0,
                                ),
                            decreases nd - i,
                        {
                            let d = dirs[i].clone();
                            proof {
                                assert(d@ == dirsv[i as int]);
                            }
                            lpaths.add(d, LPathSource::LdSoConf);
                            i += 1;
                        }
                    },
                }
            },
        }
        Ok(Ldd { sysroot, fs, lpaths })
    }

    /// Computes the complete, lexically ordered set of shared libraries
    /// the binary at `rel_path` would load, as sysroot-relative paths; an
    /// unresolvable needed soname, an unreadable file or a symlink cycle
    /// fails the whole call.
    pub fn deps(&self, rel_path: &str) -> (r: Result<Vec<String>, LddError>)
        ensures
            match deps_spec(self.abs(), rel_path@) {
                Ok(d) => r is Ok && r->Ok_0.deep_view() == d,
                Err(e) => r is Err && r->Err_0.abs() == e,
            },
    {
        let mut deps: Vec<String> = Vec::new();
        proof {
            assert(deps.deep_view() =~= Seq::<Seq<char>>::empty());
        }
        let walk = self.find_deps(rel_path, &self.lpaths, &mut deps, Ghost((self.abs().fs.len() + 1) as nat));
        match walk {
            Err(e) => Err(e),
            Ok(()) => Ok(deps),
        }
    }

    /// Resolves one binary and recurses into its dependencies, as
    /// `find_deps_rec` describes, growing the accumulated sorted set.
    fn find_deps(&self, rel_path: &str, lpaths: &LPaths, deps: &mut Vec<String>, Ghost(fuel): Ghost<nat>) -> (r: Result<(), LddError>)
        requires
            old(deps).deep_view().no_duplicates(),
            forall|j: int| 0 <= j < old(deps).deep_view().len() ==> fs_keys(self.abs().fs).contains(#[trigger] old(deps).deep_view()[j]),
            fuel + old(deps).deep_view().len() >= self.abs().fs.len() + 1,
        ensures
            final(deps).deep_view().no_duplicates(),
            forall|j: int| 0 <= j < final(deps).deep_view().len() ==> fs_keys(self.abs().fs).contains(#[trigger] final(deps).deep_view()[j]),
            final(deps).deep_view().len() >= old(deps).deep_view().len(),
            forall|y: Seq<char>| old(deps).deep_view().contains(y) ==> #[trigger] final(deps).deep_view().contains(y),
            match find_deps_rec(self.abs().fs, self.abs().sysroot, rel_path@, lpaths.abs(), old(deps).deep_view(), fuel) {
                Ok(d2) => r is Ok && final(deps).deep_view() == d2,
                Err(e) => r is Err && r->Err_0.abs() == e,
            },
        decreases fuel, 1int, 0int,
    {
        let ghost fsv = self.abs().fs;
        proof {
            reveal_with_fuel(find_deps_rec, 2);
            reveal_with_fuel(walk_needed, 2);
        }
        let rr = resolve_rel(&self.fs, rel_path);
        let rel_real: String;
        match rr {
            Err(e) => {
                match e {
                    LddError::Io(p) => {
                        return Err(LddError::Io(with_sysroot(self.sysroot.as_str(), p.as_str())));
                    },
                    other => {
                        return Err(other);
                    },
                }
            },
            Ok(p) => {
                rel_real = p.0;
            },
        }
        let key = normalize_path(rel_real.as_str());
        let node = self.fs.lookup(key.as_str());
        let bytes: &Vec<u8>;
        match node {
            Some(n) => {
                match n {
                    FsNode::File(b) => {
                        bytes = b;
                    },
                    _ => {
                        return Err(LddError::Elf(with_sysroot(self.sysroot.as_str(), rel_real.as_str())));
                    },
                }
            },
            None => {
                return Err(LddError::Io(with_sysroot(self.sysroot.as_str(), rel_real.as_str())));
            },
        }
        let parsed = read_dynamic_entries(bytes);
        let entries: Vec<(DynKind, String)>;
        match parsed {
            None => {
                return Err(LddError::Elf(with_sysroot(self.sysroot.as_str(), rel_real.as_str())));
            },
            Some(es) => {
                entries = es;
            },
        }
        let ghost entriesv = entries.deep_view();
        let origin = origin_of(rel_real.as_str());
        let mut local = lpaths.duplicate();
        let ne = entries.len();
        let mut i: usize = 0;
        while i < ne
            invariant
                0 <= i <= ne == entries@.len(),
                ne == entriesv.len(),
                entries.deep_view() == entriesv,
                origin@ == origin_spec(rel_real@),
                add_entries_lp(local.abs(), entriesv, origin@, i as int) == add_entries_lp(lpaths.abs(), entriesv, origin@, 0),
            decreases ne - i,
        {
            proof {
                assert(entriesv[i as int] == (entries@[i as int].0, entries@[i as int].1@));
            }
            let kind = entries[i].0;
            match kind {
                DynKind::Needed => {},
                _ => {
                    let source = if matches!(kind, DynKind::RPath) {
                        LPathSource::RPath
                    } else {
                        LPathSource::RunPath
                    };
                    let toks = split_char(entries[i].1.as_str(), ':');
                    let ghost toksv = split_spec(entriesv[i as int].1, ':');
                    proof {
                        assert(toks.deep_view() == toksv);
                    }
                    let ghost loc0 = local.abs();
                    let nt = toks.len();
                    let mut ti: usize = 0;
                    while ti < nt
                        invariant
                            0 <= ti <= nt == toks@.len(),
                            nt == toksv.len(),
                            toks.deep_view() == toksv,
                            origin@ == origin_spec(rel_real@),
                            add_tokens(local.abs(), toksv, origin@, source, ti as int) == add_tokens(loc0, toksv, origin@, source, 0),
                        decreases nt - ti,
                    {
                        proof {
                            assert(toksv[ti as int] == toks@[ti as int]@);
                        }
                        let sub = subst_origin(toks[ti].as_str(), origin.as_str());
                        let normed = normalize_path(sub.as_str());
                        local.add(normed, source);
                        ti += 1;
                    }
                },
            }
            i += 1;
        }
        let order = local.duplicate().into_vec();
        let ghost lp2 = add_entries_lp(lpaths.abs(), entriesv, origin@, 0);
        proof {
            assert(local.abs() == lp2);
            assert(order.deep_view() == lp_sorted_paths(lp2.entries));
        }
        let mut neededs: Vec<String> = Vec::new();
        let mut i2: usize = 0;
        while i2 < ne
            invariant
                0 <= i2 <= ne == entries@.len(),
                ne == entriesv.len(),
                entries.deep_view() == entriesv,
                neededs.deep_view() + neededs_of(entriesv, i2 as int) == neededs_of(entriesv, 0),
            decreases ne - i2,
        {
            proof {
                assert(entriesv[i2 as int] == (entries@[i2 as int].0, entries@[i2 as int].1@));
            }
            let kind = entries[i2].0;
            if matches!(kind, DynKind::Needed) {
                let ghost pre = neededs.deep_view();
                let name = entries[i2].1.clone();
                neededs.push(name);
                proof {
                    assert(neededs.deep_view() =~= pre.push(entriesv[i2 as int].1));
                    assert(neededs.deep_view() + neededs_of(entriesv, i2 + 1) =~= pre + neededs_of(entriesv, i2 as int));
                }
            }
            i2 += 1;
        }
        proof {
            assert(neededs_of(entriesv, ne as int) =~= Seq::<Seq<char>>::empty());
            assert(neededs.deep_view() =~= neededs_of(entriesv, 0));
        }
        self.walk_needed_exec(&neededs, 0, &order, &local, deps, Ghost(fuel))
    }

    /// Probes and recurses for each needed soname, as `walk_needed`
    /// describes.
    fn walk_needed_exec(
        &self,
        neededs: &Vec<String>,
        i: usize,
        order: &Vec<String>,
        lpaths: &LPaths,
        deps: &mut Vec<String>,
        Ghost(fuel): Ghost<nat>,
    ) -> (r: Result<(), LddError>)
        requires
            i <= neededs@.len(),
            old(deps).deep_view().no_duplicates(),
            forall|j: int| 0 <= j < old(deps).deep_view().len() ==> fs_keys(self.abs().fs).contains(#[trigger] old(deps).deep_view()[j]),
            fuel + old(deps).deep_view().len() >= self.abs().fs.len() + 1,
        ensures
            final(deps).deep_view().no_duplicates(),
            forall|j: int| 0 <= j < final(deps).deep_view().len() ==> fs_keys(self.abs().fs).contains(#[trigger] final(deps).deep_view()[j]),
            final(deps).deep_view().len() >= old(deps).deep_view().len(),
            forall|y: Seq<char>| old(deps).deep_view().contains(y) ==> #[trigger] final(deps).deep_view().contains(y),
            match walk_needed(self.abs().fs, self.abs().sysroot, neededs.deep_view(), i as int, order.deep_view(), lpaths.abs(), old(deps).deep_view(), fuel) {
                Ok(d2) => r is Ok && final(deps).deep_view() == d2,
                Err(e) => r is Err && r->Err_0.abs() == e,
            },
        decreases fuel, 0int, neededs@.len() - i,
    {
        let ghost fsv = self.abs().fs;
        proof {
            reveal_with_fuel(find_deps_rec, 2);
            reveal_with_fuel(walk_needed, 2);
        }
        let nn = neededs.len();
        if i >= nn {
            return Ok(());
        }
        proof {
            assert(neededs.deep_view()[i as int] == neededs@[i as int]@);
        }
        let hit = self.probe_exec(order, neededs[i].as_str());
        let rel_dep: String;
        match hit {
            None => {
                let name = neededs[i].clone();
                return Err(LddError::NotFound(name));
            },
            Some(h) => {
                rel_dep = h;
            },
        }
        let dep_key = normalize_path(rel_dep.as_str());
        if vec_contains_str(deps, dep_key.as_str()) {
            return self.walk_needed_exec(neededs, i + 1, order, lpaths, deps, Ghost(fuel));
        }
        proof {
            lemma_distinct_members_bound(deps.deep_view(), fs_keys(fsv));
            assert(fs_keys(fsv).len() == fsv.len());
            lemma_probe_hit_resolves(fsv, order.deep_view(), neededs.deep_view()[i as int], 0);
            lemma_resolve_ok_key(fsv, rel_dep@);
        }
        let ghost pre_deps = deps.deep_view();
        insert_dep_sorted(deps, dep_key);
        proof {
            assert(deps.deep_view() == str_insert(pre_deps, normalize_spec(rel_dep@)));
            lemma_str_insert_keys(pre_deps, normalize_spec(rel_dep@), fsv);
            crate::strutil::lemma_str_insert_preserves(pre_deps, normalize_spec(rel_dep@));
        }
        let first = self.find_deps(rel_dep.as_str(), lpaths, deps, Ghost((fuel - 1) as nat));
        match first {
            Err(e) => {
                return Err(e);
            },
            Ok(()) => {},
        }
        self.walk_needed_exec(neededs, i + 1, order, lpaths, deps, Ghost(fuel))
    }

    /// Probes the finalized search order for a soname: the first directory
    /// in which the joined candidate resolves is the hit.
    fn probe_exec(&self, order: &Vec<String>, needed: &str) -> (r: Option<String>)
        ensures
            match probe_spec(self.abs().fs, order.deep_view(), needed@, 0) {
                Some(p) => r is Some && r->0@ == p,
                None => r is None,
            },
    {
        let no = order.len();
        let mut k: usize = 0;
        while k < no
            invariant
                0 <= k <= no == order@.len(),
                no == order.deep_view().len(),
                probe_spec(self.abs().fs, order.deep_view(), needed@, 0) == probe_spec(self.abs().fs, order.deep_view(), needed@, k as int),
            decreases no - k,
        {
            proof {
                assert(order.deep_view()[k as int] == order@[k as int]@);
            }
            let rel_dep = path_join(order[k].as_str(), needed);
            let probe = resolve_rel(&self.fs, rel_dep.as_str());
            match probe {
                Ok(_) => {
                    return Some(rel_dep);
                },
                Err(_) => {},
            }
            k += 1;
        }
        None
    }
}

/// A path that resolves has its normalized form among the snapshot's keys:
/// resolution starts by looking that key up.
proof fn lemma_resolve_ok_key(fs: Seq<(Seq<char>, FsNodeAbs)>, p: Seq<char>)
    requires
        resolve_abs(fs, p) is Ok,
    ensures
        fs_keys(fs).contains(normalize_spec(p)),
{
    reveal(crate::resolve::resolve_rec);
    lemma_lookup_found_key(fs, normalize_spec(p));
}

/// A probe hit resolves: `probe_spec` only returns candidates whose
/// resolution succeeded.
proof fn lemma_probe_hit_resolves(fs: Seq<(Seq<char>, FsNodeAbs)>, order: Seq<Seq<char>>, needed: Seq<char>, k: int)
    requires
        probe_spec(fs, order, needed, k) is Some,
    ensures
        resolve_abs(fs, probe_spec(fs, order, needed, k)->Some_0) is Ok,
    decreases order.len() - k,
{
    if k < 0 || k >= order.len() {
    } else {
        let rel_dep = path_join_spec(order[k], needed);
        if resolve_abs(fs, rel_dep) is Ok {
        } else {
            lemma_probe_hit_resolves(fs, order, needed, k + 1);
        }
    }
}

/// Inserting a member of the snapshot's keys into a sequence of such
/// members keeps every member among the keys.
proof fn lemma_str_insert_keys(deps: Seq<Seq<char>>, x: Seq<char>, fs: Seq<(Seq<char>, FsNodeAbs)>)
    requires
        forall|j: int| 0 <= j < deps.len() ==> fs_keys(fs).contains(#[trigger] deps[j]),
        fs_keys(fs).contains(x),
        deps.no_duplicates(),
        !deps.contains(x),
    ensures
        forall|j: int| 0 <= j < str_insert(deps, x).len() ==> fs_keys(fs).contains(#[trigger] str_insert(deps, x)[j]),
        str_insert(deps, x).no_duplicates(),
        str_insert(deps, x).len() == deps.len() + 1,
    decreases deps.len(),
{
    if deps.len() == 0 || crate::strutil::lex_lt(x, deps[0]) {
    } else {
        assert(deps.drop_first().no_duplicates());
        assert(!deps.drop_first().contains(x)) by {
            if deps.drop_first().contains(x) {
                let j = choose|j: int| 0 <= j < deps.drop_first().len() && deps.drop_first()[j] == x;
                assert(deps[j + 1] == x);
            }
        }
        lemma_str_insert_keys(deps.drop_first(), x, fs);
        let r = str_insert(deps, x);
        let rr = str_insert(deps.drop_first(), x);
        assert(r =~= seq![deps[0]] + rr);
        assert forall|j: int| 0 <= j < r.len() implies fs_keys(fs).contains(#[trigger] r[j]) by {
            if j == 0 {
                assert(r[0] == deps[0]);
            } else {
                assert(r[j] == rr[j - 1]);
            }
        }
        assert forall|a: int, b: int| 0 <= a < b < r.len() implies r[a] != r[b] by {
            if a == 0 {
                assert(r[b] == rr[b - 1]);
                if rr[b - 1] == x {
                    assert(r[a] != r[b]);
                } else {
                    lemma_str_insert_member(deps.drop_first(), x, b - 1);
                }
            } else {
                assert(r[a] == rr[a - 1]);
                assert(r[b] == rr[b - 1]);
                assert(rr.no_duplicates());
            }
        }
    }
}

/// Every element of an insertion result is the inserted element or one of
/// the original members.
proof fn lemma_str_insert_member(s: Seq<Seq<char>>, x: Seq<char>, j: int)
    requires
        0 <= j < str_insert(s, x).len(),
    ensures
        str_insert(s, x)[j] == x || s.contains(str_insert(s, x)[j]),
    decreases s.len(),
{
    if s.len() == 0 || crate::strutil::lex_lt(x, s[0]) {
    } else {
        let r = str_insert(s, x);
        assert(r =~= seq![s[0]] + str_insert(s.drop_first(), x));
        if j > 0 {
            lemma_str_insert_member(s.drop_first(), x, j - 1);
            if str_insert(s.drop_first(), x)[j - 1] != x {
                let k = choose|k: int| 0 <= k < s.drop_first().len() && s.drop_first()[k] == str_insert(s.drop_first(), x)[j - 1];
                assert(s[k + 1] == r[j]);
            }
        }
    }
}

/// Resolving the same binary twice against an unchanged resolver returns
/// identical, identically ordered results: the dependency set is a function
/// of the snapshot, the base search path and the path alone.
pub proof fn lemma_deps_idempotent(
    l: LddAbs,
    rel: Seq<char>,
    r1: Result<Seq<Seq<char>>, ErrAbs>,
    r2: Result<Seq<Seq<char>>, ErrAbs>,
)
    requires
        r1 == deps_spec(l, rel),
        r2 == deps_spec(l, rel),
    ensures
        r1 == r2,
{
}

/// A successful dependency walk keeps the accumulated set sorted and free
/// of duplicates.
proof fn lemma_find_deps_sorted(
    fs: Seq<(Seq<char>, FsNodeAbs)>,
    sysroot: Seq<char>,
    rel: Seq<char>,
    lp: LPathsAbs,
    deps: Seq<Seq<char>>,
    fuel: nat,
)
    requires
        crate::strutil::lex_sorted(deps),
        deps.no_duplicates(),
    ensures
        find_deps_rec(fs, sysroot, rel, lp, deps, fuel) is Ok ==> crate::strutil::lex_sorted(find_deps_rec(fs, sysroot, rel, lp, deps, fuel)->Ok_0) && find_deps_rec(fs, sysroot, rel, lp, deps, fuel)->Ok_0.no_duplicates(),
    decreases fuel, 1int, 0int,
{
    reveal_with_fuel(find_deps_rec, 2);
    reveal_with_fuel(walk_needed, 2);
    match resolve_abs(fs, rel) {
        Err(_) => {},
        Ok(p) => {
            match fs_lookup(fs, normalize_spec(p.0)) {
                Some(FsNodeAbs::File(bytes)) => {
                    match elf_dyn_entries_of(bytes) {
                        None => {},
                        Some(entries) => {
                            let lp2 = add_entries_lp(lp, entries, origin_spec(p.0), 0);
                            lemma_walk_sorted(fs, sysroot, neededs_of(entries, 0), 0, lp_sorted_paths(lp2.entries), lp2, deps, fuel);
                        },
                    }
                },
                _ => {},
            }
        },
    }
}

/// Walking the NEEDED list keeps the accumulated set sorted and free of
/// duplicates: every recorded dependency is inserted at its sorted place.
proof fn lemma_walk_sorted(
    fs: Seq<(Seq<char>, FsNodeAbs)>,
    sysroot: Seq<char>,
    neededs: Seq<Seq<char>>,
    i: int,
    order: Seq<Seq<char>>,
    lp: LPathsAbs,
    deps: Seq<Seq<char>>,
    fuel: nat,
)
    requires
        crate::strutil::lex_sorted(deps),
        deps.no_duplicates(),
    ensures
        walk_needed(fs, sysroot, neededs, i, order, lp, deps, fuel) is Ok ==> crate::strutil::lex_sorted(walk_needed(fs, sysroot, neededs, i, order, lp, deps, fuel)->Ok_0) && walk_needed(fs, sysroot, neededs, i, order, lp, deps, fuel)->Ok_0.no_duplicates(),
    decreases fuel, 0int, neededs.len() - i,
{
    reveal_with_fuel(find_deps_rec, 2);
    reveal_with_fuel(walk_needed, 2);
    if i < 0 || i >= neededs.len() {
    } else {
        match probe_spec(fs, order, neededs[i], 0) {
            None => {},
            Some(rel_dep) => {
                let key = normalize_spec(rel_dep);
                if deps.contains(key) {
                    lemma_walk_sorted(fs, sysroot, neededs, i + 1, order, lp, deps, fuel);
                } else if fuel == 0 {
                } else {
                    crate::strutil::lemma_str_insert_sorted(deps, key);
                    let deps2 = str_insert(deps, key);
                    lemma_find_deps_sorted(fs, sysroot, rel_dep, lp, deps2, (fuel - 1) as nat);
                    match find_deps_rec(fs, sysroot, rel_dep, lp, deps2, (fuel - 1) as nat) {
                        Err(_) => {},
                        Ok(deps3) => {
                            lemma_walk_sorted(fs, sysroot, neededs, i + 1, order, lp, deps3, fuel);
                        },
                    }
                }
            },
        }
    }
}

/// The dependency set a successful resolution returns is in strictly
/// ascending lexicographic order and free of duplicates: its enumeration
/// order is lexical, independent of the traversal order.
pub proof fn lemma_deps_lexical_order(l: LddAbs, rel: Seq<char>)
    ensures
        deps_spec(l, rel) is Ok ==> crate::strutil::lex_sorted(deps_spec(l, rel)->Ok_0) && deps_spec(l, rel)->Ok_0.no_duplicates(),
{
    let empty = Seq::<Seq<char>>::empty();
    assert(crate::strutil::lex_sorted(empty));
    assert(empty.no_duplicates());
    lemma_find_deps_sorted(l.fs, l.sysroot, rel, l.lpaths, empty, (l.fs.len() + 1) as nat);
}

/// The end-to-end single-dependency walk: when the starting binary decodes
/// to exactly one needed soname, the probe along the finalized local search
/// order hits `rel_dep`, and the hit's own dynamic section decodes empty,
/// then resolution returns exactly that hit, normalized. With an
/// origin-relative RPATH, the probed order is the one `add_entries_lp`
/// builds after `$ORIGIN` substitution and normalization.
pub proof fn lemma_single_dependency(
    fs: Seq<(Seq<char>, FsNodeAbs)>,
    sysroot: Seq<char>,
    rel: Seq<char>,
    lp: LPathsAbs,
    fuel: nat,
    rel_real: Seq<char>,
    bytes: Seq<u8>,
    entries: Seq<(DynKind, Seq<char>)>,
    rel_dep: Seq<char>,
    dep_real: Seq<char>,
    dep_bytes: Seq<u8>,
)
    requires
        fuel >= 1,
        resolve_abs(fs, rel) is Ok,
        resolve_abs(fs, rel)->Ok_0.0 == rel_real,
        fs_lookup(fs, normalize_spec(rel_real)) == Some(FsNodeAbs::File(bytes)),
        elf_dyn_entries_of(bytes) == Some(entries),
        neededs_of(entries, 0).len() == 1,
        probe_spec(fs, lp_sorted_paths(add_entries_lp(lp, entries, origin_spec(rel_real), 0).entries), neededs_of(entries, 0)[0], 0) == Some(rel_dep),
        resolve_abs(fs, rel_dep) is Ok,
        resolve_abs(fs, rel_dep)->Ok_0.0 == dep_real,
        fs_lookup(fs, normalize_spec(dep_real)) == Some(FsNodeAbs::File(dep_bytes)),
        elf_dyn_entries_of(dep_bytes) == Some(Seq::<(DynKind, Seq<char>)>::empty()),
    ensures
        find_deps_rec(fs, sysroot, rel, lp, Seq::<Seq<char>>::empty(), fuel) == Ok::<_, ErrAbs>(seq![normalize_spec(rel_dep)]),
{
    reveal_with_fuel(find_deps_rec, 3);
    reveal_with_fuel(walk_needed, 3);
    let neededs = neededs_of(entries, 0);
    let lp2 = add_entries_lp(lp, entries, origin_spec(rel_real), 0);
    let order = lp_sorted_paths(lp2.entries);
    let key = normalize_spec(rel_dep);
    let empty = Seq::<Seq<char>>::empty();
    assert(!empty.contains(key));
    assert(str_insert(empty, key) =~= seq![key]);
    let deps1 = str_insert(empty, key);
    assert(neededs_of(Seq::<(DynKind, Seq<char>)>::empty(), 0) =~= Seq::<Seq<char>>::empty());
    assert(find_deps_rec(fs, sysroot, rel_dep, lp2, deps1, (fuel - 1) as nat) == Ok::<_, ErrAbs>(deps1));
    assert(walk_needed(fs, sysroot, neededs, 1, order, lp2, deps1, fuel) == Ok::<_, ErrAbs>(deps1));
}

/// A needed soname for which the probe along the finalized search order
/// finds no hit fails the whole walk with an unresolved-dependency error
/// naming that soname: no partial set is returned.
pub proof fn lemma_unresolved_dependency_fails(
    fs: Seq<(Seq<char>, FsNodeAbs)>,
    sysroot: Seq<char>,
    rel: Seq<char>,
    lp: LPathsAbs,
    deps: Seq<Seq<char>>,
    fuel: nat,
    rel_real: Seq<char>,
    bytes: Seq<u8>,
    entries: Seq<(DynKind, Seq<char>)>,
)
    requires
        resolve_abs(fs, rel) is Ok,
        resolve_abs(fs, rel)->Ok_0.0 == rel_real,
        fs_lookup(fs, normalize_spec(rel_real)) == Some(FsNodeAbs::File(bytes)),
        elf_dyn_entries_of(bytes) == Some(entries),
        neededs_of(entries, 0).len() >= 1,
        probe_spec(fs, lp_sorted_paths(add_entries_lp(lp, entries, origin_spec(rel_real), 0).entries), neededs_of(entries, 0)[0], 0) is None,
    ensures
        find_deps_rec(fs, sysroot, rel, lp, deps, fuel) == Err::<Seq<Seq<char>>, ErrAbs>(ErrAbs::NotFound(neededs_of(entries, 0)[0])),
{
    reveal_with_fuel(find_deps_rec, 2);
    reveal_with_fuel(walk_needed, 2);
}

/// Inserts a dependency path at its sorted position.
fn insert_dep_sorted(deps: &mut Vec<String>, s: String)
    ensures
        final(deps).deep_view() == str_insert(old(deps).deep_view(), s@),
{
    let ghost dv0 = deps.deep_view();
    let m = deps.len();
    let mut k: usize = 0;
    while k < m && !crate::strutil::str_lt(s.as_str(), deps[k].as_str())
        invariant
            0 <= k <= m == deps@.len(),
            m == deps.deep_view().len(),
            deps.deep_view() == dv0,
            forall|j: int| 0 <= j < k ==> !crate::strutil::lex_lt(s@, deps.deep_view()[j]),
        decreases m - k,
    {
        proof {
            assert(deps.deep_view()[k as int] == deps@[k as int]@);
        }
        k += 1;
    }
    proof {
        if k < m {
            assert(deps.deep_view()[k as int] == deps@[k as int]@);
        }
        crate::strutil::lemma_str_insert_at(deps.deep_view(), s@, k as int);
    }
    let ghost pre = deps.deep_view();
    deps.insert(k, s);
    proof {
        assert(deps.deep_view() =~= pre.subrange(0, k as int) + seq![s@] + pre.subrange(k as int, pre.len() as int));
    }
}

} // verus!
