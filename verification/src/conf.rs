//! The `ld.so.conf` file format: one directory per line, `#` comments,
//! blank lines, and `include <glob>` directives that pull in every matching
//! file, recursively. The configuration file (and every included file) is
//! resolved through the symlink resolver first; a file that was already
//! parsed in the same run is skipped, so recursive include chains terminate
//! instead of looping.

use vstd::prelude::*;
use vstd::string::StrSliceExecFns;
use crate::errors::ErrAbs;
use crate::errors::LddError;
use crate::fstree::FsNode;
use crate::fstree::FsNodeAbs;
use crate::fstree::FsTree;
use crate::fstree::fs_keys;
use crate::fstree::fs_lookup;
use crate::fstree::lemma_distinct_members_bound;
use crate::fstree::lemma_lookup_found_key;
use crate::paths::normalize_path;
use crate::paths::normalize_spec;
use crate::resolve::resolve_abs;
use crate::resolve::resolve_rel;
use crate::strutil::contains_ws;
use crate::strutil::is_prefix;
use crate::strutil::sort_strings;
use crate::strutil::split_char;
use crate::strutil::split_spec;
use crate::strutil::starts_with;
use crate::strutil::str_sort;
use crate::strutil::trim;
use crate::strutil::trim_spec;
use crate::strutil::vec_contains_str;
use crate::textenc::utf8_lossy;
use crate::textenc::utf8_lossy_of;

verus! {

/// Whether a shell-style glob pattern matches a path, or `None` when the
/// pattern itself is invalid. The result is a function of the arguments
/// alone; `*` and `?` do not cross a `/`, as in component-wise directory
/// globbing.
pub uninterp spec fn glob_match_of(pattern: Seq<char>, s: Seq<char>) -> Option<bool>;

/// Relies on glob's Pattern::new and Pattern::matches_with: compiling a
/// shell-style pattern (failing on an invalid one) and matching it against
/// a path, with a literal separator required so that wildcards match within
/// one component, as the crate's own directory walking matches.
#[verifier::external_body]
fn glob_match(pattern: &str, s: &str) -> (r: Option<bool>)
    ensures
        r == glob_match_of(pattern@, s@),
{
    let opts = glob::MatchOptions {
        case_sensitive: true,
        require_literal_separator: true,
        require_literal_leading_dot: false,
    };
    match glob::Pattern::new(pattern) {
        Ok(p) => Some(p.matches_with(s, opts)),
        Err(_) => None,
    }
}

/// Parsing one configuration file: resolve it, skip it when it was already
/// visited, and read its lines; anything that is not a regular file fails
/// as an I/O error on the resolved path.
#[verifier::opaque]
pub open spec fn parse_conf_rec(
    fs: Seq<(Seq<char>, FsNodeAbs)>,
    rel: Seq<char>,
    visited: Seq<Seq<char>>,
    fuel: nat,
) -> Result<(Seq<Seq<char>>, Seq<Seq<char>>), ErrAbs>
    decreases fuel, 2int, 0int,
{
    match resolve_abs(fs, rel) {
        Err(e) => Err(e),
        Ok(p) => {
            let key = normalize_spec(p.0);
            if visited.contains(key) {
                Ok((Seq::<Seq<char>>::empty(), visited))
            } else {
                match fs_lookup(fs, key) {
                    Some(FsNodeAbs::File(bytes)) => parse_lines_rec(
                        fs,
                        split_spec(utf8_lossy_of(bytes), '\n'),
                        0,
                        visited.push(key),
                        fuel,
                    ),
                    _ => Err(ErrAbs::Io(p.0)),
                }
            }
        },
    }
}

/// Parsing the lines of one file from `idx` on: a blank or `#` line is
/// skipped; a line with whitespace is a directive, honored only when it
/// begins with `include `, whose remainder is a glob pattern expanded
/// against the snapshot's keys in sorted order; any other line is a
/// directory entry, taken verbatim (trimmed).
#[verifier::opaque]
pub open spec fn parse_lines_rec(
    fs: Seq<(Seq<char>, FsNodeAbs)>,
    lines: Seq<Seq<char>>,
    idx: int,
    visited: Seq<Seq<char>>,
    fuel: nat,
) -> Result<(Seq<Seq<char>>, Seq<Seq<char>>), ErrAbs>
    decreases fuel, 1int, lines.len() - idx,
{
    if idx < 0 || idx >= lines.len() {
        Ok((Seq::<Seq<char>>::empty(), visited))
    } else {
        let t = trim_spec(lines[idx]);
        if t.len() == 0 || t[0] == '#' {
            parse_lines_rec(fs, lines, idx + 1, visited, fuel)
        } else if crate::strutil::has_ws(t) {
            if is_prefix("include "@, t) {
                let pattern = t.subrange("include "@.len() as int, t.len() as int);
                match parse_matches_rec(fs, str_sort(fs_keys(fs)), 0, pattern, visited, fuel) {
                    Err(e) => Err(e),
                    Ok(p1) => match parse_lines_rec(fs, lines, idx + 1, p1.1, fuel) {
                        Err(e) => Err(e),
                        Ok(p2) => Ok((p1.0 + p2.0, p2.1)),
                    },
                }
            } else {
                parse_lines_rec(fs, lines, idx + 1, visited, fuel)
            }
        } else {
            match parse_lines_rec(fs, lines, idx + 1, visited, fuel) {
                Err(e) => Err(e),
                Ok(p2) => Ok((seq![t] + p2.0, p2.1)),
            }
        }
    }
}

/// Expanding one include pattern against the sorted keys from `j` on: every
/// key the pattern matches is parsed as a configuration file in turn; an
/// invalid pattern matches nothing.
#[verifier::opaque]
pub open spec fn parse_matches_rec(
    fs: Seq<(Seq<char>, FsNodeAbs)>,
    keys: Seq<Seq<char>>,
    j: int,
    pattern: Seq<char>,
    visited: Seq<Seq<char>>,
    fuel: nat,
) -> Result<(Seq<Seq<char>>, Seq<Seq<char>>), ErrAbs>
    decreases fuel, 0int, keys.len() - j,
{
    if j < 0 || j >= keys.len() {
        Ok((Seq::<Seq<char>>::empty(), visited))
    } else if glob_match_of(pattern, keys[j]) == Some(true) {
        if fuel == 0 {
            Err(ErrAbs::RecursiveLink(keys[j]))
        } else {
            match parse_conf_rec(fs, keys[j], visited, (fuel - 1) as nat) {
                Err(e) => Err(e),
                Ok(p1) => match parse_matches_rec(fs, keys, j + 1, pattern, p1.1, fuel) {
                    Err(e) => Err(e),
                    Ok(p2) => Ok((p1.0 + p2.0, p2.1)),
                },
            }
        }
    } else {
        parse_matches_rec(fs, keys, j + 1, pattern, visited, fuel)
    }
}

/// The ordered directory list that parsing the configuration file at `rel`
/// yields on the snapshot.
pub open spec fn parse_conf_abs(fs: Seq<(Seq<char>, FsNodeAbs)>, rel: Seq<char>) -> Result<Seq<Seq<char>>, ErrAbs> {
    match parse_conf_rec(fs, rel, Seq::<Seq<char>>::empty(), (fs.len() + 1) as nat) {
        Ok(p) => Ok(p.0),
        Err(e) => Err(e),
    }
}

/// Recursively parses one configuration file, threading the set of files
/// already visited (normalized resolved keys) to cut include cycles.
/// An `include` line splices, at the directive's position, the
/// concatenation of recursively parsing every snapshot key the pattern
/// matches, in sorted key order — the order a filesystem glob yields — and
/// the rest of the file continues with the visited set those parses left.
pub proof fn lemma_include_splices(
    fs: Seq<(Seq<char>, FsNodeAbs)>,
    lines: Seq<Seq<char>>,
    idx: int,
    visited: Seq<Seq<char>>,
    fuel: nat,
)
    requires
        0 <= idx < lines.len(),
        is_prefix("include "@, trim_spec(lines[idx])),
    ensures
        parse_lines_rec(fs, lines, idx, visited, fuel) == ({
            let t = trim_spec(lines[idx]);
            let pattern = t.subrange("include "@.len() as int, t.len() as int);
            match parse_matches_rec(fs, str_sort(fs_keys(fs)), 0, pattern, visited, fuel) {
                Err(e) => Err::<(Seq<Seq<char>>, Seq<Seq<char>>), ErrAbs>(e),
                Ok(p1) => match parse_lines_rec(fs, lines, idx + 1, p1.1, fuel) {
                    Err(e) => Err(e),
                    Ok(p2) => Ok((p1.0 + p2.0, p2.1)),
                },
            }
        }),
{
    reveal_with_fuel(parse_conf_rec, 2);
    reveal_with_fuel(parse_lines_rec, 2);
    reveal_with_fuel(parse_matches_rec, 2);
    let t = trim_spec(lines[idx]);
    reveal_strlit("include ");
    assert(t[0] == "include "@[0]);
    assert(t[0] != '#');
    assert(t[7] == "include "@[7]);
    assert(crate::strutil::is_ws(t[7]));
    assert(crate::strutil::has_ws(t));
}

/// Recursively parses one configuration file, threading the set of files
/// already visited (normalized resolved keys) to cut include cycles.
#[verifier::rlimit(100)]
pub(crate) fn parse_conf_inner(
    fs: &FsTree,
    rel_path: &str,
    visited: &mut Vec<String>,
    Ghost(fuel): Ghost<nat>,
) -> (r: Result<Vec<String>, LddError>)
    requires
        old(visited).deep_view().no_duplicates(),
        forall|j: int| 0 <= j < old(visited).deep_view().len() ==> fs_keys(fs.abs()).contains(#[trigger] old(visited).deep_view()[j]),
        fuel >= fs.abs().len() + 1 - old(visited).deep_view().len(),
    ensures
        final(visited).deep_view().no_duplicates(),
        forall|j: int| 0 <= j < final(visited).deep_view().len() ==> fs_keys(fs.abs()).contains(#[trigger] final(visited).deep_view()[j]),
        final(visited).deep_view().len() >= old(visited).deep_view().len(),
        match parse_conf_rec(fs.abs(), rel_path@, old(visited).deep_view(), fuel) {
            Ok(p) => r is Ok && r->Ok_0.deep_view() == p.0 && final(visited).deep_view() == p.1,
            Err(e) => r is Err && r->Err_0.abs() == e,
        },
    decreases fuel, 2int, 0int,
{
    let ghost fsv = fs.abs();
    let ghost vis0 = visited.deep_view();
    proof {
        reveal_with_fuel(parse_conf_rec, 2);
        reveal_with_fuel(parse_lines_rec, 2);
        reveal_with_fuel(parse_matches_rec, 2);
    }
    let rr = resolve_rel(fs, rel_path);
    let rp: String;
    match rr {
        Err(e) => {
            return Err(e);
        },
        Ok(p) => {
            rp = p.0;
        },
    }
    let key = normalize_path(rp.as_str());
    if vec_contains_str(visited, key.as_str()) {
        let empty_dirs: Vec<String> = Vec::new();
        proof {
            assert(empty_dirs.deep_view() =~= Seq::<Seq<char>>::empty());
        }
        return Ok(empty_dirs);
    }
    let node = fs.lookup(key.as_str());
    let bytes: &Vec<u8>;
    match node {
        Some(n) => {
            match n {
                FsNode::File(b) => {
                    bytes = b;
                },
                _ => {
                    return Err(LddError::Io(rp));
                },
            }
        },
        None => {
            return Err(LddError::Io(rp));
        },
    }
    proof {
        lemma_lookup_found_key(fsv, key@);
    }
    visited.push(key);
    proof {
        assert(visited.deep_view() =~= vis0.push(normalize_spec(rp@)));
        assert(visited.deep_view().drop_last() =~= vis0);
        lemma_distinct_members_bound(visited.deep_view(), fs_keys(fsv));
    }
    let text = utf8_lossy(bytes.as_slice());
    let lines = split_char(text.as_str(), '\n');
    proof {
        assert(lines.deep_view() == split_spec(utf8_lossy_of(bytes@), '\n'));
    }
    parse_lines_exec(fs, &lines, 0, visited, Ghost(fuel))
}

/// Processes the lines of one configuration file from `idx` on, as
/// `parse_lines_rec` describes.
#[verifier::rlimit(100)]
fn parse_lines_exec(
    fs: &FsTree,
    lines: &Vec<String>,
    idx: usize,
    visited: &mut Vec<String>,
    Ghost(fuel): Ghost<nat>,
) -> (r: Result<Vec<String>, LddError>)
    requires
        idx <= lines@.len(),
        old(visited).deep_view().no_duplicates(),
        forall|j: int| 0 <= j < old(visited).deep_view().len() ==> fs_keys(fs.abs()).contains(#[trigger] old(visited).deep_view()[j]),
        fuel + old(visited).deep_view().len() >= fs.abs().len() + 2,
    ensures
        final(visited).deep_view().no_duplicates(),
        forall|j: int| 0 <= j < final(visited).deep_view().len() ==> fs_keys(fs.abs()).contains(#[trigger] final(visited).deep_view()[j]),
        final(visited).deep_view().len() >= old(visited).deep_view().len(),
        match parse_lines_rec(fs.abs(), lines.deep_view(), idx as int, old(visited).deep_view(), fuel) {
            Ok(p) => r is Ok && r->Ok_0.deep_view() == p.0 && final(visited).deep_view() == p.1,
            Err(e) => r is Err && r->Err_0.abs() == e,
        },
    decreases fuel, 1int, lines@.len() - idx,
{
    proof {
        reveal_with_fuel(parse_conf_rec, 2);
        reveal_with_fuel(parse_lines_rec, 2);
        reveal_with_fuel(parse_matches_rec, 2);
    }
    let nl = lines.len();
    if idx >= nl {
        let empty_dirs: Vec<String> = Vec::new();
        proof {
            assert(empty_dirs.deep_view() =~= Seq::<Seq<char>>::empty());
        }
        return Ok(empty_dirs);
    }
    let t = trim(lines[idx].as_str());
    let ghost tv = trim_spec(lines.deep_view()[idx as int]);
    proof {
        assert(t@ == tv);
    }
    if t.as_str().unicode_len() == 0 || t.as_str().get_char(0) == '#' {
        return parse_lines_exec(fs, lines, idx + 1, visited, Ghost(fuel));
    }
    if contains_ws(t.as_str()) {
        let inc = "include ";
        if starts_with(t.as_str(), inc) {
            let pat = t.as_str().substring_char(inc.unicode_len(), t.as_str().unicode_len());
            proof {
                assert(pat@ == tv.subrange("include "@.len() as int, tv.len() as int));
            }
            let all_keys = fs.keys();
            let keys = sort_strings(&all_keys);
            proof {
                assert(keys.deep_view() == str_sort(fs_keys(fs.abs())));
            }
            let first = parse_matches_exec(fs, &keys, 0, pat, visited, Ghost(fuel));
            let mut d1: Vec<String>;
            match first {
                Err(e) => {
                    proof {
                        reveal_with_fuel(parse_conf_rec, 2);
                        reveal_with_fuel(parse_lines_rec, 2);
                        reveal_with_fuel(parse_matches_rec, 2);
                        let sm = parse_matches_rec(fs.abs(), keys.deep_view(), 0, pat@, old(visited).deep_view(), fuel);
                        assert(sm is Err);
                        assert(e.abs() == sm->Err_0);
                        assert(0 <= idx < lines.deep_view().len());
                        assert(trim_spec(lines.deep_view()[idx as int]) == tv);
                        assert(!(tv.len() == 0 || tv[0] == '#'));
                        assert(crate::strutil::has_ws(tv));
                        assert(is_prefix("include "@, tv));
                        assert(keys.deep_view() == str_sort(fs_keys(fs.abs())));
                        assert(pat@ == tv.subrange("include "@.len() as int, tv.len() as int));
                        assert(parse_lines_rec(fs.abs(), lines.deep_view(), idx as int, old(visited).deep_view(), fuel) == Err::<(Seq<Seq<char>>, Seq<Seq<char>>), ErrAbs>(sm->Err_0));
                    }
                    return Err(e);
                },
                Ok(d) => {
                    d1 = d;
                },
            }
            let second = parse_lines_exec(fs, lines, idx + 1, visited, Ghost(fuel));
            match second {
                Err(e) => {
                    proof {
                        reveal_with_fuel(parse_conf_rec, 2);
                        reveal_with_fuel(parse_lines_rec, 2);
                        reveal_with_fuel(parse_matches_rec, 2);
                        let sm = parse_matches_rec(fs.abs(), keys.deep_view(), 0, pat@, old(visited).deep_view(), fuel);
                        assert(sm is Ok);
                        let sl = parse_lines_rec(fs.abs(), lines.deep_view(), idx + 1, sm->Ok_0.1, fuel);
                        assert(sl is Err);
                        assert(e.abs() == sl->Err_0);
                        assert(parse_lines_rec(fs.abs(), lines.deep_view(), idx as int, old(visited).deep_view(), fuel) == Err::<(Seq<Seq<char>>, Seq<Seq<char>>), ErrAbs>(sl->Err_0));
                    }
                    return Err(e);
                },
                Ok(d2) => {
                    let ghost d1v = d1.deep_view();
                    let ghost d2v = d2.deep_view();
                    let mut tail = d2;
                    d1.append(&mut tail);
                    proof {
                        assert(d1.deep_view() =~= d1v + d2v);
                    }
                    return Ok(d1);
                },
            }
        } else {
            return parse_lines_exec(fs, lines, idx + 1, visited, Ghost(fuel));
        }
    }
    let second = parse_lines_exec(fs, lines, idx + 1, visited, Ghost(fuel));
    match second {
        Err(e) => Err(e),
        Ok(d2) => {
            let ghost d2v = d2.deep_view();
            let mut out: Vec<String> = Vec::new();
            out.push(t);
            let mut tail = d2;
            out.append(&mut tail);
            proof {
                assert(out.deep_view() =~= seq![tv] + d2v);
            }
            Ok(out)
        },
    }
}

/// Expands one include pattern against the sorted snapshot keys from `j`
/// on, parsing every matched file, as `parse_matches_rec` describes.
#[verifier::rlimit(100)]
fn parse_matches_exec(
    fs: &FsTree,
    keys: &Vec<String>,
    j: usize,
    pattern: &str,
    visited: &mut Vec<String>,
    Ghost(fuel): Ghost<nat>,
) -> (r: Result<Vec<String>, LddError>)
    requires
        j <= keys@.len(),
        old(visited).deep_view().no_duplicates(),
        forall|g: int| 0 <= g < old(visited).deep_view().len() ==> fs_keys(fs.abs()).contains(#[trigger] old(visited).deep_view()[g]),
        fuel + old(visited).deep_view().len() >= fs.abs().len() + 2,
    ensures
        final(visited).deep_view().no_duplicates(),
        forall|g: int| 0 <= g < final(visited).deep_view().len() ==> fs_keys(fs.abs()).contains(#[trigger] final(visited).deep_view()[g]),
        final(visited).deep_view().len() >= old(visited).deep_view().len(),
        match parse_matches_rec(fs.abs(), keys.deep_view(), j as int, pattern@, old(visited).deep_view(), fuel) {
            Ok(p) => r is Ok && r->Ok_0.deep_view() == p.0 && final(visited).deep_view() == p.1,
            Err(e) => r is Err && r->Err_0.abs() == e,
        },
    decreases fuel, 0int, keys@.len() - j,
{
    proof {
        reveal_with_fuel(parse_conf_rec, 2);
        reveal_with_fuel(parse_lines_rec, 2);
        reveal_with_fuel(parse_matches_rec, 2);
    }
    let nk = keys.len();
    if j >= nk {
        let empty_dirs: Vec<String> = Vec::new();
        proof {
            assert(empty_dirs.deep_view() =~= Seq::<Seq<char>>::empty());
        }
        return Ok(empty_dirs);
    }
    proof {
        assert(keys.deep_view()[j as int] == keys@[j as int]@);
    }
    let is_m = glob_match(pattern, keys[j].as_str());
    let matched: bool = match is_m {
        Some(true) => true,
        _ => false,
    };
    if !matched {
        return parse_matches_exec(fs, keys, j + 1, pattern, visited, Ghost(fuel));
    }
    proof {
        lemma_distinct_members_bound(visited.deep_view(), fs_keys(fs.abs()));
        assert(fs_keys(fs.abs()).len() == fs.abs().len());
    }
    let first = parse_conf_inner(fs, keys[j].as_str(), visited, Ghost((fuel - 1) as nat));
    let mut d1: Vec<String>;
    match first {
        Err(e) => {
            proof {
                reveal_with_fuel(parse_conf_rec, 2);
                reveal_with_fuel(parse_lines_rec, 2);
                reveal_with_fuel(parse_matches_rec, 2);
                let sc = parse_conf_rec(fs.abs(), keys.deep_view()[j as int], old(visited).deep_view(), (fuel - 1) as nat);
                assert(sc is Err);
                assert(e.abs() == sc->Err_0);
                assert(parse_matches_rec(fs.abs(), keys.deep_view(), j as int, pattern@, old(visited).deep_view(), fuel) == Err::<(Seq<Seq<char>>, Seq<Seq<char>>), ErrAbs>(sc->Err_0));
            }
            return Err(e);
        },
        Ok(d) => {
            d1 = d;
        },
    }
    let second = parse_matches_exec(fs, keys, j + 1, pattern, visited, Ghost(fuel));
    match second {
        Err(e) => {
            proof {
                reveal_with_fuel(parse_conf_rec, 2);
                reveal_with_fuel(parse_lines_rec, 2);
                reveal_with_fuel(parse_matches_rec, 2);
                let sc = parse_conf_rec(fs.abs(), keys.deep_view()[j as int], old(visited).deep_view(), (fuel - 1) as nat);
                assert(sc is Ok);
                let sm = parse_matches_rec(fs.abs(), keys.deep_view(), j + 1, pattern@, sc->Ok_0.1, fuel);
                assert(sm is Err);
                assert(e.abs() == sm->Err_0);
                assert(parse_matches_rec(fs.abs(), keys.deep_view(), j as int, pattern@, old(visited).deep_view(), fuel) == Err::<(Seq<Seq<char>>, Seq<Seq<char>>), ErrAbs>(sm->Err_0));
            }
            Err(e)
        },
        Ok(d2) => {
            let ghost d1v = d1.deep_view();
            let ghost d2v = d2.deep_view();
            let mut tail = d2;
            d1.append(&mut tail);
            proof {
                assert(d1.deep_view() =~= d1v + d2v);
            }
            Ok(d1)
        },
    }
}

/// What the errors of `parse_ld_so_conf` carry once mapped under the
/// sysroot: an I/O error names the host path, the others are unchanged.
pub open spec fn conf_err_under_sysroot(sysroot: Seq<char>, e: ErrAbs) -> ErrAbs {
    crate::resolve::err_under_sysroot(sysroot, e)
}

/// Parses the linker configuration file at `rel_path` inside the snapshot:
/// the ordered list of search directories it and its includes yield.
pub fn parse_ld_so_conf(sysroot: &str, fs: &FsTree, rel_path: &str) -> (r: Result<Vec<String>, LddError>)
    ensures
        match parse_conf_abs(fs.abs(), rel_path@) {
            Ok(d) => r is Ok && r->Ok_0.deep_view() == d,
            Err(e) => r is Err && r->Err_0.abs() == conf_err_under_sysroot(sysroot@, e),
        },
{
    let mut visited: Vec<String> = Vec::new();
    proof {
        assert(visited.deep_view() =~= Seq::<Seq<char>>::empty());
    }
    let r = parse_conf_inner(fs, rel_path, &mut visited, Ghost((fs.abs().len() + 1) as nat));
    match r {
        Ok(dirs) => Ok(dirs),
        Err(e) => {
            match e {
                LddError::Io(p) => Err(LddError::Io(crate::paths::with_sysroot(sysroot, p.as_str()))),
                other => Err(other),
            }
        },
    }
}

} // verus!
