//! Lexical path arithmetic: normalization (`.` and `..` are resolved without
//! touching any filesystem), joining, mapping a path under a sysroot, parent
//! directories and `$ORIGIN` substitution.

use vstd::prelude::*;
use vstd::string::StrSliceExecFns;
use vstd::string::StringExecFns;
use crate::strutil::split_spec;
use crate::strutil::split_char;
use crate::strutil::is_prefix;
use crate::strutil::starts_with;

verus! {

/// Folds path components left to right: empty components and `.` are
/// dropped, `..` pops the previous component (and is ignored at the top),
/// and every other component is kept.
pub open spec fn norm_parts(parts: Seq<Seq<char>>) -> Seq<Seq<char>>
    decreases parts.len(),
{
    if parts.len() == 0 {
        Seq::<Seq<char>>::empty()
    } else {
        let pre = norm_parts(parts.drop_last());
        let last = parts.last();
        if last == Seq::<char>::empty() || last == seq!['.'] {
            pre
        } else if last == seq!['.', '.'] {
            if pre.len() > 0 {
                pre.drop_last()
            } else {
                pre
            }
        } else {
            pre.push(last)
        }
    }
}

/// Components interleaved with `/`.
pub open spec fn join_parts(parts: Seq<Seq<char>>) -> Seq<char>
    decreases parts.len(),
{
    if parts.len() == 0 {
        Seq::<char>::empty()
    } else if parts.len() == 1 {
        parts[0]
    } else {
        join_parts(parts.drop_last()) + seq!['/'] + parts.last()
    }
}

/// Lexical normalization: components are split on `/`, folded by
/// `norm_parts`, rejoined, and a leading root marker is preserved.
#[verifier::opaque]
pub open spec fn normalize_spec(s: Seq<char>) -> Seq<char> {
    let joined = join_parts(norm_parts(split_spec(s, '/')));
    if s.len() > 0 && s[0] == '/' {
        seq!['/'] + joined
    } else {
        joined
    }
}

/// Lexically normalizes a path: `.` is dropped, `..` pops the last kept
/// component and silently stays put at the top, and a leading `/` is kept.
pub fn normalize_path(path: &str) -> (r: String)
    ensures
        r@ == normalize_spec(path@),
{
    let parts = split_char(path, '/');
    let n = parts.len();
    let mut stack: Vec<String> = Vec::new();
    let mut i: usize = 0;
    while i < n
        invariant
            0 <= i <= n == parts@.len(),
            stack.deep_view() == norm_parts(parts.deep_view().subrange(0, i as int)),
        decreases n - i,
    {
        proof {
            assert(parts.deep_view().subrange(0, i + 1).drop_last() =~= parts.deep_view().subrange(0, i as int));
            assert(parts.deep_view().subrange(0, i + 1).last() == parts.deep_view()[i as int]);
        }
        let p = &parts[i];
        let ln = p.as_str().unicode_len();
        if ln == 0 {
            proof {
                assert(p@ =~= Seq::<char>::empty());
            }
        } else if ln == 1 && p.as_str().get_char(0) == '.' {
            proof {
                assert(p@ =~= seq!['.']);
            }
        } else if ln == 2 && p.as_str().get_char(0) == '.' && p.as_str().get_char(1) == '.' {
            proof {
                assert(p@ =~= seq!['.', '.']);
            }
            if stack.len() > 0 {
                stack.pop();
                proof {
                    assert(stack.deep_view() =~= norm_parts(parts.deep_view().subrange(0, i + 1)));
                }
            }
        } else {
            proof {
                assert(p@ != Seq::<char>::empty());
                assert(p@ != seq!['.']);
                assert(p@ != seq!['.', '.']);
            }
            let copy = p.clone();
            stack.push(copy);
            proof {
                assert(stack.deep_view() =~= norm_parts(parts.deep_view().subrange(0, i + 1)));
            }
        }
        i += 1;
    }
    proof {
        assert(parts.deep_view().subrange(0, n as int) =~= parts.deep_view());
    }
    let mut r = String::new();
    let has_root = path.unicode_len() > 0 && path.get_char(0) == '/';
    if has_root {
        r.append("/");
        proof {
            reveal_strlit("/");
        }
    }
    let ghost root: Seq<char> = if has_root { seq!['/'] } else { Seq::<char>::empty() };
    let m = stack.len();
    let mut j: usize = 0;
    while j < m
        invariant
            0 <= j <= m == stack@.len(),
            stack.deep_view() == norm_parts(split_spec(path@, '/')),
            r@ == root + join_parts(stack.deep_view().subrange(0, j as int)),
            root == (if path@.len() > 0 && path@[0] == '/' { seq!['/'] } else { Seq::<char>::empty() }),
        decreases m - j,
    {
        if j > 0 {
            r.append("/");
            proof {
                reveal_strlit("/");
            }
        }
        r.append(stack[j].as_str());
        proof {
            assert(stack.deep_view().subrange(0, j + 1).drop_last() =~= stack.deep_view().subrange(0, j as int));
            assert(stack.deep_view().subrange(0, j + 1).last() == stack.deep_view()[j as int]);
            if j == 0 {
                assert(r@ =~= root + join_parts(stack.deep_view().subrange(0, j + 1)));
            } else {
                assert(r@ =~= root + join_parts(stack.deep_view().subrange(0, j + 1)));
            }
        }
        j += 1;
    }
    proof {
        reveal(normalize_spec);
        assert(stack.deep_view().subrange(0, m as int) =~= stack.deep_view());
    }
    r
}

/// Lexical join, as the standard path join behaves on Unix: an absolute
/// right side replaces the left side, an empty side leaves the other as it
/// is, and otherwise the sides meet at exactly one `/`.
pub open spec fn path_join_spec(a: Seq<char>, b: Seq<char>) -> Seq<char> {
    if b.len() > 0 && b[0] == '/' {
        b
    } else if a.len() == 0 {
        b
    } else if b.len() == 0 {
        a
    } else if a.last() == '/' {
        a + b
    } else {
        a + seq!['/'] + b
    }
}

/// Joins two path fragments lexically.
pub fn path_join(a: &str, b: &str) -> (r: String)
    ensures
        r@ == path_join_spec(a@, b@),
{
    let nb = b.unicode_len();
    if nb > 0 && b.get_char(0) == '/' {
        return b.to_owned();
    }
    let na = a.unicode_len();
    if na == 0 {
        return b.to_owned();
    }
    if nb == 0 {
        return a.to_owned();
    }
    let mut r = a.to_owned();
    if a.get_char(na - 1) != '/' {
        r.append("/");
        proof {
            reveal_strlit("/");
        }
    }
    r.append(b);
    proof {
        assert(a@.last() == a@[na - 1]);
    }
    r
}

/// `p` with every leading `/` removed.
pub open spec fn strip_slashes(p: Seq<char>) -> Seq<char>
    decreases p.len(),
{
    if p.len() > 0 && p[0] == '/' {
        strip_slashes(p.drop_first())
    } else {
        p
    }
}

/// A sysroot-relative path mapped under the sysroot: the leading separator
/// is stripped and the rest is joined onto the sysroot.
pub open spec fn with_sysroot_spec(sysroot: Seq<char>, p: Seq<char>) -> Seq<char> {
    path_join_spec(sysroot, strip_slashes(p))
}

/// Maps a sysroot-relative path to the corresponding host path under the
/// sysroot directory.
pub fn with_sysroot(sysroot: &str, path: &str) -> (r: String)
    ensures
        r@ == with_sysroot_spec(sysroot@, path@),
{
    let n = path.unicode_len();
    let mut k: usize = 0;
    proof {
        assert(path@.subrange(0, n as int) =~= path@);
    }
    while k < n && path.get_char(k) == '/'
        invariant
            0 <= k <= n == path@.len(),
            strip_slashes(path@) == strip_slashes(path@.subrange(k as int, n as int)),
            forall|j: int| 0 <= j < k ==> path@[j] == '/',
        decreases n - k,
    {
        proof {
            assert(path@.subrange(k as int, n as int).drop_first() =~= path@.subrange(k + 1, n as int));
        }
        k += 1;
    }
    let stripped = path.substring_char(k, n);
    proof {
        if k < n {
            assert(path@.subrange(k as int, n as int)[0] != '/');
        }
    }
    path_join(sysroot, stripped)
}

/// Index of the last `/` in `s`, or -1.
pub open spec fn rfind_slash(s: Seq<char>, from: int) -> int
    decreases from + 1,
{
    if from < 0 || from >= s.len() {
        -1
    } else if s[from] == '/' {
        from
    } else {
        rfind_slash(s, from - 1)
    }
}

/// The directory holding `s`: everything before the last `/`, a bare `/`
/// when that would be empty, and the empty string when `s` has no `/`.
pub open spec fn parent_dir_spec(s: Seq<char>) -> Seq<char> {
    let k = rfind_slash(s, s.len() - 1);
    if k < 0 {
        Seq::<char>::empty()
    } else if k == 0 {
        seq!['/']
    } else {
        s.subrange(0, k)
    }
}

/// Returns the directory part of a path, as `parent_dir_spec` describes.
pub fn parent_dir(s: &str) -> (r: String)
    ensures
        r@ == parent_dir_spec(s@),
{
    let n = s.unicode_len();
    let mut j: usize = n;
    while j > 0 && s.get_char(j - 1) != '/'
        invariant
            0 <= j <= n == s@.len(),
            rfind_slash(s@, n - 1) == rfind_slash(s@, j - 1),
        decreases j,
    {
        j -= 1;
    }
    if j == 0 {
        return String::new();
    }
    if j == 1 {
        proof {
            reveal_strlit("/");
            assert("/"@ =~= seq!['/']);
        }
        return "/".to_owned();
    }
    s.substring_char(0, j - 1).to_owned()
}

/// A search-path token with a literal `$ORIGIN` or `${ORIGIN}` prefix
/// replaced by the origin directory; other tokens are unchanged.
pub open spec fn subst_origin_spec(tok: Seq<char>, origin: Seq<char>) -> Seq<char> {
    if is_prefix("${ORIGIN}"@, tok) {
        origin + tok.subrange("${ORIGIN}"@.len() as int, tok.len() as int)
    } else if is_prefix("$ORIGIN"@, tok) {
        origin + tok.subrange("$ORIGIN"@.len() as int, tok.len() as int)
    } else {
        tok
    }
}

/// Substitutes a leading `$ORIGIN` or `${ORIGIN}` in a search-path token
/// with the resolving binary's own directory.
pub fn subst_origin(tok: &str, origin: &str) -> (r: String)
    ensures
        r@ == subst_origin_spec(tok@, origin@),
{
    let braced = "${ORIGIN}";
    let bare = "$ORIGIN";
    if starts_with(tok, braced) {
        let rest = tok.substring_char(braced.unicode_len(), tok.unicode_len());
        let mut r = origin.to_owned();
        r.append(rest);
        r
    } else if starts_with(tok, bare) {
        let rest = tok.substring_char(bare.unicode_len(), tok.unicode_len());
        let mut r = origin.to_owned();
        r.append(rest);
        r
    } else {
        tok.to_owned()
    }
}

} // verus!
