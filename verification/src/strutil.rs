//! Character-level string utilities: splitting, trimming, prefix tests and
//! lexicographic comparison, each with an exact specification over `Seq<char>`.

use vstd::prelude::*;
use vstd::string::StrSliceExecFns;
use vstd::string::StringExecFns;

verus! {

/// Index of the first occurrence of `sep` at or after `start`, or -1.
pub open spec fn find_char_from(s: Seq<char>, sep: char, start: int) -> int
    decreases s.len() - start,
{
    if start < 0 || start >= s.len() {
        -1
    } else if s[start] == sep {
        start
    } else {
        find_char_from(s, sep, start + 1)
    }
}

/// The pieces of `s[start..]` delimited by `sep`; an empty suffix still
/// yields one (empty) piece, as `str::split` does.
#[verifier::opaque]
pub open spec fn split_from(s: Seq<char>, sep: char, start: int) -> Seq<Seq<char>>
    decreases s.len() - start,
    via split_from_dec
{
    let k = find_char_from(s, sep, start);
    if k < 0 || start < 0 {
        seq![s.subrange(if 0 <= start <= s.len() { start } else { 0 }, s.len() as int)]
    } else {
        seq![s.subrange(start, k)] + split_from(s, sep, k + 1)
    }
}

/// Bounds of `find_char_from`: a found index lies between `start` and the
/// end of the sequence.
pub proof fn lemma_find_char_bounds(s: Seq<char>, sep: char, start: int)
    ensures
        find_char_from(s, sep, start) == -1 || (start <= find_char_from(s, sep, start) < s.len()),
    decreases s.len() - start,
{
    if 0 <= start < s.len() && s[start] != sep {
        lemma_find_char_bounds(s, sep, start + 1);
    }
}

#[via_fn]
proof fn split_from_dec(s: Seq<char>, sep: char, start: int) {
    lemma_find_char_bounds(s, sep, start);
}

/// All pieces of `s` delimited by `sep`, in order.
pub open spec fn split_spec(s: Seq<char>, sep: char) -> Seq<Seq<char>> {
    split_from(s, sep, 0)
}

proof fn lemma_find_char_found(s: Seq<char>, sep: char, start: int, i: int)
    requires
        0 <= start <= i < s.len(),
        forall|j: int| start <= j < i ==> s[j] != sep,
        s[i] == sep,
    ensures
        find_char_from(s, sep, start) == i,
    decreases i - start,
{
    if start < i {
        lemma_find_char_found(s, sep, start + 1, i);
    }
}

proof fn lemma_find_char_missing(s: Seq<char>, sep: char, start: int)
    requires
        0 <= start <= s.len(),
        forall|j: int| start <= j < s.len() ==> s[j] != sep,
    ensures
        find_char_from(s, sep, start) == -1,
    decreases s.len() - start,
{
    if start < s.len() {
        lemma_find_char_missing(s, sep, start + 1);
    }
}

/// Splits a string on a separator character, keeping empty pieces.
pub fn split_char(s: &str, sep: char) -> (r: Vec<String>)
    ensures
        r.deep_view() == split_spec(s@, sep),
{
    let n = s.unicode_len();
    let mut r: Vec<String> = Vec::new();
    let mut start: usize = 0;
    let mut i: usize = 0;
    while i < n
        invariant
            0 <= start <= i <= n == s@.len(),
            r.deep_view() + split_from(s@, sep, start as int) == split_spec(s@, sep),
            forall|j: int| start <= j < i ==> s@[j] != sep,
        decreases n - i,
    {
        if s.get_char(i) == sep {
            proof {
                reveal(split_from);
                lemma_find_char_found(s@, sep, start as int, i as int);
            }
            let piece = s.substring_char(start, i).to_owned();
            r.push(piece);
            assert(r.deep_view() =~= old_deep(r.deep_view(), s@, start as int, i as int));
            start = i + 1;
        }
        i += 1;
        proof {
            assert(r.deep_view() + split_from(s@, sep, start as int) =~= split_spec(s@, sep));
        }
    }
    proof {
        reveal(split_from);
        lemma_find_char_missing(s@, sep, start as int);
    }
    let piece = s.substring_char(start, n).to_owned();
    r.push(piece);
    proof {
        assert(r.deep_view() =~= split_spec(s@, sep));
    }
    r
}

/// Helper shape for the push step of `split_char`: the sequence after the
/// push is the old one with one more piece.
pub open spec fn old_deep(d: Seq<Seq<char>>, s: Seq<char>, start: int, i: int) -> Seq<Seq<char>> {
    d.subrange(0, d.len() - 1) + seq![s.subrange(start, i)]
}

/// True when `p` occurs at the start of `s`.
pub open spec fn is_prefix(p: Seq<char>, s: Seq<char>) -> bool {
    p.len() <= s.len() && s.subrange(0, p.len() as int) == p
}

/// Tests whether `s` begins with `p`.
pub fn starts_with(s: &str, p: &str) -> (r: bool)
    ensures
        r == is_prefix(p@, s@),
{
    let np = p.unicode_len();
    let ns = s.unicode_len();
    if np > ns {
        assert(!is_prefix(p@, s@));
        return false;
    }
    let mut i: usize = 0;
    while i < np
        invariant
            0 <= i <= np == p@.len(),
            np <= ns == s@.len(),
            forall|j: int| 0 <= j < i ==> s@[j] == p@[j],
        decreases np - i,
    {
        if s.get_char(i) != p.get_char(i) {
            assert(s@.subrange(0, np as int)[i as int] != p@[i as int]);
            return false;
        }
        i += 1;
    }
    assert(s@.subrange(0, np as int) =~= p@);
    true
}

/// Tests whether two string slices hold the same characters.
pub fn str_eq(a: &str, b: &str) -> (r: bool)
    ensures
        r == (a@ == b@),
{
    let na = a.unicode_len();
    let nb = b.unicode_len();
    if na != nb {
        return false;
    }
    let mut i: usize = 0;
    while i < na
        invariant
            0 <= i <= na == a@.len(),
            na == nb == b@.len(),
            forall|j: int| 0 <= j < i ==> a@[j] == b@[j],
        decreases na - i,
    {
        if a.get_char(i) != b.get_char(i) {
            return false;
        }
        i += 1;
    }
    assert(a@ =~= b@);
    true
}

/// Tests whether `s` holds `c` anywhere.
pub fn contains_char(s: &str, c: char) -> (r: bool)
    ensures
        r == s@.contains(c),
{
    let n = s.unicode_len();
    let mut i: usize = 0;
    while i < n
        invariant
            0 <= i <= n == s@.len(),
            forall|j: int| 0 <= j < i ==> s@[j] != c,
        decreases n - i,
    {
        if s.get_char(i) == c {
            return true;
        }
        i += 1;
    }
    false
}

/// The whitespace characters that line trimming removes: the characters
/// with the Unicode White_Space property, the same set `str::trim` uses.
pub open spec fn is_ws(c: char) -> bool {
    let u = c as u32;
    u == 0x09 || u == 0x0A || u == 0x0B || u == 0x0C || u == 0x0D || u == 0x20 || u == 0x85
        || u == 0xA0 || u == 0x1680 || (0x2000 <= u && u <= 0x200A) || u == 0x2028 || u == 0x2029
        || u == 0x202F || u == 0x205F || u == 0x3000
}

/// Executable mirror of `is_ws`.
pub fn is_ws_char(c: char) -> (r: bool)
    ensures
        r == is_ws(c),
{
    let u = c as u32;
    u == 0x09 || u == 0x0A || u == 0x0B || u == 0x0C || u == 0x0D || u == 0x20 || u == 0x85
        || u == 0xA0 || u == 0x1680 || (0x2000 <= u && u <= 0x200A) || u == 0x2028 || u == 0x2029
        || u == 0x202F || u == 0x205F || u == 0x3000
}

/// Whether `s` holds any whitespace character.
pub open spec fn has_ws(s: Seq<char>) -> bool {
    exists|j: int| 0 <= j < s.len() && is_ws(#[trigger] s[j])
}

/// Tests whether `s` holds any whitespace character.
pub fn contains_ws(s: &str) -> (r: bool)
    ensures
        r == has_ws(s@),
{
    let n = s.unicode_len();
    let mut i: usize = 0;
    while i < n
        invariant
            0 <= i <= n == s@.len(),
            forall|j: int| 0 <= j < i ==> !is_ws(#[trigger] s@[j]),
        decreases n - i,
    {
        if is_ws_char(s.get_char(i)) {
            return true;
        }
        i += 1;
    }
    false
}

/// `s` with leading and trailing whitespace removed: the subrange between
/// the first and last non-whitespace characters.
#[verifier::opaque]
pub open spec fn trim_spec(s: Seq<char>) -> Seq<char> {
    if forall|j: int| 0 <= j < s.len() ==> is_ws(s[j]) {
        Seq::<char>::empty()
    } else {
        let a = choose|a: int| 0 <= a < s.len() && !is_ws(s[a]) && forall|j: int| 0 <= j < a ==> is_ws(s[j]);
        let b = choose|b: int| 0 <= b < s.len() && !is_ws(s[b]) && forall|j: int| b < j < s.len() ==> is_ws(s[j]);
        s.subrange(a, b + 1)
    }
}

/// Removes leading and trailing whitespace.
pub fn trim(s: &str) -> (r: String)
    ensures
        r@ == trim_spec(s@),
{
    let n = s.unicode_len();
    let mut a: usize = 0;
    while a < n && is_ws_char(s.get_char(a))
        invariant
            0 <= a <= n == s@.len(),
            forall|j: int| 0 <= j < a ==> is_ws(s@[j]),
        decreases n - a,
    {
        a += 1;
    }
    if a == n {
        proof {
            reveal(trim_spec);
            assert(forall|j: int| 0 <= j < s@.len() ==> is_ws(s@[j]));
        }
        return String::new();
    }
    let mut b: usize = n - 1;
    while b > a && is_ws_char(s.get_char(b))
        invariant
            a <= b < n == s@.len(),
            forall|j: int| b < j < s@.len() ==> is_ws(s@[j]),
        decreases b,
    {
        b -= 1;
    }
    let r = s.substring_char(a, b + 1).to_owned();
    proof {
        reveal(trim_spec);
        let ga = a as int;
        let gb = b as int;
        assert(!is_ws(s@[ga]));
        assert(!is_ws(s@[gb]));
        assert(!(forall|j: int| 0 <= j < s@.len() ==> is_ws(s@[j])));
        let ca = choose|x: int| 0 <= x < s@.len() && !is_ws(s@[x]) && forall|j: int| 0 <= j < x ==> is_ws(s@[j]);
        let cb = choose|x: int| 0 <= x < s@.len() && !is_ws(s@[x]) && forall|j: int| x < j < s@.len() ==> is_ws(s@[j]);
        assert(ca == ga);
        assert(cb == gb);
    }
    r
}

/// Strict lexicographic order on character sequences, by code point; a
/// proper prefix comes before its extensions.
pub open spec fn lex_lt(a: Seq<char>, b: Seq<char>) -> bool
    decreases a.len(),
{
    if b.len() == 0 {
        false
    } else if a.len() == 0 {
        true
    } else if a[0] != b[0] {
        (a[0] as u32) < (b[0] as u32)
    } else {
        lex_lt(a.drop_first(), b.drop_first())
    }
}

/// Compares two strings in the `lex_lt` order.
pub fn str_lt(a: &str, b: &str) -> (r: bool)
    ensures
        r == lex_lt(a@, b@),
{
    let na = a.unicode_len();
    let nb = b.unicode_len();
    let mut i: usize = 0;
    proof {
        assert(a@.subrange(0, na as int) =~= a@);
        assert(b@.subrange(0, nb as int) =~= b@);
    }
    loop
        invariant
            0 <= i <= na == a@.len(),
            i <= nb == b@.len(),
            lex_lt(a@, b@) == lex_lt(a@.subrange(i as int, na as int), b@.subrange(i as int, nb as int)),
        decreases na - i,
    {
        proof {
            lemma_lex_unfold(a@, b@, i as int);
        }
        if i >= nb {
            return false;
        }
        if i >= na {
            return true;
        }
        let ca = a.get_char(i);
        let cb = b.get_char(i);
        if ca != cb {
            return (ca as u32) < (cb as u32);
        }
        i += 1;
    }
}

/// Insertion into a sequence ordered by `lex_lt`, before the first element
/// that the inserted one precedes.
pub open spec fn str_insert(s: Seq<Seq<char>>, x: Seq<char>) -> Seq<Seq<char>>
    decreases s.len(),
{
    if s.len() == 0 {
        seq![x]
    } else if lex_lt(x, s[0]) {
        seq![x] + s
    } else {
        seq![s[0]] + str_insert(s.drop_first(), x)
    }
}

/// Insertion sort in the `lex_lt` order; equal elements keep their order.
#[verifier::opaque]
pub open spec fn str_sort(s: Seq<Seq<char>>) -> Seq<Seq<char>>
    decreases s.len(),
{
    if s.len() == 0 {
        Seq::<Seq<char>>::empty()
    } else {
        str_insert(str_sort(s.drop_last()), s.last())
    }
}

/// Where `str_insert` puts the element: right before the first element it
/// precedes.
pub proof fn lemma_str_insert_at(s: Seq<Seq<char>>, x: Seq<char>, k: int)
    requires
        0 <= k <= s.len(),
        forall|j: int| 0 <= j < k ==> !lex_lt(x, s[j]),
        k < s.len() ==> lex_lt(x, s[k]),
    ensures
        str_insert(s, x) == s.subrange(0, k) + seq![x] + s.subrange(k, s.len() as int),
    decreases s.len(),
{
    if s.len() == 0 || k == 0 {
        assert(str_insert(s, x) =~= s.subrange(0, k) + seq![x] + s.subrange(k, s.len() as int));
    } else {
        let rest = s.drop_first();
        assert(forall|j: int| 0 <= j < k - 1 ==> rest[j] == s[j + 1] && !lex_lt(x, rest[j]));
        lemma_str_insert_at(rest, x, k - 1);
        assert(str_insert(s, x) =~= s.subrange(0, k) + seq![x] + s.subrange(k, s.len() as int));
    }
}

/// Sorts a vector of strings in the `lex_lt` order by insertion.
pub fn sort_strings(v: &Vec<String>) -> (r: Vec<String>)
    ensures
        r.deep_view() == str_sort(v.deep_view()),
{
    let n = v.len();
    let mut sorted: Vec<String> = Vec::new();
    let mut i: usize = 0;
    proof {
        reveal(str_sort);
        assert(v.deep_view().subrange(0, 0) =~= Seq::<Seq<char>>::empty());
        assert(sorted.deep_view() =~= Seq::<Seq<char>>::empty());
    }
    while i < n
        invariant
            0 <= i <= n == v@.len(),
            n == v.deep_view().len(),
            sorted.deep_view() == str_sort(v.deep_view().subrange(0, i as int)),
        decreases n - i,
    {
        let x = v[i].clone();
        let m = sorted.len();
        let mut k: usize = 0;
        while k < m && !str_lt(x.as_str(), sorted[k].as_str())
            invariant
                0 <= k <= m == sorted@.len(),
                m == sorted.deep_view().len(),
                x@ == v.deep_view()[i as int],
                forall|j: int| 0 <= j < k ==> !lex_lt(x@, sorted.deep_view()[j]),
            decreases m - k,
        {
            k += 1;
        }
        proof {
            lemma_str_insert_at(sorted.deep_view(), x@, k as int);
        }
        let ghost pre = sorted.deep_view();
        sorted.insert(k, x);
        proof {
            reveal(str_sort);
            assert(sorted.deep_view() =~= pre.subrange(0, k as int) + seq![v.deep_view()[i as int]] + pre.subrange(k as int, pre.len() as int));
            let sub = v.deep_view().subrange(0, i + 1);
            assert(sub.drop_last() =~= v.deep_view().subrange(0, i as int));
            assert(sub.last() == v.deep_view()[i as int]);
            assert(sorted.deep_view() == str_sort(sub));
        }
        i += 1;
    }
    proof {
        assert(v.deep_view().subrange(0, n as int) =~= v.deep_view());
    }
    sorted
}

/// Strict ascending lexicographic order between every pair of neighbours.
pub open spec fn lex_sorted(v: Seq<Seq<char>>) -> bool {
    forall|i: int| 0 <= i < v.len() - 1 ==> lex_lt(#[trigger] v[i], v[i + 1])
}

/// Any two character sequences compare: one precedes the other, or they
/// are equal.
pub proof fn lemma_lex_trichotomy(a: Seq<char>, b: Seq<char>)
    ensures
        lex_lt(a, b) || lex_lt(b, a) || a == b,
    decreases a.len(),
{
    if b.len() == 0 {
        if a.len() == 0 {
            assert(a =~= b);
        }
    } else if a.len() == 0 {
    } else if a[0] != b[0] {
        assert((a[0] as u32) != (b[0] as u32)) by {
            vstd::utf8::char_u32_cast(a[0], a[0] as u32);
            vstd::utf8::char_u32_cast(b[0], b[0] as u32);
        }
    } else {
        lemma_lex_trichotomy(a.drop_first(), b.drop_first());
        if !lex_lt(a, b) && !lex_lt(b, a) {
            assert(a.drop_first() == b.drop_first());
            assert(a.len() == b.len());
            assert forall|i: int| 0 <= i < a.len() implies a[i] == b[i] by {
                if i > 0 {
                    assert(a.drop_first()[i - 1] == b.drop_first()[i - 1]);
                }
            }
            assert(a =~= b);
        }
    }
}

/// Inserting a fresh element into a sorted sequence keeps it sorted and
/// free of duplicates.
pub proof fn lemma_str_insert_sorted(s: Seq<Seq<char>>, x: Seq<char>)
    requires
        lex_sorted(s),
        s.no_duplicates(),
        !s.contains(x),
    ensures
        lex_sorted(str_insert(s, x)),
        str_insert(s, x).no_duplicates(),
        str_insert(s, x).len() == s.len() + 1,
        str_insert(s, x).contains(x),
        forall|y: Seq<char>| s.contains(y) ==> #[trigger] str_insert(s, x).contains(y),
    decreases s.len(),
{
    if s.len() == 0 {
        let r = str_insert(s, x);
        assert(r =~= seq![x]);
        assert(r[0] == x);
    } else if lex_lt(x, s[0]) {
        let r = str_insert(s, x);
        assert(r =~= seq![x] + s);
        assert forall|i: int| 0 <= i < r.len() - 1 implies lex_lt(#[trigger] r[i], r[i + 1]) by {
            if i > 0 {
                assert(r[i] == s[i - 1]);
                assert(r[i + 1] == s[i]);
            }
        }
        assert forall|a: int, b: int| 0 <= a < b < r.len() implies r[a] != r[b] by {
            if a == 0 {
                assert(r[b] == s[b - 1]);
                assert(s.contains(s[b - 1]));
            }
        }
        assert(r[0] == x);
        assert forall|y: Seq<char>| s.contains(y) implies #[trigger] r.contains(y) by {
            let j = choose|j: int| 0 <= j < s.len() && s[j] == y;
            assert(r[j + 1] == y);
        }
    } else {
        assert(s.contains(s[0]));
        lemma_lex_trichotomy(x, s[0]);
        assert(lex_lt(s[0], x));
        let rest = s.drop_first();
        assert(rest.no_duplicates());
        assert(lex_sorted(rest)) by {
            assert forall|i: int| 0 <= i < rest.len() - 1 implies lex_lt(#[trigger] rest[i], rest[i + 1]) by {
                assert(rest[i] == s[i + 1]);
                assert(rest[i + 1] == s[i + 2]);
            }
        }
        assert(!rest.contains(x)) by {
            if rest.contains(x) {
                let j = choose|j: int| 0 <= j < rest.len() && rest[j] == x;
                assert(s[j + 1] == x);
                assert(s.contains(x));
            }
        }
        lemma_str_insert_sorted(rest, x);
        let ri = str_insert(rest, x);
        let r = str_insert(s, x);
        assert(r =~= seq![s[0]] + ri);
        assert(lex_lt(s[0], ri[0])) by {
            if rest.len() == 0 || lex_lt(x, rest[0]) {
                assert(ri[0] == x);
            } else {
                assert(ri[0] == rest[0]);
                assert(rest[0] == s[1]);
            }
        }
        assert forall|i: int| 0 <= i < r.len() - 1 implies lex_lt(#[trigger] r[i], r[i + 1]) by {
            if i == 0 {
                assert(r[1] == ri[0]);
            } else {
                assert(r[i] == ri[i - 1]);
                assert(r[i + 1] == ri[i]);
            }
        }
        assert forall|a: int, b: int| 0 <= a < b < r.len() implies r[a] != r[b] by {
            if a == 0 {
                assert(r[b] == ri[b - 1]);
                if ri[b - 1] == x {
                } else {
                    lemma_lex_member(rest, x, b - 1);
                }
            } else {
                assert(r[a] == ri[a - 1]);
                assert(r[b] == ri[b - 1]);
            }
        }
        assert(r.contains(x)) by {
            let j = choose|j: int| 0 <= j < ri.len() && ri[j] == x;
            assert(r[j + 1] == x);
        }
        assert forall|y: Seq<char>| s.contains(y) implies #[trigger] r.contains(y) by {
            let j = choose|j: int| 0 <= j < s.len() && s[j] == y;
            if j == 0 {
                assert(r[0] == y);
            } else {
                assert(rest[j - 1] == y);
                assert(rest.contains(y));
                assert(ri.contains(y));
                let k = choose|k: int| 0 <= k < ri.len() && ri[k] == y;
                assert(r[k + 1] == y);
            }
        }
    }
}

/// Insertion keeps every original member and adds the new one.
pub proof fn lemma_str_insert_preserves(s: Seq<Seq<char>>, x: Seq<char>)
    ensures
        forall|y: Seq<char>| s.contains(y) ==> #[trigger] str_insert(s, x).contains(y),
        str_insert(s, x).contains(x),
    decreases s.len(),
{
    if s.len() == 0 || lex_lt(x, s[0]) {
        let r = str_insert(s, x);
        assert(r[0] == x);
        assert forall|y: Seq<char>| s.contains(y) implies #[trigger] r.contains(y) by {
            let j = choose|j: int| 0 <= j < s.len() && s[j] == y;
            assert(r[j + 1] == y);
        }
    } else {
        let rest = s.drop_first();
        lemma_str_insert_preserves(rest, x);
        let ri = str_insert(rest, x);
        let r = str_insert(s, x);
        assert(r =~= seq![s[0]] + ri);
        assert(r.contains(x)) by {
            let k = choose|k: int| 0 <= k < ri.len() && ri[k] == x;
            assert(r[k + 1] == x);
        }
        assert forall|y: Seq<char>| s.contains(y) implies #[trigger] r.contains(y) by {
            let j = choose|j: int| 0 <= j < s.len() && s[j] == y;
            if j == 0 {
                assert(r[0] == y);
            } else {
                assert(rest[j - 1] == y);
                assert(rest.contains(y));
                assert(ri.contains(y));
                let k = choose|k: int| 0 <= k < ri.len() && ri[k] == y;
                assert(r[k + 1] == y);
            }
        }
    }
}

/// Every element of an insertion result is the inserted one or an original
/// member.
pub proof fn lemma_lex_member(s: Seq<Seq<char>>, x: Seq<char>, j: int)
    requires
        0 <= j < str_insert(s, x).len(),
    ensures
        str_insert(s, x)[j] == x || s.contains(str_insert(s, x)[j]),
    decreases s.len(),
{
    if s.len() == 0 || lex_lt(x, s[0]) {
    } else {
        let r = str_insert(s, x);
        assert(r =~= seq![s[0]] + str_insert(s.drop_first(), x));
        if j == 0 {
            assert(s.contains(s[0]));
        } else {
            lemma_lex_member(s.drop_first(), x, j - 1);
            if str_insert(s.drop_first(), x)[j - 1] != x {
                let k = choose|k: int| 0 <= k < s.drop_first().len() && s.drop_first()[k] == str_insert(s.drop_first(), x)[j - 1];
                assert(s[k + 1] == r[j]);
                assert(s.contains(s[k + 1]));
            }
        }
    }
}

/// Tests whether a vector of strings holds `s`.
pub fn vec_contains_str(v: &Vec<String>, s: &str) -> (r: bool)
    ensures
        r == v.deep_view().contains(s@),
{
    let n = v.len();
    let mut i: usize = 0;
    while i < n
        invariant
            0 <= i <= n == v@.len(),
            n == v.deep_view().len(),
            forall|j: int| 0 <= j < i ==> v.deep_view()[j] != s@,
        decreases n - i,
    {
        if str_eq(v[i].as_str(), s) {
            assert(v.deep_view()[i as int] == s@);
            return true;
        }
        i += 1;
    }
    false
}

proof fn lemma_lex_unfold(a: Seq<char>, b: Seq<char>, i: int)
    requires
        0 <= i <= a.len(),
        i <= b.len(),
    ensures
        i < a.len() && i < b.len() && a[i] == b[i] ==> lex_lt(a.subrange(i, a.len() as int), b.subrange(i, b.len() as int)) == lex_lt(a.subrange(i + 1, a.len() as int), b.subrange(i + 1, b.len() as int)),
        i >= b.len() ==> !lex_lt(a.subrange(i, a.len() as int), b.subrange(i, b.len() as int)),
        i >= a.len() && i < b.len() ==> lex_lt(a.subrange(i, a.len() as int), b.subrange(i, b.len() as int)),
        i < a.len() && i < b.len() && a[i] != b[i] ==> lex_lt(a.subrange(i, a.len() as int), b.subrange(i, b.len() as int)) == ((a[i] as u32) < (b[i] as u32)),
{
    let sa = a.subrange(i, a.len() as int);
    let sb = b.subrange(i, b.len() as int);
    if i < a.len() && i < b.len() && a[i] == b[i] {
        assert(sa.drop_first() =~= a.subrange(i + 1, a.len() as int));
        assert(sb.drop_first() =~= b.subrange(i + 1, b.len() as int));
    }
}

} // verus!
