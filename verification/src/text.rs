//! Character-level text utilities with exact specifications: whitespace
//! trimming and splitting, line splitting, decimal rendering and parsing.

use vstd::prelude::*;

verus! {

// ---------------------------------------------------------------------------
// Conversions between `str`/`String` and character vectors
// ---------------------------------------------------------------------------

/// The views of a sequence of strings.
pub open spec fn strs(v: Seq<String>) -> Seq<Seq<char>> {
    v.map_values(|s: String| s@)
}

/// Appends one character to a string (std `String::push`).
#[verifier::external_body]
pub(crate) fn push_char(s: &mut String, c: char)
    ensures
        final(s)@ == old(s)@.push(c),
{
    s.push(c);
}

/// Appends a string slice to a string.
pub fn push_str(s: &mut String, t: &str)
    ensures
        final(s)@ == old(s)@ + t@,
{
    s.append(t);
}

/// The characters of `s`, in order.
pub fn chars_of(s: &str) -> (v: Vec<char>)
    ensures
        v@ == s@,
{
    let mut v: Vec<char> = Vec::new();
    for c in it: s.chars()
        invariant
            v@ == it.seq().take(it.index() as int),
            it.seq() == s@,
    {
        v.push(c);
    }
    v
}

/// Appends the characters `v[lo..hi]` to `s`.
pub fn push_chars(s: &mut String, v: &[char], lo: usize, hi: usize)
    requires
        lo <= hi <= v@.len(),
    ensures
        final(s)@ == old(s)@ + v@.subrange(lo as int, hi as int),
{
    let mut i: usize = lo;
    while i < hi
        invariant
            lo <= i <= hi <= v@.len(),
            s@ == old(s)@ + v@.subrange(lo as int, i as int),
        decreases hi - i,
    {
        push_char(s, v[i]);
        assert(v@.subrange(lo as int, i + 1) == v@.subrange(lo as int, i as int).push(v@[i as int]));
        i = i + 1;
    }
}

/// A string holding exactly the characters of `v`.
pub fn string_of(v: &[char]) -> (s: String)
    ensures
        s@ == v@,
{
    let mut s = String::new();
    push_chars(&mut s, v, 0, v.len());
    assert(v@.subrange(0, v@.len() as int) == v@);
    s
}

/// The characters `v[lo..hi]` as a new vector.
pub fn copy_range(v: &[char], lo: usize, hi: usize) -> (r: Vec<char>)
    requires
        lo <= hi <= v@.len(),
    ensures
        r@ == v@.subrange(lo as int, hi as int),
{
    let mut r: Vec<char> = Vec::new();
    let mut i: usize = lo;
    while i < hi
        invariant
            lo <= i <= hi <= v@.len(),
            r@ == v@.subrange(lo as int, i as int),
        decreases hi - i,
    {
        r.push(v[i]);
        assert(v@.subrange(lo as int, i + 1) == v@.subrange(lo as int, i as int).push(v@[i as int]));
        i = i + 1;
    }
    r
}

/// Whether two character sequences are equal.
pub fn chars_eq(a: &[char], b: &[char]) -> (r: bool)
    ensures
        r == (a@ == b@),
{
    if a.len() != b.len() {
        return false;
    }
    let mut i: usize = 0;
    while i < a.len()
        invariant
            a@.len() == b@.len(),
            i <= a@.len(),
            forall|j: int| 0 <= j < i ==> a@[j] == b@[j],
        decreases a.len() - i,
    {
        if a[i] != b[i] {
            return false;
        }
        i = i + 1;
    }
    assert(a@ =~= b@);
    true
}

/// Whether `v` starts with `p`.
pub fn starts_with(v: &[char], p: &[char]) -> (r: bool)
    ensures
        r == (p@.len() <= v@.len() && v@.take(p@.len() as int) == p@),
{
    if p.len() > v.len() {
        return false;
    }
    let mut i: usize = 0;
    while i < p.len()
        invariant
            p@.len() <= v@.len(),
            i <= p@.len(),
            forall|j: int| 0 <= j < i ==> v@[j] == p@[j],
        decreases p.len() - i,
    {
        if v[i] != p[i] {
            assert(v@.take(p@.len() as int)[i as int] != p@[i as int]);
            return false;
        }
        i = i + 1;
    }
    assert(v@.take(p@.len() as int) =~= p@);
    true
}

/// Whether `c` occurs in `v`.
pub fn contains_char(v: &[char], c: char) -> (r: bool)
    ensures
        r == v@.contains(c),
{
    let mut i: usize = 0;
    while i < v.len()
        invariant
            i <= v@.len(),
            forall|j: int| 0 <= j < i ==> v@[j] != c,
        decreases v.len() - i,
    {
        if v[i] == c {
            assert(v@[i as int] == c);
            return true;
        }
        i = i + 1;
    }
    false
}

// ---------------------------------------------------------------------------
// Unicode whitespace, trimming, splitting on whitespace
// ---------------------------------------------------------------------------

/// The Unicode `White_Space` property, which `char::is_whitespace` tests.
pub open spec fn is_ws(c: char) -> bool {
    ||| ('\u{9}' <= c && c <= '\u{d}')
    ||| c == ' '
    ||| c == '\u{85}'
    ||| c == '\u{a0}'
    ||| c == '\u{1680}'
    ||| ('\u{2000}' <= c && c <= '\u{200a}')
    ||| c == '\u{2028}'
    ||| c == '\u{2029}'
    ||| c == '\u{202f}'
    ||| c == '\u{205f}'
    ||| c == '\u{3000}'
}

/// Whether `c` is Unicode whitespace.
pub fn is_whitespace(c: char) -> (r: bool)
    ensures
        r == is_ws(c),
{
    ('\u{9}' <= c && c <= '\u{d}') || c == ' ' || c == '\u{85}' || c == '\u{a0}' || c == '\u{1680}'
        || ('\u{2000}' <= c && c <= '\u{200a}') || c == '\u{2028}' || c == '\u{2029}' || c
        == '\u{202f}' || c == '\u{205f}' || c == '\u{3000}'
}

/// Number of leading whitespace characters.
pub open spec fn lead_ws(s: Seq<char>) -> nat
    decreases s.len(),
{
    if s.len() > 0 && is_ws(s[0]) {
        1 + lead_ws(s.drop_first())
    } else {
        0
    }
}

/// Number of trailing whitespace characters.
pub open spec fn trail_ws(s: Seq<char>) -> nat
    decreases s.len(),
{
    if s.len() > 0 && is_ws(s.last()) {
        1 + trail_ws(s.drop_last())
    } else {
        0
    }
}

/// Number of leading non-whitespace characters.
pub open spec fn word_len(s: Seq<char>) -> nat
    decreases s.len(),
{
    if s.len() > 0 && !is_ws(s[0]) {
        1 + word_len(s.drop_first())
    } else {
        0
    }
}

/// `s` without leading whitespace (`str::trim_start`).
pub open spec fn trim_start(s: Seq<char>) -> Seq<char> {
    s.skip(lead_ws(s) as int)
}

/// `s` without trailing whitespace (`str::trim_end`).
pub open spec fn trim_end(s: Seq<char>) -> Seq<char> {
    s.take(s.len() - trail_ws(s))
}

/// `s` without leading and trailing whitespace (`str::trim`).
pub open spec fn trim(s: Seq<char>) -> Seq<char> {
    trim_end(trim_start(s))
}

pub proof fn lemma_lead_ws_bound(s: Seq<char>)
    ensures
        lead_ws(s) <= s.len(),
        forall|j: int| 0 <= j < lead_ws(s) ==> is_ws(#[trigger] s[j]),
        lead_ws(s) < s.len() ==> !is_ws(s[lead_ws(s) as int]),
    decreases s.len(),
{
    if s.len() > 0 && is_ws(s[0]) {
        lemma_lead_ws_bound(s.drop_first());
        assert forall|j: int| 0 <= j < lead_ws(s) implies is_ws(#[trigger] s[j]) by {
            if j > 0 {
                assert(s[j] == s.drop_first()[j - 1]);
            }
        }
    }
}

pub proof fn lemma_trail_ws_bound(s: Seq<char>)
    ensures
        trail_ws(s) <= s.len(),
        forall|j: int| s.len() - trail_ws(s) <= j < s.len() ==> is_ws(#[trigger] s[j]),
        trail_ws(s) < s.len() ==> !is_ws(s[s.len() - trail_ws(s) - 1]),
    decreases s.len(),
{
    if s.len() > 0 && is_ws(s.last()) {
        lemma_trail_ws_bound(s.drop_last());
        assert forall|j: int| s.len() - trail_ws(s) <= j < s.len() implies is_ws(#[trigger] s[j]) by {
            if j < s.len() - 1 {
                assert(s[j] == s.drop_last()[j]);
            }
        }
    }
}

pub proof fn lemma_word_len_bound(s: Seq<char>)
    ensures
        word_len(s) <= s.len(),
        forall|j: int| 0 <= j < word_len(s) ==> !is_ws(#[trigger] s[j]),
        word_len(s) < s.len() ==> is_ws(s[word_len(s) as int]),
    decreases s.len(),
{
    if s.len() > 0 && !is_ws(s[0]) {
        lemma_word_len_bound(s.drop_first());
        assert forall|j: int| 0 <= j < word_len(s) implies !is_ws(#[trigger] s[j]) by {
            if j > 0 {
                assert(s[j] == s.drop_first()[j - 1]);
            }
        }
    }
}

/// Whitespace-separated words (`str::split_whitespace`).
pub open spec fn split_ws(s: Seq<char>) -> Seq<Seq<char>>
    decreases s.len(),
{
    let t = s.skip(lead_ws(s) as int);
    if lead_ws(s) >= s.len() {
        seq![]
    } else {
        let w = word_len(t);
        if w == 0 {
            seq![]
        } else {
            proof {
                lemma_lead_ws_bound(s);
                lemma_word_len_bound(t);
            }
            seq![t.take(w as int)] + split_ws(t.skip(w as int))
        }
    }
}

/// Index one past the leading whitespace of `v[from..]`.
fn skip_ws_from(v: &[char], from: usize) -> (i: usize)
    requires
        from <= v@.len(),
    ensures
        i == from + lead_ws(v@.skip(from as int)),
        i <= v@.len(),
{
    let mut i = from;
    proof {
        lemma_lead_ws_bound(v@.skip(from as int));
    }
    while i < v.len() && is_whitespace(v[i])
        invariant
            from <= i <= v@.len(),
            lead_ws(v@.skip(from as int)) == (i - from) + lead_ws(v@.skip(i as int)),
        decreases v.len() - i,
    {
        assert(v@.skip(i as int).drop_first() =~= v@.skip(i + 1));
        i = i + 1;
    }
    proof {
        if i < v.len() {
            assert(v@.skip(i as int)[0] == v@[i as int]);
        }
    }
    i
}

/// Index one past the leading non-whitespace run of `v[from..]`.
fn skip_word_from(v: &[char], from: usize) -> (i: usize)
    requires
        from <= v@.len(),
    ensures
        i == from + word_len(v@.skip(from as int)),
        i <= v@.len(),
{
    let mut i = from;
    while i < v.len() && !is_whitespace(v[i])
        invariant
            from <= i <= v@.len(),
            word_len(v@.skip(from as int)) == (i - from) + word_len(v@.skip(i as int)),
        decreases v.len() - i,
    {
        assert(v@.skip(i as int).drop_first() =~= v@.skip(i + 1));
        i = i + 1;
    }
    proof {
        if i < v.len() {
            assert(v@.skip(i as int)[0] == v@[i as int]);
        }
    }
    i
}

/// Index one past the last non-whitespace character of `v[..to]`.
fn trim_end_to(v: &[char], to: usize) -> (j: usize)
    requires
        to <= v@.len(),
    ensures
        j == to - trail_ws(v@.take(to as int)),
{
    let mut j = to;
    while j > 0 && is_whitespace(v[j - 1])
        invariant
            0 <= j <= to <= v@.len(),
            trail_ws(v@.take(to as int)) == (to - j) + trail_ws(v@.take(j as int)),
        decreases j,
    {
        assert(v@.take(j as int).drop_last() =~= v@.take(j - 1));
        assert(v@.take(j as int).last() == v@[j - 1]);
        j = j - 1;
    }
    proof {
        if j > 0 {
            assert(v@.take(j as int).last() == v@[j - 1]);
        }
    }
    j
}

/// Bounds `(lo, hi)` such that `v[lo..hi]` is `v` trimmed of whitespace.
pub fn trim_bounds(v: &[char]) -> (r: (usize, usize))
    ensures
        r.0 <= r.1 <= v@.len(),
        v@.subrange(r.0 as int, r.1 as int) == trim(v@),
{
    let lo = skip_ws_from(v, 0);
    assert(v@.skip(0) =~= v@);
    let hi = trim_end_to(v, v.len());
    proof {
        assert(v@.take(v@.len() as int) =~= v@);
        lemma_lead_ws_bound(v@);
        lemma_trail_ws_bound(v@);
        let t = v@.skip(lo as int);
        lemma_trail_ws_bound(t);
        // trailing whitespace of the trimmed-start sequence
        if lo < v@.len() {
            lemma_trail_ws_same(v@, lo as int);
        } else {
            assert(t.len() == 0);
        }
    }
    if hi < lo {
        proof {
            lemma_all_ws_trims_empty(v@, lo as int, hi as int);
        }
        return (lo, lo);
    }
    proof {
        lemma_trim_matches(v@, lo as int, hi as int);
    }
    (lo, hi)
}

/// Trimming is idempotent.
pub proof fn lemma_trim_idempotent(s: Seq<char>)
    ensures
        trim(trim(s)) == trim(s),
{
    let a = trim_start(s);
    let u = trim(s);
    lemma_lead_ws_bound(s);
    lemma_trail_ws_bound(a);
    if u.len() == 0 {
        assert(trim(u) =~= u);
    } else {
        assert(u[0] == a[0]);
        assert(a[0] == s[lead_ws(s) as int]);
        assert(u.last() == a[a.len() - trail_ws(a) - 1]);
        assert(lead_ws(u) == 0);
        assert(trail_ws(u) == 0);
        assert(trim(u) =~= u);
    }
}

proof fn lemma_trail_ws_same(s: Seq<char>, lo: int)
    requires
        0 <= lo < s.len(),
        lo == lead_ws(s),
    ensures
        trail_ws(s.skip(lo)) == trail_ws(s),
{
    lemma_lead_ws_bound(s);
    lemma_trail_suffix(s, lo);
}

proof fn lemma_trail_suffix(s: Seq<char>, lo: int)
    requires
        0 <= lo < s.len(),
        !is_ws(s[lo]),
    ensures
        trail_ws(s.skip(lo)) == trail_ws(s),
    decreases s.len(),
{
    if s.len() > 0 && is_ws(s.last()) {
        assert(s.len() - 1 > lo);
        assert(s.skip(lo).drop_last() =~= s.drop_last().skip(lo));
        assert(s.skip(lo).last() == s.last());
        lemma_trail_suffix(s.drop_last(), lo);
    } else {
        assert(s.skip(lo).last() == s.last());
    }
}

proof fn lemma_all_ws_trims_empty(s: Seq<char>, lo: int, hi: int)
    requires
        lo == lead_ws(s),
        hi == s.len() - trail_ws(s),
        hi < lo,
    ensures
        trim(s) == s.subrange(lo, lo),
{
    lemma_lead_ws_bound(s);
    lemma_trail_ws_bound(s);
    let t = s.skip(lo);
    if lo < s.len() {
        assert(!is_ws(s[lo]));
        assert(is_ws(s[lo]));
    }
    assert(t.len() == 0);
    assert(trail_ws(t) == 0);
    assert(trim(s) =~= s.subrange(lo, lo));
}

proof fn lemma_trim_matches(s: Seq<char>, lo: int, hi: int)
    requires
        lo == lead_ws(s),
        hi == s.len() - trail_ws(s),
        lo <= hi,
        lo < s.len() ==> trail_ws(s.skip(lo)) == trail_ws(s),
    ensures
        trim(s) == s.subrange(lo, hi),
{
    lemma_lead_ws_bound(s);
    lemma_trail_ws_bound(s);
    if lo == s.len() {
        assert(trim(s) =~= s.subrange(lo, hi));
    } else {
        assert(trim(s) =~= s.subrange(lo, hi));
    }
}


/// `v` split on whitespace, empty pieces dropped (`str::split_whitespace`).
pub fn split_whitespace(v: &[char]) -> (r: Vec<Vec<char>>)
    ensures
        r@.map_values(|w: Vec<char>| w@) == split_ws(v@),
{
    let mut r: Vec<Vec<char>> = Vec::new();
    let mut i: usize = 0;
    assert(v@.skip(0) =~= v@);
    loop
        invariant
            i <= v@.len(),
            split_ws(v@) == r@.map_values(|w: Vec<char>| w@) + split_ws(v@.skip(i as int)),
        decreases v@.len() - i,
    {
        let ghost rest = v@.skip(i as int);
        let a = skip_ws_from(v, i);
        proof {
            lemma_lead_ws_bound(rest);
        }
        if a >= v.len() {
            assert(split_ws(rest) == Seq::<Seq<char>>::empty());
            assert(r@.map_values(|w: Vec<char>| w@) + Seq::<Seq<char>>::empty() =~= r@.map_values(|w: Vec<char>| w@));
            return r;
        }
        let b = skip_word_from(v, a);
        proof {
            let t = rest.skip(lead_ws(rest) as int);
            assert(t =~= v@.skip(a as int));
            assert(t[0] == v@[a as int]);
            lemma_word_len_bound(t);
            assert(t.take(word_len(t) as int) =~= v@.subrange(a as int, b as int));
            assert(t.skip(word_len(t) as int) =~= v@.skip(b as int));
        }
        let w = copy_range(v, a, b);
        let ghost before = r@.map_values(|w: Vec<char>| w@);
        r.push(w);
        assert(r@.map_values(|w: Vec<char>| w@) =~= before.push(v@.subrange(a as int, b as int)));
        assert(before + split_ws(rest) =~= r@.map_values(|w: Vec<char>| w@) + split_ws(v@.skip(b as int)));
        i = b;
    }
}

// ---------------------------------------------------------------------------
// Lines
// ---------------------------------------------------------------------------

/// Index of the first `'\n'` in `s`, or `s.len()` when there is none.
pub open spec fn nl_index(s: Seq<char>) -> nat
    decreases s.len(),
{
    if s.len() == 0 {
        0
    } else if s[0] == '\n' {
        0
    } else {
        1 + nl_index(s.drop_first())
    }
}

/// `l` without one trailing `'\r'`.
pub open spec fn strip_cr(l: Seq<char>) -> Seq<char> {
    if l.len() > 0 && l.last() == '\r' {
        l.drop_last()
    } else {
        l
    }
}

pub proof fn lemma_nl_index(s: Seq<char>)
    ensures
        nl_index(s) <= s.len(),
        forall|j: int| 0 <= j < nl_index(s) ==> #[trigger] s[j] != '\n',
        nl_index(s) < s.len() ==> s[nl_index(s) as int] == '\n',
    decreases s.len(),
{
    if s.len() > 0 && s[0] != '\n' {
        lemma_nl_index(s.drop_first());
        assert forall|j: int| 0 <= j < nl_index(s) implies #[trigger] s[j] != '\n' by {
            if j > 0 {
                assert(s[j] == s.drop_first()[j - 1]);
            }
        }
    }
}

/// The lines of `s` (`str::lines`): split at `'\n'`, each line without a
/// trailing `'\r'` that preceded the `'\n'`, no empty line after a final `'\n'`.
pub open spec fn lines(s: Seq<char>) -> Seq<Seq<char>>
    decreases s.len(),
{
    if s.len() == 0 {
        seq![]
    } else {
        let k = nl_index(s);
        if k >= s.len() {
            seq![s]
        } else {
            proof {
                lemma_nl_index(s);
            }
            seq![strip_cr(s.take(k as int))] + lines(s.skip(k + 1 as int))
        }
    }
}

fn find_nl_from(v: &[char], from: usize) -> (i: usize)
    requires
        from <= v@.len(),
    ensures
        i == from + nl_index(v@.skip(from as int)),
        i <= v@.len(),
{
    let mut i = from;
    proof {
        lemma_nl_index(v@.skip(from as int));
    }
    while i < v.len() && v[i] != '\n'
        invariant
            from <= i <= v@.len(),
            nl_index(v@.skip(from as int)) == (i - from) + nl_index(v@.skip(i as int)),
        decreases v.len() - i,
    {
        assert(v@.skip(i as int).drop_first() =~= v@.skip(i + 1));
        i = i + 1;
    }
    proof {
        if i < v.len() {
            assert(v@.skip(i as int)[0] == v@[i as int]);
        }
    }
    i
}

/// The lines of `v` (`str::lines`).
pub fn lines_of(v: &[char]) -> (r: Vec<Vec<char>>)
    ensures
        r@.map_values(|w: Vec<char>| w@) == lines(v@),
{
    let mut r: Vec<Vec<char>> = Vec::new();
    let mut i: usize = 0;
    assert(v@.skip(0) =~= v@);
    while i < v.len()
        invariant
            i <= v@.len(),
            lines(v@) == r@.map_values(|w: Vec<char>| w@) + lines(v@.skip(i as int)),
        decreases v@.len() - i,
    {
        let ghost rest = v@.skip(i as int);
        let k = find_nl_from(v, i);
        proof {
            lemma_nl_index(rest);
        }
        let ghost before = r@.map_values(|w: Vec<char>| w@);
        if k >= v.len() {
            let w = copy_range(v, i, v.len());
            assert(v@.subrange(i as int, v@.len() as int) =~= rest);
            r.push(w);
            assert(r@.map_values(|w: Vec<char>| w@) =~= before.push(rest));
            assert(lines(rest) == seq![rest]);
            assert(v@.skip(v@.len() as int) =~= Seq::<char>::empty());
            assert(lines(v@.skip(v@.len() as int)) == Seq::<Seq<char>>::empty());
            assert(before + lines(rest) =~= r@.map_values(|w: Vec<char>| w@) + lines(v@.skip(v@.len() as int)));
            i = v.len();
        } else {
            let mut hi = k;
            if k > i && v[k - 1] == '\r' {
                hi = k - 1;
            }
            let w = copy_range(v, i, hi);
            assert(rest.take((k - i) as int) =~= v@.subrange(i as int, k as int));
            assert(strip_cr(rest.take((k - i) as int)) =~= v@.subrange(i as int, hi as int));
            assert(rest.skip((k - i) + 1) =~= v@.skip(k + 1));
            r.push(w);
            assert(r@.map_values(|w: Vec<char>| w@) =~= before.push(v@.subrange(i as int, hi as int)));
            assert(before + lines(rest) =~= r@.map_values(|w: Vec<char>| w@) + lines(v@.skip(k + 1)));
            i = k + 1;
        }
    }
    assert(v@.skip(i as int) =~= Seq::<char>::empty());
    assert(r@.map_values(|w: Vec<char>| w@) + Seq::<Seq<char>>::empty() =~= r@.map_values(|w: Vec<char>| w@));
    r
}

// ---------------------------------------------------------------------------
// Decimal numbers
// ---------------------------------------------------------------------------

/// The ASCII digit for `d` (meaningful for `d < 10`).
pub open spec fn digit_char(d: nat) -> char {
    ((d + 48) as u8) as char
}

/// The decimal rendering of `n`, without sign or leading zeros.
pub open spec fn decimal(n: nat) -> Seq<char>
    decreases n,
{
    if n < 10 {
        seq![digit_char(n)]
    } else {
        decimal(n / 10).push(digit_char(n % 10))
    }
}

fn digit(d: u64) -> (c: char)
    requires
        d < 10,
    ensures
        c == digit_char(d as nat),
{
    let code: u8 = (d as u8) + 48;
    code as char
}

/// Appends the decimal rendering of `n` to `s`.
pub fn push_decimal(s: &mut String, n: u64)
    ensures
        final(s)@ == old(s)@ + decimal(n as nat),
    decreases n,
{
    if n < 10 {
        push_char(s, digit(n));
        assert(old(s)@.push(digit_char(n as nat)) =~= old(s)@ + decimal(n as nat));
    } else {
        push_decimal(s, n / 10);
        push_char(s, digit(n % 10));
        assert(old(s)@ + decimal((n / 10) as nat) + seq![digit_char((n % 10) as nat)] =~= old(s)@
            + decimal(n as nat));
    }
}

/// Whether `c` is an ASCII decimal digit.
pub open spec fn is_digit(c: char) -> bool {
    '0' <= c && c <= '9'
}

/// The value of the ASCII digit `c`.
pub open spec fn digit_val(c: char) -> nat {
    (c as int - '0' as int) as nat
}

/// The value of a string of decimal digits (0 for the empty string).
pub open spec fn dec_value(d: Seq<char>) -> nat
    decreases d.len(),
{
    if d.len() == 0 {
        0
    } else {
        dec_value(d.drop_last()) * 10 + digit_val(d.last())
    }
}

/// Whether every character of `d` is an ASCII digit.
pub open spec fn all_digits(d: Seq<char>) -> bool {
    forall|i: int| 0 <= i < d.len() ==> is_digit(#[trigger] d[i])
}

/// The digit part that `u64::from_str` reads: the text after one optional `'+'`.
pub open spec fn unsigned_digits(s: Seq<char>) -> Seq<char> {
    if s.len() > 0 && s[0] == '+' {
        s.drop_first()
    } else {
        s
    }
}

/// What `str::parse::<u64>` gives for `s`: an optional `'+'` followed by at
/// least one ASCII digit, with a value that fits in `u64`.
pub open spec fn parse_u64_spec(s: Seq<char>) -> Option<u64> {
    let d = unsigned_digits(s);
    if d.len() > 0 && all_digits(d) && dec_value(d) <= u64::MAX {
        Some(dec_value(d) as u64)
    } else {
        None
    }
}

proof fn lemma_dec_value_prefix(d: Seq<char>, j: int)
    requires
        0 <= j <= d.len(),
    ensures
        dec_value(d.take(j)) <= dec_value(d),
    decreases d.len() - j,
{
    if j < d.len() {
        assert(d.drop_last().take(j) =~= d.take(j));
        lemma_dec_value_prefix(d.drop_last(), j);
    } else {
        assert(d.take(j) =~= d);
    }
}

/// Parses `v` as `str::parse::<u64>` does.
pub fn parse_u64(v: &[char]) -> (r: Option<u64>)
    ensures
        r == parse_u64_spec(v@),
{
    let mut start: usize = 0;
    if v.len() > 0 && v[0] == '+' {
        start = 1;
    }
    let ghost d = unsigned_digits(v@);
    assert(d =~= v@.skip(start as int));
    if start >= v.len() {
        return None;
    }
    let mut acc: u64 = 0;
    let mut i: usize = start;
    let mut overflow = false;
    while i < v.len()
        invariant
            start <= i <= v@.len(),
            d =~= v@.skip(start as int),
            d == unsigned_digits(v@),
            forall|j: int| 0 <= j < i - start ==> is_digit(#[trigger] d[j]),
            !overflow ==> acc == dec_value(d.take(i - start)),
            overflow ==> dec_value(d.take(i - start)) > u64::MAX,
        decreases v.len() - i,
    {
        let c = v[i];
        assert(d[i - start] == v@[i as int]);
        if !('0' <= c && c <= '9') {
            assert(!is_digit(d[i - start]));
            assert(!all_digits(d));
            assert(unsigned_digits(v@) == d);
            assert(parse_u64_spec(v@) == None::<u64>);
            return None;
        }
        let dv: u64 = (c as u64) - 48;
        proof {
            assert(d[i - start] == c);
            assert(d.take(i - start + 1).drop_last() =~= d.take(i - start));
            assert(d.take(i - start + 1).last() == c);
            assert(dec_value(d.take(i - start + 1)) == dec_value(d.take(i - start)) * 10 + digit_val(c));
        }
        if !overflow {
            match acc.checked_mul(10) {
                Some(m) => match m.checked_add(dv) {
                    Some(n) => {
                        acc = n;
                    },
                    None => {
                        overflow = true;
                    },
                },
                None => {
                    overflow = true;
                },
            }
        } else {
            proof {
                assert(dec_value(d.take(i - start + 1)) >= dec_value(d.take(i - start)));
            }
        }
        i = i + 1;
    }
    assert(d.take(i - start) =~= d);
    if overflow {
        None
    } else {
        Some(acc)
    }
}

} // verus!
