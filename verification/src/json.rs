//! A JSON value type for the library's logic, and the calls into
//! `serde_json` that serialize and parse it.

use vstd::prelude::*;
use crate::text::{chars_eq, chars_of, dec_value, digit_val, is_digit, all_digits};

verus! {

/// A JSON number as `serde_json` holds it.
#[derive(Debug, PartialEq)]
pub enum JsonNumber {
    /// A non-negative integer.
    PosInt(u64),
    /// A negative integer.
    NegInt(i64),
    /// A finite floating-point number, held as the text `serde_json` renders
    /// it with (digits, an optional `.` fraction and an optional exponent).
    Float(String),
}

/// A JSON value. Object entries keep the order they are iterated in (for
/// `serde_json` maps: sorted by key); keys are expected to be distinct.
#[derive(Debug, PartialEq)]
pub enum Json {
    Null,
    Bool(bool),
    Number(JsonNumber),
    String(String),
    Array(Vec<Json>),
    Object(Vec<(String, Json)>),
}

/// The value of the first entry of `entries` whose key is `key`.
pub open spec fn obj_get(entries: Seq<(String, Json)>, key: Seq<char>) -> Option<Json>
    decreases entries.len(),
{
    if entries.len() == 0 {
        None
    } else if entries[0].0@ == key {
        Some(entries[0].1)
    } else {
        obj_get(entries.drop_first(), key)
    }
}

/// Whether two string slices hold the same characters.
pub fn str_eq(a: &str, b: &str) -> (r: bool)
    ensures
        r == (a@ == b@),
{
    let av = chars_of(a);
    let bv = chars_of(b);
    chars_eq(&av, &bv)
}

/// The text of a JSON string value.
pub open spec fn str_value(j: Json) -> Option<Seq<char>> {
    match j {
        Json::String(s) => Some(s@),
        _ => None,
    }
}

/// The entries of a JSON object (empty for anything else).
pub open spec fn entries(j: Json) -> Seq<(String, Json)> {
    match j {
        Json::Object(es) => es@,
        _ => seq![],
    }
}

impl Json {
    /// The member `key` of an object (`Value::get` with a string key).
    pub open spec fn member(self, key: Seq<char>) -> Option<Json> {
        match self {
            Json::Object(entries) => obj_get(entries@, key),
            _ => None,
        }
    }

    /// The member `key` of an object, if this is an object that has one.
    pub fn get(&self, key: &str) -> (r: Option<&Json>)
        ensures
            match r {
                Some(v) => self.member(key@) == Some(*v),
                None => self.member(key@) is None,
            },
    {
        match self {
            Json::Object(entries) => {
                let mut i: usize = 0;
                assert(entries@.skip(0) =~= entries@);
                while i < entries.len()
                    invariant
                        i <= entries@.len(),
                        self.member(key@) == obj_get(entries@, key@),
                        obj_get(entries@, key@) == obj_get(entries@.skip(i as int), key@),
                    decreases entries.len() - i,
                {
                    assert(entries@.skip(i as int)[0] == entries@[i as int]);
                    if str_eq(entries[i].0.as_str(), key) {
                        assert(obj_get(entries@.skip(i as int), key@) == Some(entries@[i as int].1));
                        return Some(&entries[i].1);
                    }
                    assert(entries@.skip(i as int).drop_first() =~= entries@.skip(i + 1));
                    i = i + 1;
                }
                None
            },
            _ => None,
        }
    }

    /// The text of a JSON string (`Value::as_str`).
    pub fn as_str(&self) -> (r: Option<&str>)
        ensures
            match *self {
                Json::String(s) => r matches Some(t) && t@ == s@,
                _ => r is None,
            },
    {
        match self {
            Json::String(s) => Some(s.as_str()),
            _ => None,
        }
    }

    /// The value of a JSON boolean (`Value::as_bool`).
    pub fn as_bool(&self) -> (r: Option<bool>)
        ensures
            match *self {
                Json::Bool(b) => r == Some(b),
                _ => r is None,
            },
    {
        match self {
            Json::Bool(b) => Some(*b),
            _ => None,
        }
    }
}

// ---------------------------------------------------------------------------
// Whole-valued floating-point texts
// ---------------------------------------------------------------------------

/// Index of the first `a` or `b` in `s`, or `s.len()` when there is none.
pub open spec fn first_index_of(s: Seq<char>, a: char, b: char) -> nat
    decreases s.len(),
{
    if s.len() == 0 {
        0
    } else if s[0] == a || s[0] == b {
        0
    } else {
        1 + first_index_of(s.drop_first(), a, b)
    }
}

proof fn lemma_first_index_of(s: Seq<char>, a: char, b: char)
    ensures
        first_index_of(s, a, b) <= s.len(),
        first_index_of(s, a, b) < s.len() ==> (s[first_index_of(s, a, b) as int] == a
            || s[first_index_of(s, a, b) as int] == b),
    decreases s.len(),
{
    if s.len() > 0 && !(s[0] == a || s[0] == b) {
        lemma_first_index_of(s.drop_first(), a, b);
    }
}

/// Number of trailing `'0'` characters.
pub open spec fn trailing_zeros(d: Seq<char>) -> nat
    decreases d.len(),
{
    if d.len() > 0 && d.last() == '0' {
        1 + trailing_zeros(d.drop_last())
    } else {
        0
    }
}

/// Sign and magnitude of an exponent text (optional sign, then digits);
/// a malformed exponent counts as zero.
pub open spec fn exponent_of(s: Seq<char>) -> (bool, nat) {
    let neg = s.len() > 0 && s[0] == '-';
    let digits = if s.len() > 0 && (s[0] == '-' || s[0] == '+') {
        s.drop_first()
    } else {
        s
    };
    if all_digits(digits) {
        (neg, dec_value(digits))
    } else {
        (false, 0)
    }
}

/// The text before the exponent marker.
pub open spec fn mantissa_of(b: Seq<char>) -> Seq<char> {
    b.take(first_index_of(b, 'e', 'E') as int)
}

/// The integer digits of a mantissa.
pub open spec fn int_part(m: Seq<char>) -> Seq<char> {
    m.take(first_index_of(m, '.', '.') as int)
}

/// The fraction digits of a mantissa (empty when there is no `.`).
pub open spec fn frac_part(m: Seq<char>) -> Seq<char> {
    let p = first_index_of(m, '.', '.');
    if p < m.len() {
        m.skip((p + 1) as int)
    } else {
        seq![]
    }
}

/// The exponent of an unsigned number text (zero when there is none).
pub open spec fn exp_of(b: Seq<char>) -> (bool, nat) {
    let k = first_index_of(b, 'e', 'E');
    if k < b.len() {
        exponent_of(b.skip((k + 1) as int))
    } else {
        (false, 0nat)
    }
}

/// Whether digits `d`, of which the last `fp_len` are fraction digits, scaled
/// by the exponent `ex`, denote a whole number.
pub open spec fn whole_from(d: Seq<char>, fp_len: nat, ex: (bool, nat)) -> bool {
    let tz = trailing_zeros(d);
    tz == d.len() || (!ex.0 && tz + ex.1 >= fp_len) || (ex.0 && tz >= fp_len + ex.1)
}

/// Whether the decimal text `t` (`[-]digits[.digits][(e|E)[+|-]digits]`)
/// denotes a whole number: the fraction digits that the exponent does not
/// shift into the integer part are all zero.
pub open spec fn float_text_is_whole(t: Seq<char>) -> bool {
    let b = if t.len() > 0 && t[0] == '-' {
        t.drop_first()
    } else {
        t
    };
    let m = mantissa_of(b);
    whole_from(int_part(m) + frac_part(m), frac_part(m).len(), exp_of(b))
}

fn first_index_from(v: &[char], from: usize, a: char, b: char) -> (i: usize)
    requires
        from <= v@.len(),
    ensures
        i == from + first_index_of(v@.skip(from as int), a, b),
        i <= v@.len(),
{
    let mut i = from;
    proof {
        lemma_first_index_of(v@.skip(from as int), a, b);
    }
    while i < v.len() && !(v[i] == a || v[i] == b)
        invariant
            from <= i <= v@.len(),
            first_index_of(v@.skip(from as int), a, b) == (i - from) + first_index_of(
                v@.skip(i as int),
                a,
                b,
            ),
        decreases v.len() - i,
    {
        assert(v@.skip(i as int).drop_first() =~= v@.skip(i + 1));
        i = i + 1;
    }
    proof {
        if i < v.len() {
            assert(v@.skip(i as int)[0] == v@[i as int]);
        }
    }
    i
}

/// Trailing zeros of `v[lo..hi]`.
fn trailing_zeros_of(v: &[char], lo: usize, hi: usize) -> (n: usize)
    requires
        lo <= hi <= v@.len(),
    ensures
        n == trailing_zeros(v@.subrange(lo as int, hi as int)),
        n <= hi - lo,
{
    let mut j = hi;
    while j > lo && v[j - 1] == '0'
        invariant
            lo <= j <= hi <= v@.len(),
            trailing_zeros(v@.subrange(lo as int, hi as int)) == (hi - j) + trailing_zeros(
                v@.subrange(lo as int, j as int),
            ),
        decreases j,
    {
        assert(v@.subrange(lo as int, j as int).drop_last() =~= v@.subrange(lo as int, j - 1));
        j = j - 1;
    }
    proof {
        if j > lo {
            assert(v@.subrange(lo as int, j as int).last() == v@[j - 1]);
        }
    }
    hi - j
}

/// The value of the digit string `v[lo..]`, capped at 2^64.
fn capped_value(v: &[char], lo: usize) -> (r: (bool, u128))
    requires
        lo <= v@.len(),
    ensures
        r.0 == all_digits(v@.skip(lo as int)),
        r.0 ==> r.1 == if dec_value(v@.skip(lo as int)) < 0x1_0000_0000_0000_0000 {
            dec_value(v@.skip(lo as int))
        } else {
            0x1_0000_0000_0000_0000
        },
{
    let cap: u128 = 0x1_0000_0000_0000_0000;
    let mut acc: u128 = 0;
    let mut i = lo;
    let ghost d = v@.skip(lo as int);
    while i < v.len()
        invariant
            lo <= i <= v@.len(),
            d == v@.skip(lo as int),
            forall|j: int| 0 <= j < i - lo ==> is_digit(#[trigger] d[j]),
            cap == 0x1_0000_0000_0000_0000u128,
            acc <= cap,
            acc == if dec_value(d.take(i - lo)) < cap {
                dec_value(d.take(i - lo))
            } else {
                cap as nat
            },
        decreases v.len() - i,
    {
        let c = v[i];
        assert(d[i - lo] == c);
        if !('0' <= c && c <= '9') {
            assert(!all_digits(d));
            return (false, 0);
        }
        let dv: u128 = (c as u128) - 48;
        assert(dv <= 9);
        proof {
            assert(d.take(i - lo + 1).drop_last() =~= d.take(i - lo));
            assert(d.take(i - lo + 1).last() == c);
            assert(dec_value(d.take(i - lo + 1)) == dec_value(d.take(i - lo)) * 10 + digit_val(c));
        }
        if acc >= cap {
            acc = cap;
        } else {
            let next = acc * 10 + dv;
            acc = if next >= cap {
                cap
            } else {
                next
            };
        }
        i = i + 1;
    }
    assert(d.take(i - lo) =~= d);
    (true, acc)
}

/// Bounds of the mantissa `v[lo..k]` and of its integer part `v[lo..p]`.
fn mantissa_bounds(v: &[char], lo: usize) -> (r: (usize, usize))
    requires
        lo <= v@.len(),
    ensures
        lo <= r.1 <= r.0 <= v@.len(),
        v@.subrange(lo as int, r.0 as int) == mantissa_of(v@.skip(lo as int)),
        v@.subrange(lo as int, r.1 as int) == int_part(mantissa_of(v@.skip(lo as int))),
        r.1 < r.0 ==> v@.subrange(r.1 + 1, r.0 as int) == frac_part(mantissa_of(v@.skip(lo as int))),
        r.1 == r.0 ==> frac_part(mantissa_of(v@.skip(lo as int))).len() == 0,
        exp_of(v@.skip(lo as int)) == if r.0 < v@.len() {
            exponent_of(v@.skip(r.0 + 1))
        } else {
            (false, 0nat)
        },
{
    let ghost b = v@.skip(lo as int);
    let k = first_index_from(v, lo, 'e', 'E');
    let p0 = first_index_from(v, lo, '.', '.');
    let p = if p0 > k {
        k
    } else {
        p0
    };
    proof {
        lemma_first_index_of(b, 'e', 'E');
        lemma_first_index_of(b, '.', '.');
        let m = mantissa_of(b);
        assert(m =~= v@.subrange(lo as int, k as int));
        lemma_first_index_prefix(b, (k - lo) as int, '.', '.');
        assert(first_index_of(m, '.', '.') == p - lo);
        lemma_first_index_of(m, '.', '.');
        assert(int_part(m) =~= v@.subrange(lo as int, p as int));
        if p < k {
            assert(frac_part(m) =~= v@.subrange(p + 1, k as int));
        }
        if k < v@.len() {
            assert(b.skip((k - lo + 1) as int) =~= v@.skip(k + 1));
        }
    }
    (k, p)
}

/// Trailing zeros and length of the digits `v[lo..p] ++ v[p+1..k]` (the
/// second part only when `p < k`).
fn digits_trailing_zeros(v: &[char], lo: usize, p: usize, k: usize) -> (r: (usize, usize))
    requires
        lo <= p <= k <= v@.len(),
    ensures
        ({
            let fp = if p < k {
                v@.subrange(p + 1, k as int)
            } else {
                Seq::<char>::empty()
            };
            let d = v@.subrange(lo as int, p as int) + fp;
            r.0 == trailing_zeros(d) && r.1 == d.len()
        }),
{
    let ghost ip = v@.subrange(lo as int, p as int);
    let ghost fp = if p < k {
        v@.subrange(p + 1, k as int)
    } else {
        Seq::<char>::empty()
    };
    let frac_len: usize = if p < k {
        k - p - 1
    } else {
        0
    };
    let tz_frac: usize = if p < k {
        trailing_zeros_of(v, p + 1, k)
    } else {
        0
    };
    let tz_int = trailing_zeros_of(v, lo, p);
    proof {
        lemma_trailing_zeros_concat(ip, fp);
    }
    let tz: usize = if tz_frac == frac_len {
        tz_frac + tz_int
    } else {
        tz_frac
    };
    (tz, (p - lo) + frac_len)
}

/// Sign and capped magnitude of the exponent text `v[lo..]`, and whether it
/// is well formed.
fn exponent_parts(v: &[char], lo: usize) -> (r: (bool, bool, u128))
    requires
        lo <= v@.len(),
    ensures
        r.0 ==> exponent_of(v@.skip(lo as int)) == (r.1, if r.2 < 0x1_0000_0000_0000_0000 {
            r.2 as nat
        } else {
            exponent_of(v@.skip(lo as int)).1
        }),
        r.0 ==> (r.2 == 0x1_0000_0000_0000_0000 <==> exponent_of(v@.skip(lo as int)).1
            >= 0x1_0000_0000_0000_0000),
        r.0 ==> r.2 <= 0x1_0000_0000_0000_0000,
        !r.0 ==> exponent_of(v@.skip(lo as int)) == (false, 0nat),
{
    let mut elo = lo;
    let neg = elo < v.len() && v[elo] == '-';
    if elo < v.len() && (v[elo] == '-' || v[elo] == '+') {
        elo = elo + 1;
    }
    let ghost es = v@.skip(lo as int);
    assert(if es.len() > 0 && (es[0] == '-' || es[0] == '+') {
        es.drop_first()
    } else {
        es
    } =~= v@.skip(elo as int));
    let (ok, e) = capped_value(v, elo);
    (ok, neg, e)
}

/// Whether the decimal text `t` denotes a whole number.
pub fn float_text_whole(t: &str) -> (r: bool)
    ensures
        r == float_text_is_whole(t@),
{
    let v = chars_of(t);
    let start: usize = if v.len() > 0 && v[0] == '-' {
        1
    } else {
        0
    };
    let ghost b = if v@.len() > 0 && v@[0] == '-' {
        v@.drop_first()
    } else {
        v@
    };
    assert(b =~= v@.skip(start as int));
    let (k, p) = mantissa_bounds(&v, start);
    let frac_len: usize = if p < k {
        k - p - 1
    } else {
        0
    };
    let (tz, dlen) = digits_trailing_zeros(&v, start, p, k);
    proof {
        let m = mantissa_of(b);
        if p == k {
            assert(frac_part(m) =~= Seq::<char>::empty());
        }
        assert(int_part(m) + frac_part(m) =~= v@.subrange(start as int, p as int) + if p < k {
            v@.subrange(p + 1, k as int)
        } else {
            Seq::<char>::empty()
        });
        assert(frac_part(m).len() == frac_len);
    }
    if tz == dlen {
        return true;
    }
    if k >= v.len() {
        return tz >= frac_len;
    }
    let (ok, neg, e) = exponent_parts(&v, k + 1);
    if !ok {
        return tz >= frac_len;
    }
    if !neg {
        (tz as u128) + e >= (frac_len as u128)
    } else {
        (tz as u128) >= (frac_len as u128) + e
    }
}

proof fn lemma_first_index_prefix(s: Seq<char>, k: int, a: char, b: char)
    requires
        0 <= k <= s.len(),
    ensures
        first_index_of(s.take(k), a, b) == if first_index_of(s, a, b) < k {
            first_index_of(s, a, b)
        } else {
            k as nat
        },
    decreases s.len(),
{
    if s.len() > 0 && k > 0 {
        assert(s.take(k)[0] == s[0]);
        if !(s[0] == a || s[0] == b) {
            assert(s.take(k).drop_first() =~= s.drop_first().take(k - 1));
            lemma_first_index_prefix(s.drop_first(), k - 1, a, b);
        }
    } else if k == 0 {
        assert(s.take(k).len() == 0);
    }
}

proof fn lemma_trailing_zeros_concat(a: Seq<char>, b: Seq<char>)
    ensures
        trailing_zeros(a + b) == if trailing_zeros(b) == b.len() {
            trailing_zeros(b) + trailing_zeros(a)
        } else {
            trailing_zeros(b)
        },
    decreases b.len(),
{
    if b.len() == 0 {
        assert(a + b =~= a);
    } else {
        assert((a + b).drop_last() =~= a + b.drop_last());
        assert((a + b).last() == b.last());
        lemma_trailing_zeros_concat(a, b.drop_last());
    }
}

// ---------------------------------------------------------------------------
// Copies
// ---------------------------------------------------------------------------

/// Whether two numbers are the same number.
pub open spec fn number_same(a: JsonNumber, b: JsonNumber) -> bool {
    match (a, b) {
        (JsonNumber::PosInt(x), JsonNumber::PosInt(y)) => x == y,
        (JsonNumber::NegInt(x), JsonNumber::NegInt(y)) => x == y,
        (JsonNumber::Float(x), JsonNumber::Float(y)) => x@ == y@,
        _ => false,
    }
}

/// Whether two values are the same JSON value, node by node (strings by
/// their characters).
pub open spec fn json_same(a: Json, b: Json) -> bool
    decreases a,
{
    match (a, b) {
        (Json::Null, Json::Null) => true,
        (Json::Bool(x), Json::Bool(y)) => x == y,
        (Json::Number(x), Json::Number(y)) => number_same(x, y),
        (Json::String(x), Json::String(y)) => x@ == y@,
        (Json::Array(xs), Json::Array(ys)) => {
            &&& xs@.len() == ys@.len()
            &&& forall|i: int| 0 <= i < xs@.len() ==> json_same(#[trigger] xs@[i], ys@[i])
        },
        (Json::Object(xs), Json::Object(ys)) => {
            &&& xs@.len() == ys@.len()
            &&& forall|i: int|
                0 <= i < xs@.len() ==> (#[trigger] xs@[i]).0@ == ys@[i].0@ && json_same(xs@[i].1, ys@[i].1)
        },
        _ => false,
    }
}

fn copy_number(n: &JsonNumber) -> (r: JsonNumber)
    ensures
        number_same(r, *n),
{
    match n {
        JsonNumber::PosInt(x) => JsonNumber::PosInt(*x),
        JsonNumber::NegInt(x) => JsonNumber::NegInt(*x),
        JsonNumber::Float(t) => JsonNumber::Float(t.clone()),
    }
}

/// A copy of a JSON value.
pub fn copy_json(j: &Json) -> (r: Json)
    ensures
        json_same(r, *j),
    decreases j,
{
    match j {
        Json::Null => Json::Null,
        Json::Bool(b) => Json::Bool(*b),
        Json::Number(n) => Json::Number(copy_number(n)),
        Json::String(s) => Json::String(s.clone()),
        Json::Array(xs) => {
            let mut out: Vec<Json> = Vec::new();
            let mut i: usize = 0;
            while i < xs.len()
                invariant
                    i <= xs@.len(),
                    out@.len() == i,
                    forall|k: int| 0 <= k < i ==> json_same(#[trigger] out@[k], xs@[k]),
                    *j == Json::Array(*xs),
                decreases xs.len() - i,
            {
                proof {
                    assert(decreases_to!(*j => (*j)->Array_0));
                    assert(decreases_to!(*xs => xs@));
                    assert(decreases_to!(xs@ => xs@[i as int]));
                }
                let c = copy_json(&xs[i]);
                out.push(c);
                i = i + 1;
            }
            Json::Array(out)
        },
        Json::Object(xs) => {
            let mut out: Vec<(String, Json)> = Vec::new();
            let mut i: usize = 0;
            while i < xs.len()
                invariant
                    i <= xs@.len(),
                    out@.len() == i,
                    forall|k: int| 0 <= k < i ==> (#[trigger] out@[k]).0@ == xs@[k].0@ && json_same(out@[k].1, xs@[k].1),
                    *j == Json::Object(*xs),
                decreases xs.len() - i,
            {
                proof {
                    assert(decreases_to!(*j => (*j)->Object_0));
                    assert(decreases_to!(*xs => xs@));
                    assert(decreases_to!(xs@ => xs@[i as int]));
                    assert(decreases_to!(xs@[i as int] => xs@[i as int].1));
                }
                let c = copy_json(&xs[i].1);
                out.push((xs[i].0.clone(), c));
                i = i + 1;
            }
            Json::Object(out)
        },
    }
}

// ---------------------------------------------------------------------------
// Serialization and parsing through serde_json
// ---------------------------------------------------------------------------

#[verifier::external_type_specification]
#[verifier::external_body]
pub struct ExSerdeJsonValue(serde_json::Value);

/// The compact JSON text `serde_json::to_string` renders a value as (object
/// keys in sorted order, the later of two equal keys kept).
pub uninterp spec fn serde_compact(j: Json) -> Seq<char>;

/// The value `serde_json::from_str` reads from a text, if it is valid JSON.
pub uninterp spec fn serde_parse(text: Seq<char>) -> Option<Json>;

/// Builds the `serde_json::Value` that a number stands for.
#[verifier::external_body]
fn number_to_serde(n: &JsonNumber) -> serde_json::Value {
    match n {
        JsonNumber::PosInt(u) => serde_json::Value::from(*u),
        JsonNumber::NegInt(i) => serde_json::Value::from(*i),
        JsonNumber::Float(t) => t.parse::<serde_json::Number>().map(serde_json::Value::Number).unwrap_or(serde_json::Value::Null),
    }
}

/// Builds the number a numeric `serde_json::Value` stands for.
#[verifier::external_body]
fn number_from_serde(n: &serde_json::Value) -> JsonNumber {
    match (n.as_u64(), n.as_i64()) {
        (Some(u), _) => JsonNumber::PosInt(u),
        (None, Some(i)) => JsonNumber::NegInt(i),
        (None, None) => JsonNumber::Float(n.to_string()),
    }
}

/// Builds the `serde_json::Value` that a `Json` stands for, one node for one.
#[verifier::external_body]
fn to_serde(j: &Json) -> serde_json::Value {
    match j {
        Json::Null => serde_json::Value::Null,
        Json::Bool(b) => serde_json::Value::Bool(*b),
        Json::Number(n) => number_to_serde(n),
        Json::String(s) => serde_json::Value::String(s.clone()),
        Json::Array(items) => serde_json::Value::Array(items.iter().map(to_serde).collect()),
        Json::Object(entries) => serde_json::Value::Object(entries.iter().map(|e| (e.0.clone(), to_serde(&e.1))).collect()),
    }
}

/// Builds the `Json` that a `serde_json::Value` stands for, one node for one.
#[verifier::external_body]
fn from_serde(v: serde_json::Value) -> Json {
    match v {
        serde_json::Value::Null => Json::Null,
        serde_json::Value::Bool(b) => Json::Bool(b),
        n @ serde_json::Value::Number(_) => Json::Number(number_from_serde(&n)),
        serde_json::Value::String(s) => Json::String(s),
        serde_json::Value::Array(items) => Json::Array(items.into_iter().map(from_serde).collect()),
        serde_json::Value::Object(map) => Json::Object(map.into_iter().map(|(k, v)| (k, from_serde(v))).collect()),
    }
}

/// Compact JSON text of a value (`serde_json::to_string`, which cannot fail
/// on a JSON value).
#[verifier::external_body]
pub(crate) fn compact_json(j: &Json) -> (s: String)
    ensures
        s@ == serde_compact(*j),
{
    serde_json::to_string(&to_serde(j)).unwrap_or_default()
}

/// Parses a JSON text (`serde_json::from_str::<Value>`); `None` when the text
/// is not one valid JSON value.
#[verifier::external_body]
pub(crate) fn parse_json(text: &str) -> (r: Option<Json>)
    ensures
        r == serde_parse(text@),
{
    serde_json::from_str::<serde_json::Value>(text).ok().map(from_serde)
}

} // verus!
