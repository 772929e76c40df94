//! Character-level reading shared by the two expression readers: white space
//! and trimming as `str::trim` does it, and the text that `f64`'s `FromStr`
//! accepts.
use vstd::prelude::*;

verus! {

/// The characters with the Unicode `White_Space` property (what
/// `char::is_whitespace` tests and `str::trim` strips).
pub open spec fn is_space(c: char) -> bool {
    let v = c as u32;
    ||| 0x09 <= v <= 0x0d
    ||| v == 0x20
    ||| v == 0x85
    ||| v == 0xa0
    ||| v == 0x1680
    ||| 0x2000 <= v <= 0x200a
    ||| v == 0x2028
    ||| v == 0x2029
    ||| v == 0x202f
    ||| v == 0x205f
    ||| v == 0x3000
}

/// `s` without its leading white space.
pub open spec fn trim_front(s: Seq<char>) -> Seq<char>
    decreases s.len(),
{
    if s.len() > 0 && is_space(s[0]) {
        trim_front(s.drop_first())
    } else {
        s
    }
}

/// `s` without its trailing white space.
pub open spec fn trim_back(s: Seq<char>) -> Seq<char>
    decreases s.len(),
{
    if s.len() > 0 && is_space(s.last()) {
        trim_back(s.drop_last())
    } else {
        s
    }
}

/// `s` without white space at either end.
pub open spec fn trim(s: Seq<char>) -> Seq<char> {
    trim_back(trim_front(s))
}

/// Whether `c` is a white-space character.
pub fn space_char(c: char) -> (r: bool)
    ensures
        r == is_space(c),
{
    let v = c as u32;
    (0x09 <= v && v <= 0x0d) || v == 0x20 || v == 0x85 || v == 0xa0 || v == 0x1680 || (0x2000 <= v
        && v <= 0x200a) || v == 0x2028 || v == 0x2029 || v == 0x202f || v == 0x205f || v == 0x3000
}

/// The characters of `s`, one per element.
pub fn chars_of(s: &str) -> (v: Vec<char>)
    ensures
        v@ == s@,
{
    let n = s.unicode_len();
    let mut v: Vec<char> = Vec::new();
    let mut i: usize = 0;
    while i < n
        invariant
            n == s@.len(),
            i <= n,
            v@ == s@.subrange(0, i as int),
        decreases n - i,
    {
        v.push(s.get_char(i));
        i = i + 1;
    }
    v
}

/// The bounds of `v[lo..hi]` trimmed: `v[a..b]` is that slice without white
/// space at either end.
pub fn trim_bounds(v: &Vec<char>, lo: usize, hi: usize) -> (r: (usize, usize))
    requires
        lo <= hi <= v@.len(),
    ensures
        lo <= r.0 <= r.1 <= hi,
        v@.subrange(r.0 as int, r.1 as int) == trim(v@.subrange(lo as int, hi as int)),
{
    let mut a = lo;
    while a < hi && space_char(v[a])
        invariant
            lo <= a <= hi <= v@.len(),
            trim_front(v@.subrange(lo as int, hi as int)) == trim_front(v@.subrange(a as int, hi as int)),
        decreases hi - a,
    {
        assert(v@.subrange(a as int, hi as int).drop_first() =~= v@.subrange(a + 1, hi as int));
        a = a + 1;
    }
    let mut b = hi;
    while b > a && space_char(v[b - 1])
        invariant
            lo <= a <= b <= hi <= v@.len(),
            trim(v@.subrange(lo as int, hi as int)) == trim_back(v@.subrange(a as int, b as int)),
        decreases b - a,
    {
        assert(v@.subrange(a as int, b as int).drop_last() =~= v@.subrange(a as int, b - 1));
        b = b - 1;
    }
    (a, b)
}

/// Every character of `s` is an ASCII digit.
pub open spec fn ascii_digits(s: Seq<char>) -> bool {
    forall|i: int| 0 <= i < s.len() ==> '0' <= #[trigger] s[i] <= '9'
}

/// `s` is `word` written in any mix of lower and upper case (`lower` and
/// `upper` spell the word in each).
pub open spec fn caseless_eq(s: Seq<char>, lower: Seq<char>, upper: Seq<char>) -> bool {
    &&& s.len() == lower.len()
    &&& s.len() == upper.len()
    &&& forall|i: int| 0 <= i < s.len() ==> #[trigger] s[i] == lower[i] || s[i] == upper[i]
}

/// The index of the first `c` in `s` at or after `from`, or `s.len()`.
pub open spec fn first_of(s: Seq<char>, from: int, c1: char, c2: char) -> int
    decreases s.len() - from,
{
    if from >= s.len() {
        s.len() as int
    } else if s[from] == c1 || s[from] == c2 {
        from
    } else {
        first_of(s, from + 1, c1, c2)
    }
}

/// The decimal part of a float: digits with at most one point, and at least
/// one digit.
pub open spec fn mantissa_ok(m: Seq<char>) -> bool {
    let d = first_of(m, 0, '.', '.');
    if d == m.len() {
        m.len() > 0 && ascii_digits(m)
    } else {
        &&& ascii_digits(m.subrange(0, d))
        &&& ascii_digits(m.subrange(d + 1, m.len() as int))
        &&& m.len() > 1
    }
}

/// An exponent after `e`: an optional sign, then one digit or more.
pub open spec fn exponent_ok(x: Seq<char>) -> bool {
    if x.len() > 0 && (x[0] == '+' || x[0] == '-') {
        x.len() > 1 && ascii_digits(x.drop_first())
    } else {
        x.len() > 0 && ascii_digits(x)
    }
}

/// A float without its sign: `inf`, `infinity` or `nan` in any case, or a
/// decimal mantissa with an optional exponent.
pub open spec fn unsigned_float(s: Seq<char>) -> bool {
    let e = first_of(s, 0, 'e', 'E');
    ||| caseless_eq(s, "inf"@, "INF"@)
    ||| caseless_eq(s, "infinity"@, "INFINITY"@)
    ||| caseless_eq(s, "nan"@, "NAN"@)
    ||| mantissa_ok(s.subrange(0, e)) && (e == s.len() || exponent_ok(s.subrange(e + 1, s.len() as int)))
}

/// The text that `f64`'s `FromStr` accepts: an optional sign, then an
/// unsigned float.
pub open spec fn float_literal(s: Seq<char>) -> bool {
    if s.len() > 0 && (s[0] == '+' || s[0] == '-') {
        unsigned_float(s.drop_first())
    } else {
        unsigned_float(s)
    }
}

/// Whether `v[lo..hi]` consists of ASCII digits only.
fn digits_between(v: &Vec<char>, lo: usize, hi: usize) -> (r: bool)
    requires
        lo <= hi <= v@.len(),
    ensures
        r == ascii_digits(v@.subrange(lo as int, hi as int)),
{
    let mut i = lo;
    while i < hi
        invariant
            lo <= i <= hi <= v@.len(),
            ascii_digits(v@.subrange(lo as int, i as int)),
        decreases hi - i,
    {
        if !('0' <= v[i] && v[i] <= '9') {
            assert(v@.subrange(lo as int, hi as int)[i - lo] == v@[i as int]);
            return false;
        }
        i = i + 1;
    }
    true
}

/// The first index in `lo..hi` holding `c1` or `c2`, or `hi`.
pub fn find_between(v: &Vec<char>, lo: usize, hi: usize, c1: char, c2: char) -> (r: usize)
    requires
        lo <= hi <= v@.len(),
    ensures
        r - lo == first_of(v@.subrange(lo as int, hi as int), 0, c1, c2),
        lo <= r <= hi,
{
    let ghost s = v@.subrange(lo as int, hi as int);
    let mut i = lo;
    while i < hi && v[i] != c1 && v[i] != c2
        invariant
            lo <= i <= hi <= v@.len(),
            s == v@.subrange(lo as int, hi as int),
            first_of(s, 0, c1, c2) == first_of(s, i - lo, c1, c2),
        decreases hi - i,
    {
        assert(s[i - lo] == v@[i as int]);
        i = i + 1;
    }
    if i < hi {
        assert(s[i - lo] == v@[i as int]);
    }
    i
}

/// Whether `v[lo..hi]` is `lower`/`upper` in any mix of case.
fn caseless_between(v: &Vec<char>, lo: usize, hi: usize, lower: &str, upper: &str) -> (r: bool)
    requires
        lo <= hi <= v@.len(),
    ensures
        r == caseless_eq(v@.subrange(lo as int, hi as int), lower@, upper@),
{
    let n = lower.unicode_len();
    if hi - lo != n || upper.unicode_len() != n {
        return false;
    }
    let mut i: usize = 0;
    while i < n
        invariant
            lo <= hi <= v@.len(),
            hi - lo == n,
            n == lower@.len(),
            n == upper@.len(),
            i <= n,
            forall|k: int| 0 <= k < i ==> #[trigger] v@[lo + k] == lower@[k] || v@[lo + k] == upper@[k],
        decreases n - i,
    {
        let c = v[lo + i];
        if c != lower.get_char(i) && c != upper.get_char(i) {
            assert(v@.subrange(lo as int, hi as int)[i as int] == c);
            return false;
        }
        i = i + 1;
    }
    assert forall|k: int| 0 <= k < n implies #[trigger] v@.subrange(lo as int, hi as int)[k] == lower@[k]
        || v@.subrange(lo as int, hi as int)[k] == upper@[k] by {
        assert(v@.subrange(lo as int, hi as int)[k] == v@[lo + k]);
    }
    true
}

/// Whether `v[lo..hi]` is a float as `f64`'s `FromStr` reads it.
pub fn float_between(v: &Vec<char>, lo: usize, hi: usize) -> (r: bool)
    requires
        lo <= hi <= v@.len(),
    ensures
        r == float_literal(v@.subrange(lo as int, hi as int)),
{
    let ghost s = v@.subrange(lo as int, hi as int);
    let mut a = lo;
    if lo < hi && (v[lo] == '+' || v[lo] == '-') {
        a = lo + 1;
        assert(s.drop_first() =~= v@.subrange(a as int, hi as int));
    }
    let ghost u = v@.subrange(a as int, hi as int);
    assert(float_literal(s) == unsigned_float(u));
    if caseless_between(v, a, hi, "inf", "INF") || caseless_between(v, a, hi, "infinity", "INFINITY")
        || caseless_between(v, a, hi, "nan", "NAN") {
        return true;
    }
    let e = find_between(v, a, hi, 'e', 'E');
    let d = find_between(v, a, e, '.', '.');
    assert(u.subrange(0, e - a) =~= v@.subrange(a as int, e as int));
    let ghost m = v@.subrange(a as int, e as int);
    let mant = if d == e {
        e > a && digits_between(v, a, e)
    } else {
        assert(m.subrange(0, d - a) =~= v@.subrange(a as int, d as int));
        assert(m.subrange(d - a + 1, m.len() as int) =~= v@.subrange(d + 1, e as int));
        digits_between(v, a, d) && digits_between(v, d + 1, e) && e - a > 1
    };
    assert(mant == mantissa_ok(m));
    if !mant {
        return false;
    }
    if e == hi {
        return true;
    }
    let ghost x = v@.subrange(e + 1, hi as int);
    assert(u.subrange(e - a + 1, u.len() as int) =~= x);
    if e + 1 < hi && (v[e + 1] == '+' || v[e + 1] == '-') {
        assert(x.drop_first() =~= v@.subrange(e + 2, hi as int));
        e + 2 < hi && digits_between(v, e + 2, hi)
    } else {
        e + 1 < hi && digits_between(v, e + 1, hi)
    }
}

} // verus!
