//! Exact text handling: decimal rendering of fixed-point values and
//! character-level scanning of sensor state strings.
//!
//! Rendering is pinned down to the character by spec functions, so the
//! metrics snapshot and the unit extraction are deterministic.

use vstd::prelude::*;
use vstd::arithmetic::div_mod::{
    lemma_div_decreases, lemma_div_multiples_vanish_fancy, lemma_fundamental_div_mod,
};
use vstd::string::StrSliceExecFns;
use vstd::string::StringExecFns;

verus! {

/// The decimal digit character for a value in 0..10.
pub open spec fn spec_digit_char(d: int) -> char
    recommends
        0 <= d < 10,
{
    if d == 0 {
        '0'
    } else if d == 1 {
        '1'
    } else if d == 2 {
        '2'
    } else if d == 3 {
        '3'
    } else if d == 4 {
        '4'
    } else if d == 5 {
        '5'
    } else if d == 6 {
        '6'
    } else if d == 7 {
        '7'
    } else if d == 8 {
        '8'
    } else {
        '9'
    }
}

/// The usual base-10 rendering of a natural number, no sign, no leading
/// zeros (except for zero itself).
pub open spec fn spec_uint_string(n: nat) -> Seq<char>
    decreases n,
{
    if n < 10 {
        seq![spec_digit_char(n as int)]
    } else {
        spec_uint_string(n / 10).push(spec_digit_char((n % 10) as int))
    }
}

fn digit_str(d: u64) -> (r: &'static str)
    requires
        d < 10,
    ensures
        r@ == seq![spec_digit_char(d as int)],
{
    if d == 0 {
        proof {
            reveal_strlit("0");
            assert("0"@ =~= seq![spec_digit_char(0int)]);
        }
        "0"
    } else if d == 1 {
        proof {
            reveal_strlit("1");
            assert("1"@ =~= seq![spec_digit_char(1int)]);
        }
        "1"
    } else if d == 2 {
        proof {
            reveal_strlit("2");
            assert("2"@ =~= seq![spec_digit_char(2int)]);
        }
        "2"
    } else if d == 3 {
        proof {
            reveal_strlit("3");
            assert("3"@ =~= seq![spec_digit_char(3int)]);
        }
        "3"
    } else if d == 4 {
        proof {
            reveal_strlit("4");
            assert("4"@ =~= seq![spec_digit_char(4int)]);
        }
        "4"
    } else if d == 5 {
        proof {
            reveal_strlit("5");
            assert("5"@ =~= seq![spec_digit_char(5int)]);
        }
        "5"
    } else if d == 6 {
        proof {
            reveal_strlit("6");
            assert("6"@ =~= seq![spec_digit_char(6int)]);
        }
        "6"
    } else if d == 7 {
        proof {
            reveal_strlit("7");
            assert("7"@ =~= seq![spec_digit_char(7int)]);
        }
        "7"
    } else if d == 8 {
        proof {
            reveal_strlit("8");
            assert("8"@ =~= seq![spec_digit_char(8int)]);
        }
        "8"
    } else {
        proof {
            reveal_strlit("9");
            assert("9"@ =~= seq![spec_digit_char(9int)]);
        }
        "9"
    }
}

/// Base-10 rendering of an unsigned value.
pub fn uint_to_string(n: u64) -> (s: String)
    ensures
        s@ == spec_uint_string(n as nat),
    decreases n,
{
    if n < 10 {
        String::from_str(digit_str(n))
    } else {
        proof {
            lemma_div_decreases(n as int, 10);
        }
        let mut s = uint_to_string(n / 10);
        s.append(digit_str(n % 10));
        proof {
            assert(s@ =~= spec_uint_string(n as nat));
        }
        s
    }
}

/// The magnitude part of a centi value's shortest decimal rendering:
/// whole part, then the fraction without trailing zeros, no dot when the
/// fraction is zero.
pub open spec fn spec_centi_mag(m: nat) -> Seq<char> {
    let whole = m / 100;
    let frac = m % 100;
    if frac == 0 {
        spec_uint_string(whole)
    } else if frac % 10 == 0 {
        spec_uint_string(whole) + seq!['.', spec_digit_char((frac / 10) as int)]
    } else {
        spec_uint_string(whole) + seq![
            '.',
            spec_digit_char((frac / 10) as int),
            spec_digit_char((frac % 10) as int),
        ]
    }
}

/// Shortest decimal rendering of a signed fixed-point value in hundredths:
/// `4500 -> "45"`, `2250 -> "22.5"`, `-6205 -> "-62.05"`.
pub open spec fn spec_centi_string(v: int) -> Seq<char> {
    if v < 0 {
        seq!['-'] + spec_centi_mag((-v) as nat)
    } else {
        spec_centi_mag(v as nat)
    }
}

/// The magnitude of a signed value as an unsigned one.
fn magnitude_u64(v: i64) -> (m: u64)
    ensures
        m as int == if v < 0 {
            -(v as int)
        } else {
            v as int
        },
{
    if v >= 0 {
        v as u64
    } else {
        let upper: i64 = -(v + 1);
        (upper as u64) + 1
    }
}

/// Render a fixed-point centi value as its shortest decimal string.
pub fn centi_to_string(v: i64) -> (s: String)
    ensures
        s@ == spec_centi_string(v as int),
{
    let mag = magnitude_u64(v);
    let whole: u64 = mag / 100;
    let frac: u64 = mag % 100;
    let mut s: String = if v < 0 {
        proof {
            reveal_strlit("-");
        }
        String::from_str("-")
    } else {
        String::new()
    };
    let w = uint_to_string(whole);
    s.append(w.as_str());
    if frac != 0 {
        proof {
            reveal_strlit(".");
        }
        s.append(".");
        s.append(digit_str(frac / 10));
        if frac % 10 != 0 {
            s.append(digit_str(frac % 10));
        }
    }
    proof {
        assert(s@ =~= spec_centi_string(v as int));
    }
    s
}

/// A centi value rounded to tenths, halves away from zero: the magnitude
/// rendered with exactly one decimal place.
pub open spec fn spec_round_tenths(m: nat) -> nat {
    (((2 * m + 10) / 20) as nat)
}

/// Rendering of a centi value with exactly one decimal place, the fraction
/// rounded, halves away from zero: `45000 -> "450.0"`, `2250 -> "22.5"`.
pub open spec fn spec_one_decimal_string(v: int) -> Seq<char> {
    let m = if v < 0 {
        (-v) as nat
    } else {
        v as nat
    };
    let t = spec_round_tenths(m);
    let digits = spec_uint_string(t / 10) + seq!['.', spec_digit_char((t % 10) as int)];
    if v < 0 {
        seq!['-'] + digits
    } else {
        digits
    }
}

/// Render a fixed-point centi value with exactly one decimal place.
pub fn one_decimal_to_string(v: i64) -> (s: String)
    ensures
        s@ == spec_one_decimal_string(v as int),
{
    let mag = magnitude_u64(v);
    let q: u64 = mag / 10;
    let r: u64 = mag % 10;
    let t: u64 = if r >= 5 {
        q + 1
    } else {
        q
    };
    proof {
        let mi = mag as int;
        lemma_fundamental_div_mod(mi, 10);
        if r >= 5 {
            assert(2 * mi + 10 == 20 * (q as int + 1) + (2 * (r as int) - 10));
            lemma_div_multiples_vanish_fancy(q as int + 1, 2 * (r as int) - 10, 20);
        } else {
            assert(2 * mi + 10 == 20 * (q as int) + (2 * (r as int) + 10));
            lemma_div_multiples_vanish_fancy(q as int, 2 * (r as int) + 10, 20);
        }
        assert(t as nat == spec_round_tenths(mag as nat));
    }
    let mut s: String = if v < 0 {
        proof {
            reveal_strlit("-");
        }
        String::from_str("-")
    } else {
        String::new()
    };
    let w = uint_to_string(t / 10);
    s.append(w.as_str());
    proof {
        reveal_strlit(".");
    }
    s.append(".");
    s.append(digit_str(t % 10));
    proof {
        assert(s@ =~= spec_one_decimal_string(v as int));
    }
    s
}

/// Whether the needle occurs in the haystack starting at `pos`.
pub open spec fn spec_matches_at(h: Seq<char>, n: Seq<char>, pos: int) -> bool {
    &&& 0 <= pos
    &&& pos + n.len() <= h.len()
    &&& h.subrange(pos, pos + n.len() as int) == n
}

/// The first position at or after `pos` where the needle occurs.
pub open spec fn spec_find_from(h: Seq<char>, n: Seq<char>, pos: int) -> Option<int>
    decreases h.len() - pos,
        when 0 <= pos <= h.len()
{
    if pos + n.len() > h.len() {
        None
    } else if h.subrange(pos, pos + n.len() as int) == n {
        Some(pos)
    } else if pos < h.len() {
        spec_find_from(h, n, pos + 1)
    } else {
        None
    }
}

/// The first position where the needle occurs in the haystack.
pub open spec fn spec_find(h: Seq<char>, n: Seq<char>) -> Option<int> {
    spec_find_from(h, n, 0)
}

/// Whether one character sequence occurs anywhere in another.
pub open spec fn spec_contains(h: Seq<char>, n: Seq<char>) -> bool {
    spec_find(h, n) is Some
}

/// Character-by-character occurrence check at one position.
fn matches_at(h: &str, n: &str, pos: usize) -> (r: bool)
    requires
        pos <= h@.len(),
    ensures
        r == spec_matches_at(h@, n@, pos as int),
{
    let hl = h.unicode_len();
    let nl = n.unicode_len();
    if hl - pos < nl {
        return false;
    }
    let mut i: usize = 0;
    while i < nl
        invariant
            i <= nl,
            pos + nl <= hl,
            hl == h@.len(),
            nl == n@.len(),
            forall|j: int| 0 <= j < i ==> h@[pos + j] == n@[j],
        decreases nl - i,
    {
        let hc = h.get_char(pos + i);
        let nc = n.get_char(i);
        if hc != nc {
            proof {
                assert(h@.subrange(pos as int, pos + nl as int)[i as int] != n@[i as int]);
            }
            return false;
        }
        i += 1;
    }
    proof {
        assert(h@.subrange(pos as int, pos + nl as int) =~= n@);
    }
    true
}

/// First occurrence of `n` in `h`, as a character index.
pub fn find_str(h: &str, n: &str) -> (r: Option<usize>)
    ensures
        match r {
            Some(p) => spec_find(h@, n@) == Some(p as int) && spec_matches_at(h@, n@, p as int),
            None => spec_find(h@, n@) is None,
        },
{
    let hl = h.unicode_len();
    let mut pos: usize = 0;
    loop
        invariant
            pos <= hl,
            hl == h@.len(),
            spec_find(h@, n@) == spec_find_from(h@, n@, pos as int),
        decreases hl - pos,
    {
        if matches_at(h, n, pos) {
            return Some(pos);
        }
        if pos >= hl {
            return None;
        }
        pos += 1;
    }
}

/// Whether `n` occurs anywhere in `h`.
pub fn contains_str(h: &str, n: &str) -> (r: bool)
    ensures
        r == spec_contains(h@, n@),
{
    find_str(h, n).is_some()
}

/// Whether `p` is a prefix of `s`.
pub open spec fn spec_starts_with(s: Seq<char>, p: Seq<char>) -> bool {
    p.len() <= s.len() && s.subrange(0, p.len() as int) == p
}

pub fn starts_with_str(s: &str, p: &str) -> (r: bool)
    ensures
        r == spec_starts_with(s@, p@),
{
    matches_at(s, p, 0)
}

/// Character-level string equality.
pub fn str_eq(a: &str, b: &str) -> (r: bool)
    ensures
        r == (a@ == b@),
{
    let al = a.unicode_len();
    let bl = b.unicode_len();
    if al != bl {
        return false;
    }
    let mut i: usize = 0;
    while i < al
        invariant
            i <= al,
            al == a@.len(),
            al == b@.len(),
            forall|j: int| 0 <= j < i ==> a@[j] == b@[j],
        decreases al - i,
    {
        if a.get_char(i) != b.get_char(i) {
            return false;
        }
        i += 1;
    }
    proof {
        assert(a@ =~= b@);
    }
    true
}

/// A centi value truncated toward zero to a whole number of units, still in
/// hundredths: `-6205 -> -6200`, `2250 -> 2200`.
pub open spec fn spec_trunc_whole_centi(v: int) -> int {
    if v >= 0 {
        100 * (v / 100)
    } else {
        -(100 * ((-v) / 100))
    }
}

/// Truncate a centi value toward zero to a whole number of units.
pub fn trunc_whole_centi(v: i64) -> (r: i64)
    ensures
        r as int == spec_trunc_whole_centi(v as int),
{
    let mag = magnitude_u64(v);
    let w: u64 = (mag / 100) * 100;
    proof {
        vstd::arithmetic::div_mod::lemma_fundamental_div_mod(mag as int, 100);
    }
    if v >= 0 {
        w as i64
    } else {
        -(w as i64)
    }
}

/// ASCII whitespace, as trimming understands it.
pub open spec fn is_space_char(c: char) -> bool {
    c == ' ' || c == '\t' || c == '\n' || c == '\r'
}

fn is_space(c: char) -> (r: bool)
    ensures
        r == is_space_char(c),
{
    c == ' ' || c == '\t' || c == '\n' || c == '\r'
}

/// The sequence with leading whitespace removed.
pub open spec fn spec_trim_front(s: Seq<char>) -> Seq<char>
    decreases s.len(),
{
    if s.len() > 0 && is_space_char(s[0]) {
        spec_trim_front(s.drop_first())
    } else {
        s
    }
}

/// The sequence with trailing whitespace removed.
pub open spec fn spec_trim_back(s: Seq<char>) -> Seq<char>
    decreases s.len(),
{
    if s.len() > 0 && is_space_char(s[s.len() - 1]) {
        spec_trim_back(s.drop_last())
    } else {
        s
    }
}

/// The sequence with whitespace removed from both ends.
pub open spec fn spec_trim(s: Seq<char>) -> Seq<char> {
    spec_trim_back(spec_trim_front(s))
}

proof fn lemma_trim_front_skip(s: Seq<char>, k: int)
    requires
        0 <= k <= s.len(),
        forall|j: int| 0 <= j < k ==> is_space_char(#[trigger] s[j]),
        k == s.len() || !is_space_char(s[k]),
    ensures
        spec_trim_front(s) == s.skip(k),
    decreases k,
{
    if k == 0 {
        assert(s.skip(0) =~= s);
    } else {
        assert(is_space_char(s[0]));
        lemma_trim_front_skip(s.drop_first(), k - 1);
        assert(s.drop_first().skip(k - 1) =~= s.skip(k));
    }
}

proof fn lemma_trim_back_take(s: Seq<char>, e: int)
    requires
        0 <= e <= s.len(),
        forall|j: int| e <= j < s.len() ==> is_space_char(#[trigger] s[j]),
        e == 0 || !is_space_char(s[e - 1]),
    ensures
        spec_trim_back(s) == s.take(e),
    decreases s.len() - e,
{
    if e == s.len() {
        assert(s.take(e) =~= s);
    } else {
        assert(is_space_char(s[s.len() - 1]));
        lemma_trim_back_take(s.drop_last(), e);
        assert(s.drop_last().take(e) =~= s.take(e));
    }
}

/// Remove whitespace from both ends.
pub fn trim_str(s: &str) -> (r: String)
    ensures
        r@ == spec_trim(s@),
{
    let len = s.unicode_len();
    let mut a: usize = 0;
    while a < len && is_space(s.get_char(a))
        invariant
            a <= len,
            len == s@.len(),
            forall|j: int| 0 <= j < a ==> is_space_char(#[trigger] s@[j]),
        decreases len - a,
    {
        a += 1;
    }
    let mut b: usize = len;
    while b > a && is_space(s.get_char(b - 1))
        invariant
            a <= b <= len,
            len == s@.len(),
            forall|j: int| b <= j < len ==> is_space_char(#[trigger] s@[j]),
        decreases b,
    {
        b -= 1;
    }
    let out = s.substring_char(a, b);
    proof {
        lemma_trim_front_skip(s@, a as int);
        let f = s@.skip(a as int);
        assert(forall|j: int|
            b - a <= j < f.len() ==> is_space_char(#[trigger] f[j]) == is_space_char(
                s@[j + a],
            ) && is_space_char(s@[j + a]));
        lemma_trim_back_take(f, b - a);
        assert(f.take(b - a) =~= s@.subrange(a as int, b as int));
    }
    String::from_str(out)
}

} // verus!

