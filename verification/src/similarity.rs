//! Bounded string similarity.
//!
//! Two raw strings that are equal ignoring ASCII case score the maximum
//! outright; otherwise both are normalized and compared with the Jaro
//! similarity, scaled to an integer per-mille in `[0, 1000]`.

use crate::text::{chars_vec, normalize, normalize_spec};
use vstd::prelude::*;

verus! {

// ---------------------------------------------------------------------------
// Scaling the similarity to an integer
// ---------------------------------------------------------------------------

/// `v` halved `n` times, rounding down each time.
pub open spec fn halve_n(v: int, n: nat) -> int
    decreases n,
{
    if n == 0 {
        v
    } else {
        halve_n(v / 2, (n - 1) as nat)
    }
}

proof fn lemma_halve_n_nonneg(v: int, n: nat)
    requires
        v >= 0,
    ensures
        halve_n(v, n) >= 0,
    decreases n,
{
    if n > 0 {
        lemma_halve_n_nonneg(v / 2, (n - 1) as nat)
    }
}

/// The value `floor(1000 * x)` for the finite non-negative IEEE-754 double
/// `x` whose bit pattern is `bits`, clamped to `[0, 1000]`.  Negative, NaN
/// and infinite patterns clamp too.  The double is taken apart into its
/// exponent and fraction fields; the significand, scaled by 1000, is then
/// shifted right by the (negated) exponent.
pub closed spec fn milli_of_bits(bits: u64) -> u64 {
    let exp = ((bits as int) / 0x10000000000000) % 0x800;
    let frac = (bits as int) % 0x10000000000000;
    if bits >= 0x8000000000000000 {
        0
    } else if exp == 0 {
        0
    } else if exp <= 1012 {
        0
    } else if exp > 1075 {
        1000
    } else {
        let v = halve_n((0x10000000000000 + frac) * 1000, (1075 - exp) as nat);
        if v > 1000 {
            1000
        } else {
            v as u64
        }
    }
}

/// Decode `floor(1000 * x)` from the bit pattern of a double in `[0, 1]`.
fn milli_from_bits(bits: u64) -> (r: u64)
    ensures
        r == milli_of_bits(bits),
        r <= 1000,
{
    if bits >= 0x8000000000000000 {
        return 0;
    }
    let exp: u64 = (bits / 0x10000000000000) % 0x800;
    let frac: u64 = bits % 0x10000000000000;
    if exp == 0 {
        return 0;
    }
    if exp <= 1012 {
        return 0;
    }
    if exp > 1075 {
        return 1000;
    }
    let mut v: u64 = (0x10000000000000 + frac) * 1000;
    let mut n: u64 = 1075 - exp;
    proof {
        lemma_halve_n_nonneg(v as int, n as nat);
    }
    let ghost target = halve_n(v as int, n as nat);
    while n > 0
        invariant
            halve_n(v as int, n as nat) == target,
        decreases n,
    {
        v = v / 2;
        n = n - 1;
    }
    if v > 1000 {
        1000
    } else {
        v
    }
}

// ---------------------------------------------------------------------------
// Jaro similarity
// ---------------------------------------------------------------------------

/// The bit pattern of the double returned by the Jaro similarity of the two
/// texts; determined by their characters alone.
pub uninterp spec fn jaro_bits(a: Seq<char>, b: Seq<char>) -> u64;

/// The Jaro similarity of the two texts, as an integer per-mille.
pub open spec fn jaro_milli_spec(a: Seq<char>, b: Seq<char>) -> u64 {
    milli_of_bits(jaro_bits(a, b))
}

/// Relies on `fuzzt::algorithms::jaro`: the Jaro similarity of the two
/// strings, a pure function of their characters with a value between 0.0
/// and 1.0; taken here as the raw bit pattern of that double.
#[verifier::external_body]
fn jaro_raw(a: &str, b: &str) -> (r: u64)
    ensures
        r == jaro_bits(a@, b@),
{
    fuzzt::algorithms::jaro(a, b).to_bits()
}

/// The Jaro similarity of two strings, scaled to per-mille.
pub fn jaro_milli(a: &str, b: &str) -> (r: u64)
    ensures
        r == jaro_milli_spec(a@, b@),
        r <= 1000,
{
    milli_from_bits(jaro_raw(a, b))
}

// ---------------------------------------------------------------------------
// ASCII-case-insensitive equality
// ---------------------------------------------------------------------------

/// ASCII uppercase letters mapped to lowercase; all else unchanged.
pub open spec fn ascii_lower(c: char) -> char {
    if 'A' <= c && c <= 'Z' {
        ((c as u8) + 32) as char
    } else {
        c
    }
}

/// Equality of two texts up to ASCII case.
pub open spec fn eq_ignore_ascii_case_spec(a: Seq<char>, b: Seq<char>) -> bool {
    a.len() == b.len() && (forall|i: int| 0 <= i < a.len() ==> ascii_lower(a[i]) == ascii_lower(b[i]))
}

fn ascii_lower_exec(c: char) -> (r: char)
    ensures
        r == ascii_lower(c),
{
    let u = c as u32;
    if 0x41 <= u && u <= 0x5A {
        proof {
            assert('A' <= c && c <= 'Z');
        }
        (((c as u8) + 32) as char)
    } else {
        proof {
            assert(!('A' <= c && c <= 'Z'));
        }
        c
    }
}

fn eq_ignore_ascii_case_chars(a: &Vec<char>, b: &Vec<char>) -> (r: bool)
    ensures
        r == eq_ignore_ascii_case_spec(a@, b@),
{
    if a.len() != b.len() {
        return false;
    }
    let mut i: usize = 0;
    while i < a.len()
        invariant
            a@.len() == b@.len(),
            i <= a@.len(),
            forall|j: int| 0 <= j < i ==> ascii_lower(a@[j]) == ascii_lower(b@[j]),
        decreases a@.len() - i,
    {
        if ascii_lower_exec(a[i]) != ascii_lower_exec(b[i]) {
            return false;
        }
        i = i + 1;
    }
    true
}

// ---------------------------------------------------------------------------
// String matcher
// ---------------------------------------------------------------------------

/// The similarity score of a candidate against a subject: the maximum when
/// the raw strings agree up to ASCII case, otherwise the Jaro similarity of
/// the two normalized forms, in per-mille.
pub open spec fn string_score_spec(subject_raw: Seq<char>, cand: Seq<char>) -> u64 {
    if eq_ignore_ascii_case_spec(subject_raw, cand) {
        1000
    } else {
        jaro_milli_spec(normalize_spec(subject_raw), normalize_spec(cand))
    }
}

/// A scorer bound to one subject string, holding its precomputed normalized
/// form.
#[derive(Debug)]
pub struct StringMatcher {
    pub original: String,
    pub normalized: String,
}

impl StringMatcher {
    /// The normalized form is the one the subject string normalizes to.
    pub open spec fn wf(&self) -> bool {
        self.normalized@ == normalize_spec(self.original@)
    }

    /// A matcher for the given subject string.
    pub fn new(s: &str) -> (m: StringMatcher)
        ensures
            m.original@ == s@,
            m.wf(),
    {
        StringMatcher { original: s.to_owned(), normalized: normalize(s) }
    }

    /// Score a candidate against the subject.  An exact match up to ASCII
    /// case always scores the full 1000 per-mille.
    pub fn score(&self, s: &str) -> (r: u64)
        requires
            self.wf(),
        ensures
            r == string_score_spec(self.original@, s@),
            r <= 1000,
            eq_ignore_ascii_case_spec(self.original@, s@) ==> r == 1000,
    {
        let a = chars_vec(self.original.as_str());
        let b = chars_vec(s);
        if eq_ignore_ascii_case_chars(&a, &b) {
            1000
        } else {
            let norm = normalize(s);
            jaro_milli(self.normalized.as_str(), norm.as_str())
        }
    }
}

} // verus!
