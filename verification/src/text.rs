//! Text canonicalization for fuzzy comparison.
//!
//! Free text is normalized before similarity scoring: Unicode canonical
//! composition, lowercasing, mapping typographic punctuation variants to
//! ASCII, removing bracket delimiters, stripping one trailing sentence
//! terminator, splitting into segments, dropping stand-alone punctuation
//! segments and rewriting common connector tokens.  Short inputs (at most
//! eight bytes) are only composed and lowercased, to avoid destroying short
//! titles.  The normalized form is used for comparison only, never for
//! display.

use unicode_normalization::UnicodeNormalization;
use vstd::prelude::*;
use vstd::std_specs::iter::IteratorSpec;

verus! {

// ---------------------------------------------------------------------------
// Character classes
// ---------------------------------------------------------------------------

/// Sentence-terminal punctuation stripped once from the end of the text.
pub open spec fn is_strip_char(c: char) -> bool {
    c == '!' || c == '.' || c == '?'
}

/// Bracket delimiters removed outright.
pub open spec fn is_removed_char(c: char) -> bool {
    c == '(' || c == ')' || c == '[' || c == ']'
}

/// Typographic variants mapped to their ASCII equivalents.
pub open spec fn repl_char(c: char) -> char {
    if c == '\u{2014}' {
        '-'
    } else if c == '\u{201C}' || c == '\u{201D}' {
        '"'
    } else if c == '\u{2018}' || c == '\u{2019}' || c == '`' || c == '\u{B4}' {
        '\''
    } else if c == '\u{ED}' {
        'i'
    } else {
        c
    }
}

/// The Unicode `White_Space` characters.
pub open spec fn is_ws_char(c: char) -> bool {
    let u = c as u32;
    (0x9 <= u && u <= 0xD) || u == 0x20 || u == 0x85 || u == 0xA0 || u == 0x1680 || (0x2000 <= u
        && u <= 0x200A) || u == 0x2028 || u == 0x2029 || u == 0x202F || u == 0x205F || u == 0x3000
}

/// Segment separators: whitespace always; `/` as well unless splitting on
/// whitespace alone was asked for.
pub open spec fn is_sep_char(c: char, ws_only: bool) -> bool {
    is_ws_char(c) || (!ws_only && c == '/')
}

fn strip_char(c: char) -> (b: bool)
    ensures
        b == is_strip_char(c),
{
    c == '!' || c == '.' || c == '?'
}

fn removed_char(c: char) -> (b: bool)
    ensures
        b == is_removed_char(c),
{
    c == '(' || c == ')' || c == '[' || c == ']'
}

fn replace_char(c: char) -> (r: char)
    ensures
        r == repl_char(c),
{
    if c == '\u{2014}' {
        '-'
    } else if c == '\u{201C}' || c == '\u{201D}' {
        '"'
    } else if c == '\u{2018}' || c == '\u{2019}' || c == '`' || c == '\u{B4}' {
        '\''
    } else if c == '\u{ED}' {
        'i'
    } else {
        c
    }
}

fn ws_char(c: char) -> (b: bool)
    ensures
        b == is_ws_char(c),
{
    let u = c as u32;
    (0x9 <= u && u <= 0xD) || u == 0x20 || u == 0x85 || u == 0xA0 || u == 0x1680 || (0x2000 <= u
        && u <= 0x200A) || u == 0x2028 || u == 0x2029 || u == 0x202F || u == 0x205F || u == 0x3000
}

fn sep_char(c: char, ws_only: bool) -> (b: bool)
    ensures
        b == is_sep_char(c, ws_only),
{
    ws_char(c) || (!ws_only && c == '/')
}

// ---------------------------------------------------------------------------
// UTF-8 length
// ---------------------------------------------------------------------------

/// Number of bytes the character occupies in UTF-8.
pub open spec fn char_utf8_len(c: char) -> int {
    if (c as u32) < 0x80 {
        1
    } else if (c as u32) < 0x800 {
        2
    } else if (c as u32) < 0x10000 {
        3
    } else {
        4
    }
}

/// Number of bytes the text occupies in UTF-8.
pub open spec fn utf8_len(t: Seq<char>) -> int
    decreases t.len(),
{
    if t.len() == 0 {
        0
    } else {
        utf8_len(t.drop_last()) + char_utf8_len(t.last())
    }
}

/// Whether the text is longer than eight bytes in UTF-8; only such texts get
/// the full canonicalization treatment.
pub fn utf8_longer_than_8(t: &Vec<char>) -> (b: bool)
    ensures
        b == (utf8_len(t@) > 8),
{
    let mut i: usize = 0;
    let mut acc: u64 = 0;
    while i < t.len()
        invariant
            i <= t@.len(),
            acc == utf8_len(t@.take(i as int)),
            acc <= 8,
        decreases t@.len() - i,
    {
        let u = t[i] as u32;
        let step: u64 = if u < 0x80 {
            1
        } else if u < 0x800 {
            2
        } else if u < 0x10000 {
            3
        } else {
            4
        };
        proof {
            assert(t@.take(i + 1).drop_last() =~= t@.take(i as int));
            assert(t@.take(i + 1).last() == t@[i as int]);
        }
        acc = acc + step;
        i = i + 1;
        if acc > 8 {
            proof {
                lemma_utf8_len_prefix(t@, i as int);
            }
            return true;
        }
    }
    proof {
        assert(t@.take(t@.len() as int) =~= t@);
    }
    false
}

proof fn lemma_utf8_len_prefix(t: Seq<char>, i: int)
    requires
        0 <= i <= t.len(),
    ensures
        utf8_len(t) >= utf8_len(t.take(i)),
    decreases t.len() - i,
{
    if i < t.len() {
        lemma_utf8_len_prefix(t, i + 1);
        assert(t.take(i + 1).drop_last() =~= t.take(i));
        assert(char_utf8_len(t.take(i + 1).last()) >= 1);
    } else {
        assert(t.take(i) =~= t);
    }
}

// ---------------------------------------------------------------------------
// Trailing terminator, character mapping
// ---------------------------------------------------------------------------

/// One trailing `!`, `.` or `?` removed, if present.
pub open spec fn strip_terminal(t: Seq<char>) -> Seq<char> {
    if t.len() > 0 && is_strip_char(t.last()) {
        t.drop_last()
    } else {
        t
    }
}

fn strip_terminal_exec(t: &Vec<char>) -> (r: Vec<char>)
    ensures
        r@ == strip_terminal(t@),
{
    let n = if t.len() > 0 && strip_char(t[t.len() - 1]) {
        t.len() - 1
    } else {
        t.len()
    };
    let mut r: Vec<char> = Vec::new();
    let mut i: usize = 0;
    while i < n
        invariant
            i <= n <= t@.len(),
            r@ == t@.take(i as int),
        decreases n - i,
    {
        r.push(t[i]);
        proof {
            assert(t@.take(i + 1) =~= t@.take(i as int).push(t@[i as int]));
        }
        i = i + 1;
    }
    proof {
        if n < t@.len() {
            assert(t@.take(t@.len() - 1) =~= t@.drop_last());
        } else {
            assert(t@.take(n as int) =~= t@);
        }
    }
    r
}

/// Typographic variants mapped to ASCII and bracket delimiters dropped.
pub open spec fn map_filter(u: Seq<char>) -> Seq<char>
    decreases u.len(),
{
    if u.len() == 0 {
        Seq::empty()
    } else {
        let rest = map_filter(u.drop_last());
        let c = repl_char(u.last());
        if is_removed_char(c) {
            rest
        } else {
            rest.push(c)
        }
    }
}

fn map_filter_exec(u: &Vec<char>) -> (r: Vec<char>)
    ensures
        r@ == map_filter(u@),
{
    let mut r: Vec<char> = Vec::new();
    let mut i: usize = 0;
    while i < u.len()
        invariant
            i <= u@.len(),
            r@ == map_filter(u@.take(i as int)),
        decreases u@.len() - i,
    {
        let c = replace_char(u[i]);
        proof {
            assert(u@.take(i + 1).drop_last() =~= u@.take(i as int));
            assert(u@.take(i + 1).last() == u@[i as int]);
        }
        if !removed_char(c) {
            r.push(c);
        }
        i = i + 1;
    }
    proof {
        assert(u@.take(u@.len() as int) =~= u@);
    }
    r
}

// ---------------------------------------------------------------------------
// Segmentation
// ---------------------------------------------------------------------------

/// The sequence views of a list of character vectors.
pub open spec fn segs_view(v: Seq<Vec<char>>) -> Seq<Seq<char>> {
    v.map_values(|x: Vec<char>| x@)
}

/// Length of the maximal leading run of non-separator characters.
pub open spec fn run_len(u: Seq<char>, ws_only: bool) -> int
    decreases u.len(),
{
    if u.len() == 0 {
        0
    } else if is_sep_char(u[0], ws_only) {
        0
    } else {
        1 + run_len(u.drop_first(), ws_only)
    }
}

pub proof fn lemma_run_len(u: Seq<char>, ws_only: bool)
    ensures
        0 <= run_len(u, ws_only) <= u.len(),
        forall|i: int| 0 <= i < run_len(u, ws_only) ==> !is_sep_char(u[i], ws_only),
        run_len(u, ws_only) < u.len() ==> is_sep_char(u[run_len(u, ws_only)], ws_only),
    decreases u.len(),
{
    if u.len() > 0 && !is_sep_char(u[0], ws_only) {
        lemma_run_len(u.drop_first(), ws_only);
        assert forall|i: int| 0 <= i < run_len(u, ws_only) implies !is_sep_char(
            u[i],
            ws_only,
        ) by {
            if i > 0 {
                assert(!is_sep_char(u.drop_first()[i - 1], ws_only));
            }
        }
    }
}

/// The leading run is exactly `k` if the first `k` characters are
/// non-separators and the text ends or a separator follows.
pub proof fn lemma_run_len_is(u: Seq<char>, ws_only: bool, k: int)
    requires
        0 <= k <= u.len(),
        forall|i: int| 0 <= i < k ==> !is_sep_char(u[i], ws_only),
        k < u.len() ==> is_sep_char(u[k], ws_only),
    ensures
        run_len(u, ws_only) == k,
    decreases u.len(),
{
    if u.len() > 0 && !is_sep_char(u[0], ws_only) {
        assert(k > 0);
        lemma_run_len_is(u.drop_first(), ws_only, k - 1);
    }
}

/// The text split at separators, empty segments dropped.
pub open spec fn split_segs(u: Seq<char>, ws_only: bool) -> Seq<Seq<char>>
    decreases u.len(),
    via split_segs_decreases
{
    if u.len() == 0 {
        seq![]
    } else if is_sep_char(u[0], ws_only) {
        split_segs(u.drop_first(), ws_only)
    } else {
        seq![u.take(run_len(u, ws_only))] + split_segs(u.skip(run_len(u, ws_only)), ws_only)
    }
}

#[via_fn]
proof fn split_segs_decreases(u: Seq<char>, ws_only: bool) {
    if u.len() > 0 && !is_sep_char(u[0], ws_only) {
        lemma_run_len(u, ws_only);
    }
}

fn split_from(u: &Vec<char>, from: usize, ws_only: bool) -> (r: Vec<Vec<char>>)
    requires
        from <= u@.len(),
    ensures
        segs_view(r@) == split_segs(u@.skip(from as int), ws_only),
    decreases u@.len() - from,
{
    if from == u.len() {
        let r: Vec<Vec<char>> = Vec::new();
        proof {
            assert(u@.skip(from as int) =~= Seq::<char>::empty());
            assert(segs_view(r@) =~= split_segs(u@.skip(from as int), ws_only));
        }
        return r;
    }
    if sep_char(u[from], ws_only) {
        let r = split_from(u, from + 1, ws_only);
        proof {
            assert(u@.skip(from as int).drop_first() =~= u@.skip(from + 1));
        }
        return r;
    }
    let ghost tail = u@.skip(from as int);
    let mut j: usize = from;
    let mut seg: Vec<char> = Vec::new();
    while j < u.len() && !sep_char(u[j], ws_only)
        invariant
            from <= j <= u@.len(),
            seg@ == u@.subrange(from as int, j as int),
            forall|i: int| from <= i < j ==> !is_sep_char(u@[i], ws_only),
        decreases u@.len() - j,
    {
        seg.push(u[j]);
        proof {
            assert(u@.subrange(from as int, j + 1) =~= u@.subrange(from as int, j as int).push(
                u@[j as int],
            ));
        }
        j = j + 1;
    }
    proof {
        assert forall|i: int| 0 <= i < j - from implies !is_sep_char(tail[i], ws_only) by {
            assert(tail[i] == u@[from + i]);
        }
        if (j as int) - (from as int) < tail.len() {
            assert(tail[(j as int) - (from as int)] == u@[j as int]);
        }
        lemma_run_len_is(tail, ws_only, (j as int) - (from as int));
        assert(seg@ =~= tail.take(run_len(tail, ws_only)));
    }
    let rest = split_from(u, j, ws_only);
    proof {
        assert(u@.skip(j as int) =~= tail.skip(run_len(tail, ws_only)));
    }
    let mut r: Vec<Vec<char>> = Vec::new();
    r.push(seg);
    let mut rest = rest;
    let ghost rest_snap = rest@;
    r.append(&mut rest);
    proof {
        assert(segs_view(r@) =~= seq![seg@] + segs_view(rest_snap));
    }
    r
}

/// The text split at separators (whitespace, and `/` unless `ws_only`),
/// with empty segments dropped.
pub fn split_exec(u: &Vec<char>, ws_only: bool) -> (r: Vec<Vec<char>>)
    ensures
        segs_view(r@) == split_segs(u@, ws_only),
{
    let r = split_from(u, 0, ws_only);
    proof {
        assert(u@.skip(0) =~= u@);
    }
    r
}

// ---------------------------------------------------------------------------
// Segment rewriting and joining
// ---------------------------------------------------------------------------

/// Stand-alone punctuation segments that are dropped.
pub open spec fn is_dropped_seg(s: Seq<char>) -> bool {
    s == seq!['-'] || s == seq!['/'] || s == seq![':']
}

/// Connector tokens rewritten to a canonical form.
pub open spec fn repl_seg(s: Seq<char>) -> Seq<char> {
    if s == seq!['&'] {
        seq!['a', 'n', 'd']
    } else if s == seq!['f', 'e', 'a', 't', '.'] {
        seq!['f', 'e', 'a', 't']
    } else {
        s
    }
}

/// Segments after dropping stand-alone punctuation and rewriting connectors.
pub open spec fn process_segs(segs: Seq<Seq<char>>) -> Seq<Seq<char>>
    decreases segs.len(),
{
    if segs.len() == 0 {
        seq![]
    } else {
        let rest = process_segs(segs.drop_last());
        let s = segs.last();
        if is_dropped_seg(s) {
            rest
        } else {
            rest.push(repl_seg(s))
        }
    }
}

/// Whether the vector holds exactly the single character `c`.
fn is_single(seg: &Vec<char>, c: char) -> (b: bool)
    ensures
        b == (seg@ == seq![c]),
{
    let b = seg.len() == 1 && seg[0] == c;
    proof {
        if b {
            assert(seg@ =~= seq![c]);
        }
    }
    b
}

/// Whether the vector holds exactly the characters of `feat.`.
fn is_feat_dot(seg: &Vec<char>) -> (b: bool)
    ensures
        b == (seg@ == seq!['f', 'e', 'a', 't', '.']),
{
    let b = seg.len() == 5 && seg[0] == 'f' && seg[1] == 'e' && seg[2] == 'a' && seg[3] == 't'
        && seg[4] == '.';
    proof {
        if b {
            assert(seg@ =~= seq!['f', 'e', 'a', 't', '.']);
        }
    }
    b
}

fn process_segs_exec(segs: Vec<Vec<char>>) -> (r: Vec<Vec<char>>)
    ensures
        segs_view(r@) == process_segs(segs_view(segs@)),
{
    let mut r: Vec<Vec<char>> = Vec::new();
    let mut i: usize = 0;
    while i < segs.len()
        invariant
            i <= segs@.len(),
            segs_view(r@) == process_segs(segs_view(segs@).take(i as int)),
        decreases segs@.len() - i,
    {
        let s = &segs[i];
        proof {
            assert(segs_view(segs@).take(i + 1).drop_last() =~= segs_view(segs@).take(i as int));
            assert(segs_view(segs@).take(i + 1).last() == segs@[i as int]@);
        }
        if is_single(s, '-') || is_single(s, '/') || is_single(s, ':') {
            // dropped
        } else if is_single(s, '&') {
            let mut w: Vec<char> = Vec::new();
            w.push('a');
            w.push('n');
            w.push('d');
            proof {
                assert(w@ =~= seq!['a', 'n', 'd']);
            }
            r.push(w);
            proof {
                assert(segs_view(r@) =~= process_segs(segs_view(segs@).take(i + 1)));
            }
        } else if is_feat_dot(s) {
            let mut w: Vec<char> = Vec::new();
            w.push('f');
            w.push('e');
            w.push('a');
            w.push('t');
            proof {
                assert(w@ =~= seq!['f', 'e', 'a', 't']);
            }
            r.push(w);
            proof {
                assert(segs_view(r@) =~= process_segs(segs_view(segs@).take(i + 1)));
            }
        } else {
            let mut w: Vec<char> = Vec::new();
            let mut k: usize = 0;
            while k < s.len()
                invariant
                    k <= s@.len(),
                    w@ == s@.take(k as int),
                decreases s@.len() - k,
            {
                w.push(s[k]);
                proof {
                    assert(s@.take(k + 1) =~= s@.take(k as int).push(s@[k as int]));
                }
                k = k + 1;
            }
            proof {
                assert(w@ =~= s@);
            }
            r.push(w);
            proof {
                assert(segs_view(r@) =~= process_segs(segs_view(segs@).take(i + 1)));
            }
        }
        i = i + 1;
    }
    proof {
        assert(segs_view(segs@).take(segs@.len() as int) =~= segs_view(segs@));
    }
    r
}

/// The segments joined with single spaces.
pub open spec fn join_segs(segs: Seq<Seq<char>>) -> Seq<char>
    decreases segs.len(),
{
    if segs.len() == 0 {
        Seq::empty()
    } else if segs.len() == 1 {
        segs[0]
    } else {
        join_segs(segs.drop_last()) + seq![' '] + segs.last()
    }
}

fn join_segs_exec(segs: &Vec<Vec<char>>) -> (r: Vec<char>)
    ensures
        r@ == join_segs(segs_view(segs@)),
{
    let mut r: Vec<char> = Vec::new();
    let mut i: usize = 0;
    while i < segs.len()
        invariant
            i <= segs@.len(),
            r@ == join_segs(segs_view(segs@).take(i as int)),
        decreases segs@.len() - i,
    {
        if i > 0 {
            r.push(' ');
        }
        let s = &segs[i];
        let mut k: usize = 0;
        let ghost r_before = r@;
        while k < s.len()
            invariant
                k <= s@.len(),
                r@ == r_before + s@.take(k as int),
            decreases s@.len() - k,
        {
            r.push(s[k]);
            proof {
                assert(s@.take(k + 1) =~= s@.take(k as int).push(s@[k as int]));
                assert(r_before + s@.take(k + 1) =~= (r_before + s@.take(k as int)).push(
                    s@[k as int],
                ));
            }
            k = k + 1;
        }
        proof {
            let sv = segs_view(segs@);
            assert(s@.take(s@.len() as int) =~= s@);
            assert(sv.take(i + 1).drop_last() =~= sv.take(i as int));
            assert(sv.take(i + 1).last() == segs@[i as int]@);
            if i == 0 {
                assert(r@ =~= join_segs(sv.take(1)));
            } else {
                assert(r@ =~= join_segs(sv.take(i + 1)));
            }
        }
        i = i + 1;
    }
    proof {
        assert(segs_view(segs@).take(segs@.len() as int) =~= segs_view(segs@));
    }
    r
}

// ---------------------------------------------------------------------------
// Full canonicalization
// ---------------------------------------------------------------------------

/// What the result of Unicode canonical composition (NFC) holds; determined
/// by the input characters alone.
pub uninterp spec fn nfc_of(s: Seq<char>) -> Seq<char>;

/// What Unicode lowercasing yields; determined by the input characters alone.
pub uninterp spec fn lower_of(s: Seq<char>) -> Seq<char>;

/// Unicode canonical composition followed by lowercasing; applied to every
/// input before any further canonicalization.
pub open spec fn fold_spec(s: Seq<char>) -> Seq<char> {
    lower_of(nfc_of(s))
}

/// The canonical form of already case-folded text: texts of at most eight
/// UTF-8 bytes are kept as they are; longer ones lose one trailing sentence
/// terminator and the bracket characters, have typographic variants mapped
/// to ASCII, and are segmented, rewritten and rejoined with single spaces.
pub open spec fn canon_spec(t: Seq<char>) -> Seq<char> {
    if utf8_len(t) <= 8 {
        t
    } else {
        join_segs(process_segs(split_segs(map_filter(strip_terminal(t)), false)))
    }
}

/// The normalized form of free text, used for comparison only.
pub open spec fn normalize_spec(s: Seq<char>) -> Seq<char> {
    canon_spec(fold_spec(s))
}

/// Relies on `unicode_normalization::UnicodeNormalization::nfc`: yields the
/// text in Unicode Normalization Form C, a function of its characters alone.
#[verifier::external_body]
pub(crate) fn nfc_string(s: &str) -> (r: String)
    ensures
        r@ == nfc_of(s@),
{
    s.nfc().collect()
}

/// Relies on `str::to_lowercase`: yields the Unicode lowercase form of the
/// text, a function of its characters alone.
#[verifier::external_body]
pub(crate) fn lowercase_string(s: &str) -> (r: String)
    ensures
        r@ == lower_of(s@),
{
    s.to_lowercase()
}

/// Relies on the std `FromIterator` impl for `String`: collecting characters
/// builds the string of exactly those characters.
#[verifier::external_body]
pub(crate) fn string_from_chars(v: &Vec<char>) -> (r: String)
    ensures
        r@ == v@,
{
    v.iter().collect()
}

/// The characters of the string, as a vector.
pub fn chars_vec(s: &str) -> (r: Vec<char>)
    ensures
        r@ == s@,
{
    broadcast use vstd::string::axiom_spec_iter, vstd::string::next_postcondition;

    let mut it = s.chars();
    let mut r: Vec<char> = Vec::new();
    loop
        invariant
            it.obeys_prophetic_iter_laws(),
            it.decrease() is Some,
            r@ + it.remaining() == s@,
        decreases it.decrease()->0,
    {
        match it.next() {
            Some(c) => {
                r.push(c);
            },
            None => {
                proof {
                    assert(r@ =~= s@);
                }
                return r;
            },
        }
    }
}

/// The canonical form of already folded text, over character vectors.
fn canon_chars(t: &Vec<char>) -> (r: Vec<char>)
    ensures
        r@ == canon_spec(t@),
{
    if !utf8_longer_than_8(t) {
        let mut r: Vec<char> = Vec::new();
        let mut i: usize = 0;
        while i < t.len()
            invariant
                i <= t@.len(),
                r@ == t@.take(i as int),
            decreases t@.len() - i,
        {
            r.push(t[i]);
            proof {
                assert(t@.take(i + 1) =~= t@.take(i as int).push(t@[i as int]));
            }
            i = i + 1;
        }
        proof {
            assert(t@.take(t@.len() as int) =~= t@);
        }
        return r;
    }
    let stripped = strip_terminal_exec(t);
    let mapped = map_filter_exec(&stripped);
    let segs = split_exec(&mapped, false);
    let processed = process_segs_exec(segs);
    join_segs_exec(&processed)
}

// ---------------------------------------------------------------------------
// Idempotence of canonicalization
// ---------------------------------------------------------------------------

/// A character the mapping stage leaves alone.
pub open spec fn char_stable(c: char) -> bool {
    repl_char(c) == c && !is_removed_char(c)
}

proof fn lemma_map_filter_chars(u: Seq<char>)
    ensures
        forall|i: int| 0 <= i < map_filter(u).len() ==> char_stable(#[trigger] map_filter(u)[i]),
    decreases u.len(),
{
    if u.len() > 0 {
        lemma_map_filter_chars(u.drop_last());
        let c = repl_char(u.last());
        assert forall|i: int| 0 <= i < map_filter(u).len() implies char_stable(
            #[trigger] map_filter(u)[i],
        ) by {
            if is_removed_char(c) {
                assert(map_filter(u)[i] == map_filter(u.drop_last())[i]);
            } else if i < map_filter(u).len() - 1 {
                assert(map_filter(u)[i] == map_filter(u.drop_last())[i]);
            } else {
                assert(map_filter(u)[i] == c);
                assert(char_stable(c));
            }
        }
    }
}

proof fn lemma_map_filter_fixed(v: Seq<char>)
    requires
        forall|i: int| 0 <= i < v.len() ==> char_stable(#[trigger] v[i]),
    ensures
        map_filter(v) == v,
    decreases v.len(),
{
    if v.len() > 0 {
        lemma_map_filter_fixed(v.drop_last());
        assert(char_stable(v.last()));
        assert(map_filter(v) =~= v);
    }
}

proof fn lemma_split_ok(u: Seq<char>, w: bool)
    requires
        forall|i: int| 0 <= i < u.len() ==> char_stable(#[trigger] u[i]),
    ensures
        forall|k: int|
            0 <= k < split_segs(u, w).len() ==> (#[trigger] split_segs(u, w)[k]).len() > 0,
        forall|k: int, i: int|
            0 <= k < split_segs(u, w).len() && 0 <= i < split_segs(u, w)[k].len()
                ==> !is_sep_char(#[trigger] split_segs(u, w)[k][i], w) && char_stable(
                split_segs(u, w)[k][i],
            ),
    decreases u.len(),
{
    if u.len() == 0 {
    } else if is_sep_char(u[0], w) {
        assert forall|i: int| 0 <= i < u.drop_first().len() implies char_stable(
            #[trigger] u.drop_first()[i],
        ) by {
            assert(u.drop_first()[i] == u[i + 1]);
        }
        lemma_split_ok(u.drop_first(), w);
        let uf = u.drop_first();
        assert(split_segs(u, w) == split_segs(uf, w));
        assert forall|k: int| 0 <= k < split_segs(u, w).len() implies (#[trigger] split_segs(
            u,
            w,
        )[k]).len() > 0 by {
            assert(split_segs(u, w)[k] == split_segs(uf, w)[k]);
        }
        assert forall|k: int, i: int|
            0 <= k < split_segs(u, w).len() && 0 <= i < split_segs(u, w)[k].len()
            implies !is_sep_char(#[trigger] split_segs(u, w)[k][i], w) && char_stable(
            split_segs(u, w)[k][i],
        ) by {
            assert(split_segs(u, w)[k] == split_segs(uf, w)[k]);
            assert(split_segs(uf, w)[k][i] == split_segs(u, w)[k][i]);
        }
    } else {
        lemma_run_len(u, w);
        let k = run_len(u, w);
        assert(run_len(u.drop_first(), w) >= 0) by {
            lemma_run_len(u.drop_first(), w);
        }
        assert(k >= 1);
        let seg = u.take(k);
        let rest = u.skip(k);
        assert forall|i: int| 0 <= i < rest.len() implies char_stable(#[trigger] rest[i]) by {
            assert(rest[i] == u[k + i]);
        }
        lemma_split_ok(rest, w);
        assert forall|j: int, i: int|
            0 <= j < split_segs(u, w).len() && 0 <= i < split_segs(u, w)[j].len()
            implies !is_sep_char(#[trigger] split_segs(u, w)[j][i], w) && char_stable(
            split_segs(u, w)[j][i],
        ) by {
            if j == 0 {
                assert(split_segs(u, w)[0] == seg);
                assert(seg[i] == u[i]);
            } else {
                assert(split_segs(u, w)[j] == split_segs(rest, w)[j - 1]);
            }
        }
        assert forall|j: int| 0 <= j < split_segs(u, w).len() implies (#[trigger] split_segs(
            u,
            w,
        )[j]).len() > 0 by {
            if j == 0 {
                assert(split_segs(u, w)[0] == seg);
            } else {
                assert(split_segs(u, w)[j] == split_segs(rest, w)[j - 1]);
            }
        }
    }
}

/// A segment the rewriting stage leaves alone and the separator stage will
/// reproduce: nonempty, free of separators, all characters stable, and not
/// one of the dropped or rewritten tokens.
pub open spec fn canon_seg_ok(s: Seq<char>) -> bool {
    &&& s.len() > 0
    &&& forall|i: int| 0 <= i < s.len() ==> !is_sep_char(#[trigger] s[i], false) && char_stable(s[i])
    &&& !is_dropped_seg(s)
    &&& s != seq!['&']
    &&& s != seq!['f', 'e', 'a', 't', '.']
}

proof fn lemma_process_ok(segs: Seq<Seq<char>>)
    requires
        forall|k: int| 0 <= k < segs.len() ==> (#[trigger] segs[k]).len() > 0,
        forall|k: int, i: int|
            0 <= k < segs.len() && 0 <= i < segs[k].len() ==> !is_sep_char(
                #[trigger] segs[k][i],
                false,
            ) && char_stable(segs[k][i]),
    ensures
        forall|k: int|
            0 <= k < process_segs(segs).len() ==> canon_seg_ok(#[trigger] process_segs(segs)[k]),
    decreases segs.len(),
{
    if segs.len() > 0 {
        let dl = segs.drop_last();
        assert forall|k: int| 0 <= k < dl.len() implies (#[trigger] dl[k]).len() > 0 by {
            assert(dl[k] == segs[k]);
        }
        assert forall|k: int, i: int|
            0 <= k < dl.len() && 0 <= i < dl[k].len() implies !is_sep_char(
            #[trigger] dl[k][i],
            false,
        ) && char_stable(dl[k][i]) by {
            assert(dl[k] == segs[k]);
            assert(dl[k][i] == segs[k][i]);
        }
        lemma_process_ok(dl);
        let s = segs.last();
        if is_dropped_seg(s) {
            assert(process_segs(segs) == process_segs(dl));
            assert forall|k: int| 0 <= k < process_segs(segs).len() implies canon_seg_ok(
                #[trigger] process_segs(segs)[k],
            ) by {
                assert(process_segs(segs)[k] == process_segs(dl)[k]);
            }
        } else {
            let out = repl_seg(s);
            assert(canon_seg_ok(out)) by {
                if s == seq!['&'] {
                    assert(out == seq!['a', 'n', 'd']);
                    assert(out.len() == 3);
                    assert forall|i: int| 0 <= i < out.len() implies !is_sep_char(
                        #[trigger] out[i],
                        false,
                    ) && char_stable(out[i]) by {
                        assert(out[0] == 'a' && out[1] == 'n' && out[2] == 'd');
                    }
                } else if s == seq!['f', 'e', 'a', 't', '.'] {
                    assert(out == seq!['f', 'e', 'a', 't']);
                    assert forall|i: int| 0 <= i < out.len() implies !is_sep_char(
                        #[trigger] out[i],
                        false,
                    ) && char_stable(out[i]) by {
                        assert(out[0] == 'f' && out[1] == 'e' && out[2] == 'a' && out[3] == 't');
                    }
                } else {
                    assert(out == s);
                }
            }
            assert forall|k: int| 0 <= k < process_segs(segs).len() implies canon_seg_ok(
                #[trigger] process_segs(segs)[k],
            ) by {
                if k < process_segs(segs).len() - 1 {
                    assert(process_segs(segs)[k] == process_segs(dl)[k]);
                }
            }
        }
    }
}

proof fn lemma_process_fixed(segs: Seq<Seq<char>>)
    requires
        forall|k: int| 0 <= k < segs.len() ==> canon_seg_ok(#[trigger] segs[k]),
    ensures
        process_segs(segs) == segs,
    decreases segs.len(),
{
    if segs.len() > 0 {
        let dl = segs.drop_last();
        assert forall|k: int| 0 <= k < dl.len() implies canon_seg_ok(#[trigger] dl[k]) by {
            assert(dl[k] == segs[k]);
        }
        lemma_process_fixed(dl);
        assert(canon_seg_ok(segs.last()));
        assert(repl_seg(segs.last()) == segs.last());
        assert(process_segs(segs) =~= segs);
    }
}

proof fn lemma_join_head(segs: Seq<Seq<char>>)
    requires
        segs.len() >= 2,
    ensures
        join_segs(segs) == segs[0] + seq![' '] + join_segs(segs.drop_first()),
    decreases segs.len(),
{
    if segs.len() == 2 {
        assert(segs.drop_last()[0] == segs[0]);
        assert(segs.drop_last().len() == 1);
        assert(join_segs(segs.drop_last()) == segs.drop_last()[0]);
        assert(segs.drop_first().len() == 1);
        assert(join_segs(segs.drop_first()) == segs.drop_first()[0]);
        assert(segs.drop_first()[0] == segs[1]);
        assert(segs.last() == segs[1]);
        assert(join_segs(segs) == join_segs(segs.drop_last()) + seq![' '] + segs.last());
        assert(join_segs(segs) =~= segs[0] + seq![' '] + join_segs(segs.drop_first()));
    } else {
        let dl = segs.drop_last();
        lemma_join_head(dl);
        assert(dl.drop_first() =~= segs.drop_first().drop_last());
        lemma_join_head(segs.drop_first());
        assert(segs.drop_first().last() == segs.last());
        assert(join_segs(segs) =~= segs[0] + seq![' '] + join_segs(segs.drop_first()));
    }
}

proof fn lemma_join_chars(segs: Seq<Seq<char>>)
    requires
        forall|k: int, i: int|
            0 <= k < segs.len() && 0 <= i < segs[k].len() ==> char_stable(#[trigger] segs[k][i]),
    ensures
        forall|i: int| 0 <= i < join_segs(segs).len() ==> char_stable(#[trigger] join_segs(segs)[i]),
    decreases segs.len(),
{
    if segs.len() == 0 {
    } else if segs.len() == 1 {
        assert forall|i: int| 0 <= i < join_segs(segs).len() implies char_stable(
            #[trigger] join_segs(segs)[i],
        ) by {
            assert(join_segs(segs)[i] == segs[0][i]);
        }
    } else {
        let dl = segs.drop_last();
        assert forall|k: int, i: int|
            0 <= k < dl.len() && 0 <= i < dl[k].len() implies char_stable(
            #[trigger] dl[k][i],
        ) by {
            assert(dl[k] == segs[k]);
            assert(dl[k][i] == segs[k][i]);
        }
        lemma_join_chars(dl);
        let j = join_segs(dl);
        let last = segs.last();
        assert(char_stable(' '));
        assert forall|i: int| 0 <= i < join_segs(segs).len() implies char_stable(
            #[trigger] join_segs(segs)[i],
        ) by {
            if i < j.len() {
                assert(join_segs(segs)[i] == j[i]);
            } else if i == j.len() {
                assert(join_segs(segs)[i] == ' ');
            } else {
                assert(join_segs(segs)[i] == last[i - j.len() - 1]);
            }
        }
    }
}

proof fn lemma_split_join(segs: Seq<Seq<char>>)
    requires
        forall|k: int| 0 <= k < segs.len() ==> (#[trigger] segs[k]).len() > 0,
        forall|k: int, i: int|
            0 <= k < segs.len() && 0 <= i < segs[k].len() ==> !is_sep_char(
                #[trigger] segs[k][i],
                false,
            ),
    ensures
        split_segs(join_segs(segs), false) == segs,
    decreases segs.len(),
{
    if segs.len() == 0 {
        assert(split_segs(join_segs(segs), false) =~= segs);
    } else if segs.len() == 1 {
        let s = segs[0];
        assert(join_segs(segs) == s);
        assert(s.len() > 0);
        assert(!is_sep_char(s[0], false));
        lemma_run_len_is(s, false, s.len() as int);
        assert(run_len(s, false) == s.len());
        assert(split_segs(s, false) == seq![s.take(s.len() as int)] + split_segs(
            s.skip(s.len() as int),
            false,
        ));
        assert(s.take(s.len() as int) =~= s);
        assert(s.skip(s.len() as int) =~= Seq::<char>::empty());
        assert(split_segs(s.skip(s.len() as int), false) == Seq::<Seq<char>>::empty());
        assert(split_segs(s, false) =~= segs);
    } else {
        let s = segs[0];
        let rest = segs.drop_first();
        lemma_join_head(segs);
        let j = join_segs(segs);
        assert(j == s + seq![' '] + join_segs(rest));
        assert forall|k: int| 0 <= k < rest.len() implies (#[trigger] rest[k]).len() > 0 by {
            assert(rest[k] == segs[k + 1]);
        }
        assert forall|k: int, i: int|
            0 <= k < rest.len() && 0 <= i < rest[k].len() implies !is_sep_char(
            #[trigger] rest[k][i],
            false,
        ) by {
            assert(rest[k] == segs[k + 1]);
            assert(rest[k][i] == segs[k + 1][i]);
        }
        lemma_split_join(rest);
        assert forall|i: int| 0 <= i < s.len() implies !is_sep_char(#[trigger] j[i], false) by {
            assert(j[i] == s[i]);
        }
        assert(j[s.len() as int] == ' ');
        assert(is_sep_char(' ', false));
        lemma_run_len_is(j, false, s.len() as int);
        assert(run_len(j, false) == s.len());
        assert(j.len() > 0 && !is_sep_char(j[0], false)) by {
            assert(j[0] == s[0]);
        }
        assert(split_segs(j, false) == seq![j.take(s.len() as int)] + split_segs(
            j.skip(s.len() as int),
            false,
        ));
        assert(j.take(s.len() as int) =~= s);
        let after = j.skip(s.len() as int);
        assert(after.len() > 0);
        assert(after[0] == ' ');
        assert(split_segs(after, false) == split_segs(after.drop_first(), false));
        assert(after.drop_first() =~= join_segs(rest));
        assert(split_segs(after.drop_first(), false) == split_segs(join_segs(rest), false));
        assert(split_segs(j, false) =~= seq![s] + split_segs(join_segs(rest), false));
        assert(split_segs(j, false) =~= segs);
    }
}

/// Canonicalization reaches a fixed point after one pass, except when the
/// pass exposes a new trailing sentence terminator on a long result, which a
/// second pass would strip as well.
pub proof fn lemma_canon_idempotent(t: Seq<char>)
    requires
        utf8_len(canon_spec(t)) > 8 ==> canon_spec(t).len() > 0 && !is_strip_char(
            canon_spec(t).last(),
        ),
    ensures
        canon_spec(canon_spec(t)) == canon_spec(t),
{
    let r = canon_spec(t);
    if utf8_len(r) <= 8 {
    } else {
        assert(utf8_len(t) > 8) by {
            if utf8_len(t) <= 8 {
                assert(r == t);
            }
        }
        let u = map_filter(strip_terminal(t));
        let segs0 = split_segs(u, false);
        let segs = process_segs(segs0);
        assert(r == join_segs(segs));
        lemma_map_filter_chars(strip_terminal(t));
        lemma_split_ok(u, false);
        lemma_process_ok(segs0);
        // strip is a no-op on r
        assert(strip_terminal(r) == r);
        // the mapping stage is a no-op on r
        assert forall|k: int, i: int|
            0 <= k < segs.len() && 0 <= i < segs[k].len() implies char_stable(
            #[trigger] segs[k][i],
        ) by {
            assert(canon_seg_ok(segs[k]));
        }
        lemma_join_chars(segs);
        lemma_map_filter_fixed(r);
        // splitting r yields the processed segments again
        assert forall|k: int| 0 <= k < segs.len() implies (#[trigger] segs[k]).len() > 0 by {
            assert(canon_seg_ok(segs[k]));
        }
        assert forall|k: int, i: int|
            0 <= k < segs.len() && 0 <= i < segs[k].len() implies !is_sep_char(
            #[trigger] segs[k][i],
            false,
        ) by {
            assert(canon_seg_ok(segs[k]));
        }
        lemma_split_join(segs);
        // rewriting them again changes nothing
        assert forall|k: int| 0 <= k < segs.len() implies canon_seg_ok(#[trigger] segs[k]) by {
            assert(canon_seg_ok(segs[k]));
        }
        lemma_process_fixed(segs);
        assert(canon_spec(r) == r);
    }
}

/// Normalization is idempotent: re-normalizing a normalized string gives it
/// back.  This holds whenever the Unicode fold leaves the normalized text
/// unchanged (it is already composed and lowercase) and the first pass did
/// not expose a new trailing sentence terminator on a long result.
pub proof fn lemma_normalize_idempotent(s: Seq<char>)
    requires
        fold_spec(normalize_spec(s)) == normalize_spec(s),
        utf8_len(normalize_spec(s)) > 8 ==> normalize_spec(s).len() > 0 && !is_strip_char(
            normalize_spec(s).last(),
        ),
    ensures
        normalize_spec(normalize_spec(s)) == normalize_spec(s),
{
    let r = normalize_spec(s);
    lemma_canon_idempotent(fold_spec(s));
    assert(canon_spec(r) == r);
}

/// Normalize free text for comparison: compose, lowercase and — for inputs
/// longer than eight bytes — canonicalize punctuation and segmentation.
pub fn normalize(s: &str) -> (r: String)
    ensures
        r@ == normalize_spec(s@),
{
    let folded = lowercase_string(nfc_string(s).as_str());
    let cs = chars_vec(folded.as_str());
    let canon = canon_chars(&cs);
    string_from_chars(&canon)
}

} // verus!
