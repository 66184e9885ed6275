//! Per-field comparators and the composite track matcher.
//!
//! Titles, artists and albums are compared with the normalized string
//! scorer; track numbers exactly; durations by relative deviation from the
//! subject's duration.  The composite score is a weighted sum with hard
//! gating floors on the title and artist scores.  All scores are integer
//! per-mille values in `[0, 1000]`; the composite is a percentage in
//! `[0, 100]`.

use crate::similarity::{string_score_spec, StringMatcher};
use crate::text::{chars_vec, string_from_chars};
use crate::types::{Track, TrackModel};
use vstd::prelude::*;

verus! {

/// Weight of the title score in the composite.
pub const TITLE_WEIGHT: u64 = 100;

/// Weight of the artist score in the composite.
pub const ARTIST_WEIGHT: u64 = 50;

/// Weight of the album score in the composite.
pub const ALBUM_WEIGHT: u64 = 10;

/// Weight of the duration score in the composite.
pub const DURATION_WEIGHT: u64 = 5;

/// Weight of the track-number score in the composite.
pub const TRACKNUM_WEIGHT: u64 = 5;

/// Gating floor for the title score, in per-mille.
pub const MIN_TITLE_SCORE: u64 = 950;

/// Gating floor for the artist score, in per-mille.
pub const MIN_ARTIST_SCORE: u64 = 900;

// ---------------------------------------------------------------------------
// Track-number matcher
// ---------------------------------------------------------------------------

/// Compares track numbers: equal numbers score the maximum, anything else
/// scores zero.
#[derive(Debug, Clone, Copy)]
pub struct TrackNumMatcher {
    pub num: usize,
}

impl TrackNumMatcher {
    /// A matcher for the given subject track number.
    pub fn new(num: usize) -> (m: TrackNumMatcher)
        ensures
            m.num == num,
    {
        TrackNumMatcher { num }
    }

    /// Exactly 1000 on equality, 0 otherwise.
    pub open spec fn score_spec(&self, other: usize) -> u64 {
        if self.num == other {
            1000
        } else {
            0
        }
    }

    /// Score a candidate track number.
    pub fn score(&self, other: usize) -> (r: u64)
        ensures
            r == self.score_spec(other),
            self.num == other ==> r == 1000,
            self.num != other ==> r == 0,
    {
        if self.num == other {
            1000
        } else {
            0
        }
    }
}

// ---------------------------------------------------------------------------
// Duration matcher
// ---------------------------------------------------------------------------

/// The duration score: full marks for an exact match, reduced by the
/// relative deviation `|subject - other| / subject`, never below zero.
pub open spec fn duration_score_spec(subject: u64, other: u64) -> u64 {
    let diff = if subject >= other {
        subject - other
    } else {
        other - subject
    };
    let deduction = ((diff * 1000 + subject - 1) as int) / (subject as int);
    if deduction >= 1000 {
        0
    } else {
        (1000 - deduction) as u64
    }
}

/// Compares durations (in whole seconds) by relative deviation from the
/// subject's duration.
#[derive(Debug, Clone, Copy)]
pub struct TrackDurationMatcher {
    pub duration: u64,
}

impl TrackDurationMatcher {
    /// A matcher for the given subject duration, in seconds.
    pub fn new(duration: u64) -> (m: TrackDurationMatcher)
        ensures
            m.duration == duration,
    {
        TrackDurationMatcher { duration }
    }

    /// Score a candidate duration; equal durations score 1000, and the
    /// result is never negative.
    pub fn score(&self, other: u64) -> (r: u64)
        requires
            self.duration > 0,
        ensures
            r == duration_score_spec(self.duration, other),
            other == self.duration ==> r == 1000,
            r <= 1000,
    {
        let diff: u64 = if self.duration >= other {
            self.duration - other
        } else {
            other - self.duration
        };
        if diff >= self.duration {
            proof {
                assert(((diff * 1000 + self.duration - 1) as int) / (self.duration as int)
                    >= 1000) by (nonlinear_arith)
                    requires
                        diff >= self.duration > 0,
                ;
            }
            return 0;
        }
        let wide: u128 = (diff as u128) * 1000 + (self.duration as u128) - 1;
        let deduction: u128 = wide / (self.duration as u128);
        proof {
            assert(deduction <= 1000) by (nonlinear_arith)
                requires
                    deduction == ((diff * 1000 + self.duration - 1) as int) / (self.duration as int),
                    0 < self.duration,
                    diff < self.duration,
            ;
            if diff == 0 {
                assert(((diff * 1000 + self.duration - 1) as int) / (self.duration as int)
                    == 0) by (nonlinear_arith)
                    requires
                        diff == 0,
                        self.duration > 0,
                ;
            }
        }
        if deduction >= 1000 {
            0
        } else {
            1000 - (deduction as u64)
        }
    }
}

// ---------------------------------------------------------------------------
// Candidate parameters
// ---------------------------------------------------------------------------

/// Ghost model of [`MatchParams`].
#[verifier::ext_equal]
pub ghost struct ParamsModel {
    pub title: Seq<char>,
    pub artist: Seq<Seq<char>>,
    pub album: Seq<char>,
    pub number: usize,
    pub duration: u64,
}

/// The sequence views of a list of strings.
pub open spec fn names_view(v: Seq<String>) -> Seq<Seq<char>> {
    v.map_values(|x: String| x@)
}

/// The fields of one search candidate, as plain values.
#[derive(Debug)]
pub struct MatchParams {
    pub title: String,
    pub artist: Vec<String>,
    pub album: String,
    pub number: usize,
    pub duration: u64,
}

impl View for MatchParams {
    type V = ParamsModel;

    open spec fn view(&self) -> ParamsModel {
        ParamsModel {
            title: self.title@,
            artist: names_view(self.artist@),
            album: self.album@,
            number: self.number,
            duration: self.duration,
        }
    }
}

impl MatchParams {
    /// The parameters a locally known track presents when used as a
    /// candidate: its own title, single artist, album, number and duration.
    pub fn from_track(t: &Track) -> (r: MatchParams)
        ensures
            r@.title == t@.title,
            r@.artist =~= seq![t@.artist.name],
            r@.album == t@.album.title,
            r@.number == t@.number,
            r@.duration == t@.duration,
    {
        let mut artist: Vec<String> = Vec::new();
        artist.push(t.artist.name.clone());
        MatchParams {
            title: t.title.clone(),
            artist,
            album: t.album.title.clone(),
            number: t.number,
            duration: t.duration,
        }
    }
}

// ---------------------------------------------------------------------------
// Lexicographic order on texts
// ---------------------------------------------------------------------------

/// Lexicographic order by code point; ties broken by length.  This is the
/// order in which multiple artist names are sorted before joining.
pub open spec fn lex_le(a: Seq<char>, b: Seq<char>) -> bool
    decreases a.len(),
{
    if a.len() == 0 {
        true
    } else if b.len() == 0 {
        false
    } else if a[0] != b[0] {
        (a[0] as int) < (b[0] as int)
    } else {
        lex_le(a.drop_first(), b.drop_first())
    }
}

/// [`lex_le`] as a relation value.
pub open spec fn lex_leq() -> spec_fn(Seq<char>, Seq<char>) -> bool {
    |a: Seq<char>, b: Seq<char>| lex_le(a, b)
}

proof fn lemma_lex_unfold(a: Seq<char>, b: Seq<char>)
    ensures
        lex_le(a, b) == (if a.len() == 0 {
            true
        } else if b.len() == 0 {
            false
        } else if a[0] != b[0] {
            (a[0] as int) < (b[0] as int)
        } else {
            lex_le(a.drop_first(), b.drop_first())
        }),
{
}

proof fn lemma_lex_refl(a: Seq<char>)
    ensures
        lex_le(a, a),
    decreases a.len(),
{
    if a.len() > 0 {
        lemma_lex_refl(a.drop_first());
    }
}

proof fn lemma_lex_antisym(a: Seq<char>, b: Seq<char>)
    requires
        lex_le(a, b),
        lex_le(b, a),
    ensures
        a == b,
    decreases a.len(),
{
    if a.len() == 0 {
        assert(b.len() == 0);
        assert(a =~= b);
    } else {
        lemma_lex_unfold(a, b);
        lemma_lex_unfold(b, a);
        assert(b.len() > 0);
        if a[0] != b[0] {
            assert((a[0] as int) < (b[0] as int));
            assert((b[0] as int) < (a[0] as int));
            assert(false);
        }
        lemma_lex_antisym(a.drop_first(), b.drop_first());
        assert forall|i: int| 1 <= i < a.len() implies a[i] == b[i] by {
            assert(a.drop_first()[i - 1] == b.drop_first()[i - 1]);
        }
        assert(a =~= b);
    }
}

proof fn lemma_lex_trans(a: Seq<char>, b: Seq<char>, c: Seq<char>)
    requires
        lex_le(a, b),
        lex_le(b, c),
    ensures
        lex_le(a, c),
    decreases a.len(),
{
    lemma_lex_unfold(a, b);
    lemma_lex_unfold(b, c);
    lemma_lex_unfold(a, c);
    if a.len() > 0 {
        assert(b.len() > 0);
        assert(c.len() > 0);
        if a[0] == b[0] && b[0] == c[0] {
            lemma_lex_trans(a.drop_first(), b.drop_first(), c.drop_first());
        } else if a[0] == c[0] {
            assert((a[0] as int) < (b[0] as int) || a[0] == b[0]);
            assert((b[0] as int) < (c[0] as int) || b[0] == c[0]);
            assert(false);
        } else {
            assert((a[0] as int) < (c[0] as int));
        }
    }
}

proof fn lemma_lex_total(a: Seq<char>, b: Seq<char>)
    ensures
        lex_le(a, b) || lex_le(b, a),
    decreases a.len(),
{
    lemma_lex_unfold(a, b);
    lemma_lex_unfold(b, a);
    if a.len() > 0 && b.len() > 0 && a[0] == b[0] {
        lemma_lex_total(a.drop_first(), b.drop_first());
    }
}

/// The name order is a total order, so sorting by it has a unique result.
pub proof fn lemma_lex_total_ordering()
    ensures
        vstd::relations::total_ordering(lex_leq()),
{
    assert forall|x: Seq<char>| #[trigger] lex_leq()(x, x) by {
        lemma_lex_refl(x);
    }
    assert forall|x: Seq<char>, y: Seq<char>| #[trigger] lex_leq()(x, y) && #[trigger] lex_leq()(
        y,
        x,
    ) implies x == y by {
        lemma_lex_antisym(x, y);
    }
    assert forall|x: Seq<char>, y: Seq<char>, z: Seq<char>|
        #[trigger] lex_leq()(x, y) && #[trigger] lex_leq()(y, z) implies lex_leq()(x, z) by {
        lemma_lex_trans(x, y, z);
    }
    assert forall|x: Seq<char>, y: Seq<char>| #[trigger] lex_leq()(x, y) || #[trigger] lex_leq()(
        y,
        x,
    ) by {
        lemma_lex_total(x, y);
    }
}

fn lex_le_chars(a: &Vec<char>, b: &Vec<char>) -> (r: bool)
    ensures
        r == lex_le(a@, b@),
{
    let mut i: usize = 0;
    proof {
        assert(a@.skip(0) =~= a@);
        assert(b@.skip(0) =~= b@);
    }
    loop
        invariant
            i <= a@.len(),
            i <= b@.len(),
            lex_le(a@, b@) == lex_le(a@.skip(i as int), b@.skip(i as int)),
        decreases a@.len() - i,
    {
        proof {
            lemma_lex_unfold(a@.skip(i as int), b@.skip(i as int));
        }
        if i == a.len() {
            proof {
                assert(a@.skip(i as int) =~= Seq::<char>::empty());
            }
            return true;
        }
        if i == b.len() {
            proof {
                assert(b@.skip(i as int) =~= Seq::<char>::empty());
                assert(a@.skip(i as int).len() > 0);
            }
            return false;
        }
        let x = a[i];
        let y = b[i];
        proof {
            assert(a@.skip(i as int)[0] == a@[i as int]);
            assert(b@.skip(i as int)[0] == b@[i as int]);
        }
        if x != y {
            return x < y;
        }
        proof {
            assert(a@.skip(i as int).drop_first() =~= a@.skip(i + 1));
            assert(b@.skip(i as int).drop_first() =~= b@.skip(i + 1));
        }
        i = i + 1;
    }
}

fn lex_le_str(a: &str, b: &str) -> (r: bool)
    ensures
        r == lex_le(a@, b@),
{
    let av = chars_vec(a);
    let bv = chars_vec(b);
    lex_le_chars(&av, &bv)
}

// ---------------------------------------------------------------------------
// Sorting names
// ---------------------------------------------------------------------------

/// `x` inserted into (sorted) `s` before the first element it is
/// lexicographically at most.
pub open spec fn insert_sorted(x: Seq<char>, s: Seq<Seq<char>>) -> Seq<Seq<char>>
    decreases s.len(),
{
    if s.len() == 0 {
        seq![x]
    } else if lex_le(x, s[0]) {
        seq![x] + s
    } else {
        seq![s[0]] + insert_sorted(x, s.drop_first())
    }
}

/// The names sorted lexicographically (insertion sort).
pub open spec fn sort_names(s: Seq<Seq<char>>) -> Seq<Seq<char>>
    decreases s.len(),
{
    if s.len() == 0 {
        seq![]
    } else {
        insert_sorted(s[0], sort_names(s.drop_first()))
    }
}

fn insert_sorted_exec(x: String, v: &Vec<String>, from: usize) -> (r: Vec<String>)
    requires
        from <= v@.len(),
    ensures
        names_view(r@) == insert_sorted(x@, names_view(v@.skip(from as int))),
    decreases v@.len() - from,
{
    let ghost tail = names_view(v@.skip(from as int));
    if from == v.len() {
        let mut r: Vec<String> = Vec::new();
        r.push(x);
        proof {
            assert(v@.skip(from as int) =~= Seq::<String>::empty());
            assert(tail =~= Seq::<Seq<char>>::empty());
            assert(names_view(r@) =~= seq![x@]);
        }
        r
    } else if lex_le_str(x.as_str(), v[from].as_str()) {
        let mut r: Vec<String> = Vec::new();
        let ghost xv = x@;
        r.push(x);
        let mut i: usize = from;
        proof {
            assert(names_view(r@) =~= seq![xv] + names_view(
                v@.subrange(from as int, from as int),
            ));
        }
        while i < v.len()
            invariant
                from <= i <= v@.len(),
                names_view(r@) == seq![xv] + names_view(v@.subrange(from as int, i as int)),
            decreases v@.len() - i,
        {
            let c = v[i].clone();
            proof {
                assert(c == v@[i as int]);
            }
            let ghost pre = r@;
            r.push(c);
            proof {
                assert(r@ == pre.push(v@[i as int]));
                assert(names_view(r@) =~~= names_view(pre).push(v@[i as int]@));
                assert(names_view(v@.subrange(from as int, i + 1)) =~~= names_view(
                    v@.subrange(from as int, i as int),
                ).push(v@[i as int]@));
                assert(names_view(r@) =~~= seq![xv] + names_view(
                    v@.subrange(from as int, i + 1),
                ));
            }
            i = i + 1;
        }
        proof {
            assert(v@.subrange(from as int, v@.len() as int) =~= v@.skip(from as int));
            assert(tail[0] == v@[from as int]@);
            assert(names_view(r@) =~= insert_sorted(x@, tail));
        }
        r
    } else {
        let first = v[from].clone();
        let rest = insert_sorted_exec(x, v, from + 1);
        let mut r: Vec<String> = Vec::new();
        r.push(first);
        let mut i: usize = 0;
        proof {
            assert(names_view(r@) =~= seq![v@[from as int]@] + names_view(rest@.take(0)));
        }
        while i < rest.len()
            invariant
                i <= rest@.len(),
                names_view(r@) == seq![v@[from as int]@] + names_view(rest@.take(i as int)),
            decreases rest@.len() - i,
        {
            let c = rest[i].clone();
            proof {
                assert(c == rest@[i as int]);
            }
            let ghost pre = r@;
            r.push(c);
            proof {
                assert(r@ == pre.push(rest@[i as int]));
                assert(names_view(r@) =~~= names_view(pre).push(rest@[i as int]@));
                assert(names_view(rest@.take(i + 1)) =~~= names_view(rest@.take(i as int)).push(
                    rest@[i as int]@,
                ));
                assert(names_view(r@) =~~= seq![v@[from as int]@] + names_view(
                    rest@.take(i + 1),
                ));
            }
            i = i + 1;
        }
        proof {
            assert(rest@.take(rest@.len() as int) =~= rest@);
            assert(tail[0] == v@[from as int]@);
            assert(v@.skip(from as int).drop_first() =~= v@.skip(from + 1));
            assert(tail.drop_first() =~= names_view(v@.skip(from + 1)));
            assert(names_view(r@) =~= insert_sorted(x@, tail));
        }
        r
    }
}

/// The strings sorted lexicographically.
fn sort_strings(v: &Vec<String>, from: usize) -> (r: Vec<String>)
    requires
        from <= v@.len(),
    ensures
        names_view(r@) == sort_names(names_view(v@.skip(from as int))),
    decreases v@.len() - from,
{
    let ghost tail = names_view(v@.skip(from as int));
    if from == v.len() {
        let r: Vec<String> = Vec::new();
        proof {
            assert(v@.skip(from as int) =~= Seq::<String>::empty());
            assert(tail =~= Seq::<Seq<char>>::empty());
            assert(names_view(r@) =~= sort_names(tail));
        }
        r
    } else {
        let rest = sort_strings(v, from + 1);
        let r = insert_sorted_exec(v[from].clone(), &rest, 0);
        proof {
            assert(rest@.skip(0) =~= rest@);
            assert(tail[0] == v@[from as int]@);
            assert(v@.skip(from as int).drop_first() =~= v@.skip(from + 1));
            assert(tail.drop_first() =~= names_view(v@.skip(from + 1)));
        }
        r
    }
}

// ---------------------------------------------------------------------------
// Canonical artist subject
// ---------------------------------------------------------------------------

/// Connector tokens discarded when canonicalizing a multi-artist subject.
pub open spec fn is_connector(w: Seq<char>) -> bool {
    w == seq!['f', 'e', 'a', 't'] || w == seq!['f', 'e', 'a', 't', 'u', 'r', 'i', 'n', 'g'] || w
        == seq!['f', 'e', 'a', 't', '.'] || w == seq!['a', 'n', 'd'] || w == seq!['&'] || w
        == seq!['w', '/']
}

/// The words with connector tokens removed.
pub open spec fn filter_connectors(ws: Seq<Seq<char>>) -> Seq<Seq<char>>
    decreases ws.len(),
{
    if ws.len() == 0 {
        seq![]
    } else {
        let rest = filter_connectors(ws.drop_last());
        if is_connector(ws.last()) {
            rest
        } else {
            rest.push(ws.last())
        }
    }
}

/// The whitespace-separated words of the raw subject, each lowercased.
pub open spec fn lowered_words(raw: Seq<char>) -> Seq<Seq<char>> {
    crate::text::split_segs(raw, true).map_values(|w: Seq<char>| crate::text::lower_of(w))
}

/// The names joined with `" & "`.
pub open spec fn join_amp(names: Seq<Seq<char>>) -> Seq<char>
    decreases names.len(),
{
    if names.len() == 0 {
        Seq::empty()
    } else if names.len() == 1 {
        names[0]
    } else {
        join_amp(names.drop_last()) + seq![' ', '&', ' '] + names.last()
    }
}

/// The canonical form of a multi-artist subject: its lowercased words,
/// connectors dropped, sorted and joined with `" & "`.
pub open spec fn canonical_subject_spec(raw: Seq<char>) -> Seq<char> {
    join_amp(sort_names(filter_connectors(lowered_words(raw))))
}

fn is_connector_exec(s: &str) -> (b: bool)
    ensures
        b == is_connector(s@),
{
    let v = chars_vec(s);
    let b = if v.len() == 1 {
        v[0] == '&'
    } else if v.len() == 2 {
        v[0] == 'w' && v[1] == '/'
    } else if v.len() == 3 {
        v[0] == 'a' && v[1] == 'n' && v[2] == 'd'
    } else if v.len() == 4 {
        v[0] == 'f' && v[1] == 'e' && v[2] == 'a' && v[3] == 't'
    } else if v.len() == 5 {
        v[0] == 'f' && v[1] == 'e' && v[2] == 'a' && v[3] == 't' && v[4] == '.'
    } else if v.len() == 9 {
        v[0] == 'f' && v[1] == 'e' && v[2] == 'a' && v[3] == 't' && v[4] == 'u' && v[5] == 'r'
            && v[6] == 'i' && v[7] == 'n' && v[8] == 'g'
    } else {
        false
    };
    proof {
        if b {
            if v@.len() == 1 {
                assert(v@ =~= seq!['&']);
            } else if v@.len() == 2 {
                assert(v@ =~= seq!['w', '/']);
            } else if v@.len() == 3 {
                assert(v@ =~= seq!['a', 'n', 'd']);
            } else if v@.len() == 4 {
                assert(v@ =~= seq!['f', 'e', 'a', 't']);
            } else if v@.len() == 5 {
                assert(v@ =~= seq!['f', 'e', 'a', 't', '.']);
            } else {
                assert(v@ =~= seq!['f', 'e', 'a', 't', 'u', 'r', 'i', 'n', 'g']);
            }
        }
    }
    b
}

fn join_amp_exec(v: &Vec<String>) -> (r: String)
    ensures
        r@ == join_amp(names_view(v@)),
{
    let mut out: Vec<char> = Vec::new();
    let mut i: usize = 0;
    proof {
        assert(names_view(v@).take(0) =~= Seq::<Seq<char>>::empty());
    }
    while i < v.len()
        invariant
            i <= v@.len(),
            out@ == join_amp(names_view(v@).take(i as int)),
        decreases v@.len() - i,
    {
        if i > 0 {
            out.push(' ');
            out.push('&');
            out.push(' ');
        }
        let cs = chars_vec(v[i].as_str());
        let mut k: usize = 0;
        let ghost before = out@;
        while k < cs.len()
            invariant
                k <= cs@.len(),
                out@ == before + cs@.take(k as int),
            decreases cs@.len() - k,
        {
            out.push(cs[k]);
            proof {
                assert(before + cs@.take(k + 1) =~= (before + cs@.take(k as int)).push(
                    cs@[k as int],
                ));
            }
            k = k + 1;
        }
        proof {
            let nv = names_view(v@);
            assert(cs@.take(cs@.len() as int) =~= cs@);
            assert(nv.take(i + 1).drop_last() =~= nv.take(i as int));
            assert(nv.take(i + 1).last() == v@[i as int]@);
            if i == 0 {
                assert(out@ =~= join_amp(nv.take(1)));
            } else {
                assert(out@ =~= join_amp(nv.take(i + 1)));
            }
        }
        i = i + 1;
    }
    proof {
        assert(names_view(v@).take(v@.len() as int) =~= names_view(v@));
    }
    string_from_chars(&out)
}

/// The canonical form of a multi-artist subject string.
pub fn canonical_subject(raw: &str) -> (r: String)
    ensures
        r@ == canonical_subject_spec(raw@),
{
    let cs = chars_vec(raw);
    let words = crate::text::split_exec(&cs, true);
    let ghost lowered = lowered_words(raw@);
    let mut kept: Vec<String> = Vec::new();
    let mut i: usize = 0;
    proof {
        assert(lowered.take(0) =~= Seq::<Seq<char>>::empty());
        assert(names_view(kept@) =~= filter_connectors(lowered.take(0)));
    }
    while i < words.len()
        invariant
            i <= words@.len(),
            crate::text::segs_view(words@) == crate::text::split_segs(raw@, true),
            lowered == lowered_words(raw@),
            names_view(kept@) == filter_connectors(lowered.take(i as int)),
        decreases words@.len() - i,
    {
        let w = string_from_chars(&words[i]);
        let lw = crate::text::lowercase_string(w.as_str());
        proof {
            assert(lowered[i as int] == crate::text::lower_of(words@[i as int]@));
            assert(lowered.take(i + 1).drop_last() =~= lowered.take(i as int));
            assert(lowered.take(i + 1).last() == lowered[i as int]);
        }
        let ghost kept_before = kept@;
        if !is_connector_exec(lw.as_str()) {
            kept.push(lw);
            proof {
                assert(names_view(kept@) =~= names_view(kept_before).push(
                    crate::text::lower_of(words@[i as int]@),
                ));
                assert(names_view(kept@) =~= filter_connectors(lowered.take(i + 1)));
            }
        } else {
            proof {
                assert(names_view(kept@) =~= filter_connectors(lowered.take(i + 1)));
            }
        }
        i = i + 1;
    }
    proof {
        assert(lowered.take(lowered.len() as int) =~= lowered);
        assert(words@.len() == lowered.len());
    }
    let sorted = sort_strings(&kept, 0);
    proof {
        assert(kept@.skip(0) =~= kept@);
    }
    join_amp_exec(&sorted)
}

// ---------------------------------------------------------------------------
// Artist score
// ---------------------------------------------------------------------------

/// The maximum of a sequence of per-mille scores (zero when empty).
pub open spec fn max_milli(s: Seq<u64>) -> u64
    decreases s.len(),
{
    if s.len() == 0 {
        0
    } else {
        let m = max_milli(s.drop_last());
        if s.last() > m {
            s.last()
        } else {
            m
        }
    }
}

/// The artist score of a candidate's names against the raw subject name.
/// With several names, each individual name and the `" & "`-joined sorted
/// form are scored against the canonicalized subject, and the maximum wins;
/// a single name is scored like a title.
pub open spec fn artist_score_spec(subject_raw: Seq<char>, names: Seq<Seq<char>>) -> u64 {
    if names.len() > 1 {
        let subj = canonical_subject_spec(subject_raw);
        let cands = names.push(join_amp(sort_names(names)));
        max_milli(cands.map_values(|c: Seq<char>| string_score_spec(subj, c)))
    } else if names.len() == 1 {
        string_score_spec(subject_raw, names[0])
    } else {
        0
    }
}

// ---------------------------------------------------------------------------
// Composite track matcher
// ---------------------------------------------------------------------------

/// The title score of a candidate against a subject track.
pub open spec fn title_score_of(t: TrackModel, p: ParamsModel) -> u64 {
    string_score_spec(t.title, p.title)
}

/// The artist score of a candidate against a subject track.
pub open spec fn artist_score_of(t: TrackModel, p: ParamsModel) -> u64 {
    artist_score_spec(t.artist.name, p.artist)
}

/// The album score of a candidate against a subject track.
pub open spec fn album_score_of(t: TrackModel, p: ParamsModel) -> u64 {
    string_score_spec(t.album.title, p.album)
}

/// The track-number score of a candidate against a subject track.
pub open spec fn number_score_of(t: TrackModel, p: ParamsModel) -> u64 {
    if t.number == p.number {
        1000
    } else {
        0
    }
}

/// The duration score of a candidate against a subject track.
pub open spec fn duration_score_of(t: TrackModel, p: ParamsModel) -> u64 {
    duration_score_spec(t.duration, p.duration)
}

/// The weighted composite score, as a percentage rounded down: the field
/// scores weighted 100/50/10/5/5 and divided by the maximum attainable sum.
pub open spec fn composite_of(t: TrackModel, p: ParamsModel) -> u64 {
    (((title_score_of(t, p) * 100 + artist_score_of(t, p) * 50 + album_score_of(t, p) * 10
        + number_score_of(t, p) * 5 + duration_score_of(t, p) * 5) as int) / 1700) as u64
}

/// The gated composite score of one candidate: `None` whenever the title
/// score is below 950 per-mille or the artist score below 900 per-mille,
/// regardless of the other fields.
pub open spec fn track_score_of(t: TrackModel, p: ParamsModel) -> Option<u64> {
    if title_score_of(t, p) < MIN_TITLE_SCORE || artist_score_of(t, p) < MIN_ARTIST_SCORE {
        None
    } else {
        Some(composite_of(t, p))
    }
}

/// Field matchers for one subject track, with precomputed normalized forms.
pub struct TrackMatcher {
    /// The subject track this matcher was built from.
    pub subject: Ghost<TrackModel>,
    pub title: StringMatcher,
    pub artist: StringMatcher,
    pub album: StringMatcher,
    pub number: TrackNumMatcher,
    pub duration: TrackDurationMatcher,
}

impl TrackMatcher {
    /// The field matchers hold the subject track's fields, and the subject
    /// has a positive duration.
    pub open spec fn wf(&self) -> bool {
        &&& self.title.wf()
        &&& self.title.original@ == self.subject@.title
        &&& self.artist.wf()
        &&& self.artist.original@ == self.subject@.artist.name
        &&& self.album.wf()
        &&& self.album.original@ == self.subject@.album.title
        &&& self.number.num == self.subject@.number
        &&& self.duration.duration == self.subject@.duration
        &&& self.subject@.duration > 0
    }

    /// A matcher for the given subject track, whose duration must be
    /// positive.
    pub fn new(track: &Track) -> (m: TrackMatcher)
        requires
            track@.duration > 0,
        ensures
            m.wf(),
            m.subject@ == track@,
    {
        TrackMatcher {
            subject: Ghost(track@),
            title: StringMatcher::new(track.title.as_str()),
            artist: StringMatcher::new(track.artist.name.as_str()),
            album: StringMatcher::new(track.album.title.as_str()),
            number: TrackNumMatcher::new(track.number),
            duration: TrackDurationMatcher::new(track.duration),
        }
    }

    fn title_score(&self, result: &MatchParams) -> (r: u64)
        requires
            self.wf(),
        ensures
            r == title_score_of(self.subject@, result@),
            r <= 1000,
    {
        self.title.score(result.title.as_str())
    }

    fn album_score(&self, result: &MatchParams) -> (r: u64)
        requires
            self.wf(),
        ensures
            r == album_score_of(self.subject@, result@),
            r <= 1000,
    {
        self.album.score(result.album.as_str())
    }

    fn artist_score(&self, result: &MatchParams) -> (r: u64)
        requires
            self.wf(),
        ensures
            r == artist_score_of(self.subject@, result@),
            r <= 1000,
    {
        if result.artist.len() > 1 {
            let sorted = sort_strings(&result.artist, 0);
            proof {
                assert(result.artist@.skip(0) =~= result.artist@);
            }
            let joined = join_amp_exec(&sorted);
            let subject = canonical_subject(self.artist.original.as_str());
            let m = StringMatcher::new(subject.as_str());
            let ghost subj = canonical_subject_spec(self.artist.original@);
            let ghost cands = result@.artist.push(joined@);
            let ghost scores = cands.map_values(|c: Seq<char>| string_score_spec(subj, c));
            let mut best: u64 = 0;
            let mut i: usize = 0;
            proof {
                assert(scores.take(0) =~= Seq::<u64>::empty());
            }
            while i < result.artist.len()
                invariant
                    self.wf(),
                    m.wf(),
                    m.original@ == subj,
                    subj == canonical_subject_spec(self.artist.original@),
                    i <= result.artist@.len(),
                    cands == result@.artist.push(joined@),
                    joined@ == join_amp(sort_names(result@.artist)),
                    scores == cands.map_values(|c: Seq<char>| string_score_spec(subj, c)),
                    best == max_milli(scores.take(i as int)),
                    best <= 1000,
                decreases result.artist@.len() - i,
            {
                let sc = m.score(result.artist[i].as_str());
                proof {
                    assert(cands[i as int] == result@.artist[i as int]);
                    assert(result@.artist[i as int] == result.artist@[i as int]@);
                    assert(scores.take(i + 1).drop_last() =~= scores.take(i as int));
                    assert(scores.take(i + 1).last() == scores[i as int]);
                }
                if sc > best {
                    best = sc;
                }
                i = i + 1;
            }
            let sc = m.score(joined.as_str());
            proof {
                assert(cands[cands.len() - 1] == joined@);
                assert(scores.take(scores.len() as int) =~= scores);
                assert(scores.take(cands.len() - 1) =~= scores.drop_last());
                assert(scores.last() == string_score_spec(subj, joined@));
            }
            if sc > best {
                best = sc;
            }
            best
        } else if result.artist.len() == 1 {
            let r = self.artist.score(result.artist[0].as_str());
            proof {
                assert(result@.artist[0] == result.artist@[0]@);
            }
            r
        } else {
            0
        }
    }

    fn track_number_score(&self, result: &MatchParams) -> (r: u64)
        requires
            self.wf(),
        ensures
            r == number_score_of(self.subject@, result@),
            r <= 1000,
    {
        self.number.score(result.number)
    }

    fn duration_score(&self, result: &MatchParams) -> (r: u64)
        requires
            self.wf(),
        ensures
            r == duration_score_of(self.subject@, result@),
            r <= 1000,
    {
        self.duration.score(result.duration)
    }

    /// The gated composite score of one candidate.  The result is `None`
    /// exactly when the title score falls below 950 per-mille or the artist
    /// score below 900 per-mille; any returned score is at most 100.
    pub fn score_params(&self, result: &MatchParams) -> (r: Option<u64>)
        requires
            self.wf(),
        ensures
            r == track_score_of(self.subject@, result@),
            (r is None) <==> (title_score_of(self.subject@, result@) < MIN_TITLE_SCORE
                || artist_score_of(self.subject@, result@) < MIN_ARTIST_SCORE),
            r is Some ==> r->0 <= 100,
    {
        let title = self.title_score(result);
        let artist = self.artist_score(result);
        let album = self.album_score(result);
        let tracknum = self.track_number_score(result);
        let duration = self.duration_score(result);
        let weighted: u64 = title * 100 + artist * 50 + album * 10 + tracknum * 5 + duration * 5;
        let comp: u64 = weighted / 1700;
        if title < MIN_TITLE_SCORE || artist < MIN_ARTIST_SCORE {
            return None;
        }
        Some(comp)
    }

    /// The gated composite score of one candidate; see
    /// [`Self::score_params`].
    pub fn score(&self, result: &MatchParams) -> (r: Option<u64>)
        requires
            self.wf(),
        ensures
            r == track_score_of(self.subject@, result@),
    {
        self.score_params(result)
    }

    /// The maximum attainable weighted sum, the composite's denominator.
    pub fn max_possible(&self) -> (r: u64)
        ensures
            r == 170000,
    {
        (TITLE_WEIGHT + ARTIST_WEIGHT + ALBUM_WEIGHT + TRACKNUM_WEIGHT + DURATION_WEIGHT) * 1000
    }
}

// ---------------------------------------------------------------------------
// Order independence of the artist score
// ---------------------------------------------------------------------------

proof fn lemma_insert_sorted_ensures(x: Seq<char>, s: Seq<Seq<char>>)
    requires
        vstd::relations::sorted_by(s, lex_leq()),
    ensures
        vstd::relations::sorted_by(insert_sorted(x, s), lex_leq()),
        insert_sorted(x, s).to_multiset() == s.to_multiset().insert(x),
        insert_sorted(x, s).len() == s.len() + 1,
    decreases s.len(),
{
    broadcast use vstd::seq_lib::group_to_multiset_ensures, vstd::multiset::group_multiset_axioms;

    let r = insert_sorted(x, s);
    if s.len() == 0 {
        assert(r =~= s.push(x));
        assert(r.to_multiset() =~= s.to_multiset().insert(x));
    } else if lex_le(x, s[0]) {
        assert(r == seq![x] + s);
        assert forall|i: int, j: int| 0 <= i < j < r.len() implies lex_leq()(r[i], r[j]) by {
            if i == 0 {
                if j == 1 {
                    assert(lex_le(x, s[0]));
                } else {
                    assert(lex_leq()(s[0], s[j - 1]));
                    lemma_lex_trans(x, s[0], s[j - 1]);
                }
            }
        }
        vstd::seq_lib::lemma_multiset_commutative(seq![x], s);
        vstd::seq_lib::lemma_multiset_commutative(s, seq![x]);
        assert(s + seq![x] =~= s.push(x));
        assert(r.to_multiset() =~= s.to_multiset().insert(x));
    } else {
        let rest = s.drop_first();
        assert forall|i: int, j: int| 0 <= i < j < rest.len() implies lex_leq()(
            rest[i],
            rest[j],
        ) by {
            assert(lex_leq()(s[i + 1], s[j + 1]));
        }
        lemma_insert_sorted_ensures(x, rest);
        let ins = insert_sorted(x, rest);
        assert(r == seq![s[0]] + ins);
        lemma_lex_total(x, s[0]);
        assert(lex_le(s[0], x));
        assert forall|k: int| 0 <= k < ins.len() implies lex_leq()(s[0], ins[k]) by {
            assert(ins.contains(ins[k]));
            assert(ins.to_multiset().count(ins[k]) > 0);
            if ins[k] == x {
                assert(lex_le(s[0], x));
            } else {
                assert(rest.to_multiset().count(ins[k]) > 0);
                assert(rest.contains(ins[k]));
                let w = choose|w: int| 0 <= w < rest.len() && rest[w] == ins[k];
                assert(lex_leq()(s[0], s[w + 1]));
            }
        }
        assert forall|i: int, j: int| 0 <= i < j < r.len() implies lex_leq()(r[i], r[j]) by {
            if i == 0 {
                assert(r[j] == ins[j - 1]);
            } else {
                assert(r[i] == ins[i - 1] && r[j] == ins[j - 1]);
            }
        }
        // multiset bookkeeping: r = [s0] + ins, s = [s0] + rest
        vstd::seq_lib::lemma_multiset_commutative(seq![s[0]], ins);
        vstd::seq_lib::lemma_multiset_commutative(seq![s[0]], rest);
        assert(s =~= seq![s[0]] + rest);
        assert(seq![s[0]] =~= Seq::<Seq<char>>::empty().push(s[0]));
        assert forall|e: Seq<char>| true implies r.to_multiset().count(e) == s.to_multiset().insert(
            x,
        ).count(e) by {
            assert(r.to_multiset().count(e) == seq![s[0]].to_multiset().count(e)
                + ins.to_multiset().count(e));
            assert(s.to_multiset().count(e) == seq![s[0]].to_multiset().count(e)
                + rest.to_multiset().count(e));
        }
        assert(r.to_multiset() =~= s.to_multiset().insert(x));
    }
}

proof fn lemma_sort_names_ensures(s: Seq<Seq<char>>)
    ensures
        vstd::relations::sorted_by(sort_names(s), lex_leq()),
        sort_names(s).to_multiset() == s.to_multiset(),
    decreases s.len(),
{
    broadcast use vstd::seq_lib::group_to_multiset_ensures, vstd::multiset::group_multiset_axioms;

    if s.len() > 0 {
        lemma_sort_names_ensures(s.drop_first());
        lemma_insert_sorted_ensures(s[0], sort_names(s.drop_first()));
        assert(s =~= seq![s[0]] + s.drop_first());
        vstd::seq_lib::lemma_multiset_commutative(seq![s[0]], s.drop_first());
        assert(seq![s[0]] =~= Seq::<Seq<char>>::empty().push(s[0]));
        assert forall|e: Seq<char>| true implies sort_names(s).to_multiset().count(e)
            == s.to_multiset().count(e) by {
            assert(s.to_multiset().count(e) == seq![s[0]].to_multiset().count(e)
                + s.drop_first().to_multiset().count(e));
        }
        assert(sort_names(s).to_multiset() =~= s.to_multiset());
    }
}

/// Sorting the names depends only on which names there are, not on their
/// order.
pub proof fn lemma_sort_names_permutation(a: Seq<Seq<char>>, b: Seq<Seq<char>>)
    requires
        a.to_multiset() == b.to_multiset(),
    ensures
        sort_names(a) == sort_names(b),
{
    lemma_sort_names_ensures(a);
    lemma_sort_names_ensures(b);
    lemma_lex_total_ordering();
    vstd::seq_lib::lemma_sorted_unique(sort_names(a), sort_names(b), lex_leq());
}

proof fn lemma_max_milli_char(s: Seq<u64>)
    ensures
        s.len() > 0 ==> s.contains(max_milli(s)),
        forall|i: int| 0 <= i < s.len() ==> s[i] <= max_milli(s),
    decreases s.len(),
{
    if s.len() > 0 {
        lemma_max_milli_char(s.drop_last());
        assert forall|i: int| 0 <= i < s.len() implies s[i] <= max_milli(s) by {
            if i < s.len() - 1 {
                assert(s.drop_last()[i] == s[i]);
            }
        }
        if s.len() == 1 {
            assert(max_milli(s) == s[0]);
        } else if s.last() > max_milli(s.drop_last()) {
            assert(s.contains(s.last()));
        } else {
            let w = choose|w: int|
                0 <= w < s.drop_last().len() && s.drop_last()[w] == max_milli(s.drop_last());
            assert(s[w] == max_milli(s));
            assert(s.contains(s[w]));
        }
    }
}

/// Multi-artist matching is order-independent: scoring the same set of
/// candidate names in any order against the same subject yields the same
/// artist score.
pub proof fn lemma_artist_score_order_independent(
    subject_raw: Seq<char>,
    a: Seq<Seq<char>>,
    b: Seq<Seq<char>>,
)
    requires
        a.to_multiset() == b.to_multiset(),
        a.len() > 1,
    ensures
        artist_score_spec(subject_raw, a) == artist_score_spec(subject_raw, b),
{
    broadcast use vstd::seq_lib::group_to_multiset_ensures, vstd::multiset::group_multiset_axioms;

    assert(a.to_multiset().len() == a.len());
    assert(b.to_multiset().len() == b.len());
    assert(b.len() == a.len());
    lemma_sort_names_permutation(a, b);
    let j = join_amp(sort_names(a));
    let ca = a.push(j);
    let cb = b.push(j);
    assert(ca.to_multiset() =~= a.to_multiset().insert(j));
    assert(cb.to_multiset() =~= b.to_multiset().insert(j));
    assert(ca.to_multiset() == cb.to_multiset());
    let subj = canonical_subject_spec(subject_raw);
    let f = |c: Seq<char>| string_score_spec(subj, c);
    let sa = ca.map_values(f);
    let sb = cb.map_values(f);
    lemma_max_milli_char(sa);
    lemma_max_milli_char(sb);
    assert(sa.len() > 0 && sb.len() > 0);
    let ma = max_milli(sa);
    let mb = max_milli(sb);
    assert(ma <= mb) by {
        assert(sa.contains(ma));
        let w = choose|w: int| 0 <= w < sa.len() && sa[w] == ma;
        assert(sa[w] == f(ca[w]));
        assert(ca.contains(ca[w]));
        assert(ca.to_multiset().count(ca[w]) > 0);
        assert(cb.to_multiset().count(ca[w]) > 0);
        assert(cb.contains(ca[w]));
        let u = choose|u: int| 0 <= u < cb.len() && cb[u] == ca[w];
        assert(sb[u] == f(ca[w]));
        assert(sb[u] <= mb);
    }
    assert(mb <= ma) by {
        assert(sb.contains(mb));
        let w = choose|w: int| 0 <= w < sb.len() && sb[w] == mb;
        assert(sb[w] == f(cb[w]));
        assert(cb.contains(cb[w]));
        assert(cb.to_multiset().count(cb[w]) > 0);
        assert(ca.to_multiset().count(cb[w]) > 0);
        assert(ca.contains(cb[w]));
        let u = choose|u: int| 0 <= u < ca.len() && ca[u] == cb[w];
        assert(sa[u] == f(cb[w]));
        assert(sa[u] <= ma);
    }
}

} // verus!
