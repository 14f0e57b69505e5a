//! Glob-like patterns over `/`-separated identifiers.
//!
//! A pattern is a sequence of segments. A segment is either `**`, which
//! stands for zero or more whole identifier segments, or a literal in which
//! each `*` stands for any run of characters inside one segment.
use vstd::prelude::*;
use crate::errors::SkillpackError;
use crate::text::{chars_of, split_chars, split_spec, string_views, views};

verus! {

pub open spec fn double_star() -> Seq<char> {
    seq!['*', '*']
}

/// `s` holds two adjacent `*`.
pub open spec fn has_double_star(s: Seq<char>) -> bool {
    exists|k: int| 0 <= k && k + 1 < s.len() && #[trigger] s[k] == '*' && s[k + 1] == '*'
}

/// A segment is acceptable: non-empty, and `**` only on its own.
pub open spec fn valid_segment(s: Seq<char>) -> bool {
    s.len() > 0 && (has_double_star(s) ==> s == double_star())
}

/// A pattern is acceptable: non-empty and made of acceptable segments.
pub open spec fn valid_pattern(p: Seq<char>) -> bool {
    p.len() > 0 && forall|k: int|
        0 <= k < split_spec(p, '/').len() ==> valid_segment(#[trigger] split_spec(p, '/')[k])
}

/// The literal segment `p` from position `i` matches `t` from position `j`;
/// `*` matches any run of characters.
pub open spec fn seg_match_from(p: Seq<char>, t: Seq<char>, i: int, j: int) -> bool
    decreases p.len() - i + t.len() - j,
{
    if i < 0 || j < 0 || i > p.len() || j > t.len() {
        false
    } else if i == p.len() {
        j == t.len()
    } else if p[i] == '*' {
        seg_match_from(p, t, i + 1, j) || (j < t.len() && seg_match_from(p, t, i, j + 1))
    } else {
        j < t.len() && p[i] == t[j] && seg_match_from(p, t, i + 1, j + 1)
    }
}

pub open spec fn seg_match(p: Seq<char>, t: Seq<char>) -> bool {
    seg_match_from(p, t, 0, 0)
}

/// The pattern segments `ps` from index `i` match the identifier segments
/// `ts` from index `j`; a `**` segment takes zero or more whole segments.
pub open spec fn segs_match_from(ps: Seq<Seq<char>>, ts: Seq<Seq<char>>, i: int, j: int) -> bool
    decreases ps.len() - i + ts.len() - j,
{
    if i < 0 || j < 0 || i > ps.len() || j > ts.len() {
        false
    } else if i == ps.len() {
        j == ts.len()
    } else if ps[i] == double_star() {
        segs_match_from(ps, ts, i + 1, j) || (j < ts.len() && segs_match_from(ps, ts, i, j + 1))
    } else {
        j < ts.len() && seg_match(ps[i], ts[j]) && segs_match_from(ps, ts, i + 1, j + 1)
    }
}

/// `p` is a valid pattern that matches the identifier `t`.
pub open spec fn pattern_matches(p: Seq<char>, t: Seq<char>) -> bool {
    valid_pattern(p) && segs_match_from(split_spec(p, '/'), split_spec(t, '/'), 0, 0)
}

fn is_double_star(seg: &Vec<char>) -> (r: bool)
    ensures
        r == (seg@ == double_star()),
{
    if seg.len() == 2 && seg[0] == '*' && seg[1] == '*' {
        assert(seg@ =~= double_star());
        true
    } else {
        false
    }
}

fn segment_has_double_star(seg: &Vec<char>) -> (r: bool)
    ensures
        r == has_double_star(seg@),
{
    let mut k: usize = 0;
    while k < seg.len() && k + 1 < seg.len()
        invariant
            k <= seg.len(),
            forall|m: int| 0 <= m < k ==> !(#[trigger] seg@[m] == '*' && seg@[m + 1] == '*'),
        decreases seg.len() - k,
    {
        if seg[k] == '*' && seg[k + 1] == '*' {
            return true;
        }
        k += 1;
    }
    false
}

/// Whether `pattern` is acceptable: not empty, no empty segment, and `**`
/// never combined with other characters in one segment.
pub fn is_valid_pattern(pattern: &str) -> (r: bool)
    ensures
        r == valid_pattern(pattern@),
{
    let chars = chars_of(pattern);
    if chars.len() == 0 {
        return false;
    }
    let segs = split_chars(&chars, '/');
    let ghost sp = split_spec(pattern@, '/');
    let mut k: usize = 0;
    while k < segs.len()
        invariant
            views(segs@) == sp,
            sp == split_spec(pattern@, '/'),
            chars@ == pattern@,
            k <= segs.len(),
            forall|m: int| 0 <= m < k ==> valid_segment(#[trigger] sp[m]),
        decreases segs.len() - k,
    {
        let seg = &segs[k];
        assert(sp[k as int] == seg@);
        if seg.len() == 0 {
            assert(!valid_segment(sp[k as int]));
            return false;
        }
        if segment_has_double_star(seg) && !is_double_star(seg) {
            assert(!valid_segment(sp[k as int]));
            return false;
        }
        k += 1;
    }
    true
}

/// Whether the literal segment `p` matches the identifier segment `t`.
fn match_segment(p: &Vec<char>, t: &Vec<char>) -> (r: bool)
    ensures
        r == seg_match(p@, t@),
{
    let np = p.len();
    let nt = t.len();
    // `next[m]` holds whether `p` from `i + 1` matches `t` from `m`.
    let mut next: Vec<bool> = Vec::new();
    while next.len() < nt
        invariant
            next@.len() <= nt,
            np == p@.len(),
            nt == t@.len(),
            forall|m: int| 0 <= m < next@.len() ==> #[trigger] next@[m] == seg_match_from(p@, t@, np as int, m),
        decreases nt - next.len(),
    {
        next.push(false);
    }
    next.push(true);
    let mut i: usize = np;
    while i > 0
        invariant
            i <= np,
            np == p@.len(),
            nt == t@.len(),
            next@.len() == nt + 1,
            forall|m: int| 0 <= m <= nt ==> #[trigger] next@[m] == seg_match_from(p@, t@, i as int, m),
        decreases i,
    {
        i -= 1;
        let star = p[i] == '*';
        let mut cur: Vec<bool> = Vec::new();
        while cur.len() <= nt
            invariant
                cur@.len() <= nt + 1,
            decreases nt + 1 - cur.len(),
        {
            cur.push(false);
        }
        let v_last = if star { next[nt] } else { false };
        cur.set(nt, v_last);
        let mut k: usize = nt;
        while k > 0
            invariant
                k <= nt,
                i < np,
                np == p@.len(),
                nt == t@.len(),
                star == (p@[i as int] == '*'),
                cur@.len() == nt + 1,
                next@.len() == nt + 1,
                forall|m: int| 0 <= m <= nt ==> #[trigger] next@[m] == seg_match_from(p@, t@, i + 1, m),
                forall|m: int| k <= m <= nt ==> #[trigger] cur@[m] == seg_match_from(p@, t@, i as int, m),
            decreases k,
        {
            k -= 1;
            let v = if star {
                next[k] || cur[k + 1]
            } else {
                p[i] == t[k] && next[k + 1]
            };
            assert(v == seg_match_from(p@, t@, i as int, k as int));
            cur.set(k, v);
        }
        next = cur;
    }
    next[0]
}

/// Whether the pattern segments `ps` match the identifier segments `ts`.
fn match_segments(ps: &Vec<Vec<char>>, ts: &Vec<Vec<char>>) -> (r: bool)
    ensures
        r == segs_match_from(views(ps@), views(ts@), 0, 0),
{
    let ghost pv = views(ps@);
    let ghost tv = views(ts@);
    let np = ps.len();
    let nt = ts.len();
    let mut next: Vec<bool> = Vec::new();
    while next.len() < nt
        invariant
            next@.len() <= nt,
            pv.len() == np,
            tv.len() == nt,
            pv == views(ps@),
            tv == views(ts@),
            forall|m: int| 0 <= m < next@.len() ==> #[trigger] next@[m] == segs_match_from(pv, tv, np as int, m),
        decreases nt - next.len(),
    {
        next.push(false);
    }
    next.push(true);
    let mut i: usize = np;
    while i > 0
        invariant
            i <= np,
            pv == views(ps@),
            tv == views(ts@),
            np == pv.len(),
            nt == tv.len(),
            next@.len() == nt + 1,
            forall|m: int| 0 <= m <= nt ==> #[trigger] next@[m] == segs_match_from(pv, tv, i as int, m),
        decreases i,
    {
        i -= 1;
        let dstar = is_double_star(&ps[i]);
        assert(pv[i as int] == ps@[i as int]@);
        let mut cur: Vec<bool> = Vec::new();
        while cur.len() <= nt
            invariant
                cur@.len() <= nt + 1,
            decreases nt + 1 - cur.len(),
        {
            cur.push(false);
        }
        let v_last = if dstar { next[nt] } else { false };
        cur.set(nt, v_last);
        let mut k: usize = nt;
        while k > 0
            invariant
                k <= nt,
                i < np,
                pv == views(ps@),
                tv == views(ts@),
                np == pv.len(),
                nt == tv.len(),
                dstar == (pv[i as int] == double_star()),
                cur@.len() == nt + 1,
                next@.len() == nt + 1,
                forall|m: int| 0 <= m <= nt ==> #[trigger] next@[m] == segs_match_from(pv, tv, i + 1, m),
                forall|m: int| k <= m <= nt ==> #[trigger] cur@[m] == segs_match_from(pv, tv, i as int, m),
            decreases k,
        {
            k -= 1;
            let v = if dstar {
                next[k] || cur[k + 1]
            } else {
                assert(tv[k as int] == ts@[k as int]@);
                match_segment(&ps[i], &ts[k]) && next[k + 1]
            };
            assert(v == segs_match_from(pv, tv, i as int, k as int));
            cur.set(k, v);
        }
        next = cur;
    }
    next[0]
}

/// Whether `pattern` is valid and matches the identifier `text`.
pub fn match_pattern(pattern: &str, text: &str) -> (r: bool)
    ensures
        r == pattern_matches(pattern@, text@),
{
    if !is_valid_pattern(pattern) {
        return false;
    }
    let pc = chars_of(pattern);
    let tc = chars_of(text);
    let ps = split_chars(&pc, '/');
    let ts = split_chars(&tc, '/');
    match_segments(&ps, &ts)
}

/// Some pattern of `ps` matches `t`.
pub open spec fn set_matches(ps: Seq<Seq<char>>, t: Seq<char>) -> bool {
    exists|k: int| 0 <= k < ps.len() && pattern_matches(#[trigger] ps[k], t)
}

/// How many of the identifiers `ts` the pattern `p` matches.
pub open spec fn count_matching(p: Seq<char>, ts: Seq<Seq<char>>) -> nat
    decreases ts.len(),
{
    if ts.len() == 0 {
        0
    } else {
        count_matching(p, ts.drop_last()) + if pattern_matches(p, ts.last()) {
            1nat
        } else {
            0nat
        }
    }
}

/// A set of validated patterns, in the order they were given.
#[derive(Debug)]
pub struct PatternSet {
    patterns: Vec<String>,
}

impl View for PatternSet {
    type V = Seq<Seq<char>>;

    closed spec fn view(&self) -> Seq<Seq<char>> {
        string_views(self.patterns@)
    }
}

impl PatternSet {
    /// Validates each pattern; the first invalid one is reported.
    pub fn new(patterns: &Vec<String>) -> (r: Result<PatternSet, SkillpackError>)
        ensures
            r is Ok <==> forall|k: int| 0 <= k < patterns@.len() ==> valid_pattern(#[trigger] patterns@[k]@),
            r matches Ok(set) ==> set@ == string_views(patterns@),
            r matches Err(e) ==> exists|k: int|
                0 <= k < patterns@.len() && !valid_pattern(#[trigger] patterns@[k]@)
                && (forall|m: int| 0 <= m < k ==> valid_pattern(#[trigger] patterns@[m]@))
                && e == (SkillpackError::InvalidPattern { pattern: patterns@[k] }),
    {
        let mut k: usize = 0;
        while k < patterns.len()
            invariant
                k <= patterns@.len(),
                forall|m: int| 0 <= m < k ==> valid_pattern(#[trigger] patterns@[m]@),
            decreases patterns.len() - k,
        {
            if !is_valid_pattern(patterns[k].as_str()) {
                return Err(SkillpackError::InvalidPattern { pattern: patterns[k].clone() });
            }
            k += 1;
        }
        Ok(PatternSet { patterns: patterns.clone() })
    }

    /// Whether some pattern of the set matches `text`.
    pub fn is_match(&self, text: &str) -> (r: bool)
        ensures
            r == set_matches(self@, text@),
    {
        let mut k: usize = 0;
        while k < self.patterns.len()
            invariant
                k <= self.patterns@.len(),
                self@ == string_views(self.patterns@),
                forall|m: int| 0 <= m < k ==> !pattern_matches(#[trigger] self@[m], text@),
            decreases self.patterns.len() - k,
        {
            if match_pattern(self.patterns[k].as_str(), text) {
                assert(pattern_matches(self@[k as int], text@));
                return true;
            }
            k += 1;
        }
        false
    }

    /// For each pattern, in order, how many of `texts` it matches.
    pub fn match_count_per_pattern(&self, texts: &Vec<String>) -> (r: Vec<usize>)
        ensures
            r@.len() == self@.len(),
            forall|k: int| 0 <= k < r@.len() ==> #[trigger] r@[k] == count_matching(self@[k], string_views(texts@)),
    {
        let ghost tv = string_views(texts@);
        let mut counts: Vec<usize> = Vec::new();
        let mut k: usize = 0;
        while k < self.patterns.len()
            invariant
                k <= self.patterns@.len(),
                counts@.len() == k,
                self@ == string_views(self.patterns@),
                tv == string_views(texts@),
                forall|m: int| 0 <= m < k ==> #[trigger] counts@[m] == count_matching(self@[m], tv),
            decreases self.patterns.len() - k,
        {
            let p = self.patterns[k].as_str();
            let ghost pv = self@[k as int];
            let mut c: usize = 0;
            let mut i: usize = 0;
            while i < texts.len()
                invariant
                    i <= texts@.len(),
                    c <= i,
                    pv == p@,
                    tv == string_views(texts@),
                    c == count_matching(pv, tv.subrange(0, i as int)),
                decreases texts.len() - i,
            {
                if match_pattern(p, texts[i].as_str()) {
                    c += 1;
                }
                assert(tv.subrange(0, i + 1).drop_last() =~= tv.subrange(0, i as int));
                i += 1;
            }
            assert(tv.subrange(0, texts@.len() as int) =~= tv);
            counts.push(c);
            k += 1;
        }
        counts
    }
}

} // verus!
