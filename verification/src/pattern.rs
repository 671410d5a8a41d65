//! Template matching, periodicity and cycle detection on sequences of visited states.
use vstd::prelude::*;
use crate::text::{dec, push_dec};

verus! {

/// A match of a template: the template's name and the steps it spans (end excluded).
#[derive(Debug, Clone)]
pub struct MatchResult {
    pub pattern_name: String,
    pub start_step: u64,
    pub end_step: u64,
}

#[derive(Debug, Clone)]
pub struct PatternTemplate {
    pub name: String,
    pub state_sequence: Vec<u32>,
    pub min_occurrences: usize,
}

#[derive(Debug, Clone)]
pub struct PatternMatcher {
    pub templates: Vec<PatternTemplate>,
    pub matches: Vec<MatchResult>,
}

/// A match as plain values: name, first step, step after the last.
pub open spec fn match_view(m: MatchResult) -> (Seq<char>, u64, u64) {
    (m.pattern_name@, m.start_step, m.end_step)
}

/// Whether `pat` occurs in `s` at offset `i`.
pub open spec fn occurs_at(s: Seq<u32>, pat: Seq<u32>, i: int) -> bool {
    0 <= i && i + pat.len() <= s.len() && s.subrange(i, i + pat.len()) == pat
}

/// The matches that a left-to-right scan for `pat` reports from offset `i` on, when `seen`
/// occurrences were found before: occurrences do not overlap, and each occurrence from the
/// `min`-th on is reported as the steps it spans.
pub open spec fn scan_matches(s: Seq<u32>, pat: Seq<u32>, min: nat, i: int, seen: nat) -> Seq<
    (u64, u64),
>
    decreases s.len() - i,
{
    if pat.len() == 0 || i < 0 || i + pat.len() > s.len() {
        Seq::empty()
    } else if occurs_at(s, pat, i) {
        let here = if seen + 1 >= min {
            seq![(i as u64, (i + pat.len()) as u64)]
        } else {
            Seq::empty()
        };
        here + scan_matches(s, pat, min, i + pat.len(), seen + 1)
    } else {
        scan_matches(s, pat, min, i + 1, seen)
    }
}

/// The matches of one template, as plain values.
pub open spec fn template_matches(t: PatternTemplate, s: Seq<u32>) -> Seq<(Seq<char>, u64, u64)> {
    scan_matches(s, t.state_sequence@, t.min_occurrences as nat, 0, 0).map_values(
        |m: (u64, u64)| (t.name@, m.0, m.1),
    )
}

/// The matches of all templates, template by template.
pub open spec fn all_matches(ts: Seq<PatternTemplate>, s: Seq<u32>) -> Seq<(Seq<char>, u64, u64)>
    decreases ts.len(),
{
    if ts.len() == 0 {
        Seq::empty()
    } else {
        all_matches(ts.drop_last(), s) + template_matches(ts.last(), s)
    }
}

/// Whether `s` repeats with period `p` from its start.
pub open spec fn has_period(s: Seq<u32>, p: int) -> bool {
    forall|i: int| p <= i < s.len() ==> #[trigger] s[i] == s[i % p]
}

/// The first offset from `i` on where `v` occurs in `s`, or the length of `s`.
pub open spec fn index_from(s: Seq<u32>, v: u32, i: int) -> int
    decreases s.len() - i,
{
    if i < 0 || i >= s.len() {
        s.len() as int
    } else if s[i] == v {
        i
    } else {
        index_from(s, v, i + 1)
    }
}

/// The cycle that meeting at `slow = k`, `fast = 2k` points to: the first occurrence of the
/// meeting value, and the distance to its next occurrence (or to the end).
pub open spec fn cycle_at(s: Seq<u32>, k: int) -> (int, int) {
    let start = index_from(s, s[k], 0);
    (start, index_from(s, s[start], start + 1) - start)
}

/// Whether meeting at `k` reports a cycle.
pub open spec fn reports_cycle(s: Seq<u32>, k: int) -> bool {
    1 <= k && 2 * k < s.len() && s[k] == s[2 * k] && cycle_at(s, k).1 < s.len()
}

/// Every match a scan reports is an occurrence of the pattern at or after where the scan
/// started, spans exactly the pattern, and comes after the matches reported before it.
pub proof fn lemma_scan_matches_are_occurrences(
    s: Seq<u32>,
    pat: Seq<u32>,
    min: nat,
    i: int,
    seen: nat,
)
    requires
        s.len() <= u64::MAX,
    ensures
        ({
            let m = scan_matches(s, pat, min, i, seen);
            &&& forall|k: int|
                0 <= k < m.len() ==> occurs_at(s, pat, #[trigger] m[k].0 as int) && m[k].0 >= i
                    && m[k].1 == m[k].0 + pat.len()
            &&& forall|k: int, l: int| 0 <= k < l < m.len() ==> #[trigger] m[k].1 <= #[trigger] m[l].0
        }),
    decreases s.len() - i,
{
    if pat.len() == 0 || i < 0 || i + pat.len() > s.len() {
        assert(scan_matches(s, pat, min, i, seen).len() == 0);
    } else if occurs_at(s, pat, i) {
        lemma_scan_matches_are_occurrences(s, pat, min, i + pat.len(), seen + 1);
        let rest = scan_matches(s, pat, min, i + pat.len(), seen + 1);
        let here = if seen + 1 >= min {
            seq![(i as u64, (i + pat.len()) as u64)]
        } else {
            Seq::<(u64, u64)>::empty()
        };
        let m = scan_matches(s, pat, min, i, seen);
        assert(m == here + rest);
        if seen + 1 >= min {
            assert(here[0].0 as int == i);
            assert(here[0].1 as int == i + pat.len());
        }
        assert forall|k: int| 0 <= k < m.len() implies occurs_at(s, pat, #[trigger] m[k].0 as int)
            && m[k].0 >= i && m[k].1 == m[k].0 + pat.len() by {
            if k >= here.len() {
                assert(m[k] == rest[k - here.len()]);
            }
        }
        assert forall|k: int, l: int| 0 <= k < l < m.len() implies #[trigger] m[k].1 <= #[trigger] m[l].0 by {
            if k >= here.len() {
                assert(m[k] == rest[k - here.len()]);
                assert(m[l] == rest[l - here.len()]);
            } else {
                assert(m[l] == rest[l - here.len()]);
                assert(rest[l - here.len()].0 >= i + pat.len());
            }
        }
    } else {
        lemma_scan_matches_are_occurrences(s, pat, min, i + 1, seen);
        assert(scan_matches(s, pat, min, i, seen) == scan_matches(s, pat, min, i + 1, seen));
    }
}

/// A scan that reports every occurrence it counts (`min` at most 1) misses none it can
/// reach: an occurrence of a non-empty pattern at offset `j`, at or after where the scan
/// started, that no reported match overlaps from the left, is itself reported. After a match
/// the scan goes on right at its end, so back-to-back occurrences are all found.
pub proof fn lemma_scan_finds_every_free_occurrence(
    s: Seq<u32>,
    pat: Seq<u32>,
    min: nat,
    i: int,
    seen: nat,
    j: int,
)
    requires
        s.len() <= u64::MAX,
        pat.len() > 0,
        min <= 1,
        0 <= i <= j,
        occurs_at(s, pat, j),
        forall|k: int|
            0 <= k < scan_matches(s, pat, min, i, seen).len() ==> !(#[trigger] scan_matches(
                s,
                pat,
                min,
                i,
                seen,
            )[k].0 < j && j < scan_matches(s, pat, min, i, seen)[k].1),
    ensures
        exists|k: int|
            0 <= k < scan_matches(s, pat, min, i, seen).len() && #[trigger] scan_matches(
                s,
                pat,
                min,
                i,
                seen,
            )[k].0 == j,
    decreases s.len() - i,
{
    let m = scan_matches(s, pat, min, i, seen);
    if occurs_at(s, pat, i) {
        let rest = scan_matches(s, pat, min, i + pat.len(), seen + 1);
        let here = seq![(i as u64, (i + pat.len()) as u64)];
        assert(m == here + rest);
        assert(m[0] == here[0]);
        if j == i {
            assert(m[0].0 == j);
        } else {
            assert(!(m[0].0 < j && j < m[0].1));
            assert(j >= i + pat.len());
            assert forall|k: int| 0 <= k < rest.len() implies !(#[trigger] rest[k].0 < j && j
                < rest[k].1) by {
                assert(m[k + 1] == rest[k]);
            }
            lemma_scan_finds_every_free_occurrence(s, pat, min, i + pat.len(), seen + 1, j);
            let k = choose|k: int| 0 <= k < rest.len() && #[trigger] rest[k].0 == j;
            assert(m[k + 1] == rest[k]);
        }
    } else {
        assert(j != i);
        assert(m == scan_matches(s, pat, min, i + 1, seen));
        lemma_scan_finds_every_free_occurrence(s, pat, min, i + 1, seen, j);
    }
}

/// The number of occurrences still hidden by `min` once `seen` were counted.
pub open spec fn hidden_count(min: nat, seen: nat) -> nat {
    if min > seen + 1 {
        (min - seen - 1) as nat
    } else {
        0
    }
}

/// `min` only hides the first occurrences: a scan with it reports the matches of a scan that
/// reports every occurrence, less the first `min - 1` (counting those seen before), and no
/// others.
pub proof fn lemma_min_hides_only_first_occurrences(
    s: Seq<u32>,
    pat: Seq<u32>,
    min: nat,
    i: int,
    seen: nat,
)
    ensures
        ({
            let all = scan_matches(s, pat, 0, i, seen);
            let d = hidden_count(min, seen);
            &&& d <= all.len() ==> scan_matches(s, pat, min, i, seen) == all.subrange(
                d as int,
                all.len() as int,
            )
            &&& d > all.len() ==> scan_matches(s, pat, min, i, seen).len() == 0
        }),
    decreases s.len() - i,
{
    if pat.len() == 0 || i < 0 || i + pat.len() > s.len() {
    } else if occurs_at(s, pat, i) {
        lemma_min_hides_only_first_occurrences(s, pat, min, i + pat.len(), seen + 1);
        let all = scan_matches(s, pat, 0, i, seen);
        let all_rest = scan_matches(s, pat, 0, i + pat.len(), seen + 1);
        let x = (i as u64, (i + pat.len()) as u64);
        assert(all == seq![x] + all_rest);
        let rest = scan_matches(s, pat, min, i + pat.len(), seen + 1);
        let d = hidden_count(min, seen);
        if d == 0 {
            assert(hidden_count(min, seen + 1) == 0);
            assert(rest =~= all_rest.subrange(0, all_rest.len() as int));
            assert(scan_matches(s, pat, min, i, seen) == seq![x] + rest);
            assert(scan_matches(s, pat, min, i, seen) =~= all.subrange(0, all.len() as int));
        } else {
            assert(hidden_count(min, seen + 1) == d - 1);
            assert(scan_matches(s, pat, min, i, seen) =~= rest);
            if d <= all.len() {
                assert(all.subrange(d as int, all.len() as int) =~= all_rest.subrange(
                    d - 1,
                    all_rest.len() as int,
                ));
            }
        }
    } else {
        lemma_min_hides_only_first_occurrences(s, pat, min, i + 1, seen);
        assert(scan_matches(s, pat, min, i, seen) == scan_matches(s, pat, min, i + 1, seen));
        assert(scan_matches(s, pat, 0, i, seen) == scan_matches(s, pat, 0, i + 1, seen));
    }
}

/// A sequence with period `p` holds the same value at any two positions that lie the same
/// distance past a multiple of `p`, over its whole length.
pub proof fn lemma_period_repeats(s: Seq<u32>, p: int)
    requires
        2 <= p,
        has_period(s, p),
    ensures
        forall|i: int, j: int|
            0 <= i < s.len() && 0 <= j < s.len() && i % p == j % p ==> #[trigger] s[i] == #[trigger] s[j],
{
    assert forall|i: int, j: int|
        0 <= i < s.len() && 0 <= j < s.len() && i % p == j % p implies #[trigger] s[i] == #[trigger] s[j] by {
        lemma_at_period_offset(s, p, i);
        lemma_at_period_offset(s, p, j);
    }
}

/// In a sequence with period `p`, each value equals the one at its offset within the period.
proof fn lemma_at_period_offset(s: Seq<u32>, p: int, i: int)
    requires
        2 <= p,
        has_period(s, p),
        0 <= i < s.len(),
    ensures
        0 <= i % p <= i,
        s[i] == s[i % p],
{
    vstd::arithmetic::div_mod::lemma_mod_pos_bound(i, p);
    if i < p {
        vstd::arithmetic::div_mod::lemma_small_mod(i as nat, p as nat);
    } else {
        assert(s[i] == s[i % p]);
    }
}

/// The cycle a meeting reports starts at the first occurrence of the meeting value, no later
/// than the meeting, and its length leads to the next occurrence of that value, with none in
/// between.
pub proof fn lemma_reported_cycle_repeats(s: Seq<u32>, k: int)
    requires
        reports_cycle(s, k),
    ensures
        ({
            let (start, length) = cycle_at(s, k);
            &&& 0 <= start <= k
            &&& s[start] == s[k]
            &&& length >= 1
            &&& start + length < s.len() ==> s[start + length] == s[start]
            &&& forall|j: int| start < j < start + length ==> s[j] != s[start]
        }),
{
    lemma_index_from(s, s[k], 0);
    let start = index_from(s, s[k], 0);
    assert(start <= k) by {
        if start > k {
            assert(s[k] != s[k]);
        }
    }
    lemma_index_from(s, s[start], start + 1);
}

proof fn lemma_index_from(s: Seq<u32>, v: u32, i: int)
    requires
        0 <= i,
    ensures
        i <= index_from(s, v, i) <= s.len() || (i > s.len() && index_from(s, v, i) == s.len()),
        index_from(s, v, i) < s.len() ==> s[index_from(s, v, i)] == v,
        forall|j: int| i <= j < index_from(s, v, i) ==> s[j] != v,
    decreases s.len() - i,
{
    if i < s.len() && s[i] != v {
        lemma_index_from(s, v, i + 1);
    }
}

impl PatternMatcher {
    pub fn new() -> (r: Self)
        ensures
            r.templates@ == Seq::<PatternTemplate>::empty(),
            r.matches@ == Seq::<MatchResult>::empty(),
    {
        PatternMatcher { templates: Vec::new(), matches: Vec::new() }
    }

    pub fn add_template(&mut self, template: PatternTemplate)
        ensures
            final(self).templates@ == old(self).templates@.push(template),
            final(self).matches == old(self).matches,
    {
        self.templates.push(template);
    }

    /// Scans `sequence` for every template in turn and reports, for each template, its
    /// non-overlapping occurrences from the `min_occurrences`-th on; the matches are also kept.
    pub fn match_sequence(&mut self, sequence: &[u32]) -> (r: Vec<MatchResult>)
        requires
            forall|k: int|
                0 <= k < old(self).templates@.len() ==> #[trigger] old(
                    self,
                ).templates@[k].state_sequence@.len() > 0,
        ensures
            r@.map_values(|m: MatchResult| match_view(m)) == all_matches(
                old(self).templates@,
                sequence@,
            ),
            final(self).matches@.map_values(|m: MatchResult| match_view(m)) == all_matches(
                old(self).templates@,
                sequence@,
            ),
            final(self).templates == old(self).templates,
    {
        let mut results: Vec<MatchResult> = Vec::new();
        let mut kept: Vec<MatchResult> = Vec::new();
        let mut k: usize = 0;
        while k < self.templates.len()
            invariant
                k <= self.templates@.len(),
                self.templates == old(self).templates,
                forall|j: int|
                    0 <= j < self.templates@.len() ==> #[trigger] self.templates@[j].state_sequence@.len()
                        > 0,
                results@.map_values(|m: MatchResult| match_view(m)) == all_matches(
                    self.templates@.take(k as int),
                    sequence@,
                ),
                kept@.map_values(|m: MatchResult| match_view(m)) == all_matches(
                    self.templates@.take(k as int),
                    sequence@,
                ),
            decreases self.templates.len() - k,
        {
            let template = &self.templates[k];
            let ghost before = results@.map_values(|m: MatchResult| match_view(m));
            scan_template(template, sequence, &mut results, &mut kept);
            proof {
                assert(self.templates@.take(k + 1).drop_last() =~= self.templates@.take(k as int));
            }
            k = k + 1;
        }
        assert(self.templates@.take(self.templates@.len() as int) =~= self.templates@);
        self.matches = kept;
        results
    }

    /// The number of templates and of matches found by the last scan.
    pub fn summary(&self) -> (r: String)
        ensures
            r@ == "Pattern Matcher:\n  Templates: "@ + dec(self.templates@.len())
                + "\n  Matches found: "@ + dec(self.matches@.len()),
    {
        let mut o = String::from_str("Pattern Matcher:\n  Templates: ");
        push_dec(&mut o, self.templates.len() as u64);
        o.append("\n  Matches found: ");
        push_dec(&mut o, self.matches.len() as u64);
        o
    }

    /// The smallest period from 2 up to half the length with which the sequence repeats.
    pub fn detect_periodicity(&self, sequence: &[u32]) -> (r: Option<usize>)
        ensures
            r matches Some(p) ==> 2 <= p <= sequence@.len() / 2 && has_period(sequence@, p as int)
                && forall|q: int|
                2 <= q < p ==> !has_period(sequence@, q) && exists|i: int|
                    q <= i < sequence@.len() && #[trigger] sequence@[i] != sequence@[i % q],
            r matches Some(p) ==> forall|i: int|
                p <= i < sequence@.len() ==> #[trigger] sequence@[i] == sequence@[i % (p as int)],
            r is None ==> forall|q: int|
                2 <= q <= sequence@.len() / 2 ==> !has_period(sequence@, q) && exists|i: int|
                    q <= i < sequence@.len() && #[trigger] sequence@[i] != sequence@[i % q],
    {
        if sequence.len() < 4 {
            return None;
        }
        let r = smallest_period(sequence);
        proof {
            if r is Some {
                let p = r.unwrap() as int;
                assert forall|q: int| 2 <= q < p implies !has_period(sequence@, q) && exists|i: int|
                    q <= i < sequence@.len() && #[trigger] sequence@[i] != sequence@[i % q] by {
                    assert(!has_period(sequence@, q));
                }
            } else {
                assert forall|q: int| 2 <= q <= sequence@.len() / 2 implies !has_period(sequence@, q)
                    && exists|i: int|
                    q <= i < sequence@.len() && #[trigger] sequence@[i] != sequence@[i % q] by {
                    assert(!has_period(sequence@, q));
                }
            }
        }
        r
    }

    /// Looks for a repeated state with two pointers, one moving by one and one by two; at the
    /// first meeting that points to a cycle shorter than the sequence, reports where the cycle
    /// starts (the first occurrence of the meeting value) and its length (the distance to the
    /// next occurrence of that value, or to the end).
    pub fn detect_cycle(&self, sequence: &[u32]) -> (r: Option<(usize, usize)>)
        ensures
            r matches Some((start, length)) ==> exists|k: int|
                #[trigger] reports_cycle(sequence@, k) && cycle_at(sequence@, k) == (
                    start as int,
                    length as int,
                ) && forall|j: int| 1 <= j < k ==> !reports_cycle(sequence@, j),
            r is None ==> forall|k: int| !reports_cycle(sequence@, k),
    {
        let n = sequence.len();
        if n < 2 {
            return None;
        }
        let mut slow: usize = 0;
        let mut fast: usize = 0;
        loop
            invariant
                n == sequence@.len(),
                n >= 2,
                fast == 2 * slow,
                fast < n,
                forall|j: int| 1 <= j <= slow ==> !reports_cycle(sequence@, j),
            decreases n - slow,
        {
            if n - fast <= 2 {
                proof {
                    assert forall|k: int| !reports_cycle(sequence@, k) by {
                        if 1 <= k && 2 * k < n {
                            assert(k <= slow);
                        }
                    }
                }
                return None;
            }
            slow = slow + 1;
            fast = fast + 2;
            if sequence[slow] == sequence[fast] {
                let v = sequence[slow];
                let mut s: usize = 0;
                proof {
                    lemma_index_from(sequence@, v, 0);
                }
                while sequence[s] != v
                    invariant
                        s <= slow < n,
                        n == sequence@.len(),
                        sequence@[slow as int] == v,
                        index_from(sequence@, v, 0) == index_from(sequence@, v, s as int),
                    decreases slow - s,
                {
                    s = s + 1;
                }
                let start = s;
                let mut length: usize = 1;
                let mut pos: usize = start + 1;
                while pos < n && sequence[pos] != sequence[start]
                    invariant
                        start < pos <= n,
                        n == sequence@.len(),
                        length == pos - start,
                        index_from(sequence@, sequence@[start as int], start + 1) == index_from(
                            sequence@,
                            sequence@[start as int],
                            pos as int,
                        ),
                    decreases n - pos,
                {
                    pos = pos + 1;
                    length = length + 1;
                }
                proof {
                    assert(index_from(sequence@, sequence@[start as int], pos as int) == pos);
                    assert(cycle_at(sequence@, slow as int) == (start as int, length as int));
                }
                if length < n {
                    assert(reports_cycle(sequence@, slow as int));
                    return Some((start, length));
                }
            }
        }
    }
}

/// The smallest period from 2 up to half the length with which `sequence` repeats.
pub fn smallest_period(sequence: &[u32]) -> (r: Option<usize>)
    ensures
        r matches Some(p) ==> 2 <= p <= sequence@.len() / 2 && has_period(sequence@, p as int)
            && forall|q: int|
            2 <= q < p ==> !has_period(sequence@, q) && exists|i: int|
                q <= i < sequence@.len() && #[trigger] sequence@[i] != sequence@[i % q],
        r matches Some(p) ==> forall|i: int|
            p <= i < sequence@.len() ==> #[trigger] sequence@[i] == sequence@[i % (p as int)],
        r is None ==> forall|q: int|
            2 <= q <= sequence@.len() / 2 ==> !has_period(sequence@, q) && exists|i: int|
                q <= i < sequence@.len() && #[trigger] sequence@[i] != sequence@[i % q],
{
    let half = sequence.len() / 2;
    let mut period: usize = 2;
    while period <= half
        invariant
            2 <= period,
            period <= half + 1 || period == 2,
            half == sequence@.len() / 2,
            half <= sequence.len(),
            period <= half ==> half < sequence.len(),
            forall|q: int| 2 <= q < period ==> !has_period(sequence@, q),
        decreases half + 1 - period,
    {
        let mut is_periodic = true;
        let mut i: usize = period;
        while i < sequence.len() && is_periodic
            invariant
                2 <= period <= half,
                half < sequence.len(),
                period <= i <= sequence@.len(),
                is_periodic ==> forall|j: int|
                    period <= j < i ==> #[trigger] sequence@[j] == sequence@[j % (period as int)],
                !is_periodic ==> !has_period(sequence@, period as int),
            decreases sequence.len() - i + (if is_periodic { 1int } else { 0int }),
        {
            if sequence[i] != sequence[i % period] {
                is_periodic = false;
            } else {
                i = i + 1;
            }
        }
        if is_periodic {
            return Some(period);
        }
        period = period + 1;
    }
    None
}

/// Appends the matches of `template` in `sequence` to both `results` and `kept`.
fn scan_template(
    template: &PatternTemplate,
    sequence: &[u32],
    results: &mut Vec<MatchResult>,
    kept: &mut Vec<MatchResult>,
)
    requires
        template.state_sequence@.len() > 0,
    ensures
        final(results)@.map_values(|m: MatchResult| match_view(m)) == old(results)@.map_values(
            |m: MatchResult| match_view(m),
        ) + template_matches(*template, sequence@),
        final(kept)@.map_values(|m: MatchResult| match_view(m)) == old(kept)@.map_values(
            |m: MatchResult| match_view(m),
        ) + template_matches(*template, sequence@),
{
    let pat = &template.state_sequence;
    let plen = pat.len();
    let n = sequence.len();
    let ghost spans = scan_matches(sequence@, pat@, template.min_occurrences as nat, 0, 0);
    let ghost r0 = old(results)@.map_values(|m: MatchResult| match_view(m));
    let ghost k0 = old(kept)@.map_values(|m: MatchResult| match_view(m));
    let ghost name = template.name@;
    let mut occurrences: usize = 0;
    let mut i: usize = 0;
    let limit: usize = if n >= plen {
        n - plen
    } else {
        0
    };
    while i <= limit
        invariant
            plen == pat@.len(),
            plen > 0,
            n == sequence@.len(),
            limit == (if n >= plen { n - plen } else { 0 }),
            occurrences <= i,
            i <= n + 1,
            name == template.name@,
            spans == scan_matches(sequence@, pat@, template.min_occurrences as nat, 0, 0),
            ({
                let done_r = results@.map_values(|m: MatchResult| match_view(m));
                let rest = scan_matches(
                    sequence@,
                    pat@,
                    template.min_occurrences as nat,
                    i as int,
                    occurrences as nat,
                );
                done_r + rest.map_values(|m: (u64, u64)| (name, m.0, m.1)) == r0 + spans.map_values(
                    |m: (u64, u64)| (name, m.0, m.1),
                )
            }),
            ({
                let done_k = kept@.map_values(|m: MatchResult| match_view(m));
                let rest = scan_matches(
                    sequence@,
                    pat@,
                    template.min_occurrences as nat,
                    i as int,
                    occurrences as nat,
                );
                done_k + rest.map_values(|m: (u64, u64)| (name, m.0, m.1)) == k0 + spans.map_values(
                    |m: (u64, u64)| (name, m.0, m.1),
                )
            }),
        decreases n + 1 - i,
    {
        let ghost min = template.min_occurrences as nat;
        let ghost rest_before = scan_matches(sequence@, pat@, min, i as int, occurrences as nat);
        let ghost done_r = results@.map_values(|m: MatchResult| match_view(m));
        let ghost done_k = kept@.map_values(|m: MatchResult| match_view(m));
        if occurs_here(sequence, i, pat) {
            occurrences = occurrences + 1;
            if occurrences >= template.min_occurrences {
                results.push(
                    MatchResult {
                        pattern_name: template.name.clone(),
                        start_step: i as u64,
                        end_step: (i + plen) as u64,
                    },
                );
                kept.push(
                    MatchResult {
                        pattern_name: template.name.clone(),
                        start_step: i as u64,
                        end_step: (i + plen) as u64,
                    },
                );
            }
            proof {
                let rest_after = scan_matches(sequence@, pat@, min, i + plen, occurrences as nat);
                let f = |m: (u64, u64)| (name, m.0, m.1);
                let here = if occurrences >= min {
                    seq![(i as u64, (i + plen) as u64)]
                } else {
                    Seq::<(u64, u64)>::empty()
                };
                assert(rest_before == here + rest_after);
                assert(rest_before.map_values(f) =~= here.map_values(f) + rest_after.map_values(f));
                assert(results@.map_values(|m: MatchResult| match_view(m)) =~= done_r + here.map_values(f));
                assert(kept@.map_values(|m: MatchResult| match_view(m)) =~= done_k + here.map_values(f));
                assert(done_r + rest_before.map_values(f) =~= (done_r + here.map_values(f))
                    + rest_after.map_values(f));
                assert(done_k + rest_before.map_values(f) =~= (done_k + here.map_values(f))
                    + rest_after.map_values(f));
            }
            i = i + plen;
        } else {
            i = i + 1;
        }
    }
    proof {
        let rest = scan_matches(
            sequence@,
            pat@,
            template.min_occurrences as nat,
            i as int,
            occurrences as nat,
        );
        assert(rest == Seq::<(u64, u64)>::empty());
        assert(rest.map_values(|m: (u64, u64)| (name, m.0, m.1)) =~= Seq::<(Seq<char>, u64, u64)>::empty());
        assert(results@.map_values(|m: MatchResult| match_view(m)) =~= results@.map_values(
            |m: MatchResult| match_view(m),
        ) + Seq::<(Seq<char>, u64, u64)>::empty());
        assert(kept@.map_values(|m: MatchResult| match_view(m)) =~= kept@.map_values(
            |m: MatchResult| match_view(m),
        ) + Seq::<(Seq<char>, u64, u64)>::empty());
    }
}

/// Whether `pat` occurs in `sequence` at offset `i`.
fn occurs_here(sequence: &[u32], i: usize, pat: &Vec<u32>) -> (r: bool)
    ensures
        r == occurs_at(sequence@, pat@, i as int),
{
    if i > sequence.len() || sequence.len() - i < pat.len() {
        return false;
    }
    let mut j: usize = 0;
    while j < pat.len()
        invariant
            i + pat@.len() <= sequence.len(),
            j <= pat@.len(),
            forall|k: int| 0 <= k < j ==> sequence@[i + k] == pat@[k],
        decreases pat.len() - j,
    {
        if sequence[i + j] != pat[j] {
            assert(sequence@.subrange(i as int, i + pat@.len())[j as int] != pat@[j as int]);
            return false;
        }
        j = j + 1;
    }
    assert(sequence@.subrange(i as int, i + pat@.len()) =~= pat@);
    true
}

} // verus!
