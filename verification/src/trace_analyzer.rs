//! Analysis of execution traces built from snapshots: state histograms, head movements and
//! the overall shape of the run.
use vstd::prelude::*;
use crate::pattern::{has_period, smallest_period};
use crate::snapshot::Snapshot;
use crate::text::{dec, push_dec};

verus! {

#[derive(Debug, Clone, Copy, PartialEq, Eq, Structural)]
pub enum TracePattern {
    Linear,
    Periodic,
    Divergent,
    Convergent,
    Chaotic,
    Constant,
}

impl TracePattern {
    /// The name of the pattern.
    pub open spec fn spec_name(self) -> Seq<char> {
        match self {
            TracePattern::Linear => "Linear"@,
            TracePattern::Periodic => "Periodic"@,
            TracePattern::Divergent => "Divergent"@,
            TracePattern::Convergent => "Convergent"@,
            TracePattern::Chaotic => "Chaotic"@,
            TracePattern::Constant => "Constant"@,
        }
    }

    /// The name of the pattern.
    pub fn name(self) -> (r: &'static str)
        ensures
            r@ == self.spec_name(),
    {
        match self {
            TracePattern::Linear => "Linear",
            TracePattern::Periodic => "Periodic",
            TracePattern::Divergent => "Divergent",
            TracePattern::Convergent => "Convergent",
            TracePattern::Chaotic => "Chaotic",
            TracePattern::Constant => "Constant",
        }
    }
}

#[derive(Debug, Clone, Copy)]
pub struct TraceEvent {
    pub step: u64,
    pub state: u32,
    pub input_head: u32,
    pub work_head: u32,
    pub output_head: u32,
}

/// The trace event that a snapshot records.
pub open spec fn event_of(s: Snapshot) -> TraceEvent {
    TraceEvent {
        step: s.metadata.step_number as u64,
        state: s.metadata.current_state,
        input_head: s.metadata.input_head,
        work_head: s.metadata.work_head,
        output_head: s.metadata.output_head,
    }
}

/// The largest state of the events, 0 when there are none.
pub open spec fn max_state(events: Seq<TraceEvent>) -> u32
    decreases events.len(),
{
    if events.len() == 0 {
        0
    } else if max_state(events.drop_last()) >= events.last().state {
        max_state(events.drop_last())
    } else {
        events.last().state
    }
}

/// How many events are in state `k`.
pub open spec fn count_state(events: Seq<TraceEvent>, k: int) -> nat
    decreases events.len(),
{
    if events.len() == 0 {
        0
    } else {
        count_state(events.drop_last(), k) + (if events.last().state == k {
            1nat
        } else {
            0nat
        })
    }
}

/// The histogram of states: one count for each state from 0 to the largest.
pub open spec fn histogram_of(events: Seq<TraceEvent>) -> Seq<u64> {
    Seq::new((max_state(events) + 1) as nat, |k: int| count_state(events, k) as u64)
}

/// The change of a head position from `a` to `b`, both read as 32-bit signed numbers.
pub open spec fn head_delta(a: u32, b: u32) -> int {
    (b as i32) - (a as i32)
}

/// Whether a head change fits a 32-bit signed number.
pub open spec fn delta_fits(a: u32, b: u32) -> bool {
    i32::MIN <= head_delta(a, b) <= i32::MAX
}

/// Whether the head changes from event `i` to event `i + 1` fit 32-bit signed numbers.
pub open spec fn step_deltas_fit(events: Seq<TraceEvent>, i: int) -> bool {
    &&& delta_fits(events[i].input_head, events[i + 1].input_head)
    &&& delta_fits(events[i].work_head, events[i + 1].work_head)
    &&& delta_fits(events[i].output_head, events[i + 1].output_head)
}

/// Whether every head change between consecutive events fits a 32-bit signed number.
pub open spec fn deltas_fit(events: Seq<TraceEvent>) -> bool {
    forall|i: int| 0 <= i < events.len() - 1 ==> #[trigger] step_deltas_fit(events, i)
}

/// The head movements between consecutive events: input, work, control (always 0), output.
pub open spec fn movements_of(events: Seq<TraceEvent>) -> Seq<(i32, i32, i32, i32)> {
    Seq::new(
        (if events.len() == 0 {
            0
        } else {
            events.len() - 1
        }) as nat,
        |i: int|
            (
                head_delta(events[i].input_head, events[i + 1].input_head) as i32,
                head_delta(events[i].work_head, events[i + 1].work_head) as i32,
                0i32,
                head_delta(events[i].output_head, events[i + 1].output_head) as i32,
            ),
    )
}

/// The total work-head drift of the movements.
pub open spec fn work_drift(m: Seq<(i32, i32, i32, i32)>) -> int
    decreases m.len(),
{
    if m.len() == 0 {
        0
    } else {
        work_drift(m.drop_last()) + m.last().1
    }
}

/// The visited states of the events.
pub open spec fn states_of(events: Seq<TraceEvent>) -> Seq<u32> {
    events.map_values(|e: TraceEvent| e.state)
}

/// Whether the states repeat with some period from 2 up to half their number and at most 32.
pub open spec fn short_periodic(states: Seq<u32>) -> bool {
    exists|p: int| 2 <= p <= states.len() / 2 && p <= 32 && has_period(states, p)
}

/// The shape of a trace. With drift `d` over `t` movements the mean drift `d / t` decides,
/// compared exactly: below 0.01 in size is constant, above 0.5 divergent, below -0.5
/// convergent, and linear otherwise.
pub open spec fn pattern_of(events: Seq<TraceEvent>, m: Seq<(i32, i32, i32, i32)>) -> TracePattern {
    if events.len() < 4 {
        TracePattern::Constant
    } else if forall|i: int| 0 <= i < events.len() ==> #[trigger] events[i].state == events[0].state {
        TracePattern::Constant
    } else if short_periodic(states_of(events)) {
        TracePattern::Periodic
    } else if m.len() == 0 {
        TracePattern::Constant
    } else {
        let d = work_drift(m);
        let t = m.len() as int;
        if 100 * (if d < 0 {
            -d
        } else {
            d
        }) < t {
            TracePattern::Constant
        } else if 2 * d > t {
            TracePattern::Divergent
        } else if 2 * d < -t {
            TracePattern::Convergent
        } else {
            TracePattern::Linear
        }
    }
}

/// How a trace of at least four events is classified: a trace that stays in its first state
/// throughout is Constant; one in which some event, the last included, leaves the first state
/// is Constant only when its work head barely drifts (mean below 0.01 in size) or it has no
/// movements; and when the states are not periodic and there are movements, the mean
/// work-head drift decides between Constant, Divergent (above 0.5), Convergent (below -0.5)
/// and Linear.
pub proof fn lemma_trace_pattern_classification(
    events: Seq<TraceEvent>,
    m: Seq<(i32, i32, i32, i32)>,
)
    requires
        events.len() >= 4,
    ensures
        (forall|i: int| 0 <= i < events.len() ==> #[trigger] events[i].state == events[0].state)
            ==> pattern_of(events, m) == TracePattern::Constant,
        ({
            let d = work_drift(m);
            let t = m.len() as int;
            &&& (exists|i: int| 0 <= i < events.len() && #[trigger] events[i].state != events[0].state)
                ==> (pattern_of(events, m) == TracePattern::Constant ==> t == 0 || (100 * d < t
                && -100 * d < t))
            &&& events[events.len() - 1].state != events[0].state ==> (pattern_of(events, m)
                == TracePattern::Constant ==> t == 0 || (100 * d < t && -100 * d < t))
            &&& (exists|i: int| 0 <= i < events.len() && #[trigger] events[i].state != events[0].state)
                && !short_periodic(states_of(events)) && t > 0 ==> {
                &&& 100 * d < t && -100 * d < t ==> pattern_of(events, m) == TracePattern::Constant
                &&& 2 * d > t ==> pattern_of(events, m) == TracePattern::Divergent
                &&& 2 * d < -t ==> pattern_of(events, m) == TracePattern::Convergent
                &&& (100 * d >= t || -100 * d >= t) && -t <= 2 * d <= t ==> pattern_of(events, m)
                    == TracePattern::Linear
            }
        }),
{
    let n = events.len() as int;
    if events[n - 1].state != events[0].state {
        assert(!(forall|i: int| 0 <= i < events.len() ==> #[trigger] events[i].state == events[0].state));
    }
    if exists|i: int| 0 <= i < events.len() && #[trigger] events[i].state != events[0].state {
        let i = choose|i: int| 0 <= i < events.len() && #[trigger] events[i].state != events[0].state;
        assert(!(forall|i: int| 0 <= i < events.len() ==> #[trigger] events[i].state == events[0].state));
    }
}

/// How many entries of a histogram are nonzero.
pub open spec fn nonzero_count(h: Seq<u64>) -> nat
    decreases h.len(),
{
    if h.len() == 0 {
        0
    } else {
        nonzero_count(h.drop_last()) + (if h.last() > 0 {
            1nat
        } else {
            0nat
        })
    }
}

#[derive(Debug, Clone)]
pub struct TraceAnalyzer {
    pub events: Vec<TraceEvent>,
    state_histogram: Vec<u64>,
    head_movements: Vec<(i32, i32, i32, i32)>,
}

impl TraceAnalyzer {
    /// The events of the trace.
    pub closed spec fn events_view(&self) -> Seq<TraceEvent> {
        self.events@
    }

    /// The state histogram computed when the trace was built from snapshots.
    pub closed spec fn histogram_view(&self) -> Seq<u64> {
        self.state_histogram@
    }

    /// The head movements computed when the trace was built from snapshots.
    pub closed spec fn movements_view(&self) -> Seq<(i32, i32, i32, i32)> {
        self.head_movements@
    }

    /// An empty trace.
    pub fn new() -> (r: Self)
        ensures
            r.events_view() == Seq::<TraceEvent>::empty(),
            r.histogram_view() == Seq::<u64>::empty(),
            r.movements_view() == Seq::<(i32, i32, i32, i32)>::empty(),
    {
        TraceAnalyzer { events: Vec::new(), state_histogram: Vec::new(), head_movements: Vec::new() }
    }

    /// The trace of the given snapshots, with its state histogram and head movements.
    pub fn from_snapshots(snapshots: &[Snapshot]) -> (r: Self)
        requires
            forall|i: int|
                0 <= i < snapshots@.len() ==> #[trigger] snapshots@[i].metadata.current_state
                    < u32::MAX,
            deltas_fit(snapshots@.map_values(|s: Snapshot| event_of(s))),
        ensures
            r.events_view() == snapshots@.map_values(|s: Snapshot| event_of(s)),
            r.histogram_view() == histogram_of(r.events_view()),
            r.movements_view() == movements_of(r.events_view()),
    {
        let mut analyzer = TraceAnalyzer::new();
        let mut i: usize = 0;
        while i < snapshots.len()
            invariant
                i <= snapshots@.len(),
                analyzer.events@ == snapshots@.take(i as int).map_values(|s: Snapshot| event_of(s)),
            decreases snapshots.len() - i,
        {
            let snap = &snapshots[i];
            analyzer.events.push(
                TraceEvent {
                    step: snap.metadata.step_number as u64,
                    state: snap.metadata.current_state,
                    input_head: snap.metadata.input_head,
                    work_head: snap.metadata.work_head,
                    output_head: snap.metadata.output_head,
                },
            );
            i = i + 1;
            assert(analyzer.events@ =~= snapshots@.take(i as int).map_values(
                |s: Snapshot| event_of(s),
            ));
        }
        assert(snapshots@.take(snapshots@.len() as int) =~= snapshots@);
        analyzer.compute_histograms();
        analyzer
    }

    fn compute_histograms(&mut self)
        requires
            forall|i: int| 0 <= i < old(self).events@.len() ==> #[trigger] old(self).events@[i].state < u32::MAX,
            deltas_fit(old(self).events@),
        ensures
            final(self).events == old(self).events,
            final(self).state_histogram@ == histogram_of(old(self).events@),
            final(self).head_movements@ == movements_of(old(self).events@),
    {
        let n = self.events.len();
        let mut top: u32 = 0;
        let mut i: usize = 0;
        while i < n
            invariant
                n == self.events@.len(),
                i <= n,
                top == max_state(self.events@.take(i as int)),
            decreases n - i,
        {
            if self.events[i].state > top {
                top = self.events[i].state;
            }
            proof {
                assert(self.events@.take(i + 1).drop_last() =~= self.events@.take(i as int));
            }
            i = i + 1;
        }
        assert(self.events@.take(n as int) =~= self.events@);
        proof {
            lemma_max_state_bound(self.events@);
            lemma_max_state_below(self.events@);
        }
        let size = top + 1;
        let mut hist: Vec<u64> = Vec::new();
        let mut k: u32 = 0;
        while k < size
            invariant
                k <= size,
                hist@.len() == k,
                forall|j: int| 0 <= j < k ==> hist@[j] == 0,
            decreases size - k,
        {
            hist.push(0);
            k = k + 1;
        }
        let mut e: usize = 0;
        while e < n
            invariant
                n == self.events@.len(),
                e <= n,
                size == max_state(self.events@) + 1,
                hist@.len() == size,
                forall|s: int| 0 <= s < n ==> #[trigger] self.events@[s].state <= max_state(self.events@),
                forall|j: int| 0 <= j < size ==> #[trigger] hist@[j] == count_state(self.events@.take(e as int), j),
            decreases n - e,
        {
            let st = self.events[e].state as usize;
            proof {
                lemma_count_state_le(self.events@.take(e as int), st as int);
            }
            hist.set(st, hist[st] + 1);
            proof {
                assert(self.events@.take(e + 1).drop_last() =~= self.events@.take(e as int));
            }
            e = e + 1;
        }
        assert(self.events@.take(n as int) =~= self.events@);
        assert(hist@ =~= histogram_of(self.events@));
        self.state_histogram = hist;
        let mut moves: Vec<(i32, i32, i32, i32)> = Vec::new();
        let mut w: usize = 0;
        while w + 1 < n
            invariant
                n == self.events@.len(),
                deltas_fit(self.events@),
                w <= n,
                w + 1 >= n ==> w == (if n == 0 { 0 } else { n - 1 }),
                moves@ == movements_of(self.events@).take(w as int),
            decreases n - w,
        {
            let a = self.events[w];
            let b = self.events[w + 1];
            assert(step_deltas_fit(self.events@, w as int));
            moves.push(
                (
                    #[verifier::truncate] (b.input_head as i32) - #[verifier::truncate] (a.input_head as i32),
                    #[verifier::truncate] (b.work_head as i32) - #[verifier::truncate] (a.work_head as i32),
                    0,
                    #[verifier::truncate] (b.output_head as i32) - #[verifier::truncate] (a.output_head as i32),
                ),
            );
            w = w + 1;
            assert(moves@ =~= movements_of(self.events@).take(w as int));
        }
        assert(movements_of(self.events@).take(w as int) =~= movements_of(self.events@));
        self.head_movements = moves;
    }

    /// The shape of the trace (see `pattern_of`), judged from the events and the head
    /// movements computed when the trace was built.
    pub fn detect_pattern(&self) -> (r: TracePattern)
        requires
            self.movements_view().len() <= u32::MAX,
        ensures
            r == pattern_of(self.events_view(), self.movements_view()),
    {
        if self.events.len() < 4 {
            return TracePattern::Constant;
        }
        let first_state = self.events[0].state;
        let mut all_same = true;
        let mut i: usize = 0;
        while i < self.events.len()
            invariant
                i <= self.events@.len(),
                first_state == self.events@[0].state,
                all_same == forall|j: int| 0 <= j < i ==> #[trigger] self.events@[j].state == first_state,
            decreases self.events.len() - i,
        {
            if self.events[i].state != first_state {
                all_same = false;
            }
            i = i + 1;
        }
        if all_same {
            return TracePattern::Constant;
        }
        if self.is_periodic() {
            return TracePattern::Periodic;
        }
        let total = self.head_movements.len();
        let mut drift: i64 = 0;
        let mut k: usize = 0;
        while k < total
            invariant
                total == self.head_movements@.len(),
                total <= u32::MAX,
                k <= total,
                drift == work_drift(self.head_movements@.take(k as int)),
                -0x8000_0000 * k <= drift <= 0x7FFF_FFFF * k,
            decreases total - k,
        {
            proof {
                assert(self.head_movements@.take(k + 1).drop_last() =~= self.head_movements@.take(k as int));
                assert(-0x8000_0000 * k <= drift <= 0x7FFF_FFFF * k);
            }
            drift = drift + self.head_movements[k].1 as i64;
            k = k + 1;
        }
        assert(self.head_movements@.take(total as int) =~= self.head_movements@);
        if total == 0 {
            return TracePattern::Constant;
        }
        let t = total as i128;
        let d = drift as i128;
        let magnitude: i128 = if d < 0 {
            -d
        } else {
            d
        };
        if 100 * magnitude < t {
            TracePattern::Constant
        } else if 2 * d > t {
            TracePattern::Divergent
        } else if 2 * d < -t {
            TracePattern::Convergent
        } else {
            TracePattern::Linear
        }
    }

    fn is_periodic(&self) -> (r: bool)
        ensures
            r == short_periodic(states_of(self.events@)),
    {
        let mut states: Vec<u32> = Vec::new();
        let mut i: usize = 0;
        while i < self.events.len()
            invariant
                i <= self.events@.len(),
                states@ == states_of(self.events@).take(i as int),
            decreases self.events.len() - i,
        {
            states.push(self.events[i].state);
            i = i + 1;
            assert(states@ =~= states_of(self.events@).take(i as int));
        }
        assert(states@ =~= states_of(self.events@));
        match smallest_period(states.as_slice()) {
            Some(p) => {
                if p <= 32 {
                    true
                } else {
                    proof {
                        assert forall|q: int|
                            2 <= q <= states@.len() / 2 && q <= 32 implies !has_period(states@, q) by {
                            assert(q < p);
                        }
                    }
                    false
                }
            },
            None => false,
        }
    }

    /// The state histogram.
    pub fn state_histogram(&self) -> (r: &Vec<u64>)
        ensures
            r@ == self.histogram_view(),
    {
        &self.state_histogram
    }

    /// The head movements.
    pub fn head_movements(&self) -> (r: &Vec<(i32, i32, i32, i32)>)
        ensures
            r@ == self.movements_view(),
    {
        &self.head_movements
    }

    /// The summary of the analysis. The entropy (three decimals) and the input and work head
    /// variances (two decimals) are floating-point figures and come already written.
    pub fn summary(&self, entropy: &str, input_variance: &str, work_variance: &str) -> (r: String)
        requires
            self.movements_view().len() <= u32::MAX,
        ensures
            r@ == "Trace Analysis:\n  Events: "@ + dec(self.events_view().len()) + "\n  Pattern: "@
                + pattern_of(self.events_view(), self.movements_view()).spec_name()
                + "\n  State Entropy: "@ + entropy@ + " bits\n  Input Head Variance: "@
                + input_variance@ + "\n  Work Head Variance: "@ + work_variance@
                + "\n  Unique States Visited: "@ + dec(nonzero_count(self.histogram_view())),
    {
        let pattern = self.detect_pattern();
        let mut o = String::from_str("Trace Analysis:\n  Events: ");
        push_dec(&mut o, self.events.len() as u64);
        o.append("\n  Pattern: ");
        o.append(pattern.name());
        o.append("\n  State Entropy: ");
        o.append(entropy);
        o.append(" bits\n  Input Head Variance: ");
        o.append(input_variance);
        o.append("\n  Work Head Variance: ");
        o.append(work_variance);
        o.append("\n  Unique States Visited: ");
        let unique = self.unique_states();
        push_dec(&mut o, unique as u64);
        o
    }

    /// How many states the histogram shows as visited.
    pub fn unique_states(&self) -> (r: usize)
        ensures
            r == nonzero_count(self.histogram_view()),
    {
        let mut count: usize = 0;
        let mut i: usize = 0;
        while i < self.state_histogram.len()
            invariant
                i <= self.state_histogram@.len(),
                count == nonzero_count(self.state_histogram@.take(i as int)),
                count <= i,
            decreases self.state_histogram.len() - i,
        {
            proof {
                assert(self.state_histogram@.take(i + 1).drop_last() =~= self.state_histogram@.take(i as int));
            }
            if self.state_histogram[i] > 0 {
                count = count + 1;
            }
            i = i + 1;
        }
        assert(self.state_histogram@.take(i as int) =~= self.state_histogram@);
        count
    }
}

/// The sum of the first `n` counts of a histogram.
pub open spec fn counts_below(events: Seq<TraceEvent>, n: nat) -> nat
    decreases n,
{
    if n == 0 {
        0
    } else {
        counts_below(events, (n - 1) as nat) + count_state(events, n - 1)
    }
}

/// The number of events whose state is below `n`.
pub open spec fn events_below(events: Seq<TraceEvent>, n: nat) -> nat
    decreases events.len(),
{
    if events.len() == 0 {
        0
    } else {
        events_below(events.drop_last(), n) + (if events.last().state < n {
            1nat
        } else {
            0nat
        })
    }
}

proof fn lemma_counts_below_events(events: Seq<TraceEvent>, n: nat)
    ensures
        counts_below(events, n) == events_below(events, n),
    decreases events.len(), n,
{
    if events.len() > 0 {
        let init = events.drop_last();
        let e = events.last();
        assert(counts_below(events, n) == counts_below(init, n) + (if e.state < n {
            1nat
        } else {
            0nat
        })) by {
            lemma_counts_below_push(init, e, n);
            assert(init.push(e) =~= events);
        }
        lemma_counts_below_events(init, n);
    } else {
        lemma_counts_below_empty(events, n);
    }
}

proof fn lemma_counts_below_empty(events: Seq<TraceEvent>, n: nat)
    requires
        events.len() == 0,
    ensures
        counts_below(events, n) == 0,
    decreases n,
{
    if n > 0 {
        lemma_counts_below_empty(events, (n - 1) as nat);
    }
}

proof fn lemma_counts_below_push(events: Seq<TraceEvent>, e: TraceEvent, n: nat)
    ensures
        counts_below(events.push(e), n) == counts_below(events, n) + (if e.state < n {
            1nat
        } else {
            0nat
        }),
    decreases n,
{
    if n > 0 {
        lemma_counts_below_push(events, e, (n - 1) as nat);
        assert(events.push(e).drop_last() =~= events);
    }
}

proof fn lemma_events_below_all(events: Seq<TraceEvent>, n: nat)
    requires
        forall|i: int| 0 <= i < events.len() ==> #[trigger] events[i].state < n,
    ensures
        events_below(events, n) == events.len(),
    decreases events.len(),
{
    if events.len() > 0 {
        assert forall|i: int| 0 <= i < events.drop_last().len() implies #[trigger] events.drop_last()[i].state
            < n by {
            assert(events.drop_last()[i] == events[i]);
        }
        lemma_events_below_all(events.drop_last(), n);
        assert(events[events.len() - 1].state < n);
    }
}

/// The state histogram counts every event exactly once: its counts add up to the number of
/// events.
pub proof fn lemma_histogram_counts_every_event(events: Seq<TraceEvent>)
    ensures
        counts_below(events, (max_state(events) + 1) as nat) == events.len(),
        forall|k: int|
            0 <= k <= max_state(events) ==> #[trigger] count_state(events, k) <= events.len(),
{
    lemma_max_state_bound(events);
    lemma_counts_below_events(events, (max_state(events) + 1) as nat);
    lemma_events_below_all(events, (max_state(events) + 1) as nat);
    assert forall|k: int| 0 <= k <= max_state(events) implies #[trigger] count_state(events, k)
        <= events.len() by {
        lemma_count_state_le(events, k);
    }
}

proof fn lemma_max_state_bound(events: Seq<TraceEvent>)
    ensures
        forall|i: int| 0 <= i < events.len() ==> #[trigger] events[i].state <= max_state(events),
    decreases events.len(),
{
    if events.len() > 0 {
        lemma_max_state_bound(events.drop_last());
        assert forall|i: int| 0 <= i < events.len() implies #[trigger] events[i].state <= max_state(events) by {
            if i < events.len() - 1 {
                assert(events.drop_last()[i] == events[i]);
            }
        }
    }
}

proof fn lemma_max_state_below(events: Seq<TraceEvent>)
    requires
        forall|i: int| 0 <= i < events.len() ==> #[trigger] events[i].state < u32::MAX,
    ensures
        max_state(events) < u32::MAX,
    decreases events.len(),
{
    if events.len() > 0 {
        assert forall|i: int| 0 <= i < events.drop_last().len() implies #[trigger] events.drop_last()[i].state
            < u32::MAX by {
            assert(events.drop_last()[i] == events[i]);
        }
        lemma_max_state_below(events.drop_last());
        assert(events[events.len() - 1].state < u32::MAX);
    }
}

proof fn lemma_count_state_le(events: Seq<TraceEvent>, k: int)
    ensures
        count_state(events, k) <= events.len(),
    decreases events.len(),
{
    if events.len() > 0 {
        lemma_count_state_le(events.drop_last(), k);
    }
}

} // verus!
