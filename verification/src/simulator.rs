//! The four-tape machine: one step at a time, or run until it stops.
use vstd::prelude::*;
use crate::header::new_header;
use crate::magic::Magic;
use crate::snapshot::{Snapshot, SnapshotMetadata};
use crate::tape::{cells_reaching, moved_head, symbol_at, HeadMove, Tape};
use crate::transition_table::{
    first_match, lemma_first_match_is_earliest_applying, StateRecord, StateType, TransitionRecord,
    TransitionTable,
};

verus! {

/// Limits of a simulation run. The polynomial step bound itself is computed by the caller
/// from the length of the input tape and handed to `Simulator::step`.
#[derive(Debug, Clone)]
pub struct SimulationConfig {
    pub max_steps: u64,
    pub snapshot_interval: u64,
    pub poly_degree: u32,
}

impl Default for SimulationConfig {
    fn default() -> (r: Self)
        ensures
            r.max_steps == 1_000_000,
            r.snapshot_interval == 1000,
            r.poly_degree == 1,
    {
        SimulationConfig { max_steps: 1_000_000, snapshot_interval: 1000, poly_degree: 1 }
    }
}

#[derive(Debug, Clone, Copy, PartialEq, Eq)]
pub enum StateTypeOutput {
    Accepting,
    Rejecting,
    Halting,
}

#[derive(Debug, Clone, PartialEq, Eq)]
pub enum StepResult {
    Continue,
    Halted { state_type: StateTypeOutput },
    Rejected,
    MaxStepsExceeded,
    NoTransition,
}

/// A tape as the machine sees it: the stored cells and the head position.
pub ghost struct TapeView {
    pub cells: Seq<u8>,
    pub head: nat,
}

/// The configuration of the machine: its four tapes, its state and its step count.
pub ghost struct MachineView {
    pub input: TapeView,
    pub work: TapeView,
    pub control: TapeView,
    pub output: TapeView,
    pub state: u32,
    pub steps: u64,
}

/// The tape as the machine sees it.
pub open spec fn tape_view(t: Tape) -> TapeView {
    TapeView { cells: t.cells@, head: t.head as nat }
}

/// The symbol under the head.
pub open spec fn head_symbol(t: TapeView) -> u8 {
    symbol_at(t.cells, t.head as int)
}

/// The move that a move code stands for: 0x00 left, 0x01 right, anything else stay.
pub open spec fn move_of(v: u8) -> HeadMove {
    if v == 0x00 {
        HeadMove::Left
    } else if v == 0x01 {
        HeadMove::Right
    } else {
        HeadMove::Stay
    }
}

/// The tape after writing `sym` under the head and then moving the head by `dir`.
pub open spec fn write_and_move(t: TapeView, sym: u8, dir: HeadMove) -> TapeView {
    let written = cells_reaching(t.cells, t.head).update(t.head as int, sym);
    TapeView {
        cells: if dir == HeadMove::Right {
            cells_reaching(written, t.head + 1)
        } else {
            written
        },
        head: moved_head(t.head, dir),
    }
}

/// The first state record of `states` from offset `i` on with index `index`.
pub open spec fn first_state_from(states: Seq<StateRecord>, i: int, index: u32) -> Option<
    StateRecord,
>
    decreases states.len() - i,
{
    if i < 0 || i >= states.len() {
        None
    } else if states[i].index == index {
        Some(states[i])
    } else {
        first_state_from(states, i + 1, index)
    }
}

/// What entering state `index` means: the kind of its first record decides.
pub open spec fn arrival_result(states: Seq<StateRecord>, index: u32) -> StepResult {
    match first_state_from(states, 0, index) {
        Some(s) => match s.state_type {
            StateType::Accepting => StepResult::Halted { state_type: StateTypeOutput::Accepting },
            StateType::Rejecting => StepResult::Rejected,
            StateType::Halting => StepResult::Halted { state_type: StateTypeOutput::Halting },
            _ => StepResult::Continue,
        },
        None => StepResult::Continue,
    }
}

/// Whether a step is refused for the step count: the polynomial bound (when nonzero) or the
/// maximal number of steps has been reached.
pub open spec fn over_budget(steps: u64, max_steps: u64, poly_bound: u64) -> bool {
    (steps >= poly_bound && poly_bound > 0) || steps >= max_steps
}

/// One step of the machine: the next configuration and what the step reports.
pub open spec fn machine_step(
    m: MachineView,
    states: Seq<StateRecord>,
    transitions: Seq<TransitionRecord>,
    max_steps: u64,
    poly_bound: u64,
) -> (MachineView, StepResult) {
    if over_budget(m.steps, max_steps, poly_bound) {
        (m, StepResult::MaxStepsExceeded)
    } else {
        match first_match(transitions, machine_key(m)) {
            None => (m, StepResult::NoTransition),
            Some(t) => {
                let next = MachineView {
                    input: write_and_move(m.input, t.write_input, move_of(t.move_input)),
                    work: write_and_move(m.work, t.write_work, move_of(t.move_work)),
                    control: write_and_move(m.control, t.write_control, move_of(t.move_control)),
                    output: write_and_move(m.output, t.write_output, move_of(t.move_output)),
                    state: t.target_state,
                    steps: (m.steps + 1) as u64,
                };
                (next, arrival_result(states, t.target_state))
            },
        }
    }
}

/// The key under which the machine looks up its next transition: its state and the four
/// symbols under the heads.
pub open spec fn machine_key(m: MachineView) -> (u32, u8, u8, u8, u8) {
    (m.state, head_symbol(m.input), head_symbol(m.work), head_symbol(m.control), head_symbol(m.output))
}

/// Whether a tape head can be written under and moved by `dir` without its position
/// overflowing.
pub open spec fn head_fits(t: TapeView, dir: HeadMove) -> bool {
    t.head < usize::MAX && (dir == HeadMove::Right ==> t.head < usize::MAX - 1)
}

/// Whether a step can be taken without a head position overflowing: the step is refused for
/// the step count, or no transition applies, or every head can take the applying transition.
pub open spec fn step_fits(
    m: MachineView,
    transitions: Seq<TransitionRecord>,
    max_steps: u64,
    poly_bound: u64,
) -> bool {
    over_budget(m.steps, max_steps, poly_bound) || match first_match(transitions, machine_key(m)) {
        None => true,
        Some(t) => {
            &&& head_fits(m.input, move_of(t.move_input))
            &&& head_fits(m.work, move_of(t.move_work))
            &&& head_fits(m.control, move_of(t.move_control))
            &&& head_fits(m.output, move_of(t.move_output))
        },
    }
}

/// The snapshot metadata of a configuration; positions and lengths are cut to 32 bits.
pub open spec fn snapshot_of(m: MachineView) -> SnapshotMetadata {
    SnapshotMetadata {
        step_number: m.steps as u32,
        current_state: m.state,
        input_head: m.input.head as u32,
        work_head: m.work.head as u32,
        control_head: m.control.head as u32,
        output_head: m.output.head as u32,
        work_tape_len: m.work.cells.len() as u32,
        control_tape_len: m.control.cells.len() as u32,
    }
}

/// The snapshot that `take_snapshot` records for a configuration.
pub open spec fn snapshot_record(m: MachineView) -> Snapshot {
    Snapshot { header: new_header(Magic::SNAP, 32), metadata: snapshot_of(m) }
}

/// The polynomial step bound that `bound` gives for an input of length `n`.
pub open spec fn bound_for<F: Fn(u64) -> u64>(bound: F, n: u64) -> u64 {
    choose|r: u64| call_ensures(bound, (n,), r)
}

/// Whether `bound` gives one result for each input length.
pub open spec fn bound_is_function<F: Fn(u64) -> u64>(bound: F) -> bool {
    forall|n: u64, r1: u64, r2: u64|
        call_ensures(bound, (n,), r1) && call_ensures(bound, (n,), r2) ==> r1 == r2
}

/// A step that reports `Continue` advances the step count without passing the maximum.
pub proof fn lemma_continue_advances(
    m: MachineView,
    states: Seq<StateRecord>,
    transitions: Seq<TransitionRecord>,
    max_steps: u64,
    poly_bound: u64,
)
    ensures
        ({
            let (next, r) = machine_step(m, states, transitions, max_steps, poly_bound);
            &&& r is Continue ==> next.steps == m.steps + 1 && next.steps <= max_steps
            &&& next.steps >= m.steps
            &&& next.steps <= m.steps + 1
            &&& next.steps == m.steps ==> next == m
            &&& next.input.head <= m.input.head + 1
            &&& next.work.head <= m.work.head + 1
            &&& next.control.head <= m.control.head + 1
            &&& next.output.head <= m.output.head + 1
        }),
{
}

/// A run from configuration `m`: the configuration it stops in, the snapshots it takes,
/// and the result of its last step.
pub open spec fn machine_run<F: Fn(u64) -> u64>(
    m: MachineView,
    states: Seq<StateRecord>,
    transitions: Seq<TransitionRecord>,
    max_steps: u64,
    interval: u64,
    bound: F,
) -> (MachineView, Seq<Snapshot>, StepResult)
    decreases max_steps - m.steps,
{
    let b = bound_for(bound, m.input.cells.len() as u64);
    let (next, r) = machine_step(m, states, transitions, max_steps, b);
    let snaps = if interval != 0 && next.steps % interval == 0 {
        seq![snapshot_record(next)]
    } else {
        Seq::empty()
    };
    if r is Continue {
        proof {
            lemma_continue_advances(m, states, transitions, max_steps, b);
        }
        let (last, rest, result) = machine_run(next, states, transitions, max_steps, interval, bound);
        (last, snaps + rest, result)
    } else {
        (next, snaps, r)
    }
}

/// A run stops with a result other than `Continue`, and never counts past the maximal number
/// of steps (or past the count it started from, when that was already higher).
pub proof fn lemma_run_within_budget<F: Fn(u64) -> u64>(
    m: MachineView,
    states: Seq<StateRecord>,
    transitions: Seq<TransitionRecord>,
    max_steps: u64,
    interval: u64,
    bound: F,
)
    ensures
        ({
            let (last, snaps, result) = machine_run(m, states, transitions, max_steps, interval, bound);
            &&& !(result is Continue)
            &&& last.steps >= m.steps
            &&& last.steps <= (if m.steps > max_steps {
                m.steps
            } else {
                max_steps
            })
        }),
    decreases max_steps - m.steps,
{
    let b = bound_for(bound, m.input.cells.len() as u64);
    let (next, r) = machine_step(m, states, transitions, max_steps, b);
    lemma_continue_advances(m, states, transitions, max_steps, b);
    if r is Continue {
        lemma_run_within_budget(next, states, transitions, max_steps, interval, bound);
    }
}

/// The first record of `states` with index `index`, searched from offset `k`, is record `i`
/// when `i` is at or after `k` and is the first record with that index.
proof fn lemma_first_state_is_first_record(states: Seq<StateRecord>, k: int, i: int, index: u32)
    requires
        0 <= k <= i < states.len(),
        states[i].index == index,
        forall|j: int| 0 <= j < i ==> #[trigger] states[j].index != index,
    ensures
        first_state_from(states, k, index) == Some(states[i]),
    decreases i - k,
{
    if k < i {
        lemma_first_state_is_first_record(states, k + 1, i, index);
    }
}

/// No record is found from offset `k` when no record has index `index`.
proof fn lemma_first_state_absent(states: Seq<StateRecord>, k: int, index: u32)
    requires
        0 <= k,
        forall|j: int| 0 <= j < states.len() ==> #[trigger] states[j].index != index,
    ensures
        first_state_from(states, k, index) is None,
    decreases states.len() - k,
{
    if k < states.len() {
        lemma_first_state_absent(states, k + 1, index);
    }
}

/// A step that takes transition `t` enters `t.target_state`, and what it reports is fixed by
/// the kind of the first state record `states[i]` with that index: an Accepting state halts
/// as Accepting, a Halting state halts as Halting, a Rejecting state rejects, and a Normal or
/// Initial state lets the machine continue.
pub proof fn lemma_step_reports_kind_of_entered_state(
    m: MachineView,
    states: Seq<StateRecord>,
    transitions: Seq<TransitionRecord>,
    max_steps: u64,
    poly_bound: u64,
    t: TransitionRecord,
    i: int,
)
    requires
        !over_budget(m.steps, max_steps, poly_bound),
        first_match(transitions, machine_key(m)) == Some(t),
        0 <= i < states.len(),
        states[i].index == t.target_state,
        forall|j: int| 0 <= j < i ==> #[trigger] states[j].index != t.target_state,
    ensures
        ({
            let (next, r) = machine_step(m, states, transitions, max_steps, poly_bound);
            &&& next.state == t.target_state
            &&& next.steps == m.steps + 1
            &&& states[i].state_type == StateType::Accepting ==> r == StepResult::Halted {
                state_type: StateTypeOutput::Accepting,
            }
            &&& states[i].state_type == StateType::Halting ==> r == StepResult::Halted {
                state_type: StateTypeOutput::Halting,
            }
            &&& states[i].state_type == StateType::Rejecting ==> r == StepResult::Rejected
            &&& (states[i].state_type == StateType::Normal || states[i].state_type
                == StateType::Initial) ==> r == StepResult::Continue
            &&& (r == StepResult::Halted { state_type: StateTypeOutput::Accepting })
                <==> states[i].state_type == StateType::Accepting
            &&& (r == StepResult::Halted { state_type: StateTypeOutput::Halting })
                <==> states[i].state_type == StateType::Halting
            &&& (r == StepResult::Rejected) <==> states[i].state_type == StateType::Rejecting
        }),
{
    lemma_first_state_is_first_record(states, 0, i, t.target_state);
}

/// A step is refused, with `MaxStepsExceeded` and nothing changed, exactly when the step
/// count has reached the maximal number of steps or a nonzero polynomial bound; otherwise it
/// stops with `NoTransition`, nothing changed, exactly when no transition of the table reads
/// the current state and the symbols under the four heads.
pub proof fn lemma_step_refusals(
    m: MachineView,
    states: Seq<StateRecord>,
    transitions: Seq<TransitionRecord>,
    max_steps: u64,
    poly_bound: u64,
)
    ensures
        ({
            let (next, r) = machine_step(m, states, transitions, max_steps, poly_bound);
            let refused = m.steps >= max_steps || (poly_bound > 0 && m.steps >= poly_bound);
            let none_applies = forall|i: int|
                #![trigger transitions[i]]
                0 <= i < transitions.len() ==> !(transitions[i].source_state == m.state
                    && transitions[i].read_input == symbol_at(m.input.cells, m.input.head as int)
                    && transitions[i].read_work == symbol_at(m.work.cells, m.work.head as int)
                    && transitions[i].read_control == symbol_at(m.control.cells, m.control.head as int)
                    && transitions[i].read_output == symbol_at(m.output.cells, m.output.head as int));
            &&& (r == StepResult::MaxStepsExceeded) <==> refused
            &&& refused ==> next == m
            &&& !refused ==> ((r == StepResult::NoTransition) <==> none_applies)
            &&& r == StepResult::NoTransition ==> next == m
            &&& !refused && !none_applies ==> next.steps == m.steps + 1
        }),
{
    let key = machine_key(m);
    lemma_first_match_is_earliest_applying(transitions, key);
    if first_match(transitions, key) is None {
        assert forall|i: int| 0 <= i < transitions.len() implies !(transitions[i].source_state
            == m.state && transitions[i].read_input == symbol_at(m.input.cells, m.input.head as int)
            && transitions[i].read_work == symbol_at(m.work.cells, m.work.head as int)
            && transitions[i].read_control == symbol_at(m.control.cells, m.control.head as int)
            && transitions[i].read_output == symbol_at(m.output.cells, m.output.head as int)) by {
            assert(transitions[i].key() != key);
        }
    } else {
        let t = first_match(transitions, key).unwrap();
        let i = choose|i: int|
            0 <= i < transitions.len() && #[trigger] transitions[i] == t && t.source_state == key.0
                && t.read_input == key.1 && t.read_work == key.2 && t.read_control == key.3
                && t.read_output == key.4 && forall|j: int|
                0 <= j < i ==> #[trigger] transitions[j].key() != key;
        assert(transitions[i] == t);
    }
}

/// Writing `sym` and moving by `dir` leaves `sym` in the cell that was under the head, every
/// other cell as it read before, and the head one cell left (not past cell 0), one cell
/// right, or where it was.
proof fn lemma_write_and_move_effect(t: TapeView, sym: u8, dir: HeadMove)
    ensures
        symbol_at(write_and_move(t, sym, dir).cells, t.head as int) == sym,
        forall|c: int|
            c != t.head ==> #[trigger] symbol_at(write_and_move(t, sym, dir).cells, c) == symbol_at(
                t.cells,
                c,
            ),
        dir == HeadMove::Left ==> write_and_move(t, sym, dir).head == (if t.head > 0 {
            t.head - 1
        } else {
            0
        }),
        dir == HeadMove::Right ==> write_and_move(t, sym, dir).head == t.head + 1,
        dir == HeadMove::Stay ==> write_and_move(t, sym, dir).head == t.head,
{
    let reached = cells_reaching(t.cells, t.head);
    let written = reached.update(t.head as int, sym);
    assert(reached.len() > t.head);
    assert forall|c: int| 0 <= c < reached.len() implies #[trigger] reached[c] == symbol_at(
        t.cells,
        c,
    ) by {}
    let after = write_and_move(t, sym, dir).cells;
    assert(after.len() >= written.len());
    assert forall|c: int| 0 <= c < after.len() implies #[trigger] after[c] == symbol_at(written, c) by {}
}

/// A step that takes transition `t` writes the transition's symbol in the cell under each
/// head, leaves every other cell of every tape as it read before, moves each head by the
/// transition's move code (0x00 left, stopping at cell 0; 0x01 right; any other code stays),
/// and enters the transition's target state.
pub proof fn lemma_step_writes_and_moves(
    m: MachineView,
    states: Seq<StateRecord>,
    transitions: Seq<TransitionRecord>,
    max_steps: u64,
    poly_bound: u64,
    t: TransitionRecord,
)
    requires
        !over_budget(m.steps, max_steps, poly_bound),
        first_match(transitions, machine_key(m)) == Some(t),
    ensures
        ({
            let next = machine_step(m, states, transitions, max_steps, poly_bound).0;
            &&& next.state == t.target_state
            &&& next.steps == m.steps + 1
            &&& symbol_at(next.input.cells, m.input.head as int) == t.write_input
            &&& symbol_at(next.work.cells, m.work.head as int) == t.write_work
            &&& symbol_at(next.control.cells, m.control.head as int) == t.write_control
            &&& symbol_at(next.output.cells, m.output.head as int) == t.write_output
            &&& forall|c: int|
                c != m.input.head ==> #[trigger] symbol_at(next.input.cells, c) == symbol_at(
                    m.input.cells,
                    c,
                )
            &&& forall|c: int|
                c != m.work.head ==> #[trigger] symbol_at(next.work.cells, c) == symbol_at(
                    m.work.cells,
                    c,
                )
            &&& forall|c: int|
                c != m.control.head ==> #[trigger] symbol_at(next.control.cells, c) == symbol_at(
                    m.control.cells,
                    c,
                )
            &&& forall|c: int|
                c != m.output.head ==> #[trigger] symbol_at(next.output.cells, c) == symbol_at(
                    m.output.cells,
                    c,
                )
            &&& next.input.head == head_after(m.input.head, t.move_input)
            &&& next.work.head == head_after(m.work.head, t.move_work)
            &&& next.control.head == head_after(m.control.head, t.move_control)
            &&& next.output.head == head_after(m.output.head, t.move_output)
        }),
{
    lemma_write_and_move_effect(m.input, t.write_input, move_of(t.move_input));
    lemma_write_and_move_effect(m.work, t.write_work, move_of(t.move_work));
    lemma_write_and_move_effect(m.control, t.write_control, move_of(t.move_control));
    lemma_write_and_move_effect(m.output, t.write_output, move_of(t.move_output));
}

/// Where a head at `head` stands after the move with code `code`: 0x00 one cell left (cell 0
/// stays), 0x01 one cell right, any other code where it was.
pub open spec fn head_after(head: nat, code: u8) -> nat {
    if code == 0x00 {
        if head > 0 {
            (head - 1) as nat
        } else {
            0
        }
    } else if code == 0x01 {
        head + 1
    } else {
        head
    }
}

/// A step that takes transition `t` into a state that no state record describes continues.
pub proof fn lemma_step_into_undescribed_state_continues(
    m: MachineView,
    states: Seq<StateRecord>,
    transitions: Seq<TransitionRecord>,
    max_steps: u64,
    poly_bound: u64,
    t: TransitionRecord,
)
    requires
        !over_budget(m.steps, max_steps, poly_bound),
        first_match(transitions, machine_key(m)) == Some(t),
        forall|j: int| 0 <= j < states.len() ==> #[trigger] states[j].index != t.target_state,
    ensures
        ({
            let (next, r) = machine_step(m, states, transitions, max_steps, poly_bound);
            &&& next.state == t.target_state
            &&& r == StepResult::Continue
        }),
{
    lemma_first_state_absent(states, 0, t.target_state);
}

#[derive(Debug)]
pub struct Simulator {
    pub tape_input: Tape,
    pub tape_work: Tape,
    pub tape_control: Tape,
    pub tape_output: Tape,
    pub current_state: u32,
    pub step_count: u64,
    pub config: SimulationConfig,
    pub snapshots: Vec<Snapshot>,
}

/// The input bits that a text of `0` and `1` characters stands for: `1` for the character
/// `1`, `0` for any other byte.
pub open spec fn bits_of_text(text: Seq<u8>) -> Seq<u8> {
    text.map_values(|b: u8| if b == 0x31 { 1u8 } else { 0u8 })
}

/// Reads input bits from text: `1` for the character `1`, `0` for any other byte.
pub fn parse_input_bits(text: &[u8]) -> (r: Vec<u8>)
    ensures
        r@ == bits_of_text(text@),
{
    let mut bits: Vec<u8> = Vec::new();
    let mut i: usize = 0;
    while i < text.len()
        invariant
            i <= text@.len(),
            bits@ == bits_of_text(text@.take(i as int)),
        decreases text.len() - i,
    {
        bits.push(if text[i] == 0x31 { 1 } else { 0 });
        i = i + 1;
        assert(bits@ =~= bits_of_text(text@.take(i as int)));
    }
    assert(text@.take(text@.len() as int) =~= text@);
    bits
}

fn decode_move(v: u8) -> (r: HeadMove)
    ensures
        r == move_of(v),
{
    match v {
        0x00 => HeadMove::Left,
        0x01 => HeadMove::Right,
        _ => HeadMove::Stay,
    }
}

/// What entering state `index` means, found in `states`.
fn arrival(states: &Vec<StateRecord>, index: u32) -> (r: StepResult)
    ensures
        r == arrival_result(states@, index),
{
    let mut i: usize = 0;
    while i < states.len()
        invariant
            i <= states@.len(),
            first_state_from(states@, 0, index) == first_state_from(states@, i as int, index),
        decreases states.len() - i,
    {
        if states[i].index == index {
            return match states[i].state_type {
                StateType::Accepting => StepResult::Halted { state_type: StateTypeOutput::Accepting },
                StateType::Rejecting => StepResult::Rejected,
                StateType::Halting => StepResult::Halted { state_type: StateTypeOutput::Halting },
                _ => StepResult::Continue,
            };
        }
        i = i + 1;
    }
    StepResult::Continue
}

impl Simulator {
    /// The configuration of the machine.
    pub open spec fn machine(&self) -> MachineView {
        MachineView {
            input: tape_view(self.tape_input),
            work: tape_view(self.tape_work),
            control: tape_view(self.tape_control),
            output: tape_view(self.tape_output),
            state: self.current_state,
            steps: self.step_count,
        }
    }

    /// Whether no head is so far right that one more step could overflow its position.
    pub open spec fn heads_in_range(&self, steps_left: int) -> bool {
        &&& self.tape_input.head + steps_left < usize::MAX - 1
        &&& self.tape_work.head + steps_left < usize::MAX - 1
        &&& self.tape_control.head + steps_left < usize::MAX - 1
        &&& self.tape_output.head + steps_left < usize::MAX - 1
    }

    /// A machine in state 0 with blank tapes, no steps taken and no snapshots.
    pub fn new(config: SimulationConfig) -> (r: Self)
        ensures
            r.tape_input.cells@ == seq![crate::tape::BLANK] && r.tape_input.head == 0,
            r.tape_work.cells@ == seq![crate::tape::BLANK] && r.tape_work.head == 0,
            r.tape_control.cells@ == seq![crate::tape::BLANK] && r.tape_control.head == 0,
            r.tape_output.cells@ == seq![crate::tape::BLANK] && r.tape_output.head == 0,
            r.current_state == 0,
            r.step_count == 0,
            r.config == config,
            r.snapshots@ == Seq::<Snapshot>::empty(),
    {
        Simulator {
            tape_input: Tape::new(),
            tape_work: Tape::new(),
            tape_control: Tape::new(),
            tape_output: Tape::new(),
            current_state: 0,
            step_count: 0,
            config,
            snapshots: Vec::new(),
        }
    }

    /// Loads the input tape with `bits`.
    pub fn init_input(&mut self, bits: &[u8])
        ensures
            final(self).tape_input.cells@ == crate::tape::cells_from_bits(bits@),
            final(self).tape_input.head == 0,
            final(self).tape_work == old(self).tape_work,
            final(self).tape_control == old(self).tape_control,
            final(self).tape_output == old(self).tape_output,
            final(self).current_state == old(self).current_state,
            final(self).step_count == old(self).step_count,
            final(self).config == old(self).config,
            final(self).snapshots == old(self).snapshots,
    {
        self.tape_input.init_from_bits(bits);
    }

    /// Loads the control tape with `bits`.
    pub fn init_control(&mut self, bits: &[u8])
        ensures
            final(self).tape_control.cells@ == crate::tape::cells_from_bits(bits@),
            final(self).tape_control.head == 0,
            final(self).tape_input == old(self).tape_input,
            final(self).tape_work == old(self).tape_work,
            final(self).tape_output == old(self).tape_output,
            final(self).current_state == old(self).current_state,
            final(self).step_count == old(self).step_count,
            final(self).config == old(self).config,
            final(self).snapshots == old(self).snapshots,
    {
        self.tape_control.init_from_bits(bits);
    }

    /// Performs one step under the polynomial bound `poly_bound` (0 for none): refuses when
    /// the bound or the maximal step count is reached, stops when no transition applies,
    /// and otherwise writes, moves, changes state and reports what the new state is.
    pub fn step(&mut self, table: &TransitionTable, poly_bound: u64) -> (r: StepResult)
        requires
            step_fits(old(self).machine(), table.transitions@, old(self).config.max_steps, poly_bound),
        ensures
            (final(self).machine(), r) == machine_step(
                old(self).machine(),
                table.states@,
                table.transitions@,
                old(self).config.max_steps,
                poly_bound,
            ),
            final(self).config == old(self).config,
            final(self).snapshots == old(self).snapshots,
    {
        if self.step_count >= poly_bound && poly_bound > 0 {
            return StepResult::MaxStepsExceeded;
        }
        if self.step_count >= self.config.max_steps {
            return StepResult::MaxStepsExceeded;
        }
        let r_in = self.tape_input.read();
        let r_work = self.tape_work.read();
        let r_ctrl = self.tape_control.read();
        let r_out = self.tape_output.read();
        let transition = match table.find_transition(self.current_state, r_in, r_work, r_ctrl, r_out) {
            Some(t) => *t,
            None => {
                return StepResult::NoTransition;
            },
        };
        self.tape_input.write(transition.write_input);
        self.tape_work.write(transition.write_work);
        self.tape_control.write(transition.write_control);
        self.tape_output.write(transition.write_output);
        self.tape_input.move_head(decode_move(transition.move_input));
        self.tape_work.move_head(decode_move(transition.move_work));
        self.tape_control.move_head(decode_move(transition.move_control));
        self.tape_output.move_head(decode_move(transition.move_output));
        self.current_state = transition.target_state;
        self.step_count = self.step_count + 1;
        arrival(&table.states, self.current_state)
    }

    /// Records a snapshot of the configuration and returns it.
    pub fn take_snapshot(&mut self) -> (r: Snapshot)
        ensures
            r == snapshot_record(old(self).machine()),
            final(self).snapshots@ == old(self).snapshots@.push(r),
            final(self).machine() == old(self).machine(),
            final(self).config == old(self).config,
    {
        let meta = SnapshotMetadata {
            step_number: self.step_count as u32,
            current_state: self.current_state,
            input_head: self.tape_input.head as u32,
            work_head: self.tape_work.head as u32,
            control_head: self.tape_control.head as u32,
            output_head: self.tape_output.head as u32,
            work_tape_len: self.tape_work.content_len() as u32,
            control_tape_len: self.tape_control.content_len() as u32,
        };
        let snap = Snapshot::new(meta);
        self.snapshots.push(snap);
        snap
    }

    /// Steps until a step reports something other than `Continue`, taking a snapshot after
    /// every step that leaves the step count a multiple of the snapshot interval. Before each
    /// step the polynomial bound is asked of `poly_bound` for the current input tape length.
    pub fn run<F: Fn(u64) -> u64>(&mut self, table: &TransitionTable, poly_bound: F) -> (r:
        StepResult)
        requires
            old(self).config.snapshot_interval > 0,
            forall|n: u64| call_requires(poly_bound, (n,)),
            bound_is_function(poly_bound),
            old(self).heads_in_range(old(self).config.max_steps - old(self).step_count),
        ensures
            ({
                let (last, snaps, result) = machine_run(
                    old(self).machine(),
                    table.states@,
                    table.transitions@,
                    old(self).config.max_steps,
                    old(self).config.snapshot_interval,
                    poly_bound,
                );
                &&& final(self).machine() == last
                &&& final(self).snapshots@ == old(self).snapshots@ + snaps
                &&& r == result
            }),
            !(r is Continue),
            final(self).config == old(self).config,
    {
        let ghost start = self.machine();
        let ghost start_snaps = self.snapshots@;
        let ghost states = table.states@;
        let ghost transitions = table.transitions@;
        let ghost max_steps = self.config.max_steps;
        let ghost interval = self.config.snapshot_interval;
        loop
            invariant
                start == old(self).machine(),
                start_snaps == old(self).snapshots@,
                self.config == old(self).config,
                self.config.snapshot_interval > 0,
                forall|n: u64| call_requires(poly_bound, (n,)),
                bound_is_function(poly_bound),
                states == table.states@,
                transitions == table.transitions@,
                max_steps == self.config.max_steps,
                interval == self.config.snapshot_interval,
                self.heads_in_range(self.config.max_steps - self.step_count),
                self.snapshots@.len() >= start_snaps.len(),
                ({
                    let (last, snaps, result) = machine_run(
                        start,
                        states,
                        transitions,
                        max_steps,
                        interval,
                        poly_bound,
                    );
                    let (last2, snaps2, result2) = machine_run(
                        self.machine(),
                        states,
                        transitions,
                        max_steps,
                        interval,
                        poly_bound,
                    );
                    &&& last == last2
                    &&& result == result2
                    &&& start_snaps + snaps == self.snapshots@ + snaps2
                }),
            decreases self.config.max_steps - self.step_count,
        {
            let n = self.tape_input.content_len() as u64;
            let b = poly_bound(n);
            proof {
                assert(call_ensures(poly_bound, (n,), b));
                assert(exists|r: u64| call_ensures(poly_bound, (n,), r));
                assert(call_ensures(poly_bound, (n,), bound_for(poly_bound, n)));
                assert(b == bound_for(poly_bound, n));
            }
            let ghost before = self.machine();
            let ghost before_snaps = self.snapshots@;
            let result = self.step(table, b);
            proof {
                lemma_continue_advances(before, states, transitions, max_steps, b);
            }
            if self.step_count % self.config.snapshot_interval == 0 {
                self.take_snapshot();
            }
            proof {
                let (next, r) = machine_step(before, states, transitions, max_steps, b);
                let snaps = if interval != 0 && next.steps % interval == 0 {
                    seq![snapshot_record(next)]
                } else {
                    Seq::empty()
                };
                assert(self.snapshots@ == before_snaps + snaps);
                assert(n == before.input.cells.len() as u64);
                if !(r is Continue) {
                    assert(machine_run(before, states, transitions, max_steps, interval, poly_bound)
                        == (next, snaps, r));
                }
                if r is Continue {
                    let (l3, rest, res3) = machine_run(
                        next,
                        states,
                        transitions,
                        max_steps,
                        interval,
                        poly_bound,
                    );
                    assert(before_snaps + (snaps + rest) =~= self.snapshots@ + rest);
                }
            }
            match result {
                StepResult::Continue => {},
                other => {
                    proof {
                        let (next, r) = machine_step(before, states, transitions, max_steps, b);
                        let snaps = if interval != 0 && next.steps % interval == 0 {
                            seq![snapshot_record(next)]
                        } else {
                            Seq::empty()
                        };
                        let (l0, s0, r0) = machine_run(
                            start,
                            states,
                            transitions,
                            max_steps,
                            interval,
                            poly_bound,
                        );
                        let (l2, s2, r2) = machine_run(
                            before,
                            states,
                            transitions,
                            max_steps,
                            interval,
                            poly_bound,
                        );
                        assert(l2 == next && s2 == snaps && r2 == r);
                        assert(l0 == l2 && r0 == r2 && start_snaps + s0 == before_snaps + s2);
                        assert(self.snapshots@ == before_snaps + snaps);
                        assert(self.machine() == next);
                        assert(r == other);
                    }
                    return other;
                },
            }
        }
    }
}

} // verus!
