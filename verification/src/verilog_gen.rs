//! SystemVerilog generation for Intel Cyclone FPGAs: a top-level module that runs a
//! transition table, and a testbench for it.
use vstd::prelude::*;
use crate::text::{dec, push_dec, push_radix, radix_text};
use crate::transition_table::{StateRecord, StateType, TMTTMetadata, TransitionRecord, TransitionTable};

verus! {

#[derive(Debug, Clone, Copy, PartialEq, Eq, Structural)]
pub enum OutputFormat {
    Verilog2001,
    SystemVerilog,
}

#[derive(Debug, Clone)]
pub struct VerilogGenerator {
    pub format: OutputFormat,
    pub module_name: String,
    pub clock_name: String,
    pub reset_name: String,
    pub include_comments: bool,
}

impl Default for VerilogGenerator {
    fn default() -> (r: Self)
        ensures
            r.format == OutputFormat::SystemVerilog,
            r.module_name@ == "ptm_top"@,
            r.clock_name@ == "clk"@,
            r.reset_name@ == "rst_n"@,
            r.include_comments,
    {
        VerilogGenerator {
            format: OutputFormat::SystemVerilog,
            module_name: String::from_str("ptm_top"),
            clock_name: String::from_str("clk"),
            reset_name: String::from_str("rst_n"),
            include_comments: true,
        }
    }
}

/// The comment block that opens the module.
pub open spec fn banner_text() -> Seq<char> {
    "// Auto-generated PTM FPGA top-level module.\n// Polynomial Turing Machine - CPL/Cyclone synthesis target.\n// DO NOT EDIT MANUALLY.\n\n"@
}

/// The module header with its ports and parameters.
pub open spec fn ports_text(g: VerilogGenerator, meta: TMTTMetadata) -> Seq<char> {
    "module "@ +
    g.module_name@ +
    " (\n    input  logic        "@ +
    g.clock_name@ +
    ",\n    input  logic        "@ +
    g.reset_name@ +
    ",\n    input  logic        "@ +
    g.module_name@ +
    "_start,\n    input  logic [31:0] "@ +
    g.module_name@ +
    "_input_len,\n    output logic        "@ +
    g.module_name@ +
    "_done,\n    output logic        "@ +
    g.module_name@ +
    "_accept,\n    output logic        "@ +
    g.module_name@ +
    "_reject,\n    output logic [31:0] "@ +
    g.module_name@ +
    "_step_count\n);\n\n    parameter NUM_STATES = "@ +
    dec((meta.num_states) as nat) +
    ";\n    parameter NUM_TRANSITIONS = "@ +
    dec((meta.num_transitions) as nat) +
    ";\n    parameter INITIAL_STATE = "@ +
    dec((meta.initial_state) as nat) +
    ";\n    parameter ACCEPTING_STATE = "@ +
    dec((meta.accepting_state) as nat) +
    ";\n    parameter INPUT_ALPHABET = "@ +
    dec((meta.input_alphabet_size) as nat) +
    ";\n    parameter WORK_ALPHABET = "@ +
    dec((meta.work_alphabet_size) as nat) +
    ";\n\n"@
}

/// The declarations, the state register and the start of the next-state logic.
pub open spec fn registers_text(g: VerilogGenerator, meta: TMTTMetadata) -> Seq<char> {
    "    state_t current_state, next_state;\n    logic [31:0] step_counter;\n    logic [7:0]  tape_input [0:1023];\n    logic [7:0]  tape_work [0:1023];\n    logic [7:0]  tape_control [0:1023];\n    logic [7:0]  tape_output [0:1023];\n    logic [31:0] head_input, head_work, head_control, head_output;\n    logic        input_done;\n\n    always_ff @(posedge "@ +
    g.clock_name@ +
    " or negedge "@ +
    g.reset_name@ +
    ") begin\n        if (!"@ +
    g.reset_name@ +
    ") begin\n            current_state <= S_"@ +
    dec((meta.initial_state) as nat) +
    ";\n            step_counter <= 32'd0;\n            head_input <= 32'd0;\n            head_work <= 32'd0;\n            head_control <= 32'd0;\n            head_output <= 32'd0;\n            input_done <= 1'b0;\n        end else if ("@ +
    g.module_name@ +
    "_start && current_state == S_"@ +
    dec((meta.initial_state) as nat) +
    ") begin\n            current_state <= next_state;\n            step_counter <= step_counter + 1;\n        end\n    end\n\n    always_comb begin\n        next_state = current_state;\n        "@ +
    g.module_name@ +
    "_done = 1'b0;\n        "@ +
    g.module_name@ +
    "_accept = 1'b0;\n        "@ +
    g.module_name@ +
    "_reject = 1'b0;\n"@
}

/// The end of the next-state logic and of the module.
pub open spec fn closing_text(g: VerilogGenerator) -> Seq<char> {
    "    end\n\n    assign "@ +
    g.module_name@ +
    "_step_count = step_counter;\n\nendmodule\n"@
}

/// The block that raises done and accept in state `index`.
pub open spec fn accept_block_text(g: VerilogGenerator, index: u32) -> Seq<char> {
    "        if (current_state == S_"@ +
    dec((index) as nat) +
    ") begin\n            "@ +
    g.module_name@ +
    "_done = 1'b1;\n            "@ +
    g.module_name@ +
    "_accept = 1'b1;\n        end\n"@
}

/// The block that raises done and reject in state `index`.
pub open spec fn reject_block_text(g: VerilogGenerator, index: u32) -> Seq<char> {
    "        if (current_state == S_"@ +
    dec((index) as nat) +
    ") begin\n            "@ +
    g.module_name@ +
    "_done = 1'b1;\n            "@ +
    g.module_name@ +
    "_reject = 1'b1;\n        end\n"@
}

/// The testbench of the module: it drives clock, reset and start, waits for done and prints
/// the outcome and the step count.
pub open spec fn testbench_text(g: VerilogGenerator, table: TransitionTable) -> Seq<char> {
    "// Auto-generated PTM testbench.\n\nmodule "@ +
    g.module_name@ +
    "_tb;\n\n    logic        "@ +
    g.clock_name@ +
    ";\n    logic        "@ +
    g.reset_name@ +
    ";\n    logic        "@ +
    g.module_name@ +
    "_start;\n    logic [31:0] "@ +
    g.module_name@ +
    "_input_len;\n    logic        "@ +
    g.module_name@ +
    "_done;\n    logic        "@ +
    g.module_name@ +
    "_accept;\n    logic        "@ +
    g.module_name@ +
    "_reject;\n    logic [31:0] "@ +
    g.module_name@ +
    "_step_count;\n\n    "@ +
    g.module_name@ +
    " #(.NUM_STATES("@ +
    dec((table.metadata.num_states) as nat) +
    ")) uut (\n        ."@ +
    g.clock_name@ +
    "("@ +
    g.clock_name@ +
    "),\n        ."@ +
    g.reset_name@ +
    "("@ +
    g.reset_name@ +
    "),\n        ."@ +
    g.module_name@ +
    "_start("@ +
    g.module_name@ +
    "_start),\n        ."@ +
    g.module_name@ +
    "_input_len("@ +
    g.module_name@ +
    "_input_len),\n        ."@ +
    g.module_name@ +
    "_done("@ +
    g.module_name@ +
    "_done),\n        ."@ +
    g.module_name@ +
    "_accept("@ +
    g.module_name@ +
    "_accept),\n        ."@ +
    g.module_name@ +
    "_reject("@ +
    g.module_name@ +
    "_reject),\n        ."@ +
    g.module_name@ +
    "_step_count("@ +
    g.module_name@ +
    "_step_count)\n    );\n\n    always #5 "@ +
    g.clock_name@ +
    " = ~"@ +
    g.clock_name@ +
    ";\n\n    initial begin\n        "@ +
    g.clock_name@ +
    " = 0;\n        "@ +
    g.reset_name@ +
    " = 0;\n        "@ +
    g.module_name@ +
    "_start = 0;\n        "@ +
    g.module_name@ +
    "_input_len = 32'd8;\n        #10;\n        "@ +
    g.reset_name@ +
    " = 1;\n        #10;\n        "@ +
    g.module_name@ +
    "_start = 1;\n        #10;\n        "@ +
    g.module_name@ +
    "_start = 0;\n        wait("@ +
    g.module_name@ +
    "_done);\n        #10;\n        if ("@ +
    g.module_name@ +
    "_accept) $display(\"ACCEPTED\");\n        else if ("@ +
    g.module_name@ +
    "_reject) $display(\"REJECTED\");\n        $display(\"Steps: %d\", "@ +
    g.module_name@ +
    "_step_count);\n        $finish;\n    end\n\nendmodule\n"@
}

/// The comment that marks a state of a special kind in the state enumeration.
pub open spec fn type_suffix(t: StateType) -> Seq<char> {
    match t {
        StateType::Initial => " // INITIAL"@,
        StateType::Accepting => " // ACCEPTING"@,
        StateType::Rejecting => " // REJECTING"@,
        StateType::Halting => " // HALTING"@,
        _ => Seq::empty(),
    }
}

/// The enumeration line of a state; the comma that separates it from the next state comes
/// after the line break.
pub open spec fn enum_line(s: StateRecord, last: bool) -> Seq<char> {
    "        S_"@ + dec(s.index as nat) + " = 32'd"@ + dec(s.index as nat) + type_suffix(s.state_type)
        + "\n"@ + (if last {
        Seq::empty()
    } else {
        ","@
    })
}

/// The enumeration lines of the first `k` states.
pub open spec fn enum_lines(states: Seq<StateRecord>, k: nat) -> Seq<char>
    decreases k,
{
    if k == 0 {
        Seq::empty()
    } else {
        enum_lines(states, (k - 1) as nat) + enum_line(states[k - 1], k >= states.len())
    }
}

/// The transitions among `ts` that leave state `index`, in order.
pub open spec fn transitions_from(ts: Seq<TransitionRecord>, index: u32) -> Seq<TransitionRecord>
    decreases ts.len(),
{
    if ts.len() == 0 {
        Seq::empty()
    } else if ts.last().source_state == index {
        transitions_from(ts.drop_last(), index).push(ts.last())
    } else {
        transitions_from(ts.drop_last(), index)
    }
}

/// The next-state logic of one transition: it compares the input and work symbols and then
/// writes, moves the input and work heads and names the next state.
pub open spec fn transition_text(t: TransitionRecord) -> Seq<char> {
    "            if (tape_input[head_input] == 8'h"@ + radix_text(t.read_input as nat, 16, 2)
        + " && tape_work[head_work] == 8'h"@ + radix_text(t.read_work as nat, 16, 2)
        + ") begin\n                tape_input[head_input] <= 8'h"@ + radix_text(
        t.write_input as nat,
        16,
        2,
    ) + ";\n                tape_work[head_work] <= 8'h"@ + radix_text(t.write_work as nat, 16, 2)
        + ";\n                head_input <= head_input + 32'd"@ + (if t.move_input == 0x01 {
        "1"@
    } else {
        "0"@
    }) + ";\n                head_work <= head_work + "@ + (if t.move_work == 0x01 {
        "1"@
    } else {
        "32'hFFFFFFFF"@
    }) + ";\n                next_state <= S_"@ + dec(t.target_state as nat) + ";\n            end\n"@
}

/// The next-state logic of the first `k` transitions of `ts`.
pub open spec fn transitions_text(ts: Seq<TransitionRecord>, k: nat) -> Seq<char>
    decreases k,
{
    if k == 0 {
        Seq::empty()
    } else {
        transitions_text(ts, (k - 1) as nat) + transition_text(ts[k - 1])
    }
}

/// The next-state logic of a state: its transitions, or, for a state without transitions,
/// the done flag with accept (accepting states) or reject (rejecting and halting states).
pub open spec fn state_block(g: VerilogGenerator, s: StateRecord, ts: Seq<TransitionRecord>) -> Seq<
    char,
> {
    let own = transitions_from(ts, s.index);
    if own.len() == 0 {
        match s.state_type {
            StateType::Accepting => accept_block_text(g, s.index),
            StateType::Rejecting => reject_block_text(g, s.index),
            StateType::Halting => reject_block_text(g, s.index),
            _ => Seq::empty(),
        }
    } else {
        "        if (current_state == S_"@ + dec(s.index as nat) + ") begin\n"@ + transitions_text(
            own,
            own.len(),
        ) + "        end\n"@
    }
}

/// The next-state logic of the first `k` states.
pub open spec fn state_blocks(
    g: VerilogGenerator,
    states: Seq<StateRecord>,
    ts: Seq<TransitionRecord>,
    k: nat,
) -> Seq<char>
    decreases k,
{
    if k == 0 {
        Seq::empty()
    } else {
        state_blocks(g, states, ts, (k - 1) as nat) + state_block(g, states[k - 1], ts)
    }
}

/// The top-level module for a table.
pub open spec fn module_text(g: VerilogGenerator, table: TransitionTable) -> Seq<char> {
    let states = table.states@;
    (if g.include_comments {
        banner_text()
    } else {
        Seq::empty()
    }) + ports_text(g, table.metadata) + "    typedef enum logic [31:0] {\n"@ + enum_lines(
        states,
        states.len(),
    ) + "    } state_t;\n\n"@ + registers_text(g, table.metadata) + state_blocks(
        g,
        states,
        table.transitions@,
        states.len(),
    ) + closing_text(g)
}

/// A state that no transition leaves has no transitions of its own.
proof fn lemma_no_transitions_from(ts: Seq<TransitionRecord>, index: u32)
    requires
        forall|k: int| 0 <= k < ts.len() ==> #[trigger] ts[k].source_state != index,
    ensures
        transitions_from(ts, index).len() == 0,
    decreases ts.len(),
{
    if ts.len() > 0 {
        assert(ts.last().source_state != index);
        let rest = ts.drop_last();
        assert forall|k: int| 0 <= k < rest.len() implies #[trigger] rest[k].source_state
            != index by {
            assert(rest[k] == ts[k]);
        }
        lemma_no_transitions_from(rest, index);
    }
}

/// The transitions that a state's next-state logic is made of are exactly those of the table
/// that leave that state, in the table's order.
pub proof fn lemma_state_logic_uses_its_transitions(ts: Seq<TransitionRecord>, index: u32)
    ensures
        transitions_from(ts, index) == ts.filter(|t: TransitionRecord| t.source_state == index),
    decreases ts.len(),
{
    reveal(Seq::filter);
    if ts.len() > 0 {
        lemma_state_logic_uses_its_transitions(ts.drop_last(), index);
    }
}

/// In the next-state logic, a state that no transition leaves ends the run: an Accepting
/// state raises done and accept, a Rejecting or Halting state raises done and reject (never
/// accept), and a Normal or Initial state adds nothing.
pub proof fn lemma_terminal_state_block(g: VerilogGenerator, s: StateRecord, ts: Seq<TransitionRecord>)
    requires
        forall|k: int| 0 <= k < ts.len() ==> #[trigger] ts[k].source_state != s.index,
    ensures
        s.state_type == StateType::Accepting ==> state_block(g, s, ts) == "        if (current_state == S_"@
            + dec(s.index as nat) + ") begin\n            "@ + g.module_name@
            + "_done = 1'b1;\n            "@ + g.module_name@ + "_accept = 1'b1;\n        end\n"@,
        (s.state_type == StateType::Rejecting || s.state_type == StateType::Halting) ==> state_block(
            g,
            s,
            ts,
        ) == "        if (current_state == S_"@ + dec(s.index as nat) + ") begin\n            "@
            + g.module_name@ + "_done = 1'b1;\n            "@ + g.module_name@
            + "_reject = 1'b1;\n        end\n"@,
        (s.state_type == StateType::Normal || s.state_type == StateType::Initial) ==> state_block(
            g,
            s,
            ts,
        ) == Seq::<char>::empty(),
{
    lemma_no_transitions_from(ts, s.index);
}

/// The next-state logic of all states is that of the first `k` states followed by that of
/// the rest, which is returned.
proof fn lemma_state_blocks_prefix(
    g: VerilogGenerator,
    states: Seq<StateRecord>,
    ts: Seq<TransitionRecord>,
    k: nat,
    n: nat,
) -> (rest: Seq<char>)
    requires
        k <= n,
    ensures
        state_blocks(g, states, ts, n) == state_blocks(g, states, ts, k) + rest,
    decreases n - k,
{
    if k == n {
        assert(state_blocks(g, states, ts, n) =~= state_blocks(g, states, ts, k) + Seq::<char>::empty());
        Seq::<char>::empty()
    } else {
        let rest = lemma_state_blocks_prefix(g, states, ts, k + 1, n);
        let b = state_block(g, states[k as int], ts);
        assert(state_blocks(g, states, ts, k + 1) == state_blocks(g, states, ts, k) + b);
        assert(state_blocks(g, states, ts, n) =~= state_blocks(g, states, ts, k) + (b + rest));
        b + rest
    }
}

/// The generated module holds the next-state block of each of the table's states, whole:
/// it is the returned text before the block, the block, and the returned text after it.
pub proof fn lemma_module_holds_every_state_block(g: VerilogGenerator, table: TransitionTable, k: int) -> (parts: (
    Seq<char>,
    Seq<char>,
))
    requires
        0 <= k < table.states@.len(),
    ensures
        module_text(g, table) == parts.0 + state_block(g, table.states@[k], table.transitions@)
            + parts.1,
{
    let states = table.states@;
    let ts = table.transitions@;
    let n = states.len();
    let rest = lemma_state_blocks_prefix(g, states, ts, (k + 1) as nat, n);
    let b = state_block(g, states[k], ts);
    let head = (if g.include_comments {
        banner_text()
    } else {
        Seq::empty()
    }) + ports_text(g, table.metadata) + "    typedef enum logic [31:0] {\n"@ + enum_lines(
        states,
        states.len(),
    ) + "    } state_t;\n\n"@ + registers_text(g, table.metadata);
    let before = head + state_blocks(g, states, ts, k as nat);
    let after = rest + closing_text(g);
    assert(state_blocks(g, states, ts, (k + 1) as nat) == state_blocks(g, states, ts, k as nat) + b);
    assert(module_text(g, table) =~= before + b + after);
    (before, after)
}

impl VerilogGenerator {
    fn banner_text_string() -> (r: String)
        ensures
            r@ == banner_text(),
    {
        let mut o = String::from_str("// Auto-generated PTM FPGA top-level module.\n// Polynomial Turing Machine - CPL/Cyclone synthesis target.\n// DO NOT EDIT MANUALLY.\n\n");

        o
    }

    fn ports_text_string(&self, meta: &TMTTMetadata) -> (r: String)
        ensures
            r@ == ports_text(*self, *meta),
    {
        let mut o = String::from_str("module ");
        o.append(self.module_name.as_str());
        o.append(" (\n    input  logic        ");
        o.append(self.clock_name.as_str());
        o.append(",\n    input  logic        ");
        o.append(self.reset_name.as_str());
        o.append(",\n    input  logic        ");
        o.append(self.module_name.as_str());
        o.append("_start,\n    input  logic [31:0] ");
        o.append(self.module_name.as_str());
        o.append("_input_len,\n    output logic        ");
        o.append(self.module_name.as_str());
        o.append("_done,\n    output logic        ");
        o.append(self.module_name.as_str());
        o.append("_accept,\n    output logic        ");
        o.append(self.module_name.as_str());
        o.append("_reject,\n    output logic [31:0] ");
        o.append(self.module_name.as_str());
        o.append("_step_count\n);\n\n    parameter NUM_STATES = ");
        push_dec(&mut o, (meta.num_states) as u64);
        o.append(";\n    parameter NUM_TRANSITIONS = ");
        push_dec(&mut o, (meta.num_transitions) as u64);
        o.append(";\n    parameter INITIAL_STATE = ");
        push_dec(&mut o, (meta.initial_state) as u64);
        o.append(";\n    parameter ACCEPTING_STATE = ");
        push_dec(&mut o, (meta.accepting_state) as u64);
        o.append(";\n    parameter INPUT_ALPHABET = ");
        push_dec(&mut o, (meta.input_alphabet_size) as u64);
        o.append(";\n    parameter WORK_ALPHABET = ");
        push_dec(&mut o, (meta.work_alphabet_size) as u64);
        o.append(";\n\n");

        o
    }

    fn registers_text_string(&self, meta: &TMTTMetadata) -> (r: String)
        ensures
            r@ == registers_text(*self, *meta),
    {
        let mut o = String::from_str("    state_t current_state, next_state;\n    logic [31:0] step_counter;\n    logic [7:0]  tape_input [0:1023];\n    logic [7:0]  tape_work [0:1023];\n    logic [7:0]  tape_control [0:1023];\n    logic [7:0]  tape_output [0:1023];\n    logic [31:0] head_input, head_work, head_control, head_output;\n    logic        input_done;\n\n    always_ff @(posedge ");
        o.append(self.clock_name.as_str());
        o.append(" or negedge ");
        o.append(self.reset_name.as_str());
        o.append(") begin\n        if (!");
        o.append(self.reset_name.as_str());
        o.append(") begin\n            current_state <= S_");
        push_dec(&mut o, (meta.initial_state) as u64);
        o.append(";\n            step_counter <= 32'd0;\n            head_input <= 32'd0;\n            head_work <= 32'd0;\n            head_control <= 32'd0;\n            head_output <= 32'd0;\n            input_done <= 1'b0;\n        end else if (");
        o.append(self.module_name.as_str());
        o.append("_start && current_state == S_");
        push_dec(&mut o, (meta.initial_state) as u64);
        o.append(") begin\n            current_state <= next_state;\n            step_counter <= step_counter + 1;\n        end\n    end\n\n    always_comb begin\n        next_state = current_state;\n        ");
        o.append(self.module_name.as_str());
        o.append("_done = 1'b0;\n        ");
        o.append(self.module_name.as_str());
        o.append("_accept = 1'b0;\n        ");
        o.append(self.module_name.as_str());
        o.append("_reject = 1'b0;\n");

        o
    }

    fn closing_text_string(&self) -> (r: String)
        ensures
            r@ == closing_text(*self),
    {
        let mut o = String::from_str("    end\n\n    assign ");
        o.append(self.module_name.as_str());
        o.append("_step_count = step_counter;\n\nendmodule\n");

        o
    }

    fn accept_block_text_string(&self, index: u32) -> (r: String)
        ensures
            r@ == accept_block_text(*self, index),
    {
        let mut o = String::from_str("        if (current_state == S_");
        push_dec(&mut o, (index) as u64);
        o.append(") begin\n            ");
        o.append(self.module_name.as_str());
        o.append("_done = 1'b1;\n            ");
        o.append(self.module_name.as_str());
        o.append("_accept = 1'b1;\n        end\n");

        o
    }

    fn reject_block_text_string(&self, index: u32) -> (r: String)
        ensures
            r@ == reject_block_text(*self, index),
    {
        let mut o = String::from_str("        if (current_state == S_");
        push_dec(&mut o, (index) as u64);
        o.append(") begin\n            ");
        o.append(self.module_name.as_str());
        o.append("_done = 1'b1;\n            ");
        o.append(self.module_name.as_str());
        o.append("_reject = 1'b1;\n        end\n");

        o
    }

    /// The testbench of the module: it drives clock, reset and start, waits for done and
    /// prints the outcome and the step count.
    pub fn generate_testbench(&self, table: &TransitionTable) -> (r: String)
        ensures
            r@ == testbench_text(*self, *table),
    {
        let mut o = String::from_str("// Auto-generated PTM testbench.\n\nmodule ");
        o.append(self.module_name.as_str());
        o.append("_tb;\n\n    logic        ");
        o.append(self.clock_name.as_str());
        o.append(";\n    logic        ");
        o.append(self.reset_name.as_str());
        o.append(";\n    logic        ");
        o.append(self.module_name.as_str());
        o.append("_start;\n    logic [31:0] ");
        o.append(self.module_name.as_str());
        o.append("_input_len;\n    logic        ");
        o.append(self.module_name.as_str());
        o.append("_done;\n    logic        ");
        o.append(self.module_name.as_str());
        o.append("_accept;\n    logic        ");
        o.append(self.module_name.as_str());
        o.append("_reject;\n    logic [31:0] ");
        o.append(self.module_name.as_str());
        o.append("_step_count;\n\n    ");
        o.append(self.module_name.as_str());
        o.append(" #(.NUM_STATES(");
        push_dec(&mut o, (table.metadata.num_states) as u64);
        o.append(")) uut (\n        .");
        o.append(self.clock_name.as_str());
        o.append("(");
        o.append(self.clock_name.as_str());
        o.append("),\n        .");
        o.append(self.reset_name.as_str());
        o.append("(");
        o.append(self.reset_name.as_str());
        o.append("),\n        .");
        o.append(self.module_name.as_str());
        o.append("_start(");
        o.append(self.module_name.as_str());
        o.append("_start),\n        .");
        o.append(self.module_name.as_str());
        o.append("_input_len(");
        o.append(self.module_name.as_str());
        o.append("_input_len),\n        .");
        o.append(self.module_name.as_str());
        o.append("_done(");
        o.append(self.module_name.as_str());
        o.append("_done),\n        .");
        o.append(self.module_name.as_str());
        o.append("_accept(");
        o.append(self.module_name.as_str());
        o.append("_accept),\n        .");
        o.append(self.module_name.as_str());
        o.append("_reject(");
        o.append(self.module_name.as_str());
        o.append("_reject),\n        .");
        o.append(self.module_name.as_str());
        o.append("_step_count(");
        o.append(self.module_name.as_str());
        o.append("_step_count)\n    );\n\n    always #5 ");
        o.append(self.clock_name.as_str());
        o.append(" = ~");
        o.append(self.clock_name.as_str());
        o.append(";\n\n    initial begin\n        ");
        o.append(self.clock_name.as_str());
        o.append(" = 0;\n        ");
        o.append(self.reset_name.as_str());
        o.append(" = 0;\n        ");
        o.append(self.module_name.as_str());
        o.append("_start = 0;\n        ");
        o.append(self.module_name.as_str());
        o.append("_input_len = 32'd8;\n        #10;\n        ");
        o.append(self.reset_name.as_str());
        o.append(" = 1;\n        #10;\n        ");
        o.append(self.module_name.as_str());
        o.append("_start = 1;\n        #10;\n        ");
        o.append(self.module_name.as_str());
        o.append("_start = 0;\n        wait(");
        o.append(self.module_name.as_str());
        o.append("_done);\n        #10;\n        if (");
        o.append(self.module_name.as_str());
        o.append("_accept) $display(\"ACCEPTED\");\n        else if (");
        o.append(self.module_name.as_str());
        o.append("_reject) $display(\"REJECTED\");\n        $display(\"Steps: %d\", ");
        o.append(self.module_name.as_str());
        o.append("_step_count);\n        $finish;\n    end\n\nendmodule\n");
        o
    }

    fn enum_lines_string(states: &Vec<StateRecord>) -> (r: String)
        ensures
            r@ == enum_lines(states@, states@.len()),
    {
        let mut out = String::new();
        let n = states.len();
        let mut i: usize = 0;
        while i < n
            invariant
                n == states@.len(),
                i <= n,
                out@ == enum_lines(states@, i as nat),
            decreases n - i,
        {
            let s = &states[i];
            let mut line = String::from_str("        S_");
            push_dec(&mut line, s.index as u64);
            line.append(" = 32'd");
            push_dec(&mut line, s.index as u64);
            match s.state_type {
                StateType::Initial => line.append(" // INITIAL"),
                StateType::Accepting => line.append(" // ACCEPTING"),
                StateType::Rejecting => line.append(" // REJECTING"),
                StateType::Halting => line.append(" // HALTING"),
                _ => {},
            }
            line.append("\n");
            if i < n - 1 {
                line.append(",");
            }
            assert(line@ =~= enum_line(*s, i + 1 >= n));
            out.append(line.as_str());
            i = i + 1;
        }
        out
    }

    fn transition_string(t: &TransitionRecord) -> (r: String)
        ensures
            r@ == transition_text(*t),
    {
        let mut o = String::from_str("            if (tape_input[head_input] == 8'h");
        push_radix(&mut o, t.read_input as u64, 16, 2);
        o.append(" && tape_work[head_work] == 8'h");
        push_radix(&mut o, t.read_work as u64, 16, 2);
        o.append(") begin\n                tape_input[head_input] <= 8'h");
        push_radix(&mut o, t.write_input as u64, 16, 2);
        o.append(";\n                tape_work[head_work] <= 8'h");
        push_radix(&mut o, t.write_work as u64, 16, 2);
        o.append(";\n                head_input <= head_input + 32'd");
        if t.move_input == 0x01 {
            o.append("1");
        } else {
            o.append("0");
        }
        o.append(";\n                head_work <= head_work + ");
        if t.move_work == 0x01 {
            o.append("1");
        } else {
            o.append("32'hFFFFFFFF");
        }
        o.append(";\n                next_state <= S_");
        push_dec(&mut o, t.target_state as u64);
        o.append(";\n            end\n");
        o
    }

    fn state_block_string(&self, s: &StateRecord, ts: &Vec<TransitionRecord>) -> (r: String)
        ensures
            r@ == state_block(*self, *s, ts@),
    {
        let mut own: Vec<TransitionRecord> = Vec::new();
        let mut j: usize = 0;
        while j < ts.len()
            invariant
                j <= ts@.len(),
                own@ == transitions_from(ts@.take(j as int), s.index),
            decreases ts.len() - j,
        {
            proof {
                assert(ts@.take(j + 1).drop_last() =~= ts@.take(j as int));
            }
            if ts[j].source_state == s.index {
                own.push(ts[j]);
            }
            j = j + 1;
        }
        assert(ts@.take(ts@.len() as int) =~= ts@);
        if own.len() == 0 {
            return match s.state_type {
                StateType::Accepting => self.accept_block_text_string(s.index),
                StateType::Rejecting => self.reject_block_text_string(s.index),
                StateType::Halting => self.reject_block_text_string(s.index),
                _ => String::new(),
            };
        }
        let mut body = String::new();
        let mut k: usize = 0;
        while k < own.len()
            invariant
                k <= own@.len(),
                body@ == transitions_text(own@, k as nat),
            decreases own.len() - k,
        {
            let line = Self::transition_string(&own[k]);
            body.append(line.as_str());
            k = k + 1;
        }
        let mut o = String::from_str("        if (current_state == S_");
        push_dec(&mut o, s.index as u64);
        o.append(") begin\n");
        o.append(body.as_str());
        o.append("        end\n");
        o
    }

    /// The top-level module that runs `table`: ports, parameters, the state enumeration,
    /// the state register and the next-state logic of every state.
    pub fn generate(&self, table: &TransitionTable) -> (r: String)
        ensures
            r@ == module_text(*self, *table),
    {
        let mut o = String::new();
        if self.include_comments {
            let b = Self::banner_text_string();
            o.append(b.as_str());
        }
        assert(o@ =~= (if self.include_comments {
            banner_text()
        } else {
            Seq::empty()
        }));
        let ports = self.ports_text_string(&table.metadata);
        o.append(ports.as_str());
        o.append("    typedef enum logic [31:0] {\n");
        let enums = Self::enum_lines_string(&table.states);
        o.append(enums.as_str());
        o.append("    } state_t;\n\n");
        let regs = self.registers_text_string(&table.metadata);
        o.append(regs.as_str());
        let mut blocks = String::new();
        let n = table.states.len();
        let mut i: usize = 0;
        while i < n
            invariant
                n == table.states@.len(),
                i <= n,
                blocks@ == state_blocks(*self, table.states@, table.transitions@, i as nat),
            decreases n - i,
        {
            let block = self.state_block_string(&table.states[i], &table.transitions);
            blocks.append(block.as_str());
            i = i + 1;
        }
        o.append(blocks.as_str());
        let closing = self.closing_text_string();
        o.append(closing.as_str());
        o
    }
}

} // verus!
