//! Tape controllers for FPGA synthesis: one Verilog module per tape.
use vstd::prelude::*;
use crate::text::{dec, push_dec};

verus! {

#[derive(Debug, Clone)]
pub struct TapeController {
    pub tape_index: usize,
    pub cell_width: u32,
    pub max_cells: u32,
}

/// The Verilog module of a tape controller.
pub open spec fn tape_controller_text(c: TapeController) -> Seq<char> {
    "// Tape "@ +
    dec((c.tape_index) as nat) +
    " controller\nmodule tape"@ +
    dec((c.tape_index) as nat) +
    "_ctrl (\n    input  logic        clk,\n    input  logic        rst_n,\n    input  logic [7:0]  write_data,\n    input  logic        write_en,\n    input  logic [1:0]  head_move,  // 00=L, 01=R, 10=S\n    output logic [7:0]  read_data,\n    output logic [31:0] head_pos\n);\n\n    logic [7:0] mem [0:"@ +
    dec((c.max_cells - 1) as nat) +
    "];\n    logic [31:0] head;\n\n    always_ff @(posedge clk or negedge rst_n) begin\n        if (!rst_n) begin\n            head <= 32'd0;\n            for (int i = 0; i <= "@ +
    dec((c.max_cells - 1) as nat) +
    "; i++)\n                mem[i] <= 8'h02; // blank\n        end else begin\n            if (write_en)\n                mem[head] <= write_data;\n            case (head_move)\n                2'b00: if (head > 0) head <= head - 1; // L\n                2'b01: head <= head + 1;              // R\n                default: ;                              // S\n            endcase\n        end\n    end\n\n    assign read_data = mem[head];\n    assign head_pos = head;\n\nendmodule\n"@
}

impl TapeController {
    /// A controller for tape `tape_index` with byte cells.
    pub fn new(tape_index: usize, max_cells: u32) -> (r: Self)
        ensures
            r.tape_index == tape_index,
            r.cell_width == 8,
            r.max_cells == max_cells,
    {
        TapeController { tape_index, cell_width: 8, max_cells }
    }

    /// The Verilog module that controls the tape: a memory of `max_cells` blank-initialised
    /// cells, a head that moves on `head_move`, a write port and a read port.
    pub fn generate_verilog(&self) -> (r: String)
        requires
            self.max_cells >= 1,
        ensures
            r@ == tape_controller_text(*self),
    {
        let max = self.max_cells - 1;
        let mut o = String::from_str("// Tape ");
        push_dec(&mut o, (self.tape_index) as u64);
        o.append(" controller\nmodule tape");
        push_dec(&mut o, (self.tape_index) as u64);
        o.append("_ctrl (\n    input  logic        clk,\n    input  logic        rst_n,\n    input  logic [7:0]  write_data,\n    input  logic        write_en,\n    input  logic [1:0]  head_move,  // 00=L, 01=R, 10=S\n    output logic [7:0]  read_data,\n    output logic [31:0] head_pos\n);\n\n    logic [7:0] mem [0:");
        push_dec(&mut o, (max) as u64);
        o.append("];\n    logic [31:0] head;\n\n    always_ff @(posedge clk or negedge rst_n) begin\n        if (!rst_n) begin\n            head <= 32'd0;\n            for (int i = 0; i <= ");
        push_dec(&mut o, (max) as u64);
        o.append("; i++)\n                mem[i] <= 8'h02; // blank\n        end else begin\n            if (write_en)\n                mem[head] <= write_data;\n            case (head_move)\n                2'b00: if (head > 0) head <= head - 1; // L\n                2'b01: head <= head + 1;              // R\n                default: ;                              // S\n            endcase\n        end\n    end\n\n    assign read_data = mem[head];\n    assign head_pos = head;\n\nendmodule\n");
        o
    }
}

} // verus!
