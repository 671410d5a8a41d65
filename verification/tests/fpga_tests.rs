use ptm::cyclone_target::{CycloneDevice, ResourceEstimate};
use ptm::state_machine::{EncodingType, StateEncoder};
use ptm::tape_ctrl::TapeController;
use ptm::transition_table::{StateType, TMTTMetadata, TransitionRecord, TransitionTable};
use ptm::verilog_gen::VerilogGenerator;

#[test]
fn estimate_simple() {
    let est = ResourceEstimate::from_table(3, 5, 256);
    assert!(est.logic_elements > 0);
    assert!(est.memory_bits > 0);
    assert!(est.fits_device(&CycloneDevice::CycloneV));
}

#[test]
fn cyclone10lp_limits() {
    let dev = CycloneDevice::Cyclone10LP;
    assert_eq!(dev.max_le(), 150_000);
    assert_eq!(dev.max_fmax_mhz(), 400);
}

#[test]
fn estimate_formulas() {
    let est = ResourceEstimate::from_table(3, 5, 256);
    assert_eq!(est.logic_elements, 3 * 2 + 5 * 4);
    assert_eq!(est.registers, 2 + 256 * 32 + 128);
    assert_eq!(est.memory_bits, 8192);
    assert_eq!(est.m9k_blocks, 1);
    assert_eq!(ResourceEstimate::from_table(1, 0, 0).registers, 128);
    assert_eq!(ResourceEstimate::from_table(1024, 0, 300).m9k_blocks, 2);
    assert_eq!(ResourceEstimate::from_table(1025, 0, 0).registers, 11 + 128);
    let big = ResourceEstimate::from_table(40_000, 0, 0);
    assert!(!big.fits_device(&CycloneDevice::CycloneII));
    assert!(big.fits_device(&CycloneDevice::Cyclone10LP));
    assert_eq!(CycloneDevice::CycloneII.max_m9k(), 32);
    assert_eq!(CycloneDevice::CycloneIVE.name(), "Cyclone IV E");
}

#[test]
fn resource_report_text() {
    let est = ResourceEstimate::from_table(3, 5, 256);
    let text = est.report(&CycloneDevice::CycloneV, "0.0");
    assert_eq!(
        text,
        "Resource Estimate for Cyclone V:\n  Logic Elements: 26/500000 (0.0%)\n  Registers: 8322\n  Memory: 8192 bits (1 M9K blocks)\n  DSP Blocks: 0\n  I/O Pins: 64\n  Fmax: 300 MHz\n  Fits: YES"
    );
}

#[test]
fn binary_encoding() {
    let enc = StateEncoder { encoding: EncodingType::Binary };
    let codes = enc.encode_states(4);
    assert_eq!(codes, vec![0, 1, 2, 3]);
    assert_eq!(enc.bits_needed(4), 2);
}

#[test]
fn onehot_encoding() {
    let enc = StateEncoder { encoding: EncodingType::OneHot };
    let codes = enc.encode_states(4);
    assert_eq!(codes, vec![1, 2, 4, 8]);
    assert_eq!(enc.bits_needed(4), 4);
}

#[test]
fn gray_encoding() {
    let enc = StateEncoder { encoding: EncodingType::Gray };
    let codes = enc.encode_states(4);
    assert_eq!(codes, vec![0, 1, 3, 2]);
}

#[test]
fn gray_codes_change_one_bit() {
    let enc = StateEncoder { encoding: EncodingType::Gray };
    let codes = enc.encode_states(64);
    for w in codes.windows(2) {
        assert_eq!((w[0] ^ w[1]).count_ones(), 1);
    }
    assert_eq!(enc.bits_needed(5), 3);
    assert_eq!(enc.bits_needed(1), 0);
    assert_eq!(enc.bits_needed(0), 0);
    assert_eq!(StateEncoder::default().encoding, EncodingType::Binary);
}

#[test]
fn verilog_encoding_blocks() {
    let states = [(0u32, "IDLE"), (1, "RUN"), (2, "DONE")];
    let bin = StateEncoder { encoding: EncodingType::Binary }.generate_verilog_encoding(&states);
    assert_eq!(
        bin,
        "    // Binary state encoding\n    typedef enum logic [1:0] {\n        S_IDLE = 2'd0,\n        S_RUN = 2'd1,\n        S_DONE = 2'd2\n    } state_t;\n"
    );
    let hot = StateEncoder { encoding: EncodingType::OneHot }.generate_verilog_encoding(&states);
    assert_eq!(
        hot,
        "    // One-hot state encoding\n    typedef enum logic [2:0] {\n        S_IDLE = 3'h1,\n        S_RUN = 3'h2,\n        S_DONE = 3'h4\n    } state_t;\n"
    );
    let gray = StateEncoder { encoding: EncodingType::Gray }.generate_verilog_encoding(&states);
    assert_eq!(
        gray,
        "    // Gray code state encoding\n    typedef enum logic [1:0] {\n        S_IDLE = 2'b0,\n        S_RUN = 2'b1,\n        S_DONE = 2'b11\n    } state_t;\n"
    );
}

#[test]
fn generates_tape_controller() {
    let ctrl = TapeController::new(0, 256);
    let verilog = ctrl.generate_verilog();
    assert!(verilog.contains("module tape0_ctrl"));
    assert!(verilog.contains("head_move"));
    assert!(verilog.contains("read_data"));
}

#[test]
fn tape_controller_sizes() {
    let ctrl = TapeController::new(3, 16);
    assert_eq!(ctrl.cell_width, 8);
    let verilog = ctrl.generate_verilog();
    assert!(verilog.starts_with("// Tape 3 controller\nmodule tape3_ctrl (\n"));
    assert!(verilog.contains("    logic [7:0] mem [0:15];\n"));
    assert!(verilog.contains("            for (int i = 0; i <= 15; i++)\n"));
    assert!(verilog.ends_with("    assign head_pos = head;\n\nendmodule\n"));
}

fn build_test_table() -> TransitionTable {
    let mut meta = TMTTMetadata::default_for_ptm();
    meta.num_states = 2;
    meta.num_transitions = 1;
    meta.initial_state = 0;
    meta.accepting_state = 1;
    meta.rejecting_state = 2;
    meta.halting_state = 3;
    let mut table = TransitionTable::new(meta);
    table.add_state(0, StateType::Initial);
    table.add_state(1, StateType::Accepting);
    table.add_transition(TransitionRecord {
        id: 0,
        source_state: 0,
        target_state: 1,
        read_input: 0x01,
        read_work: 0x02,
        read_control: 0x00,
        read_output: 0x02,
        write_input: 0x02,
        write_work: 0x02,
        write_control: 0x02,
        write_output: 0x02,
        move_input: 0x01,
        move_work: 0x02,
        move_control: 0x02,
        move_output: 0x02,
    });
    table
}

#[test]
fn generates_valid_verilog() {
    let table = build_test_table();
    let gen = VerilogGenerator::default();
    let verilog = gen.generate(&table);
    assert!(verilog.contains("module ptm_top"));
    assert!(verilog.contains("typedef enum"));
    assert!(verilog.contains("S_0"));
    assert!(verilog.contains("S_1"));
}

#[test]
fn generated_module_details() {
    let table = build_test_table();
    let mut gen = VerilogGenerator::default();
    gen.include_comments = false;
    let verilog = gen.generate(&table);
    assert!(verilog.starts_with("module ptm_top (\n    input  logic        clk,\n"));
    assert!(verilog.contains("        S_0 = 32'd0 // INITIAL\n,        S_1 = 32'd1 // ACCEPTING\n    } state_t;\n"));
    assert!(verilog.contains("            if (tape_input[head_input] == 8'h01 && tape_work[head_work] == 8'h02) begin\n"));
    assert!(verilog.contains("                head_work <= head_work + 32'hFFFFFFFF;\n"));
    assert!(verilog.contains("        if (current_state == S_1) begin\n            ptm_top_done = 1'b1;\n            ptm_top_accept = 1'b1;\n        end\n"));
    assert!(verilog.ends_with("    assign ptm_top_step_count = step_counter;\n\nendmodule\n"));
    let with_comments = VerilogGenerator::default().generate(&table);
    assert!(with_comments.starts_with("// Auto-generated PTM FPGA top-level module.\n"));
}

#[test]
fn generates_testbench() {
    let table = build_test_table();
    let gen = VerilogGenerator::default();
    let tb = gen.generate_testbench(&table);
    assert!(tb.contains("module ptm_top_tb"));
    assert!(tb.contains("ACCEPTED"));
}
