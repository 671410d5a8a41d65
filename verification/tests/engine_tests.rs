use ptm::simulator::{SimulationConfig, Simulator, StateTypeOutput, StepResult};
use ptm::snapshot::{Snapshot, SnapshotMetadata, SNAP_HEADER_SIZE};
use ptm::transition_table::{
    StateRecord, StateType, TMTTMetadata, TransitionRecord, TransitionTable, TMTT_HEADER_SIZE,
};

fn record(id: u32, source: u32, target: u32, reads: [u8; 4], writes: [u8; 4], moves: [u8; 4]) -> TransitionRecord {
    TransitionRecord {
        id,
        source_state: source,
        target_state: target,
        read_input: reads[0],
        read_work: reads[1],
        read_control: reads[2],
        read_output: reads[3],
        write_input: writes[0],
        write_work: writes[1],
        write_control: writes[2],
        write_output: writes[3],
        move_input: moves[0],
        move_work: moves[1],
        move_control: moves[2],
        move_output: moves[3],
    }
}

#[test]
fn metadata_roundtrip() {
    let m = TMTTMetadata::default_for_ptm();
    let buf = m.encode();
    let m2 = TMTTMetadata::decode(&buf);
    assert_eq!(m2.input_alphabet_size, 3);
    assert_eq!(m2.work_alphabet_size, 6);
    assert_eq!(m2.max_tapes, 4);
}

#[test]
fn transition_record_roundtrip() {
    let t = TransitionRecord {
        id: 1,
        source_state: 0,
        target_state: 1,
        read_input: 0x01,
        read_work: 0x02,
        read_control: 0x00,
        read_output: 0x02,
        write_input: 0x02,
        write_work: 0x03,
        write_control: 0x01,
        write_output: 0x01,
        move_input: 0x01,
        move_work: 0x01,
        move_control: 0x01,
        move_output: 0x01,
    };
    let buf = t.encode();
    let t2 = TransitionRecord::decode(&buf);
    assert_eq!(t2.id, 1);
    assert_eq!(t2.read_input, 0x01);
    assert_eq!(t2.write_work, 0x03);
}

#[test]
fn table_roundtrip() {
    let mut meta = TMTTMetadata::default_for_ptm();
    meta.num_states = 2;
    meta.num_transitions = 1;
    meta.initial_state = 0;
    meta.accepting_state = 1;
    meta.rejecting_state = 2;
    meta.halting_state = 3;
    let mut table = TransitionTable::new(meta);
    table.add_state(0, StateType::Initial);
    table.add_state(1, StateType::Accepting);
    table.add_transition(TransitionRecord {
        id: 0,
        source_state: 0,
        target_state: 1,
        read_input: 0x01,
        read_work: 0x02,
        read_control: 0x00,
        read_output: 0x02,
        write_input: 0x02,
        write_work: 0x03,
        write_control: 0x01,
        write_output: 0x01,
        move_input: 0x01,
        move_work: 0x01,
        move_control: 0x01,
        move_output: 0x01,
    });
    let buf = table.encode();
    let table2 = TransitionTable::decode(&buf).unwrap();
    assert_eq!(table2.metadata.num_states, 2);
    assert_eq!(table2.transitions.len(), 1);
}

#[test]
fn table_encoding_layout() {
    let mut table = TransitionTable::new(TMTTMetadata::default_for_ptm());
    assert_eq!(table.header.payload_len, 48);
    table.add_state(7, StateType::Halting);
    table.add_transition(record(9, 7, 7, [1, 2, 2, 2], [0, 0, 0, 0], [1, 2, 2, 1]));
    assert_eq!(table.metadata.num_states, 1);
    assert_eq!(table.metadata.num_transitions, 1);
    let buf = table.encode();
    assert_eq!(buf.len(), TMTT_HEADER_SIZE + 16 + 48);
    let mut hdr = [0u8; 16];
    hdr.copy_from_slice(&buf[0..16]);
    let h = ptm::header::FileHeader::decode(&hdr).unwrap();
    assert_eq!(h.payload_len, 48 + 16 + 48);
    assert_eq!(&buf[64..80], &[0, 0, 0, 7, 0, 0, 0, 5, 0, 0, 0, 0, 0, 0, 0, 0]);
    assert!(buf[104..].iter().all(|&b| b == 0));
    let back = TransitionTable::decode(&buf).unwrap();
    assert_eq!(back.states[0].index, 7);
    assert_eq!(back.states[0].state_type, StateType::Halting);
    assert_eq!(back.transitions[0].id, 9);
    assert_eq!(back.transitions[0].move_output, 1);
}

#[test]
fn table_decode_errors() {
    assert_eq!(TransitionTable::decode(&[0u8; 8]).unwrap_err(), "buffer too short for header");
    let mut table = TransitionTable::new(TMTTMetadata::default_for_ptm());
    table.add_state(0, StateType::Initial);
    table.add_state(1, StateType::Accepting);
    let buf = table.encode();
    assert_eq!(TransitionTable::decode(&buf[0..40]).unwrap_err(), "buffer too short for metadata");
    assert_eq!(
        TransitionTable::decode(&buf[0..90]).unwrap_err(),
        "buffer too short for state records"
    );
    let mut bad = buf.clone();
    bad[64 + 7] = 0x09;
    assert_eq!(TransitionTable::decode(&bad).unwrap_err(), "invalid state type");
    let mut more = buf.clone();
    more[16 + 7] = 1;
    assert_eq!(
        TransitionTable::decode(&more).unwrap_err(),
        "buffer too short for transition records"
    );
    let mut corrupt = buf.clone();
    corrupt[13] ^= 1;
    assert!(TransitionTable::decode(&corrupt).unwrap_err().starts_with("CRC-32 mismatch: stored 0x"));
}

#[test]
fn state_record_codes() {
    let s = StateRecord { index: 3, state_type: StateType::Rejecting, num_outgoing: 2, outgoing_offset: 5 };
    let buf = s.encode();
    assert_eq!(buf, [0, 0, 0, 3, 0, 0, 0, 4, 0, 0, 0, 2, 0, 0, 0, 5]);
    let back = StateRecord::decode(&buf).unwrap();
    assert_eq!(back.state_type, StateType::Rejecting);
    assert_eq!(back.outgoing_offset, 5);
    let mut bad = buf;
    bad[7] = 0;
    assert!(StateRecord::decode(&bad).is_none());
    assert_eq!(StateType::from_u32(5), Some(StateType::Halting));
    assert_eq!(StateType::from_u32(6), None);
}

#[test]
fn finds_first_matching_transition() {
    let mut table = TransitionTable::new(TMTTMetadata::default_for_ptm());
    table.add_transition(record(0, 0, 1, [1, 2, 2, 2], [0; 4], [1; 4]));
    table.add_transition(record(1, 0, 2, [1, 2, 2, 2], [0; 4], [1; 4]));
    table.add_transition(record(2, 1, 2, [0, 2, 2, 2], [0; 4], [1; 4]));
    assert_eq!(table.find_transition(0, 1, 2, 2, 2).unwrap().id, 0);
    assert_eq!(table.find_transition(1, 0, 2, 2, 2).unwrap().id, 2);
    assert!(table.find_transition(1, 1, 2, 2, 2).is_none());
    assert!(!table.is_deterministic());
    let mut det = TransitionTable::new(TMTTMetadata::default_for_ptm());
    det.add_transition(record(0, 0, 1, [1, 2, 2, 2], [0; 4], [1; 4]));
    det.add_transition(record(1, 0, 1, [0, 2, 2, 2], [0; 4], [1; 4]));
    assert!(det.is_deterministic());
    assert!(record(0, 0, 0, [0; 4], [0; 4], [1, 0, 0, 2]).is_valid());
    assert!(!record(0, 0, 0, [0; 4], [0; 4], [0, 1, 1, 1]).is_valid());
}

#[test]
fn snapshot_roundtrip() {
    let meta = SnapshotMetadata {
        step_number: 42,
        current_state: 1,
        input_head: 3,
        work_head: 0,
        control_head: 0,
        output_head: 0,
        work_tape_len: 10,
        control_tape_len: 5,
    };
    let snap = Snapshot::new(meta);
    let buf = snap.encode();
    let snap2 = Snapshot::decode(&buf).unwrap();
    assert_eq!(snap2.metadata.step_number, 42);
    assert_eq!(snap2.metadata.current_state, 1);
    assert_eq!(snap2.metadata.input_head, 3);
}

#[test]
fn snapshot_layout_and_errors() {
    let meta = SnapshotMetadata {
        step_number: 0x01020304,
        current_state: 2,
        input_head: 0,
        work_head: 0,
        control_head: 0,
        output_head: 0,
        work_tape_len: 0,
        control_tape_len: 0xFFFF_FFFF,
    };
    let buf = Snapshot::new(meta).encode();
    assert_eq!(buf.len(), SNAP_HEADER_SIZE);
    assert_eq!(&buf[0..4], b"SNAP");
    assert_eq!(&buf[16..20], &[1, 2, 3, 4]);
    assert_eq!(&buf[44..48], &[0xFF; 4]);
    assert_eq!(Snapshot::decode(&buf[0..47]).unwrap_err(), "buffer too short");
    let mut bad = buf.clone();
    bad[0] = b'X';
    assert_eq!(Snapshot::decode(&bad).unwrap_err(), "invalid magic: 0x584E4150");
}

fn build_simple_table() -> TransitionTable {
    let mut meta = TMTTMetadata::default_for_ptm();
    meta.num_states = 3;
    meta.num_transitions = 2;
    meta.initial_state = 0;
    meta.accepting_state = 2;
    meta.rejecting_state = 3;
    meta.halting_state = 4;
    let mut table = TransitionTable::new(meta);
    table.add_state(0, StateType::Initial);
    table.add_state(1, StateType::Normal);
    table.add_state(2, StateType::Accepting);
    table.add_transition(TransitionRecord {
        id: 0,
        source_state: 0,
        target_state: 1,
        read_input: 0x01,
        read_work: 0x02,
        read_control: 0x02,
        read_output: 0x02,
        write_input: 0x02,
        write_work: 0x02,
        write_control: 0x02,
        write_output: 0x02,
        move_input: 0x01,
        move_work: 0x02,
        move_control: 0x02,
        move_output: 0x02,
    });
    table.add_transition(TransitionRecord {
        id: 1,
        source_state: 1,
        target_state: 2,
        read_input: 0x02,
        read_work: 0x02,
        read_control: 0x02,
        read_output: 0x02,
        write_input: 0x02,
        write_work: 0x02,
        write_control: 0x02,
        write_output: 0x02,
        move_input: 0x02,
        move_work: 0x02,
        move_control: 0x02,
        move_output: 0x02,
    });
    table
}

/// The polynomial bound of the default configuration: constant 1.0, degree 1.
fn default_bound(n: u64) -> u64 {
    (1.0 * (n as f64).powi(1)) as u64
}

#[test]
fn simulator_halts() {
    let table = build_simple_table();
    let mut sim = Simulator::new(SimulationConfig::default());
    sim.init_input(&[1]);
    let result = sim.run(&table, default_bound);
    assert_eq!(result, StepResult::Halted { state_type: StateTypeOutput::Accepting });
    assert_eq!(sim.step_count, 2);
}

#[test]
fn simulator_single_steps() {
    let table = build_simple_table();
    let mut sim = Simulator::new(SimulationConfig::default());
    sim.init_input(&[1]);
    assert_eq!(sim.step(&table, 2), StepResult::Continue);
    assert_eq!(sim.current_state, 1);
    assert_eq!(sim.tape_input.head, 1);
    assert_eq!(sim.tape_input.cells(), &[0x02, 0x02]);
    assert_eq!(sim.step(&table, 2), StepResult::Halted { state_type: StateTypeOutput::Accepting });
    assert_eq!(sim.step_count, 2);
    assert_eq!(sim.step(&table, 2), StepResult::MaxStepsExceeded);
    assert_eq!(sim.step_count, 2);
}

#[test]
fn simulator_stops_without_transition() {
    let table = build_simple_table();
    let mut sim = Simulator::new(SimulationConfig::default());
    sim.init_input(&[0]);
    assert_eq!(sim.run(&table, default_bound), StepResult::NoTransition);
    assert_eq!(sim.step_count, 0);
    assert_eq!(sim.snapshots.len(), 1);
    assert_eq!(sim.snapshots[0].metadata.step_number, 0);
}

#[test]
fn simulator_respects_limits() {
    let table = build_simple_table();
    let mut config = SimulationConfig::default();
    config.max_steps = 1;
    config.snapshot_interval = 1;
    let mut sim = Simulator::new(config);
    sim.init_input(&[1]);
    assert_eq!(sim.run(&table, |_n: u64| 0), StepResult::MaxStepsExceeded);
    assert_eq!(sim.step_count, 1);
    assert_eq!(sim.snapshots.len(), 2);
    assert_eq!(sim.snapshots[1].metadata.current_state, 1);
    assert_eq!(sim.snapshots[1].metadata.input_head, 1);
    let snap = sim.take_snapshot();
    assert_eq!(snap.metadata.step_number, 1);
    assert_eq!(sim.snapshots.len(), 3);
}

#[test]
fn simulator_rejects_and_loads_control() {
    let mut table = TransitionTable::new(TMTTMetadata::default_for_ptm());
    table.add_state(0, StateType::Initial);
    table.add_state(4, StateType::Rejecting);
    table.add_transition(record(0, 0, 4, [0x02, 0x02, 0x01, 0x02], [0x02, 0x03, 0x00, 0x01], [0x02, 0x01, 0x01, 0x01]));
    let mut sim = Simulator::new(SimulationConfig::default());
    sim.init_control(&[1]);
    assert_eq!(sim.step(&table, 0), StepResult::Rejected);
    assert_eq!(sim.tape_work.cells(), &[0x03, 0x02]);
    assert_eq!(sim.tape_control.cells(), &[0x00, 0x02]);
    assert_eq!(sim.tape_output.cells(), &[0x01, 0x02]);
    assert_eq!(sim.tape_output.head, 1);
}
