use ptm::anomaly::{detect_stuck, drifting_windows};
use ptm::pattern::{PatternMatcher, PatternTemplate};
use ptm::snapshot::{Snapshot, SnapshotMetadata};
use ptm::trace_analyzer::{TraceAnalyzer, TraceEvent, TracePattern};

#[test]
fn constant_pattern() {
    let mut analyzer = TraceAnalyzer::new();
    for i in 0..10 {
        analyzer.events.push(TraceEvent {
            step: i,
            state: 0,
            input_head: 5,
            work_head: 3,
            output_head: 0,
        });
    }
    assert_eq!(analyzer.detect_pattern(), TracePattern::Constant);
}

fn snapshots(states: &[u32], work_heads: &[u32]) -> Vec<Snapshot> {
    states
        .iter()
        .zip(work_heads)
        .enumerate()
        .map(|(i, (&s, &w))| {
            Snapshot::new(SnapshotMetadata {
                step_number: i as u32,
                current_state: s,
                input_head: i as u32,
                work_head: w,
                control_head: 0,
                output_head: 0,
                work_tape_len: 1,
                control_tape_len: 1,
            })
        })
        .collect()
}

#[test]
fn trace_from_snapshots() {
    let snaps = snapshots(&[0, 2, 2, 1], &[0, 1, 2, 3]);
    let analyzer = TraceAnalyzer::from_snapshots(&snaps);
    assert_eq!(analyzer.events.len(), 4);
    assert_eq!(analyzer.state_histogram(), &vec![1, 1, 2]);
    assert_eq!(analyzer.head_movements(), &vec![(1, 1, 0, 0); 3]);
    assert_eq!(analyzer.unique_states(), 3);
    assert_eq!(analyzer.detect_pattern(), TracePattern::Divergent);
    let back = TraceAnalyzer::from_snapshots(&snapshots(&[0, 2, 2, 1], &[3, 2, 1, 0]));
    assert_eq!(back.detect_pattern(), TracePattern::Convergent);
    let slow = TraceAnalyzer::from_snapshots(&snapshots(&[0, 1, 2, 3, 4], &[0, 1, 1, 1, 1]));
    assert_eq!(slow.detect_pattern(), TracePattern::Linear);
    let still = TraceAnalyzer::from_snapshots(&snapshots(&[0, 1, 2, 3], &[5, 5, 5, 5]));
    assert_eq!(still.detect_pattern(), TracePattern::Constant);
    let periodic = TraceAnalyzer::from_snapshots(&snapshots(&[0, 1, 0, 1, 0, 1], &[0, 1, 2, 3, 4, 5]));
    assert_eq!(periodic.detect_pattern(), TracePattern::Periodic);
    assert_eq!(
        analyzer.summary("1.500", "1.25", "1.25"),
        "Trace Analysis:\n  Events: 4\n  Pattern: Divergent\n  State Entropy: 1.500 bits\n  Input Head Variance: 1.25\n  Work Head Variance: 1.25\n  Unique States Visited: 3"
    );
}

#[test]
fn template_matching() {
    let mut matcher = PatternMatcher::new();
    matcher.add_template(PatternTemplate {
        name: "AB".into(),
        state_sequence: vec![0, 1],
        min_occurrences: 1,
    });
    let seq = vec![0, 1, 2, 0, 1, 3];
    let results = matcher.match_sequence(&seq);
    assert_eq!(results.len(), 2);
}

#[test]
fn template_matching_spans() {
    let mut matcher = PatternMatcher::new();
    matcher.add_template(PatternTemplate { name: "AA".into(), state_sequence: vec![7, 7], min_occurrences: 2 });
    matcher.add_template(PatternTemplate { name: "B".into(), state_sequence: vec![9], min_occurrences: 1 });
    let results = matcher.match_sequence(&[7, 7, 7, 9, 7, 7]);
    let spans: Vec<(String, u64, u64)> =
        results.iter().map(|m| (m.pattern_name.clone(), m.start_step, m.end_step)).collect();
    assert_eq!(spans, vec![("AA".to_string(), 4, 6), ("B".to_string(), 3, 4)]);
    assert_eq!(matcher.matches.len(), 2);
    assert_eq!(matcher.summary(), "Pattern Matcher:\n  Templates: 2\n  Matches found: 2");
}

#[test]
fn periodicity_detection() {
    let matcher = PatternMatcher::new();
    let seq = vec![0, 1, 2, 0, 1, 2, 0, 1, 2];
    assert_eq!(matcher.detect_periodicity(&seq), Some(3));
}

#[test]
fn periodicity_edge_cases() {
    let matcher = PatternMatcher::new();
    assert_eq!(matcher.detect_periodicity(&[1, 1, 1]), None);
    assert_eq!(matcher.detect_periodicity(&[1, 1, 1, 1]), Some(2));
    assert_eq!(matcher.detect_periodicity(&[1, 2, 3, 4, 5]), None);
}

#[test]
fn cycle_detection() {
    let matcher = PatternMatcher::new();
    assert_eq!(matcher.detect_cycle(&[5]), None);
    assert_eq!(matcher.detect_cycle(&[1, 2, 3, 2, 3, 2, 3]), Some((2, 2)));
    assert_eq!(matcher.detect_cycle(&[1, 2, 3, 4, 5, 6]), None);
    assert_eq!(matcher.detect_cycle(&[4, 4, 4]), Some((0, 1)));
}

#[test]
fn stuck_detection() {
    let recent = vec![5, 5, 5, 5, 5];
    assert!(detect_stuck(5, &recent, 3));
    assert!(!detect_stuck(3, &recent, 3));
}

#[test]
fn stuck_needs_enough_history() {
    assert!(!detect_stuck(5, &[5, 5], 3));
    assert!(detect_stuck(5, &[1, 5, 5], 2));
    assert!(detect_stuck(5, &[1, 2], 0));
}

#[test]
fn drifting_work_heads() {
    let moves = [(0, 6), (0, 6), (0, 6), (0, 0), (0, -20)];
    assert_eq!(drifting_windows(&moves, 2), vec![12, 12, -20]);
    assert_eq!(drifting_windows(&moves, 6), Vec::<i64>::new());
    assert_eq!(drifting_windows(&moves, 1), vec![6, 6, 6, -20]);
}
