use channels_sv2::error::VardiffError;
use channels_sv2::qtable::{
    action_steps, state_index, QTable, ACTIONS, CELLS, KEEP_ACTION, KEEP_SEED_Q,
    MIN_CONFIDENT_VISITS, QTABLE_BLOB_LEN, STATES,
};

fn steps(a: usize) -> [usize; 3] {
    let (x, y, z) = action_steps(a);
    [x, y, z]
}

#[test]
fn exploration_perturbs_exactly_one_axis_by_one_step() {
    let mut table = QTable::with_seed(12345);
    let greedy = KEEP_ACTION;
    let g = steps(greedy);
    let mut saw_non_greedy = false;
    for _ in 0..2000 {
        let a = table.explore_from(greedy);
        let s = steps(a);
        let diffs: Vec<usize> = (0..3).filter(|&i| s[i] != g[i]).collect();
        assert!(
            diffs.len() <= 1,
            "explored action {a:?} differs from greedy {g:?} on {} axes",
            diffs.len()
        );
        for &i in &diffs {
            assert!(
                s[i].abs_diff(g[i]) == 1,
                "axis {i} moved more than one step: {g:?} -> {s:?}"
            );
        }
        if !diffs.is_empty() {
            saw_non_greedy = true;
        }
    }
    assert!(saw_non_greedy, "exploration never left the greedy action");
}

#[test]
fn exploration_from_boundary_stays_in_bounds() {
    let mut table = QTable::with_seed(999);
    let greedy = 6;
    assert_eq!(steps(greedy), [0, 2, 0]);
    for _ in 0..1000 {
        let a = table.explore_from(greedy);
        for &step in &steps(a) {
            assert!(step <= 2, "step {step} out of range for action {a}");
        }
    }
}

#[test]
fn exploration_from_keep_visits_both_directions_on_every_axis() {
    let mut table = QTable::with_seed(7);
    let mut seen = std::collections::HashSet::new();
    for _ in 0..500 {
        seen.insert(table.explore_from(KEEP_ACTION));
    }
    // The six single-axis neighbours of keep/keep/keep.
    let expected: std::collections::HashSet<usize> = [4, 22, 10, 16, 12, 14].into_iter().collect();
    assert_eq!(seen, expected);
}

#[test]
fn next_random_bits_is_xorshift64() {
    let mut table = QTable::with_seed(42);
    // seed 42 | 1 = 43
    let mut x: u64 = 43;
    for _ in 0..100 {
        x ^= x << 13;
        x ^= x >> 7;
        x ^= x << 17;
        let m = table.next_random_bits();
        assert_eq!(m, x >> 11);
        assert!(m < (1u64 << 53));
    }
}

fn trained_table() -> QTable {
    let mut table = QTable::with_seed(42);
    for i in 0..500usize {
        let state = i % STATES;
        let action = (i * 7) % ACTIONS;
        table.record_visit(state, action);
        let reward = (i as f64 % 5.0) - 2.0;
        table.set_q_bits(state, action, reward.to_bits());
    }
    let _ = table.explore_from(3);
    table
}

#[test]
fn qtable_encode_decode_round_trips() {
    let mut table = trained_table();
    let blob = table.encode();
    assert_eq!(blob.len(), QTABLE_BLOB_LEN);
    let mut restored = QTable::decode(&blob).expect("round-trip decodes");
    assert_eq!(restored.total_visits(), table.total_visits());
    for s in 0..STATES {
        for a in 0..ACTIONS {
            assert_eq!(restored.q_bits(s, a), table.q_bits(s, a));
            assert_eq!(restored.visit_count(s, a), table.visit_count(s, a));
        }
    }
    // The generator state round-trips too: both continue identically.
    for _ in 0..10 {
        assert_eq!(restored.next_random_bits(), table.next_random_bits());
    }
    assert_eq!(restored.encode(), table.encode());
}

#[test]
fn qtable_decode_rejects_bad_blobs() {
    let good = QTable::with_seed(1).encode();
    // Truncated.
    assert!(matches!(
        QTable::decode(&good[..good.len() - 1]),
        Err(VardiffError::InvalidQTableBlob)
    ));
    // Wrong magic.
    let mut bad_magic = good.clone();
    bad_magic[0] ^= 0xFF;
    assert!(matches!(
        QTable::decode(&bad_magic),
        Err(VardiffError::InvalidQTableBlob)
    ));
    // Wrong version (bytes 4..6).
    let mut bad_ver = good.clone();
    bad_ver[4] = bad_ver[4].wrapping_add(1);
    assert!(matches!(
        QTable::decode(&bad_ver),
        Err(VardiffError::InvalidQTableBlob)
    ));
    // Empty.
    assert!(matches!(
        QTable::decode(&[]),
        Err(VardiffError::InvalidQTableBlob)
    ));
}

#[test]
fn decode_rejects_foreign_layouts_and_extra_bytes() {
    let good = QTable::with_seed(1).encode();
    let mut bad_states = good.clone();
    bad_states[6] = 37;
    assert_eq!(QTable::decode(&bad_states).err(), Some(VardiffError::InvalidQTableBlob));
    let mut bad_actions = good.clone();
    bad_actions[10] = 26;
    assert_eq!(QTable::decode(&bad_actions).err(), Some(VardiffError::InvalidQTableBlob));
    let mut long = good.clone();
    long.push(0);
    assert_eq!(QTable::decode(&long).err(), Some(VardiffError::InvalidQTableBlob));
}

#[test]
fn encode_layout_is_little_endian() {
    let table = QTable::with_seed(0x0102_0304_0506_0708);
    let blob = table.encode();
    assert_eq!(&blob[0..4], b"QPID");
    assert_eq!(&blob[4..6], &1u16.to_le_bytes());
    assert_eq!(&blob[6..10], &36u32.to_le_bytes());
    assert_eq!(&blob[10..14], &27u32.to_le_bytes());
    assert_eq!(&blob[14..22], &0x0102_0304_0506_0709u64.to_le_bytes());
    assert_eq!(&blob[22..30], &0u64.to_le_bytes());
    // Keep action of state 0 holds the optimistic seed.
    let keep_off = 30 + 8 * KEEP_ACTION;
    assert_eq!(&blob[keep_off..keep_off + 8], &KEEP_SEED_Q.to_le_bytes());
    assert_eq!(f64::from_bits(KEEP_SEED_Q), 1e-3);
    assert_eq!(blob.len(), 30 + CELLS * 12);
}

#[test]
fn decode_replaces_zero_generator_state() {
    let mut blob = QTable::with_seed(1).encode();
    for b in &mut blob[14..22] {
        *b = 0;
    }
    let mut t = QTable::decode(&blob).unwrap();
    // A zero state would freeze xorshift64; decoding restarts it at 1.
    let mut x: u64 = 1;
    x ^= x << 13;
    x ^= x >> 7;
    x ^= x << 17;
    assert_eq!(t.next_random_bits(), x >> 11);
}

#[test]
fn seeded_table_defaults_to_keep() {
    let t = QTable::with_seed(5);
    for s in 0..STATES {
        for a in 0..ACTIONS {
            let expected = if a == KEEP_ACTION { 1e-3 } else { 0.0 };
            assert_eq!(f64::from_bits(t.q_bits(s, a)), expected);
            assert_eq!(t.visit_count(s, a), 0);
        }
    }
    assert_eq!(t.total_visits(), 0);
}

#[test]
fn thin_state_defers_to_keep() {
    let mut table = QTable::with_seed(3);
    table.record_visit(5, 7);
    assert_eq!(table.confidence_gate(5, 7, true), KEEP_ACTION);
    for _ in 0..MIN_CONFIDENT_VISITS {
        table.record_visit(5, 7);
    }
    assert_eq!(table.confidence_gate(5, 7, true), 7);
    // Without a clear advantage the learned action still defers to keep.
    assert_eq!(table.confidence_gate(5, 7, false), KEEP_ACTION);
    // Keep is always keep.
    assert_eq!(table.confidence_gate(5, KEEP_ACTION, false), KEEP_ACTION);
}

#[test]
fn record_visit_counts_and_saturates() {
    let mut t = QTable::with_seed(9);
    for _ in 0..3 {
        t.record_visit(2, 4);
    }
    assert_eq!(t.visit_count(2, 4), 3);
    assert_eq!(t.visit_count(2, 5), 0);
    assert_eq!(t.total_visits(), 3);
}

#[test]
fn state_index_covers_all_buckets_in_range() {
    let mut seen = std::collections::HashSet::new();
    for m in 0..4 {
        for t in 0..3 {
            for c in 0..3 {
                let s = state_index(m, t, c);
                assert!(s < STATES, "state {s} out of range");
                seen.insert(s);
            }
        }
    }
    assert_eq!(seen.len(), STATES);
    assert_eq!(state_index(3, 2, 2), 35);
    assert_eq!(state_index(1, 0, 2), 11);
}

#[test]
fn action_steps_decodes_base_three() {
    assert_eq!(action_steps(KEEP_ACTION), (1, 1, 1));
    assert_eq!(action_steps(0), (0, 0, 0));
    assert_eq!(action_steps(26), (2, 2, 2));
    assert_eq!(action_steps(6), (0, 2, 0));
}

#[test]
fn decoded_blob_re_encodes_to_itself() {
    let mut blob = trained_table().encode();
    // Any payload bytes are carried through unchanged.
    blob[30] = 0xAB;
    blob[QTABLE_BLOB_LEN - 1] = 0xCD;
    let t = QTable::decode(&blob).unwrap();
    assert_eq!(t.encode(), blob);
}
