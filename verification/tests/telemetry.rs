use channels_sv2::telemetry::{clear_gains, gains, next_instance_id, publish_gains, GainTelemetry};

fn bits(kp: f64, ki: f64, kd: f64) -> (u64, u64, u64) {
    (kp.to_bits(), ki.to_bits(), kd.to_bits())
}

#[test]
fn instance_ids_are_sequential_from_one() {
    let mut t = GainTelemetry::new();
    assert_eq!(next_instance_id(&mut t), 1);
    assert_eq!(next_instance_id(&mut t), 2);
    assert_eq!(next_instance_id(&mut t), 3);
}

#[test]
fn published_gains_read_back() {
    let mut t = GainTelemetry::new();
    assert_eq!(gains(&t, "alice"), None);
    let (kp, ki, kd) = bits(0.9, 0.008, 0.0);
    publish_gains(&mut t, "alice", 1, kp, ki, kd);
    assert_eq!(gains(&t, "alice"), Some((kp, ki, kd)));
    assert_eq!(gains(&t, "bob"), None);
    let (kp2, ki2, kd2) = bits(1.2, 0.01, 0.05);
    publish_gains(&mut t, "alice", 1, kp2, ki2, kd2);
    assert_eq!(gains(&t, "alice"), Some((kp2, ki2, kd2)));
}

#[test]
fn stale_instance_cannot_clear_successor() {
    let mut t = GainTelemetry::new();
    let old_id = next_instance_id(&mut t);
    let new_id = next_instance_id(&mut t);
    let (kp, ki, kd) = bits(0.6, 0.005, 0.0);
    publish_gains(&mut t, "miner", old_id, kp, ki, kd);
    // Reconnect: the successor publishes before the old channel drops.
    publish_gains(&mut t, "miner", new_id, kp, ki, kd);
    clear_gains(&mut t, "miner", old_id);
    assert_eq!(gains(&t, "miner"), Some((kp, ki, kd)));
    clear_gains(&mut t, "miner", new_id);
    assert_eq!(gains(&t, "miner"), None);
}

#[test]
fn clearing_leaves_other_identities() {
    let mut t = GainTelemetry::new();
    publish_gains(&mut t, "a", 1, 1, 2, 3);
    publish_gains(&mut t, "b", 2, 4, 5, 6);
    publish_gains(&mut t, "c", 3, 7, 8, 9);
    clear_gains(&mut t, "b", 2);
    assert_eq!(gains(&t, "a"), Some((1, 2, 3)));
    assert_eq!(gains(&t, "b"), None);
    assert_eq!(gains(&t, "c"), Some((7, 8, 9)));
    // Clearing an absent identity is a no-op.
    clear_gains(&mut t, "zzz", 1);
    assert_eq!(gains(&t, "a"), Some((1, 2, 3)));
}
