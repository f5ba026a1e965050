use chaos::ratio::Ratio;
use chaos::supervision::{Cadence, Duty, Heartbeat, Liveness, RestartPolicy};

fn value(ratio: Ratio) -> f64 {
    ratio.num as f64 / ratio.den as f64
}

#[test]
fn a_heartbeat_round_trips_through_its_encoded_form() {
    let hb = Heartbeat {
        seq: 7,
        at_millis: 1_700_000_000_000,
    };
    assert_eq!(Heartbeat::decode(&hb.encode()), Some(hb));
}

#[test]
fn the_layout_is_little_endian_seq_then_stamp() {
    let hb = Heartbeat {
        seq: 0x0102_0304_0506_0708,
        at_millis: -2,
    };
    let bytes = hb.encode();
    assert_eq!(bytes[0..8], 0x0102_0304_0506_0708u64.to_le_bytes());
    assert_eq!(bytes[8..16], (-2i64).to_le_bytes());
    // The first byte is the low byte of seq, not the high one.
    assert_eq!(bytes[0], 0x08);
}

#[test]
fn decode_rejects_a_slice_shorter_than_sixteen_bytes() {
    let full = Heartbeat {
        seq: 1,
        at_millis: 2,
    }
    .encode();
    assert!(Heartbeat::decode(&full).is_some());
    assert_eq!(Heartbeat::decode(&full[..15]), None);
    assert_eq!(Heartbeat::decode(&full[..8]), None);
    assert_eq!(Heartbeat::decode(&[]), None);
}

#[test]
fn decode_ignores_bytes_past_the_record() {
    let hb = Heartbeat {
        seq: 5,
        at_millis: 6,
    };
    let mut bytes = hb.encode().to_vec();
    bytes.extend_from_slice(&[0xff; 4]);
    assert_eq!(Heartbeat::decode(&bytes), Some(hb));
}

#[test]
fn a_restart_shows_up_as_the_sequence_going_backwards() {
    let before = Heartbeat::decode(
        &Heartbeat {
            seq: 412,
            at_millis: 1_000,
        }
        .encode(),
    )
    .unwrap();
    let after = Heartbeat::decode(
        &Heartbeat {
            seq: 3,
            at_millis: 1_500,
        }
        .encode(),
    )
    .unwrap();
    // The stamp only climbs, so the sequence is the only evidence.
    assert!(after.at_millis > before.at_millis);
    assert!(after.seq < before.seq);
}

#[test]
fn cadence_clamps_a_negative_grace_to_zero() {
    assert_eq!(Cadence::new(100, -50).grace_millis, 0);
    assert_eq!(Cadence::new(100, 0).grace_millis, 0);
    assert_eq!(Cadence::new(100, 20).grace_millis, 20);
}

#[test]
fn the_deadline_is_interval_plus_grace() {
    assert_eq!(Cadence::new(1_000, 250).deadline_millis(), 1_250);
    assert_eq!(Cadence::new(1_000, -250).deadline_millis(), 1_000);
}

#[test]
fn a_heartbeat_inside_the_window_is_alive() {
    let cadence = Cadence::new(1_000, 100);
    let last = Some(Heartbeat {
        seq: 1,
        at_millis: 10_000,
    });
    assert_eq!(Liveness::judge(10_500, last, cadence), Liveness::Alive);
}

#[test]
fn a_heartbeat_exactly_at_the_deadline_is_still_alive() {
    let cadence = Cadence::new(1_000, 100);
    let last = Some(Heartbeat {
        seq: 1,
        at_millis: 10_000,
    });
    // 10_000 + 1_000 + 100; the boundary belongs to liveness.
    assert_eq!(Liveness::judge(11_100, last, cadence), Liveness::Alive);
}

#[test]
fn a_heartbeat_one_millisecond_past_the_deadline_is_stale() {
    let cadence = Cadence::new(1_000, 100);
    let last = Some(Heartbeat {
        seq: 1,
        at_millis: 10_000,
    });
    assert_eq!(Liveness::judge(11_101, last, cadence), Liveness::Stale);
}

#[test]
fn a_sensor_that_has_never_beaten_is_never_seen() {
    let cadence = Cadence::new(1_000, 100);
    assert_eq!(Liveness::judge(99_999, None, cadence), Liveness::NeverSeen);
}

#[test]
fn a_backwards_clock_is_not_evidence_of_a_missed_beat() {
    let cadence = Cadence::new(1_000, 100);
    let last = Some(Heartbeat {
        seq: 1,
        at_millis: 10_000,
    });
    assert_eq!(Liveness::judge(9_000, last, cadence), Liveness::Alive);
}

#[test]
fn only_alive_counts_as_alive() {
    assert!(Liveness::Alive.is_alive());
    assert!(!Liveness::Stale.is_alive());
    assert!(!Liveness::NeverSeen.is_alive());
}

#[test]
fn delay_starts_at_the_base_and_doubles() {
    let policy = RestartPolicy {
        base_millis: 500,
        ceiling_millis: 60_000,
        max_attempts: 10,
    };
    assert_eq!(policy.delay_millis(0), 500);
    assert_eq!(policy.delay_millis(1), 1_000);
    assert_eq!(policy.delay_millis(2), 2_000);
    assert_eq!(policy.delay_millis(3), 4_000);
}

#[test]
fn delay_is_capped_at_the_ceiling() {
    let policy = RestartPolicy {
        base_millis: 500,
        ceiling_millis: 5_000,
        max_attempts: 10,
    };
    assert_eq!(policy.delay_millis(3), 4_000);
    assert_eq!(policy.delay_millis(4), 5_000);
    assert_eq!(policy.delay_millis(40), 5_000);
}

#[test]
fn delay_saturates_instead_of_overflowing_on_a_huge_attempt() {
    let policy = RestartPolicy {
        base_millis: 500,
        ceiling_millis: i64::MAX,
        max_attempts: u32::MAX,
    };
    // 2^u32::MAX * 500 does not fit in i64; the cap holds the answer.
    assert_eq!(policy.delay_millis(u32::MAX), i64::MAX);
}

#[test]
fn restart_is_budgeted_and_the_boundary_is_refused() {
    let policy = RestartPolicy {
        base_millis: 500,
        ceiling_millis: 5_000,
        max_attempts: 3,
    };
    assert!(policy.should_restart(0));
    assert!(policy.should_restart(1));
    assert!(policy.should_restart(2));
    assert!(!policy.should_restart(3));
    assert!(!policy.should_restart(4));
}

#[test]
fn a_zero_attempt_budget_refuses_the_first_restart() {
    let policy = RestartPolicy {
        base_millis: 500,
        ceiling_millis: 5_000,
        max_attempts: 0,
    };
    assert!(!policy.should_restart(0));
}

#[test]
fn recording_moves_each_counter_once() {
    let mut duty = Duty::default();
    duty.record_beat();
    duty.record_beat();
    duty.record_miss();
    duty.record_restart();
    assert_eq!(duty.observed, 2);
    assert_eq!(duty.missed, 1);
    assert_eq!(duty.restarts, 1);
}

#[test]
fn availability_is_observed_over_expected() {
    let mut duty = Duty::default();
    duty.record_beat();
    duty.record_beat();
    duty.record_beat();
    duty.record_miss();
    // 3 of 4 expected beats arrived.
    assert_eq!(value(duty.availability()), 0.75);
}

#[test]
fn availability_is_full_when_every_beat_arrived() {
    let mut duty = Duty::default();
    duty.record_beat();
    duty.record_beat();
    assert_eq!(value(duty.availability()), 1.0);
}

#[test]
fn no_observations_reads_as_full_availability_not_zero() {
    let duty = Duty::default();
    assert_eq!(value(duty.availability()), 1.0);
}

#[test]
fn silence_only_lapses() {
    let cadence = Cadence::new(1_000, 0);
    let last = Some(Heartbeat {
        seq: 1,
        at_millis: 0,
    });
    assert_eq!(Liveness::judge(1_000, last, cadence), Liveness::Alive);
    assert_eq!(Liveness::judge(1_001, last, cadence), Liveness::Stale);
    assert_eq!(Liveness::judge(i64::MAX, last, cadence), Liveness::Stale);
}

#[test]
fn the_extremes_of_a_heartbeat_survive_the_wire() {
    for hb in [
        Heartbeat {
            seq: u64::MAX,
            at_millis: i64::MIN,
        },
        Heartbeat {
            seq: 0,
            at_millis: i64::MAX,
        },
        Heartbeat {
            seq: 1 << 63,
            at_millis: -1,
        },
    ] {
        assert_eq!(Heartbeat::decode(&hb.encode()), Some(hb));
    }
}

#[test]
fn delays_never_shrink_and_never_pass_the_ceiling() {
    let policy = RestartPolicy {
        base_millis: 7,
        ceiling_millis: 1_000,
        max_attempts: 100,
    };
    let mut last = 0;
    for attempt in 0..100 {
        let delay = policy.delay_millis(attempt);
        assert!(delay >= last);
        assert!(delay <= 1_000);
        last = delay;
    }
    assert_eq!(last, 1_000);
}
