use lane_switchboards::consistency::{
    each_quorum_acks_required, is_local_only, is_local_only_read, is_paxos_read, metrics_snapshot,
    quorum_for, read_acks_required, write_acks_required, ConsistencyConfig, ConsistencyError,
    ReadConsistency, WriteConsistency,
};
use lane_switchboards::error::{IoError, IoErrorKind};
use lane_switchboards::time::Duration;

#[test]
fn quorum_for_values() {
    assert_eq!(quorum_for(1), 1);
    assert_eq!(quorum_for(2), 2);
    assert_eq!(quorum_for(3), 2);
    assert_eq!(quorum_for(5), 3);
}

#[test]
fn write_acks_all_levels() {
    assert_eq!(write_acks_required(WriteConsistency::Any, 3, 3, None).unwrap(), 1);
    assert_eq!(write_acks_required(WriteConsistency::One, 3, 3, None).unwrap(), 1);
    assert_eq!(write_acks_required(WriteConsistency::Two, 3, 3, None).unwrap(), 2);
    assert_eq!(write_acks_required(WriteConsistency::Three, 3, 3, None).unwrap(), 3);
    assert_eq!(write_acks_required(WriteConsistency::LocalOne, 3, 3, None).unwrap(), 1);
    assert_eq!(write_acks_required(WriteConsistency::LocalQuorum, 3, 3, None).unwrap(), 2);
    assert_eq!(write_acks_required(WriteConsistency::Quorum, 3, 3, None).unwrap(), 2);
    assert_eq!(write_acks_required(WriteConsistency::All, 3, 3, None).unwrap(), 3);
    assert_eq!(write_acks_required(WriteConsistency::Serial, 3, 3, None).unwrap(), 2);
    assert_eq!(
        write_acks_required(WriteConsistency::EachQuorum, 3, 3, Some(&[3, 3])).unwrap(),
        4
    );
}

#[test]
fn write_acks_not_enough_replicas() {
    assert!(matches!(
        write_acks_required(WriteConsistency::Two, 1, 1, None),
        Err(ConsistencyError::NotEnoughReplicas { required: 2, available: 1 })
    ));
    assert!(matches!(
        write_acks_required(WriteConsistency::LocalQuorum, 3, 0, None),
        Err(ConsistencyError::NotEnoughReplicas { required: 1, available: 0 })
    ));
    assert!(matches!(
        write_acks_required(WriteConsistency::EachQuorum, 3, 3, Some(&[0])),
        Err(ConsistencyError::NotEnoughReplicas { .. })
    ));
    assert!(matches!(
        write_acks_required(WriteConsistency::EachQuorum, 3, 3, None),
        Err(ConsistencyError::NotEnoughReplicas { .. })
    ));
}

#[test]
fn read_acks_all_levels() {
    assert_eq!(read_acks_required(ReadConsistency::One, 3, 3).unwrap(), 1);
    assert_eq!(read_acks_required(ReadConsistency::Two, 3, 3).unwrap(), 2);
    assert_eq!(read_acks_required(ReadConsistency::Three, 3, 3).unwrap(), 3);
    assert_eq!(read_acks_required(ReadConsistency::LocalOne, 3, 3).unwrap(), 1);
    assert_eq!(read_acks_required(ReadConsistency::LocalQuorum, 3, 3).unwrap(), 2);
    assert_eq!(read_acks_required(ReadConsistency::Quorum, 3, 3).unwrap(), 2);
    assert_eq!(read_acks_required(ReadConsistency::Serial, 3, 3).unwrap(), 2);
    assert_eq!(read_acks_required(ReadConsistency::LocalSerial, 3, 3).unwrap(), 2);
    assert_eq!(read_acks_required(ReadConsistency::All, 3, 3).unwrap(), 3);
}

#[test]
fn read_acks_not_enough_replicas() {
    assert!(matches!(
        read_acks_required(ReadConsistency::Two, 1, 1),
        Err(ConsistencyError::NotEnoughReplicas { required: 2, available: 1 })
    ));
    assert!(matches!(
        read_acks_required(ReadConsistency::LocalSerial, 3, 0),
        Err(ConsistencyError::NotEnoughReplicas { required: 1, available: 0 })
    ));
}

#[test]
fn is_paxos_read_flag() {
    assert!(!is_paxos_read(ReadConsistency::Quorum));
    assert!(is_paxos_read(ReadConsistency::Serial));
    assert!(is_paxos_read(ReadConsistency::LocalSerial));
}

#[test]
fn is_local_only_flags() {
    assert!(is_local_only(WriteConsistency::LocalOne));
    assert!(is_local_only(WriteConsistency::LocalQuorum));
    assert!(!is_local_only(WriteConsistency::Quorum));

    assert!(is_local_only_read(ReadConsistency::LocalOne));
    assert!(is_local_only_read(ReadConsistency::LocalQuorum));
    assert!(is_local_only_read(ReadConsistency::LocalSerial));
    assert!(!is_local_only_read(ReadConsistency::Serial));
}

#[test]
fn consistency_config_default() {
    let cfg = ConsistencyConfig::default();
    assert_eq!(cfg.rf, 3);
    assert_eq!(cfg.local_rf, 3);
    assert_eq!(cfg.write_cl, WriteConsistency::LocalQuorum);
    assert_eq!(cfg.read_cl, ReadConsistency::LocalQuorum);
    assert_eq!(cfg.ack_timeout, Duration::from_secs(5));
}

#[test]
fn consistency_error_display_and_io() {
    let err = ConsistencyError::NotEnoughAcks {
        required: 2,
        received: 1,
        dc: Some("east".to_string()),
    };
    assert!(err.to_string().contains("east"));
    let io = IoError::from_consistency(err);
    assert_eq!(io.kind(), IoErrorKind::Other);
}

#[test]
fn each_quorum_per_dc() {
    assert_eq!(each_quorum_acks_required(&[2, 2]).unwrap(), vec![2, 2]);
    assert_eq!(each_quorum_acks_required(&[3, 3]).unwrap(), vec![2, 2]);
}

#[test]
fn timeout_text_shows_the_duration() {
    let err = ConsistencyError::Timeout { after: Duration::from_millis(1500) };
    assert!(err.to_string().contains("1.5s"));
}

#[test]
fn quorum_reads_meet_quorum_writes() {
    for rf in 1..20usize {
        let w = write_acks_required(WriteConsistency::Quorum, rf, rf, None).unwrap();
        let r = read_acks_required(ReadConsistency::Quorum, rf, rf).unwrap();
        assert!(w + r > rf);
    }
}

#[test]
fn metrics_carry_the_outcome() {
    let m = metrics_snapshot(
        "echo",
        WriteConsistency::Quorum.name(),
        2,
        1,
        3,
        Duration::from_millis(17),
        false,
    );
    assert_eq!(m.service, "echo");
    assert_eq!(m.consistency_level, "Quorum");
    assert_eq!(m.acks_required, 2);
    assert_eq!(m.acks_received, 1);
    assert_eq!(m.replicas_contacted, 3);
    assert_eq!(m.duration_ms, 17);
    assert!(!m.succeeded);
}

#[test]
fn strong_levels_overlap() {
    for rf in 1..8usize {
        let pairs = [
            (WriteConsistency::Quorum, ReadConsistency::Quorum),
            (WriteConsistency::Quorum, ReadConsistency::Serial),
            (WriteConsistency::All, ReadConsistency::One),
            (WriteConsistency::One, ReadConsistency::All),
        ];
        for (w, r) in pairs {
            let needed = write_acks_required(w, rf, 0, None).unwrap()
                + read_acks_required(r, rf, 0).unwrap();
            assert!(needed > rf);
        }
        for r in [ReadConsistency::LocalQuorum, ReadConsistency::LocalSerial] {
            let needed = write_acks_required(WriteConsistency::LocalQuorum, 0, rf, None).unwrap()
                + read_acks_required(r, 0, rf).unwrap();
            assert!(needed > rf);
        }
    }
}
