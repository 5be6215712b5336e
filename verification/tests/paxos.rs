use lane_switchboards::consistency::ConsistencyError;
use lane_switchboards::paxos::{
    highest_accepted, PaxosAcceptor, PaxosMsg, PaxosNode, PaxosProposer, PaxosWireMsg, Prepare,
    Promise, Propose, ReadStep, Reject, RoundReport, MAX_ROUNDS,
};
use lane_switchboards::time::Duration;

#[test]
fn acceptor_prepare_promise_and_reject() {
    let mut acc = PaxosAcceptor::default();
    let p1 = Prepare { ballot: 1, key: "k".to_string() };
    match acc.handle(PaxosWireMsg::Prepare(p1.clone())) {
        PaxosWireMsg::Promise(p) => {
            assert_eq!(p.ballot, 1);
            assert!(p.accepted.is_none());
        }
        _ => panic!("expected promise"),
    }

    let p2 = Prepare { ballot: 0, key: "k".to_string() };
    assert!(matches!(
        acc.handle(PaxosWireMsg::Prepare(p2)),
        PaxosWireMsg::Reject(Reject { higher: 1, .. })
    ));
}

fn prepare_all(nodes: &mut Vec<PaxosNode>, ballot: u64, key: &str) -> RoundReport {
    let proposer = PaxosProposer::default();
    let mut report = RoundReport::new();
    for n in nodes.iter_mut() {
        report.absorb(n.handle(PaxosMsg::Rpc(proposer.prepare_message(key, ballot))));
    }
    report
}

fn three() -> Vec<PaxosNode> {
    vec![PaxosNode::default(), PaxosNode::default(), PaxosNode::default()]
}

fn value_of(step: ReadStep) -> Option<Vec<u8>> {
    match step {
        ReadStep::Finish(Ok(v)) => v,
        _ => panic!("expected a finished read"),
    }
}

#[test]
fn paxos_read_empty_state() {
    let mut nodes = three();
    let report = prepare_all(&mut nodes, 1, "user:1");
    let proposer = PaxosProposer::default();
    assert!(proposer.begin_read(3, 2).is_ok());
    let step = proposer.decide_round(0, Some(report), 2, Duration::from_secs(2));
    assert!(value_of(step).is_none());
}

#[test]
fn paxos_read_highest_accepted_wins() {
    let mut nodes = three();
    let done = nodes[1].handle(PaxosMsg::Inject {
        key: "user:1".to_string(),
        ballot: 1,
        value: b"hello".to_vec(),
    });
    assert!(done.is_none());
    let report = prepare_all(&mut nodes, 2, "user:1");
    let step = PaxosProposer::default().decide_round(0, Some(report), 2, Duration::from_secs(2));
    assert_eq!(value_of(step), Some(b"hello".to_vec()));
}

#[test]
fn promised_ballot_shuts_out_lower_proposals() {
    let mut acc = PaxosAcceptor::default();
    acc.handle(PaxosWireMsg::Prepare(Prepare { ballot: 5, key: "k".to_string() }));
    let low = acc.handle(PaxosWireMsg::Propose(Propose {
        ballot: 4,
        key: "k".to_string(),
        value: vec![1],
    }));
    assert!(matches!(low, PaxosWireMsg::Reject(Reject { ballot: 4, higher: 5 })));
    let ok = acc.handle(PaxosWireMsg::Propose(Propose {
        ballot: 5,
        key: "k".to_string(),
        value: vec![2],
    }));
    assert!(matches!(ok, PaxosWireMsg::Accept(_)));
}

#[test]
fn contention_is_reported_after_the_last_round() {
    let proposer = PaxosProposer::default();
    for round in 0..MAX_ROUNDS {
        let mut report = RoundReport::new();
        report.absorb(Some(PaxosWireMsg::Reject(Reject { ballot: 1, higher: 2 })));
        report.absorb(None);
        let step = proposer.decide_round(round, Some(report), 2, Duration::from_secs(1));
        if round + 1 < MAX_ROUNDS {
            assert!(matches!(step, ReadStep::NextRound));
        } else {
            assert!(matches!(
                step,
                ReadStep::Finish(Err(ConsistencyError::PaxosContention { rounds: 3 }))
            ));
        }
    }
}

#[test]
fn read_without_enough_promises_or_in_time_fails() {
    let proposer = PaxosProposer::default();
    assert!(matches!(
        proposer.begin_read(1, 2),
        Err(ConsistencyError::NotEnoughReplicas { required: 2, available: 1 })
    ));
    let step = proposer.decide_round(0, Some(RoundReport::new()), 2, Duration::from_secs(1));
    assert!(matches!(
        step,
        ReadStep::Finish(Err(ConsistencyError::NotEnoughAcks { required: 2, received: 0, .. }))
    ));
    let late = proposer.decide_round(0, None, 2, Duration::from_secs(1));
    assert!(matches!(late, ReadStep::Finish(Err(ConsistencyError::Timeout { .. }))));
}

#[test]
fn highest_ballot_wins_among_promises() {
    let promises = vec![
        Promise { ballot: 9, accepted: Some((3, vec![3])) },
        Promise { ballot: 9, accepted: None },
        Promise { ballot: 9, accepted: Some((7, vec![7])) },
    ];
    assert_eq!(highest_accepted(&promises), Some(vec![7]));
}
