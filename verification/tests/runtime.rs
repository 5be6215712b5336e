use lane_switchboards::actor::{
    record_outcome, restart_signal, ActorId, ActorLoop, ExitReason, HandleOutcome, LoopEvent,
    LoopStep,
};
use lane_switchboards::config::ActorConfig;
use lane_switchboards::consistency::{
    ConsistencyConfig, ConsistencyError, ReadConsistency, WriteConsistency,
};
use lane_switchboards::distributed::{
    decide_send, decide_send_with_ack, deliver_reply, first_failure, AckOutcome, AckStep, Cluster,
    ClusterMember, DeliverOutcome, DeliverReply, DeliverRequest, FrameCounter, PendingAcks,
    RemoteActorRef, SendOutcome, SendStep,
};
use lane_switchboards::error::{IoError, IoErrorKind};
use lane_switchboards::hash_ring::{HashRing, RingNode};
use lane_switchboards::mesh::{ServiceMesh, ServiceRecord};
use lane_switchboards::monitor::ActorMonitor;
use lane_switchboards::paxos::{
    accept_reply, promise_reply, single_round_result, unpack_promise, Accept, BallotCounter,
    PaxosWireMsg, Promise, PromiseReply, Reject,
};
use lane_switchboards::quorum::{
    conclude_fire, conclude_read, conclude_serial, DcReport, EachTally, QuorumOutcome, ReadPlan,
    WritePlan,
};
use lane_switchboards::time::Duration;

#[test]
fn links_are_returned_once() {
    let mut a = ActorLoop::new();
    let b = ActorId(2);
    assert_eq!(a.on_event(LoopEvent::Link(b)), LoopStep::LinkBack(b));
    assert_eq!(a.on_event(LoopEvent::Link(b)), LoopStep::Continue);
    assert_eq!(a.on_event(LoopEvent::Unlink(b)), LoopStep::Continue);
    assert_eq!(a.on_event(LoopEvent::Link(b)), LoopStep::LinkBack(b));
}

#[test]
fn actor_loop_exits() {
    let mut a = ActorLoop::new();
    assert_eq!(a.on_event(LoopEvent::Closed), LoopStep::Exit(ExitReason::Normal));
    assert_eq!(a.on_event(LoopEvent::Stop), LoopStep::Exit(ExitReason::Shutdown));
    assert_eq!(a.on_event(LoopEvent::Kill), LoopStep::Exit(ExitReason::Killed));
    assert_eq!(
        a.on_event(LoopEvent::Upgraded(Err("e".to_string()))),
        LoopStep::Exit(ExitReason::Error("e".to_string()))
    );
    assert_eq!(a.on_event(LoopEvent::Upgraded(Ok(()))), LoopStep::Continue);
    assert_eq!(
        a.on_event(LoopEvent::Handled(HandleOutcome::TimedOut {
            elapsed: Duration::from_millis(12),
            limit: Duration::from_millis(10),
        })),
        LoopStep::Exit(ExitReason::HandleTimeout { elapsed_ms: 12, limit_ms: 10 })
    );
    assert_eq!(
        a.on_event(LoopEvent::LinkedExit {
            peer: ActorId(9),
            reason: ExitReason::Killed,
            trap: true,
        }),
        LoopStep::Continue
    );
}

#[test]
fn exit_reaches_observers_and_links() {
    let mut a = ActorLoop::new();
    a.on_event(LoopEvent::Monitor { observer: ActorId(5), notify: 50 });
    a.on_event(LoopEvent::Monitor { observer: ActorId(6), notify: 60 });
    a.on_event(LoopEvent::Monitor { observer: ActorId(5), notify: 51 });
    a.on_event(LoopEvent::Demonitor(ActorId(6)));
    a.on_event(LoopEvent::Link(ActorId(7)));
    assert_eq!(a.finish(&ExitReason::Killed), (vec![50, 51], vec![ActorId(7)]));
    let mut b = ActorLoop::new();
    b.on_event(LoopEvent::Link(ActorId(7)));
    assert_eq!(b.finish(&ExitReason::Shutdown), (vec![], vec![]));
}

#[test]
fn restart_signal_names_the_reason() {
    let s = restart_signal(
        ActorId(4),
        &ExitReason::Linked(ActorId(2), Box::new(ExitReason::Error("a\"b".to_string()))),
    );
    assert_eq!(s.child_id, ActorId(4));
    assert_eq!(s.reason, "Linked(ActorId(2), Error(\"a\\\"b\"))");
}

#[test]
fn outcomes_are_counted() {
    let mut m = ActorMonitor::new();
    let id = ActorId(1);
    m.register(id);
    for outcome in [
        HandleOutcome::Done,
        HandleOutcome::Failed("x".to_string()),
        HandleOutcome::Panicked,
        HandleOutcome::TimedOut {
            elapsed: Duration::from_millis(9),
            limit: Duration::from_millis(5),
        },
    ] {
        m.begin_handle(id);
        record_outcome(
            &mut m,
            id,
            &outcome,
            Duration::from_millis(7),
            Some(Duration::from_millis(3)),
        );
    }
    let s = m.get(id).unwrap();
    assert_eq!(
        (s.messages_handled, s.handle_errors, s.panics, s.handle_timeouts),
        (1, 1, 1, 1)
    );
    assert_eq!((s.in_flight, s.slow_handles, s.last_handle_ms), (0, 1, 9));
    m.unregister(id);
    assert!(m.all().is_empty());
}

#[test]
fn slow_threshold_falls_back() {
    let mut c = ActorConfig::default();
    assert_eq!(c.effective_slow_threshold(), None);
    c.handle_timeout = Some(Duration::from_secs(2));
    assert_eq!(c.effective_slow_threshold(), Some(Duration::from_secs(2)));
    c.slow_handle_threshold = Some(Duration::from_secs(1));
    assert_eq!(c.effective_slow_threshold(), Some(Duration::from_secs(1)));
}

#[test]
fn sends_are_retried_once() {
    assert_eq!(decide_send(0, SendOutcome::Queued), SendStep::Sent);
    assert_eq!(decide_send(0, SendOutcome::StreamFailed), SendStep::Retry);
    assert_eq!(decide_send(1, SendOutcome::StreamFailed), SendStep::Proceed);
    assert!(matches!(
        decide_send(1, SendOutcome::QueueClosed),
        SendStep::Fail(e) if e.kind == IoErrorKind::NotConnected
            && e.message == "deliver stream closed"
    ));
    let t = Duration::from_secs(1);
    assert_eq!(decide_send_with_ack(0, AckOutcome::QueueClosed, t), AckStep::Retry);
    assert!(matches!(
        decide_send_with_ack(1, AckOutcome::StreamMissing, t),
        AckStep::Finish(Err(ConsistencyError::NotEnoughAcks { required: 1, received: 0, .. }))
    ));
    assert_eq!(
        decide_send_with_ack(0, AckOutcome::TimedOut, t),
        AckStep::Finish(Err(ConsistencyError::Timeout { after: t }))
    );
    assert_eq!(
        decide_send_with_ack(0, AckOutcome::Answered(Ok(())), t),
        AckStep::Finish(Ok(()))
    );
}

#[test]
fn acknowledgements_settle_their_frames() {
    let mut frames = FrameCounter::new();
    let mut pending = PendingAcks::new();
    let (a, b) = (frames.allocate(), frames.allocate());
    assert_eq!((a, b), (1, 2));
    pending.expect(a);
    pending.expect(b);
    let reply = |id: u64, ok: bool| DeliverReply { frame_id: id, ok, error: String::new() };
    assert_eq!(pending.settle(&reply(b, true)), Some(Ok(())));
    assert_eq!(pending.settle(&reply(b, true)), None);
    assert!(matches!(pending.settle(&reply(a, false)), Some(Err(_))));
    pending.expect(a);
    assert!(pending.forget(a));
    assert!(!pending.forget(a));
    assert_eq!(pending.settle(&reply(a, true)), None);
}

#[test]
fn replies_to_deliveries() {
    let to = RemoteActorRef::new("127.0.0.1:1", "worker");
    let mut req = to.deliver_request(7, vec![1, 2], true);
    assert_eq!(
        req,
        DeliverRequest {
            frame_id: 7,
            target: "worker".to_string(),
            payload: vec![1, 2],
            expect_ack: true,
        }
    );
    let error = |o: DeliverOutcome, r: &DeliverRequest| deliver_reply(r, &o).unwrap().error;
    assert_eq!(error(DeliverOutcome::NoTarget, &req), "no local actor for target worker");
    assert_eq!(error(DeliverOutcome::DecodeFailed("x".to_string()), &req), "decode: x");
    assert_eq!(error(DeliverOutcome::ActorRefused("x".to_string()), &req), "actor mailbox: x");
    assert_eq!(error(DeliverOutcome::MailboxClosed, &req), "mailbox closed");
    let ok = deliver_reply(&req, &DeliverOutcome::Delivered).unwrap();
    assert!(ok.ok && ok.frame_id == 7);
    req.expect_ack = false;
    assert_eq!(deliver_reply(&req, &DeliverOutcome::Delivered), None);
}

#[test]
fn broadcast_reports_the_first_failure() {
    let ok = |n: &str| (n.to_string(), Ok(()));
    assert!(first_failure(vec![ok("a"), ok("b")]).is_ok());
    let e = IoError::other("one".to_string());
    let f = IoError::other("two".to_string());
    assert_eq!(
        first_failure(vec![ok("a"), ("b".to_string(), Err(e)), ("c".to_string(), Err(f))]),
        Err(IoError::other("one".to_string()))
    );
}

#[test]
fn cluster_names_targets() {
    let mut c = Cluster::new();
    assert!(c.target_for_key("k").is_err());
    for (n, p) in [("a", "1"), ("b", "2"), ("c", "3")] {
        c.join(ClusterMember::new(n, &format!("127.0.0.1:{p}"), n));
    }
    let owner = c.member_for_key("k").unwrap().name.clone();
    assert_eq!(c.ref_for_key("k").unwrap().target(), owner);
    let named = c.targets_named(&vec!["b".to_string(), "z".to_string(), "a".to_string()]);
    assert_eq!(
        named.iter().map(|(n, _)| n.as_str()).collect::<Vec<_>>(),
        vec!["b", "a"]
    );
    let turns: Vec<String> =
        (0..4).map(|_| c.next().unwrap().target().to_string()).collect();
    assert_eq!(turns, vec!["a", "b", "c", "a"]);
    assert_eq!(c.leave("b").unwrap().name, "b");
    assert_eq!(c.len(), 2);
}

#[test]
fn ring_lists_its_nodes() {
    let mut r = HashRing::new(10);
    r.add_node(RingNode::new("a", "h", 1));
    r.add_node(RingNode::new("b", "h", 2));
    assert_eq!(r.virtual_node_count(), 20);
    let mut ids: Vec<String> = r.get_all_nodes().iter().map(|n| n.socket_addr()).collect();
    ids.sort();
    assert_eq!(ids, vec!["h:1", "h:2"]);
}

#[test]
fn each_datacenter_has_to_succeed() {
    let done = |acks: usize| {
        DcReport::Finished(
            Ok(()),
            QuorumOutcome { acks_received: acks, replicas_contacted: 3, acks_required: 2 },
        )
    };
    let mut t = EachTally::new();
    t.absorb(done(2));
    t.absorb(done(3));
    let c = t.conclude(false, Duration::from_secs(1), 6, 4);
    assert!(c.result.is_ok());
    assert_eq!(c.stats.acks_received, 5);
    assert!(c.degraded(6));
    assert!(!c.degraded(5));
    let mut t = EachTally::new();
    t.absorb(DcReport::Crashed);
    t.absorb(done(2));
    assert!(matches!(
        t.conclude(false, Duration::from_secs(1), 6, 4).result,
        Err(ConsistencyError::NotEnoughAcks { required: 1, received: 0, .. })
    ));
    assert_eq!(
        EachTally::new().conclude(true, Duration::from_secs(1), 6, 4).result,
        Err(ConsistencyError::Timeout { after: Duration::from_secs(1) })
    );
}

#[test]
fn conclusions_of_single_operations() {
    assert_eq!(conclude_fire(Ok(())).required, 0);
    assert!(conclude_fire(Err(IoError::other("x".to_string()))).result.is_err());
    let c = conclude_serial(Ok(None), 2);
    assert_eq!((c.stats.acks_received, c.stats.acks_required), (2, 2));
    let c = conclude_serial(Err(ConsistencyError::PaxosContention { rounds: 3 }), 2);
    assert_eq!(c.stats.acks_received, 0);
    let stats = QuorumOutcome { acks_received: 2, replicas_contacted: 3, acks_required: 0 };
    let c = conclude_read(Ok(()), stats, 2);
    assert_eq!(
        c.stats,
        QuorumOutcome { acks_received: 2, replicas_contacted: 3, acks_required: 2 }
    );
    let short = ConsistencyError::NotEnoughAcks { required: 2, received: 1, dc: None };
    assert_eq!(conclude_read(Err(short), stats, 2).stats.acks_received, 1);
}

fn record(service: &str, id: &str) -> ServiceRecord {
    ServiceRecord {
        service: service.to_string(),
        instance_id: id.to_string(),
        address: "127.0.0.1:1".to_string(),
        target: id.to_string(),
        dc: None,
        registered_at: 0,
    }
}

#[test]
fn mesh_levels_are_per_service() {
    let mut mesh = ServiceMesh::new();
    let mut serial = ConsistencyConfig::default();
    serial.rf = 2;
    serial.read_cl = ReadConsistency::Serial;
    let mut one = ConsistencyConfig::default();
    one.read_cl = ReadConsistency::One;
    mesh.set_consistency(one);
    mesh.apply_snapshot(vec![record("ledger", "l1"), record("ledger", "l2"), record("web", "w")]);
    mesh.set_service_consistency("ledger", serial);
    assert_eq!(mesh.services(), vec!["ledger", "web"]);
    match mesh.plan_read("ledger", "k") {
        ReadPlan::Serial(p) => {
            assert_eq!(p.quorum, 2);
            assert_eq!(p.replicas.len(), 2);
        }
        _ => panic!("a serial read"),
    }
    assert!(matches!(
        mesh.plan_read("web", "k"),
        ReadPlan::Quorum { ref replicas, required: 1 } if replicas.len() == 1
    ));
    mesh.apply_snapshot(vec![record("web", "w")]);
    assert_eq!(mesh.instance_count("ledger"), 0);
    assert!(matches!(mesh.plan_read("ledger", "k"), ReadPlan::Conclude(c) if c.result.is_err()));
}

#[test]
fn paxos_answers_survive_transit() {
    let p = Promise { ballot: 4, accepted: Some((3, vec![9])) };
    let sent = promise_reply(PaxosWireMsg::Promise(p.clone())).unwrap();
    assert_eq!(unpack_promise(4, sent), PaxosWireMsg::Promise(p));
    let none = Promise { ballot: 4, accepted: None };
    let sent = promise_reply(PaxosWireMsg::Promise(none.clone())).unwrap();
    assert_eq!(unpack_promise(4, sent), PaxosWireMsg::Promise(none));
    let sent = promise_reply(PaxosWireMsg::Reject(Reject { ballot: 4, higher: 8 })).unwrap();
    assert_eq!(
        unpack_promise(4, sent),
        PaxosWireMsg::Reject(Reject { ballot: 4, higher: 8 })
    );
    assert!(promise_reply(PaxosWireMsg::Accept(Accept { ballot: 1 })).is_err());
    let a = accept_reply(PaxosWireMsg::Reject(Reject { ballot: 1, higher: 5 })).unwrap();
    assert!(!a.accepted && a.higher_ballot == 5);
    assert!(accept_reply(PaxosWireMsg::Accept(Accept { ballot: 1 })).unwrap().accepted);
    let mut b = BallotCounter::new();
    assert_eq!((b.next_ballot(), b.next_ballot()), (1, 2));
}

#[test]
fn single_round_reads() {
    let reply = |promised: bool, ballot: u64, v: u8| PromiseReply {
        ballot: 9,
        promised,
        accepted_ballot: ballot,
        accepted_value: vec![v],
    };
    let t = Duration::from_secs(1);
    let replies = vec![reply(true, 2, 2), reply(false, 8, 8), reply(true, 5, 5), reply(true, 0, 0)];
    assert_eq!(single_round_result(9, Some(replies), 3, t), Ok(Some(vec![5])));
    assert_eq!(
        single_round_result(9, Some(vec![reply(true, 1, 1)]), 2, t),
        Err(ConsistencyError::NotEnoughAcks { required: 2, received: 1, dc: None })
    );
    assert_eq!(
        single_round_result(9, None, 2, t),
        Err(ConsistencyError::Timeout { after: t })
    );
}

#[test]
fn replicas_for_key_and_local_dc_filter() {
    let mut cluster = Cluster::new();
    cluster.join(ClusterMember::new("a", "127.0.0.1:1", "worker"));
    cluster.join(ClusterMember::new("b-west", "127.0.0.1:2", "worker").with_dc("west"));
    cluster.join(ClusterMember::new("c-east", "127.0.0.1:3", "worker").with_dc("east"));

    let key = "user-123";
    assert_eq!(cluster.replicas_for_key(key, 2).len(), 2);
    assert_eq!(cluster.all_replicas_for_key(key).len(), 3);

    let local = cluster.local_replicas_for_key(key, 2, "east");
    assert!(local.len() <= 2);
    for r in local {
        assert!(r.target() == "worker");
    }

    let local_default = cluster.local_replicas_for_key(key, 3, "any");
    assert!(!local_default.is_empty());
}

#[test]
fn dc_members_groups_by_tag() {
    let mut cluster = Cluster::new();
    cluster.join(ClusterMember::new("a", "127.0.0.1:1", "worker"));
    cluster.join(ClusterMember::new("b-west", "127.0.0.1:2", "worker").with_dc("west"));
    assert_eq!(cluster.dc_members("west").len(), 1);
    assert_eq!(cluster.datacenters("local"), vec!["local", "west"]);
}

#[test]
fn dc_replicas_for_key_includes_all_dc_members() {
    let mut cluster = Cluster::new();
    for (id, dc, port) in [
        ("east-1", "east", 1),
        ("east-2", "east", 2),
        ("west-1", "west", 3),
        ("west-2", "west", 4),
    ] {
        cluster.join(ClusterMember::new(id, &format!("127.0.0.1:{port}"), "worker").with_dc(dc));
    }
    let key = "order-99";
    assert_eq!(cluster.dc_replicas_for_key(key, "east", "local", 2).len(), 2);
    assert_eq!(cluster.dc_replicas_for_key(key, "west", "local", 2).len(), 2);
}

#[test]
fn each_quorum_plan_covers_every_datacenter() {
    let mut config = ConsistencyConfig::default();
    config.rf = 4;
    config.local_rf = 2;
    config.dc_rfs = vec![2, 2];
    config.dc_names = vec!["east".to_string(), "west".to_string()];
    config.write_cl = WriteConsistency::EachQuorum;
    let mut mesh = ServiceMesh::with_consistency(config);
    for (id, dc) in [("east-1", "east"), ("east-2", "east"), ("west-1", "west"), ("west-2", "west")]
    {
        let mut r = record("orders", id);
        r.dc = Some(dc.to_string());
        mesh.register(r);
    }
    match mesh.plan_write("orders", "order-99") {
        WritePlan::EachQuorum { groups, total_replicas, total_required } => {
            assert_eq!((total_replicas, total_required), (4, 4));
            for g in &groups {
                assert_eq!((g.replicas.len(), g.required), (2, 2));
            }
        }
        _ => panic!("a write to each datacenter"),
    }
    mesh.deregister("orders", "east-2");
    match mesh.plan_write("orders", "order-99") {
        WritePlan::Conclude(c) => assert_eq!(
            c.result,
            Err(ConsistencyError::NotEnoughReplicas { required: 2, available: 1 })
        ),
        _ => panic!("too few replicas"),
    }
}
