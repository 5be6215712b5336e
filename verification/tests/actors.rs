use lane_switchboards::actor::{
    handle_exit, linked_exit_reason, should_propagate_linked_exit, ActorCounter, ActorId,
    ExitReason, HandleOutcome,
};
use lane_switchboards::collections::{IdMap, StrMap, StrSet};
use lane_switchboards::config::{ActorConfig, DistributedConfig};
use lane_switchboards::monitor::ActorMonitor;
use lane_switchboards::registry::ActorIndex;
use lane_switchboards::text::{same_ignoring_case, text_not_after};
use lane_switchboards::time::Duration;

#[test]
fn ids_count_up_and_dead_is_dead() {
    let mut c = ActorCounter::new();
    let a = ActorId::new(&mut c);
    let b = ActorId::new(&mut c);
    assert!(a.0 < b.0);
    assert!(!a.is_dead());
    assert!(ActorId::dead().is_dead());
}

#[test]
fn linked_exits_travel_unless_normal() {
    assert!(!should_propagate_linked_exit(&ExitReason::Normal));
    assert!(handle_exit(HandleOutcome::Done).is_none());
    assert!(!should_propagate_linked_exit(&ExitReason::Shutdown));
    assert!(should_propagate_linked_exit(&ExitReason::Killed));
    assert_eq!(
        handle_exit(HandleOutcome::Panicked),
        Some(ExitReason::Error("panic in handle".to_string()))
    );
    assert_eq!(
        linked_exit_reason(ActorId(3), ExitReason::Killed, false),
        Some(ExitReason::Linked(ActorId(3), Box::new(ExitReason::Killed)))
    );
    assert!(linked_exit_reason(ActorId(3), ExitReason::Killed, true).is_none());
}

#[test]
fn index_finds_channels() {
    let mut i = ActorIndex::new();
    i.register_actor(ActorId(7), 70, Some(71));
    i.register_actor(ActorId(8), 80, None);
    assert_eq!(i.get_control_sender(ActorId(7)), Some(70));
    assert_eq!(i.get_supervisor_sender(ActorId(7)), Some(71));
    assert_eq!(i.get_supervisor_sender(ActorId(8)), None);
    assert_eq!(i.actor_count(), 2);
    i.unregister_actor(ActorId(7));
    assert_eq!(i.get_control_sender(ActorId(7)), None);
    assert_eq!(i.registered_ids(), vec![ActorId(8)]);
}

#[test]
fn monitor_counts_handling() {
    let mut m = ActorMonitor::new();
    let id = ActorId(1);
    m.register(id);
    m.begin_handle(id);
    m.record_error(id);
    m.record_panic(id);
    let s = m.get(id).unwrap();
    assert_eq!(s.handle_errors, 1);
    assert_eq!(s.panics, 1);
    assert_eq!(m.all().len(), 1);
    assert!(m.snapshot_and_unregister(id).is_some());
    assert!(m.get(id).is_none());
}

#[test]
fn config_defaults() {
    assert_eq!(DistributedConfig::default().max_frame_bytes, 4 * 1024 * 1024);
    assert_eq!(DistributedConfig::default().read_timeout, Duration::from_secs(30));
    let c = ActorConfig::default();
    assert!(c.mailbox_capacity > 0);
}

#[test]
fn maps_and_sets() {
    let mut m: StrMap<u32> = StrMap::new();
    assert!(m.insert("a".to_string(), 1).is_none());
    assert_eq!(m.insert("a".to_string(), 2), Some(1));
    if let Some(v) = m.get_mut("a") {
        *v = 3;
    }
    assert_eq!(m.remove("a"), Some(3));
    assert_eq!(m.len(), 0);
    let mut s = StrSet::from_vec(&vec!["x".to_string(), "x".to_string()]);
    assert_eq!(s.len(), 1);
    assert!(!s.insert("x".to_string()));
    assert!(s.remove("x"));
    let mut i: IdMap<char> = IdMap::new();
    i.insert(5, 'e');
    i.insert(1, 'a');
    assert_eq!(i.entries[0].0, 1);
    assert_eq!(i.remove(5), Some('e'));
}

#[test]
fn text_order_and_case() {
    assert!(text_not_after("a", "b"));
    assert!(text_not_after("a", "a"));
    assert!(!text_not_after("b", "aé"));
    assert!(same_ignoring_case("AbC", "aBc"));
    assert!(!same_ignoring_case("É", "é"));
    assert_eq!(Duration::from_millis(1500).to_text(), "1.5s");
    assert_eq!(Duration::from_nanos(5).as_nanos(), 5);
}

#[test]
fn counters_are_taken_once() {
    let mut m = ActorMonitor::new();
    let (live, stopped, other) = (ActorId(1), ActorId(2), ActorId(3));
    for id in [live, stopped, other] {
        m.register(id);
        m.begin_handle(id);
    }
    m.unregister(stopped);
    assert_eq!(m.get(stopped).unwrap().in_flight, 0);
    let kept = m.get(other);
    for id in [live, stopped] {
        let before = m.get(id);
        assert!(before.is_some());
        assert_eq!(m.snapshot_and_unregister(id), before);
        assert_eq!(m.get(id), None);
        assert!(m.all().iter().all(|s| s.actor_id != id));
        assert_eq!(m.snapshot_and_unregister(id), None);
    }
    assert_eq!(m.get(other), kept);
    assert_eq!(m.all().len(), 1);
}

#[test]
fn registering_again_forgets_the_kept_counters() {
    let mut m = ActorMonitor::new();
    let id = ActorId(4);
    m.register(id);
    m.begin_handle(id);
    m.record_error(id);
    m.unregister(id);
    assert_eq!(m.get(id).unwrap().handle_errors, 1);
    m.register(id);
    assert_eq!(m.get(id).unwrap().handle_errors, 0);
    assert_eq!(m.snapshot_and_unregister(id).unwrap().handle_errors, 0);
    assert_eq!(m.get(id), None);
}
