use suraft::metrics::Metric;
use suraft::metrics::Metrics;
use suraft::metrics::ServerState;
use suraft::replication::backoff_delay;
use suraft::replication::backoff_next;
use suraft::replication::election_deadline;
use suraft::replication::heartbeat_due;
use suraft::replication::replication_window;
use suraft::config::Config;
use suraft::metrics::u64_to_dec;
use suraft::vote::LogId;
use suraft::vote::Vote;

#[test]
fn metric_names() {
    assert_eq!(Metric::Term(3).name(), "term");
    assert_eq!(Metric::Vote(None).name(), "vote");
    assert_eq!(Metric::LastLogIndex(Some(1)).name(), "last_log_index");
}

#[test]
fn metric_values_render() {
    assert_eq!(Metric::Term(12345).value(), "12345");
    assert_eq!(Metric::Term(0).value(), "0");
    assert_eq!(Metric::Vote(None).value(), "None");
    let v = Vote { term: 7, voted_for: 2, committed: true };
    assert_eq!(Metric::Vote(Some(v)).value(), "7-2-committed");
    let v = Vote { term: 7, voted_for: 2, committed: false };
    assert_eq!(Metric::Vote(Some(v)).value(), "7-2-uncommitted");
    assert_eq!(Metric::LastLogIndex(None).value(), "None");
    assert_eq!(Metric::LastLogIndex(Some(42)).value(), "42");
}

#[test]
fn decimal_rendering_is_exact() {
    assert_eq!(u64_to_dec(0), "0");
    assert_eq!(u64_to_dec(9), "9");
    assert_eq!(u64_to_dec(10), "10");
    assert_eq!(u64_to_dec(980), "980");
    assert_eq!(u64_to_dec(u64::MAX), "18446744073709551615");
}

#[test]
fn metrics_initial_and_comparisons() {
    let m = Metrics::new_initial(5);
    assert_eq!(m.id, 5);
    assert_eq!(m.vote, None);
    assert_eq!(m.committed, None);
    assert_eq!(m.server_state, ServerState::Follower);
    assert_eq!(m.current_leader, None);
    assert!(m.running_state.is_ok());
    assert!(m.metric_eq(&Metric::Vote(None)));
    assert!(m.metric_eq(&Metric::LastLogIndex(None)));
    assert!(!m.metric_eq(&Metric::Term(0)));
    assert_eq!(m.metric_cmp(&Metric::Term(1)), std::cmp::Ordering::Less);
    assert_eq!(
        m.metric_cmp(&Metric::Vote(None)),
        std::cmp::Ordering::Equal
    );
    let mut m = m;
    m.vote = Some(Vote { term: 3, voted_for: 1, committed: false });
    m.committed = Some(LogId { term: 3, index: 8 });
    assert!(m.metric_eq(&Metric::Term(3)));
    assert!(m.metric_eq(&Metric::LastLogIndex(Some(8))));
    assert_eq!(m.metric_cmp(&Metric::Term(2)), std::cmp::Ordering::Greater);
    assert_eq!(
        m.metric_cmp(&Metric::LastLogIndex(Some(9))),
        std::cmp::Ordering::Less
    );
}

#[test]
fn metrics_describe_renders() {
    let mut m = Metrics::new_initial(1);
    m.vote = Some(Vote { term: 1, voted_for: 1, committed: true });
    m.committed = Some(LogId { term: 1, index: 2 });
    m.server_state = ServerState::Leader;
    m.current_leader = Some(1);
    m.last_quorum_acked = Some(7);
    m.heartbeat = Some(vec![(2, Some(7)), (3, None)]);
    assert_eq!(
        m.describe(),
        "Metrics{id:1, Leader, vote:1-1-committed, last_log:1-2, leader:1, \
         quorum_acked:7, heartbeat:{2:7;3:None;}}"
    );
}

#[test]
fn vote_ordering_is_lexicographic() {
    let a = Vote { term: 1, voted_for: 1, committed: false };
    let b = Vote { term: 1, voted_for: 2, committed: false };
    let c = Vote { term: 1, voted_for: 1, committed: true };
    let d = Vote { term: 2, voted_for: 0, committed: false };
    // voted_for breaks ties, committed outranks any candidate, term rules all
    assert!(a.lt(&b));
    assert!(b.lt(&c));
    assert!(a.lt(&c));
    assert!(c.lt(&d));
    assert!(!d.lt(&c));
    assert!(a.le(&a));
}

#[test]
fn log_id_ordering_is_lexicographic() {
    let a = LogId { term: 1, index: 9 };
    let b = LogId { term: 2, index: 0 };
    assert!(a.lt(&b));
    assert!(!b.le(&a));
    assert!(a.le(&a));
}

#[test]
fn replication_window_caps_batches() {
    assert_eq!(replication_window(5, 4, 10), None);
    assert_eq!(replication_window(5, 5, 10), Some((5, 5)));
    assert_eq!(replication_window(2, 100, 10), Some((2, 11)));
    assert_eq!(replication_window(95, 100, 10), Some((95, 100)));
}

#[test]
fn backoff_next_uses_conflict_hint() {
    // a follower far behind: jump right after its last entry
    assert_eq!(backoff_next(50, Some(LogId { term: 1, index: 10 })), 11);
    // a follower ahead or equal: step back by one
    assert_eq!(backoff_next(5, Some(LogId { term: 1, index: 9 })), 4);
    assert_eq!(backoff_next(5, Some(LogId { term: 1, index: 4 })), 4);
    assert_eq!(backoff_next(5, None), 4);
    assert_eq!(backoff_next(0, None), 0);
}

#[test]
fn backoff_delay_doubles_up_to_heartbeat() {
    assert_eq!(backoff_delay(0, 50), 1);
    assert_eq!(backoff_delay(1, 50), 2);
    assert_eq!(backoff_delay(16, 50), 32);
    assert_eq!(backoff_delay(32, 50), 50);
    assert_eq!(backoff_delay(100, 50), 50);
}

#[test]
fn election_deadline_stays_in_window() {
    let cfg = Config::default();
    for rand in [0u64, 1, 149, 150, 151, 1000, u64::MAX] {
        let d = election_deadline(&cfg, 1000, rand);
        assert!(d >= 1000 + cfg.election_timeout_min);
        assert!(d <= 1000 + cfg.election_timeout_max);
    }
    // the window's ends are both reachable
    assert_eq!(election_deadline(&cfg, 0, 0), 150);
    assert_eq!(election_deadline(&cfg, 0, 150), 300);
}

#[test]
fn heartbeat_due_after_interval() {
    assert!(!heartbeat_due(100, 120, 50));
    assert!(heartbeat_due(100, 150, 50));
    assert!(heartbeat_due(100, 90, 50));
}
