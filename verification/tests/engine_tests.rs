use suraft::config::Config;
use suraft::engine::AppendReply;
use suraft::engine::AppendRequest;
use suraft::engine::Engine;
use suraft::engine::WriteError;
use suraft::metrics::ServerState;
use suraft::storage::Entry;
use suraft::storage::LogStore;
use suraft::storage::StorageError;
use suraft::typeconf::BasicTypes;
use suraft::typeconf::Cmd;
use suraft::vote::LogId;
use suraft::vote::Vote;

type Node = Engine<BasicTypes>;

fn new_node(id: u64, members: &[u64]) -> Node {
    let mut store: LogStore<BasicTypes> = LogStore::new();
    store.initialize(members.to_vec()).unwrap();
    Engine::new(id, Config::default(), store, members.to_vec())
}

fn dup_entries(node: &Node, from: usize) -> Vec<Entry<BasicTypes>> {
    let mut out = Vec::new();
    for e in &node.store.entries[from..] {
        out.push(Entry {
            log_id: e.log_id,
            payload: e.payload.clone(),
        });
    }
    out
}

/// Replicates from `leader` to `follower` with next-index backoff until the
/// follower accepts or reports a newer vote; an acceptance is acknowledged
/// at `now`.
fn replicate(leader: &mut Node, follower: &mut Node, now: u64) -> AppendReply {
    let mut next = leader.store.entries.len() as u64;
    loop {
        let prev = if next == 0 {
            None
        } else {
            Some(leader.store.entries[(next - 1) as usize].log_id)
        };
        let req = AppendRequest {
            vote: leader.store.vote.unwrap(),
            prev_log_id: prev,
            entries: dup_entries(leader, next as usize),
            leader_commit: leader.committed,
        };
        let reply = follower.handle_append_entries(req);
        if reply.success {
            let matched = follower.store.last_log_id();
            let fid = follower.id;
            leader.handle_replication_ack(fid, matched, now);
            return reply;
        }
        if reply.conflict.is_none() {
            // the follower outranks this leader
            return reply;
        }
        next = suraft::replication::backoff_next(next, reply.conflict);
    }
}

/// Elects `nodes[who]` leader by running one full election round.
fn elect(nodes: &mut [Node], who: usize) {
    let req = nodes[who].start_election();
    let candidate = nodes[who].id;
    for i in 0..nodes.len() {
        if i != who {
            let reply = nodes[i].handle_request_vote(req);
            let from = nodes[i].id;
            nodes[who].handle_vote_reply(from, reply);
        }
    }
    assert_eq!(nodes[who].state, ServerState::Leader);
    assert_eq!(nodes[who].leader, Some(candidate));
}

#[test]
fn initialize_is_idempotent() {
    let mut store: LogStore<BasicTypes> = LogStore::new();
    assert!(store.initialize(vec![1, 2, 3]).is_ok());
    assert_eq!(store.entries.len(), 1);
    assert_eq!(store.entries[0].log_id, LogId { term: 0, index: 0 });
    let again = store.initialize(vec![1, 2, 3]);
    assert_eq!(again, Err(StorageError::AlreadyInitialized));
    assert_eq!(store.entries.len(), 1);
}

#[test]
fn single_node_elects_itself_immediately() {
    let mut n = new_node(1, &[1]);
    n.start_election();
    assert_eq!(n.state, ServerState::Leader);
    assert_eq!(n.leader, Some(1));
    // every write commits in one round: the leader alone is a quorum
    let lid = n.client_write(Cmd::new("x", "1")).unwrap();
    assert_eq!(lid, LogId { term: 1, index: 1 });
    n.handle_replication_ack(1, None, 0);
    assert_eq!(n.committed, Some(lid));
}

#[test]
fn three_node_bootstrap_elects_one_leader() {
    let mut nodes = vec![new_node(1, &[1, 2, 3]), new_node(2, &[1, 2, 3]), new_node(3, &[1, 2, 3])];
    elect(&mut nodes, 0);
    // an empty AppendEntries round announces the leader to all
    let (first, rest) = nodes.split_at_mut(1);
    for f in rest.iter_mut() {
        replicate(&mut first[0], f, 10);
    }
    let mut leaders = 0;
    for n in nodes.iter() {
        let m = n.metrics(10);
        assert_eq!(m.current_leader, Some(1));
        if n.state == ServerState::Leader {
            leaders += 1;
        }
        // every committed vote of term 1 names the one established leader
        let v = n.store.vote.unwrap();
        assert_eq!(v.term, 1);
        if v.committed {
            assert_eq!(v.voted_for, 1);
        }
    }
    assert_eq!(leaders, 1);
}

#[test]
fn write_forwarding_before_and_after_election() {
    let mut nodes = vec![new_node(1, &[1, 2, 3]), new_node(2, &[1, 2, 3]), new_node(3, &[1, 2, 3])];
    // before any election no node knows a leader
    let r = nodes[0].client_write(Cmd::new("x", "1"));
    assert_eq!(r, Err(WriteError::ForwardToLeader { leader_id: None }));
    elect(&mut nodes, 1);
    let (a, b) = nodes.split_at_mut(1);
    replicate(&mut b[0], &mut a[0], 10);
    // a follower forwards to the elected leader
    let r = nodes[0].client_write(Cmd::new("x", "1"));
    assert_eq!(r, Err(WriteError::ForwardToLeader { leader_id: Some(2) }));
    // the leader accepts
    let r = nodes[1].client_write(Cmd::new("x", "1"));
    assert_eq!(r, Ok(LogId { term: 1, index: 1 }));
}

#[test]
fn commit_and_apply_two_writes() {
    let mut nodes = vec![new_node(1, &[1, 2, 3]), new_node(2, &[1, 2, 3]), new_node(3, &[1, 2, 3])];
    elect(&mut nodes, 0);
    let id_x = nodes[0].client_write(Cmd::new("x", "1")).unwrap();
    let id_y = nodes[0].client_write(Cmd::new("y", "2")).unwrap();
    assert_eq!(id_x, LogId { term: 1, index: 1 });
    assert_eq!(id_y, LogId { term: 1, index: 2 });
    let (first, rest) = nodes.split_at_mut(1);
    for f in rest.iter_mut() {
        let reply = replicate(&mut first[0], f, 10);
        assert!(reply.success);
    }
    // a quorum holds both entries: the leader commits both
    assert_eq!(nodes[0].committed, Some(id_y));
    // one more round carries the commit index to the followers
    let (first, rest) = nodes.split_at_mut(1);
    for f in rest.iter_mut() {
        replicate(&mut first[0], f, 11);
    }
    assert_eq!(nodes[1].committed, Some(id_y));
    // the applier reads the committed prefix and applies it in order
    let mut data: Vec<(String, String)> = Vec::new();
    let upto = nodes[1].committed.unwrap().index as usize;
    for e in &nodes[1].store.entries[..=upto] {
        for cmd in &e.payload {
            data.push((cmd.key.clone(), cmd.value.clone()));
        }
    }
    assert_eq!(
        data,
        vec![("x".to_string(), "1".to_string()), ("y".to_string(), "2".to_string())]
    );
}

#[test]
fn leader_crash_elects_new_leader() {
    let mut nodes = vec![new_node(1, &[1, 2, 3]), new_node(2, &[1, 2, 3]), new_node(3, &[1, 2, 3])];
    elect(&mut nodes, 0);
    // node 1 crashes: nodes 2 and 3 time out and node 2 campaigns
    let req = nodes[1].start_election();
    let reply = nodes[2].handle_request_vote(req);
    assert!(reply.vote_granted);
    let became = nodes[1].handle_vote_reply(3, reply);
    assert!(became);
    assert_eq!(nodes[1].state, ServerState::Leader);
    assert_ne!(nodes[1].id, nodes[0].id);
    // the new term outranks the crashed leader's
    assert_eq!(nodes[1].store.vote.unwrap().term, 2);
}

#[test]
fn partitioned_leader_steps_down_on_heal() {
    let mut nodes = vec![new_node(1, &[1, 2, 3]), new_node(2, &[1, 2, 3]), new_node(3, &[1, 2, 3])];
    elect(&mut nodes, 0);
    // partition: the leader's writes reach nobody, so nothing commits
    let lid = nodes[0].client_write(Cmd::new("x", "1")).unwrap();
    nodes[0].handle_replication_ack(1, Some(lid), 5);
    assert_eq!(nodes[0].committed, None);
    // the majority side elects node 2 in a higher term
    let req = nodes[1].start_election();
    let reply = nodes[2].handle_request_vote(req);
    nodes[1].handle_vote_reply(3, reply);
    assert_eq!(nodes[1].state, ServerState::Leader);
    // the new leader writes in its own term
    nodes[1].client_write(Cmd::new("z", "9")).unwrap();
    // heal: the old leader observes the higher committed vote and steps down
    let (a, b) = nodes.split_at_mut(1);
    let reply = replicate(&mut b[0], &mut a[0], 20);
    assert!(reply.success);
    assert_eq!(nodes[0].state, ServerState::Follower);
    assert_eq!(nodes[0].leader, Some(2));
    // the old leader's conflicting uncommitted suffix was replaced
    let l1: Vec<LogId> = nodes[0].store.entries.iter().map(|e| e.log_id).collect();
    let l2: Vec<LogId> = nodes[1].store.entries.iter().map(|e| e.log_id).collect();
    assert_eq!(l1, l2);
    assert_eq!(l1[1], LogId { term: 2, index: 1 });
}

#[test]
fn two_node_cluster_halts_without_peer_but_stays_safe() {
    let mut nodes = vec![new_node(1, &[1, 2]), new_node(2, &[1, 2])];
    elect(&mut nodes, 0);
    let lid = nodes[0].client_write(Cmd::new("x", "1")).unwrap();
    // node 2 is down: the leader alone is not a strict majority of two
    nodes[0].handle_replication_ack(1, None, 5);
    assert_eq!(nodes[0].committed, None);
    // once node 2 returns, the write commits
    let (a, b) = nodes.split_at_mut(1);
    let reply = replicate(&mut a[0], &mut b[0], 10);
    assert!(reply.success);
    assert_eq!(nodes[0].committed, Some(lid));
}

#[test]
fn append_entries_is_idempotent() {
    let mut nodes = vec![new_node(1, &[1, 2, 3]), new_node(2, &[1, 2, 3]), new_node(3, &[1, 2, 3])];
    elect(&mut nodes, 0);
    nodes[0].client_write(Cmd::new("x", "1")).unwrap();
    let (a, b) = nodes.split_at_mut(1);
    let reply = replicate(&mut a[0], &mut b[0], 10);
    assert!(reply.success);
    let log_before: Vec<LogId> = b[0].store.entries.iter().map(|e| e.log_id).collect();
    let committed_before = b[0].committed;
    // replay the same request: a no-op, and still a success
    let req = AppendRequest {
        vote: a[0].store.vote.unwrap(),
        prev_log_id: Some(a[0].store.entries[0].log_id),
        entries: dup_entries(&a[0], 1),
        leader_commit: committed_before,
    };
    let reply = b[0].handle_append_entries(req);
    assert!(reply.success);
    let log_after: Vec<LogId> = b[0].store.entries.iter().map(|e| e.log_id).collect();
    assert_eq!(log_before, log_after);
    assert_eq!(committed_before, b[0].committed);
}

#[test]
fn stale_append_entries_is_rejected() {
    let mut nodes = vec![new_node(1, &[1, 2, 3]), new_node(2, &[1, 2, 3]), new_node(3, &[1, 2, 3])];
    elect(&mut nodes, 0);
    let old_vote = nodes[0].store.vote.unwrap();
    // a new term begins
    let req = nodes[1].start_election();
    let reply = nodes[2].handle_request_vote(req);
    nodes[1].handle_vote_reply(3, reply);
    let (a, b) = nodes.split_at_mut(1);
    replicate(&mut b[0], &mut a[0], 20);
    // the deposed leader's replication is rejected with the stored vote
    let req = AppendRequest::<BasicTypes> {
        vote: old_vote,
        prev_log_id: Some(b[0].store.entries[0].log_id),
        entries: Vec::new(),
        leader_commit: None,
    };
    let reply = b[0].handle_append_entries(req);
    assert!(!reply.success);
    assert!(reply.vote.unwrap().term > old_vote.term);
    assert_eq!(reply.vote, b[0].store.vote);
}

#[test]
fn log_mismatch_reports_conflict_hint() {
    let mut nodes = vec![new_node(1, &[1, 2]), new_node(2, &[1, 2])];
    elect(&mut nodes, 0);
    // a request whose prev position is beyond the follower's log
    let req = AppendRequest::<BasicTypes> {
        vote: nodes[0].store.vote.unwrap(),
        prev_log_id: Some(LogId { term: 1, index: 7 }),
        entries: Vec::new(),
        leader_commit: None,
    };
    let reply = nodes[1].handle_append_entries(req);
    assert!(!reply.success);
    assert_eq!(reply.conflict, Some(LogId { term: 0, index: 0 }));
}

#[test]
fn vote_and_commit_are_monotone_across_steps() {
    let mut nodes = vec![new_node(1, &[1, 2, 3]), new_node(2, &[1, 2, 3]), new_node(3, &[1, 2, 3])];
    let mut last_vote: Option<Vote> = nodes[2].store.vote;
    let mut last_committed: Option<LogId> = nodes[2].committed;
    let check = |n: &Node, lv: &mut Option<Vote>, lc: &mut Option<LogId>| {
        let v = n.store.vote;
        let c = n.committed;
        match (&*lv, &v) {
            (Some(a), Some(b)) => assert!(
                a.term < b.term
                    || (a.term == b.term && !a.committed && b.committed)
                    || (a.term == b.term && a.committed == b.committed
                        && a.voted_for <= b.voted_for)
            ),
            (Some(_), None) => panic!("vote retreated"),
            _ => {}
        }
        match (&*lc, &c) {
            (Some(a), Some(b)) => {
                assert!(a.term < b.term || (a.term == b.term && a.index <= b.index))
            }
            (Some(_), None) => panic!("commit retreated"),
            _ => {}
        }
        *lv = v;
        *lc = c;
    };
    elect(&mut nodes, 0);
    check(&nodes[2], &mut last_vote, &mut last_committed);
    nodes[0].client_write(Cmd::new("x", "1")).unwrap();
    let (a, rest) = nodes.split_at_mut(1);
    for f in rest.iter_mut() {
        replicate(&mut a[0], f, 10);
    }
    for f in rest.iter_mut() {
        replicate(&mut a[0], f, 11);
    }
    check(&nodes[2], &mut last_vote, &mut last_committed);
    // a later election moves the vote forward again
    let req = nodes[2].start_election();
    let reply = nodes[1].handle_request_vote(req);
    nodes[2].handle_vote_reply(2, reply);
    check(&nodes[2], &mut last_vote, &mut last_committed);
}

#[test]
fn leader_metrics_show_lease_and_heartbeats() {
    let mut nodes = vec![new_node(1, &[1, 2, 3]), new_node(2, &[1, 2, 3]), new_node(3, &[1, 2, 3])];
    elect(&mut nodes, 0);
    let m = nodes[0].metrics(5);
    // no AppendEntries acknowledged yet: the leader alone holds no quorum
    assert_eq!(m.last_quorum_acked, None);
    let hb = m.heartbeat.unwrap();
    assert_eq!(hb.len(), 2);
    assert!(hb.iter().all(|(_, t)| t.is_none()));
    let (a, rest) = nodes.split_at_mut(1);
    for f in rest.iter_mut() {
        replicate(&mut a[0], f, 7);
    }
    let m = nodes[0].metrics(9);
    // both peers acknowledged at 7; with the leader at 9, a majority stands
    // at 7 or later
    assert_eq!(m.last_quorum_acked, Some(7));
    let m2 = nodes[1].metrics(9);
    assert_eq!(m2.last_quorum_acked, None);
    assert!(m2.heartbeat.is_none());
}
