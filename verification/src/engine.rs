//! The role state machine of one node. The engine owns the vote, the log and
//! the role, and every mutation happens inside one of the handlers below,
//! each of which states exactly how the state changes. Timers, networking
//! and task plumbing live outside: they deliver events to these functions
//! and carry the returned messages, and nothing else touches the state.
//!
//! Two properties hold as clauses of every mutating handler: the stored vote
//! never decreases, and the committed log id never retreats.

use vstd::prelude::*;

use crate::config::Config;
use crate::metrics::Metrics;
use crate::metrics::ServerState;
use crate::storage::Entry;
use crate::storage::LogStore;
use crate::typeconf::TypeConfig;
use crate::vote::LogId;
use crate::vote::Vote;
use crate::vote::opt_id_max;
use crate::vote::opt_id_max_exec;
use crate::vote::opt_id_min;
use crate::vote::opt_id_min_exec;
use crate::vote::opt_log_id_le;
use crate::vote::opt_log_id_le_exec;
use crate::vote::opt_vote_le;
use crate::vote::opt_vote_lt;
use crate::vote::opt_vote_lt_exec;

verus! {

/// Leader-side bookkeeping for one follower: the highest log id known
/// replicated there, the index of the next entry to send, and the logical
/// time of its last acknowledgement of this leader's committed vote.
#[derive(Clone, Copy, Debug, PartialEq, Eq, Structural)]
pub struct Progress {
    pub peer: u64,
    pub matched: Option<LogId>,
    pub next: u64,
    pub last_ack: Option<u64>,
}

/// Wire request of the `RequestVote` RPC.
#[derive(Clone, Copy, Debug, PartialEq, Eq, Structural)]
pub struct VoteRequest {
    pub vote: Vote,
    pub last_log_id: Option<LogId>,
}

/// Wire reply of the `RequestVote` RPC: the receiver's stored vote after
/// handling, and whether it granted.
#[derive(Clone, Copy, Debug, PartialEq, Eq, Structural)]
pub struct VoteReply {
    pub vote: Option<Vote>,
    pub vote_granted: bool,
}

/// Wire request of the `AppendEntries` RPC.
pub struct AppendRequest<C: TypeConfig> {
    /// The sender's vote; `committed` is true for normal replication.
    pub vote: Vote,
    /// Id of the entry immediately before `entries`, `None` at the log start.
    pub prev_log_id: Option<LogId>,
    pub entries: Vec<Entry<C>>,
    pub leader_commit: Option<LogId>,
}

/// Wire reply of the `AppendEntries` RPC: the receiver's stored vote after
/// handling, whether the entries were accepted, and on a log mismatch the
/// receiver's last log id as a backoff hint.
#[derive(Clone, Copy, Debug, PartialEq, Eq, Structural)]
pub struct AppendReply {
    pub vote: Option<Vote>,
    pub success: bool,
    pub conflict: Option<LogId>,
}

/// Refusal of a client write by a node that is not the leader, carrying the
/// best-known leader to forward to, or none during an election.
#[derive(Clone, Copy, Debug, PartialEq, Eq, Structural)]
pub enum WriteError {
    ForwardToLeader { leader_id: Option<u64> },
}

/// The peers named by a sequence of replication records.
pub open spec fn progress_peers(ps: Seq<Progress>) -> Seq<u64> {
    ps.map_values(|p: Progress| p.peer)
}

/// The engine of one node.
pub struct Engine<C: TypeConfig> {
    pub id: u64,
    /// The fixed membership, distinct ids, containing `id`.
    pub members: Vec<u64>,
    pub config: Config,
    pub store: LogStore<C>,
    /// The last committed log id; monotone.
    pub committed: Option<LogId>,
    pub state: ServerState,
    /// The best-known current leader.
    pub leader: Option<u64>,
    /// While candidate: the members that granted this node's vote this term.
    pub granted: Vec<u64>,
    /// While leader: one record per peer.
    pub progress: Vec<Progress>,
}

impl<C: TypeConfig> Engine<C> {
    /// Well-formedness: a coherent log, a distinct membership containing this
    /// node, and a role backed by the matching own vote.
    pub open spec fn wf(self) -> bool {
        self.store.wf()
        && self.members@.no_duplicates()
        && self.members@.contains(self.id)
        && (self.state is Leader ==> (self.store.vote matches Option::Some(v) && v.voted_for
            == self.id && v.committed))
        && (self.state is Candidate ==> (self.store.vote matches Option::Some(v) && v.voted_for
            == self.id && !v.committed))
        && self.store.terms_bounded()
        && (self.state is Leader ==> self.progress_wf())
    }

    /// The term of the stored vote; a node that never voted is at term 0.
    pub open spec fn current_term(self) -> u64 {
        self.store.vote_term()
    }

    /// Leader-side bookkeeping is one record per peer: distinct members
    /// other than this node.
    pub open spec fn progress_wf(self) -> bool {
        progress_peers(self.progress@).no_duplicates()
        && (forall|i: int|
            0 <= i < self.progress@.len() ==> self.members@.contains(
                (#[trigger] self.progress@[i]).peer,
            ) && self.progress@[i].peer != self.id)
    }

    /// The last log id of this node.
    pub open spec fn last_log_id_spec(self) -> Option<LogId> {
        self.store.last_log_id_spec()
    }

    /// A fresh follower over an empty or recovered store.
    pub fn new(id: u64, config: Config, store: LogStore<C>, members: Vec<u64>) -> (e: Engine<C>)
        requires
            store.wf(),
            store.terms_bounded(),
            members@.no_duplicates(),
            members@.contains(id),
        ensures
            e.wf(),
            e.id == id,
            e.config == config,
            e.store == store,
            e.members == members,
            e.committed is None,
            e.state is Follower,
            e.leader is None,
    {
        Engine {
            id,
            members,
            config,
            store,
            committed: Option::None,
            state: ServerState::Follower,
            leader: Option::None,
            granted: Vec::new(),
            progress: Vec::new(),
        }
    }

    /// Whether this node grants `req`: the candidate's vote must be strictly
    /// greater than the stored vote and its log at least as up to date.
    pub open spec fn grants_spec(self, req: VoteRequest) -> bool {
        opt_vote_lt(self.store.vote, Option::Some(req.vote))
        && opt_log_id_le(self.last_log_id_spec(), req.last_log_id)
    }

    /// Handles an inbound `RequestVote`.
    ///
    /// Grants if and only if the candidate's vote is strictly greater than
    /// the stored vote and the candidate's log is at least as up to date; on
    /// a grant the new vote is persisted before the reply leaves and this
    /// node steps down to follower. A rejected candidate sees the stored
    /// vote unchanged in the reply.
    pub fn handle_request_vote(&mut self, req: VoteRequest) -> (reply: VoteReply)
        requires
            old(self).wf(),
        ensures
            final(self).wf(),
            reply.vote_granted == old(self).grants_spec(req),
            reply.vote == final(self).store.vote,
            old(self).grants_spec(req) ==> final(self).store.vote == Option::Some(req.vote)
                && final(self).state is Follower,
            !old(self).grants_spec(req) ==> *final(self) == *old(self),
            // the vote never decreases, the commit never retreats, the log
            // and membership are untouched
            opt_vote_le(old(self).store.vote, final(self).store.vote),
            final(self).committed == old(self).committed,
            final(self).store.entries@ == old(self).store.entries@,
            final(self).members@ == old(self).members@,
            final(self).id == old(self).id,
            final(self).config == old(self).config,
    {
        let grant = opt_vote_lt_exec(&self.store.vote, &Option::Some(req.vote)) && {
            let last = self.store.last_log_id();
            opt_log_id_le_exec(&last, &req.last_log_id)
        };
        if grant {
            self.store.save_vote(req.vote);
            self.state = ServerState::Follower;
            self.granted = Vec::new();
            self.progress = Vec::new();
            VoteReply { vote: self.store.read_vote(), vote_granted: true }
        } else {
            VoteReply { vote: self.store.read_vote(), vote_granted: false }
        }
    }
    /// Where the incoming entries begin: the position after `prev_log_id`.
    pub open spec fn ae_base(prev: Option<LogId>) -> int {
        match prev {
            Option::None => 0,
            Option::Some(p) => p.index + 1,
        }
    }

    /// Whether the local log holds `prev_log_id`: the consistency check of
    /// `AppendEntries`.
    pub open spec fn prev_ok(log: Seq<Entry<C>>, prev: Option<LogId>) -> bool {
        match prev {
            Option::None => true,
            Option::Some(p) => p.index < log.len() && log[p.index as int].log_id.term == p.term,
        }
    }

    /// Whether the request is internally coherent, as one sent by a correct
    /// leader is: entries contiguous after `prev_log_id`, terms never
    /// decreasing, and not below the previous entry's term.
    pub open spec fn req_shape_ok(req: AppendRequest<C>) -> bool {
        let base = Self::ae_base(req.prev_log_id);
        (forall|j: int|
            0 <= j < req.entries@.len() ==> (#[trigger] req.entries@[j]).log_id.index == base + j)
        && (forall|i: int, j: int|
            0 <= i < j < req.entries@.len() ==> req.entries@[i].log_id.term
                <= req.entries@[j].log_id.term)
        && (forall|j: int|
            0 <= j < req.entries@.len() ==> (#[trigger] req.entries@[j]).log_id.term
                <= req.vote.term)
        && (match req.prev_log_id {
            Option::Some(p) => req.entries@.len() > 0 ==> p.term <= req.entries@[0].log_id.term,
            Option::None => true,
        })
    }

    /// Whether the receiver accepts the request: the sender's vote is not
    /// below the stored one, the request is coherent, and the log holds
    /// `prev_log_id`.
    pub open spec fn ae_accepts(self, req: AppendRequest<C>) -> bool {
        !opt_vote_lt(Option::Some(req.vote), self.store.vote)
        && Self::req_shape_ok(req)
        && Self::prev_ok(self.store.entries@, req.prev_log_id)
    }

    /// The id up to which the request proves the follower's log agrees with
    /// the leader's: the last entry sent, or `prev_log_id` for a heartbeat.
    pub open spec fn ae_last_new(req: AppendRequest<C>) -> Option<LogId> {
        if req.entries@.len() > 0 {
            Option::Some(req.entries@.last().log_id)
        } else {
            req.prev_log_id
        }
    }

    /// The log after reconciling `entries` into `log` at `base`: entries
    /// already present are kept in place, and at the first conflict the local
    /// suffix is replaced by the remainder of `entries`. A log that already
    /// holds everything is left exactly as it is, longer tail included.
    pub open spec fn merge_entries(log: Seq<Entry<C>>, base: int, entries: Seq<Entry<C>>) -> Seq<
        Entry<C>,
    >
        recommends
            0 <= base <= log.len(),
        decreases entries.len(),
    {
        if entries.len() == 0 {
            log
        } else if base < log.len() && log[base].log_id == entries[0].log_id {
            Self::merge_entries(log, base + 1, entries.drop_first())
        } else {
            log.take(base) + entries
        }
    }

    /// Evaluates the merge once the first conflict position is known: up to
    /// `k` everything matches, so the merge keeps the log there; a conflict
    /// at `k` cuts the log and appends the remaining entries; no conflict at
    /// all leaves the log untouched.
    pub proof fn lemma_merge_cut(log: Seq<Entry<C>>, base: int, entries: Seq<Entry<C>>, k: int)
        requires
            0 <= base <= log.len(),
            0 <= k <= entries.len(),
            k > 0 ==> base + k <= log.len(),
            forall|j: int|
                0 <= j < k ==> (#[trigger] entries[j]).log_id == log[base + j].log_id,
            k < entries.len() ==> !(base + k < log.len() && entries[k].log_id == log[
                base + k
            ].log_id),
        ensures
            k == entries.len() ==> Self::merge_entries(log, base, entries) == log,
            k < entries.len() ==> Self::merge_entries(log, base, entries) == log.take(base + k)
                + entries.skip(k),
        decreases k,
    {
        if k == 0 {
            if entries.len() > 0 {
                assert(entries.skip(0) =~= entries);
                assert(Self::merge_entries(log, base, entries) == log.take(base) + entries);
            }
        } else {
            assert(entries[0].log_id == log[base].log_id);
            assert(base < log.len());
            let rest = entries.drop_first();
            assert forall|j: int|
                0 <= j < k - 1 implies (#[trigger] rest[j]).log_id == log[(base + 1) + j].log_id by {
                assert(rest[j] == entries[j + 1]);
                assert(entries[j + 1].log_id == log[base + (j + 1)].log_id);
            }
            if k - 1 < rest.len() {
                assert(rest[k - 1] == entries[k as int]);
            }
            Self::lemma_merge_cut(log, base + 1, rest, k - 1);
            assert(rest.skip(k - 1) =~= entries.skip(k));
        }
    }

    /// Handles an inbound `AppendEntries`.
    ///
    /// A sender whose vote is below the stored vote is rejected with the
    /// stored vote. Otherwise a strictly greater vote is persisted before
    /// anything else, and a committed sender vote names the sender as
    /// leader. If the log does not hold `prev_log_id`, the request is
    /// rejected with the local last log id as a backoff hint. Otherwise the
    /// entries are reconciled into the log — already-present entries are
    /// kept, a conflicting suffix is truncated and replaced — and the commit
    /// index advances to `min(leader_commit, last new entry)`, never
    /// retreating. Entries and vote are durable before the reply leaves.
    pub fn handle_append_entries(&mut self, req: AppendRequest<C>) -> (reply: AppendReply)
        requires
            old(self).wf(),
        ensures
            final(self).wf(),
            // reply carries the stored vote after handling
            reply.vote == final(self).store.vote,
            reply.success == old(self).ae_accepts(req),
            // a stale sender changes nothing
            opt_vote_lt(Option::Some(req.vote), old(self).store.vote) ==> *final(self) == *old(
                self,
            ) && reply.conflict is None,
            // vote handling: adopt a strictly greater vote, keep ours otherwise
            final(self).store.vote == (if opt_vote_lt(
                old(self).store.vote,
                Option::Some(req.vote),
            ) {
                Option::Some(req.vote)
            } else {
                old(self).store.vote
            }),
            opt_vote_le(old(self).store.vote, final(self).store.vote),
            // an acceptable committed sender vote names the leader
            (!opt_vote_lt(Option::Some(req.vote), old(self).store.vote) && req.vote.committed)
                ==> final(self).leader == Option::Some(req.vote.voted_for),
            // the log changes only by the reconciliation, and only on accept
            old(self).ae_accepts(req) ==> final(self).store.entries@ == Self::merge_entries(
                old(self).store.entries@,
                Self::ae_base(req.prev_log_id),
                req.entries@,
            ),
            !old(self).ae_accepts(req) ==> final(self).store.entries@ == old(
                self,
            ).store.entries@,
            // the prefix below the reconciliation point is never touched
            old(self).ae_accepts(req) ==> final(self).store.entries@.take(
                Self::ae_base(req.prev_log_id),
            ) == old(self).store.entries@.take(Self::ae_base(req.prev_log_id)),
            // replaying entries that are all present leaves the log as it is
            ({
                let log = old(self).store.entries@;
                let base = Self::ae_base(req.prev_log_id);
                old(self).ae_accepts(req) && (forall|j: int|
                    0 <= j < req.entries@.len() ==> base + j < log.len()
                        && (#[trigger] req.entries@[j]).log_id == log[base + j].log_id)
            }) ==> final(self).store.entries@ == old(self).store.entries@,
            // a rejected consistency check reports the local last log id
            (!opt_vote_lt(Option::Some(req.vote), old(self).store.vote) && !(Self::req_shape_ok(
                req,
            ) && Self::prev_ok(old(self).store.entries@, req.prev_log_id))) ==> reply.conflict
                == old(self).store.last_log_id_spec(),
            // the commit index advances exactly as far as the request allows
            old(self).ae_accepts(req) ==> final(self).committed == opt_id_max(
                old(self).committed,
                opt_id_min(req.leader_commit, Self::ae_last_new(req)),
            ),
            !old(self).ae_accepts(req) ==> final(self).committed == old(self).committed,
            // the commit index never retreats
            opt_log_id_le(old(self).committed, final(self).committed),
            // fixed identity
            final(self).members@ == old(self).members@,
            final(self).id == old(self).id,
            final(self).config == old(self).config,
    {
        // stale sender: reject with the stored vote
        if opt_vote_lt_exec(&Option::Some(req.vote), &self.store.vote) {
            return AppendReply {
                vote: self.store.read_vote(),
                success: false,
                conflict: Option::None,
            };
        }
        // a strictly greater vote is persisted before anything else; any
        // role this node held is lost to the newer term
        if opt_vote_lt_exec(&self.store.vote, &Option::Some(req.vote)) {
            self.store.save_vote(req.vote);
            self.state = ServerState::Follower;
            self.granted = Vec::new();
            self.progress = Vec::new();
        }
        // replication from an established leader names the leader
        if req.vote.committed {
            self.leader = Option::Some(req.vote.voted_for);
        }
        // a malformed request cannot have come from a correct leader
        if !Self::entries_shaped(&req) {
            return AppendReply {
                vote: self.store.read_vote(),
                success: false,
                conflict: self.store.last_log_id(),
            };
        }
        // consistency check on prev_log_id; on a match the entries begin
        // right after it
        let total = self.store.entries.len();
        let base: u64 = match &req.prev_log_id {
            Option::None => 0,
            Option::Some(p) => {
                let ok: bool = match self.store.read(p.index) {
                    Option::Some(e) => e.log_id.term == p.term,
                    Option::None => false,
                };
                if !ok {
                    return AppendReply {
                        vote: self.store.read_vote(),
                        success: false,
                        conflict: self.store.last_log_id(),
                    };
                }
                proof {
                    assert(p.index < total as u64);
                }
                p.index + 1
            },
        };
        let ghost base_g = Self::ae_base(req.prev_log_id);
        assert(base == base_g);
        // the proven prefix: the last entry sent, or prev for a heartbeat
        let last_new: Option<LogId> = if req.entries.len() > 0 {
            Option::Some(req.entries[req.entries.len() - 1].log_id)
        } else {
            req.prev_log_id
        };
        let ghost log0 = self.store.entries@;
        let ghost entsv = req.entries@;
        proof {
            // the entries may not fall below the term of the entry before them
            if base_g > 0 && entsv.len() > 0 {
                let p = req.prev_log_id.unwrap();
                assert(log0[base_g - 1].log_id.term == p.term);
            }
        }
        proof {
            // the stored vote is now at least the sender's, so every entry's
            // term is within the current term
            assert(req.vote.term <= self.current_term());
        }
        let ents = req.entries;
        self.reconcile(base, ents);
        proof {
            // replaying entries that are all present keeps the log unchanged
            let all_present = forall|j: int|
                0 <= j < entsv.len() ==> base_g + j < log0.len() && (#[trigger] entsv[j]).log_id
                    == log0[base_g + j].log_id;
            if all_present {
                if entsv.len() > 0 {
                    let lastj = entsv.len() - 1;
                    assert(base_g + lastj < log0.len() && entsv[lastj as int].log_id == log0[
                        base_g + lastj
                    ].log_id);
                }
                Self::lemma_merge_cut(log0, base_g, entsv, entsv.len() as int);
            }
        }
        // commit advance: min(leader commit, proven prefix), never retreating
        let cap = opt_id_min_exec(&req.leader_commit, &last_new);
        proof {
            crate::vote::lemma_opt_log_id_le_total(self.committed, opt_id_min(req.leader_commit, last_new));
        }
        self.committed = opt_id_max_exec(&self.committed, &cap);
        AppendReply { vote: self.store.read_vote(), success: true, conflict: Option::None }
    }

    /// The membership other than this node.
    pub open spec fn peers_spec(self) -> Seq<u64> {
        self.members@.filter(|m: u64| m != self.id)
    }

    /// Starts an election: bumps the term, votes for itself, and returns the
    /// `RequestVote` to broadcast. Restarting a stalled election is the same
    /// step taken from candidate.
    pub fn start_election(&mut self) -> (req: VoteRequest)
        requires
            old(self).wf(),
            old(self).current_term() < u64::MAX,
        ensures
            final(self).wf(),
            req.vote == (Vote {
                term: (old(self).current_term() + 1) as u64,
                voted_for: old(self).id,
                committed: false,
            }),
            req.last_log_id == old(self).last_log_id_spec(),
            final(self).granted@ == seq![old(self).id],
            opt_vote_le(old(self).store.vote, final(self).store.vote),
            final(self).committed == old(self).committed,
            final(self).store.entries@ == old(self).store.entries@,
            final(self).members@ == old(self).members@,
            final(self).id == old(self).id,
            final(self).config == old(self).config,
            // voting for itself already wins in a cluster this node alone
            // can carry; otherwise it campaigns
            ({
                let won = 2 * old(self).members@.filter(
                    |m: u64| seq![old(self).id].contains(m),
                ).len() > old(self).members@.len();
                if won {
                    final(self).state is Leader && final(self).store.vote == Option::Some(
                        Vote {
                            term: (old(self).current_term() + 1) as u64,
                            voted_for: old(self).id,
                            committed: true,
                        },
                    ) && final(self).leader == Option::Some(old(self).id)
                } else {
                    final(self).state is Candidate && final(self).store.vote == Option::Some(
                        req.vote,
                    ) && final(self).leader == old(self).leader
                }
            }),
    {
        let term = match self.store.read_vote() {
            Option::Some(v) => v.term,
            Option::None => 0,
        };
        let vote = Vote { term: term + 1, voted_for: self.id, committed: false };
        self.store.save_vote(vote);
        self.state = ServerState::Candidate;
        let mut granted: Vec<u64> = Vec::new();
        granted.push(self.id);
        proof {
            assert(granted@ =~= seq![self.id]);
        }
        self.granted = granted;
        self.progress = Vec::new();
        let req = VoteRequest { vote, last_log_id: self.store.last_log_id() };
        if crate::quorum::is_majority(&self.members, &self.granted) {
            self.become_leader();
        }
        req
    }

    /// Whether a reply tallies for this node's current candidacy: it must
    /// still be candidate, the reply granted, the echoed vote its own, and
    /// the voter a member.
    pub open spec fn tallies(self, from: u64, reply: VoteReply) -> bool {
        !opt_vote_lt(self.store.vote, reply.vote)
        && self.state is Candidate
        && reply.vote_granted
        && reply.vote == self.store.vote
        && self.members@.contains(from)
    }

    /// The granted set after tallying a reply.
    pub open spec fn granted_after(self, from: u64, reply: VoteReply) -> Seq<u64> {
        if self.tallies(from, reply) && !self.granted@.contains(from) {
            self.granted@.push(from)
        } else {
            self.granted@
        }
    }

    /// Handles a `RequestVote` reply during candidacy.
    ///
    /// A strictly greater echoed vote is persisted and forces a step down to
    /// follower. A grant of this node's own vote is tallied once per voter;
    /// grants from a strict majority of the membership, this node included,
    /// make it leader: the own vote is upgraded to committed and persisted,
    /// and one replication record per peer is set up.
    pub fn handle_vote_reply(&mut self, from: u64, reply: VoteReply) -> (became_leader: bool)
        requires
            old(self).wf(),
        ensures
            final(self).wf(),
            opt_vote_le(old(self).store.vote, final(self).store.vote),
            final(self).committed == old(self).committed,
            final(self).store.entries@ == old(self).store.entries@,
            final(self).members@ == old(self).members@,
            final(self).id == old(self).id,
            final(self).config == old(self).config,
            // a strictly greater vote forces a step down
            opt_vote_lt(old(self).store.vote, reply.vote) ==> final(self).store.vote
                == reply.vote && final(self).state is Follower && !became_leader,
            !opt_vote_lt(old(self).store.vote, reply.vote) ==> final(self).granted@ == old(
                self,
            ).granted_after(from, reply),
            // quorum of grants decides leadership, nothing else does
            became_leader == (old(self).tallies(from, reply) && 2 * old(
                self,
            ).members@.filter(
                |m: u64| old(self).granted_after(from, reply).contains(m),
            ).len() > old(self).members@.len()),
            became_leader ==> ({
                let fs = *final(self);
                let os = *old(self);
                fs.state is Leader && fs.store.vote == Option::Some(
                    Vote { term: os.current_term(), voted_for: os.id, committed: true },
                ) && fs.leader == Option::Some(os.id) && (forall|i: int|
                    0 <= i < fs.progress@.len() ==> (#[trigger] fs.progress@[i]).matched is None
                        && fs.progress@[i].next == os.store.entries@.len()
                        && fs.progress@[i].last_ack is None) && (forall|m: u64|
                    os.members@.contains(m) && m != os.id ==> exists|i: int|
                        0 <= i < fs.progress@.len() && (#[trigger] fs.progress@[i]).peer == m)
            }),
            !became_leader && !opt_vote_lt(old(self).store.vote, reply.vote) ==> ({
                let fs = *final(self);
                fs.state == old(self).state && fs.store.vote == old(self).store.vote
                    && fs.progress == old(self).progress
            }),
    {
        // a newer vote in the reply ends the candidacy
        if opt_vote_lt_exec(&self.store.vote, &reply.vote) {
            let v = match reply.vote {
                Option::Some(v) => v,
                Option::None => unreached(),
            };
            self.store.save_vote(v);
            self.state = ServerState::Follower;
            self.granted = Vec::new();
            self.progress = Vec::new();
            return false;
        }
        let is_candidate = match self.state {
            ServerState::Candidate => true,
            _ => false,
        };
        let same_vote = match (&self.store.vote, &reply.vote) {
            (Option::Some(a), Option::Some(b)) => a.term == b.term && a.voted_for == b.voted_for
                && a.committed == b.committed,
            (Option::None, Option::None) => true,
            _ => false,
        };
        if is_candidate && reply.vote_granted && same_vote && crate::quorum::contains_id(
            &self.members,
            from,
        ) {
            if !crate::quorum::contains_id(&self.granted, from) {
                self.granted.push(from);
            }
            if crate::quorum::is_majority(&self.members, &self.granted) {
                self.become_leader();
                return true;
            }
        }
        false
    }

    /// Upgrades the candidate's own vote to committed, persists it, and sets
    /// up one replication record per peer.
    fn become_leader(&mut self)
        requires
            old(self).wf(),
            old(self).state is Candidate,
        ensures
            final(self).wf(),
            final(self).state is Leader,
            final(self).store.vote == Option::Some(
                Vote { term: old(self).current_term(), voted_for: old(self).id, committed: true },
            ),
            opt_vote_le(old(self).store.vote, final(self).store.vote),
            final(self).leader == Option::Some(old(self).id),
            final(self).committed == old(self).committed,
            final(self).store.entries@ == old(self).store.entries@,
            final(self).members@ == old(self).members@,
            final(self).id == old(self).id,
            final(self).config == old(self).config,
            final(self).granted@ == old(self).granted@,
            ({
                let fs = *final(self);
                let os = *old(self);
                (forall|i: int|
                    0 <= i < fs.progress@.len() ==> (#[trigger] fs.progress@[i]).matched is None
                        && fs.progress@[i].next == os.store.entries@.len()
                        && fs.progress@[i].last_ack is None) && (forall|m: u64|
                    os.members@.contains(m) && m != os.id ==> exists|i: int|
                        0 <= i < fs.progress@.len() && (#[trigger] fs.progress@[i]).peer == m)
            }),
    {
        let v = match self.store.read_vote() {
            Option::Some(v) => v,
            Option::None => unreached(),
        };
        let nv = Vote { term: v.term, voted_for: self.id, committed: true };
        self.store.save_vote(nv);
        self.leader = Option::Some(self.id);
        let next0: u64 = self.store.entries.len() as u64;
        let n = self.members.len();
        let mut prog: Vec<Progress> = Vec::new();
        let mut i: usize = 0;
        while i < n
            invariant
                i <= n,
                n == self.members@.len(),
                forall|a: int|
                    0 <= a < prog@.len() ==> self.members@.take(i as int).contains(
                        (#[trigger] prog@[a]).peer,
                    ) && prog@[a].peer != self.id,
                forall|a: int, b: int|
                    0 <= a < b < prog@.len() ==> prog@[a].peer != prog@[b].peer,
                forall|a: int|
                    0 <= a < prog@.len() ==> (#[trigger] prog@[a]).matched is None && prog@[a].next
                        == next0 && prog@[a].last_ack is None,
                forall|j: int|
                    0 <= j < i && self.members@[j] != self.id ==> exists|a: int|
                        0 <= a < prog@.len() && (#[trigger] prog@[a]).peer == self.members@[j],
                self.members@.no_duplicates(),
            decreases n - i,
        {
            let m = self.members[i];
            let ghost pre = prog@;
            if m != self.id {
                prog.push(Progress { peer: m, matched: Option::None, next: next0, last_ack: Option::None });
                proof {
                    assert forall|a: int, b: int|
                        0 <= a < b < prog@.len() implies prog@[a].peer != prog@[b].peer by {
                        if b == prog@.len() - 1 {
                            assert(self.members@.take(i as int).contains(pre[a].peer));
                            let w = choose|w: int|
                                0 <= w < i && self.members@.take(i as int)[w] == pre[a].peer;
                            assert(self.members@[w] == pre[a].peer);
                        }
                    }
                }
            }
            proof {
                assert forall|j: int|
                    0 <= j < i + 1 && self.members@[j] != self.id implies exists|a: int|
                        0 <= a < prog@.len() && (#[trigger] prog@[a]).peer == self.members@[j] by {
                    if j < i {
                        let a0 = choose|a: int|
                            0 <= a < pre.len() && (#[trigger] pre[a]).peer == self.members@[j];
                        assert(prog@[a0].peer == self.members@[j]);
                    } else {
                        assert(prog@[prog@.len() - 1].peer == self.members@[j]);
                    }
                }
            }
            proof {
                assert forall|a: int|
                    0 <= a < prog@.len() implies self.members@.take(i + 1).contains(
                        (#[trigger] prog@[a]).peer,
                    ) && prog@[a].peer != self.id by {
                    if a < prog@.len() - 1 || self.members@[i as int] == self.id {
                        if self.members@.take(i as int).contains(prog@[a].peer) {
                            let w = choose|w: int|
                                0 <= w < i && self.members@.take(i as int)[w] == prog@[a].peer;
                            assert(self.members@.take(i + 1)[w] == prog@[a].peer);
                        }
                    } else {
                        assert(self.members@.take(i + 1)[i as int] == self.members@[i as int]);
                    }
                }
            }
            i += 1;
        }
        self.progress = prog;
        self.state = ServerState::Leader;
        proof {
            assert(self.progress_wf()) by {
                let peers = progress_peers(self.progress@);
                assert forall|a: int, b: int|
                    0 <= a < b < peers.len() implies peers[a] != peers[b] by {
                    assert(peers[a] == self.progress@[a].peer);
                    assert(peers[b] == self.progress@[b].peer);
                }
                assert forall|a: int|
                    0 <= a < self.progress@.len() implies self.members@.contains(
                        (#[trigger] self.progress@[a]).peer,
                    ) by {
                    assert(self.members@.take(n as int).contains(self.progress@[a].peer));
                    let w = choose|w: int|
                        0 <= w < n && self.members@.take(n as int)[w] == self.progress@[a].peer;
                    assert(self.members@[w] == self.progress@[a].peer);
                }
            }
        }
    }

    /// Accepts one client command: a leader appends it as the next entry in
    /// its current term and returns the entry's id, which the caller resolves
    /// once the commit index reaches it; any other node refuses and names the
    /// best-known leader for forwarding.
    pub fn client_write(&mut self, cmd: C::AppData) -> (r: Result<LogId, WriteError>)
        requires
            old(self).wf(),
        ensures
            final(self).wf(),
            !(old(self).state is Leader) ==> r == Err::<LogId, WriteError>(
                WriteError::ForwardToLeader { leader_id: old(self).leader },
            ) && *final(self) == *old(self),
            old(self).state is Leader ==> ({
                let fs = *final(self);
                let os = *old(self);
                let lid = LogId { term: os.current_term(), index: os.store.entries@.len() as u64 };
                r == Ok::<LogId, WriteError>(lid) && fs.store.entries@.len()
                    == os.store.entries@.len() + 1 && fs.store.entries@.last().log_id == lid
                    && fs.store.entries@.last().payload@ == seq![cmd]
                    && fs.store.entries@.take(os.store.entries@.len() as int) == os.store.entries@
            }),
            final(self).store.vote == old(self).store.vote,
            final(self).committed == old(self).committed,
            final(self).state == old(self).state,
            final(self).leader == old(self).leader,
            final(self).progress == old(self).progress,
            final(self).members@ == old(self).members@,
            final(self).id == old(self).id,
            final(self).config == old(self).config,
    {
        let is_leader = match self.state {
            ServerState::Leader => true,
            _ => false,
        };
        if !is_leader {
            return Err(WriteError::ForwardToLeader { leader_id: self.leader });
        }
        let term = match self.store.read_vote() {
            Option::Some(v) => v.term,
            Option::None => unreached(),
        };
        let index: u64 = self.store.entries.len() as u64;
        let lid = LogId { term, index };
        let mut payload: Vec<C::AppData> = Vec::new();
        payload.push(cmd);
        let ghost pre = self.store.entries@;
        self.store.append(Entry { log_id: lid, payload });
        proof {
            assert(self.store.entries@.take(pre.len() as int) =~= pre);
        }
        Ok(lid)
    }

    /// Whether the membership member `mem` is known to hold everything up to
    /// `m`: the leader itself through its own log, a peer through its
    /// replication record.
    pub open spec fn acked_at(self, mem: u64, m: LogId) -> bool {
        if mem == self.id {
            opt_log_id_le(Option::Some(m), self.last_log_id_spec())
        } else {
            exists|i: int|
                0 <= i < self.progress@.len() && (#[trigger] self.progress@[i]).peer == mem
                    && opt_log_id_le(Option::Some(m), self.progress@[i].matched)
        }
    }

    /// How many members are known to hold everything up to `m`.
    pub open spec fn acked_count(self, m: LogId) -> nat {
        self.members@.filter(|mem: u64| self.acked_at(mem, m)).len()
    }

    /// Whether the leader may advance the commit index to `m`: the entry is
    /// in its own log, carries its own current term — an entry of an earlier
    /// term is only ever committed through a later one of the current term —
    /// and a strict majority of the membership holds it.
    pub open spec fn commit_ok(self, m: LogId) -> bool {
        m.term == self.current_term()
        && m.index < self.store.entries@.len()
        && self.store.entries@[m.index as int].log_id == m
        && 2 * self.acked_count(m) > self.members@.len()
    }

    /// The position of `peer`'s replication record, unique because the
    /// records carry distinct peers.
    fn find_progress(&self, peer: u64) -> (r: Option<usize>)
        requires
            progress_peers(self.progress@).no_duplicates(),
        ensures
            match r {
                Option::Some(i) => i < self.progress@.len() && self.progress@[i as int].peer
                    == peer && (forall|j: int|
                    0 <= j < self.progress@.len() && j != i ==> (#[trigger] self.progress@[
                        j
                    ]).peer != peer),
                Option::None => forall|i: int|
                    0 <= i < self.progress@.len() ==> (#[trigger] self.progress@[i]).peer != peer,
            },
    {
        let n = self.progress.len();
        let mut i: usize = 0;
        while i < n
            invariant
                i <= n,
                n == self.progress@.len(),
                progress_peers(self.progress@).no_duplicates(),
                forall|j: int| 0 <= j < i ==> (#[trigger] self.progress@[j]).peer != peer,
            decreases n - i,
        {
            if self.progress[i].peer == peer {
                proof {
                    let peers = progress_peers(self.progress@);
                    assert(peers.len() == self.progress@.len());
                    assert forall|j: int|
                        0 <= j < self.progress@.len() && j != i implies (#[trigger] self.progress@[
                            j
                        ]).peer != peer by {
                        assert(peers[j] == self.progress@[j].peer);
                        assert(peers[i as int] == self.progress@[i as int].peer);
                        assert(peers[j] != peers[i as int]);
                    }
                }
                return Option::Some(i);
            }
            i += 1;
        }
        Option::None
    }

    /// Whether a strict majority of the membership is known to hold
    /// everything up to `m`.
    fn acked_majority(&self, m: &LogId) -> (r: bool)
        requires
            self.wf(),
            self.state is Leader,
        ensures
            r == (2 * self.acked_count(*m) > self.members@.len()),
    {
        let n = self.members.len();
        let mut count: usize = 0;
        let mut i: usize = 0;
        proof {
            assert(self.members@.take(0int).filter(|mem: u64| self.acked_at(mem, *m)) =~= Seq::<
                u64,
            >::empty());
        }
        while i < n
            invariant
                i <= n,
                n == self.members@.len(),
                count == self.members@.take(i as int).filter(
                    |mem: u64| self.acked_at(mem, *m),
                ).len(),
                count <= i,
                self.wf(),
                self.state is Leader,
            decreases n - i,
        {
            let mem = self.members[i];
            let acked: bool = if mem == self.id {
                let last = self.store.last_log_id();
                opt_log_id_le_exec(&Option::Some(*m), &last)
            } else {
                let fp = self.find_progress(mem);
                let a: bool = match fp {
                    Option::Some(pi) => {
                        let matched = self.progress[pi].matched;
                        opt_log_id_le_exec(&Option::Some(*m), &matched)
                    },
                    Option::None => false,
                };
                proof {
                    if !a && self.acked_at(mem, *m) {
                        let w = choose|w: int|
                            0 <= w < self.progress@.len() && (#[trigger] self.progress@[w]).peer
                                == mem && opt_log_id_le(Option::Some(*m), self.progress@[w].matched);
                        match fp {
                            Option::Some(pi) => {
                                assert(w == pi);
                            },
                            Option::None => {},
                        }
                        assert(false);
                    }
                }
                a
            };
            proof {
                assert(acked == self.acked_at(mem, *m));
                assert(self.members@.take(i + 1).drop_last() =~= self.members@.take(i as int));
                reveal_with_fuel(Seq::filter, 2);
                assert(self.members@.take(i + 1).last() == mem);
            }
            if acked {
                count += 1;
            }
            i += 1;
        }
        proof {
            assert(self.members@.take(n as int) =~= self.members@);
            crate::quorum::lemma_filter_len_le(self.members@, |mem: u64| self.acked_at(mem, *m));
        }
        count > n / 2
    }

    /// Advances the commit index to the furthest entry the commit rule
    /// allows, never retreating. The candidates are the leader's own last
    /// entry and each peer's reported match point.
    fn try_advance_commit(&mut self)
        requires
            old(self).wf(),
            old(self).state is Leader,
        ensures
            final(self).wf(),
            *final(self) == (Engine { committed: final(self).committed, ..*old(self) }),
            opt_log_id_le(old(self).committed, final(self).committed),
            final(self).committed == old(self).committed || (final(self).committed matches Option::Some(m)
                && old(self).commit_ok(m)),
            ({
                let os = *old(self);
                (match os.last_log_id_spec() {
                    Option::Some(l) => os.commit_ok(l) ==> opt_log_id_le(
                        Option::Some(l),
                        final(self).committed,
                    ),
                    Option::None => true,
                }) && (forall|i: int|
                    0 <= i < os.progress@.len() ==> match (#[trigger] os.progress@[i]).matched {
                        Option::Some(m) => os.commit_ok(m) ==> opt_log_id_le(
                            Option::Some(m),
                            final(self).committed,
                        ),
                        Option::None => true,
                    })
            }),
    {
        let ghost os = *self;
        let mut best: Option<LogId> = self.committed;
        match self.store.last_log_id() {
            Option::Some(l) => {
                if self.commit_candidate_ok(&l) {
                    best = opt_id_max_exec(&best, &Option::Some(l));
                }
                proof {
                    crate::vote::lemma_opt_log_id_le_total(os.committed, Option::Some(l));
                }
            },
            Option::None => {},
        }
        let n = self.progress.len();
        let mut i: usize = 0;
        while i < n
            invariant
                i <= n,
                *self == os,
                os.wf(),
                os.state is Leader,
                n == self.progress@.len(),
                opt_log_id_le(os.committed, best),
                best == os.committed || (best matches Option::Some(m) && os.commit_ok(m)),
                match os.last_log_id_spec() {
                    Option::Some(l) => os.commit_ok(l) ==> opt_log_id_le(Option::Some(l), best),
                    Option::None => true,
                },
                forall|j: int|
                    0 <= j < i ==> match (#[trigger] os.progress@[j]).matched {
                        Option::Some(m) => os.commit_ok(m) ==> opt_log_id_le(
                            Option::Some(m),
                            best,
                        ),
                        Option::None => true,
                    },
            decreases n - i,
        {
            match self.progress[i].matched {
                Option::Some(m) => {
                    if self.commit_candidate_ok(&m) {
                        proof {
                            crate::vote::lemma_opt_log_id_le_total(best, Option::Some(m));
                        }
                        best = opt_id_max_exec(&best, &Option::Some(m));
                    }
                },
                Option::None => {},
            }
            i += 1;
        }
        self.committed = best;
    }

    /// Whether `m` satisfies the commit rule on this leader.
    fn commit_candidate_ok(&self, m: &LogId) -> (r: bool)
        requires
            self.wf(),
            self.state is Leader,
        ensures
            r == self.commit_ok(*m),
    {
        let term = match self.store.read_vote() {
            Option::Some(v) => v.term,
            Option::None => unreached(),
        };
        if m.term != term {
            return false;
        }
        let in_log: bool = match self.store.read(m.index) {
            Option::Some(e) => e.log_id.term == m.term && e.log_id.index == m.index,
            Option::None => false,
        };
        if !in_log {
            return false;
        }
        self.acked_majority(m)
    }

    /// Records a replication acknowledgement from `peer`: its match point
    /// never retreats, its acknowledgement time is refreshed, and the commit
    /// index advances as far as the commit rule now allows. Ignored on a
    /// non-leader.
    pub fn handle_replication_ack(&mut self, peer: u64, matched: Option<LogId>, now: u64)
        requires
            old(self).wf(),
        ensures
            final(self).wf(),
            !(old(self).state is Leader) ==> *final(self) == *old(self),
            final(self).store.vote == old(self).store.vote,
            final(self).store.entries@ == old(self).store.entries@,
            final(self).state == old(self).state,
            final(self).leader == old(self).leader,
            final(self).members@ == old(self).members@,
            final(self).id == old(self).id,
            final(self).config == old(self).config,
            opt_log_id_le(old(self).committed, final(self).committed),
            // the peer's record is refreshed, every other record is untouched
            final(self).progress@.len() == old(self).progress@.len(),
            forall|i: int|
                0 <= i < old(self).progress@.len() ==> final(self).progress@[i] == (
                if old(self).progress@[i].peer == peer && old(self).state is Leader {
                    Progress {
                        peer,
                        matched: opt_id_max((#[trigger] old(self).progress@[i]).matched, matched),
                        next: old(self).progress@[i].next,
                        last_ack: Option::Some(now),
                    }
                } else {
                    old(self).progress@[i]
                }),
            // the new commit index obeys the commit rule and covers every
            // qualifying match point, judged on the refreshed records
            old(self).state is Leader ==> ({
                let mid = Engine { committed: old(self).committed, ..*final(self) };
                (final(self).committed == old(self).committed || (final(self).committed
                    matches Option::Some(m) && mid.commit_ok(m))) && (forall|i: int|
                    0 <= i < mid.progress@.len() ==> match (#[trigger] mid.progress@[i]).matched {
                        Option::Some(m) => mid.commit_ok(m) ==> opt_log_id_le(
                            Option::Some(m),
                            final(self).committed,
                        ),
                        Option::None => true,
                    })
            }),
    {
        let is_leader = match self.state {
            ServerState::Leader => true,
            _ => false,
        };
        if !is_leader {
            return ;
        }
        match self.find_progress(peer) {
            Option::Some(i) => {
                let p = self.progress[i];
                proof {
                    crate::vote::lemma_opt_log_id_le_total(p.matched, matched);
                }
                let new_matched = opt_id_max_exec(&p.matched, &matched);
                self.progress[i] = Progress {
                    peer,
                    matched: new_matched,
                    next: p.next,
                    last_ack: Option::Some(now),
                };
                proof {
                    assert(progress_peers(self.progress@) =~= progress_peers(
                        old(self).progress@,
                    ));
                    assert forall|j: int|
                        0 <= j < old(self).progress@.len() implies self.progress@[j] == (
                        if old(self).progress@[j].peer == peer {
                            Progress {
                                peer,
                                matched: opt_id_max(
                                    (#[trigger] old(self).progress@[j]).matched,
                                    matched,
                                ),
                                next: old(self).progress@[j].next,
                                last_ack: Option::Some(now),
                            }
                        } else {
                            old(self).progress@[j]
                        }) by {}
                }
            },
            Option::None => {},
        }
        let ghost mid = *self;
        self.try_advance_commit();
        proof {
            assert(mid == (Engine { committed: old(self).committed, ..*self }));
        }
    }

    /// Whether member `mem` is known to have acknowledged this leader at or
    /// after logical time `t`: the leader itself stands at `now`, a peer at
    /// its last recorded acknowledgement.
    pub open spec fn time_acked_at(self, mem: u64, now: u64, t: u64) -> bool {
        if mem == self.id {
            now >= t
        } else {
            exists|i: int|
                0 <= i < self.progress@.len() && (#[trigger] self.progress@[i]).peer == mem
                    && (self.progress@[i].last_ack matches Option::Some(a) && a >= t)
        }
    }

    /// Whether a strict majority acknowledged this leader at or after `t`:
    /// the quorum lease reaches back to `t`.
    pub open spec fn lease_ok(self, now: u64, t: u64) -> bool {
        2 * self.members@.filter(|mem: u64| self.time_acked_at(mem, now, t)).len()
            > self.members@.len()
    }

    /// Whether a strict majority acknowledged this leader at or after `t`.
    fn time_acked_majority(&self, now: u64, t: u64) -> (r: bool)
        requires
            self.wf(),
            self.state is Leader,
        ensures
            r == self.lease_ok(now, t),
    {
        let n = self.members.len();
        let mut count: usize = 0;
        let mut i: usize = 0;
        proof {
            assert(self.members@.take(0int).filter(|mem: u64| self.time_acked_at(mem, now, t))
                =~= Seq::<u64>::empty());
        }
        while i < n
            invariant
                i <= n,
                n == self.members@.len(),
                count == self.members@.take(i as int).filter(
                    |mem: u64| self.time_acked_at(mem, now, t),
                ).len(),
                count <= i,
                self.wf(),
                self.state is Leader,
            decreases n - i,
        {
            let mem = self.members[i];
            let acked: bool = if mem == self.id {
                now >= t
            } else {
                let fp = self.find_progress(mem);
                let a: bool = match fp {
                    Option::Some(pi) => match self.progress[pi].last_ack {
                        Option::Some(at) => at >= t,
                        Option::None => false,
                    },
                    Option::None => false,
                };
                proof {
                    if !a && self.time_acked_at(mem, now, t) {
                        let w = choose|w: int|
                            0 <= w < self.progress@.len() && (#[trigger] self.progress@[w]).peer
                                == mem && (self.progress@[w].last_ack matches Option::Some(at)
                                && at >= t);
                        match fp {
                            Option::Some(pi) => {
                                assert(w == pi);
                            },
                            Option::None => {},
                        }
                        assert(false);
                    }
                }
                a
            };
            proof {
                assert(acked == self.time_acked_at(mem, now, t));
                assert(self.members@.take(i + 1).drop_last() =~= self.members@.take(i as int));
                reveal_with_fuel(Seq::filter, 2);
                assert(self.members@.take(i + 1).last() == mem);
            }
            if acked {
                count += 1;
            }
            i += 1;
        }
        proof {
            assert(self.members@.take(n as int) =~= self.members@);
            crate::quorum::lemma_filter_len_le(
                self.members@,
                |mem: u64| self.time_acked_at(mem, now, t),
            );
        }
        count > n / 2
    }

    /// The most recent logical time acknowledged by a strict majority, the
    /// leader itself included: the quorum lease. Freshness comes only from
    /// `AppendEntries` acknowledgements; an old value suggests the leader may
    /// be partitioned. `None` on a non-leader or before a quorum of
    /// acknowledgements.
    pub fn last_quorum_acked(&self, now: u64) -> (r: Option<u64>)
        requires
            self.wf(),
        ensures
            !(self.state is Leader) ==> r is None,
            self.state is Leader ==> match r {
                Option::Some(t) => self.lease_ok(now, t) && (t == now || exists|i: int|
                    0 <= i < self.progress@.len() && (#[trigger] self.progress@[i]).last_ack
                        == Option::Some(t)) && (self.lease_ok(now, now) ==> t >= now) && (
                forall|i: int|
                    0 <= i < self.progress@.len() ==> match (#[trigger] self.progress@[
                        i
                    ]).last_ack {
                        Option::Some(a) => self.lease_ok(now, a) ==> t >= a,
                        Option::None => true,
                    }),
                Option::None => !self.lease_ok(now, now) && (forall|i: int|
                    0 <= i < self.progress@.len() ==> match (#[trigger] self.progress@[
                        i
                    ]).last_ack {
                        Option::Some(a) => !self.lease_ok(now, a),
                        Option::None => true,
                    }),
            },
    {
        let is_leader = match self.state {
            ServerState::Leader => true,
            _ => false,
        };
        if !is_leader {
            return Option::None;
        }
        let mut best: Option<u64> = Option::None;
        if self.time_acked_majority(now, now) {
            best = Option::Some(now);
        }
        let n = self.progress.len();
        let mut i: usize = 0;
        while i < n
            invariant
                i <= n,
                n == self.progress@.len(),
                self.wf(),
                self.state is Leader,
                match best {
                    Option::Some(t) => self.lease_ok(now, t) && (t == now || exists|j: int|
                        0 <= j < self.progress@.len() && (#[trigger] self.progress@[j]).last_ack
                            == Option::Some(t)) && (self.lease_ok(now, now) ==> t >= now),
                    Option::None => !self.lease_ok(now, now),
                },
                forall|j: int|
                    0 <= j < i ==> match (#[trigger] self.progress@[j]).last_ack {
                        Option::Some(a) => self.lease_ok(now, a) ==> (best matches Option::Some(t)
                            && t >= a),
                        Option::None => true,
                    },
            decreases n - i,
        {
            match self.progress[i].last_ack {
                Option::Some(a) => {
                    let better: bool = match best {
                        Option::Some(t) => a > t,
                        Option::None => true,
                    };
                    if better {
                        if self.time_acked_majority(now, a) {
                            best = Option::Some(a);
                        }
                    }
                },
                Option::None => {},
            }
            i += 1;
        }
        best
    }

    /// A snapshot of this node's externally visible state at logical time
    /// `now`, as published to the applier and to observers.
    pub fn metrics(&self, now: u64) -> (m: Metrics)
        requires
            self.wf(),
        ensures
            m.running_state == Ok::<(), crate::metrics::Fatal>(()),
            m.id == self.id,
            m.vote == self.store.vote,
            m.committed == self.committed,
            m.server_state == self.state,
            m.current_leader == self.leader,
            !(self.state is Leader) ==> m.last_quorum_acked is None && m.heartbeat is None,
            self.state is Leader ==> (m.heartbeat matches Option::Some(hb) && hb@
                == self.progress@.map_values(|p: Progress| (p.peer, p.last_ack))),
    {
        let lease = self.last_quorum_acked(now);
        let heartbeat: Option<Vec<(u64, Option<u64>)>> = match self.state {
            ServerState::Leader => {
                let n = self.progress.len();
                let mut hb: Vec<(u64, Option<u64>)> = Vec::new();
                let mut i: usize = 0;
                while i < n
                    invariant
                        i <= n,
                        n == self.progress@.len(),
                        hb@ == self.progress@.take(i as int).map_values(
                            |p: Progress| (p.peer, p.last_ack),
                        ),
                    decreases n - i,
                {
                    let p = self.progress[i];
                    hb.push((p.peer, p.last_ack));
                    proof {
                        assert(self.progress@.take(i + 1).drop_last() =~= self.progress@.take(
                            i as int,
                        ));
                        assert(self.progress@.take(i + 1).map_values(
                            |p: Progress| (p.peer, p.last_ack),
                        ).drop_last() =~= self.progress@.take(i + 1).drop_last().map_values(
                            |p: Progress| (p.peer, p.last_ack),
                        ));
                        assert(hb@ =~= self.progress@.take(i + 1).map_values(
                            |p: Progress| (p.peer, p.last_ack),
                        ));
                    }
                    i += 1;
                }
                proof {
                    assert(self.progress@.take(n as int) =~= self.progress@);
                }
                Option::Some(hb)
            },
            _ => Option::None,
        };
        Metrics {
            running_state: Ok(()),
            id: self.id,
            vote: self.store.read_vote(),
            committed: self.committed,
            server_state: self.state,
            current_leader: self.leader,
            last_quorum_acked: lease,
            heartbeat,
        }
    }

    /// Reconciles accepted entries into the log at `base`: skips the ones
    /// already present, truncates the local suffix at the first conflict and
    /// appends the remainder. Changes nothing else.
    fn reconcile(&mut self, base: u64, entries: Vec<Entry<C>>)
        requires
            old(self).wf(),
            base <= old(self).store.entries@.len(),
            forall|j: int|
                0 <= j < entries@.len() ==> (#[trigger] entries@[j]).log_id.index == base + j,
            forall|i: int, j: int|
                0 <= i < j < entries@.len() ==> entries@[i].log_id.term
                    <= entries@[j].log_id.term,
            base > 0 && entries@.len() > 0 ==> old(self).store.entries@[base - 1].log_id.term
                <= entries@[0].log_id.term,
            forall|j: int|
                0 <= j < entries@.len() ==> (#[trigger] entries@[j]).log_id.term <= old(
                    self,
                ).current_term(),
        ensures
            final(self).wf(),
            final(self).store.entries@ == Self::merge_entries(
                old(self).store.entries@,
                base as int,
                entries@,
            ),
            final(self).store.entries@.take(base as int) == old(self).store.entries@.take(
                base as int,
            ),
            final(self).store.vote == old(self).store.vote,
            final(self).store.members@ == old(self).store.members@,
            final(self).committed == old(self).committed,
            final(self).state == old(self).state,
            final(self).leader == old(self).leader,
            final(self).granted@ == old(self).granted@,
            final(self).progress == old(self).progress,
            final(self).members@ == old(self).members@,
            final(self).id == old(self).id,
            final(self).config == old(self).config,
    {
        let ghost log0 = self.store.entries@;
        let ghost entsv = entries@;
        // skip the entries the log already holds
        let n = entries.len();
        let total = self.store.entries.len();
        proof {
            assert(base <= total as u64);
        }
        let base_us: usize = base as usize;
        let mut k: usize = 0;
        let mut pos: usize = base_us;
        while k < n
            invariant_except_break
                k <= n,
                pos == base_us + k,
                base_us == base,
                n == entsv.len(),
                entsv == entries@,
                self.store.entries@ == log0,
                k > 0 ==> base + k <= log0.len(),
                forall|j: int|
                    0 <= j < k ==> (#[trigger] entsv[j]).log_id == log0[base + j].log_id,
            ensures
                k <= n,
                pos == base_us + k,
                self.store.entries@ == log0,
                entsv == entries@,
                k > 0 ==> base + k <= log0.len(),
                forall|j: int|
                    0 <= j < k ==> (#[trigger] entsv[j]).log_id == log0[base + j].log_id,
                k < n ==> !(base + k < log0.len() && entsv[k as int].log_id == log0[
                    base + k
                ].log_id),
            decreases n - k,
        {
            if pos >= self.store.entries.len() {
                break;
            }
            let same = entries[k].log_id == self.store.entries[pos].log_id;
            if !same {
                break;
            }
            k += 1;
            pos += 1;
        }
        proof {
            Self::lemma_merge_cut(log0, base as int, entsv, k as int);
        }
        if k < n {
            proof {
                // the cut position is a valid index, so the sum fits
                assert(entsv[k as int].log_id.index == base + k);
                assert(base + k <= log0.len());
            }
            // first conflict at k: cut the log there and append the rest
            self.store.truncate_from(base + k as u64);
            proof {
                if base + k == log0.len() {
                    assert(log0.take(base + k as int) =~= log0);
                }
                assert(self.store.entries@ == log0.take(base + k as int));
            }
            let mut ents = entries;
            let mut tail = ents.split_off(k);
            proof {
                assert(tail@ =~= entsv.skip(k as int));
                // the tail continues the cut log: contiguous indexes
                assert forall|j: int|
                    0 <= j < tail@.len() implies (#[trigger] tail@[j]).log_id.index
                    == self.store.entries@.len() + j by {
                    assert(tail@[j] == entsv[k + j]);
                }
                // and a first term no lower than the last kept entry's
                if self.store.entries@.len() > 0 && tail@.len() > 0 {
                    let cut = base + k as int;
                    if k > 0 {
                        assert(log0[cut - 1].log_id == entsv[k - 1].log_id);
                        assert(entsv[k - 1].log_id.term <= entsv[k as int].log_id.term);
                    }
                    assert(self.store.entries@.last().log_id.term <= tail@[0].log_id.term);
                }
            }
            self.store.append_all(&mut tail);
            proof {
                assert(self.store.entries@ == log0.take(base + k as int) + entsv.skip(k as int));
                assert(self.store.entries@.take(base as int) =~= log0.take(base as int));
                let cur = self.store.entries@;
                assert forall|i: int|
                    0 <= i < cur.len() implies (#[trigger] cur[i]).log_id.term
                    <= self.store.vote_term() by {
                    if i < base + k {
                        assert(cur[i] == log0[i]);
                    } else {
                        assert(cur[i] == entsv[k + (i - (base + k as int))]);
                    }
                }
            }
        } else {
            proof {
                assert(self.store.entries@.take(base as int) =~= log0.take(base as int));
            }
        }
    }

    /// Checks [`Self::req_shape_ok`] on the wire request.
    fn entries_shaped(req: &AppendRequest<C>) -> (r: bool)
        ensures
            r == Self::req_shape_ok(*req),
    {
        let n = req.entries.len();
        let base: u64 = match &req.prev_log_id {
            Option::None => 0,
            Option::Some(p) => {
                if p.index == u64::MAX {
                    // no entry can sit above the largest index
                    return n == 0;
                }
                p.index + 1
            },
        };
        // the first entry may not fall below the previous entry's term
        if n > 0 {
            if let Option::Some(p) = &req.prev_log_id {
                if p.term > req.entries[0].log_id.term {
                    return false;
                }
            }
        }
        let mut j: usize = 0;
        let mut want: u64 = base;
        while j < n
            invariant
                j <= n,
                n == req.entries@.len(),
                base == Self::ae_base(req.prev_log_id),
                j < n ==> want == base + j,
                forall|i: int|
                    0 <= i < j ==> (#[trigger] req.entries@[i]).log_id.index == base + i,
                forall|a: int, b: int|
                    0 <= a < b < j ==> req.entries@[a].log_id.term <= req.entries@[b].log_id.term,
                forall|i: int|
                    0 <= i < j ==> (#[trigger] req.entries@[i]).log_id.term <= req.vote.term,
            decreases n - j,
        {
            let e_id = req.entries[j].log_id;
            if e_id.index != want {
                return false;
            }
            if e_id.term > req.vote.term {
                return false;
            }
            if j > 0 {
                if req.entries[j - 1].log_id.term > e_id.term {
                    return false;
                }
                proof {
                    assert forall|a: int, b: int|
                        0 <= a < b < j + 1 implies req.entries@[a].log_id.term
                        <= req.entries@[b].log_id.term by {
                        if b == j {
                            assert(req.entries@[a].log_id.term <= req.entries@[j - 1].log_id.term);
                        }
                    }
                }
            }
            j += 1;
            if j < n {
                if want == u64::MAX {
                    // the next entry would need an index above the largest
                    proof {
                        assert(req.entries@[j as int].log_id.index <= u64::MAX < base + j);
                    }
                    return false;
                }
                want += 1;
            }
        }
        true
    }
}

} // verus!
