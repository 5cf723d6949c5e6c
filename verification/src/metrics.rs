//! The observation channel of a node: a snapshot of its externally visible
//! state, published on every observable change. The applier and the tests
//! watch these snapshots; missing an intermediate value is acceptable
//! because every field is monotone or a latest-value.

use vstd::prelude::*;

use crate::vote::LogId;
use crate::vote::Vote;

verus! {

use vstd::string::StringExecFns;

/// The role a node is in.
#[derive(Clone, Copy, Debug, PartialEq, Eq, Structural)]
pub enum ServerState {
    Follower,
    Candidate,
    Leader,
}

/// Unrecoverable conditions. A fatal error poisons the node: it is recorded
/// in the metrics' `running_state` and the engine stops accepting work.
#[derive(Clone, Copy, Debug, PartialEq, Eq, Structural)]
pub enum Fatal {
    /// A durable write failed.
    StorageFailure,
    /// An internal invariant was observed broken.
    InvariantViolation,
    /// The node was shut down.
    Stopped,
}

/// A metric entry of a node, used to specify which metric to observe.
#[derive(Clone, Copy, Debug, PartialEq, Eq, Structural)]
pub enum Metric {
    Term(u64),
    Vote(Option<Vote>),
    LastLogIndex(Option<u64>),
}

/// A set of metrics describing the current state of a node.
#[derive(Debug)]
pub struct Metrics {
    /// `Err` once the node hit a fatal error.
    pub running_state: Result<(), Fatal>,
    /// The id of this node.
    pub id: u64,
    /// The last flushed vote.
    pub vote: Option<Vote>,
    /// The last committed log id.
    pub committed: Option<LogId>,
    /// The role of this node.
    pub server_state: ServerState,
    /// The current cluster leader, as far as this node knows.
    pub current_leader: Option<u64>,
    /// For a leader: the most recent logical time acknowledged by a quorum
    /// through `AppendEntries` replies carrying its committed vote; `None`
    /// on non-leaders and before the first quorum of acknowledgements.
    /// `RequestVote` replies never count.
    pub last_quorum_acked: Option<u64>,
    /// For a leader: per peer, the logical time of the last acknowledged
    /// heartbeat or replication, if any came yet; `None` on non-leaders.
    pub heartbeat: Option<Vec<(u64, Option<u64>)>>,
}

/// The decimal digit characters of `n`, most significant first.
pub open spec fn dec_str(n: nat) -> Seq<char>
    decreases n,
{
    if n < 10 {
        seq![digit_char(n)]
    } else {
        dec_str(n / 10).push(digit_char(n % 10))
    }
}

/// The character of one decimal digit.
pub open spec fn digit_char(d: nat) -> char {
    if d == 0 {
        '0'
    } else if d == 1 {
        '1'
    } else if d == 2 {
        '2'
    } else if d == 3 {
        '3'
    } else if d == 4 {
        '4'
    } else if d == 5 {
        '5'
    } else if d == 6 {
        '6'
    } else if d == 7 {
        '7'
    } else if d == 8 {
        '8'
    } else {
        '9'
    }
}

/// Appends the decimal rendering of `n`.
fn push_dec(out: &mut String, n: u64)
    ensures
        final(out)@ == old(out)@ + dec_str(n as nat),
    decreases n,
{
    if n >= 10 {
        push_dec(out, n / 10);
    }
    let d = n % 10;
    proof {
        reveal_strlit("0");
        reveal_strlit("1");
        reveal_strlit("2");
        reveal_strlit("3");
        reveal_strlit("4");
        reveal_strlit("5");
        reveal_strlit("6");
        reveal_strlit("7");
        reveal_strlit("8");
        reveal_strlit("9");
    }
    if d == 0 {
        out.append("0");
    } else if d == 1 {
        out.append("1");
    } else if d == 2 {
        out.append("2");
    } else if d == 3 {
        out.append("3");
    } else if d == 4 {
        out.append("4");
    } else if d == 5 {
        out.append("5");
    } else if d == 6 {
        out.append("6");
    } else if d == 7 {
        out.append("7");
    } else if d == 8 {
        out.append("8");
    } else {
        out.append("9");
    }
    proof {
        if n >= 10 {
            assert(dec_str(n as nat) == dec_str(n as nat / 10).push(digit_char(n as nat % 10)));
            assert(dec_str(n as nat / 10) + seq![digit_char(n as nat % 10)] =~= dec_str(n as nat));
        } else {
            assert(Seq::<char>::empty() + seq![digit_char(n as nat)] =~= dec_str(n as nat));
        }
    }
}

/// The decimal rendering of `n`.
pub fn u64_to_dec(n: u64) -> (s: String)
    ensures
        s@ == dec_str(n as nat),
{
    let mut s = String::new();
    push_dec(&mut s, n);
    proof {
        assert(Seq::<char>::empty() + dec_str(n as nat) =~= dec_str(n as nat));
    }
    s
}

/// The textual rendering of an optional vote: term, voted-for node and
/// commitment, or `None`.
pub open spec fn vote_str(v: Option<Vote>) -> Seq<char> {
    match v {
        Option::None => "None"@,
        Option::Some(v) => dec_str(v.term as nat) + "-"@ + dec_str(v.voted_for as nat) + (
        if v.committed {
            "-committed"@
        } else {
            "-uncommitted"@
        }),
    }
}

impl Metric {
    /// The name of the metric this entry observes.
    pub fn name(&self) -> (r: &'static str)
        ensures
            r@ == match *self {
                Metric::Term(_) => "term"@,
                Metric::Vote(_) => "vote"@,
                Metric::LastLogIndex(_) => "last_log_index"@,
            },
    {
        match self {
            Metric::Term(_) => "term",
            Metric::Vote(_) => "vote",
            Metric::LastLogIndex(_) => "last_log_index",
        }
    }

    /// The textual rendering of the carried value.
    pub fn value(&self) -> (r: String)
        ensures
            r@ == match *self {
                Metric::Term(v) => dec_str(v as nat),
                Metric::Vote(v) => vote_str(v),
                Metric::LastLogIndex(v) => match v {
                    Option::Some(i) => dec_str(i as nat),
                    Option::None => "None"@,
                },
            },
    {
        match self {
            Metric::Term(v) => u64_to_dec(*v),
            Metric::Vote(v) => match v {
                Option::None => "None".to_owned(),
                Option::Some(v) => {
                    let mut s = u64_to_dec(v.term);
                    s.append("-");
                    push_dec(&mut s, v.voted_for);
                    if v.committed {
                        s.append("-committed");
                    } else {
                        s.append("-uncommitted");
                    }
                    s
                },
            },
            Metric::LastLogIndex(v) => match v {
                Option::Some(i) => u64_to_dec(*i),
                Option::None => "None".to_owned(),
            },
        }
    }
}

/// The term a vote carries, if any.
pub open spec fn term_of(v: Option<Vote>) -> Option<u64> {
    match v {
        Option::Some(w) => Option::Some(w.term),
        Option::None => Option::None,
    }
}

/// The index a log id carries, if any.
pub open spec fn index_of(v: Option<LogId>) -> Option<u64> {
    match v {
        Option::Some(c) => Option::Some(c.index),
        Option::None => Option::None,
    }
}

/// Order on optional numbers, `None` below every `Some`.
pub open spec fn opt_u64_lt(a: Option<u64>, b: Option<u64>) -> bool {
    match (a, b) {
        (Option::None, Option::Some(_)) => true,
        (Option::Some(x), Option::Some(y)) => x < y,
        _ => false,
    }
}

/// Textual rendering of an optional number.
pub open spec fn opt_u64_str(v: Option<u64>) -> Seq<char> {
    match v {
        Option::None => "None"@,
        Option::Some(x) => dec_str(x as nat),
    }
}

/// Textual rendering of an optional log id, as term-index.
pub open spec fn opt_id_str(v: Option<LogId>) -> Seq<char> {
    match v {
        Option::None => "None"@,
        Option::Some(c) => dec_str(c.term as nat) + "-"@ + dec_str(c.index as nat),
    }
}

/// The name of a role.
pub open spec fn state_str(s: ServerState) -> Seq<char> {
    match s {
        ServerState::Follower => "Follower"@,
        ServerState::Candidate => "Candidate"@,
        ServerState::Leader => "Leader"@,
    }
}

/// One peer's heartbeat record, rendered.
pub open spec fn hb_item_str(p: (u64, Option<u64>)) -> Seq<char> {
    dec_str(p.0 as nat) + ":"@ + opt_u64_str(p.1) + ";"@
}

/// A heartbeat table, rendered in order.
pub open spec fn hb_str(s: Seq<(u64, Option<u64>)>) -> Seq<char>
    decreases s.len(),
{
    if s.len() == 0 {
        Seq::empty()
    } else {
        hb_str(s.drop_last()) + hb_item_str(s.last())
    }
}

/// Appends the rendering of an optional number.
fn push_opt_u64(out: &mut String, v: &Option<u64>)
    ensures
        final(out)@ == old(out)@ + opt_u64_str(*v),
{
    match v {
        Option::None => out.append("None"),
        Option::Some(x) => push_dec(out, *x),
    }
}

/// Appends the rendering of an optional log id.
fn push_opt_id(out: &mut String, v: &Option<LogId>)
    ensures
        final(out)@ == old(out)@ + opt_id_str(*v),
{
    match v {
        Option::None => out.append("None"),
        Option::Some(c) => {
            push_dec(out, c.term);
            out.append("-");
            push_dec(out, c.index);
        },
    }
}

/// Appends the rendering of an optional vote.
fn push_opt_vote(out: &mut String, v: &Option<Vote>)
    ensures
        final(out)@ == old(out)@ + vote_str(*v),
{
    match v {
        Option::None => out.append("None"),
        Option::Some(w) => {
            push_dec(out, w.term);
            out.append("-");
            push_dec(out, w.voted_for);
            if w.committed {
                out.append("-committed");
            } else {
                out.append("-uncommitted");
            }
        },
    }
}

fn cmp_opt_u64(a: Option<u64>, b: Option<u64>) -> (r: core::cmp::Ordering)
    ensures
        r is Equal <==> a == b,
        r is Less <==> opt_u64_lt(a, b),
{
    match (a, b) {
        (Option::None, Option::None) => core::cmp::Ordering::Equal,
        (Option::None, Option::Some(_)) => core::cmp::Ordering::Less,
        (Option::Some(_), Option::None) => core::cmp::Ordering::Greater,
        (Option::Some(x), Option::Some(y)) => {
            if x < y {
                core::cmp::Ordering::Less
            } else if x == y {
                core::cmp::Ordering::Equal
            } else {
                core::cmp::Ordering::Greater
            }
        },
    }
}

impl Metrics {
    /// The metrics of a node that has just started: a follower with nothing
    /// voted, committed, led or acknowledged.
    pub fn new_initial(id: u64) -> (m: Metrics)
        ensures
            m.running_state == Ok::<(), Fatal>(()),
            m.id == id,
            m.vote is None,
            m.committed is None,
            m.server_state is Follower,
            m.current_leader is None,
            m.last_quorum_acked is None,
            m.heartbeat is None,
    {
        Metrics {
            running_state: Ok(()),
            id,
            vote: Option::None,
            committed: Option::None,
            server_state: ServerState::Follower,
            current_leader: Option::None,
            last_quorum_acked: Option::None,
            heartbeat: Option::None,
        }
    }

    /// One-line textual rendering of the snapshot, for logs and operators.
    /// Spells out the id, role, vote, last committed id, best-known leader,
    /// quorum-acknowledged time and per-peer heartbeat times.
    pub fn describe(&self) -> (r: String)
        ensures
            r@ == "Metrics{id:"@ + dec_str(self.id as nat) + ", "@ + state_str(self.server_state)
                + ", vote:"@ + vote_str(self.vote) + ", last_log:"@ + opt_id_str(self.committed)
                + ", leader:"@ + opt_u64_str(self.current_leader) + ", quorum_acked:"@
                + opt_u64_str(self.last_quorum_acked) + ", heartbeat:{"@ + (
            match self.heartbeat {
                Option::Some(hb) => hb_str(hb@),
                Option::None => Seq::<char>::empty(),
            }) + "}}"@,
    {
        let mut s = "Metrics{id:".to_owned();
        push_dec(&mut s, self.id);
        s.append(", ");
        match self.server_state {
            ServerState::Follower => s.append("Follower"),
            ServerState::Candidate => s.append("Candidate"),
            ServerState::Leader => s.append("Leader"),
        }
        s.append(", vote:");
        push_opt_vote(&mut s, &self.vote);
        s.append(", last_log:");
        push_opt_id(&mut s, &self.committed);
        s.append(", leader:");
        push_opt_u64(&mut s, &self.current_leader);
        s.append(", quorum_acked:");
        push_opt_u64(&mut s, &self.last_quorum_acked);
        s.append(", heartbeat:{");
        match &self.heartbeat {
            Option::Some(hb) => {
                let ghost pre = s@;
                let n = hb.len();
                let mut i: usize = 0;
                proof {
                    assert(hb@.take(0int) =~= Seq::<(u64, Option<u64>)>::empty());
                }
                while i < n
                    invariant
                        i <= n,
                        n == hb@.len(),
                        s@ == pre + hb_str(hb@.take(i as int)),
                    decreases n - i,
                {
                    let (peer, at) = hb[i];
                    push_dec(&mut s, peer);
                    s.append(":");
                    push_opt_u64(&mut s, &at);
                    s.append(";");
                    proof {
                        assert(hb@.take(i + 1).drop_last() =~= hb@.take(i as int));
                        assert(hb@.take(i + 1).last() == hb@[i as int]);
                    }
                    i += 1;
                }
                proof {
                    assert(hb@.take(n as int) =~= hb@);
                }
            },
            Option::None => {},
        }
        s.append("}}");
        s
    }

    /// Orders the field of this snapshot that `other` names against the
    /// carried value: how far the node's term, vote or last committed index
    /// has come relative to a waited-for threshold. Replaces ordering
    /// between a snapshot and a [`Metric`].
    pub fn metric_cmp(&self, other: &Metric) -> (r: core::cmp::Ordering)
        ensures
            r is Equal <==> match *other {
                Metric::Term(v) => term_of(self.vote) == Option::Some(v),
                Metric::Vote(v) => self.vote == v,
                Metric::LastLogIndex(v) => index_of(self.committed) == v,
            },
            r is Less <==> match *other {
                Metric::Term(v) => opt_u64_lt(term_of(self.vote), Option::Some(v)),
                Metric::Vote(v) => crate::vote::opt_vote_lt(self.vote, v),
                Metric::LastLogIndex(v) => opt_u64_lt(index_of(self.committed), v),
            },
    {
        match other {
            Metric::Term(v) => cmp_opt_u64(
                match &self.vote {
                    Option::Some(w) => Option::Some(w.term),
                    Option::None => Option::None,
                },
                Option::Some(*v),
            ),
            Metric::Vote(v) => {
                if crate::vote::opt_vote_lt_exec(&self.vote, v) {
                    core::cmp::Ordering::Less
                } else if crate::vote::opt_vote_lt_exec(v, &self.vote) {
                    core::cmp::Ordering::Greater
                } else {
                    proof {
                        crate::vote::lemma_opt_vote_total(self.vote, *v);
                    }
                    core::cmp::Ordering::Equal
                }
            },
            Metric::LastLogIndex(v) => cmp_opt_u64(
                match &self.committed {
                    Option::Some(c) => Option::Some(c.index),
                    Option::None => Option::None,
                },
                *v,
            ),
        }
    }

    /// Whether the field of this snapshot that `other` names equals the
    /// carried value. Replaces equality between a snapshot and a [`Metric`].
    pub fn metric_eq(&self, other: &Metric) -> (r: bool)
        ensures
            r == match *other {
                Metric::Term(v) => self.vote matches Option::Some(w) && w.term == v,
                Metric::Vote(v) => self.vote == v,
                Metric::LastLogIndex(v) => match (self.committed, v) {
                    (Option::None, Option::None) => true,
                    (Option::Some(c), Option::Some(i)) => c.index == i,
                    _ => false,
                },
            },
    {
        match other {
            Metric::Term(v) => match &self.vote {
                Option::Some(w) => w.term == *v,
                Option::None => false,
            },
            Metric::Vote(v) => match (&self.vote, v) {
                (Option::None, Option::None) => true,
                (Option::Some(a), Option::Some(b)) => a.term == b.term && a.voted_for
                    == b.voted_for && a.committed == b.committed,
                _ => false,
            },
            Metric::LastLogIndex(v) => match (&self.committed, v) {
                (Option::None, Option::None) => true,
                (Option::Some(c), Option::Some(i)) => c.index == *i,
                _ => false,
            },
        }
    }
}

} // verus!
