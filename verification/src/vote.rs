//! Identifiers and orderings at the bottom of the protocol: terms, log
//! positions and votes, each with a total order that the engine's rules are
//! stated over.

use vstd::prelude::*;

verus! {

/// Position of an entry in the replicated log: the term in which it was
/// created and its index. Ordered lexicographically on (term, index).
#[derive(Clone, Copy, Debug, PartialEq, Eq, Structural)]
pub struct LogId {
    pub term: u64,
    pub index: u64,
}

impl LogId {
    /// Strict lexicographic order on (term, index).
    pub open spec fn lt_spec(a: LogId, b: LogId) -> bool {
        a.term < b.term || (a.term == b.term && a.index < b.index)
    }

    pub open spec fn le_spec(a: LogId, b: LogId) -> bool {
        LogId::lt_spec(a, b) || a == b
    }

    pub fn lt(&self, other: &LogId) -> (r: bool)
        ensures
            r == LogId::lt_spec(*self, *other),
    {
        self.term < other.term || (self.term == other.term && self.index < other.index)
    }

    pub fn le(&self, other: &LogId) -> (r: bool)
        ensures
            r == LogId::le_spec(*self, *other),
    {
        self.term < other.term || (self.term == other.term && self.index <= other.index)
    }
}

/// Order on optional log ids: `None` stands strictly below every `Some`.
pub open spec fn opt_log_id_le(a: Option<LogId>, b: Option<LogId>) -> bool {
    match (a, b) {
        (Option::None, _) => true,
        (Option::Some(_), Option::None) => false,
        (Option::Some(x), Option::Some(y)) => LogId::le_spec(x, y),
    }
}

pub open spec fn opt_log_id_lt(a: Option<LogId>, b: Option<LogId>) -> bool {
    opt_log_id_le(a, b) && a != b
}

pub fn opt_log_id_le_exec(a: &Option<LogId>, b: &Option<LogId>) -> (r: bool)
    ensures
        r == opt_log_id_le(*a, *b),
{
    match a {
        Option::None => true,
        Option::Some(x) => match b {
            Option::None => false,
            Option::Some(y) => x.le(y),
        },
    }
}

/// The durable authorization a node has issued: the election epoch, the node
/// voted for, and whether that vote has been acknowledged by a quorum (the
/// voted-for node is an established leader).
///
/// Ordered lexicographically on (term, committed, voted_for), with
/// `false < true`: within one term an established leader outranks every
/// uncommitted candidate vote.
#[derive(Clone, Copy, Debug, PartialEq, Eq, Structural)]
pub struct Vote {
    pub term: u64,
    pub voted_for: u64,
    pub committed: bool,
}

impl Vote {
    pub open spec fn lt_spec(a: Vote, b: Vote) -> bool {
        a.term < b.term
        || (a.term == b.term && !a.committed && b.committed)
        || (a.term == b.term && a.committed == b.committed && a.voted_for < b.voted_for)
    }

    pub open spec fn le_spec(a: Vote, b: Vote) -> bool {
        Vote::lt_spec(a, b) || a == b
    }

    pub fn lt(&self, other: &Vote) -> (r: bool)
        ensures
            r == Vote::lt_spec(*self, *other),
    {
        self.term < other.term
        || (self.term == other.term && !self.committed && other.committed)
        || (self.term == other.term && self.committed == other.committed
            && self.voted_for < other.voted_for)
    }

    pub fn le(&self, other: &Vote) -> (r: bool)
        ensures
            r == Vote::le_spec(*self, *other),
    {
        self.lt(other) || (self.term == other.term && self.committed == other.committed
            && self.voted_for == other.voted_for)
    }
}

/// Order on optional votes: a node that has voted outranks one that has not.
pub open spec fn opt_vote_le(a: Option<Vote>, b: Option<Vote>) -> bool {
    match (a, b) {
        (Option::None, _) => true,
        (Option::Some(_), Option::None) => false,
        (Option::Some(x), Option::Some(y)) => Vote::le_spec(x, y),
    }
}

pub open spec fn opt_vote_lt(a: Option<Vote>, b: Option<Vote>) -> bool {
    opt_vote_le(a, b) && a != b
}

pub fn opt_vote_lt_exec(a: &Option<Vote>, b: &Option<Vote>) -> (r: bool)
    ensures
        r == opt_vote_lt(*a, *b),
{
    match a {
        Option::None => match b {
            Option::None => false,
            Option::Some(_) => true,
        },
        Option::Some(x) => match b {
            Option::None => false,
            Option::Some(y) => x.lt(y),
        },
    }
}

/// The smaller of two optional log ids.
pub open spec fn opt_id_min(a: Option<LogId>, b: Option<LogId>) -> Option<LogId> {
    if opt_log_id_le(a, b) {
        a
    } else {
        b
    }
}

/// The larger of two optional log ids.
pub open spec fn opt_id_max(a: Option<LogId>, b: Option<LogId>) -> Option<LogId> {
    if opt_log_id_le(a, b) {
        b
    } else {
        a
    }
}

pub fn opt_id_min_exec(a: &Option<LogId>, b: &Option<LogId>) -> (r: Option<LogId>)
    ensures
        r == opt_id_min(*a, *b),
{
    if opt_log_id_le_exec(a, b) {
        *a
    } else {
        *b
    }
}

pub fn opt_id_max_exec(a: &Option<LogId>, b: &Option<LogId>) -> (r: Option<LogId>)
    ensures
        r == opt_id_max(*a, *b),
{
    if opt_log_id_le_exec(a, b) {
        *b
    } else {
        *a
    }
}

/// The order on optional log ids decides every pair.
pub proof fn lemma_opt_log_id_le_total(a: Option<LogId>, b: Option<LogId>)
    ensures
        opt_log_id_le(a, b) || opt_log_id_le(b, a),
{
}

/// The vote order decides every pair: two votes are comparable, and equal
/// only when they are the same triple.
pub proof fn lemma_vote_order_total(a: Vote, b: Vote)
    ensures
        Vote::lt_spec(a, b) || Vote::lt_spec(b, a) || a == b,
        !(Vote::lt_spec(a, b) && Vote::lt_spec(b, a)),
{
}

/// The order on optional votes decides every pair.
pub proof fn lemma_opt_vote_total(a: Option<Vote>, b: Option<Vote>)
    ensures
        opt_vote_lt(a, b) || opt_vote_lt(b, a) || a == b,
{
}

pub proof fn lemma_vote_le_trans(a: Vote, b: Vote, c: Vote)
    requires
        Vote::le_spec(a, b),
        Vote::le_spec(b, c),
    ensures
        Vote::le_spec(a, c),
{
}

/// Transitivity of the order on optional votes; with the per-step
/// monotonicity each engine function ensures, a node's stored vote never
/// decreases over any run.
pub proof fn lemma_opt_vote_le_trans(a: Option<Vote>, b: Option<Vote>, c: Option<Vote>)
    requires
        opt_vote_le(a, b),
        opt_vote_le(b, c),
    ensures
        opt_vote_le(a, c),
{
}

pub proof fn lemma_log_id_le_trans(a: LogId, b: LogId, c: LogId)
    requires
        LogId::le_spec(a, b),
        LogId::le_spec(b, c),
    ensures
        LogId::le_spec(a, c),
{
}

/// Transitivity of the order on optional log ids; with the per-step
/// monotonicity each engine function ensures, a node's committed log id
/// never retreats over any run.
pub proof fn lemma_opt_log_id_le_trans(a: Option<LogId>, b: Option<LogId>, c: Option<LogId>)
    requires
        opt_log_id_le(a, b),
        opt_log_id_le(b, c),
    ensures
        opt_log_id_le(a, c),
{
}

} // verus!
