//! Log matching. A run of the protocol creates the entry at each (term,
//! index) at most once: a term has at most one leader (see
//! [`crate::quorum::lemma_election_safety`]), and a leader creates the entry
//! at each index once, extending its own log. The entry standing immediately
//! before a created entry is therefore a function of the entry's id, and a
//! whole history is summarized by that ancestry map. Every log the protocol
//! builds — leaders append to their own log, followers accept entries only
//! after the consistency check on `prev_log_id` — is chained through it.

use vstd::prelude::*;

use crate::vote::LogId;

verus! {

/// Whether `log` is a chain of the history `anc`: entry `i` sits at index
/// `i`, and each entry's recorded predecessor is the entry before it.
pub open spec fn chained(log: Seq<LogId>, anc: Map<LogId, Option<LogId>>) -> bool {
    (forall|i: int| 0 <= i < log.len() ==> (#[trigger] log[i]).index == i)
    && (forall|i: int| 0 <= i < log.len() ==> anc.dom().contains(#[trigger] log[i]))
    && (forall|i: int| 1 <= i < log.len() ==> anc[#[trigger] log[i]] == Option::Some(log[i - 1]))
}

/// Log prefix agreement: if two logs of one history agree at a position —
/// the same term at the same index is the same id — they are identical from
/// the start up to that position. Each id pins its predecessor, so agreement
/// walks down the whole prefix.
pub proof fn lemma_prefix_agreement(
    anc: Map<LogId, Option<LogId>>,
    log1: Seq<LogId>,
    log2: Seq<LogId>,
    i: int,
)
    requires
        chained(log1, anc),
        chained(log2, anc),
        0 <= i < log1.len(),
        i < log2.len(),
        log1[i] == log2[i],
    ensures
        forall|j: int| 0 <= j <= i ==> log1[j] == log2[j],
    decreases i,
{
    if i > 0 {
        assert(anc[log1[i]] == Option::Some(log1[i - 1]));
        assert(anc[log2[i]] == Option::Some(log2[i - 1]));
        lemma_prefix_agreement(anc, log1, log2, i - 1);
    }
}

/// The log comparison behind leader completeness: a candidate whose log
/// holds a voter's last entry holds the voter's whole log as a prefix — in
/// particular every entry committed on a quorum that the voter belongs to.
pub proof fn lemma_holds_last_holds_all(
    anc: Map<LogId, Option<LogId>>,
    voter: Seq<LogId>,
    cand: Seq<LogId>,
)
    requires
        chained(voter, anc),
        chained(cand, anc),
        voter.len() > 0,
        cand.contains(voter.last()),
    ensures
        voter.len() <= cand.len(),
        forall|j: int| 0 <= j < voter.len() ==> cand[j] == voter[j],
{
    let k = choose|k: int| 0 <= k < cand.len() && cand[k] == voter.last();
    assert(cand[k].index == k);
    assert(voter.last().index == voter.len() - 1);
    lemma_prefix_agreement(anc, voter, cand, voter.len() - 1);
}

} // verus!
