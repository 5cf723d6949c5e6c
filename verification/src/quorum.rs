//! Quorums over the fixed membership: the strict-majority test the engine
//! uses to win elections and to advance the commit index, and the
//! intersection argument behind election safety.

use vstd::prelude::*;

verus! {

use vstd::set_lib::lemma_len_subset;
use vstd::set_lib::lemma_set_disjoint_lens;

/// A strict majority of the membership.
pub open spec fn is_quorum(q: Set<u64>, members: Set<u64>) -> bool {
    q.subset_of(members) && q.finite() && members.finite() && 2 * q.len() > members.len()
}

/// The members recorded in a vector, as a set.
pub open spec fn member_set(members: Seq<u64>) -> Set<u64> {
    members.to_set()
}

/// Two strict majorities of one membership share a node.
pub proof fn lemma_quorum_intersect(members: Set<u64>, q1: Set<u64>, q2: Set<u64>)
    requires
        is_quorum(q1, members),
        is_quorum(q2, members),
    ensures
        exists|n: u64| q1.contains(n) && q2.contains(n),
{
    if !(exists|n: u64| q1.contains(n) && q2.contains(n)) {
        assert(q1.disjoint(q2));
        lemma_set_disjoint_lens(q1, q2);
        assert((q1 + q2).subset_of(members));
        lemma_len_subset(q1 + q2, members);
    }
}

/// Election safety: in one term, two candidates that each collected a strict
/// majority of grants are the same node, provided each member granted at most
/// one candidate in that term (`grants` maps the members of the term to the
/// one candidate each granted).
pub proof fn lemma_election_safety(
    members: Set<u64>,
    grants: Map<u64, u64>,
    c1: u64,
    c2: u64,
    q1: Set<u64>,
    q2: Set<u64>,
)
    requires
        is_quorum(q1, members),
        is_quorum(q2, members),
        forall|n: u64| q1.contains(n) ==> grants.dom().contains(n) && grants[n] == c1,
        forall|n: u64| q2.contains(n) ==> grants.dom().contains(n) && grants[n] == c2,
    ensures
        c1 == c2,
{
    lemma_quorum_intersect(members, q1, q2);
    let n = choose|n: u64| q1.contains(n) && q2.contains(n);
    assert(grants[n] == c1 && grants[n] == c2);
}

/// Counts the members of `members` that `acks` holds. `members` must be
/// distinct; duplicates in `acks` are counted once because only the first
/// occurrence in `members` matters... counting is over `members`.
pub fn count_in(members: &Vec<u64>, acks: &Vec<u64>) -> (n: usize)
    ensures
        n == members@.filter(|m: u64| acks@.contains(m)).len(),
{
    let mut n: usize = 0;
    let mut i: usize = 0;
    proof {
        assert(members@.take(0int).filter(|m: u64| acks@.contains(m)) =~= Seq::<u64>::empty());
    }
    while i < members.len()
        invariant
            i <= members@.len(),
            n == members@.take(i as int).filter(|m: u64| acks@.contains(m)).len(),
            n <= i,
        decreases members@.len() - i,
    {
        let m = members[i];
        proof {
            assert(members@.take(i + 1int).drop_last() =~= members@.take(i as int));
            reveal_with_fuel(Seq::filter, 2);
            assert(members@.take(i + 1int).last() == m);
        }
        if contains_id(acks, m) {
            n += 1;
        }
        i += 1;
    }
    proof {
        assert(members@.take(members@.len() as int) =~= members@);
    }
    n
}

/// Whether `ids` holds `x`.
pub fn contains_id(ids: &Vec<u64>, x: u64) -> (r: bool)
    ensures
        r == ids@.contains(x),
{
    let mut i: usize = 0;
    while i < ids.len()
        invariant
            i <= ids@.len(),
            forall|j: int| 0 <= j < i ==> ids@[j] != x,
        decreases ids@.len() - i,
    {
        if ids[i] == x {
            return true;
        }
        i += 1;
    }
    false
}

/// Whether the nodes in `acks` form a strict majority of `members`, counted
/// over the membership so that strays and duplicates in `acks` cannot
/// inflate the tally.
pub fn is_majority(members: &Vec<u64>, acks: &Vec<u64>) -> (r: bool)
    ensures
        r == (2 * members@.filter(|m: u64| acks@.contains(m)).len() > members@.len()),
{
    let n = count_in(members, acks);
    proof {
        lemma_filter_len_le(members@, |m: u64| acks@.contains(m));
    }
    n > members.len() / 2
}

/// A filtered sequence is no longer than the sequence.
pub proof fn lemma_filter_len_le(s: Seq<u64>, f: spec_fn(u64) -> bool)
    ensures
        s.filter(f).len() <= s.len(),
    decreases s.len(),
{
    reveal_with_fuel(Seq::filter, 2);
    if s.len() > 0 {
        lemma_filter_len_le(s.drop_last(), f);
    }
}

/// Filtering a sequence without duplicates yields one without duplicates.
pub proof fn lemma_filter_no_duplicates(s: Seq<u64>, f: spec_fn(u64) -> bool)
    requires
        s.no_duplicates(),
    ensures
        s.filter(f).no_duplicates(),
    decreases s.len(),
{
    reveal_with_fuel(Seq::filter, 2);
    if s.len() > 0 {
        let rest = s.drop_last();
        assert(rest.no_duplicates());
        lemma_filter_no_duplicates(rest, f);
        if f(s.last()) {
            if rest.filter(f).contains(s.last()) {
                rest.lemma_filter_contains_rev(f, s.last());
                let i = choose|i: int| 0 <= i < rest.len() && rest[i] == s.last();
                assert(s[i] == s[s.len() - 1]);
                assert(false);
            }
            let pushed = rest.filter(f).push(s.last());
            assert forall|i: int, j: int|
                0 <= i < j < pushed.len() implies pushed[i] != pushed[j] by {
                if j < pushed.len() - 1 {
                    assert(rest.filter(f)[i] != rest.filter(f)[j]);
                } else {
                    assert(rest.filter(f).contains(pushed[i]));
                }
            }
        }
    }
}

/// The members a predicate holds of, taken from a sequence of distinct
/// members, form a quorum of the member set exactly when the filtered count
/// is a strict majority. Ties the executable majority test to the set-level
/// quorum that the safety lemmas speak of.
pub proof fn lemma_majority_is_quorum(members: Seq<u64>, f: spec_fn(u64) -> bool)
    requires
        members.no_duplicates(),
        2 * members.filter(f).len() > members.len(),
    ensures
        is_quorum(members.filter(f).to_set(), members.to_set()),
{
    broadcast use vstd::seq_lib::seq_to_set_is_finite;

    let fs = members.filter(f);
    lemma_filter_no_duplicates(members, f);
    fs.unique_seq_to_set();
    members.unique_seq_to_set();
    assert(fs.to_set().subset_of(members.to_set())) by {
        assert forall|x: u64| fs.to_set().contains(x) implies members.to_set().contains(x) by {
            assert(fs.contains(x));
            members.lemma_filter_contains_rev(f, x);
        }
    }
}

} // verus!
