//! Session-wide memory of the process ids already emitted.

use vstd::prelude::*;
use std::collections::HashSet;

verus! {

broadcast use vstd::std_specs::hash::group_hash_axioms;

/// The set of process ids presented so far. Nothing ever leaves it: an id
/// that the host gives to a later process is not told apart from the
/// earlier one.
pub struct Deduplicator {
    seen: HashSet<u32>,
}

impl View for Deduplicator {
    type V = Set<u32>;

    closed spec fn view(&self) -> Set<u32> {
        self.seen@
    }
}

/// The ids known after `pids` were presented, one after another, to a set
/// that knew `seen`.
pub open spec fn spec_seen_after(seen: Set<u32>, pids: Seq<u32>) -> Set<u32>
    decreases pids.len(),
{
    if pids.len() == 0 {
        seen
    } else {
        spec_seen_after(seen, pids.drop_last()).insert(pids.last())
    }
}

/// The answer to the presentation at position `at` of `pids`, all earlier
/// ones having been presented before it.
pub open spec fn spec_answer(seen: Set<u32>, pids: Seq<u32>, at: int) -> bool {
    !spec_seen_after(seen, pids.subrange(0, at)).contains(pids[at])
}

impl Deduplicator {
    /// A set that has seen nothing.
    pub fn new() -> (dedup: Deduplicator)
        ensures
            dedup@ == Set::<u32>::empty(),
    {
        Deduplicator { seen: HashSet::new() }
    }

    /// Presents a process id: true the first time this id is presented,
    /// false ever after. The id is known from then on.
    pub fn observe(&mut self, pid: u32) -> (first: bool)
        ensures
            first == !old(self)@.contains(pid),
            final(self)@ == old(self)@.insert(pid),
    {
        self.seen.insert(pid)
    }

    /// Whether this id was presented before.
    pub fn contains(&self, pid: u32) -> (known: bool)
        ensures
            known == self@.contains(pid),
    {
        self.seen.contains(&pid)
    }

    /// Number of distinct ids presented so far.
    pub fn len(&self) -> (count: usize)
        ensures
            count == self@.len(),
    {
        self.seen.len()
    }

    /// Presents each id of `pids` in order and gives the answers, one for
    /// each.
    pub fn observe_all(&mut self, pids: &[u32]) -> (answers: Vec<bool>)
        ensures
            answers@.len() == pids@.len(),
            forall|i: int| 0 <= i < pids@.len() ==> answers@[i] == spec_answer(old(self)@, pids@, i),
            final(self)@ == spec_seen_after(old(self)@, pids@),
    {
        let mut answers: Vec<bool> = Vec::new();
        let mut i: usize = 0;
        while i < pids.len()
            invariant
                i <= pids@.len(),
                answers@.len() == i,
                forall|k: int| 0 <= k < i ==> answers@[k] == spec_answer(old(self)@, pids@, k),
                self@ == spec_seen_after(old(self)@, pids@.subrange(0, i as int)),
            decreases pids@.len() - i,
        {
            let first = self.observe(pids[i]);
            answers.push(first);
            proof {
                let next = pids@.subrange(0, i + 1);
                assert(next.drop_last() =~= pids@.subrange(0, i as int));
            }
            i += 1;
        }
        assert(pids@.subrange(0, pids@.len() as int) =~= pids@);
        answers
    }
}

/// Presenting ids adds exactly those ids to what was known.
pub proof fn lemma_seen_after(seen: Set<u32>, pids: Seq<u32>)
    ensures
        forall|pid: u32|
            spec_seen_after(seen, pids).contains(pid) <==> (seen.contains(pid) || pids.contains(
                pid,
            )),
    decreases pids.len(),
{
    if pids.len() > 0 {
        let front = pids.drop_last();
        lemma_seen_after(seen, front);
        assert forall|pid: u32|
            spec_seen_after(seen, pids).contains(pid) <==> (seen.contains(pid) || pids.contains(
                pid,
            )) by {
            if pids.contains(pid) {
                let k = choose|k: int| 0 <= k < pids.len() && pids[k] == pid;
                if k < pids.len() - 1 {
                    assert(front[k] == pid);
                }
            }
            if front.contains(pid) {
                let k = choose|k: int| 0 <= k < front.len() && front[k] == pid;
                assert(pids[k] == pid);
            }
            assert(pids[pids.len() - 1] == pids.last());
        }
    }
}

/// First observation: the presentation at position `at` is answered true
/// exactly when its id was not known at the start and stands at no earlier
/// position, whatever other ids are presented in between. So each distinct
/// id is answered true once, at its first position, and false at every
/// repeat.
pub proof fn lemma_first_observation(seen: Set<u32>, pids: Seq<u32>, at: int)
    requires
        0 <= at < pids.len(),
    ensures
        spec_answer(seen, pids, at) <==> (!seen.contains(pids[at]) && forall|j: int|
            0 <= j < at ==> pids[j] != pids[at]),
        forall|j: int| 0 <= j < at && pids[j] == pids[at] ==> !spec_answer(seen, pids, at),
{
    let front = pids.subrange(0, at);
    lemma_seen_after(seen, front);
    if front.contains(pids[at]) {
        let k = choose|k: int| 0 <= k < front.len() && front[k] == pids[at];
        assert(pids[k] == pids[at]);
    }
    assert forall|j: int| 0 <= j < at && pids[j] == pids[at] implies front.contains(pids[at]) by {
        assert(front[j] == pids[at]);
    }
}

/// Every id that was not known at the start and occurs in `pids` is
/// answered true at exactly one position.
pub proof fn lemma_answered_once(seen: Set<u32>, pids: Seq<u32>, pid: u32)
    requires
        pids.contains(pid),
        !seen.contains(pid),
    ensures
        exists|at: int|
            0 <= at < pids.len() && pids[at] == pid && spec_answer(seen, pids, at) && forall|
                other: int,
            |
                0 <= other < pids.len() && pids[other] == pid && spec_answer(seen, pids, other)
                    ==> other == at,
{
    let at = first_position(pids, pid, pids.len() as int);
    lemma_first_observation(seen, pids, at);
    assert forall|other: int|
        0 <= other < pids.len() && pids[other] == pid && spec_answer(seen, pids, other) implies other
        == at by {
        lemma_first_observation(seen, pids, other);
    }
}

/// The least position of `pid` below `bound`.
proof fn first_position(pids: Seq<u32>, pid: u32, bound: int) -> (at: int)
    requires
        0 <= bound <= pids.len(),
        exists|k: int| 0 <= k < bound && pids[k] == pid,
    ensures
        0 <= at < bound,
        pids[at] == pid,
        forall|j: int| 0 <= j < at ==> pids[j] != pid,
    decreases bound,
{
    let k = choose|k: int| 0 <= k < bound && pids[k] == pid;
    if exists|j: int| 0 <= j < k && pids[j] == pid {
        first_position(pids, pid, k)
    } else {
        k
    }
}

} // verus!
