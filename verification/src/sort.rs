//! Priority-ordered listing: sorting keyed tasks so that every
//! higher-priority task stands before every lower-priority one.

use vstd::prelude::*;
use vstd::multiset::Multiset;
use crate::task::{KeyedTask, TaskSpec};
use crate::store::{keyed_view, MapTaskRepository};

verus! {

/// Entries appear in non-decreasing priority rank: every High-priority
/// entry before every Medium one, every Medium one before every Low one.
pub open spec fn sorted_by_priority(s: Seq<(u128, TaskSpec)>) -> bool {
    forall|i: int, j: int|
        0 <= i < j < s.len() ==> s[i].1.priority.spec_rank() <= s[j].1.priority.spec_rank()
}

/// The position of an entry of strictly smaller rank comes strictly first
/// in a priority-sorted listing: every High-priority task stands before
/// every Medium-priority task, and every Medium-priority one before every
/// Low-priority one, whatever the insertion order was.
pub proof fn lemma_sorted_priority_partition(s: Seq<(u128, TaskSpec)>, i: int, j: int)
    requires
        sorted_by_priority(s),
        0 <= i < s.len(),
        0 <= j < s.len(),
        s[i].1.priority.spec_rank() < s[j].1.priority.spec_rank(),
    ensures
        i < j,
{
    if j < i {
        assert(s[j].1.priority.spec_rank() <= s[i].1.priority.spec_rank());
    }
}

/// Sorts keyed tasks by priority, High first, then Medium, then Low.
/// The result holds exactly the same entries (as a multiset); ties keep
/// no particular order.
pub fn sort_by_priority(v: Vec<KeyedTask>) -> (r: Vec<KeyedTask>)
    ensures
        sorted_by_priority(keyed_view(r@)),
        keyed_view(r@).to_multiset() == keyed_view(v@).to_multiset(),
{
    proof {
        broadcast use vstd::seq_lib::group_to_multiset_ensures;
    }
    let mut rest = v;
    let mut out: Vec<KeyedTask> = Vec::new();
    while rest.len() > 0
        invariant
            sorted_by_priority(keyed_view(out@)),
            keyed_view(out@).to_multiset().add(keyed_view(rest@).to_multiset())
                =~= keyed_view(v@).to_multiset(),
            forall|a: int, b: int|
                0 <= a < out@.len() && 0 <= b < rest@.len()
                    ==> #[trigger] out@[a]@.1.priority.spec_rank()
                    <= #[trigger] rest@[b]@.1.priority.spec_rank(),
        decreases rest.len(),
    {
        let m = min_rank_index(&rest);
        let ghost restv = rest@;
        let ghost outv = out@;
        let x = rest.remove(m);
        out.push(x);
        proof {
            broadcast use vstd::seq_lib::group_to_multiset_ensures;
            assert(keyed_view(restv)[m as int] == x@);
            assert(keyed_view(rest@) =~= keyed_view(restv).remove(m as int));
            assert(keyed_view(out@) =~= keyed_view(outv).push(x@));
            assert(keyed_view(out@).to_multiset().add(keyed_view(rest@).to_multiset())
                =~= keyed_view(v@).to_multiset());
            assert forall|a: int, b: int|
                0 <= a < out@.len() && 0 <= b < rest@.len() implies #[trigger] out@[a]@.1.priority.spec_rank()
                <= #[trigger] rest@[b]@.1.priority.spec_rank() by {
                let pb = if b < m { b } else { b + 1 };
                assert(rest@[b] == restv[pb]);
            }
        }
    }
    proof {
        assert(keyed_view(rest@).to_multiset() =~= Multiset::<(u128, TaskSpec)>::empty());
        assert(keyed_view(out@).to_multiset() =~= keyed_view(v@).to_multiset());
    }
    out
}

/// The position of an entry of minimal priority rank.
fn min_rank_index(v: &Vec<KeyedTask>) -> (m: usize)
    requires
        v@.len() > 0,
    ensures
        m < v@.len(),
        forall|b: int|
            0 <= b < v@.len() ==> v@[m as int]@.1.priority.spec_rank()
                <= #[trigger] v@[b]@.1.priority.spec_rank(),
{
    let n = v.len();
    let mut m: usize = 0;
    let mut best: u8 = v[0].1.priority.rank();
    let mut i: usize = 1;
    while i < n
        invariant
            n == v@.len(),
            m < n,
            1 <= i <= n,
            best as int == v@[m as int]@.1.priority.spec_rank(),
            forall|b: int|
                0 <= b < i ==> best as int <= #[trigger] v@[b]@.1.priority.spec_rank(),
        decreases n - i,
    {
        let r = v[i].1.priority.rank();
        if r < best {
            best = r;
            m = i;
        }
        i += 1;
    }
    m
}

/// The full store listing in display order: the same entries the store
/// holds, sorted by priority, High first.
pub fn list_tasks(tr: &MapTaskRepository) -> (v: Vec<KeyedTask>)
    ensures
        sorted_by_priority(keyed_view(v@)),
        keyed_view(v@).to_multiset() == tr@.to_multiset(),
{
    let all = tr.get_all();
    sort_by_priority(all)
}

} // verus!
