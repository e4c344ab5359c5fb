//! The task store: a keyed mapping from generated 128-bit identifiers to
//! tasks, with insert, lookup, enumeration and removal.

use vstd::prelude::*;
use vstd::set_lib::lemma_len_subset;
use crate::task::{Task, TaskSpec, KeyedTask};

verus! {

/// The identifiers of the entries, in storage order.
pub open spec fn ids_of(s: Seq<(u128, TaskSpec)>) -> Seq<u128> {
    s.map_values(|p: (u128, TaskSpec)| p.0)
}

/// Whether some entry carries the identifier `id`.
pub open spec fn contains_id(s: Seq<(u128, TaskSpec)>, id: u128) -> bool {
    exists|i: int| 0 <= i < s.len() && s[i].0 == id
}

/// The position of the entry carrying `id` (meaningful when `contains_id` holds
/// and the identifiers are unique).
pub open spec fn index_of_id(s: Seq<(u128, TaskSpec)>, id: u128) -> int {
    choose|i: int| 0 <= i < s.len() && s[i].0 == id
}

/// The task stored under `id`, or `None` if the identifier is unknown.
pub open spec fn get_of(s: Seq<(u128, TaskSpec)>, id: u128) -> Option<TaskSpec> {
    if contains_id(s, id) {
        Some(s[index_of_id(s, id)].1)
    } else {
        None
    }
}

/// The store contents with the entry carrying `id` taken out; unchanged
/// when no entry carries it.
pub open spec fn remove_id(s: Seq<(u128, TaskSpec)>, id: u128) -> Seq<(u128, TaskSpec)> {
    if contains_id(s, id) {
        let i = index_of_id(s, id);
        s.subrange(0, i) + s.subrange(i + 1, s.len() as int)
    } else {
        s
    }
}

/// The stored tasks without their identifiers, in storage order.
pub open spec fn tasks_of(s: Seq<(u128, TaskSpec)>) -> Seq<TaskSpec> {
    s.map_values(|p: (u128, TaskSpec)| p.1)
}

/// No two entries carry the same identifier.
pub open spec fn unique_ids(s: Seq<(u128, TaskSpec)>) -> bool {
    forall|i: int, j: int| 0 <= i < j < s.len() ==> s[i].0 != s[j].0
}

/// The model of a sequence of keyed tasks: each element's view.
pub open spec fn keyed_view(v: Seq<KeyedTask>) -> Seq<(u128, TaskSpec)> {
    v.map_values(|kt: KeyedTask| kt@)
}

/// When identifiers are unique, the entry found at `i` is the entry
/// `index_of_id` designates.
pub proof fn lemma_index_of_unique(s: Seq<(u128, TaskSpec)>, id: u128, i: int)
    requires
        unique_ids(s),
        0 <= i < s.len(),
        s[i].0 == id,
    ensures
        contains_id(s, id),
        index_of_id(s, id) == i,
{
    assert(contains_id(s, id));
    let k = index_of_id(s, id);
    assert(0 <= k < s.len() && s[k].0 == id);
    if k != i {
        if k < i {
            assert(s[k].0 != s[i].0);
        } else {
            assert(s[i].0 != s[k].0);
        }
        assert(false);
    }
}

/// The set of `u128` values below `n` is finite and has exactly `n` elements.
proof fn lemma_u128_range_card(n: u128)
    ensures
        Set::new(|j: u128| j < n).finite(),
        Set::new(|j: u128| j < n).len() == n,
    decreases n,
{
    if n == 0 {
        assert(Set::new(|j: u128| j < 0u128) =~= Set::<u128>::empty());
    } else {
        lemma_u128_range_card((n - 1) as u128);
        assert(Set::new(|j: u128| j < n) =~= Set::new(|j: u128| j < (n - 1) as u128).insert(
            (n - 1) as u128,
        ));
    }
}

/// Draws a fresh random 128-bit identifier.
/// Relies on `uuid::Uuid::new_v4`, which creates a random UUID from the
/// operating system's random number generator, and `uuid::Uuid::as_u128`,
/// which returns its 128-bit value. The result is random, so nothing is
/// promised of it.
#[verifier::external_body]
fn draw_id() -> u128 {
    uuid::Uuid::new_v4().as_u128()
}

/// The task store: owns a mapping from identifier to task, with unique keys
/// and no ordering invariant (ordering is applied only at display time).
pub struct MapTaskRepository {
    entries: Vec<(u128, Task)>,
}

impl View for MapTaskRepository {
    type V = Seq<(u128, TaskSpec)>;

    closed spec fn view(&self) -> Seq<(u128, TaskSpec)> {
        self.entries@.map_values(|p: (u128, Task)| (p.0, p.1@))
    }
}

impl MapTaskRepository {
    /// Well-formedness: identifiers are pairwise distinct.
    pub open spec fn wf(&self) -> bool {
        unique_ids(self@)
    }

    /// An empty store.
    pub fn new() -> (s: Self)
        ensures
            s@ =~= Seq::<(u128, TaskSpec)>::empty(),
            s.wf(),
    {
        let s = MapTaskRepository { entries: Vec::new() };
        proof {
            assert(s@ =~= Seq::<(u128, TaskSpec)>::empty());
        }
        s
    }

    /// The position of the entry carrying `id`, if any.
    fn find_index(&self, id: u128) -> (r: Option<usize>)
        ensures
            match r {
                Some(i) => i < self@.len() && self@[i as int].0 == id,
                None => !contains_id(self@, id),
            },
    {
        let n = self.entries.len();
        let mut i: usize = 0;
        while i < n
            invariant
                n == self@.len(),
                i <= n,
                forall|j: int| 0 <= j < i ==> self@[j].0 != id,
            decreases n - i,
        {
            if self.entries[i].0 == id {
                return Some(i);
            }
            i += 1;
        }
        None
    }

    /// Whether some entry carries `id`.
    fn contains(&self, id: u128) -> (b: bool)
        ensures
            b == contains_id(self@, id),
    {
        match self.find_index(id) {
            Some(i) => {
                proof {
                    assert(contains_id(self@, id));
                }
                true
            },
            None => false,
        }
    }

    /// An identifier no current entry carries. A random identifier is tried
    /// first; if it happens to collide, the store is small enough (at most
    /// `usize::MAX` entries, strictly fewer than there are 128-bit values)
    /// that a scan of `0..=len` must find a free one.
    fn free_id(&self) -> (id: u128)
        ensures
            !contains_id(self@, id),
    {
        let drawn = draw_id();
        if !self.contains(drawn) {
            return drawn;
        }
        let n = self.entries.len();
        let bound: u128 = n as u128 + 1;
        let mut i: u128 = 0;
        while i < bound
            invariant
                n == self@.len(),
                bound == n as u128 + 1,
                i <= bound,
                forall|j: u128| j < i ==> contains_id(self@, j),
            decreases bound - i,
        {
            if !self.contains(i) {
                return i;
            }
            i += 1;
        }
        proof {
            let candidates = Set::new(|j: u128| j < bound);
            let idset = ids_of(self@).to_set();
            lemma_u128_range_card(bound);
            ids_of(self@).lemma_cardinality_of_set();
            vstd::seq_lib::seq_to_set_is_finite(ids_of(self@));
            assert forall|j: u128| candidates.contains(j) implies idset.contains(j) by {
                assert(contains_id(self@, j));
                let w = choose|k: int| 0 <= k < self@.len() && self@[k].0 == j;
                assert(ids_of(self@)[w] == j);
                assert(ids_of(self@).contains(j));
            }
            lemma_len_subset(candidates, idset);
            assert(false);
        }
        0
    }

    /// Inserts the task under a freshly generated identifier no existing
    /// entry carries; never fails; returns the new identifier.
    pub fn add_task(&mut self, t: Task) -> (id: u128)
        requires
            old(self).wf(),
        ensures
            final(self).wf(),
            !contains_id(old(self)@, id),
            final(self)@ == old(self)@.push((id, t@)),
            get_of(final(self)@, id) == Some(t@),
    {
        let id = self.free_id();
        let ghost prev = self@;
        self.entries.push((id, t));
        proof {
            assert(self@ =~= prev.push((id, self.entries@[prev.len() as int].1@)));
            lemma_index_of_unique(self@, id, prev.len() as int);
        }
        id
    }

    /// The task stored under `id`, or `None` when the identifier is unknown;
    /// an unknown identifier is not an error.
    pub fn get_task(&self, id: u128) -> (r: Option<Task>)
        requires
            self.wf(),
        ensures
            match r {
                Some(t) => get_of(self@, id) == Some(t@),
                None => get_of(self@, id) is None,
            },
    {
        match self.find_index(id) {
            Some(i) => {
                proof {
                    lemma_index_of_unique(self@, id, i as int);
                }
                Some(self.entries[i].1.clone())
            },
            None => None,
        }
    }

    /// All current identifiers, in storage order (the order carries no
    /// meaning).
    pub fn ids(&self) -> (v: Vec<u128>)
        ensures
            v@ == ids_of(self@),
    {
        let n = self.entries.len();
        let mut v: Vec<u128> = Vec::new();
        let mut i: usize = 0;
        while i < n
            invariant
                n == self@.len(),
                n == self.entries@.len(),
                i <= n,
                v@ =~= ids_of(self@).subrange(0, i as int),
            decreases n - i,
        {
            v.push(self.entries[i].0);
            proof {
                assert(v@ =~= ids_of(self@).subrange(0, i + 1 as int));
            }
            i += 1;
        }
        proof {
            assert(v@ =~= ids_of(self@));
        }
        v
    }

    /// All current `(identifier, task)` pairs, in storage order (the order
    /// carries no meaning).
    pub fn get_all(&self) -> (v: Vec<KeyedTask>)
        ensures
            keyed_view(v@) == self@,
    {
        let n = self.entries.len();
        let mut v: Vec<KeyedTask> = Vec::new();
        let mut i: usize = 0;
        while i < n
            invariant
                n == self@.len(),
                n == self.entries@.len(),
                i <= n,
                keyed_view(v@) =~= self@.subrange(0, i as int),
            decreases n - i,
        {
            let kt = KeyedTask(self.entries[i].0, self.entries[i].1.clone());
            proof {
                assert(kt@ == self@[i as int]);
            }
            let ghost vprev = v@;
            v.push(kt);
            proof {
                assert(keyed_view(vprev).len() == vprev.len());
                assert(vprev.len() == i);
                assert(v@ == vprev.push(kt));
                assert forall|k: int| 0 <= k < i + 1 implies keyed_view(v@)[k] == self@[k] by {
                    if k < i {
                        assert(v@[k] == vprev[k]);
                        assert(keyed_view(vprev)[k] == self@.subrange(0, i as int)[k]);
                    } else {
                        assert(v@[k] == kt);
                    }
                }
                assert(keyed_view(v@) =~= self@.subrange(0, i + 1 as int));
            }
            i += 1;
        }
        proof {
            assert(keyed_view(v@) =~= self@);
        }
        v
    }

    /// The number of stored tasks.
    pub fn len(&self) -> (n: usize)
        ensures
            n == self@.len(),
    {
        self.entries.len()
    }

    /// Whether the store holds no task.
    pub fn is_empty(&self) -> (b: bool)
        ensures
            b == (self@.len() == 0),
    {
        self.entries.len() == 0
    }

    /// Deletes the entry carrying the keyed task's identifier; a no-op
    /// (not an error) when no entry carries it.
    pub fn remove_task(&mut self, t: &KeyedTask)
        requires
            old(self).wf(),
        ensures
            final(self).wf(),
            final(self)@ == remove_id(old(self)@, t.0),
    {
        match self.find_index(t.0) {
            Some(i) => {
                proof {
                    lemma_index_of_unique(self@, t.0, i as int);
                }
                let ghost prev = self@;
                self.entries.remove(i);
                proof {
                    assert(self@ =~= prev.subrange(0, i as int) + prev.subrange(
                        i + 1,
                        prev.len() as int,
                    ));
                    assert(remove_id(prev, t.0) == self@);
                    assert forall|a: int, b: int|
                        0 <= a < b < self@.len() implies self@[a].0 != self@[b].0 by {
                        let pa = if a < i { a } else { a + 1 };
                        let pb = if b < i { b } else { b + 1 };
                        assert(self@[a] == prev[pa]);
                        assert(self@[b] == prev[pb]);
                    }
                }
            },
            None => {
                proof {
                    assert(remove_id(self@, t.0) == self@);
                }
            },
        }
    }
}

} // verus!
