//! Correlation of asynchronous responses to their originating callers.
//!
//! The registry maps a correlation id to the pending caller's single-shot
//! result channel, represented here as an opaque handle of type `T` — the
//! surrounding runtime supplies whatever sender it uses and delivers results
//! through the handles this registry gives back. Ids come from a counter
//! scoped to the registry, so an id is unique among currently-pending ids
//! and is never reused while still pending; each entry is consumed exactly
//! once, by a matching response (`complete`) or by connection teardown
//! (`cancel_all`).

use vstd::prelude::*;

verus! {

/// Failure of `complete`: no entry is pending under the given id — a stale
/// or duplicated response. Reported, never fatal to the registry.
#[derive(Clone, Copy, Debug, PartialEq, Eq, Structural)]
pub enum RegistryError {
    UnknownSession,
}

/// The map an association list denotes: later entries win, though the
/// registry keeps its keys distinct.
pub open spec fn assoc_map<T>(s: Seq<(u64, T)>) -> Map<u64, T>
    decreases s.len(),
{
    if s.len() == 0 {
        Map::empty()
    } else {
        assoc_map(s.drop_last()).insert(s.last().0, s.last().1)
    }
}

/// A key is in the denoted map exactly when some entry holds it.
pub proof fn lemma_assoc_map_dom<T>(s: Seq<(u64, T)>, k: u64)
    ensures
        assoc_map(s).dom().contains(k) <==> exists|i: int|
            0 <= i < s.len() && (#[trigger] s[i]).0 == k,
    decreases s.len(),
{
    if s.len() > 0 {
        lemma_assoc_map_dom(s.drop_last(), k);
        if s.last().0 == k {
            assert(s[s.len() - 1].0 == k);
        } else if exists|i: int| 0 <= i < s.len() && (#[trigger] s[i]).0 == k {
            let i = choose|i: int| 0 <= i < s.len() && (#[trigger] s[i]).0 == k;
            assert(s.drop_last()[i].0 == k);
        }
    }
}

/// With distinct keys, each entry is bound to its own value in the map.
pub proof fn lemma_assoc_map_index<T>(s: Seq<(u64, T)>, i: int)
    requires
        0 <= i < s.len(),
        forall|p: int, q: int|
            0 <= p < q < s.len() ==> (#[trigger] s[p]).0 != (#[trigger] s[q]).0,
    ensures
        assoc_map(s).contains_pair(s[i].0, s[i].1),
    decreases s.len(),
{
    if i < s.len() - 1 {
        lemma_assoc_map_index(s.drop_last(), i);
        assert(s.drop_last()[i] == s[i]);
        assert(s[i].0 != s.last().0);
    }
}

/// With distinct keys, dropping the entry at `i` removes exactly its key.
proof fn lemma_assoc_map_remove<T>(s: Seq<(u64, T)>, i: int)
    requires
        0 <= i < s.len(),
        forall|p: int, q: int|
            0 <= p < q < s.len() ==> (#[trigger] s[p]).0 != (#[trigger] s[q]).0,
    ensures
        assoc_map(s.remove(i)) == assoc_map(s).remove(s[i].0),
    decreases s.len(),
{
    let k = s[i].0;
    if i == s.len() - 1 {
        assert(s.remove(i) =~= s.drop_last());
        lemma_assoc_map_dom(s.drop_last(), k);
        assert(!assoc_map(s.drop_last()).dom().contains(k));
        assert(assoc_map(s.drop_last()) =~= assoc_map(s).remove(k));
    } else {
        let front = s.drop_last();
        assert(s.remove(i).last() == s.last());
        assert(s.remove(i).drop_last() =~= front.remove(i));
        lemma_assoc_map_remove(front, i);
        assert(front[i] == s[i]);
        assert(s.last().0 != k);
        assert(assoc_map(front).remove(k).insert(s.last().0, s.last().1) =~= assoc_map(
            front,
        ).insert(s.last().0, s.last().1).remove(k));
    }
}

/// Maps each correlation id to the pending caller's result handle; fulfills
/// the handle's caller when a matching response decodes, cancels every
/// pending caller on connection teardown.
pub struct SessionRegistry<T> {
    next_id: u64,
    pending: Vec<(u64, T)>,
}

impl<T> SessionRegistry<T> {
    /// The pending entries, oldest first.
    pub closed spec fn entries(self) -> Seq<(u64, T)> {
        self.pending@
    }

    /// The id the next `begin` will allocate.
    pub closed spec fn counter(self) -> u64 {
        self.next_id
    }

    /// The pending table as a map from correlation id to handle.
    pub open spec fn pending_map(self) -> Map<u64, T> {
        assoc_map(self.entries())
    }

    /// Pending ids are distinct, and all were allocated below the counter.
    pub closed spec fn wf(self) -> bool {
        &&& forall|p: int, q: int|
            0 <= p < q < self.pending@.len() ==> (#[trigger] self.pending@[p]).0 != (
            #[trigger] self.pending@[q]).0
        &&& forall|p: int|
            0 <= p < self.pending@.len() ==> (#[trigger] self.pending@[p]).0 < self.next_id
    }

    /// An id the counter has not reached yet is pending under no entry: the
    /// next allocation can never collide with a pending id.
    pub proof fn lemma_fresh_id_free(self, id: u64)
        requires
            self.wf(),
            id >= self.counter(),
        ensures
            !self.pending_map().dom().contains(id),
    {
        lemma_assoc_map_dom(self.entries(), id);
    }

    /// An empty registry whose counter starts at zero.
    pub fn new() -> (r: SessionRegistry<T>)
        ensures
            r.wf(),
            r.counter() == 0,
            r.entries() == Seq::<(u64, T)>::empty(),
            r.pending_map() == Map::<u64, T>::empty(),
    {
        let r = SessionRegistry { next_id: 0u64, pending: Vec::new() };
        proof {
            assert(r.entries() =~= Seq::<(u64, T)>::empty());
        }
        r
    }

    /// How many invocations are pending.
    pub fn pending_count(&self) -> (n: usize)
        ensures
            n == self.entries().len(),
    {
        self.pending.len()
    }

    /// Registers a pending invocation around the given result handle and
    /// returns its correlation id: a fresh id, distinct from every id
    /// currently pending and from every id returned before it.
    pub fn begin(&mut self, tx: T) -> (id: u64)
        requires
            old(self).wf(),
            old(self).counter() < u64::MAX,
        ensures
            final(self).wf(),
            id == old(self).counter(),
            final(self).counter() == old(self).counter() + 1,
            !old(self).pending_map().dom().contains(id),
            final(self).entries() == old(self).entries().push((id, tx)),
            final(self).pending_map() == old(self).pending_map().insert(id, tx),
    {
        let id = self.next_id;
        self.next_id = self.next_id + 1;
        self.pending.push((id, tx));
        proof {
            old(self).lemma_fresh_id_free(id);
            assert(self.pending@.drop_last() =~= old(self).pending@);
        }
        id
    }

    /// Removes and returns the pending handle for `id`, so the caller it
    /// belongs to can be fulfilled — exactly once, since the entry is gone
    /// afterwards. Fails with `UnknownSession`, touching nothing, when no
    /// entry is pending under `id`.
    pub fn complete(&mut self, id: u64) -> (r: Result<T, RegistryError>)
        requires
            old(self).wf(),
        ensures
            final(self).wf(),
            final(self).counter() == old(self).counter(),
            old(self).pending_map().dom().contains(id) ==> (r matches Ok(tx)
                && old(self).pending_map().contains_pair(id, tx) && final(self).pending_map()
                == old(self).pending_map().remove(id) && final(self).entries().len() == old(
                self,
            ).entries().len() - 1),
            !old(self).pending_map().dom().contains(id) ==> (r == Err::<T, RegistryError>(
                RegistryError::UnknownSession,
            ) && final(self).entries() == old(self).entries()),
    {
        let n = self.pending.len();
        let mut idx: usize = 0;
        while idx < n
            invariant
                n == self.pending@.len(),
                idx <= n,
                *self == *old(self),
                old(self).wf(),
                forall|j: int| 0 <= j < idx ==> (#[trigger] self.pending@[j]).0 != id,
            decreases n - idx,
        {
            if self.pending[idx].0 == id {
                proof {
                    lemma_assoc_map_index(self.pending@, idx as int);
                    lemma_assoc_map_remove(self.pending@, idx as int);
                    self.pending@.remove_ensures(idx as int);
                }
                let (_found, tx) = self.pending.remove(idx);
                return Ok(tx);
            }
            idx = idx + 1;
        }
        proof {
            lemma_assoc_map_dom(self.pending@, id);
        }
        Err(RegistryError::UnknownSession)
    }

    /// Empties the table, handing back every pending entry, oldest first, so
    /// that connection teardown can resolve each caller to a closed-error.
    /// No caller may block past teardown: nothing stays pending.
    pub fn cancel_all(&mut self) -> (r: Vec<(u64, T)>)
        requires
            old(self).wf(),
        ensures
            final(self).wf(),
            final(self).counter() == old(self).counter(),
            r@ == old(self).entries(),
            final(self).entries() == Seq::<(u64, T)>::empty(),
            final(self).pending_map() == Map::<u64, T>::empty(),
    {
        let mut drained: Vec<(u64, T)> = Vec::new();
        core::mem::swap(&mut drained, &mut self.pending);
        proof {
            assert(self.entries() =~= Seq::<(u64, T)>::empty());
        }
        drained
    }
}

} // verus!
