use std::collections::BTreeMap;
use std::sync::Arc;
use vstd::laws_cmp::obeys_cmp;
use vstd::prelude::*;
use vstd::rwlock::{RwLock, RwLockPredicate};

verus! {

/// A shared handle to one value of a [`Pool`], with its own read/write lock.
/// The predicate `P` holds of the value whenever the lock is free.
pub type Pooling<V, P> = Arc<RwLock<V, P>>;

/// A keyed container whose values are each behind a lock of their own.
///
/// The key set changes only through `&mut self` (insert, remove), so those
/// changes exclude one another and every reader of the map; `get` hands out
/// a clone of a value's handle, after which reads and writes of that value
/// need the value's own lock and nothing of the map. A handle outlives the
/// removal of its key.
pub struct Pool<K, V, P: RwLockPredicate<V>> {
    inner: BTreeMap<K, Pooling<V, P>>,
}

/// Relies on `Arc::clone`: the clone is a handle to the same allocation.
#[verifier::external_body]
fn share<V, P: RwLockPredicate<V>>(h: &Pooling<V, P>) -> (r: Pooling<V, P>)
    ensures
        r == *h,
{
    Arc::clone(h)
}

/// A fresh handle to `value`, behind a lock that maintains `pred`.
pub fn pooling_new<V, P: RwLockPredicate<V>>(value: V, Ghost(pred): Ghost<P>) -> (r: Pooling<V, P>)
    requires
        pred.inv(value),
    ensures
        r.pred() == pred,
{
    Arc::new(RwLock::new(value, Ghost(pred)))
}

impl<K: Ord, V, P: RwLockPredicate<V>> Pool<K, V, P> {
    /// Each key with the predicate that its value's lock maintains.
    pub closed spec fn view(&self) -> Map<K, P> {
        self.inner@.map_values(|h: Pooling<V, P>| h.pred())
    }

    /// Each key with the handle stored under it.
    pub closed spec fn handles(&self) -> Map<K, Pooling<V, P>> {
        self.inner@
    }

    /// The predicates are those of the stored handles.
    pub proof fn lemma_view_of_handles(&self)
        ensures
            self@ == self.handles().map_values(|h: Pooling<V, P>| h.pred()),
    {
    }

    pub fn new() -> (r: Self)
        ensures
            r@ == Map::<K, P>::empty(),
            r.handles() == Map::<K, Pooling<V, P>>::empty(),
    {
        let r = Pool { inner: BTreeMap::new() };
        assert(r@ =~= Map::<K, P>::empty());
        assert(r.handles() =~= Map::<K, Pooling<V, P>>::empty());
        r
    }

    /// Puts `value` under `key` behind a fresh lock that maintains `pred`,
    /// returning the handle that the key held before, if any.
    pub fn insert(&mut self, key: K, value: V, Ghost(pred): Ghost<P>) -> (r: Option<Pooling<V, P>>)
        requires
            obeys_cmp::<K>(),
            pred.inv(value),
        ensures
            final(self)@ == old(self)@.insert(key, pred),
            final(self).handles() == old(self).handles().insert(key, final(self).handles()[key]),
            final(self).handles()[key].pred() == pred,
            match r {
                Some(h) => old(self).handles().contains_key(key) && h == old(self).handles()[key]
                    && old(self)@.contains_key(key) && h.pred() == old(self)@[key],
                None => !old(self).handles().contains_key(key) && !old(self)@.contains_key(key),
            },
    {
        let h = pooling_new(value, Ghost(pred));
        let r = self.inner.insert(key, h);
        assert(self@ =~= old(self)@.insert(key, pred));
        assert(self.handles() =~= old(self).handles().insert(key, self.handles()[key]));
        r
    }

    /// A handle to the value under `key`.
    pub fn get(&self, key: &K) -> (r: Option<Pooling<V, P>>)
        requires
            obeys_cmp::<K>(),
        ensures
            match r {
                Some(h) => self.handles().contains_key(*key) && h == self.handles()[*key]
                    && self@.contains_key(*key) && h.pred() == self@[*key],
                None => !self.handles().contains_key(*key) && !self@.contains_key(*key),
            },
    {
        match self.inner.get(key) {
            Some(h) => Some(share(h)),
            None => None,
        }
    }

    /// Takes `key` out of the pool, returning its handle.
    pub fn remove(&mut self, key: &K) -> (r: Option<Pooling<V, P>>)
        requires
            obeys_cmp::<K>(),
        ensures
            final(self)@ == old(self)@.remove(*key),
            final(self).handles() == old(self).handles().remove(*key),
            match r {
                Some(h) => old(self).handles().contains_key(*key) && h == old(self).handles()[*key]
                    && old(self)@.contains_key(*key) && h.pred() == old(self)@[*key],
                None => !old(self).handles().contains_key(*key) && !old(self)@.contains_key(*key),
            },
    {
        let r = self.inner.remove(key);
        assert(self@ =~= old(self)@.remove(*key));
        r
    }
}

} // verus!
