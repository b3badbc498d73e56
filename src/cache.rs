use std::collections::VecDeque;
use vstd::prelude::*;
use vstd::std_specs::iter::IteratorSpec;

use crate::error::EnqueueWhileIteratorIsEmptyError;
use crate::model::{fill_model, fill_succeeds, lemma_fill_keeps_items, lemma_fill_twice, pulled, step_model};

verus! {

/// Wraps an iterator with a first-in-first-out buffer. Items are cached
/// from the iterator on request; pulling from the cache takes the cached
/// items first, then pulls from the iterator directly. The contracts speak
/// of iterators that keep returning `None` once they have returned it.
#[verifier::reject_recursive_types(T)]
#[verifier::reject_recursive_types(I)]
pub struct IteratorCache<T: Clone, I: Iterator<Item = T>> {
    queue: VecDeque<T>,
    iterator: I,
}

impl<T: Clone, I: Iterator<Item = T>> IteratorCache<T, I> {
    /// The items cached and not yet handed out, oldest first.
    pub closed spec fn buffered(&self) -> Seq<T> {
        self.queue@
    }

    /// The wrapped iterator.
    pub closed spec fn source(&self) -> I {
        self.iterator
    }

    /// Create a new cache with an iterator. Nothing is pulled from it.
    pub fn new(iter: I) -> (r: Self)
        ensures
            r.buffered() == Seq::<T>::empty(),
            r.source() == iter,
    {
        IteratorCache { queue: VecDeque::new(), iterator: iter }
    }

    /// Caches `quantity` more items from the wrapped iterator, one at a
    /// time. Fails if the iterator runs out first; the items pulled before
    /// that stay cached.
    pub fn cache_more(&mut self, quantity: u32) -> (r: Result<(), EnqueueWhileIteratorIsEmptyError>)
        requires
            old(self).source().obeys_prophetic_iter_laws(),
        ensures
            final(self).source().obeys_prophetic_iter_laws(),
            (final(self).buffered(), final(self).source().remaining()) == fill_model(
                old(self).buffered(),
                old(self).source().remaining(),
                quantity as nat,
            ),
            r is Ok <==> fill_succeeds(old(self).source().remaining(), quantity as nat),
            final(self).source().decrease() is Some <==> old(self).source().decrease() is Some,
            quantity > 0 && r is Ok && old(self).source().decrease() is Some
                ==> final(self).source().decrease()->0 < old(self).source().decrease()->0,
    {
        let mut i: u32 = 0;
        while i < quantity
            invariant
                i <= quantity,
                i <= old(self).source().remaining().len(),
                self.source().obeys_prophetic_iter_laws(),
                (self.buffered(), self.source().remaining()) == fill_model(
                    old(self).buffered(),
                    old(self).source().remaining(),
                    i as nat,
                ),
                self.source().decrease() is Some <==> old(self).source().decrease() is Some,
                old(self).source().decrease() is Some
                    ==> self.source().decrease()->0 <= old(self).source().decrease()->0,
                i > 0 && old(self).source().decrease() is Some
                    ==> self.source().decrease()->0 < old(self).source().decrease()->0,
            decreases quantity - i,
        {
            match self.iterator.next() {
                Some(item) => {
                    self.queue.push_back(item);
                },
                None => {
                    return Err(EnqueueWhileIteratorIsEmptyError);
                },
            }
            i += 1;
        }
        Ok(())
    }

    /// Hands out the oldest cached item if there is one; otherwise pulls
    /// the next item from the wrapped iterator. `None` once both are empty.
    pub fn next(&mut self) -> (r: Option<T>)
        requires
            old(self).source().obeys_prophetic_iter_laws(),
        ensures
            final(self).source().obeys_prophetic_iter_laws(),
            (r, final(self).buffered(), final(self).source().remaining()) == step_model(
                old(self).buffered(),
                old(self).source().remaining(),
            ),
            old(self).buffered().len() > 0 ==> final(self).source() == old(self).source(),
    {
        match self.queue.pop_front() {
            Some(item) => Some(item),
            None => self.iterator.next(),
        }
    }
}

/// Any iterator can have its items cached with the methods of this trait.
pub trait IterateIntoCache: Iterator + Sized where Self::Item: Clone {
    /// Caches `quantity` items of this iterator for use later. Fails if the
    /// iterator runs out of items first.
    fn cache(self, quantity: u32) -> (r: Result<
        IteratorCache<Self::Item, Self>,
        EnqueueWhileIteratorIsEmptyError,
    >)
        requires
            self.obeys_prophetic_iter_laws(),
        ensures
            r is Ok <==> fill_succeeds(self.remaining(), quantity as nat),
            r matches Ok(c) ==> {
                &&& c.source().obeys_prophetic_iter_laws()
                &&& (c.buffered(), c.source().remaining()) == fill_model(
                    Seq::empty(),
                    self.remaining(),
                    quantity as nat,
                )
            },
    ;

    /// Caches every item of this iterator for use later. The iterator must
    /// carry a termination measure, which shows that draining it ends.
    fn cache_all(self) -> (r: IteratorCache<Self::Item, Self>)
        requires
            self.obeys_prophetic_iter_laws(),
            self.decrease() is Some,
        ensures
            r.source().obeys_prophetic_iter_laws(),
            r.buffered() == self.remaining(),
            r.source().remaining() == Seq::<Self::Item>::empty(),
    ;

    /// Caches `quantity` items of this iterator for use later, or all of
    /// them if it runs out first.
    fn cache_or_all(self, quantity: u32) -> (r: IteratorCache<Self::Item, Self>)
        requires
            self.obeys_prophetic_iter_laws(),
        ensures
            r.source().obeys_prophetic_iter_laws(),
            (r.buffered(), r.source().remaining()) == fill_model(
                Seq::empty(),
                self.remaining(),
                quantity as nat,
            ),
    ;
}

impl<I: Iterator> IterateIntoCache for I where I::Item: Clone {
    fn cache(self, quantity: u32) -> (r: Result<
        IteratorCache<Self::Item, Self>,
        EnqueueWhileIteratorIsEmptyError,
    >) {
        let mut cache = IteratorCache::new(self);
        match cache.cache_more(quantity) {
            Ok(()) => Ok(cache),
            Err(e) => Err(e),
        }
    }

    fn cache_all(self) -> (r: IteratorCache<Self::Item, Self>) {
        let mut cache = IteratorCache::new(self);
        loop
            invariant
                cache.source().obeys_prophetic_iter_laws(),
                cache.buffered() + cache.source().remaining() == self.remaining(),
                cache.source().decrease() is Some,
            ensures
                cache.source().obeys_prophetic_iter_laws(),
                cache.buffered() + cache.source().remaining() == self.remaining(),
                cache.source().remaining().len() == 0,
            decreases cache.source().decrease()->0,
        {
            let ghost before = (cache.buffered(), cache.source().remaining());
            let res = cache.cache_more(1);
            proof {
                lemma_fill_keeps_items(before.0, before.1, 1);
            }
            if res.is_err() {
                break;
            }
        }
        proof {
            assert(cache.buffered() + Seq::<Self::Item>::empty() == cache.buffered());
        }
        cache
    }

    fn cache_or_all(self, quantity: u32) -> (r: IteratorCache<Self::Item, Self>) {
        let mut cache = IteratorCache::new(self);
        let mut i: u32 = 0;
        while i < quantity
            invariant
                i <= quantity,
                cache.source().obeys_prophetic_iter_laws(),
                (cache.buffered(), cache.source().remaining()) == fill_model(
                    Seq::empty(),
                    self.remaining(),
                    i as nat,
                ),
            ensures
                cache.source().obeys_prophetic_iter_laws(),
                (cache.buffered(), cache.source().remaining()) == fill_model(
                    Seq::empty(),
                    self.remaining(),
                    quantity as nat,
                ),
            decreases quantity - i,
        {
            let res = cache.cache_more(1);
            proof {
                lemma_fill_twice(Seq::<Self::Item>::empty(), self.remaining(), i as nat, 1);
            }
            if res.is_err() {
                proof {
                    assert(self.remaining().len() <= i);
                    assert(pulled(self.remaining(), quantity as nat) == pulled(
                        self.remaining(),
                        i as nat,
                    ));
                }
                break;
            }
            i += 1;
        }
        cache
    }
}

} // verus!
