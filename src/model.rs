//! The mathematical model of a cache: the items it has buffered, and the
//! items its source will still produce.
use vstd::prelude::*;

verus! {

/// The number of items that a fill asking for `quantity` items moves out
/// of a source that will still produce `rest`.
pub open spec fn pulled<T>(rest: Seq<T>, quantity: nat) -> nat {
    if quantity <= rest.len() {
        quantity
    } else {
        rest.len()
    }
}

/// Buffer and source after a fill asking for `quantity` items: the items
/// move one by one from the head of the source to the tail of the buffer,
/// until `quantity` of them have moved or the source is exhausted.
pub open spec fn fill_model<T>(buffered: Seq<T>, rest: Seq<T>, quantity: nat) -> (Seq<T>, Seq<T>) {
    let k = pulled(rest, quantity) as int;
    (buffered + rest.take(k), rest.skip(k))
}

/// A fill asking for `quantity` items succeeds exactly when the source
/// still holds that many.
pub open spec fn fill_succeeds<T>(rest: Seq<T>, quantity: nat) -> bool {
    quantity <= rest.len()
}

/// One pull from the cache: the head of the buffer if there is one, else
/// the head of the source, else nothing. Yields the item and the new
/// buffer and source.
pub open spec fn step_model<T>(buffered: Seq<T>, rest: Seq<T>) -> (Option<T>, Seq<T>, Seq<T>) {
    if buffered.len() > 0 {
        (Some(buffered[0]), buffered.drop_first(), rest)
    } else if rest.len() > 0 {
        (Some(rest[0]), buffered, rest.drop_first())
    } else {
        (None, buffered, rest)
    }
}

/// Everything that pulling from the cache until it is exhausted yields.
pub open spec fn drain_model<T>(buffered: Seq<T>, rest: Seq<T>) -> Seq<T>
    decreases buffered.len() + rest.len(),
{
    let (item, b, r) = step_model(buffered, rest);
    match item {
        Some(x) => seq![x] + drain_model(b, r),
        None => Seq::empty(),
    }
}

/// Draining a cache yields its buffer, then what its source still holds.
pub proof fn lemma_drain_is_buffer_then_source<T>(buffered: Seq<T>, rest: Seq<T>)
    ensures
        drain_model(buffered, rest) == buffered + rest,
    decreases buffered.len() + rest.len(),
{
    let (item, b, r) = step_model(buffered, rest);
    if buffered.len() > 0 {
        lemma_drain_is_buffer_then_source(b, r);
        assert(buffered == seq![buffered[0]] + b);
        assert(drain_model(buffered, rest) == seq![buffered[0]] + (b + r));
        assert(seq![buffered[0]] + (b + r) == (seq![buffered[0]] + b) + r);
    } else if rest.len() > 0 {
        lemma_drain_is_buffer_then_source(b, r);
        assert(buffered + rest == rest);
        assert(rest == seq![rest[0]] + r);
        assert(b + r == r);
    } else {
        assert(buffered + rest == Seq::<T>::empty());
    }
}

/// A fill never loses, duplicates or reorders items: buffer and source
/// together hold what they held before.
pub proof fn lemma_fill_keeps_items<T>(buffered: Seq<T>, rest: Seq<T>, quantity: nat)
    ensures
        fill_model(buffered, rest, quantity).0 + fill_model(buffered, rest, quantity).1
            == buffered + rest,
{
    let k = pulled(rest, quantity) as int;
    assert(rest == rest.take(k) + rest.skip(k));
    assert((buffered + rest.take(k)) + rest.skip(k) == buffered + (rest.take(k) + rest.skip(k)));
}

/// The state of a cache after `n` pulls from it.
pub open spec fn steps_model<T>(buffered: Seq<T>, rest: Seq<T>, n: nat) -> (Seq<T>, Seq<T>)
    decreases n,
{
    if n == 0 {
        (buffered, rest)
    } else {
        let (_, b, r) = step_model(buffered, rest);
        steps_model(b, r, (n - 1) as nat)
    }
}

/// Caching `k` items of a source that holds at least `k` succeeds, and
/// draining the resulting cache yields exactly the items of the source,
/// in their order.
pub proof fn lemma_cache_exactly_transparent<T>(s: Seq<T>, k: nat)
    requires
        k <= s.len(),
    ensures
        fill_succeeds(s, k),
        ({
            let c = fill_model(Seq::<T>::empty(), s, k);
            drain_model(c.0, c.1) == s
        }),
{
    let c = fill_model(Seq::<T>::empty(), s, k);
    lemma_fill_keeps_items(Seq::<T>::empty(), s, k);
    lemma_drain_is_buffer_then_source(c.0, c.1);
    assert(Seq::<T>::empty() + s == s);
}

/// Caching every item of a source and then draining the cache yields
/// exactly the items of the source, in their order.
pub proof fn lemma_cache_all_transparent<T>(s: Seq<T>)
    ensures
        drain_model(s, Seq::<T>::empty()) == s,
{
    lemma_drain_is_buffer_then_source(s, Seq::<T>::empty());
    assert(s + Seq::<T>::empty() == s);
}

/// Asking for more items than the source holds makes a strict fill fail,
/// while a lenient one caches the whole source, and draining that cache
/// yields exactly the items of the source, in their order.
pub proof fn lemma_overshoot<T>(s: Seq<T>, k: nat)
    requires
        k > s.len(),
    ensures
        !fill_succeeds(s, k),
        fill_model(Seq::<T>::empty(), s, k) == (s, Seq::<T>::empty()),
        ({
            let c = fill_model(Seq::<T>::empty(), s, k);
            drain_model(c.0, c.1) == s
        }),
{
    assert(Seq::<T>::empty() + s.take(s.len() as int) == s);
    assert(s.skip(s.len() as int) == Seq::<T>::empty());
    lemma_cache_all_transparent(s);
}

/// Caching `k` items of a source that holds at least `k` pulls exactly `k`
/// items from it, and handing out those `k` cached items pulls no more.
pub proof fn lemma_cache_pulls_exactly<T>(s: Seq<T>, k: nat, n: nat)
    requires
        k <= s.len(),
        n <= k,
    ensures
        s.len() - fill_model(Seq::<T>::empty(), s, k).1.len() == k,
        ({
            let c = fill_model(Seq::<T>::empty(), s, k);
            steps_model(c.0, c.1, n).1 == c.1
        }),
{
    let c = fill_model(Seq::<T>::empty(), s, k);
    lemma_steps_on_buffer(c.0, c.1, n);
}

/// As long as pulls are served from the buffer, the source is left alone.
proof fn lemma_steps_on_buffer<T>(buffered: Seq<T>, rest: Seq<T>, n: nat)
    requires
        n <= buffered.len(),
    ensures
        steps_model(buffered, rest, n) == (buffered.skip(n as int), rest),
    decreases n,
{
    if n > 0 {
        let (_, b, r) = step_model(buffered, rest);
        lemma_steps_on_buffer(b, r, (n - 1) as nat);
        assert(b.skip((n - 1) as int) == buffered.skip(n as int));
    } else {
        assert(buffered.skip(0) == buffered);
    }
}

/// Filling `a` items and then `b` items leaves the cache as one fill of
/// `a + b` items does, and when the source holds at least `a + b` items
/// both ways succeed.
pub proof fn lemma_fill_twice<T>(buffered: Seq<T>, rest: Seq<T>, a: nat, b: nat)
    ensures
        ({
            let first = fill_model(buffered, rest, a);
            fill_model(first.0, first.1, b) == fill_model(buffered, rest, a + b)
        }),
        a + b <= rest.len() ==> fill_succeeds(rest, a) && fill_succeeds(
            fill_model(buffered, rest, a).1,
            b,
        ) && fill_succeeds(rest, a + b),
{
    let ka = pulled(rest, a) as int;
    let r1 = rest.skip(ka);
    let kb = pulled(r1, b) as int;
    let kab = pulled(rest, a + b) as int;
    assert(ka + kb == kab);
    assert(rest.take(ka) + r1.take(kb) == rest.take(kab));
    assert(r1.skip(kb) == rest.skip(kab));
    assert((buffered + rest.take(ka)) + r1.take(kb) == buffered + (rest.take(ka) + r1.take(kb)));
}

} // verus!
