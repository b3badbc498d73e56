use iterator_cache::{EnqueueWhileIteratorIsEmptyError, IterateIntoCache, IteratorCache};
use std::cell::Cell;

#[test]
fn queue_some() {
    let mut iter = vec![1, 2, 3, 4, 5].into_iter().cache(3).unwrap();
    assert_eq!(iter.next(), Some(1));
    assert_eq!(iter.next(), Some(2));
    assert_eq!(iter.next(), Some(3));
    assert_eq!(iter.next(), Some(4));
    assert_eq!(iter.next(), Some(5));
    assert_eq!(iter.next(), None);
}

#[test]
#[should_panic]
fn queue_too_many() {
    let _iter = vec![1, 2, 3, 4, 5].into_iter().cache(6).unwrap();
}

#[test]
fn queue_all() {
    let mut iter = vec![1, 2, 3, 4, 5].into_iter().cache_all();
    assert_eq!(iter.next(), Some(1));
    assert_eq!(iter.next(), Some(2));
    assert_eq!(iter.next(), Some(3));
    assert_eq!(iter.next(), Some(4));
    assert_eq!(iter.next(), Some(5));
    assert_eq!(iter.next(), None);
}

#[test]
fn queue_overshoot_ok() {
    let mut iter = vec![1, 2, 3, 4, 5].into_iter().cache_or_all(500);
    assert_eq!(iter.next(), Some(1));
    assert_eq!(iter.next(), Some(2));
    assert_eq!(iter.next(), Some(3));
    assert_eq!(iter.next(), Some(4));
    assert_eq!(iter.next(), Some(5));
    assert_eq!(iter.next(), None);
}

#[test]
fn iterator_methods() {
    let mut iter = vec![1, 2, 3, 4, 5].into_iter().map(|i| i * 2).cache_all();
    assert_eq!(iter.next(), Some(2));
    assert_eq!(iter.next(), Some(4));
    assert_eq!(iter.next(), Some(6));
    assert_eq!(iter.next(), Some(8));
    assert_eq!(iter.next(), Some(10));
    assert_eq!(iter.next(), None);
}

#[test]
fn lasy_eval() {
    let counter = Cell::new(0i32);
    let iter = vec![1, 2, 3, 4, 5].into_iter().map(|i| {
        counter.set(counter.get() + 1);
        i * 2
    });
    assert_eq!(counter.get(), 0);
    let mut iter = iter.cache(2).unwrap();
    assert_eq!(counter.get(), 2);
    let _ = iter.cache_more(2);
    assert_eq!(counter.get(), 4);
    counter.set(0);
    let _iter = vec![1, 2, 3, 4, 5]
        .into_iter()
        .map(|i| {
            counter.set(counter.get() + 1);
            i * 2
        })
        .cache_all();
    assert_eq!(counter.get(), 5);
}

#[test]
fn return_errors() {
    let err = (0..5).cache(40);
    match err {
        Ok(_) => panic!(),
        Err(_) => (),
    }
}

#[test]
fn from_doc_test() {
    let mut cache = (0..5).cache_or_all(2); // Caches 2 values
    cache.cache_more(2).unwrap(); // Caches 2 more values for a total of 4
    while let Some(i) = cache.next() {
        println!("{}", i);
    }
}

#[test]
fn exact_cache_is_transparent() {
    for k in 0..=5u32 {
        let mut cache = vec![10, 20, 30, 40, 50].into_iter().cache(k).unwrap();
        let mut out = Vec::new();
        while let Some(x) = cache.next() {
            out.push(x);
        }
        assert_eq!(out, vec![10, 20, 30, 40, 50]);
    }
}

#[test]
fn cache_all_of_empty_source() {
    let mut cache = Vec::<u8>::new().into_iter().cache_all();
    assert_eq!(cache.next(), None);
    assert_eq!(cache.next(), None);
}

#[test]
fn overshoot_fails_strictly_and_keeps_all_leniently() {
    assert_eq!(
        vec![7, 8, 9].into_iter().cache(4).err(),
        Some(EnqueueWhileIteratorIsEmptyError)
    );
    let mut cache = vec![7, 8, 9].into_iter().cache_or_all(4);
    assert_eq!(cache.next(), Some(7));
    assert_eq!(cache.next(), Some(8));
    assert_eq!(cache.next(), Some(9));
    assert_eq!(cache.next(), None);
}

#[test]
fn exact_cache_counts_pulls() {
    let counter = Cell::new(0u32);
    let mut cache = (0..10)
        .map(|i| {
            counter.set(counter.get() + 1);
            i
        })
        .cache(3)
        .unwrap();
    assert_eq!(counter.get(), 3);
    assert_eq!(cache.next(), Some(0));
    assert_eq!(cache.next(), Some(1));
    assert_eq!(cache.next(), Some(2));
    assert_eq!(counter.get(), 3);
    assert_eq!(cache.next(), Some(3));
    assert_eq!(counter.get(), 4);
}

#[test]
fn two_fills_equal_one() {
    let counter = Cell::new(0u32);
    let mut split = IteratorCache::new((1..=6).map(|i| {
        counter.set(counter.get() + 1);
        i
    }));
    assert_eq!(counter.get(), 0);
    assert_eq!(split.cache_more(2), Ok(()));
    assert_eq!(split.cache_more(3), Ok(()));
    assert_eq!(counter.get(), 5);
    let mut whole = (1..=6).cache(5).unwrap();
    for _ in 0..7 {
        assert_eq!(split.next(), whole.next());
    }
}

#[test]
fn failed_fill_keeps_partial_progress() {
    let mut cache = IteratorCache::new(vec![1, 2].into_iter());
    assert_eq!(cache.cache_more(5), Err(EnqueueWhileIteratorIsEmptyError));
    assert_eq!(cache.next(), Some(1));
    assert_eq!(cache.next(), Some(2));
    assert_eq!(cache.next(), None);
}

#[test]
fn zero_quantity_on_empty_source() {
    let mut cache = Vec::<i32>::new().into_iter().cache(0).unwrap();
    assert_eq!(cache.cache_more(0), Ok(()));
    assert_eq!(cache.cache_more(1), Err(EnqueueWhileIteratorIsEmptyError));
    assert_eq!(cache.next(), None);
}

#[test]
fn up_to_stops_at_quantity() {
    let counter = Cell::new(0u32);
    let mut cache = (0..100)
        .map(|i| {
            counter.set(counter.get() + 1);
            i
        })
        .cache_or_all(4);
    assert_eq!(counter.get(), 4);
    assert_eq!(cache.next(), Some(0));
    assert_eq!(counter.get(), 4);
}

#[test]
fn lazy_after_new() {
    let counter = Cell::new(0u32);
    let mut cache = IteratorCache::new((0..3).map(|i| {
        counter.set(counter.get() + 1);
        i
    }));
    assert_eq!(counter.get(), 0);
    assert_eq!(cache.next(), Some(0));
    assert_eq!(counter.get(), 1);
}

#[test]
fn error_message() {
    assert_eq!(
        EnqueueWhileIteratorIsEmptyError.message(),
        "`cache` or `cache_more` called but the iterator was empty!"
    );
}
