//! Caches items of an iterator ahead of time: a bounded number of upcoming
//! items is pulled now and handed out later, in the order the iterator
//! produced them, before the rest is pulled lazily.

mod cache;
mod error;
pub mod model;

pub use cache::{IterateIntoCache, IteratorCache};
pub use error::EnqueueWhileIteratorIsEmptyError;
