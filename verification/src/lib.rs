//! Persistent data structures built around a memoized lazy suspension: a
//! deferred computation that runs at most once per cell, the lazy stream
//! grown from it, and a family of eager stacks, lists, queues, deques,
//! heaps, search trees and a finite map beside them.

pub mod btree;
pub mod heap;
pub mod item;
pub mod lazy;
pub mod list;
pub mod set;
pub mod stack;
