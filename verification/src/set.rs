//! Persistent sets: search trees and a finite map.

pub mod map;
pub mod red_black;
pub mod tree;
