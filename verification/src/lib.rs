//! Collections whose size is capped by a bound fixed with their type.
//!
//! [`BoundedBTreeMap`] is an ordered map that checks its bound wherever it could grow:
//! on insertion, on construction from a map or from an iterator, after a batch of edits, and
//! when it is read from bytes or from text.

pub mod bound;
pub mod bounded_btree_map;
mod btree_ops;
pub mod codec_utils;
pub mod deserialize;
pub mod jam_codec_impl;
pub mod laws;
pub mod scale_codec_impl;

pub use bound::{ConstU32, Get, TryCollect};
pub use bounded_btree_map::BoundedBTreeMap;
