//! Typed accessors over a byte-oriented key-value store.
//!
//! A store pairs a serializer with a repo of raw bytes. An [`item::Item`] names one
//! slot of it, a [`map::StoreMap`] a collection of slots addressed by composite keys.

pub mod key;
pub mod order;
pub mod distinct;
pub mod capability;
pub mod storage;
pub mod store;
pub mod history;
pub mod item;
pub mod map;
pub mod memory;
pub mod codec;
pub mod cosmwasm;
pub mod balance;
