//! An in-memory task store with id assignment, completion, deletion,
//! filtering and sorting, and the checks that turn persisted entries back
//! into a store.
pub mod codec;
pub mod laws;
pub mod store;
pub mod task;
pub mod text;
