//! Repositories for todo items and the labels attached to them.
//!
//! The crate holds the storage-independent part of a task tracker:
//!
//! - the entities and the payloads that create and change them, each with a
//!   view, the mathematical value that contracts speak of;
//! - `TodoRepository` and `LabelRepository`, the contracts that a backend has
//!   to meet, stated over the entities that the backend holds;
//! - `fold_entities`, which turns the rows of a join of todos with their
//!   labels into todos, and the other decisions that a relational backend
//!   makes between its statements;
//! - in-memory backends, with the laws that follow from their contracts.
//!
//! A repository is a plain value. Operations that change it take `&mut self`
//! and the others `&self`, so whoever shares one between tasks puts it behind
//! a read/write lock: a reader then needs the read guard and a writer the
//! write guard.
//!
//! Every function is verified against its contract. The one exception is the
//! call into the `validator` crate that counts the characters of a text,
//! whose contract is taken on trust.

pub mod repositories;
