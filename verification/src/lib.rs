//! A lesson graph with spaced repetition.
//!
//! Lessons depend on other lessons. Each lesson carries a practice status that
//! decays with time, and each node of the graph carries a readiness that is
//! derived from its own schedule and from the readiness of its prerequisites.
//! The graph keeps that derived state exact under creation, edition and
//! deletion of lessons.
//!
//! - `schedule`: dates, practice statuses, and when a practiced lesson is due.
//! - `lesson`: lessons and graph nodes, with their mathematical views.
//! - `relation`: the prerequisite relation, its paths and its rankings.
//! - `readiness`: the rule that gives a node its readiness.
//! - `index`: the index of the dependents of each lesson.
//! - `storage`: what the graph asks of the store of the lessons.
//! - `builder`: the graph of the lessons of a store.
//! - `graph`: the graph and its operations.
//! - `codec` and `compat`: the stored forms of lessons, and the passage
//!   from the earlier layout to the later one.
//! - `components` and `app`: the state of the screen, as the keys drive it.
//! - `keys`, `pick` and `text`: the keys of a hash map, choosing at random,
//!   and searching in text.

pub mod app;
pub mod builder;
pub mod codec;
pub mod compat;
pub mod components;
pub mod graph;
pub mod index;
pub mod keys;
pub mod lesson;
pub mod pick;
pub mod readiness;
pub mod relation;
pub mod schedule;
pub mod storage;
pub mod text;
