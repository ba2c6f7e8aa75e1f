//! Record keeping for school homework assignments and their subjects.
//!
//! The heart of the crate is the listing query composer: it turns a bundle
//! of independent, optional filters (free-text search, due-date bounds, a
//! done flag, a set of subject ids) into a single query plan over the
//! homework relation left-outer-joined to its subjects, and evaluates that
//! plan deterministically: every present filter is applied conjunctively,
//! absent filters impose no constraint, and the result order is either
//! ascending by id or, under ranked search, descending by relevance with
//! ascending id as the tie-break.

pub mod calendar;
pub mod laws;
pub mod listing;
pub mod models;
pub mod query;
pub mod store;
pub mod text;
