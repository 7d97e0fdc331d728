//! A small in-memory data-access library.
//!
//! Entities (users, products) are plain records identified by a string id.
//! A generic keyed store implements the repository capability set --
//! `find_by_id`, `save`, `delete` -- once for every entity kind, and each
//! concrete repository layers derived queries (by email, by role, by
//! category) on top of it. Free helpers format, sum and validate entity
//! data. Two revisions of the API are offered: `v1`, a single-entity
//! repository, and `v2`, which adds roles, products and derived queries.

pub mod repository;
pub mod text;
pub mod v1;
pub mod v2;
