//! A multi-source relational query core for an entity-component world.
//!
//! A classical entity query selects single entities whose archetypes satisfy a
//! predicate.  The plans built here instead select *tuples* of entities
//! connected by typed, directed relationship edges: each plan holds a vector
//! of terms (one filtered access set per tuple slot), a vector of edges, and
//! the index of the main term from which matching starts.  Executing a plan
//! for a candidate main entity enumerates every tuple that satisfies all the
//! term accesses and all the edges.

pub mod access;
pub mod builder;
pub mod component;
pub mod decl;
pub mod dynamic;
pub mod dynamic_plan;
pub mod entity;
pub mod idset;
pub mod map_entities;
pub mod plan;
pub mod world;
