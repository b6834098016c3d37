//! Semantic memory: knowledge distilled from conversations.

pub mod command;
pub mod concept;
pub mod graph;
pub mod heuristics;
pub mod index;
pub mod manager;
pub mod negation;
pub mod persistence;
pub mod relations;
pub mod wording;
