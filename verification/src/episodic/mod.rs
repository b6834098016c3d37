//! Episodic memory: the conversations themselves.

pub mod analysis;
pub mod manager;
pub mod persistence;
pub mod recall;
pub mod records;
pub mod session;
