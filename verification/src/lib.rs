//! Core logic of a distributed programming-contest judge: the typed message
//! protocol, the token service, the worker registry with its load-balanced
//! dispatcher, the contest lifecycle state machine, and the judge execution
//! pipeline that reduces per-test outcomes to a single verdict.

pub mod auth;
pub mod config;
pub mod contest_time;
pub mod error;
pub mod judge;
pub mod machine;
