//! Deterministic backtesting and validation core: the ordering, scheduling,
//! lifecycle and admission rules of the engine, stated and proved with Verus.
#![allow(unused_imports)]

pub mod adapters;
pub mod api;
pub mod domain;
pub mod metrics;
pub mod ordering;
pub mod reporting;
pub mod text;
pub mod engine;
pub mod validation;
