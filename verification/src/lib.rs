//! Diagnostics for blocks whose control-flow recovery did not close, and the
//! JSON report that lays them out beside the recovered graph.

pub mod diag;
pub mod ir;
pub mod report;
pub mod text;
