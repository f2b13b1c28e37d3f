//! A business-rule evaluation engine: rules pair a boolean condition over a
//! snapshot of facts with an ordered list of actions; running the engine
//! decides which rules fire and accumulates what their actions request.

pub mod action;
pub mod binary64;
pub mod condition;
pub mod engine;
pub mod error;
pub mod evaluator;
pub mod executor;
pub mod laws;
pub mod priority;
pub mod rule;
pub mod text;
pub mod value;
