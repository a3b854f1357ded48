//! Branching-futures engine: a beam-pruned population of counterfactual
//! scenarios kept beside incrementally maintained per-key aggregates and
//! top-K views, with per-scenario top-K and probability-gated alerts.
//!
//! Probabilities and ratios are fixed-point integers (see `prob`), so every
//! comparison of weights is a comparison of integers and the ordering of the
//! beam is a total order.

pub mod prob;
pub mod metrics;
pub mod event;
pub mod retail;
pub mod manufacturing;
pub mod predictors;
pub mod rank;
pub mod diffs;
pub mod beam;
pub mod scenarios;
pub mod views;
pub mod overlays;
pub mod alerts;
