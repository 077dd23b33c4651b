//! Components of a spaced-repetition memorization helper: the item model,
//! the history store interface, the question selectors and the training
//! orchestrator that wires them together.

/// Value types for representations, transforms, learnables, questions and records.
pub mod traits;

/// Text representations, transforms and learnables, and their stored form.
pub mod text;

/// The in-memory history store and chronological ordering of records.
pub mod recorder;

/// Calls whose results depend on chance or on the clock.
mod chance;

/// The SuperMemo-2 selector.
pub mod supermemo2;

/// The recall-curve selector: a continuous forgetting-rate model.
pub mod recall_curve;

/// The round-robin selector and the selector variants as one type.
pub mod algorithm;

/// The training orchestrator: corpus, history store and selector together.
pub mod training;
