//! Closest-match lookup over labelled values.
//!
//! Given a query string and an ordered list of labels, each paired with a
//! value, [`fuzzy_match`] hands back the value whose label lies nearest the
//! query under a weighted edit distance, provided that distance stays within
//! a threshold. Among labels at the same, least distance the last one wins.
//! [`check`] judges a single label.
//!
//! Every function is verified. The contracts are stated over
//! [`distance::distance`], the edit distance as a function on sequences of
//! characters, over [`evaluator::evaluate`], the outcome of judging one
//! label, and over [`selector::winner`], the position that a scan of the
//! labels settles on. [`script`] shows that the distance is what the
//! cheapest sequence of edits costs.

pub mod config;
pub mod distance;
pub mod evaluator;
pub mod script;
pub mod selector;

pub use config::FuzzyConfig;
pub use evaluator::check;
pub use selector::fuzzy_match;
