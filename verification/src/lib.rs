//! An exhaustive state-space search engine based on depth-first
//! backtracking with dead-end memoization, together with a sliding-tile
//! puzzle that serves as a worked example of a search state.

pub mod board;
pub mod counters;
pub mod editor;
pub mod engine;
