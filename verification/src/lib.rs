//! A first-order Markov ("bigram") model of word succession.
//!
//! The library tokenizes a text corpus, counts adjacent token pairs, turns
//! the counts into a weighted successor table, and samples successors
//! proportionally to their observed frequency.  Probabilities are kept as
//! exact rationals: each successor stores the bigram count (`numer`), and
//! each table entry stores the occurrence count of its first token
//! (`denom`), so that the probability of a successor is `numer / denom` and
//! the probabilities under one first token sum to exactly one.

pub mod counts;
pub mod generate;
pub mod model;
pub mod randsrc;
pub mod tokenizer;
