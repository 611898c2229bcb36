//! Guessing a secret sentence as a search domain: strategies on strings.

pub mod strategies;
