//! A keyboard-layout scoring and evolution library.
//!
//! The crate models keyboard layouts as 47 pairs of symbols (one shifted
//! and one normal symbol per physical position), scores how costly a
//! layout is to type a benchmark text on, and evolves populations of
//! layouts under user-locked positions towards cheaper ones.
#![verifier::loop_isolation(false)]

pub mod calculator;
pub mod chars;
pub mod config;
pub mod dna;
pub mod frequency;
pub mod generation;
pub mod geometry;
pub mod keyboard;
pub mod layout;
pub mod layouts;
pub mod model;
pub mod mutator;
pub mod parser;
pub mod population;
pub mod preservative;
pub mod profiler;
pub mod selection;
pub mod splicer;
pub mod summary;
