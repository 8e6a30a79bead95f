//! A generic evolutionary-optimisation engine, with two example problem
//! domains: a small stack machine evolved towards an arithmetic program, and
//! a fixed-length lowercase string evolved towards a target phrase.
use vstd::prelude::*;

pub mod calc;
pub mod parallel;
pub mod random;
pub mod rank;
pub mod strings;
pub mod svm;
pub mod population;

pub use population::{Generator, GradedIndividual, Individual, Population};
