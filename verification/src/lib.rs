//! Verified puzzle library built around a coverage/interval engine: closed
//! integer intervals with a merge-to-disjoint algorithm (`interval`,
//! `merge`), and a sensor coverage engine that projects taxicab diamonds
//! onto horizontal rows to count excluded positions and find the single
//! uncovered one (`coverage`).
//!
//! Around the engine stand smaller verified puzzle kernels: grid walks
//! (`matrix`), hand scoring (`rps`), assignment ranges (`cleanup`), signal
//! markers (`signal`), a cycle-recording CPU (`crt`), a rope simulation
//! (`rope`), calorie totals (`calories`) and rucksack priorities
//! (`rucksack`).

pub mod interval;
pub mod merge;
pub mod coverage;
pub mod matrix;
pub mod rps;
pub mod cleanup;
pub mod signal;
pub mod crt;
pub mod rope;
pub mod calories;
pub mod rucksack;
pub mod supply;

