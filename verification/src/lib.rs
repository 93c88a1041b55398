//! Stratified permuted-block randomization for a two-arm study.
//!
//! Subjects are assigned to the arms A and B so that allocation stays
//! balanced overall and within each stratum of the gender x age-band grid.
//! The engine derives a stratification key for each request, keeps one FIFO
//! of pending labels per stratum, refills a queue with a balanced,
//! randomly-ordered block whenever it runs out, and biases the next block
//! toward the under-represented arm once the imbalance reaches half a block.
//! The balance tallies are derived from the append-only assignment history
//! alone, so they can be reconstructed exactly after a restart.

pub mod block;
pub mod counting;
pub mod engine;
pub mod history;
pub mod strata;
