use vstd::prelude::*;

pub mod backend;
pub mod baseline;
pub mod bitwidth;
pub mod bridge;
pub mod ckks;
pub mod ckks_params;
pub mod ckks_plan;
pub mod cli;
pub mod copies;
pub mod entry;
pub mod error;
pub mod eval;
pub mod ir;
pub mod models;
pub mod ops;
pub mod optimize;
pub mod profile;
pub mod report;
pub mod seqs;
pub mod session;
pub mod tally;
pub mod text;
pub mod wire;

verus! {

} // verus!
