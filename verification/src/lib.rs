//! Batten's decision core: the landing lease and its wire, the landing lap's
//! records, the board sweep, and the declared tables a consumer configures,
//! each stated over a mathematical model and proved against it.

#![allow(unused_imports)]

pub mod error;
pub mod exit;
pub mod json;
pub mod land;
pub mod mutate;
pub mod landed;
pub mod lease;
pub mod lint;
pub mod main_watch;
pub mod mcp;
pub mod markers;
pub mod mint;
pub mod minted;
pub mod num;
pub mod outcome;
pub mod output;
pub mod outputs;
pub mod patch;
pub mod text;

use vstd::prelude::*;

verus! {

} // verus!
