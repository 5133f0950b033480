use vstd::prelude::*;

pub mod text;
pub mod config;
pub mod runnable;
pub mod scheduler;
pub mod svn;
pub mod inputs;
pub mod report;
pub mod commands;
pub mod xge;

verus! {
} // verus!
