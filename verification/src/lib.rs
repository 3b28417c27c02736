//! Read and write Brave Shields per-site preferences: the verified core.
use vstd::prelude::*;

pub mod chromium_time;
pub mod commands;
pub mod error;
pub mod json;
pub mod local_state;
pub mod output;
pub mod platform;
pub mod pointer;
pub mod preferences;
pub mod profile;
pub mod scriptlets;
pub mod shields;
pub mod text;
pub mod text_order;

verus! {
} // verus!
