//! Verified core of a maintainer tool for Arch User Repository packages.
use vstd::prelude::*;

pub mod config;
pub mod i18n;
pub mod state;
pub mod text;
pub mod ui;
pub mod workflow;

verus! {

} // verus!
