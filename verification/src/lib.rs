//! Verified core of a bounty-tracking chat bot.
pub mod args;
pub mod confirmation;
pub mod ids;
pub mod message;
pub mod model;
pub mod ping;
pub mod reactions;
pub mod submission;
pub mod text;
pub mod workflow;

use vstd::prelude::*;

verus! {

} // verus!
