//! The verified core of a politeness-aware web crawler: URL normalisation
//! and link filtering, page extraction, the URL store's decisions, per-host
//! rate limiting, the guards on fetched responses, output batching, and the
//! crawl's counters.
use vstd::prelude::*;

pub mod fetch;
pub mod text;
pub mod keyed;
pub mod urls;
pub mod page;
pub mod stats;
pub mod limiter;
pub mod sink;
pub mod store;
pub mod dashboard;

verus! {

} // verus!
