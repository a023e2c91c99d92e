//! A memory-resident store of recipe records and a query engine over it:
//! multi-criteria filtering, ordering, and aggregate listings.
use vstd::prelude::*;

pub mod model;
pub mod text;
pub mod query;
pub mod store;

verus! {

} // verus!
