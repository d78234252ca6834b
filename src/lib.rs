// Calendar events: a store with range queries in start order, and the
// decisions of the background notifier that alerts shortly before each event.
use vstd::prelude::*;

pub mod event;
pub mod scheduler;
pub mod store;

verus! {

} // verus!
