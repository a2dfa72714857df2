//! Named-database handle subsystem of an embedded, transactional key/value
//! store: an environment hosts multiple independently named sub-databases,
//! each addressed by a lightweight integer handle (a slot).  Names are
//! resolved to handles through a transaction, either from the environment's
//! in-memory handle table or from the catalog: the reserved root namespace
//! in which `(name) -> (slot, flags)` entries are persisted as ordinary
//! key/value records.

use vstd::prelude::*;

pub mod codec;
pub mod errors;
pub mod flags;
pub mod env;
pub mod laws;
pub mod store;
pub mod table;

verus! {

} // verus!
