//! How a process opens the named semaphores that guard the shared region.

use vstd::prelude::*;

verus! {

/// Which side opens a semaphore: the server creates it, the client opens
/// the one the server created.
#[allow(non_camel_case_types)]
#[derive(Debug, Clone, Copy, PartialEq, Eq, Structural)]
pub enum AccessType {
    SERVER,
    CLIENT,
}

} // verus!
