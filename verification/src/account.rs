use vstd::prelude::*;

verus! {

/// An account identity, supplied opaquely by the host environment.
///
/// The ledger never authenticates identities itself; it only compares them.
#[derive(Clone, Copy, Debug, PartialEq, Eq, Structural)]
pub struct AccountId(pub u64);

} // verus!
