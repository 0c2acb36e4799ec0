use vstd::prelude::*;

use crate::account::AccountId;

verus! {

/// Notice of a change of ownership of one token.
///
/// `from` is `None` when the token was newly minted.
#[derive(Clone, Copy, Debug, PartialEq, Eq, Structural)]
pub struct Transfer {
    pub from: Option<AccountId>,
    pub to: Option<AccountId>,
    pub token_id: u64,
}

/// Notice that a token was minted.
#[derive(Clone, Copy, Debug, PartialEq, Eq, Structural)]
pub struct Mint {
    pub to: AccountId,
    pub token_id: u64,
    pub event_id: u64,
}

/// Notice that an event record was created.
#[derive(Clone, Copy, Debug, PartialEq, Eq, Structural)]
pub struct EventCreated {
    pub event_id: u64,
    pub organizer: AccountId,
}

/// A notice recorded by a mutating operation, for the host to deliver.
///
/// Delivery is fire-and-forget: whether the host sends a notice never
/// affects whether the state transition itself succeeded.
#[derive(Clone, Copy, Debug, PartialEq, Eq, Structural)]
pub enum Notice {
    Transferred(Transfer),
    Minted(Mint),
    Created(EventCreated),
}

} // verus!
