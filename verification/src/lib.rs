//! An attendance-credential ledger: non-fungible tokens tied to events.
//!
//! The ledger issues events and tokens with monotonically assigned ids,
//! tracks which account owns which token, keeps an owner-to-tokens index
//! in lock-step with each token's owner field, and gates minting behind
//! an authorization check (admin, event organizer, or allowlisted minter).
//!
//! The host environment is expected to supply caller identities and
//! timestamps, and to deliver the notices that mutating operations record.

pub mod access;
pub mod account;
pub mod laws;
pub mod ledger;
pub mod notice;
pub mod seq_facts;

pub use access::AccessControl;
pub use access::MinterEntry;
pub use account::AccountId;
pub use ledger::AttendanceNFT;
pub use ledger::EventInfo;
pub use ledger::LedgerError;
pub use ledger::Nft;
pub use ledger::OwnedTokens;
pub use notice::EventCreated;
pub use notice::Mint;
pub use notice::Notice;
pub use notice::Transfer;
