use vstd::prelude::*;

use crate::access::AccessControl;
use crate::access::minter_flag;
use crate::account::AccountId;
use crate::notice::EventCreated;
use crate::notice::Mint;
use crate::notice::Notice;
use crate::notice::Transfer;
use crate::seq_facts::keep_other;
use crate::seq_facts::lemma_filter_props;
use crate::seq_facts::lemma_filter_push;
use crate::seq_facts::lemma_push_contains;
use crate::seq_facts::no_dups;

verus! {

/// An organizer-authored event record. Immutable once created; its id is its
/// position in the ledger's event list plus one.
pub struct EventInfo {
    pub name: String,
    pub date: String,
    pub location: String,
    pub organizer: AccountId,
}

/// A non-fungible token: a uniquely identified ownership record bound to one
/// event. Only the `owner` field ever changes after minting.
pub struct Nft {
    pub id: u64,
    pub event_id: u64,
    pub owner: AccountId,
    pub metadata: String,
    pub created_at: u64,
}

/// One account's owned-token ids, in insertion order, without duplicates.
pub struct OwnedTokens {
    pub account: AccountId,
    pub token_ids: Vec<u64>,
}

/// Why a mutating operation was refused. Authorization and existence failures
/// are ordinary outcomes; counter exhaustion is fatal but still leaves the
/// ledger unchanged.
#[derive(Clone, Copy, Debug, PartialEq, Eq, Structural)]
pub enum LedgerError {
    NotAuthorized,
    NotFound,
    CounterOverflow,
}

/// The ledger: all events and tokens, the owner-to-tokens index kept in
/// lock-step with each token's owner field, the access controller, and the
/// notices recorded for the host to deliver.
pub struct AttendanceNFT {
    pub events: Vec<EventInfo>,
    pub nfts: Vec<Nft>,
    pub owned_nfts: Vec<OwnedTokens>,
    pub event_count: u64,
    pub nft_count: u64,
    pub access: AccessControl,
    pub allow_general_minters: bool,
    pub notices: Vec<Notice>,
}

impl Clone for EventInfo {
    fn clone(&self) -> (r: EventInfo)
        ensures
            r == *self,
    {
        EventInfo {
            name: self.name.clone(),
            date: self.date.clone(),
            location: self.location.clone(),
            organizer: self.organizer,
        }
    }
}

impl Clone for Nft {
    fn clone(&self) -> (r: Nft)
        ensures
            r == *self,
    {
        Nft {
            id: self.id,
            event_id: self.event_id,
            owner: self.owner,
            metadata: self.metadata.clone(),
            created_at: self.created_at,
        }
    }
}

/// The token record with its owner replaced.
pub open spec fn with_owner(n: Nft, a: AccountId) -> Nft {
    Nft { id: n.id, event_id: n.event_id, owner: a, metadata: n.metadata, created_at: n.created_at }
}

/// Some index entry records this account.
pub open spec fn has_entry(s: Seq<OwnedTokens>, a: AccountId) -> bool {
    exists|i: int| 0 <= i < s.len() && (#[trigger] s[i]).account == a
}

/// The position of the entry recording this account (meaningful under
/// `unique_accounts`, which makes it unique).
pub open spec fn entry_at(s: Seq<OwnedTokens>, a: AccountId) -> int {
    choose|i: int| 0 <= i < s.len() && (#[trigger] s[i]).account == a
}

/// The token ids the index records for this account; empty when the account
/// has no entry.
pub open spec fn owned_seq_of(s: Seq<OwnedTokens>, a: AccountId) -> Seq<u64> {
    if has_entry(s, a) {
        s[entry_at(s, a)].token_ids@
    } else {
        Seq::<u64>::empty()
    }
}

/// No two index entries record the same account.
pub open spec fn unique_accounts(s: Seq<OwnedTokens>) -> bool {
    forall|i: int, j: int|
        0 <= i < j < s.len() ==> (#[trigger] s[i]).account != (#[trigger] s[j]).account
}

impl AttendanceNFT {
    /// A token id the ledger has issued.
    pub open spec fn token_valid(self, id: u64) -> bool {
        1 <= id <= self.nfts@.len()
    }

    /// An event id the ledger has issued.
    pub open spec fn event_valid(self, id: u64) -> bool {
        1 <= id <= self.events@.len()
    }

    /// The record of an issued token.
    pub open spec fn spec_token(self, id: u64) -> Nft
        recommends
            self.token_valid(id),
    {
        self.nfts@[id - 1]
    }

    /// The record of an issued event.
    pub open spec fn spec_event(self, id: u64) -> EventInfo
        recommends
            self.event_valid(id),
    {
        self.events@[id - 1]
    }

    /// The owner of a token, or `None` for an id never issued.
    pub open spec fn spec_owner_of(self, id: u64) -> Option<AccountId> {
        if self.token_valid(id) {
            Some(self.spec_token(id).owner)
        } else {
            None
        }
    }

    /// The token was issued and its recorded owner is `a`.
    pub open spec fn owned_by(self, id: u64, a: AccountId) -> bool {
        self.token_valid(id) && self.spec_token(id).owner == a
    }

    /// The token ids the index records for `a`, in insertion order.
    pub open spec fn owned_seq(self, a: AccountId) -> Seq<u64> {
        owned_seq_of(self.owned_nfts@, a)
    }

    /// Every id the index records for `a` is an issued token owned by `a`,
    /// and no id is recorded twice.
    pub open spec fn account_sound(self, a: AccountId) -> bool {
        &&& no_dups(self.owned_seq(a))
        &&& forall|k: int|
            0 <= k < self.owned_seq(a).len() ==> self.owned_by(
                #[trigger] self.owned_seq(a)[k],
                a,
            )
    }

    /// The index claims nothing false, for any account.
    pub open spec fn index_sound(self) -> bool {
        forall|a: AccountId| #[trigger] self.account_sound(a)
    }

    /// Every issued token appears in its owner's index entry.
    pub open spec fn index_complete(self) -> bool {
        forall|i: int|
            0 <= i < self.nfts@.len() ==> self.owned_seq(
                (#[trigger] self.nfts@[i]).owner,
            ).contains((i + 1) as u64)
    }

    /// The ledger's invariant: counters agree with the lists, token ids equal
    /// their position plus one, every token references an issued event, and
    /// the owner index agrees bidirectionally with the tokens' owner fields.
    pub open spec fn wf(self) -> bool {
        &&& self.event_count == self.events@.len()
        &&& self.nft_count == self.nfts@.len()
        &&& forall|i: int| 0 <= i < self.nfts@.len() ==> (#[trigger] self.nfts@[i]).id == i + 1
        &&& forall|i: int|
            0 <= i < self.nfts@.len() ==> 1 <= (#[trigger] self.nfts@[i]).event_id
                <= self.events@.len()
        &&& self.access.wf()
        &&& unique_accounts(self.owned_nfts@)
        &&& self.index_sound()
        &&& self.index_complete()
    }

    /// The caller may mint against this event: it is the admin, the event's
    /// organizer, or — when the general allowlist is enabled — recorded there.
    pub open spec fn may_mint(self, caller: AccountId, event_id: u64) -> bool
        recommends
            self.event_valid(event_id),
    {
        ||| caller == self.access.admin
        ||| caller == self.spec_event(event_id).organizer
        ||| (self.allow_general_minters && minter_flag(self.access.minters@, caller))
    }
}

/// The unique entry for `a` sits at position `i`, so `owned_seq_of` reads it.
proof fn lemma_entry_found(s: Seq<OwnedTokens>, a: AccountId, i: int)
    requires
        unique_accounts(s),
        0 <= i < s.len(),
        s[i].account == a,
    ensures
        has_entry(s, a),
        entry_at(s, a) == i,
        owned_seq_of(s, a) == s[i].token_ids@,
{
    assert(has_entry(s, a));
    let c = entry_at(s, a);
    assert(0 <= c < s.len() && s[c].account == a);
    if c != i {
        if c < i {
            assert(s[c].account != s[i].account);
        } else {
            assert(s[i].account != s[c].account);
        }
    }
}

/// Replacing the entry at `i` (same account, new ids) rewrites that account's
/// recorded ids and no other account's.
proof fn lemma_index_update(
    pre: Seq<OwnedTokens>,
    post: Seq<OwnedTokens>,
    i: int,
    a: AccountId,
)
    requires
        unique_accounts(pre),
        0 <= i < pre.len(),
        pre[i].account == a,
        post.len() == pre.len(),
        post[i].account == a,
        forall|k: int| 0 <= k < pre.len() && k != i ==> post[k] == pre[k],
    ensures
        unique_accounts(post),
        owned_seq_of(post, a) == post[i].token_ids@,
        forall|b: AccountId| b != a ==> owned_seq_of(post, b) == owned_seq_of(pre, b),
{
    assert forall|p: int, q: int| 0 <= p < q < post.len() implies (#[trigger] post[p]).account != (
    #[trigger] post[q]).account by {
        assert(pre[p].account != pre[q].account);
        assert(post[p].account == pre[p].account);
        assert(post[q].account == pre[q].account);
    }
    lemma_entry_found(post, a, i);
    assert forall|b: AccountId| b != a implies owned_seq_of(post, b) == owned_seq_of(pre, b) by {
        if has_entry(pre, b) {
            let k = entry_at(pre, b);
            assert(0 <= k < pre.len() && pre[k].account == b);
            assert(k != i);
            lemma_entry_found(post, b, k);
            lemma_entry_found(pre, b, k);
        } else if has_entry(post, b) {
            let k = entry_at(post, b);
            assert(0 <= k < post.len() && post[k].account == b);
            assert(k != i);
            assert(pre[k].account == b);
        }
    }
}

/// Appending an entry for an unrecorded account gives it exactly the new ids
/// and leaves every other account's recorded ids as they were.
proof fn lemma_index_append(pre: Seq<OwnedTokens>, post: Seq<OwnedTokens>, a: AccountId)
    requires
        unique_accounts(pre),
        !has_entry(pre, a),
        post.len() == pre.len() + 1,
        post[pre.len() as int].account == a,
        forall|k: int| 0 <= k < pre.len() ==> post[k] == pre[k],
    ensures
        unique_accounts(post),
        owned_seq_of(post, a) == post[pre.len() as int].token_ids@,
        owned_seq_of(pre, a) == Seq::<u64>::empty(),
        forall|b: AccountId| b != a ==> owned_seq_of(post, b) == owned_seq_of(pre, b),
{
    let n = pre.len() as int;
    assert forall|k: int| 0 <= k < pre.len() implies (#[trigger] pre[k]).account != a by {}
    assert forall|p: int, q: int| 0 <= p < q < post.len() implies (#[trigger] post[p]).account != (
    #[trigger] post[q]).account by {
        if q < n {
            assert(pre[p].account != pre[q].account);
        } else {
            assert(post[p] == pre[p]);
            assert(pre[p].account != a);
        }
    }
    lemma_entry_found(post, a, n);
    assert forall|b: AccountId| b != a implies owned_seq_of(post, b) == owned_seq_of(pre, b) by {
        if has_entry(pre, b) {
            let k = entry_at(pre, b);
            assert(0 <= k < pre.len() && pre[k].account == b);
            lemma_entry_found(post, b, k);
            lemma_entry_found(pre, b, k);
        } else if has_entry(post, b) {
            let k = entry_at(post, b);
            assert(0 <= k < post.len() && post[k].account == b);
            assert(k != n);
            assert(pre[k].account == b);
        }
    }
}

/// Finds the index entry recording `a`, if any.
fn find_entry(index: &Vec<OwnedTokens>, a: AccountId) -> (r: Option<usize>)
    requires
        unique_accounts(index@),
    ensures
        match r {
            Some(i) => 0 <= i < index@.len() && index@[i as int].account == a && has_entry(
                index@,
                a,
            ) && entry_at(index@, a) == i,
            None => !has_entry(index@, a) && owned_seq_of(index@, a) == Seq::<u64>::empty(),
        },
{
    let n = index.len();
    let mut i: usize = 0;
    while i < n
        invariant
            n == index@.len(),
            i <= n,
            unique_accounts(index@),
            forall|k: int| 0 <= k < i ==> (#[trigger] index@[k]).account != a,
        decreases n - i,
    {
        if index[i].account == a {
            proof {
                lemma_entry_found(index@, a, i as int);
            }
            return Some(i);
        }
        i += 1;
    }
    None
}

/// Appends `id` to the ids recorded for `a`, creating the entry if absent.
fn index_add(index: &mut Vec<OwnedTokens>, a: AccountId, id: u64)
    requires
        unique_accounts(old(index)@),
    ensures
        unique_accounts(final(index)@),
        owned_seq_of(final(index)@, a) == owned_seq_of(old(index)@, a).push(id),
        forall|b: AccountId|
            b != a ==> owned_seq_of(final(index)@, b) == owned_seq_of(old(index)@, b),
{
    let found = find_entry(index, a);
    match found {
        Some(i) => {
            let ghost pre = index@;
            let entry = &mut index[i];
            entry.token_ids.push(id);
            proof {
                lemma_index_update(pre, index@, i as int, a);
                lemma_entry_found(pre, a, i as int);
            }
        },
        None => {
            let ghost pre = index@;
            let mut ids: Vec<u64> = Vec::new();
            ids.push(id);
            index.push(OwnedTokens { account: a, token_ids: ids });
            proof {
                lemma_index_append(pre, index@, a);
                assert(owned_seq_of(index@, a) =~= owned_seq_of(pre, a).push(id));
            }
        },
    }
}

/// Removes every occurrence of `id` from the ids recorded for `a`.
fn index_remove(index: &mut Vec<OwnedTokens>, a: AccountId, id: u64)
    requires
        unique_accounts(old(index)@),
    ensures
        unique_accounts(final(index)@),
        owned_seq_of(final(index)@, a) == owned_seq_of(old(index)@, a).filter(keep_other(id)),
        forall|b: AccountId|
            b != a ==> owned_seq_of(final(index)@, b) == owned_seq_of(old(index)@, b),
{
    let found = find_entry(index, a);
    match found {
        Some(i) => {
            let ghost pre = index@;
            let kept = copy_except(&index[i].token_ids, id);
            let entry = &mut index[i];
            entry.token_ids = kept;
            proof {
                lemma_index_update(pre, index@, i as int, a);
                lemma_entry_found(pre, a, i as int);
            }
        },
        None => {
            proof {
                lemma_filter_props(Seq::<u64>::empty(), keep_other(id));
                assert(owned_seq_of(index@, a).filter(keep_other(id)) =~= Seq::<u64>::empty());
            }
        },
    }
}

/// Copies the ids, leaving out every occurrence of `id`.
fn copy_except(src: &Vec<u64>, id: u64) -> (r: Vec<u64>)
    ensures
        r@ == src@.filter(keep_other(id)),
{
    let n = src.len();
    let mut out: Vec<u64> = Vec::new();
    let mut i: usize = 0;
    proof {
        assert(src@.subrange(0, 0) =~= Seq::<u64>::empty());
        lemma_filter_props(Seq::<u64>::empty(), keep_other(id));
        assert(out@ =~= src@.subrange(0, 0).filter(keep_other(id)));
    }
    while i < n
        invariant
            n == src@.len(),
            i <= n,
            out@ == src@.subrange(0, i as int).filter(keep_other(id)),
        decreases n - i,
    {
        let ghost prefix = src@.subrange(0, i as int);
        let v = src[i];
        if v != id {
            out.push(v);
        }
        proof {
            assert(src@.subrange(0, i + 1) =~= prefix.push(src@[i as int]));
            lemma_filter_push(prefix, keep_other(id), src@[i as int]);
        }
        i += 1;
    }
    proof {
        assert(src@.subrange(0, n as int) =~= src@);
    }
    out
}

/// A change that touches neither the tokens nor the owner index keeps the
/// ledger well formed, as long as the event list only grows.
proof fn lemma_wf_tokens_frame(pre: AttendanceNFT, post: AttendanceNFT)
    requires
        pre.wf(),
        post.nfts == pre.nfts,
        post.owned_nfts == pre.owned_nfts,
        post.nft_count == pre.nft_count,
        post.event_count == post.events@.len(),
        pre.events@.len() <= post.events@.len(),
        post.access.wf(),
    ensures
        post.wf(),
{
    assert forall|a: AccountId| #[trigger] post.account_sound(a) by {
        assert(pre.account_sound(a));
        assert(post.owned_seq(a) == pre.owned_seq(a));
        assert forall|k: int| 0 <= k < post.owned_seq(a).len() implies post.owned_by(
            #[trigger] post.owned_seq(a)[k],
            a,
        ) by {
            assert(pre.owned_by(pre.owned_seq(a)[k], a));
        }
    }
    assert forall|i: int| 0 <= i < post.nfts@.len() implies post.owned_seq(
        (#[trigger] post.nfts@[i]).owner,
    ).contains((i + 1) as u64) by {
        assert(pre.owned_seq(pre.nfts@[i].owner).contains((i + 1) as u64));
    }
}

impl AttendanceNFT {
    /// A fresh ledger: no events, no tokens, an empty index and allowlist,
    /// and the given admin. `allow_general_minters` chooses whether minting
    /// also consults the general allowlist or only admin and organizer.
    pub fn new(admin: AccountId, allow_general_minters: bool) -> (r: AttendanceNFT)
        ensures
            r.wf(),
            r.access.admin == admin,
            r.access.minters@.len() == 0,
            r.allow_general_minters == allow_general_minters,
            r.events@.len() == 0,
            r.nfts@.len() == 0,
            r.event_count == 0,
            r.nft_count == 0,
            r.notices@.len() == 0,
            forall|a: AccountId| #[trigger] r.owned_seq(a) == Seq::<u64>::empty(),
    {
        let r = AttendanceNFT {
            events: Vec::new(),
            nfts: Vec::new(),
            owned_nfts: Vec::new(),
            event_count: 0,
            nft_count: 0,
            access: AccessControl::new(admin),
            allow_general_minters,
            notices: Vec::new(),
        };
        proof {
            assert forall|a: AccountId| #[trigger] r.owned_seq(a) == Seq::<u64>::empty() by {
                assert(!has_entry(r.owned_nfts@, a));
            }
            assert forall|a: AccountId| #[trigger] r.account_sound(a) by {
                assert(r.owned_seq(a) == Seq::<u64>::empty());
            }
        }
        r
    }

    /// Creates an event record owned by `caller` and returns its id, the
    /// previous event count plus one. Any caller may create events; only the
    /// exhaustion of the id space is refused, and then nothing changes.
    /// Records an `EventCreated` notice on success.
    pub fn create_event(
        &mut self,
        caller: AccountId,
        name: String,
        date: String,
        location: String,
    ) -> (r: Result<u64, LedgerError>)
        requires
            old(self).wf(),
        ensures
            final(self).wf(),
            old(self).event_count == u64::MAX ==> r == Err::<u64, LedgerError>(
                LedgerError::CounterOverflow,
            ) && *final(self) == *old(self),
            old(self).event_count < u64::MAX ==> ({
                let id = (old(self).event_count + 1) as u64;
                &&& r == Ok::<u64, LedgerError>(id)
                &&& final(self).events@ == old(self).events@.push(
                    (EventInfo { name, date, location, organizer: caller }),
                )
                &&& final(self).event_count == id
                &&& final(self).nfts == old(self).nfts
                &&& final(self).owned_nfts == old(self).owned_nfts
                &&& final(self).nft_count == old(self).nft_count
                &&& final(self).access == old(self).access
                &&& final(self).allow_general_minters == old(self).allow_general_minters
                &&& final(self).notices@ == old(self).notices@.push(
                    Notice::Created((EventCreated { event_id: id, organizer: caller })),
                )
            }),
    {
        if self.event_count == u64::MAX {
            return Err(LedgerError::CounterOverflow);
        }
        let id = self.event_count + 1;
        self.events.push(EventInfo { name, date, location, organizer: caller });
        self.event_count = id;
        self.notices.push(Notice::Created(EventCreated { event_id: id, organizer: caller }));
        proof {
            lemma_wf_tokens_frame(*old(self), *self);
        }
        Ok(id)
    }

    /// Mints a token against an issued event, assigning the next token id.
    ///
    /// Checked in order, first failure wins and leaves the ledger unchanged:
    /// the event must exist (`NotFound`), the caller must be authorized for
    /// it (`NotAuthorized`), and the id space must not be exhausted
    /// (`CounterOverflow`). On success the token is owned by `recipient`,
    /// stamped `now`, appended to the recipient's index entry, and a `Mint`
    /// notice is recorded.
    pub fn mint_nft(
        &mut self,
        caller: AccountId,
        event_id: u64,
        recipient: AccountId,
        metadata: String,
        now: u64,
    ) -> (r: Result<u64, LedgerError>)
        requires
            old(self).wf(),
        ensures
            final(self).wf(),
            !old(self).event_valid(event_id) ==> r == Err::<u64, LedgerError>(
                LedgerError::NotFound,
            ) && *final(self) == *old(self),
            old(self).event_valid(event_id) && !old(self).may_mint(caller, event_id) ==> r
                == Err::<u64, LedgerError>(LedgerError::NotAuthorized) && *final(self) == *old(
                self,
            ),
            old(self).event_valid(event_id) && old(self).may_mint(caller, event_id) && old(
                self,
            ).nft_count == u64::MAX ==> r == Err::<u64, LedgerError>(LedgerError::CounterOverflow)
                && *final(self) == *old(self),
            old(self).event_valid(event_id) && old(self).may_mint(caller, event_id) && old(
                self,
            ).nft_count < u64::MAX ==> ({
                let id = (old(self).nft_count + 1) as u64;
                &&& r == Ok::<u64, LedgerError>(id)
                &&& final(self).nfts@ == old(self).nfts@.push(
                    (Nft { id, event_id, owner: recipient, metadata, created_at: now }),
                )
                &&& final(self).nft_count == id
                &&& final(self).owned_seq(recipient) == old(self).owned_seq(recipient).push(id)
                &&& (forall|b: AccountId|
                    b != recipient ==> final(self).owned_seq(b) == old(self).owned_seq(b))
                &&& final(self).events == old(self).events
                &&& final(self).event_count == old(self).event_count
                &&& final(self).access == old(self).access
                &&& final(self).allow_general_minters == old(self).allow_general_minters
                &&& final(self).notices@ == old(self).notices@.push(
                    Notice::Minted((Mint { to: recipient, token_id: id, event_id })),
                )
            }),
    {
        if id_out_of_range(event_id, self.event_count) {
            return Err(LedgerError::NotFound);
        }
        let n_events = self.events.len();
        assert(event_id - 1 < n_events);
        let eidx = (event_id - 1) as usize;
        assert(eidx as int == event_id - 1);
        let organizer = self.events[eidx].organizer;
        let authorized = caller == self.access.admin || caller == organizer || (
        self.allow_general_minters && self.access.is_minter(caller));
        if !authorized {
            return Err(LedgerError::NotAuthorized);
        }
        if self.nft_count == u64::MAX {
            return Err(LedgerError::CounterOverflow);
        }
        let id = self.nft_count + 1;
        self.nfts.push(Nft { id, event_id, owner: recipient, metadata, created_at: now });
        index_add(&mut self.owned_nfts, recipient, id);
        self.nft_count = id;
        self.notices.push(Notice::Minted(Mint { to: recipient, token_id: id, event_id }));
        proof {
            let pre = *old(self);
            let post = *self;
            let n = pre.nfts@.len() as int;
            let idv = (pre.nft_count + 1) as u64;
            assert forall|a: AccountId| #[trigger] post.account_sound(a) by {
                assert(pre.account_sound(a));
                if a == recipient {
                    let ps = pre.owned_seq(a);
                    let ns = post.owned_seq(a);
                    assert(ns == ps.push(idv));
                    assert forall|k: int| 0 <= k < ns.len() implies post.owned_by(
                        #[trigger] ns[k],
                        a,
                    ) by {
                        if k < ps.len() {
                            assert(ns[k] == ps[k]);
                            assert(pre.owned_by(ps[k], a));
                            assert(post.nfts@[ps[k] - 1] == pre.nfts@[ps[k] - 1]);
                        } else {
                            assert(ns[k] == idv);
                        }
                    }
                    assert forall|k1: int, k2: int| 0 <= k1 < k2 < ns.len() implies ns[k1] != ns[k2]
                    by {
                        if k2 < ps.len() {
                            assert(ns[k1] == ps[k1] && ns[k2] == ps[k2]);
                        } else {
                            assert(ns[k2] == idv);
                            assert(pre.owned_by(ps[k1], a));
                        }
                    }
                } else {
                    assert(post.owned_seq(a) == pre.owned_seq(a));
                    let s = post.owned_seq(a);
                    assert forall|k: int| 0 <= k < s.len() implies post.owned_by(
                        #[trigger] s[k],
                        a,
                    ) by {
                        assert(pre.owned_by(s[k], a));
                        assert(post.nfts@[s[k] - 1] == pre.nfts@[s[k] - 1]);
                    }
                }
            }
            assert forall|i: int| 0 <= i < post.nfts@.len() implies post.owned_seq(
                (#[trigger] post.nfts@[i]).owner,
            ).contains((i + 1) as u64) by {
                if i < n {
                    assert(post.nfts@[i] == pre.nfts@[i]);
                    let o = pre.nfts@[i].owner;
                    assert(pre.owned_seq(o).contains((i + 1) as u64));
                    if o == recipient {
                        lemma_push_contains(pre.owned_seq(o), idv, (i + 1) as u64);
                    }
                } else {
                    let s = post.owned_seq(recipient);
                    assert(s[s.len() - 1] == idv);
                    assert(s.contains(idv));
                }
            }
        }
        Ok(id)
    }

    /// Transfers a token to `to` if the caller is its recorded owner; returns
    /// whether it did. A refused transfer changes nothing. A self-transfer is
    /// an ordinary transfer: the id is removed from and re-appended to the
    /// caller's entry. Records a `Transfer` notice on success.
    pub fn transfer(&mut self, caller: AccountId, to: AccountId, token_id: u64) -> (r: bool)
        requires
            old(self).wf(),
        ensures
            final(self).wf(),
            r == old(self).owned_by(token_id, caller),
            !old(self).owned_by(token_id, caller) ==> *final(self) == *old(self),
            old(self).owned_by(token_id, caller) ==> ({
                &&& final(self).nfts@ == old(self).nfts@.update(
                    token_id - 1,
                    with_owner(old(self).nfts@[token_id - 1], to),
                )
                &&& (to == caller ==> final(self).owned_seq(caller) == old(self).owned_seq(
                    caller,
                ).filter(keep_other(token_id)).push(token_id))
                &&& (to != caller ==> final(self).owned_seq(caller) == old(self).owned_seq(
                    caller,
                ).filter(keep_other(token_id)))
                &&& (to != caller ==> final(self).owned_seq(to) == old(self).owned_seq(to).push(
                    token_id,
                ))
                &&& (forall|b: AccountId|
                    b != caller && b != to ==> final(self).owned_seq(b) == old(self).owned_seq(b))
                &&& final(self).events == old(self).events
                &&& final(self).event_count == old(self).event_count
                &&& final(self).nft_count == old(self).nft_count
                &&& final(self).access == old(self).access
                &&& final(self).allow_general_minters == old(self).allow_general_minters
                &&& final(self).notices@ == old(self).notices@.push(
                    Notice::Transferred((Transfer { from: Some(caller), to: Some(to), token_id })),
                )
            }),
    {
        if id_out_of_range(token_id, self.nft_count) {
            return false;
        }
        let n_tokens = self.nfts.len();
        assert(token_id - 1 < n_tokens);
        let idx = (token_id - 1) as usize;
        assert(idx as int == token_id - 1);
        if self.nfts[idx].owner != caller {
            return false;
        }
        index_remove(&mut self.owned_nfts, caller, token_id);
        index_add(&mut self.owned_nfts, to, token_id);
        let entry = &mut self.nfts[idx];
        entry.owner = to;
        self.notices.push(Notice::Transferred(Transfer { from: Some(caller), to: Some(to), token_id }));
        proof {
            let pre = *old(self);
            let post = *self;
            lemma_filter_props(pre.owned_seq(caller), keep_other(token_id));
            assert(post.nfts@ == pre.nfts@.update(
                token_id - 1,
                with_owner(pre.nfts@[token_id - 1], to),
            ));
            assert forall|a: AccountId| #[trigger] post.account_sound(a) by {
                assert(pre.account_sound(a));
                if a != caller && a != to {
                    assert(pre.account_sound(to));
                }
                let s = post.owned_seq(a);
                assert forall|k: int| 0 <= k < s.len() implies post.owned_by(
                    #[trigger] s[k],
                    a,
                ) by {
                    assert(s.contains(s[k]));
                    if a == caller && a == to {
                        let f = pre.owned_seq(caller).filter(keep_other(token_id));
                        if k < f.len() {
                            assert(s[k] == f[k]);
                            assert(f.contains(f[k]));
                            assert(pre.owned_by(s[k], a) && s[k] != token_id);
                            assert(post.nfts@[s[k] - 1] == pre.nfts@[s[k] - 1]);
                        } else {
                            assert(s[k] == token_id);
                        }
                    } else if a == caller {
                        assert(pre.owned_by(s[k], a) && s[k] != token_id);
                        assert(post.nfts@[s[k] - 1] == pre.nfts@[s[k] - 1]);
                    } else if a == to {
                        let ps = pre.owned_seq(to);
                        if k < ps.len() {
                            assert(s[k] == ps[k]);
                            assert(pre.owned_by(s[k], a));
                            assert(s[k] != token_id);
                            assert(post.nfts@[s[k] - 1] == pre.nfts@[s[k] - 1]);
                        } else {
                            assert(s[k] == token_id);
                        }
                    } else {
                        assert(pre.owned_by(s[k], a));
                        assert(s[k] != token_id);
                        assert(post.nfts@[s[k] - 1] == pre.nfts@[s[k] - 1]);
                    }
                }
                assert(no_dups(s)) by {
                    if a == caller && a == to {
                        let f = pre.owned_seq(caller).filter(keep_other(token_id));
                        assert(!f.contains(token_id));
                        assert forall|k1: int, k2: int| 0 <= k1 < k2 < s.len() implies s[k1]
                            != s[k2] by {
                            if k2 == f.len() {
                                assert(s[k2] == token_id);
                                assert(s[k1] == f[k1]);
                                assert(f.contains(f[k1]));
                            } else {
                                assert(s[k1] == f[k1] && s[k2] == f[k2]);
                            }
                        }
                    } else if a == to {
                        let ps = pre.owned_seq(to);
                        assert(!ps.contains(token_id)) by {
                            if ps.contains(token_id) {
                                let k = choose|k: int|
                                    0 <= k < ps.len() && ps[k] == token_id;
                                assert(pre.owned_by(token_id, to));
                            }
                        }
                        assert forall|k1: int, k2: int| 0 <= k1 < k2 < s.len() implies s[k1]
                            != s[k2] by {
                            if k2 == ps.len() {
                                assert(s[k2] == token_id);
                                assert(s[k1] == ps[k1]);
                                assert(ps.contains(ps[k1]));
                            } else {
                                assert(s[k1] == ps[k1] && s[k2] == ps[k2]);
                            }
                        }
                    }
                }
            }
            assert forall|i: int| 0 <= i < post.nfts@.len() implies post.owned_seq(
                (#[trigger] post.nfts@[i]).owner,
            ).contains((i + 1) as u64) by {
                let tid = (i + 1) as u64;
                if i == token_id - 1 {
                    let s = post.owned_seq(to);
                    assert(s[s.len() - 1] == token_id);
                    assert(s.contains(token_id));
                } else {
                    assert(post.nfts@[i] == pre.nfts@[i]);
                    let o = pre.nfts@[i].owner;
                    assert(pre.owned_seq(o).contains(tid));
                    assert(tid != token_id);
                    if o == caller && o == to {
                        let f = pre.owned_seq(caller).filter(keep_other(token_id));
                        assert(f.contains(tid));
                        lemma_push_contains(f, token_id, tid);
                    } else if o == caller {
                        assert(post.owned_seq(o).contains(tid));
                    } else if o == to {
                        lemma_push_contains(pre.owned_seq(to), token_id, tid);
                    }
                }
            }
        }
        true
    }

    /// The recorded owner of a token, or `None` for an id never issued.
    pub fn owner_of(&self, token_id: u64) -> (r: Option<AccountId>)
        requires
            self.wf(),
        ensures
            r == self.spec_owner_of(token_id),
    {
        if token_id >= 1 && token_id <= self.nft_count {
            let n_tokens = self.nfts.len();
            assert(token_id - 1 < n_tokens);
            let idx = (token_id - 1) as usize;
            assert(idx as int == token_id - 1);
            Some(self.nfts[idx].owner)
        } else {
            None
        }
    }

    /// The token ids the index records for `owner`, in insertion order; empty
    /// for an account that owns nothing.
    pub fn tokens_of(&self, owner: AccountId) -> (r: Vec<u64>)
        requires
            self.wf(),
        ensures
            r@ == self.owned_seq(owner),
    {
        match find_entry(&self.owned_nfts, owner) {
            Some(i) => copy_ids(&self.owned_nfts[i].token_ids),
            None => Vec::new(),
        }
    }

    /// The token ids owned by `owner`; same as `tokens_of`.
    pub fn get_owned_nfts(&self, owner: AccountId) -> (r: Vec<u64>)
        requires
            self.wf(),
        ensures
            r@ == self.owned_seq(owner),
    {
        self.tokens_of(owner)
    }

    /// The full record of a token, or `None` for an id never issued.
    pub fn get_nft(&self, nft_id: u64) -> (r: Option<Nft>)
        requires
            self.wf(),
        ensures
            self.token_valid(nft_id) ==> r == Some(self.spec_token(nft_id)),
            !self.token_valid(nft_id) ==> r == None::<Nft>,
    {
        if nft_id >= 1 && nft_id <= self.nft_count {
            let n_tokens = self.nfts.len();
            assert(nft_id - 1 < n_tokens);
            let idx = (nft_id - 1) as usize;
            assert(idx as int == nft_id - 1);
            Some(self.nfts[idx].clone())
        } else {
            None
        }
    }

    /// The opaque metadata string a token was minted with, or `None` for an
    /// id never issued.
    pub fn token_metadata(&self, token_id: u64) -> (r: Option<String>)
        requires
            self.wf(),
        ensures
            self.token_valid(token_id) ==> r == Some(self.spec_token(token_id).metadata),
            !self.token_valid(token_id) ==> r == None::<String>,
    {
        if token_id >= 1 && token_id <= self.nft_count {
            let n_tokens = self.nfts.len();
            assert(token_id - 1 < n_tokens);
            let idx = (token_id - 1) as usize;
            assert(idx as int == token_id - 1);
            Some(self.nfts[idx].metadata.clone())
        } else {
            None
        }
    }

    /// The full record of an event, or `None` for an id never issued.
    pub fn get_event(&self, event_id: u64) -> (r: Option<EventInfo>)
        requires
            self.wf(),
        ensures
            self.event_valid(event_id) ==> r == Some(self.spec_event(event_id)),
            !self.event_valid(event_id) ==> r == None::<EventInfo>,
    {
        if event_id >= 1 && event_id <= self.event_count {
            let n_events = self.events.len();
            assert(event_id - 1 < n_events);
            let idx = (event_id - 1) as usize;
            assert(idx as int == event_id - 1);
            Some(self.events[idx].clone())
        } else {
            None
        }
    }

    /// How many events have been created.
    pub fn get_event_count(&self) -> (r: u64)
        ensures
            r == self.event_count,
    {
        self.event_count
    }

    /// How many tokens have been minted.
    pub fn get_nft_count(&self) -> (r: u64)
        ensures
            r == self.nft_count,
    {
        self.nft_count
    }

    /// Is the account the admin, or recorded `true` in the allowlist?
    pub fn is_authorized_minter(&self, account: AccountId) -> (r: bool)
        requires
            self.wf(),
        ensures
            r == self.access.allowed_spec(account),
    {
        self.access.is_authorized(account)
    }

    /// Records minting permission for `minter` if the caller is the admin;
    /// returns whether it did. A refused grant changes nothing.
    pub fn add_authorized_minter(&mut self, caller: AccountId, minter: AccountId) -> (r: bool)
        requires
            old(self).wf(),
        ensures
            final(self).wf(),
            r == (caller == old(self).access.admin),
            caller != old(self).access.admin ==> *final(self) == *old(self),
            final(self).access.admin == old(self).access.admin,
            caller == old(self).access.admin ==> minter_flag(
                final(self).access.minters@,
                minter,
            ),
            caller == old(self).access.admin ==> forall|b: AccountId|
                b != minter ==> minter_flag(final(self).access.minters@, b) == minter_flag(
                    old(self).access.minters@,
                    b,
                ),
            final(self).events == old(self).events,
            final(self).nfts == old(self).nfts,
            final(self).owned_nfts == old(self).owned_nfts,
            final(self).event_count == old(self).event_count,
            final(self).nft_count == old(self).nft_count,
            final(self).allow_general_minters == old(self).allow_general_minters,
            final(self).notices == old(self).notices,
    {
        let r = self.access.grant(caller, minter);
        proof {
            lemma_wf_tokens_frame(*old(self), *self);
        }
        r
    }

    /// Withdraws minting permission from `minter` if the caller is the admin;
    /// returns whether it did. A refused revocation changes nothing. The
    /// admin itself stays implicitly authorized whatever is recorded.
    pub fn remove_authorized_minter(&mut self, caller: AccountId, minter: AccountId) -> (r: bool)
        requires
            old(self).wf(),
        ensures
            final(self).wf(),
            r == (caller == old(self).access.admin),
            caller != old(self).access.admin ==> *final(self) == *old(self),
            final(self).access.admin == old(self).access.admin,
            caller == old(self).access.admin ==> !minter_flag(
                final(self).access.minters@,
                minter,
            ),
            caller == old(self).access.admin ==> forall|b: AccountId|
                b != minter ==> minter_flag(final(self).access.minters@, b) == minter_flag(
                    old(self).access.minters@,
                    b,
                ),
            final(self).events == old(self).events,
            final(self).nfts == old(self).nfts,
            final(self).owned_nfts == old(self).owned_nfts,
            final(self).event_count == old(self).event_count,
            final(self).nft_count == old(self).nft_count,
            final(self).allow_general_minters == old(self).allow_general_minters,
            final(self).notices == old(self).notices,
    {
        let r = self.access.revoke(caller, minter);
        proof {
            lemma_wf_tokens_frame(*old(self), *self);
        }
        r
    }

    /// Hands the recorded notices to the host for delivery and clears them.
    /// Nothing else changes.
    pub fn take_notices(&mut self) -> (r: Vec<Notice>)
        requires
            old(self).wf(),
        ensures
            final(self).wf(),
            r@ == old(self).notices@,
            final(self).notices@ == Seq::<Notice>::empty(),
            final(self).events == old(self).events,
            final(self).nfts == old(self).nfts,
            final(self).owned_nfts == old(self).owned_nfts,
            final(self).event_count == old(self).event_count,
            final(self).nft_count == old(self).nft_count,
            final(self).access == old(self).access,
            final(self).allow_general_minters == old(self).allow_general_minters,
    {
        let mut out: Vec<Notice> = Vec::new();
        core::mem::swap(&mut out, &mut self.notices);
        proof {
            lemma_wf_tokens_frame(*old(self), *self);
        }
        out
    }
}

/// An id fails range validation against a counter: below one or above it.
#[verifier::inline]
pub open spec fn spec_id_invalid(id: u64, count: u64) -> bool {
    !(1 <= id <= count)
}

/// Range-checks an issued id against its counter.
fn id_out_of_range(id: u64, count: u64) -> (r: bool)
    ensures
        r == spec_id_invalid(id, count),
{
    id < 1 || id > count
}

/// Copies a list of token ids.
fn copy_ids(src: &Vec<u64>) -> (r: Vec<u64>)
    ensures
        r@ == src@,
{
    let n = src.len();
    let mut out: Vec<u64> = Vec::new();
    let mut i: usize = 0;
    while i < n
        invariant
            n == src@.len(),
            i <= n,
            out@ == src@.subrange(0, i as int),
        decreases n - i,
    {
        out.push(src[i]);
        proof {
            assert(src@.subrange(0, i + 1) =~= src@.subrange(0, i as int).push(src@[i as int]));
        }
        i += 1;
    }
    proof {
        assert(src@.subrange(0, n as int) =~= src@);
    }
    out
}

} // verus!
