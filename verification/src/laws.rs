use vstd::prelude::*;

use crate::account::AccountId;
use crate::ledger::AttendanceNFT;
use crate::ledger::EventInfo;
use crate::seq_facts::keep_other;
use crate::seq_facts::lemma_filter_props;
use crate::seq_facts::lemma_push_contains;
use crate::seq_facts::no_dups;

verus! {

/// Bidirectional index consistency: in a well-formed ledger, an id is
/// recorded for an account exactly when that account is the token's recorded
/// owner — and then it is recorded exactly once, since entries hold no
/// duplicates.
pub proof fn lemma_index_consistency(l: AttendanceNFT, a: AccountId, token_id: u64)
    requires
        l.wf(),
    ensures
        l.owned_seq(a).contains(token_id) <==> l.owned_by(token_id, a),
        no_dups(l.owned_seq(a)),
{
    assert(l.account_sound(a));
    if l.owned_seq(a).contains(token_id) {
        let k = choose|k: int| 0 <= k < l.owned_seq(a).len() && l.owned_seq(a)[k] == token_id;
        assert(l.owned_by(l.owned_seq(a)[k], a));
    }
    if l.owned_by(token_id, a) {
        let i = token_id - 1;
        assert(l.owned_seq(l.nfts@[i].owner).contains((i + 1) as u64));
    }
}

/// Token ids are strictly increasing along the ledger's token list: each id
/// is its position plus one, so an id, once issued, is never issued again.
pub proof fn lemma_token_ids_strictly_increasing(l: AttendanceNFT, i: int, j: int)
    requires
        l.wf(),
        0 <= i < j < l.nfts@.len(),
    ensures
        l.nfts@[i].id < l.nfts@[j].id,
{
}

/// A self-transfer leaves the caller's owned ids the same collection: the
/// sequence recorded afterwards — the old one with the id filtered out and
/// re-appended, exactly what `transfer` ensures when `to == caller` — holds
/// the same values, the transferred id still exactly once, none duplicated.
pub proof fn lemma_self_transfer_keeps_tokens(l: AttendanceNFT, caller: AccountId, token_id: u64)
    requires
        l.wf(),
        l.owned_by(token_id, caller),
    ensures
        ({
            let after = l.owned_seq(caller).filter(keep_other(token_id)).push(token_id);
            &&& forall|x: u64| #[trigger] after.contains(x) <==> l.owned_seq(caller).contains(x)
            &&& no_dups(after)
        }),
{
    let before = l.owned_seq(caller);
    let f = before.filter(keep_other(token_id));
    let after = f.push(token_id);
    lemma_filter_props(before, keep_other(token_id));
    lemma_index_consistency(l, caller, token_id);
    assert forall|x: u64| #[trigger] after.contains(x) <==> before.contains(x) by {
        lemma_push_contains(f, token_id, x);
    }
    assert(!f.contains(token_id));
    assert forall|k1: int, k2: int| 0 <= k1 < k2 < after.len() implies after[k1] != after[k2] by {
        if k2 == f.len() {
            assert(after[k2] == token_id);
            assert(after[k1] == f[k1]);
            assert(f.contains(f[k1]));
        } else {
            assert(after[k1] == f[k1] && after[k2] == f[k2]);
        }
    }
}

/// Round trip: after `create_event` appends the record built from the
/// caller's inputs and returns `id`, the previous count plus one, reading
/// that id yields a record with exactly those fields.
pub proof fn lemma_create_event_round_trip(
    pre: AttendanceNFT,
    post: AttendanceNFT,
    caller: AccountId,
    name: String,
    date: String,
    location: String,
    id: u64,
)
    requires
        post.events@ == pre.events@.push((EventInfo { name, date, location, organizer: caller })),
        id == pre.events@.len() + 1,
    ensures
        post.event_valid(id),
        post.spec_event(id) == (EventInfo { name, date, location, organizer: caller }),
{
}

} // verus!
