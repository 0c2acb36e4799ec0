use vstd::prelude::*;

use crate::account::AccountId;

verus! {

/// One recorded minting permission: absence of an entry means `false`.
pub struct MinterEntry {
    pub account: AccountId,
    pub allowed: bool,
}

/// Holds the administrator identity and the advisory minter allowlist.
///
/// The admin is fixed at construction and is always implicitly authorized,
/// whatever the allowlist records. Only the admin may change the allowlist.
pub struct AccessControl {
    pub admin: AccountId,
    pub minters: Vec<MinterEntry>,
}

/// No two entries record the same account.
pub open spec fn minters_unique(s: Seq<MinterEntry>) -> bool {
    forall|i: int, j: int|
        0 <= i < j < s.len() ==> (#[trigger] s[i]).account != (#[trigger] s[j]).account
}

/// The allowlist records `true` for `a`: some entry for `a` is set to `true`.
///
/// Under `minters_unique` there is at most one entry for `a`, so this is
/// exactly the recorded flag, with absence meaning `false`.
pub open spec fn minter_flag(s: Seq<MinterEntry>, a: AccountId) -> bool {
    exists|i: int| 0 <= i < s.len() && (#[trigger] s[i]).account == a && s[i].allowed
}

impl AccessControl {
    /// Entries never record an account twice.
    pub open spec fn wf(self) -> bool {
        minters_unique(self.minters@)
    }

    /// An account may mint iff it is the admin or the allowlist records `true` for it.
    pub open spec fn allowed_spec(self, a: AccountId) -> bool {
        a == self.admin || minter_flag(self.minters@, a)
    }

    /// A fresh access controller: the given admin, an empty allowlist.
    pub fn new(admin: AccountId) -> (r: AccessControl)
        ensures
            r.wf(),
            r.admin == admin,
            r.minters@.len() == 0,
            forall|a: AccountId| #[trigger] r.allowed_spec(a) <==> a == admin,
    {
        let r = AccessControl { admin, minters: Vec::new() };
        proof {
            assert forall|a: AccountId| #[trigger] r.allowed_spec(a) <==> a == admin by {
                assert(!minter_flag(r.minters@, a));
            }
        }
        r
    }

    /// Looks the account up in the allowlist; absence means `false`.
    pub fn is_minter(&self, a: AccountId) -> (r: bool)
        requires
            self.wf(),
        ensures
            r == minter_flag(self.minters@, a),
    {
        let n = self.minters.len();
        let mut i: usize = 0;
        while i < n
            invariant
                n == self.minters@.len(),
                i <= n,
                self.wf(),
                forall|k: int| 0 <= k < i ==> (#[trigger] self.minters@[k]).account != a,
            decreases n - i,
        {
            if self.minters[i].account == a {
                return self.minters[i].allowed;
            }
            i += 1;
        }
        false
    }

    /// Is the account the admin, or recorded `true` in the allowlist?
    pub fn is_authorized(&self, a: AccountId) -> (r: bool)
        requires
            self.wf(),
        ensures
            r == self.allowed_spec(a),
    {
        a == self.admin || self.is_minter(a)
    }

    /// Records `allowed` for `account`, updating the entry in place or appending one.
    fn set_minter(&mut self, account: AccountId, allowed: bool)
        requires
            old(self).wf(),
        ensures
            final(self).wf(),
            final(self).admin == old(self).admin,
            minter_flag(final(self).minters@, account) == allowed,
            forall|b: AccountId|
                b != account ==> minter_flag(final(self).minters@, b) == minter_flag(
                    old(self).minters@,
                    b,
                ),
    {
        let n = self.minters.len();
        let mut i: usize = 0;
        while i < n
            invariant
                n == self.minters@.len(),
                i <= n,
                self.wf(),
                *self == *old(self),
                forall|k: int| 0 <= k < i ==> (#[trigger] self.minters@[k]).account != account,
            decreases n - i,
        {
            if self.minters[i].account == account {
                let ghost pre = self.minters@;
                let entry = &mut self.minters[i];
                entry.allowed = allowed;
                proof {
                    assert(self.minters@ == pre.update(i as int, MinterEntry { account, allowed }));
                    lemma_minter_update(pre, self.minters@, i as int, account, allowed);
                }
                return ;
            }
            i += 1;
        }
        let ghost pre = self.minters@;
        self.minters.push(MinterEntry { account, allowed });
        proof {
            lemma_minter_append(pre, self.minters@, account, allowed);
        }
    }

    /// If the caller is the admin, records `true` for `account` and returns
    /// `true`; otherwise returns `false` and changes nothing.
    pub fn grant(&mut self, caller: AccountId, account: AccountId) -> (r: bool)
        requires
            old(self).wf(),
        ensures
            final(self).wf(),
            r == (caller == old(self).admin),
            caller != old(self).admin ==> *final(self) == *old(self),
            final(self).admin == old(self).admin,
            caller == old(self).admin ==> minter_flag(final(self).minters@, account),
            caller == old(self).admin ==> forall|b: AccountId|
                b != account ==> minter_flag(final(self).minters@, b) == minter_flag(
                    old(self).minters@,
                    b,
                ),
    {
        if caller != self.admin {
            return false;
        }
        self.set_minter(account, true);
        true
    }

    /// If the caller is the admin, records `false` for `account` and returns
    /// `true`; otherwise returns `false` and changes nothing.
    pub fn revoke(&mut self, caller: AccountId, account: AccountId) -> (r: bool)
        requires
            old(self).wf(),
        ensures
            final(self).wf(),
            r == (caller == old(self).admin),
            caller != old(self).admin ==> *final(self) == *old(self),
            final(self).admin == old(self).admin,
            caller == old(self).admin ==> !minter_flag(final(self).minters@, account),
            caller == old(self).admin ==> forall|b: AccountId|
                b != account ==> minter_flag(final(self).minters@, b) == minter_flag(
                    old(self).minters@,
                    b,
                ),
    {
        if caller != self.admin {
            return false;
        }
        self.set_minter(account, false);
        true
    }
}

/// Updating the unique entry for `account` sets its flag and leaves every
/// other account's flag as it was.
proof fn lemma_minter_update(
    pre: Seq<MinterEntry>,
    post: Seq<MinterEntry>,
    i: int,
    account: AccountId,
    allowed: bool,
)
    requires
        minters_unique(pre),
        0 <= i < pre.len(),
        pre[i].account == account,
        post == pre.update(i, MinterEntry { account, allowed }),
    ensures
        minters_unique(post),
        minter_flag(post, account) == allowed,
        forall|b: AccountId| b != account ==> minter_flag(post, b) == minter_flag(pre, b),
{
    assert(minters_unique(post));
    if allowed {
        assert(post[i].account == account && post[i].allowed);
    } else {
        assert forall|k: int| 0 <= k < post.len() implies !((#[trigger] post[k]).account == account
            && post[k].allowed) by {
            if k != i {
                assert(pre[k].account != account);
            }
        }
    }
    assert forall|b: AccountId| b != account implies minter_flag(post, b) == minter_flag(
        pre,
        b,
    ) by {
        assert forall|k: int| 0 <= k < pre.len() && k != i implies post[k] == pre[k] by {}
        if minter_flag(pre, b) {
            let k = choose|k: int| 0 <= k < pre.len() && (#[trigger] pre[k]).account == b
                && pre[k].allowed;
            assert(k != i);
            assert(post[k].account == b && post[k].allowed);
        }
        if minter_flag(post, b) {
            let k = choose|k: int| 0 <= k < post.len() && (#[trigger] post[k]).account == b
                && post[k].allowed;
            assert(k != i);
            assert(pre[k].account == b && pre[k].allowed);
        }
    }
}

/// Appending an entry for an unrecorded `account` sets its flag and leaves
/// every other account's flag as it was.
proof fn lemma_minter_append(
    pre: Seq<MinterEntry>,
    post: Seq<MinterEntry>,
    account: AccountId,
    allowed: bool,
)
    requires
        minters_unique(pre),
        forall|k: int| 0 <= k < pre.len() ==> (#[trigger] pre[k]).account != account,
        post == pre.push(MinterEntry { account, allowed }),
    ensures
        minters_unique(post),
        minter_flag(post, account) == allowed,
        forall|b: AccountId| b != account ==> minter_flag(post, b) == minter_flag(pre, b),
{
    let n = pre.len() as int;
    assert(post[n].account == account && post[n].allowed == allowed);
    assert forall|k: int| 0 <= k < pre.len() implies post[k] == pre[k] by {}
    if allowed {
        assert(minter_flag(post, account));
    } else {
        assert forall|k: int| 0 <= k < post.len() implies !((#[trigger] post[k]).account == account
            && post[k].allowed) by {
            if k < n {
                assert(pre[k].account != account);
            }
        }
    }
    assert forall|b: AccountId| b != account implies minter_flag(post, b) == minter_flag(
        pre,
        b,
    ) by {
        if minter_flag(pre, b) {
            let k = choose|k: int| 0 <= k < pre.len() && (#[trigger] pre[k]).account == b
                && pre[k].allowed;
            assert(post[k].account == b && post[k].allowed);
        }
        if minter_flag(post, b) {
            let k = choose|k: int| 0 <= k < post.len() && (#[trigger] post[k]).account == b
                && post[k].allowed;
            assert(k != n);
            assert(pre[k].account == b && pre[k].allowed);
        }
    }
}

} // verus!
