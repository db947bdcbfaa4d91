//! The ledger state: the account directory together with the shape of the
//! commitment tree, and the two operations that change it.
//!
//! The state decides; it does not hash. Each operation that changes an
//! account hands back the one write that brings a commitment tree in step
//! again, as a `LeafUpdate`. `LedgerView::leaves` says what the leaves of a
//! tree in step with the state are, and every operation states how it changes
//! them.

use crate::commitment::{ceil_log2, law_height_covers, law_height_least, LeafUpdate};
use crate::directory::AccountDirectory;
use crate::model::{
    law_balance_keeps_consistent, law_blank_baseline, law_fresh_account_keeps_consistent,
    law_write_changes_one_leaf, Call, LedgerView,
};
use crate::record::{AccountId, AccountInformation, AccountPublicKey, Amount};
use vstd::arithmetic::power2::{lemma2_to64, lemma_pow2_strictly_increases};
use vstd::bits::lemma_u32_shl_is_mul;
use vstd::prelude::*;

verus! {

/// Why an account was not created.
#[derive(Clone, Copy, Debug, PartialEq, Eq, Structural)]
pub enum AccountError {
    /// The ledger has no slot for the identifier.
    OutOfRange,
    /// An account exists under the identifier.
    DuplicateAccount,
    /// The public key is registered with another identifier.
    DuplicateKey,
}

/// The ledger state.
pub struct State {
    /// Height of the commitment tree.
    height: u32,
    /// Identifiers, keys and records.
    directory: AccountDirectory,
}

impl View for State {
    type V = LedgerView;

    closed spec fn view(&self) -> LedgerView {
        LedgerView {
            height: self.height as nat,
            accounts: self.directory.records(),
            key_index: self.directory.key_index(),
        }
    }
}

impl State {
    /// The state is sound: its representation is, the tree has two leaves at
    /// least, and every assigned identifier has a slot.
    pub closed spec fn wf(&self) -> bool {
        &&& self.directory.wf()
        &&& 1 <= self.height <= usize::BITS
        &&& self@.within_capacity()
    }

    /// An empty ledger with room for `num_accounts` accounts: the tree is the
    /// lowest that has as many leaves.
    pub fn new(num_accounts: usize) -> (state: State)
        requires
            num_accounts >= 2,
        ensures
            state.wf(),
            state@ == LedgerView::blank(ceil_log2(num_accounts as nat)),
            state@.capacity() >= num_accounts,
            state@.consistent(),
    {
        let height = ark_std::log2(num_accounts);
        proof {
            lemma2_to64();
            law_height_least(num_accounts as nat, usize::BITS as nat);
            law_height_covers(num_accounts as nat);
            law_blank_baseline(height as nat);
        }
        State { height, directory: AccountDirectory::new() }
    }

    /// Height of the commitment tree.
    pub fn height(&self) -> (height: u32)
        requires
            self.wf(),
        ensures
            height == self@.height,
            1 <= height <= usize::BITS,
    {
        self.height
    }

    /// Whether the ledger has a slot for `id`.
    pub fn in_range(&self, id: AccountId) -> (held: bool)
        requires
            self.wf(),
        ensures
            held == self@.holds(id),
    {
        if self.height >= 8 {
            proof {
                lemma2_to64();
                if self.height > 8 {
                    lemma_pow2_strictly_increases(8, self.height as nat);
                }
            }
            true
        } else {
            proof {
                lemma2_to64();
                lemma_pow2_strictly_increases(self.height as nat, 8);
                lemma_u32_shl_is_mul(1, self.height);
            }
            (id.0 as u32) < (1u32 << self.height)
        }
    }

    /// The identifier registered with `public_key`, if there is one.
    pub fn lookup_id(&self, public_key: &AccountPublicKey) -> (id: Option<AccountId>)
        requires
            self.wf(),
        ensures
            id == if self@.key_index.contains_key(*public_key) {
                Some(self@.key_index[*public_key])
            } else {
                None
            },
    {
        self.directory.lookup_id(public_key)
    }

    /// The record of `id`, if an account was created under it.
    pub fn lookup_info(&self, id: AccountId) -> (info: Option<AccountInformation>)
        ensures
            info == if self@.assigned(id) {
                Some(self@.accounts[id])
            } else {
                None
            },
    {
        self.directory.lookup_info(id)
    }

    /// Creates an account with balance zero under `id` for `public_key`, and
    /// returns the write that brings the commitment tree in step.
    ///
    /// An account that exists under `id` is replaced, and a key that is
    /// registered already is bound anew; `try_new_account` refuses both.
    pub fn new_account(&mut self, id: AccountId, public_key: AccountPublicKey) -> (update:
        LeafUpdate)
        requires
            old(self).wf(),
            old(self)@.holds(id),
        ensures
            final(self).wf(),
            final(self)@ == old(self)@.with_account(id, public_key),
            update.index == id.0,
            update.leaf@ == (AccountInformation { public_key, balance: Amount(0) }).encoding(),
            update.fits(final(self)@.height),
            final(self)@.leaves() == update.applied(old(self)@.leaves()),
    {
        let info = self.directory.register(id, public_key);
        let leaf = info.to_bytes();
        proof {
            law_write_changes_one_leaf(old(self)@, final(self)@, id, info);
            let after = final(self)@;
            assert forall|other: AccountId| #[trigger] after.assigned(other) implies after.holds(
                other,
            ) by {
                if other != id {
                    assert(old(self)@.assigned(other));
                }
            }
        }
        LeafUpdate { index: id.0 as usize, leaf }
    }

    /// Creates an account as `new_account` does, unless the ledger has no
    /// slot for `id`, an account exists under `id`, or `public_key` is
    /// registered already. Nothing changes where it refuses.
    pub fn try_new_account(&mut self, id: AccountId, public_key: AccountPublicKey) -> (created:
        Result<LeafUpdate, AccountError>)
        requires
            old(self).wf(),
        ensures
            final(self).wf(),
            old(self)@.consistent() ==> final(self)@.consistent(),
            match created {
                Ok(update) => {
                    &&& old(self)@.holds(id)
                    &&& !old(self)@.assigned(id)
                    &&& !old(self)@.key_index.contains_key(public_key)
                    &&& final(self)@ == old(self)@.with_account(id, public_key)
                    &&& update.index == id.0
                    &&& update.leaf@ == (AccountInformation {
                        public_key,
                        balance: Amount(0),
                    }).encoding()
                    &&& update.fits(final(self)@.height)
                    &&& final(self)@.leaves() == update.applied(old(self)@.leaves())
                },
                Err(AccountError::OutOfRange) => {
                    &&& !old(self)@.holds(id)
                    &&& final(self)@ == old(self)@
                },
                Err(AccountError::DuplicateAccount) => {
                    &&& old(self)@.holds(id)
                    &&& old(self)@.assigned(id)
                    &&& final(self)@ == old(self)@
                },
                Err(AccountError::DuplicateKey) => {
                    &&& old(self)@.holds(id)
                    &&& !old(self)@.assigned(id)
                    &&& old(self)@.key_index.contains_key(public_key)
                    &&& final(self)@ == old(self)@
                },
            },
    {
        if !self.in_range(id) {
            return Err(AccountError::OutOfRange);
        }
        if self.directory.lookup_info(id).is_some() {
            return Err(AccountError::DuplicateAccount);
        }
        if self.directory.lookup_id(&public_key).is_some() {
            return Err(AccountError::DuplicateKey);
        }
        proof {
            if old(self)@.consistent() {
                law_fresh_account_keeps_consistent(old(self)@, id, public_key);
            }
        }
        Ok(self.new_account(id, public_key))
    }

    /// Sets the balance of `id` to `new_amount` and returns the write that
    /// brings the commitment tree in step. Where no account exists under
    /// `id`, nothing changes and there is no write.
    pub fn update_balance(&mut self, id: AccountId, new_amount: Amount) -> (update: Option<
        LeafUpdate,
    >)
        requires
            old(self).wf(),
        ensures
            final(self).wf(),
            update is Some <==> old(self)@.assigned(id),
            final(self)@ == old(self)@.with_balance(id, new_amount),
            old(self)@.consistent() ==> final(self)@.consistent(),
            update matches Some(write) ==> {
                &&& write.index == id.0
                &&& write.leaf@ == (AccountInformation {
                    public_key: old(self)@.accounts[id].public_key,
                    balance: new_amount,
                }).encoding()
                &&& write.fits(final(self)@.height)
                &&& final(self)@.leaves() == write.applied(old(self)@.leaves())
            },
    {
        proof {
            if old(self)@.consistent() {
                law_balance_keeps_consistent(old(self)@, id, new_amount);
            }
        }
        if !self.directory.set_balance(id, new_amount) {
            return None;
        }
        let info = match self.directory.lookup_info(id) {
            Some(info) => info,
            None => {
                return None;
            },
        };
        let leaf = info.to_bytes();
        proof {
            assert(old(self)@.assigned(id));
            law_write_changes_one_leaf(old(self)@, final(self)@, id, info);
            let after = final(self)@;
            assert forall|other: AccountId| #[trigger] after.assigned(other) implies after.holds(
                other,
            ) by {
                if other != id {
                    assert(old(self)@.assigned(other));
                }
            }
        }
        Some(LeafUpdate { index: id.0 as usize, leaf })
    }

    /// Makes `call`: the step from the state and a call to the next state
    /// and the write that the commitment tree is to take.
    pub fn apply(&mut self, call: Call) -> (update: Option<LeafUpdate>)
        requires
            old(self).wf(),
            old(self)@.admits(call),
        ensures
            final(self).wf(),
            final(self)@ == old(self)@.after(call),
            update is Some <==> old(self)@.write_of(call) is Some,
            update matches Some(write) ==> {
                &&& Some(write@) == old(self)@.write_of(call)
                &&& write.fits(final(self)@.height)
                &&& final(self)@.leaves() == write.applied(old(self)@.leaves())
            },
            update is None ==> final(self)@.leaves() == old(self)@.leaves(),
    {
        match call {
            Call::NewAccount { id, public_key } => Some(self.new_account(id, public_key)),
            Call::UpdateBalance { id, amount } => self.update_balance(id, amount),
        }
    }
}

} // verus!
