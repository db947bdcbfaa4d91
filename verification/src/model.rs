//! The ledger as a mathematical value, and what holds of it.
//!
//! `LedgerView` is what a `State` stands for: the height of the commitment
//! tree and the two maps of the directory. The operations of the ledger are
//! functions on it, and `LedgerView::leaves` reads off the leaves that a
//! commitment tree in step with the ledger holds. The laws below are stated
//! and proved over these functions.

use crate::commitment::MerkleConfig;
use crate::record::{AccountId, AccountInformation, AccountPublicKey, Amount};
use vstd::arithmetic::power2::pow2;
use vstd::prelude::*;

verus! {

/// The ledger as a mathematical value.
pub struct LedgerView {
    /// Height of the commitment tree, which has `2^height` leaves.
    pub height: nat,
    /// The record of each assigned identifier.
    pub accounts: Map<AccountId, AccountInformation>,
    /// The identifier registered with each public key.
    pub key_index: Map<AccountPublicKey, AccountId>,
}

/// A call that changes the ledger.
#[derive(Clone, Copy, Debug)]
pub enum Call {
    /// `State::new_account` with these arguments.
    NewAccount { id: AccountId, public_key: AccountPublicKey },
    /// `State::update_balance` with these arguments.
    UpdateBalance { id: AccountId, amount: Amount },
}

impl LedgerView {
    /// The ledger without accounts over a tree of height `height`.
    pub open spec fn blank(height: nat) -> LedgerView {
        LedgerView { height, accounts: Map::empty(), key_index: Map::empty() }
    }

    /// Number of account slots, which is the number of leaves.
    pub open spec fn capacity(self) -> nat {
        pow2(self.height)
    }

    /// The ledger has a slot for `id`.
    pub open spec fn holds(self, id: AccountId) -> bool {
        id.0 < self.capacity()
    }

    /// An account was created under `id`.
    pub open spec fn assigned(self, id: AccountId) -> bool {
        self.accounts.contains_key(id)
    }

    /// Every assigned identifier has a slot.
    pub open spec fn within_capacity(self) -> bool {
        forall|id: AccountId| #[trigger] self.assigned(id) ==> self.holds(id)
    }

    /// The two maps are inverse to one another: the key of every record leads
    /// back to the record's identifier, and every registered key is the key
    /// of the record of its identifier.
    pub open spec fn consistent(self) -> bool {
        &&& forall|id: AccountId| #[trigger]
            self.assigned(id) ==> self.key_index.contains_key(self.accounts[id].public_key)
                && self.key_index[self.accounts[id].public_key] == id
        &&& forall|key: AccountPublicKey| #[trigger]
            self.key_index.contains_key(key) ==> self.assigned(self.key_index[key])
                && self.accounts[self.key_index[key]].public_key == key
    }

    /// What the leaf at `index` holds: the encoded record of the account
    /// there, or the blank leaf where there is none.
    pub open spec fn leaf(self, index: int) -> Seq<u8> {
        if 0 <= index < 256 && self.assigned(AccountId(index as u8)) {
            self.accounts[AccountId(index as u8)].encoding()
        } else {
            MerkleConfig::blank_leaf_spec()
        }
    }

    /// The leaves of a commitment tree in step with the ledger.
    pub open spec fn leaves(self) -> Seq<Seq<u8>> {
        Seq::new(self.capacity(), |index: int| self.leaf(index))
    }

    /// The ledger after an account with balance zero is created under `id`
    /// for `public_key`.
    pub open spec fn with_account(self, id: AccountId, public_key: AccountPublicKey) -> LedgerView {
        LedgerView {
            height: self.height,
            accounts: self.accounts.insert(
                id,
                AccountInformation { public_key, balance: Amount(0) },
            ),
            key_index: self.key_index.insert(public_key, id),
        }
    }

    /// The ledger after the balance of `id` is set to `amount`: unchanged
    /// where `id` is not assigned.
    pub open spec fn with_balance(self, id: AccountId, amount: Amount) -> LedgerView {
        if self.assigned(id) {
            LedgerView {
                height: self.height,
                accounts: self.accounts.insert(
                    id,
                    AccountInformation {
                        public_key: self.accounts[id].public_key,
                        balance: amount,
                    },
                ),
                key_index: self.key_index,
            }
        } else {
            self
        }
    }

    /// The ledger after `call`.
    pub open spec fn after(self, call: Call) -> LedgerView {
        match call {
            Call::NewAccount { id, public_key } => self.with_account(id, public_key),
            Call::UpdateBalance { id, amount } => self.with_balance(id, amount),
        }
    }

    /// The ledger after `calls`, first to last.
    pub open spec fn after_all(self, calls: Seq<Call>) -> LedgerView
        decreases calls.len(),
    {
        if calls.len() == 0 {
            self
        } else {
            self.after_all(calls.drop_last()).after(calls.last())
        }
    }

    /// The ledger takes `call`: an account is created only under an
    /// identifier that has a slot.
    pub open spec fn admits(self, call: Call) -> bool {
        match call {
            Call::NewAccount { id, public_key } => self.holds(id),
            Call::UpdateBalance { id, amount } => true,
        }
    }

    /// The ledger takes each of `calls`.
    pub open spec fn admits_all(self, calls: Seq<Call>) -> bool {
        forall|at: int| 0 <= at < calls.len() ==> self.admits(#[trigger] calls[at])
    }

    /// The leaves of a tree that held `leaves` and then took the write of
    /// each of `calls`, first to last, as the ledger went from `self` on.
    pub open spec fn written(self, leaves: Seq<Seq<u8>>, calls: Seq<Call>) -> Seq<Seq<u8>>
        decreases calls.len(),
    {
        if calls.len() == 0 {
            leaves
        } else {
            let so_far = self.written(leaves, calls.drop_last());
            match self.after_all(calls.drop_last()).write_of(calls.last()) {
                Some((index, leaf)) => so_far.update(index, leaf),
                None => so_far,
            }
        }
    }

    /// The write that `call` asks of the commitment tree, as the leaf's
    /// index and its new content; none where the call changes nothing.
    pub open spec fn write_of(self, call: Call) -> Option<(int, Seq<u8>)> {
        match call {
            Call::NewAccount { id, public_key } => Some(
                (id.0 as int, self.after(call).accounts[id].encoding()),
            ),
            Call::UpdateBalance { id, amount } => if self.assigned(id) {
                Some((id.0 as int, self.after(call).accounts[id].encoding()))
            } else {
                None
            },
        }
    }
}

/// Storing a record under an identifier that has a slot changes the leaf of
/// that slot and no other.
pub proof fn law_write_changes_one_leaf(
    before: LedgerView,
    after: LedgerView,
    id: AccountId,
    record: AccountInformation,
)
    requires
        before.holds(id),
        after.height == before.height,
        after.accounts == before.accounts.insert(id, record),
    ensures
        after.leaves() == before.leaves().update(id.0 as int, record.encoding()),
{
    assert forall|index: int| 0 <= index < after.capacity() implies after.leaf(index)
        == before.leaves().update(id.0 as int, record.encoding())[index] by {
        if index != id.0 && index < 256 {
            assert(AccountId(index as u8) != id);
        }
    }
    assert(after.leaves() =~= before.leaves().update(id.0 as int, record.encoding()));
}

/// Whether an account is created under `id` somewhere in `calls`.
pub open spec fn creates(calls: Seq<Call>, id: AccountId) -> bool {
    exists|at: int|
        0 <= at < calls.len() && (#[trigger] calls[at] matches Call::NewAccount {
            id: created,
            public_key,
        } && created == id)
}

/// Whether `key` is registered somewhere in `calls`.
pub open spec fn registers(calls: Seq<Call>, key: AccountPublicKey) -> bool {
    exists|at: int|
        0 <= at < calls.len() && (#[trigger] calls[at] matches Call::NewAccount {
            id,
            public_key,
        } && public_key == key)
}

/// No two calls of `calls` create an account under one identifier or for one
/// public key.
pub open spec fn creates_once(calls: Seq<Call>) -> bool {
    forall|i: int, j: int|
        0 <= i < j < calls.len() ==> match (#[trigger] calls[i], #[trigger] calls[j]) {
            (
                Call::NewAccount { id: first, public_key: first_key },
                Call::NewAccount { id: second, public_key: second_key },
            ) => first != second && first_key != second_key,
            _ => true,
        }
}

/// A ledger without accounts is in step with a tree of blank leaves, and
/// its two maps are inverse to one another.
pub proof fn law_blank_baseline(height: nat)
    ensures
        LedgerView::blank(height).leaves() == MerkleConfig::blank_leaves(height),
        LedgerView::blank(height).capacity() == pow2(height),
        LedgerView::blank(height).within_capacity(),
        LedgerView::blank(height).consistent(),
{
    assert(LedgerView::blank(height).leaves() =~= MerkleConfig::blank_leaves(height));
}

/// The leaves are those of the accounts: two ledgers of one height with the
/// same records are in step with the same leaves.
pub proof fn law_leaves_of_accounts(first: LedgerView, second: LedgerView)
    requires
        first.height == second.height,
        first.accounts == second.accounts,
    ensures
        first.leaves() == second.leaves(),
{
    assert(first.leaves() =~= second.leaves());
}

/// Determinism: two ledgers that were made with one height and took the same
/// calls in the same order are equal, are in step with the same leaves, and
/// asked the same writes of their trees.
pub proof fn law_same_calls_same_leaves(
    first: LedgerView,
    second: LedgerView,
    height: nat,
    calls: Seq<Call>,
)
    requires
        first == LedgerView::blank(height).after_all(calls),
        second == LedgerView::blank(height).after_all(calls),
        LedgerView::blank(height).admits_all(calls),
    ensures
        first == second,
        first.leaves() == second.leaves(),
        first.leaves() == LedgerView::blank(height).written(
            MerkleConfig::blank_leaves(height),
            calls,
        ),
{
    law_blank_baseline(height);
    law_tree_in_step(LedgerView::blank(height), calls);
}

/// A call changes no height.
pub proof fn law_height_is_fixed(start: LedgerView, calls: Seq<Call>)
    ensures
        start.after_all(calls).height == start.height,
    decreases calls.len(),
{
    if calls.len() > 0 {
        law_height_is_fixed(start, calls.drop_last());
    }
}

/// A call that the ledger takes asks for the one write that keeps a tree in
/// step: the leaves after the call are the leaves before it with that write
/// applied, and are the leaves before it where the call asks for none.
pub proof fn law_write_keeps_in_step(before: LedgerView, call: Call)
    requires
        before.within_capacity(),
        before.admits(call),
    ensures
        before.after(call).within_capacity(),
        before.after(call).leaves() == match before.write_of(call) {
            Some((index, leaf)) => before.leaves().update(index, leaf),
            None => before.leaves(),
        },
{
    let after = before.after(call);
    match call {
        Call::NewAccount { id, public_key } => {
            law_write_changes_one_leaf(
                before,
                after,
                id,
                AccountInformation { public_key, balance: Amount(0) },
            );
            assert forall|other: AccountId| #[trigger] after.assigned(other) implies after.holds(
                other,
            ) by {
                if other != id {
                    assert(before.assigned(other));
                }
            }
        },
        Call::UpdateBalance { id, amount } => {
            if before.assigned(id) {
                law_write_changes_one_leaf(
                    before,
                    after,
                    id,
                    AccountInformation {
                        public_key: before.accounts[id].public_key,
                        balance: amount,
                    },
                );
                assert forall|other: AccountId| #[trigger]
                    after.assigned(other) implies after.holds(other) by {
                    if other != id {
                        assert(before.assigned(other));
                    }
                }
            }
        },
    }
}

/// Synchronization: a tree that is in step with the ledger and takes the
/// write of every call stays in step. Its leaves are at every time the
/// encoded records of the assigned identifiers and blank leaves elsewhere.
pub proof fn law_tree_in_step(start: LedgerView, calls: Seq<Call>)
    requires
        start.within_capacity(),
        start.admits_all(calls),
    ensures
        start.after_all(calls).within_capacity(),
        start.after_all(calls).height == start.height,
        start.written(start.leaves(), calls) == start.after_all(calls).leaves(),
    decreases calls.len(),
{
    if calls.len() > 0 {
        let earlier = calls.drop_last();
        assert forall|at: int| 0 <= at < earlier.len() implies start.admits(
            #[trigger] earlier[at],
        ) by {
            assert(earlier[at] == calls[at]);
        }
        law_tree_in_step(start, earlier);
        let before = start.after_all(earlier);
        assert(start.admits(calls[calls.len() - 1]));
        assert(before.admits(calls.last()));
        law_write_keeps_in_step(before, calls.last());
    }
}

/// Frame: setting the balance of `id` leaves the directory of keys, the
/// height, every other record and every other leaf as they were.
pub proof fn law_update_frame(before: LedgerView, id: AccountId, amount: Amount)
    ensures
        before.with_balance(id, amount).height == before.height,
        before.with_balance(id, amount).key_index == before.key_index,
        before.with_balance(id, amount).accounts.dom() == before.accounts.dom(),
        forall|other: AccountId|
            other != id && before.assigned(other) ==> #[trigger] before.with_balance(
                id,
                amount,
            ).accounts[other] == before.accounts[other],
        forall|index: int|
            index != id.0 ==> #[trigger] before.with_balance(id, amount).leaf(index)
                == before.leaf(index),
        before.assigned(id) ==> before.with_balance(id, amount).accounts[id].public_key
            == before.accounts[id].public_key,
{
    let after = before.with_balance(id, amount);
    assert(after.accounts.dom() =~= before.accounts.dom());
    assert forall|index: int| index != id.0 implies #[trigger] after.leaf(index) == before.leaf(
        index,
    ) by {
        if 0 <= index < 256 {
            assert(AccountId(index as u8) != id);
        }
    }
}

/// A miss is a no-op: setting the balance of an identifier under which no
/// account exists changes nothing and asks for no write.
pub proof fn law_miss_changes_nothing(before: LedgerView, id: AccountId, amount: Amount)
    requires
        !before.assigned(id),
    ensures
        before.with_balance(id, amount) == before,
        before.with_balance(id, amount).leaves() == before.leaves(),
        before.write_of(Call::UpdateBalance { id, amount }) is None,
{
}

/// Creating an account under an unassigned identifier for an unregistered
/// key keeps the two maps inverse to one another.
pub proof fn law_fresh_account_keeps_consistent(
    before: LedgerView,
    id: AccountId,
    public_key: AccountPublicKey,
)
    requires
        before.consistent(),
        !before.assigned(id),
        !before.key_index.contains_key(public_key),
    ensures
        before.with_account(id, public_key).consistent(),
{
    let after = before.with_account(id, public_key);
    assert forall|other: AccountId| #[trigger] after.assigned(other) implies after.key_index.contains_key(
        after.accounts[other].public_key,
    ) && after.key_index[after.accounts[other].public_key] == other by {
        if other != id {
            assert(before.assigned(other));
        }
    }
    assert forall|key: AccountPublicKey| #[trigger]
        after.key_index.contains_key(key) implies after.assigned(after.key_index[key])
        && after.accounts[after.key_index[key]].public_key == key by {
        if key != public_key {
            assert(before.key_index.contains_key(key));
        }
    }
}

/// Setting a balance keeps the two maps inverse to one another.
pub proof fn law_balance_keeps_consistent(before: LedgerView, id: AccountId, amount: Amount)
    requires
        before.consistent(),
    ensures
        before.with_balance(id, amount).consistent(),
{
    let after = before.with_balance(id, amount);
    if before.assigned(id) {
        assert forall|other: AccountId| #[trigger]
            after.assigned(other) implies after.key_index.contains_key(
            after.accounts[other].public_key,
        ) && after.key_index[after.accounts[other].public_key] == other by {
            assert(before.assigned(other));
        }
        assert forall|key: AccountPublicKey| #[trigger]
            after.key_index.contains_key(key) implies after.assigned(after.key_index[key])
            && after.accounts[after.key_index[key]].public_key == key by {
            assert(before.key_index.contains_key(key));
            assert(before.assigned(before.key_index[key]));
        }
    }
}

/// Directory bijection: after calls that create no two accounts under one
/// identifier or for one public key, the two maps of a ledger that began
/// without accounts are inverse to one another. Looking up the key of the
/// record of an assigned identifier gives that identifier back.
pub proof fn law_directory_bijection(height: nat, calls: Seq<Call>)
    requires
        creates_once(calls),
    ensures
        LedgerView::blank(height).after_all(calls).consistent(),
        forall|id: AccountId| #[trigger]
            LedgerView::blank(height).after_all(calls).assigned(id) ==> creates(calls, id),
        forall|key: AccountPublicKey| #[trigger]
            LedgerView::blank(height).after_all(calls).key_index.contains_key(key) ==> registers(
                calls,
                key,
            ),
    decreases calls.len(),
{
    let start = LedgerView::blank(height);
    let after = start.after_all(calls);
    if calls.len() > 0 {
        let earlier = calls.drop_last();
        let last = calls.len() - 1;
        assert forall|i: int, j: int| 0 <= i < j < earlier.len() implies match (
            #[trigger] earlier[i],
            #[trigger] earlier[j],
        ) {
            (
                Call::NewAccount { id: first, public_key: first_key },
                Call::NewAccount { id: second, public_key: second_key },
            ) => first != second && first_key != second_key,
            _ => true,
        } by {
            assert(earlier[i] == calls[i]);
            assert(earlier[j] == calls[j]);
        }
        law_directory_bijection(height, earlier);
        let before = start.after_all(earlier);
        assert forall|id: AccountId| creates(earlier, id) implies creates(calls, id) by {
            let at = choose|at: int|
                0 <= at < earlier.len() && (#[trigger] earlier[at] matches Call::NewAccount {
                    id: created,
                    public_key,
                } && created == id);
            assert(calls[at] == earlier[at]);
        }
        assert forall|key: AccountPublicKey| registers(earlier, key) implies registers(
            calls,
            key,
        ) by {
            let at = choose|at: int|
                0 <= at < earlier.len() && (#[trigger] earlier[at] matches Call::NewAccount {
                    id,
                    public_key,
                } && public_key == key);
            assert(calls[at] == earlier[at]);
        }
        match calls.last() {
            Call::NewAccount { id, public_key } => {
                assert(calls[last] == calls.last());
                if before.assigned(id) {
                    assert(creates(earlier, id));
                    let at = choose|at: int|
                        0 <= at < earlier.len() && (
                        #[trigger] earlier[at] matches Call::NewAccount { id: created, public_key }
                            && created == id);
                    assert(calls[at] == earlier[at]);
                    assert(false);
                }
                if before.key_index.contains_key(public_key) {
                    assert(registers(earlier, public_key));
                    let at = choose|at: int|
                        0 <= at < earlier.len() && (
                        #[trigger] earlier[at] matches Call::NewAccount { id, public_key: key }
                            && key == public_key);
                    assert(calls[at] == earlier[at]);
                    assert(false);
                }
                law_fresh_account_keeps_consistent(before, id, public_key);
                assert forall|other: AccountId| #[trigger] after.assigned(other) implies creates(
                    calls,
                    other,
                ) by {
                    if other != id {
                        assert(before.assigned(other));
                    }
                }
                assert forall|key: AccountPublicKey| #[trigger]
                    after.key_index.contains_key(key) implies registers(calls, key) by {
                    if key != public_key {
                        assert(before.key_index.contains_key(key));
                    }
                }
            },
            Call::UpdateBalance { id, amount } => {
                law_balance_keeps_consistent(before, id, amount);
                assert forall|other: AccountId| #[trigger] after.assigned(other) implies creates(
                    calls,
                    other,
                ) by {
                    assert(before.assigned(other));
                }
            },
        }
    }
}

} // verus!
