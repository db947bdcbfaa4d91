//! The account directory: which identifier belongs to which public key, and
//! the record stored under each identifier.
//!
//! The directory keeps two maps. `records` takes an identifier to the record
//! of its account. `key_index` takes a public key to the identifier that was
//! last registered with it. Registering overwrites in both maps, so the two
//! are inverse to one another only as long as no identifier and no key is
//! registered twice.

use crate::record::{AccountId, AccountInformation, AccountPublicKey, Amount};
use std::collections::HashMap;
use vstd::prelude::*;

verus! {

broadcast use vstd::std_specs::hash::group_hash_axioms;

/// Identifier bookkeeping of the ledger.
pub struct AccountDirectory {
    /// Record of each assigned identifier.
    id_to_account_info: HashMap<u8, AccountInformation>,
    /// Identifier registered with each public key. No key stands twice.
    pub_key_to_id: Vec<(AccountPublicKey, AccountId)>,
}

/// Whether `key` stands in `entries` at position `at`.
spec fn key_at(
    entries: Seq<(AccountPublicKey, AccountId)>,
    key: AccountPublicKey,
    at: int,
) -> bool {
    0 <= at < entries.len() && entries[at].0 == key
}

/// The map that a list of bindings without repeated keys stands for.
spec fn bindings(entries: Seq<(AccountPublicKey, AccountId)>) -> Map<
    AccountPublicKey,
    AccountId,
> {
    Map::new(
        |key: AccountPublicKey| exists|at: int| key_at(entries, key, at),
        |key: AccountPublicKey| entries[choose|at: int| key_at(entries, key, at)].1,
    )
}

/// No key stands twice in `entries`.
spec fn distinct_keys(entries: Seq<(AccountPublicKey, AccountId)>) -> bool {
    forall|i: int, j: int|
        0 <= i < entries.len() && 0 <= j < entries.len() && i != j ==> entries[i].0
            != entries[j].0
}

impl AccountDirectory {
    /// The record of each assigned identifier.
    pub closed spec fn records(&self) -> Map<AccountId, AccountInformation> {
        Map::new(
            |id: AccountId| self.id_to_account_info@.contains_key(id.0),
            |id: AccountId| self.id_to_account_info@[id.0],
        )
    }

    /// The identifier registered with each public key.
    pub closed spec fn key_index(&self) -> Map<AccountPublicKey, AccountId> {
        bindings(self.pub_key_to_id@)
    }

    /// The representation is sound.
    pub closed spec fn wf(&self) -> bool {
        distinct_keys(self.pub_key_to_id@)
    }

    /// An empty directory.
    pub fn new() -> (directory: AccountDirectory)
        ensures
            directory.wf(),
            directory.records() == Map::<AccountId, AccountInformation>::empty(),
            directory.key_index() == Map::<AccountPublicKey, AccountId>::empty(),
    {
        let directory = AccountDirectory {
            id_to_account_info: HashMap::new(),
            pub_key_to_id: Vec::new(),
        };
        proof {
            assert(directory.records() =~= Map::<AccountId, AccountInformation>::empty());
            assert(directory.key_index() =~= Map::<AccountPublicKey, AccountId>::empty());
        }
        directory
    }

    /// Position of `public_key` among the bindings, if it is registered.
    fn position(&self, public_key: &AccountPublicKey) -> (found: Option<usize>)
        requires
            self.wf(),
        ensures
            found matches Some(at) ==> key_at(self.pub_key_to_id@, *public_key, at as int),
            found is None ==> forall|at: int| !key_at(self.pub_key_to_id@, *public_key, at),
    {
        let mut i: usize = 0;
        while i < self.pub_key_to_id.len()
            invariant
                i <= self.pub_key_to_id.len(),
                forall|at: int| 0 <= at < i ==> !key_at(self.pub_key_to_id@, *public_key, at),
            decreases self.pub_key_to_id.len() - i,
        {
            if self.pub_key_to_id[i].0 == *public_key {
                return Some(i);
            }
            i = i + 1;
        }
        None
    }

    /// The identifier registered with `public_key`, if there is one.
    pub fn lookup_id(&self, public_key: &AccountPublicKey) -> (id: Option<AccountId>)
        requires
            self.wf(),
        ensures
            id == if self.key_index().contains_key(*public_key) {
                Some(self.key_index()[*public_key])
            } else {
                None
            },
    {
        match self.position(public_key) {
            Some(at) => {
                proof {
                    lemma_binding(self.pub_key_to_id@, at as int);
                }
                Some(self.pub_key_to_id[at].1)
            },
            None => None,
        }
    }

    /// The record stored under `id`, if `id` is assigned.
    pub fn lookup_info(&self, id: AccountId) -> (info: Option<AccountInformation>)
        ensures
            info == if self.records().contains_key(id) {
                Some(self.records()[id])
            } else {
                None
            },
    {
        match self.id_to_account_info.get(&id.0) {
            Some(info) => Some(*info),
            None => None,
        }
    }

    /// Registers `id` with `public_key` and stores a record with balance zero
    /// under `id`. An earlier record under `id` and an earlier binding of
    /// `public_key` are overwritten.
    pub fn register(&mut self, id: AccountId, public_key: AccountPublicKey) -> (info:
        AccountInformation)
        requires
            old(self).wf(),
        ensures
            final(self).wf(),
            info == (AccountInformation { public_key, balance: Amount(0) }),
            final(self).records() == old(self).records().insert(id, info),
            final(self).key_index() == old(self).key_index().insert(public_key, id),
    {
        let info = AccountInformation { public_key, balance: Amount(0) };
        let ghost before = self.pub_key_to_id@;
        match self.position(&public_key) {
            Some(at) => {
                self.pub_key_to_id[at] = (public_key, id);
                proof {
                    lemma_rebind(before, at as int, id);
                }
            },
            None => {
                self.pub_key_to_id.push((public_key, id));
                proof {
                    lemma_bind(before, public_key, id);
                }
            },
        }
        self.id_to_account_info.insert(id.0, info);
        proof {
            assert(final(self).records() =~= old(self).records().insert(id, info));
        }
        info
    }

    /// Overwrites the balance stored under `id`. Says whether `id` is
    /// assigned; where it is not, nothing changes.
    pub fn set_balance(&mut self, id: AccountId, amount: Amount) -> (found: bool)
        requires
            old(self).wf(),
        ensures
            final(self).wf(),
            found == old(self).records().contains_key(id),
            final(self).key_index() == old(self).key_index(),
            found ==> final(self).records() == old(self).records().insert(
                id,
                AccountInformation {
                    public_key: old(self).records()[id].public_key,
                    balance: amount,
                },
            ),
            !found ==> final(self).records() == old(self).records(),
    {
        let public_key = match self.id_to_account_info.get(&id.0) {
            Some(info) => info.public_key,
            None => {
                return false;
            },
        };
        let info = AccountInformation { public_key, balance: amount };
        self.id_to_account_info.insert(id.0, info);
        proof {
            assert(final(self).records() =~= old(self).records().insert(id, info));
        }
        true
    }
}

/// In a list without repeated keys, the key at `at` is bound to the
/// identifier at `at`.
proof fn lemma_binding(entries: Seq<(AccountPublicKey, AccountId)>, at: int)
    requires
        distinct_keys(entries),
        0 <= at < entries.len(),
    ensures
        bindings(entries).contains_key(entries[at].0),
        bindings(entries)[entries[at].0] == entries[at].1,
{
    let key = entries[at].0;
    assert(key_at(entries, key, at));
}

/// Overwriting the identifier at `at` rebinds the key that stands there.
proof fn lemma_rebind(entries: Seq<(AccountPublicKey, AccountId)>, at: int, id: AccountId)
    requires
        distinct_keys(entries),
        0 <= at < entries.len(),
    ensures
        distinct_keys(entries.update(at, (entries[at].0, id))),
        bindings(entries.update(at, (entries[at].0, id))) == bindings(entries).insert(
            entries[at].0,
            id,
        ),
{
    let key = entries[at].0;
    let after = entries.update(at, (key, id));
    assert forall|k: AccountPublicKey, i: int| key_at(after, k, i) == key_at(entries, k, i) by {}
    assert(key_at(after, key, at));
    assert forall|k: AccountPublicKey| #[trigger]
        bindings(after).contains_key(k) implies bindings(after)[k] == bindings(entries).insert(
        key,
        id,
    )[k] by {
        let i = choose|i: int| key_at(after, k, i);
        let j = choose|j: int| key_at(entries, k, j);
        assert(key_at(entries, k, i));
        assert(key_at(entries, k, j));
        assert(i == j);
    }
    assert(bindings(after) =~= bindings(entries).insert(key, id));
}

/// Appending a binding of a key that is not in the list binds that key.
proof fn lemma_bind(
    entries: Seq<(AccountPublicKey, AccountId)>,
    key: AccountPublicKey,
    id: AccountId,
)
    requires
        distinct_keys(entries),
        forall|at: int| !key_at(entries, key, at),
    ensures
        distinct_keys(entries.push((key, id))),
        bindings(entries.push((key, id))) == bindings(entries).insert(key, id),
{
    let after = entries.push((key, id));
    assert forall|i: int, j: int|
        0 <= i < after.len() && 0 <= j < after.len() && i != j implies after[i].0
        != after[j].0 by {
        if i < entries.len() {
            assert(!key_at(entries, key, i));
        }
        if j < entries.len() {
            assert(!key_at(entries, key, j));
        }
    }
    assert(key_at(after, key, entries.len() as int));
    assert forall|k: AccountPublicKey| #[trigger]
        bindings(after).contains_key(k) <==> bindings(entries).insert(key, id).contains_key(
            k,
        ) by {
        if bindings(after).contains_key(k) {
            let i = choose|i: int| key_at(after, k, i);
            if i < entries.len() {
                assert(key_at(entries, k, i));
            }
        }
        if bindings(entries).contains_key(k) {
            let i = choose|i: int| key_at(entries, k, i);
            assert(key_at(after, k, i));
        }
    }
    assert forall|k: AccountPublicKey| #[trigger]
        bindings(after).contains_key(k) implies bindings(after)[k] == bindings(entries).insert(
        key,
        id,
    )[k] by {
        let i = choose|i: int| key_at(after, k, i);
        assert(key_at(after, k, i));
        if k == key {
            assert(i == entries.len());
        } else {
            let j = choose|j: int| key_at(entries, k, j);
            assert(key_at(entries, k, i));
            assert(key_at(entries, k, j));
            assert(key_at(after, k, j));
        }
    }
    assert(bindings(after) =~= bindings(entries).insert(key, id));
}

} // verus!
