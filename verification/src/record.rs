//! Account records and their canonical byte encoding.
//!
//! A record is what the ledger commits to for one account: the account's
//! public key and its balance. Its encoding is the 64 bytes of the key
//! followed by the balance as 8 little-endian bytes, 72 bytes in all.

use ark_ff::ToBytes;
use vstd::bytes::{lemma_auto_spec_u64_to_from_le_bytes, spec_u64_to_le_bytes};
use vstd::prelude::*;
use vstd::std_specs::cmp::PartialEqSpecImpl;

verus! {

/// Number of bytes in an encoded public key.
pub const PUBLIC_KEY_SIZE: usize = 64;

/// Number of bytes in an encoded balance.
pub const BALANCE_SIZE: usize = 8;

/// Number of bytes in an encoded account record.
pub const RECORD_SIZE: usize = 72;

/// Account identifier: the index of the account's leaf in the commitment tree.
#[derive(Clone, Copy, Debug, PartialEq, Eq, Structural, Hash, PartialOrd, Ord)]
pub struct AccountId(pub u8);

/// Balance of an account.
#[derive(Clone, Copy, Debug, PartialEq, Eq, Structural, Hash)]
pub struct Amount(pub u64);

/// Public key of an account, held in its encoded form: the two affine
/// coordinates of the key, 32 little-endian bytes each.
///
/// The ledger never looks inside a key. It tells keys apart and writes them
/// into records, and the bytes serve both.
#[derive(Clone, Copy, Debug, Hash)]
pub struct AccountPublicKey {
    pub bytes: [u8; 64],
}

impl View for AccountPublicKey {
    type V = Seq<u8>;

    open spec fn view(&self) -> Seq<u8> {
        self.bytes@
    }
}

impl PartialEq for AccountPublicKey {
    fn eq(&self, other: &Self) -> (same: bool) {
        let mut i: usize = 0;
        while i < 64
            invariant
                i <= 64,
                forall|j: int| 0 <= j < i ==> self.bytes[j] == other.bytes[j],
            decreases 64 - i,
        {
            if self.bytes[i] != other.bytes[i] {
                return false;
            }
            i = i + 1;
        }
        proof {
            assert(self.bytes =~= other.bytes);
        }
        true
    }
}

impl Eq for AccountPublicKey {

}

impl PartialEqSpecImpl for AccountPublicKey {
    open spec fn obeys_eq_spec() -> bool {
        true
    }

    open spec fn eq_spec(&self, other: &Self) -> bool {
        *self == *other
    }
}

impl AccountPublicKey {
    /// Reads a key from its encoded form. The slice is a key exactly when it
    /// is `PUBLIC_KEY_SIZE` bytes long.
    pub fn from_slice(encoded: &[u8]) -> (key: Option<AccountPublicKey>)
        ensures
            key is Some <==> encoded@.len() == PUBLIC_KEY_SIZE,
            key matches Some(k) ==> k@ == encoded@,
    {
        if encoded.len() != 64 {
            return None;
        }
        let mut bytes = [0u8;64];
        let mut i: usize = 0;
        while i < 64
            invariant
                i <= 64,
                encoded@.len() == 64,
                forall|j: int| 0 <= j < i ==> bytes[j] == encoded@[j],
            decreases 64 - i,
        {
            bytes[i] = encoded[i];
            i = i + 1;
        }
        let key = AccountPublicKey { bytes };
        proof {
            assert(key@ =~= encoded@);
        }
        Some(key)
    }
}

/// What the ledger stores and commits to for one account.
#[derive(Clone, Copy, Debug, PartialEq, Eq, Hash)]
pub struct AccountInformation {
    pub public_key: AccountPublicKey,
    pub balance: Amount,
}

/// The encoding of a balance: its 8 bytes, least significant first.
pub open spec fn balance_encoding(balance: Amount) -> Seq<u8> {
    spec_u64_to_le_bytes(balance.0)
}

/// Writes `value` through `ark_ff::ToBytes::write`, which for a `u64` hands
/// the writer the 8 bytes of `to_le_bytes`. Trusted: the result is those
/// bytes, least significant first.
#[verifier::external_body]
fn u64_bytes(value: u64) -> (out: Vec<u8>)
    ensures
        out@ == spec_u64_to_le_bytes(value),
{
    let mut out = Vec::new();
    value.write(&mut out).unwrap();
    out
}

impl AccountInformation {
    /// The canonical encoding of the record: the key, then the balance.
    pub open spec fn encoding(&self) -> Seq<u8> {
        self.public_key@ + balance_encoding(self.balance)
    }

    /// Encodes the record.
    pub fn to_bytes(&self) -> (out: Vec<u8>)
        ensures
            out@ == self.encoding(),
            out@.len() == RECORD_SIZE,
    {
        let mut out: Vec<u8> = Vec::new();
        let mut i: usize = 0;
        while i < 64
            invariant
                i <= 64,
                out@ == self.public_key@.subrange(0, i as int),
            decreases 64 - i,
        {
            out.push(self.public_key.bytes[i]);
            i = i + 1;
            proof {
                assert(out@ =~= self.public_key@.subrange(0, i as int));
            }
        }
        let tail = u64_bytes(self.balance.0);
        proof {
            lemma_auto_spec_u64_to_from_le_bytes();
            assert(self.public_key@.subrange(0, 64) =~= self.public_key@);
        }
        let mut j: usize = 0;
        while j < 8
            invariant
                j <= 8,
                tail@.len() == 8,
                out@ == self.public_key@ + tail@.subrange(0, j as int),
            decreases 8 - j,
        {
            out.push(tail[j]);
            j = j + 1;
            proof {
                assert(out@ =~= self.public_key@ + tail@.subrange(0, j as int));
            }
        }
        proof {
            assert(tail@.subrange(0, 8) =~= tail@);
        }
        out
    }
}

/// An encoded record is `RECORD_SIZE` bytes long.
pub proof fn law_encoding_length(record: AccountInformation)
    ensures
        record.encoding().len() == RECORD_SIZE,
{
    lemma_auto_spec_u64_to_from_le_bytes();
}

/// The encoding is canonical: two records with one encoding are one record.
pub proof fn law_encoding_injective(a: AccountInformation, b: AccountInformation)
    requires
        a.encoding() == b.encoding(),
    ensures
        a == b,
{
    lemma_auto_spec_u64_to_from_le_bytes();
    let ea = a.encoding();
    let eb = b.encoding();
    assert(a.public_key@ =~= ea.subrange(0, 64));
    assert(b.public_key@ =~= eb.subrange(0, 64));
    assert(a.public_key.bytes =~= b.public_key.bytes);
    assert(balance_encoding(a.balance) =~= ea.subrange(64, 72));
    assert(balance_encoding(b.balance) =~= eb.subrange(64, 72));
}

} // verus!
