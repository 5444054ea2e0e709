//! The identity of transactions on the network.

use vstd::prelude::*;

use crate::bytes::{lemma_hash_view_injective, same_hash, Hash32};
use crate::hash::{display_hash, inventory_hash_to_display};
use crate::transaction::{
    parsed_transaction, read_transaction, ParsedTransaction, TransactionView,
};
use crate::wire::{Inventory, MSG_TX, MSG_WTX};

verus! {

/// The first four bytes of a version 5 transaction. Version 5 is the first in
/// which signatures and proofs have a digest of their own.
pub const VERSION_5_HEADER: u32 = 0x8000_0005;

/// The witnessed identity of a transaction: what it does, and how it is authorized.
#[derive(Debug, Clone, Copy, PartialEq, Eq)]
pub struct WtxId {
    pub txid: Hash32,
    pub auth_digest: Hash32,
}

/// A transaction as inventories name it: by txid alone, or by txid and digest of
/// the authorizing data.
#[derive(Debug, Clone, Copy, PartialEq, Eq)]
pub enum TxInventoryKey {
    Tx(Hash32),
    Wtx(Hash32, Hash32),
}

/// 32 bytes of all ones: the digest that stands for "none" in the witnessed identity of a
/// transaction that is named by its txid alone.
pub open spec fn no_auth_digest() -> Hash32 {
    vstd::array::spec_array_fill_for_copy_type::<u8, 32>(0xff)
}

/// Whether a transaction with these first four bytes has a digest of its
/// authorizing data: those of version 5 and later do.
pub open spec fn has_auth_digest(header: u32) -> bool {
    header >= VERSION_5_HEADER
}

/// `id` is the witnessed identity of `tx`.
pub open spec fn is_identity(tx: TransactionView, id: WtxId) -> bool {
    has_auth_digest(tx.header) && id.txid@ == tx.txid && id.auth_digest@ == tx.auth_digest
}

/// `id` is the witnessed identity of the transaction in `payload`, or nothing
/// where the payload is malformed or its format has no such identity.
pub open spec fn is_payload_identity(
    payload: Seq<u8>,
    branch_id: u32,
    id: Option<WtxId>,
) -> bool {
    match id {
        Some(id) => parsed_transaction(payload, branch_id) matches Some(tx) && is_identity(tx, id),
        None => parsed_transaction(payload, branch_id) matches Some(tx) ==> !has_auth_digest(
            tx.header,
        ),
    }
}

/// The witnessed identity of a transaction, where its format has one.
pub fn transaction_identity(tx: &ParsedTransaction) -> (id: Option<WtxId>)
    ensures
        match id {
            Some(id) => is_identity(tx@, id),
            None => !has_auth_digest(tx@.header),
        },
        id is Some <==> tx@.header >= 0x8000_0005,
{
    if tx.header >= VERSION_5_HEADER {
        Some(WtxId { txid: tx.txid, auth_digest: tx.auth_digest })
    } else {
        None
    }
}

/// The witnessed identity of the transaction in `payload`, which has at most one.
pub open spec fn payload_identity(payload: Seq<u8>, branch_id: u32) -> Option<WtxId> {
    choose|id: Option<WtxId>| is_payload_identity(payload, branch_id, id)
}

/// The witnessed identity of the transaction in `payload`. What follows the transaction
/// has no say.
pub fn wtxid_from_tx_bytes(payload: &[u8], branch_id: u32) -> (id: Option<WtxId>)
    ensures
        is_payload_identity(payload@, branch_id, id),
        id == payload_identity(payload@, branch_id),
        id is Some ==> forall|rest: Seq<u8>| #[trigger]
            payload_identity(payload@ + rest, branch_id) == id,
{
    let id = match read_transaction(payload, branch_id) {
        Some(tx) => transaction_identity(&tx),
        None => None,
    };
    proof {
        law_identity_is_determined(payload@, branch_id, id, payload_identity(payload@, branch_id));
        assert forall|rest: Seq<u8>| id is Some implies #[trigger] payload_identity(
            payload@ + rest,
            branch_id,
        ) == id by {
            let longer = payload@ + rest;
            assert(parsed_transaction(longer, branch_id) == parsed_transaction(payload@, branch_id));
            assert(is_payload_identity(longer, branch_id, id));
            law_identity_is_determined(longer, branch_id, id, payload_identity(longer, branch_id));
        }
    }
    id
}

/// Whether two witnessed identities are the same.
pub fn same_wtxid(a: &WtxId, b: &WtxId) -> (same: bool)
    ensures
        same == (*a == *b),
{
    same_hash(&a.txid, &b.txid) && same_hash(&a.auth_digest, &b.auth_digest)
}

impl TxInventoryKey {
    /// The key of a transaction that is named by its txid alone.
    pub fn tx(hash: Hash32) -> (key: TxInventoryKey)
        ensures
            key == TxInventoryKey::Tx(hash),
    {
        TxInventoryKey::Tx(hash)
    }

    /// The key of a transaction that is named by txid and authorizing data.
    pub fn wtx(hash: Hash32, auth_digest: Hash32) -> (key: TxInventoryKey)
        ensures
            key == TxInventoryKey::Wtx(hash, auth_digest),
    {
        TxInventoryKey::Wtx(hash, auth_digest)
    }

    pub open spec fn spec_from_inventory(inv: &Inventory) -> Option<TxInventoryKey> {
        if inv.inv_type == MSG_TX {
            Some(TxInventoryKey::Tx(inv.hash))
        } else if inv.inv_type == MSG_WTX {
            match inv.auth_digest {
                Some(auth_digest) => Some(TxInventoryKey::Wtx(inv.hash, auth_digest)),
                None => None,
            }
        } else {
            None
        }
    }

    /// The key of the transaction that an inventory entry names.
    #[verifier::when_used_as_spec(spec_from_inventory)]
    pub fn from_inventory(inv: &Inventory) -> (key: Option<TxInventoryKey>)
        ensures
            key == Self::spec_from_inventory(inv),
    {
        if inv.inv_type == MSG_TX {
            Some(TxInventoryKey::Tx(inv.hash))
        } else if inv.inv_type == MSG_WTX {
            match inv.auth_digest {
                Some(auth_digest) => Some(TxInventoryKey::Wtx(inv.hash, auth_digest)),
                None => None,
            }
        } else {
            None
        }
    }

    pub open spec fn spec_to_inventory(&self) -> Inventory {
        match *self {
            TxInventoryKey::Tx(hash) => Inventory { inv_type: MSG_TX, hash, auth_digest: None },
            TxInventoryKey::Wtx(hash, auth_digest) => Inventory {
                inv_type: MSG_WTX,
                hash,
                auth_digest: Some(auth_digest),
            },
        }
    }

    /// The inventory entry that asks for the transaction.
    #[verifier::when_used_as_spec(spec_to_inventory)]
    pub fn to_inventory(&self) -> (inv: Inventory)
        ensures
            inv == self.spec_to_inventory(),
    {
        match *self {
            TxInventoryKey::Tx(hash) => Inventory { inv_type: MSG_TX, hash, auth_digest: None },
            TxInventoryKey::Wtx(hash, auth_digest) => Inventory {
                inv_type: MSG_WTX,
                hash,
                auth_digest: Some(auth_digest),
            },
        }
    }

    pub open spec fn spec_to_wtxid(&self) -> WtxId {
        match *self {
            TxInventoryKey::Tx(txid) => WtxId { txid, auth_digest: no_auth_digest() },
            TxInventoryKey::Wtx(txid, auth_digest) => WtxId { txid, auth_digest },
        }
    }

    /// The witnessed identity that the key stands for.
    #[verifier::when_used_as_spec(spec_to_wtxid)]
    pub fn to_wtxid(&self) -> (id: WtxId)
        ensures
            id == self.spec_to_wtxid(),
    {
        match *self {
            TxInventoryKey::Tx(txid) => WtxId { txid, auth_digest: [0xffu8; 32] },
            TxInventoryKey::Wtx(txid, auth_digest) => WtxId { txid, auth_digest },
        }
    }

    pub open spec fn spec_from_wtxid(id: &WtxId) -> TxInventoryKey {
        if id.auth_digest == no_auth_digest() {
            TxInventoryKey::Tx(id.txid)
        } else {
            TxInventoryKey::Wtx(id.txid, id.auth_digest)
        }
    }

    /// The key that stands for a witnessed identity.
    #[verifier::when_used_as_spec(spec_from_wtxid)]
    pub fn from_wtxid(id: &WtxId) -> (key: TxInventoryKey)
        ensures
            key == Self::spec_from_wtxid(id),
    {
        let none: Hash32 = [0xffu8; 32];
        if same_hash(&id.auth_digest, &none) {
            TxInventoryKey::Tx(id.txid)
        } else {
            TxInventoryKey::Wtx(id.txid, id.auth_digest)
        }
    }

    pub open spec fn spec_kind(&self) -> &'static str {
        match *self {
            TxInventoryKey::Tx(_) => "tx",
            TxInventoryKey::Wtx(_, _) => "wtx",
        }
    }

    /// How the transaction is named, as a word.
    #[verifier::when_used_as_spec(spec_kind)]
    pub fn kind(&self) -> (kind: &'static str)
        ensures
            kind == self.spec_kind(),
    {
        match *self {
            TxInventoryKey::Tx(_) => "tx",
            TxInventoryKey::Wtx(_, _) => "wtx",
        }
    }

    /// The txid that the key holds.
    pub open spec fn txid(self) -> Hash32 {
        match self {
            TxInventoryKey::Tx(hash) => hash,
            TxInventoryKey::Wtx(hash, _) => hash,
        }
    }

    /// The text form of the txid.
    pub fn display_hash(&self) -> (text: String)
        ensures
            text@ == display_hash(self.txid()@),
    {
        match *self {
            TxInventoryKey::Tx(hash) => inventory_hash_to_display(&hash),
            TxInventoryKey::Wtx(hash, _) => inventory_hash_to_display(&hash),
        }
    }
}

/// Whether two keys are the same.
pub fn same_key(a: &TxInventoryKey, b: &TxInventoryKey) -> (same: bool)
    ensures
        same == (*a == *b),
{
    match (*a, *b) {
        (TxInventoryKey::Tx(x), TxInventoryKey::Tx(y)) => same_hash(&x, &y),
        (TxInventoryKey::Wtx(x, p), TxInventoryKey::Wtx(y, q)) => same_hash(&x, &y) && same_hash(
            &p,
            &q,
        ),
        _ => false,
    }
}

/// A key survives the way through an inventory entry, and the entry that asks for
/// a transaction is one that the protocol allows.
pub proof fn law_key_inventory_round_trip(key: TxInventoryKey)
    ensures
        TxInventoryKey::from_inventory(&key.to_inventory()) == Some(key),
        key.to_inventory().well_formed(),
        key.to_inventory().is_transaction(),
{
}

/// A witnessed identity survives the way through a key.
pub proof fn law_wtxid_key_round_trip(id: WtxId)
    ensures
        TxInventoryKey::from_wtxid(&id).to_wtxid() == id,
{
}

/// A key survives the way through the identity that it stands for, unless it carries
/// the digest that stands for none.
pub proof fn law_key_wtxid_round_trip(key: TxInventoryKey)
    requires
        match key {
            TxInventoryKey::Tx(_) => true,
            TxInventoryKey::Wtx(_, auth_digest) => auth_digest != no_auth_digest(),
        },
    ensures
        TxInventoryKey::from_wtxid(&key.to_wtxid()) == key,
{
}

/// What a payload is keyed by, on the numbers of the format: a transaction of version 5
/// or later has the identity that its txid and the digest of its authorizing data make up;
/// one of version 4, and one of a format before Overwinter, has none. Neither has a payload
/// that is no transaction.
pub proof fn law_identity_by_version(payload: Seq<u8>, branch_id: u32, id: Option<WtxId>)
    requires
        is_payload_identity(payload, branch_id, id),
    ensures
        match parsed_transaction(payload, branch_id) {
            Some(tx) => {
                &&& id is Some <==> tx.header >= 0x8000_0005
                &&& tx.header == 0x8000_0005 || tx.header == 0x8000_0006 ==> id is Some
                &&& tx.header == 0x8000_0004 || tx.header < 0x8000_0000 ==> id is None
                &&& id is Some ==> (id->0).txid@ == tx.txid && (id->0).auth_digest@
                    == tx.auth_digest
            },
            None => id is None,
        },
{
}

/// Which entries of an inventory name a transaction: type 1 by txid alone, type 5 by txid
/// and digest, as far as it carries one; no other.
pub proof fn law_key_of_entry(inv: Inventory)
    ensures
        ({
            let key = TxInventoryKey::from_inventory(&inv);
            &&& inv.inv_type == 1 ==> key == Some(TxInventoryKey::Tx(inv.hash))
            &&& inv.inv_type == 5 && inv.auth_digest is Some ==> key == Some(
                TxInventoryKey::Wtx(inv.hash, inv.auth_digest->0),
            )
            &&& inv.inv_type == 5 && inv.auth_digest is None ==> key is None
            &&& inv.inv_type != 1 && inv.inv_type != 5 ==> key is None
        }),
{
}

/// The entry that asks for a transaction says what is asked for: type 1 with the txid, or
/// type 5 with txid and digest.
pub proof fn law_entry_of_key(hash: Hash32, auth_digest: Hash32)
    ensures
        ({
            let tx = TxInventoryKey::Tx(hash).to_inventory();
            let wtx = TxInventoryKey::Wtx(hash, auth_digest).to_inventory();
            &&& tx.inv_type == 1 && tx.hash == hash && tx.auth_digest is None
            &&& wtx.inv_type == 5 && wtx.hash == hash && wtx.auth_digest == Some(auth_digest)
        }),
{
}

/// A key stands for the identity with its txid and its digest; one without a digest for
/// that with a digest of 32 bytes of all ones. How it is reported follows from which of
/// the two it is.
pub proof fn law_identity_of_key(hash: Hash32, auth_digest: Hash32)
    ensures
        ({
            let tx = TxInventoryKey::Tx(hash);
            let wtx = TxInventoryKey::Wtx(hash, auth_digest);
            &&& tx.to_wtxid().txid == hash
            &&& forall|i: int| 0 <= i < 32 ==> #[trigger] tx.to_wtxid().auth_digest[i] == 0xff
            &&& wtx.to_wtxid().txid == hash && wtx.to_wtxid().auth_digest == auth_digest
            &&& tx.kind()@ == "tx"@ && wtx.kind()@ == "wtx"@
            &&& tx.txid() == hash && wtx.txid() == hash
        }),
{
}

/// A payload has at most one witnessed identity.
pub proof fn law_identity_is_determined(
    payload: Seq<u8>,
    branch_id: u32,
    a: Option<WtxId>,
    b: Option<WtxId>,
)
    requires
        is_payload_identity(payload, branch_id, a),
        is_payload_identity(payload, branch_id, b),
    ensures
        a == b,
{
    if a is Some && b is Some {
        lemma_hash_view_injective((a->0).txid, (b->0).txid);
        lemma_hash_view_injective((a->0).auth_digest, (b->0).auth_digest);
    }
}

} // verus!
