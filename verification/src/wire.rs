//! The byte formats of the Zcash peer-to-peer protocol.

use vstd::prelude::*;

use crate::addr::{host_octets, network_address_bytes, PeerAddr};
use crate::bytes::{
    be_bytes, be_value, le_bytes, le_value, lemma_be_bytes_len, lemma_be_round_trip,
    lemma_be_value_concat, lemma_be_value_zeros, lemma_hash_view_injective, lemma_le_bytes_len,
    lemma_le_bytes_of_value, lemma_le_round_trip, lemma_le_value_bound, lemma_span_values, push_all,
    push_le, read_be, read_hash, read_le, Hash32,
};
use crate::error::{ErrorView, IngressError};

verus! {

/// Inventory type of a transaction announced by its txid alone.
pub const MSG_TX: u32 = 1;

/// Inventory type of a block.
pub const MSG_BLOCK: u32 = 2;

/// Inventory type of a transaction announced by txid and authorizing data digest.
pub const MSG_WTX: u32 = 5;

/// An integer in the variable-length "compact size" form.
pub open spec fn compact_size_bytes(v: u64) -> Seq<u8> {
    if v < 0xfd {
        seq![v as u8]
    } else if v <= 0xffff {
        seq![0xfdu8] + le_bytes(v as nat, 2)
    } else if v <= 0xffff_ffff {
        seq![0xfeu8] + le_bytes(v as nat, 4)
    } else {
        seq![0xffu8] + le_bytes(v as nat, 8)
    }
}

/// How many bytes follow the first byte of a compact size.
pub open spec fn compact_size_tail(first: u8) -> int {
    if first < 0xfd {
        0
    } else if first == 0xfd {
        2
    } else if first == 0xfe {
        4
    } else {
        8
    }
}

/// The compact size at `at` and the position after it, where it is complete.
pub open spec fn compact_size_at(data: Seq<u8>, at: int) -> Option<(u64, int)> {
    if !(0 <= at < data.len()) {
        None
    } else {
        let tail = compact_size_tail(data[at]);
        if tail == 0 {
            Some((data[at] as u64, at + 1))
        } else if at + 1 + tail <= data.len() {
            Some((le_value(data.subrange(at + 1, at + 1 + tail)) as u64, at + 1 + tail))
        } else {
            None
        }
    }
}

/// Appends `v` as a compact size.
pub fn encode_compact_size(v: u64, out: &mut Vec<u8>)
    ensures
        final(out)@ == old(out)@ + compact_size_bytes(v),
{
    if v < 0xfd {
        out.push(v as u8);
    } else if v <= 0xffff {
        out.push(0xfd);
        push_le(out, v, 2);
    } else if v <= 0xffff_ffff {
        out.push(0xfe);
        push_le(out, v, 4);
    } else {
        out.push(0xff);
        push_le(out, v, 8);
    }
    assert(out@ =~= old(out)@ + compact_size_bytes(v));
}

/// The error of a payload that ends too early.
pub open spec fn truncated() -> ErrorView {
    ErrorView::Wire("payload is truncated"@)
}

pub(crate) fn truncated_error() -> (error: IngressError)
    ensures
        error@ == truncated(),
{
    IngressError::Wire("payload is truncated".to_owned())
}

/// Reads the compact size at `cursor` and moves `cursor` behind it.
pub fn decode_compact_size(data: &[u8], cursor: &mut usize) -> (result: Result<u64, IngressError>)
    ensures
        match result {
            Ok(v) => compact_size_at(data@, *old(cursor) as int) == Some(
                (v, *final(cursor) as int),
            ),
            Err(error) => {
                &&& compact_size_at(data@, *old(cursor) as int) is None
                &&& *final(cursor) == *old(cursor)
                &&& error@ == truncated()
            },
        },
{
    let at: usize = *cursor;
    if at >= data.len() {
        return Err(truncated_error());
    }
    let first: u8 = data[at];
    let tail: usize = if first < 0xfd {
        0
    } else if first == 0xfd {
        2
    } else if first == 0xfe {
        4
    } else {
        8
    };
    if tail == 0 {
        *cursor = at + 1;
        return Ok(first as u64);
    }
    if data.len() - at - 1 < tail {
        return Err(truncated_error());
    }
    let v: u64 = read_le(data, at + 1, tail);
    *cursor = at + 1 + tail;
    Ok(v)
}

/// The signed number that four little-endian bytes stand for.
pub open spec fn i32_from_le(s: Seq<u8>) -> int {
    let v = le_value(s) as int;
    if v < 0x8000_0000 {
        v
    } else {
        v - 0x1_0000_0000
    }
}

/// Reads a little-endian `i32` at `cursor` and moves `cursor` behind it.
pub fn read_i32_le(data: &[u8], cursor: &mut usize) -> (result: Result<i32, IngressError>)
    ensures
        match result {
            Ok(v) => {
                &&& *old(cursor) + 4 <= data@.len()
                &&& *final(cursor) == *old(cursor) + 4
                &&& v == i32_from_le(data@.subrange(*old(cursor) as int, *old(cursor) + 4))
            },
            Err(error) => {
                &&& *old(cursor) + 4 > data@.len()
                &&& *final(cursor) == *old(cursor)
                &&& error@ == truncated()
            },
        },
{
    let at: usize = *cursor;
    if at > data.len() || data.len() - at < 4 {
        return Err(truncated_error());
    }
    let v: u64 = read_le(data, at, 4);
    proof {
        lemma_le_value_bound(data@.subrange(at as int, at + 4));
        lemma_span_values();
    }
    *cursor = at + 4;
    if v < 0x8000_0000 {
        Ok(v as i32)
    } else {
        Ok((v as i64 - 0x1_0000_0000) as i32)
    }
}

/// One entry of an `inv` or `getdata` message.
#[derive(Debug, Clone, Copy, PartialEq, Eq)]
pub struct Inventory {
    pub inv_type: u32,
    pub hash: Hash32,
    /// Digest of the authorizing data, for entries of type [`MSG_WTX`].
    pub auth_digest: Option<Hash32>,
}

impl Inventory {
    /// Only entries of type [`MSG_WTX`] carry a digest of authorizing data.
    pub open spec fn well_formed(self) -> bool {
        self.auth_digest is Some <==> self.inv_type == MSG_WTX
    }

    pub open spec fn spec_is_block(&self) -> bool {
        self.inv_type == MSG_BLOCK
    }

    pub open spec fn spec_is_transaction(&self) -> bool {
        self.inv_type == MSG_TX || self.inv_type == MSG_WTX
    }

    /// Whether the entry names a block.
    #[verifier::when_used_as_spec(spec_is_block)]
    pub fn is_block(&self) -> (yes: bool)
        ensures
            yes == self.spec_is_block(),
    {
        self.inv_type == MSG_BLOCK
    }

    /// Whether the entry names a transaction.
    #[verifier::when_used_as_spec(spec_is_transaction)]
    pub fn is_transaction(&self) -> (yes: bool)
        ensures
            yes == self.spec_is_transaction(),
    {
        self.inv_type == MSG_TX || self.inv_type == MSG_WTX
    }
}

/// The bytes of one inventory entry.
pub open spec fn inventory_bytes(inv: Inventory) -> Seq<u8> {
    le_bytes(inv.inv_type as nat, 4) + inv.hash@ + match inv.auth_digest {
        Some(auth) => auth@,
        None => seq![],
    }
}

/// The bytes of inventory entries one after the other.
pub open spec fn inventory_list_bytes(invs: Seq<Inventory>) -> Seq<u8>
    decreases invs.len(),
{
    if invs.len() == 0 {
        seq![]
    } else {
        inventory_list_bytes(invs.drop_last()) + inventory_bytes(invs.last())
    }
}

/// The payload of an `inv` or `getdata` message.
pub open spec fn inventory_message(invs: Seq<Inventory>) -> Seq<u8> {
    compact_size_bytes(invs.len() as u64) + inventory_list_bytes(invs)
}

/// The payload of a message that lists `invs`.
pub fn encode_inventory(invs: &Vec<Inventory>) -> (out: Vec<u8>)
    ensures
        out@ == inventory_message(invs@),
{
    let mut out: Vec<u8> = Vec::new();
    encode_compact_size(invs.len() as u64, &mut out);
    assert(out@ =~= compact_size_bytes(invs.len() as u64));
    let ghost head = out@;
    let mut i: usize = 0;
    assert(out@ =~= head + inventory_list_bytes(invs@.take(0)));
    while i < invs.len()
        invariant
            i <= invs.len(),
            out@ == head + inventory_list_bytes(invs@.take(i as int)),
        decreases invs.len() - i,
    {
        let inv: Inventory = invs[i];
        push_le(&mut out, inv.inv_type as u64, 4);
        push_all(&mut out, &inv.hash);
        if let Some(auth) = inv.auth_digest {
            push_all(&mut out, &auth);
        }
        assert(invs@.take(i + 1).drop_last() =~= invs@.take(i as int));
        assert(out@ =~= head + inventory_list_bytes(invs@.take(i + 1)));
        i = i + 1;
    }
    assert(invs@.take(i as int) =~= invs@);
    out
}

/// The bytes of `part` stand in `data` at `at`.
pub open spec fn holds_at(data: Seq<u8>, at: int, part: Seq<u8>) -> bool {
    0 <= at && at + part.len() <= data.len() && data.subrange(at, at + part.len()) == part
}

/// `payload` is the message that lists `invs`: a count and that many entries.
/// Bytes after the last entry are ignored.
pub open spec fn lists_inventory(payload: Seq<u8>, invs: Seq<Inventory>) -> bool {
    compact_size_at(payload, 0) matches Some((count, at)) && {
        &&& invs.len() == count
        &&& forall|i: int| 0 <= i < invs.len() ==> (#[trigger] invs[i]).well_formed()
        &&& holds_at(payload, at, inventory_list_bytes(invs))
    }
}

proof fn lemma_inventory_bytes_len(inv: Inventory)
    ensures
        inventory_bytes(inv).len() == (if inv.auth_digest is Some {
            68int
        } else {
            36int
        }),
{
    lemma_le_bytes_len(inv.inv_type as nat, 4);
}

/// At most one well-formed entry stands at a position.
proof fn lemma_entry_unique(data: Seq<u8>, at: int, a: Inventory, b: Inventory)
    requires
        a.well_formed(),
        b.well_formed(),
        holds_at(data, at, inventory_bytes(a)),
        holds_at(data, at, inventory_bytes(b)),
    ensures
        a == b,
{
    lemma_inventory_bytes_len(a);
    lemma_inventory_bytes_len(b);
    let sa = inventory_bytes(a);
    let sb = inventory_bytes(b);
    lemma_le_bytes_len(a.inv_type as nat, 4);
    lemma_le_bytes_len(b.inv_type as nat, 4);
    assert forall|i: int| 0 <= i < sa.len() && i < sb.len() implies sa[i] == sb[i] by {
        assert(data.subrange(at, at + sa.len())[i] == data[at + i]);
        assert(data.subrange(at, at + sb.len())[i] == data[at + i]);
    }
    assert(sa.take(4) =~= le_bytes(a.inv_type as nat, 4));
    assert(sb.take(4) =~= le_bytes(b.inv_type as nat, 4));
    assert(sa.take(4) =~= sb.take(4));
    lemma_span_values();
    lemma_le_round_trip(a.inv_type as nat, 4);
    lemma_le_round_trip(b.inv_type as nat, 4);
    assert(a.inv_type == b.inv_type);
    assert(sa.subrange(4, 36) =~= a.hash@);
    assert(sb.subrange(4, 36) =~= b.hash@);
    assert(a.hash@ =~= b.hash@);
    lemma_hash_view_injective(a.hash, b.hash);
    if a.auth_digest is Some {
        let xa = a.auth_digest->0;
        let xb = b.auth_digest->0;
        assert(sa.subrange(36, 68) =~= xa@);
        assert(sb.subrange(36, 68) =~= xb@);
        assert(xa@ =~= xb@);
        lemma_hash_view_injective(xa, xb);
    }
}

/// The entry with index `i` of a list stands behind the entries before it.
proof fn lemma_entry_in_list(data: Seq<u8>, at: int, invs: Seq<Inventory>, i: int)
    requires
        0 <= i < invs.len(),
        holds_at(data, at, inventory_list_bytes(invs)),
    ensures
        holds_at(
            data,
            at + inventory_list_bytes(invs.take(i)).len(),
            inventory_bytes(invs[i]),
        ),
    decreases invs.len(),
{
    let front = inventory_list_bytes(invs.drop_last());
    let whole = inventory_list_bytes(invs);
    if i == invs.len() - 1 {
        assert(invs.take(i) =~= invs.drop_last());
        assert(data.subrange(at + front.len(), at + whole.len()) =~= inventory_bytes(invs[i]))
            by {
            assert forall|j: int| 0 <= j < inventory_bytes(invs[i]).len() implies data[at
                + front.len() + j] == inventory_bytes(invs[i])[j] by {
                assert(data.subrange(at, at + whole.len())[front.len() + j] == whole[front.len()
                    + j]);
            }
        }
    } else {
        assert(data.subrange(at, at + front.len()) =~= front) by {
            assert forall|j: int| 0 <= j < front.len() implies data[at + j] == front[j] by {
                assert(data.subrange(at, at + whole.len())[j] == whole[j]);
            }
        }
        lemma_entry_in_list(data, at, invs.drop_last(), i);
        assert(invs.drop_last().take(i) =~= invs.take(i));
    }
}

/// A message lists at most one sequence of entries.
pub proof fn lemma_lists_unique(payload: Seq<u8>, a: Seq<Inventory>, b: Seq<Inventory>)
    requires
        lists_inventory(payload, a),
        lists_inventory(payload, b),
    ensures
        a == b,
{
    lemma_lists_unique_prefix(payload, a, b, a.len() as int);
    assert(a.take(a.len() as int) =~= a);
    assert(b.take(a.len() as int) =~= b);
}

proof fn lemma_lists_unique_prefix(
    payload: Seq<u8>,
    a: Seq<Inventory>,
    b: Seq<Inventory>,
    i: int,
)
    requires
        lists_inventory(payload, a),
        lists_inventory(payload, b),
        0 <= i <= a.len(),
    ensures
        a.take(i) == b.take(i),
    decreases i,
{
    if i > 0 {
        lemma_lists_unique_prefix(payload, a, b, i - 1);
        let at = (compact_size_at(payload, 0)->0).1;
        lemma_entry_in_list(payload, at, a, i - 1);
        lemma_entry_in_list(payload, at, b, i - 1);
        lemma_entry_unique(
            payload,
            at + inventory_list_bytes(a.take(i - 1)).len(),
            a[i - 1],
            b[i - 1],
        );
        assert(a.take(i) =~= a.take(i - 1).push(a[i - 1]));
        assert(b.take(i) =~= b.take(i - 1).push(b[i - 1]));
    }
}

/// Reads the inventory entry at `at`, where it is complete.
fn read_inventory(data: &[u8], at: usize) -> (result: Option<Inventory>)
    requires
        at <= data@.len(),
    ensures
        match result {
            Some(inv) => inv.well_formed() && holds_at(data@, at as int, inventory_bytes(inv)),
            None => forall|inv: Inventory|
                inv.well_formed() ==> !holds_at(
                    data@,
                    at as int,
                    #[trigger] inventory_bytes(inv),
                ),
        },
{
    let left: usize = data.len() - at;
    if left < 36 {
        proof {
            assert forall|inv: Inventory| inv.well_formed() implies !holds_at(
                data@,
                at as int,
                #[trigger] inventory_bytes(inv),
            ) by {
                lemma_inventory_bytes_len(inv);
            }
        }
        return None;
    }
    let inv_type: u32 = read_le(data, at, 4) as u32;
    let ghost type_bytes = data@.subrange(at as int, at + 4);
    proof {
        lemma_le_value_bound(type_bytes);
        lemma_span_values();
        lemma_le_bytes_of_value(type_bytes);
    }
    if inv_type == MSG_WTX && left < 68 {
        proof {
            assert forall|inv: Inventory| inv.well_formed() implies !holds_at(
                data@,
                at as int,
                #[trigger] inventory_bytes(inv),
            ) by {
                lemma_inventory_bytes_len(inv);
                let s = inventory_bytes(inv);
                if holds_at(data@, at as int, s) {
                    assert(inv.inv_type != MSG_WTX);
                    lemma_le_bytes_len(inv.inv_type as nat, 4);
                    assert(le_bytes(inv.inv_type as nat, 4) =~= type_bytes) by {
                        assert forall|j: int| 0 <= j < 4 implies type_bytes[j] == le_bytes(
                            inv.inv_type as nat,
                            4,
                        )[j] by {
                            assert(data@.subrange(at as int, at + s.len())[j] == s[j]);
                        }
                    }
                    lemma_le_round_trip(inv.inv_type as nat, 4);
                }
            }
        }
        return None;
    }
    let hash: Hash32 = read_hash(data, at + 4);
    let auth_digest: Option<Hash32> = if inv_type == MSG_WTX {
        Some(read_hash(data, at + 36))
    } else {
        None
    };
    let inv: Inventory = Inventory { inv_type, hash, auth_digest };
    proof {
        lemma_inventory_bytes_len(inv);
        assert(data@.subrange(at as int, at + inventory_bytes(inv).len()) =~= inventory_bytes(inv));
    }
    Some(inv)
}

/// The entries that a message lists; `None` where one of them is incomplete. There
/// is at most one such list.
pub open spec fn listed_inventory(payload: Seq<u8>) -> Option<Seq<Inventory>> {
    if exists|invs: Seq<Inventory>| lists_inventory(payload, invs) {
        Some(choose|invs: Seq<Inventory>| lists_inventory(payload, invs))
    } else {
        None
    }
}

/// Reads the entries that an `inv` message lists.
pub fn parse_inventory(payload: &[u8]) -> (result: Result<Vec<Inventory>, IngressError>)
    ensures
        match result {
            Ok(invs) => lists_inventory(payload@, invs@) && listed_inventory(payload@) == Some(
                invs@,
            ),
            Err(error) => {
                &&& error@ == truncated()
                &&& forall|invs: Seq<Inventory>| !lists_inventory(payload@, invs)
            },
        },
{
    let mut at: usize = 0;
    let count: u64 = match decode_compact_size(payload, &mut at) {
        Ok(count) => count,
        Err(error) => {
            return Err(error);
        },
    };
    let ghost start = at as int;
    let mut invs: Vec<Inventory> = Vec::new();
    assert(payload@.subrange(start, start) =~= seq![]);
    while (invs.len() as u64) < count
        invariant
            compact_size_at(payload@, 0) == Some((count, start)),
            invs.len() <= count,
            at <= payload.len(),
            0 <= start,
            at == start + inventory_list_bytes(invs@).len(),
            holds_at(payload@, start, inventory_list_bytes(invs@)),
            forall|i: int| 0 <= i < invs.len() ==> (#[trigger] invs[i]).well_formed(),
            forall|other: Seq<Inventory>|
                lists_inventory(payload@, other) ==> #[trigger] other.take(invs.len() as int)
                    == invs@,
        decreases payload.len() - at,
    {
        let ghost before = invs@;
        match read_inventory(payload, at) {
            Some(inv) => {
                proof {
                    lemma_inventory_bytes_len(inv);
                    assert(before.push(inv).drop_last() =~= before);
                    let grown = inventory_list_bytes(before.push(inv));
                    assert(payload@.subrange(start, start + grown.len()) =~= grown) by {
                        assert forall|j: int| 0 <= j < grown.len() implies payload@[start + j]
                            == grown[j] by {
                            let front = inventory_list_bytes(before);
                            let s = inventory_bytes(inv);
                            if j < front.len() {
                                assert(payload@.subrange(start, start + front.len())[j]
                                    == front[j]);
                            } else {
                                assert(payload@.subrange(at as int, at + s.len())[j
                                    - front.len()] == s[j - front.len()]);
                            }
                        }
                    }
                    assert forall|other: Seq<Inventory>|
                        lists_inventory(payload@, other) implies #[trigger] other.take(
                        before.len() as int + 1,
                    ) == before.push(inv) by {
                        assert(other.take(before.len() as int) == before);
                        lemma_entry_in_list(payload@, start, other, before.len() as int);
                        lemma_entry_unique(payload@, at as int, inv, other[before.len() as int]);
                        assert(other.take(before.len() as int + 1) =~= before.push(inv));
                    }
                }
                at = at + if inv.inv_type == MSG_WTX {
                    68
                } else {
                    36
                };
                invs.push(inv);
            },
            None => {
                proof {
                    assert forall|other: Seq<Inventory>| !lists_inventory(payload@, other) by {
                        if lists_inventory(payload@, other) {
                            assert(other.take(before.len() as int) == before);
                            lemma_entry_in_list(payload@, start, other, before.len() as int);
                        }
                    }
                }
                return Err(truncated_error());
            },
        }
    }
    proof {
        assert(lists_inventory(payload@, invs@));
        lemma_lists_unique(payload@, listed_inventory(payload@)->0, invs@);
    }
    Ok(invs)
}

/// What `parse_inventory` reads back of a message that `encode_inventory` wrote
/// is the list that went into it.
pub proof fn law_inventory_round_trip(invs: Seq<Inventory>, read: Seq<Inventory>)
    requires
        invs.len() <= u64::MAX,
        forall|i: int| 0 <= i < invs.len() ==> (#[trigger] invs[i]).well_formed(),
    ensures
        lists_inventory(inventory_message(invs), read) <==> read == invs,
{
    let payload = inventory_message(invs);
    let head = compact_size_bytes(invs.len() as u64);
    let tail = inventory_list_bytes(invs);
    law_compact_size_round_trip(invs.len() as u64, tail);
    assert(payload.subrange(head.len() as int, head.len() as int + tail.len()) =~= tail);
    assert(lists_inventory(payload, invs));
    if lists_inventory(payload, read) {
        lemma_lists_unique(payload, read, invs);
    }
}

/// What `decode_compact_size` reads back of a number that `encode_compact_size`
/// wrote is that number, whatever follows it.
pub proof fn law_compact_size_round_trip(v: u64, rest: Seq<u8>)
    ensures
        compact_size_at(compact_size_bytes(v) + rest, 0) == Some(
            (v, compact_size_bytes(v).len() as int),
        ),
{
    lemma_span_values();
    let data = compact_size_bytes(v) + rest;
    if v >= 0xfd {
        let n: nat = if v <= 0xffff {
            2
        } else if v <= 0xffff_ffff {
            4
        } else {
            8
        };
        lemma_le_bytes_len(v as nat, n);
        lemma_le_round_trip(v as nat, n);
        assert(data.subrange(1, 1 + n as int) =~= le_bytes(v as nat, n));
    }
}

/// A complete compact size is read the same, whatever follows it.
pub proof fn lemma_compact_size_ignores_rest(data: Seq<u8>, at: int, rest: Seq<u8>)
    requires
        compact_size_at(data, at) is Some,
    ensures
        compact_size_at(data + rest, at) == compact_size_at(data, at),
        (compact_size_at(data, at)->0).1 <= data.len(),
{
    let tail = compact_size_tail(data[at]);
    assert((data + rest)[at] == data[at]);
    if tail != 0 {
        assert((data + rest).subrange(at + 1, at + 1 + tail) =~= data.subrange(
            at + 1,
            at + 1 + tail,
        ));
    }
}

/// A compact size that was written behind other bytes is read back there.
pub proof fn lemma_compact_size_behind(head: Seq<u8>, v: u64, rest: Seq<u8>)
    ensures
        compact_size_at(head + compact_size_bytes(v) + rest, head.len() as int) == Some(
            (v, (head.len() + compact_size_bytes(v).len()) as int),
        ),
{
    law_compact_size_round_trip(v, rest);
    let part = compact_size_bytes(v) + rest;
    let data = head + compact_size_bytes(v) + rest;
    let n = head.len() as int;
    assert(data =~= head + part);
    let tail = compact_size_tail(part[0]);
    assert(data[n] == part[0]);
    if tail != 0 {
        assert(data.subrange(n + 1, n + 1 + tail) =~= part.subrange(1, 1 + tail));
    }
}

/// How a compact size is read: a first byte below 253 is the number itself; behind 253,
/// 254 and 255 stand two, four and eight bytes, the least significant first. Where bytes
/// are missing there is no number.
pub proof fn law_compact_size_is_read_by_its_first_byte(data: Seq<u8>, at: int)
    ensures
        ({
            let left = data.len() - at;
            let read = compact_size_at(data, at);
            &&& at < 0 || left < 1 ==> read is None
            &&& 0 <= at && left >= 1 && data[at] < 253 ==> read == Some((data[at] as u64, at + 1))
            &&& 0 <= at && left >= 1 && data[at] == 253 ==> if left >= 3 {
                read == Some(((data[at + 1] + 0x100 * data[at + 2]) as u64, at + 3))
            } else {
                read is None
            }
            &&& 0 <= at && left >= 1 && data[at] == 254 ==> if left >= 5 {
                read == Some(
                    (
                        (data[at + 1] + 0x100 * data[at + 2] + 0x1_0000 * data[at + 3] + 0x100_0000
                            * data[at + 4]) as u64,
                        at + 5,
                    ),
                )
            } else {
                read is None
            }
            &&& 0 <= at && left >= 1 && data[at] == 255 ==> if left >= 9 {
                read == Some(
                    (
                        (data[at + 1] + 0x100 * data[at + 2] + 0x1_0000 * data[at + 3] + 0x100_0000
                            * data[at + 4] + 0x1_0000_0000 * data[at + 5] + 0x100_0000_0000
                            * data[at + 6] + 0x1_0000_0000_0000 * data[at + 7]
                            + 0x100_0000_0000_0000 * data[at + 8]) as u64,
                        at + 9,
                    ),
                )
            } else {
                read is None
            }
        }),
{
    reveal_with_fuel(le_value, 9);
    if 0 <= at && data.len() - at >= 3 {
        let s = data.subrange(at + 1, at + 3);
        lemma_le_value_by_place(s);
    }
    if 0 <= at && data.len() - at >= 5 {
        lemma_le_value_by_place(data.subrange(at + 1, at + 5));
    }
    if 0 <= at && data.len() - at >= 9 {
        lemma_le_value_by_place(data.subrange(at + 1, at + 9));
    }
}

/// The value of two, four or eight bytes by their places.
pub proof fn lemma_le_value_by_place(s: Seq<u8>)
    ensures
        s.len() == 2 ==> le_value(s) == s[0] + 0x100 * s[1],
        s.len() == 4 ==> le_value(s) == s[0] + 0x100 * s[1] + 0x1_0000 * s[2] + 0x100_0000 * s[3],
        s.len() == 8 ==> le_value(s) == s[0] + 0x100 * s[1] + 0x1_0000 * s[2] + 0x100_0000 * s[3]
            + 0x1_0000_0000 * s[4] + 0x100_0000_0000 * s[5] + 0x1_0000_0000_0000 * s[6]
            + 0x100_0000_0000_0000 * s[7],
{
    reveal_with_fuel(le_value, 9);
    let s1 = s.drop_first();
    let s2 = s1.drop_first();
    let s3 = s2.drop_first();
    let s4 = s3.drop_first();
    if s.len() == 2 {
        assert(s2.len() == 0);
    } else if s.len() == 4 {
        assert(s4.len() == 0);
    } else if s.len() == 8 {
        let s5 = s4.drop_first();
        let s6 = s5.drop_first();
        let s7 = s6.drop_first();
        let s8 = s7.drop_first();
        assert(s8.len() == 0);
    }
}

/// The address that an `addr` entry at `at` holds.
pub open spec fn addr_entry(data: Seq<u8>, at: int) -> PeerAddr {
    let host = be_value(data.subrange(at + 12, at + 28));
    let port = be_value(data.subrange(at + 28, at + 30)) as u16;
    if host / 0x1_0000_0000 == 0xffff {
        PeerAddr::V4 { host: (host % 0x1_0000_0000) as u32, port }
    } else {
        PeerAddr::V6 { host: host as u128, port, flow_info: 0, scope_id: 0 }
    }
}

/// How many entries of an `addr` message with `count` entries are read.
pub open spec fn addr_entries_read(count: u64, max: usize) -> int {
    if count <= max {
        count as int
    } else {
        max as int
    }
}

/// The addresses of an `addr` message, at most the first `max`; `None` where one
/// of them is incomplete.
pub open spec fn addr_entries(payload: Seq<u8>, max: usize) -> Option<Seq<PeerAddr>> {
    match compact_size_at(payload, 0) {
        Some((count, at)) => {
            let n = addr_entries_read(count, max);
            if at + 30 * n <= payload.len() {
                Some(Seq::new(n as nat, |i: int| addr_entry(payload, at + 30 * i)))
            } else {
                None
            }
        },
        None => None,
    }
}

/// Reads the addresses of an `addr` message, at most the first `max`.
pub fn parse_addr(payload: &[u8], max: usize) -> (result: Result<Vec<PeerAddr>, IngressError>)
    ensures
        match result {
            Ok(addrs) => addr_entries(payload@, max) == Some(addrs@),
            Err(error) => error@ == truncated() && addr_entries(payload@, max) is None,
        },
{
    let mut at: usize = 0;
    let count: u64 = match decode_compact_size(payload, &mut at) {
        Ok(count) => count,
        Err(error) => {
            return Err(error);
        },
    };
    let wanted: u64 = if count <= max as u64 {
        count
    } else {
        max as u64
    };
    let ghost start = at as int;
    if (((payload.len() - at) / 30) as u64) < wanted {
        return Err(truncated_error());
    }
    let mut addrs: Vec<PeerAddr> = Vec::new();
    while (addrs.len() as u64) < wanted
        invariant
            addrs.len() <= wanted,
            at == start + 30 * addrs.len(),
            start + 30 * wanted <= payload.len(),
            start >= 0,
            forall|i: int|
                0 <= i < addrs.len() ==> #[trigger] addrs[i] == addr_entry(
                    payload@,
                    start + 30 * i,
                ),
        decreases wanted - addrs.len(),
    {
        let host: u128 = read_be(payload, at + 12, 16);
        let port: u16 = read_be(payload, at + 28, 2) as u16;
        let addr: PeerAddr = if host / 0x1_0000_0000 == 0xffff {
            PeerAddr::V4 { host: (host % 0x1_0000_0000) as u32, port }
        } else {
            PeerAddr::V6 { host, port, flow_info: 0, scope_id: 0 }
        };
        addrs.push(addr);
        at = at + 30;
    }
    assert(addr_entries(payload@, max)->0 =~= addrs@);
    Ok(addrs)
}

/// An address that was written as a `version` message holds it is read back from an
/// `addr` entry: every IPv4 address, and every IPv6 address that is no mapped IPv4 one
/// and carries nothing that the wire leaves out.
pub proof fn law_network_address_round_trip(seen_at: Seq<u8>, addr: PeerAddr, rest: Seq<u8>)
    requires
        seen_at.len() == 4,
        match addr {
            PeerAddr::V4 { .. } => true,
            PeerAddr::V6 { host, flow_info, scope_id, .. } => {
                host / 0x1_0000_0000 != 0xffff && flow_info == 0 && scope_id == 0
            },
        },
    ensures
        addr_entry(seen_at + network_address_bytes(addr) + rest, 0) == addr,
{
    let data = seen_at + network_address_bytes(addr) + rest;
    let octets = host_octets(addr.ip());
    lemma_span_values();
    lemma_le_bytes_len(0, 8);
    lemma_be_bytes_len(addr.port() as nat, 2);
    lemma_be_round_trip(addr.port() as nat, 2);
    match addr {
        PeerAddr::V4 { host, .. } => {
            let zeros = Seq::new(10, |i: int| 0u8);
            let mark = seq![0xffu8, 0xffu8];
            lemma_be_bytes_len(host as nat, 4);
            lemma_be_round_trip(host as nat, 4);
            lemma_be_value_zeros(10);
            lemma_be_value_concat(zeros, mark);
            lemma_be_value_concat(zeros + mark, be_bytes(host as nat, 4));
            reveal_with_fuel(be_value, 3);
            assert(mark.drop_last() =~= seq![0xffu8]);
            assert(mark.drop_last().drop_last() =~= seq![]);
            assert(be_value(octets) == 0xffff * 0x1_0000_0000 + host);
        },
        PeerAddr::V6 { host, .. } => {
            lemma_be_bytes_len(host as nat, 16);
            lemma_be_round_trip(host as nat, 16);
        },
    }
    assert(data.subrange(12, 28) =~= octets);
    assert(data.subrange(28, 30) =~= be_bytes(addr.port() as nat, 2));
}

/// What an entry of an `addr` message says is in its last 18 bytes, wherever the entry
/// stands: the time and the services in front of them have no say.
pub proof fn law_address_is_host_and_port(a: Seq<u8>, at: int, b: Seq<u8>, bt: int)
    requires
        0 <= at && at + 30 <= a.len(),
        0 <= bt && bt + 30 <= b.len(),
        a.subrange(at + 12, at + 30) == b.subrange(bt + 12, bt + 30),
    ensures
        addr_entry(a, at) == addr_entry(b, bt),
        addr_entry(a, at).port() == a[at + 28] * 256 + a[at + 29],
{
    let x = a.subrange(at + 12, at + 30);
    let y = b.subrange(bt + 12, bt + 30);
    assert(a.subrange(at + 12, at + 28) =~= x.subrange(0, 16));
    assert(b.subrange(bt + 12, bt + 28) =~= y.subrange(0, 16));
    assert(a.subrange(at + 28, at + 30) =~= x.subrange(16, 18));
    assert(b.subrange(bt + 28, bt + 30) =~= y.subrange(16, 18));
    let port = a.subrange(at + 28, at + 30);
    reveal_with_fuel(be_value, 3);
    assert(port.drop_last().last() == port[0]);
    assert(port.drop_last().drop_last().len() == 0);
}

/// Of an `addr` message as many entries are read as it says it has, but no more than are
/// wanted, each of 30 bytes, one behind the other. There are none to read where the count,
/// or one of those entries, is incomplete.
pub proof fn law_which_addresses_are_read(payload: Seq<u8>, max: usize, count: u64, at: int)
    requires
        compact_size_at(payload, 0) == Some((count, at)),
    ensures
        ({
            let n = if count <= max {
                count as int
            } else {
                max as int
            };
            match addr_entries(payload, max) {
                Some(addrs) => {
                    &&& payload.len() >= at + 30 * n
                    &&& addrs.len() == n
                    &&& forall|i: int|
                        0 <= i < n ==> #[trigger] addrs[i] == addr_entry(payload, at + 30 * i)
                },
                None => payload.len() < at + 30 * n,
            }
        }),
{
}

/// An inventory entry on the wire: its type in four bytes, least significant first, then
/// the hash, then the digest where it has one.
pub proof fn law_entry_layout(inv: Inventory)
    ensures
        ({
            let s = inventory_bytes(inv);
            &&& s.len() == if inv.auth_digest is Some {
                68int
            } else {
                36
            }
            &&& inv.inv_type == s[0] + 0x100 * s[1] + 0x1_0000 * s[2] + 0x100_0000 * s[3]
            &&& s.subrange(4, 36) == inv.hash@
            &&& inv.auth_digest is Some ==> s.subrange(36, 68) == (inv.auth_digest->0)@
        }),
{
    let s = inventory_bytes(inv);
    lemma_inventory_bytes_len(inv);
    lemma_le_bytes_len(inv.inv_type as nat, 4);
    lemma_span_values();
    lemma_le_round_trip(inv.inv_type as nat, 4);
    let head = le_bytes(inv.inv_type as nat, 4);
    lemma_le_value_by_place(head);
    assert(s.take(4) =~= head);
    assert(s.subrange(4, 36) =~= inv.hash@);
    if inv.auth_digest is Some {
        assert(s.subrange(36, 68) =~= (inv.auth_digest->0)@);
    }
}

/// Bytes behind the last entry of an inventory do not matter.
pub proof fn law_inventory_ignores_what_follows(invs: Seq<Inventory>, rest: Seq<u8>)
    requires
        invs.len() <= u64::MAX,
        forall|i: int| 0 <= i < invs.len() ==> (#[trigger] invs[i]).well_formed(),
    ensures
        listed_inventory(inventory_message(invs) + rest) == Some(invs),
{
    let head = compact_size_bytes(invs.len() as u64);
    let tail = inventory_list_bytes(invs);
    let payload = inventory_message(invs) + rest;
    law_compact_size_round_trip(invs.len() as u64, tail + rest);
    assert(payload =~= head + (tail + rest));
    assert(payload.subrange(head.len() as int, head.len() as int + tail.len()) =~= tail);
    assert(lists_inventory(payload, invs));
    lemma_lists_unique(payload, listed_inventory(payload)->0, invs);
}

/// Entries stand one behind the other in an inventory message.
pub proof fn law_entries_stand_in_order(a: Seq<Inventory>, b: Seq<Inventory>, inv: Inventory)
    ensures
        inventory_list_bytes(Seq::<Inventory>::empty()).len() == 0,
        inventory_list_bytes(seq![inv]) == inventory_bytes(inv),
        inventory_list_bytes(a + b) == inventory_list_bytes(a) + inventory_list_bytes(b),
    decreases b.len(),
{
    assert(seq![inv].drop_last() =~= Seq::<Inventory>::empty());
    assert(inventory_list_bytes(seq![inv].drop_last()) =~= seq![]);
    assert(inventory_list_bytes(seq![inv]) =~= inventory_bytes(inv));
    if b.len() == 0 {
        assert(a + b =~= a);
        assert(inventory_list_bytes(a + b) =~= inventory_list_bytes(a) + inventory_list_bytes(b));
    } else {
        law_entries_stand_in_order(a, b.drop_last(), inv);
        assert((a + b).drop_last() =~= a + b.drop_last());
        assert(inventory_list_bytes(a + b) =~= inventory_list_bytes(a) + inventory_list_bytes(b));
    }
}

/// Numbers are written in the shortest compact form: one byte below 253, else a mark and
/// two, four or eight bytes.
pub proof fn law_compact_size_is_short(v: u64)
    ensures
        compact_size_bytes(v).len() == if v < 253 {
            1int
        } else if v < 0x1_0000 {
            3
        } else if v < 0x1_0000_0000 {
            5
        } else {
            9
        },
{
    lemma_le_bytes_len(v as nat, 2);
    lemma_le_bytes_len(v as nat, 4);
    lemma_le_bytes_len(v as nat, 8);
}

/// The list that a message holds is read, however its count is written.
pub proof fn law_listed_behind_the_count(payload: Seq<u8>, invs: Seq<Inventory>, at: int)
    requires
        invs.len() <= u64::MAX,
        compact_size_at(payload, 0) == Some((invs.len() as u64, at)),
        forall|i: int|
            0 <= i < invs.len() ==> ((#[trigger] invs[i]).auth_digest is Some <==> invs[i].inv_type
                == 5),
        at + inventory_list_bytes(invs).len() <= payload.len(),
        payload.subrange(at, at + inventory_list_bytes(invs).len()) == inventory_list_bytes(invs),
    ensures
        listed_inventory(payload) == Some(invs),
{
    assert(0 <= at);
    assert(lists_inventory(payload, invs));
    lemma_lists_unique(payload, listed_inventory(payload)->0, invs);
}

} // verus!
