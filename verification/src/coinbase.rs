//! Who mined a block, as far as its coinbase transaction tells.
//!
//! The payout script of a block's miner, in hexadecimal and with no address
//! encoding, is what joins a heard block to the chain's own record of it. The
//! miner's output is the largest one; the smaller ones are funding streams of
//! the protocol. All of this is best effort: a block that cannot be read gives
//! `None`.

use vstd::prelude::*;
use vstd::slice::slice_subrange;

use crate::hash::{hex_encode, hex_text, ZCASH_FULL_HEADER_SIZE};
use crate::transaction::{
    parsed_transaction, read_transaction, OutputView, ParsedTransaction, TransactionView,
    SOVRIGHT_P2P_CONSENSUS_BRANCH_ID,
};
use crate::text::text_view;
use crate::wire::{
    compact_size_at, compact_size_bytes, decode_compact_size, lemma_compact_size_behind,
    lemma_compact_size_ignores_rest,
};

verus! {

/// The most characters of coinbase text that are kept.
pub const MAX_COINBASE_TEXT: usize = 64;

/// The coinbase of a block: the first transaction behind the header and the
/// number of transactions, where that number is not zero.
pub open spec fn block_coinbase(payload: Seq<u8>) -> Option<TransactionView> {
    match compact_size_at(payload, ZCASH_FULL_HEADER_SIZE as int) {
        Some((count, at)) => if count == 0 {
            None
        } else {
            parsed_transaction(payload.skip(at), SOVRIGHT_P2P_CONSENSUS_BRANCH_ID)
        },
        None => None,
    }
}

/// `k` is the output that pays most, the last such one.
pub open spec fn is_largest_output(outputs: Seq<OutputView>, k: int) -> bool {
    &&& 0 <= k < outputs.len()
    &&& forall|j: int| 0 <= j < k ==> #[trigger] outputs[j].value <= outputs[k].value
    &&& forall|j: int| k < j < outputs.len() ==> #[trigger] outputs[j].value < outputs[k].value
}

/// `script` is the payout script of the miner, in hexadecimal: that of the
/// largest transparent output, or nothing where there is no such output.
pub open spec fn is_miner_script(tx: Option<TransactionView>, script: Option<Seq<char>>) -> bool {
    match script {
        Some(text) => tx matches Some(tx) && tx.transparent matches Some(parts) && exists|k: int|
            #[trigger] is_largest_output(parts.outputs, k) && text == hex_text(
                parts.outputs[k].script,
            ),
        None => tx matches Some(tx) ==> (tx.transparent matches Some(parts)
            ==> parts.outputs.len() == 0),
    }
}

/// What is left of an input script once the push of the block height that it
/// starts with is gone. A script that starts with no complete push is left whole.
pub open spec fn tag_bytes(script: Seq<u8>) -> Seq<u8> {
    if script.len() > 0 && 1 <= script[0] <= 75 && script.len() > script[0] {
        script.skip(1 + script[0] as int)
    } else {
        script
    }
}

/// The printable characters of ASCII.
pub open spec fn is_printable(b: u8) -> bool {
    0x20 <= b < 0x7f
}

/// The first [`MAX_COINBASE_TEXT`] of `chars`, or all where there are fewer.
pub open spec fn capped(chars: Seq<u8>) -> Seq<u8> {
    if chars.len() <= MAX_COINBASE_TEXT {
        chars
    } else {
        chars.take(MAX_COINBASE_TEXT as int)
    }
}

/// The printable text of an input script behind its height push, capped.
pub open spec fn tag_text(script: Seq<u8>) -> Seq<char> {
    capped(tag_bytes(script).filter(|b: u8| is_printable(b))).map_values(|b: u8| b as char)
}

/// `text` is the coinbase tag: the printable text of the first transparent
/// input's script, or nothing where there is none.
pub open spec fn is_coinbase_text(tx: Option<TransactionView>, text: Option<Seq<char>>) -> bool {
    let tag = match tx {
        Some(tx) => match tx.transparent {
            Some(parts) => if parts.inputs.len() > 0 {
                tag_text(parts.inputs[0])
            } else {
                seq![]
            },
            None => seq![],
        },
        None => seq![],
    };
    match text {
        Some(text) => text == tag && tag.len() > 0,
        None => tag.len() == 0,
    }
}

/// Reads the coinbase of a block.
fn coinbase_transaction(block_payload: &[u8]) -> (result: Option<ParsedTransaction>)
    ensures
        match result {
            Some(tx) => {
                &&& block_coinbase(block_payload@) == Some(tx@)
                &&& forall|rest: Seq<u8>| #[trigger]
                    block_coinbase(block_payload@ + rest) == Some(tx@)
            },
            None => block_coinbase(block_payload@) is None,
        },
{
    let mut cursor: usize = ZCASH_FULL_HEADER_SIZE;
    let count: u64 = match decode_compact_size(block_payload, &mut cursor) {
        Ok(count) => count,
        Err(_) => {
            return None;
        },
    };
    if count == 0 {
        return None;
    }
    let coinbase: &[u8] = slice_subrange(block_payload, cursor, block_payload.len());
    assert(coinbase@ =~= block_payload@.skip(cursor as int));
    let result = read_transaction(coinbase, SOVRIGHT_P2P_CONSENSUS_BRANCH_ID);
    proof {
        assert forall|rest: Seq<u8>| result is Some implies #[trigger] block_coinbase(
            block_payload@ + rest,
        ) == Some((result->0)@) by {
            lemma_compact_size_ignores_rest(block_payload@, ZCASH_FULL_HEADER_SIZE as int, rest);
            assert((block_payload@ + rest).skip(cursor as int) =~= coinbase@ + rest);
        }
    }
    result
}

/// The payout script of the miner who built the coinbase `tx`.
pub fn miner_script(tx: &ParsedTransaction) -> (script: Option<String>)
    ensures
        is_miner_script(Some(tx@), text_view(script)),
{
    let parts = match &tx.transparent {
        Some(parts) => parts,
        None => {
            return None;
        },
    };
    if parts.outputs.len() == 0 {
        return None;
    }
    let ghost outputs = parts@.outputs;
    let mut best: usize = 0;
    let mut i: usize = 1;
    while i < parts.outputs.len()
        invariant
            1 <= i <= parts.outputs.len(),
            best < i,
            outputs == parts@.outputs,
            forall|j: int| 0 <= j <= best ==> #[trigger] outputs[j].value <= outputs[best as int].value,
            forall|j: int| best < j < i ==> #[trigger] outputs[j].value < outputs[best as int].value,
        decreases parts.outputs.len() - i,
    {
        assert(outputs[i as int].value == parts.outputs@[i as int].value);
        assert(outputs[best as int].value == parts.outputs@[best as int].value);
        if parts.outputs[i].value >= parts.outputs[best].value {
            best = i;
        }
        i = i + 1;
    }
    assert(is_largest_output(outputs, best as int));
    assert(outputs[best as int].script == parts.outputs@[best as int].script@);
    let script: String = hex_encode(parts.outputs[best].script.as_slice());
    assert(tx@.transparent == Some(parts@));
    assert(is_largest_output(tx@.transparent->0.outputs, best as int));
    Some(script)
}

/// The tag in an input script: its printable text behind the height push.
pub fn script_tag(script: &[u8]) -> (text: Option<String>)
    ensures
        match text {
            Some(text) => text@ == tag_text(script@) && tag_text(script@).len() > 0,
            None => tag_text(script@).len() == 0,
        },
{
    let start: usize = if script.len() > 0 && 1 <= script[0] && script[0] <= 75 && script.len()
        > script[0] as usize {
        1 + script[0] as usize
    } else {
        0
    };
    let tag: &[u8] = slice_subrange(script, start, script.len());
    assert(tag@ =~= tag_bytes(script@));
    let ghost keep = |b: u8| is_printable(b);
    let mut text: String = String::new();
    let mut kept: usize = 0;
    let mut i: usize = 0;
    proof {
        reveal(Seq::filter);
        assert(tag@.take(0).filter(keep) =~= seq![]);
        assert(text@ =~= capped(tag@.take(0).filter(keep)).map_values(|b: u8| b as char));
    }
    while i < tag.len()
        invariant
            i <= tag.len(),
            keep == (|b: u8| is_printable(b)),
            kept == capped(tag@.take(i as int).filter(keep)).len(),
            text@ == capped(tag@.take(i as int).filter(keep)).map_values(|b: u8| b as char),
        decreases tag.len() - i,
    {
        let b: u8 = tag[i];
        let ghost before = tag@.take(i as int).filter(keep);
        proof {
            reveal(Seq::filter);
            assert(tag@.take(i + 1).drop_last() =~= tag@.take(i as int));
            assert(tag@.take(i + 1).filter(keep) =~= if is_printable(b) {
                before.push(b)
            } else {
                before
            });
        }
        if 0x20 <= b && b < 0x7f && kept < MAX_COINBASE_TEXT {
            text.push(b as char);
            kept = kept + 1;
        }
        i = i + 1;
        assert(capped(tag@.take(i as int).filter(keep)).map_values(|b: u8| b as char) =~= text@);
    }
    assert(tag@.take(i as int) =~= tag@);
    if kept == 0 {
        return None;
    }
    Some(text)
}

/// The tag that the builder of the coinbase `tx` stamped into it.
pub fn transaction_text(tx: &ParsedTransaction) -> (text: Option<String>)
    ensures
        is_coinbase_text(Some(tx@), text_view(text)),
{
    let parts = match &tx.transparent {
        Some(parts) => parts,
        None => {
            return None;
        },
    };
    if parts.inputs.len() == 0 {
        return None;
    }
    script_tag(parts.inputs[0].as_slice())
}

/// The miner's payout script of a raw block; there is only one.
pub open spec fn block_miner_script(payload: Seq<u8>) -> Option<Seq<char>> {
    choose|script: Option<Seq<char>>| is_miner_script(block_coinbase(payload), script)
}

/// The coinbase tag of a raw block; there is only one.
pub open spec fn block_tag(payload: Seq<u8>) -> Option<Seq<char>> {
    choose|text: Option<Seq<char>>| is_coinbase_text(block_coinbase(payload), text)
}

/// The miner's payout script of a raw block, in hexadecimal. What follows the coinbase in
/// the block has no say.
pub fn coinbase_miner_script(block_payload: &[u8]) -> (script: Option<String>)
    ensures
        is_miner_script(block_coinbase(block_payload@), text_view(script)),
        text_view(script) == block_miner_script(block_payload@),
        block_coinbase(block_payload@) is Some ==> forall|rest: Seq<u8>| #[trigger]
            block_miner_script(block_payload@ + rest) == text_view(script),
{
    let script = match coinbase_transaction(block_payload) {
        Some(tx) => miner_script(&tx),
        None => None,
    };
    proof {
        assert(is_miner_script(block_coinbase(block_payload@), text_view(script)));
        law_miner_script_is_determined(
            block_coinbase(block_payload@),
            text_view(script),
            block_miner_script(block_payload@),
        );
        assert forall|rest: Seq<u8>| block_coinbase(
            block_payload@,
        ) is Some implies #[trigger] block_miner_script(block_payload@ + rest) == text_view(
            script,
        ) by {
            let longer = block_payload@ + rest;
            assert(block_coinbase(longer) == block_coinbase(block_payload@));
            assert(is_miner_script(block_coinbase(longer), text_view(script)));
            law_miner_script_is_determined(
                block_coinbase(longer),
                text_view(script),
                block_miner_script(longer),
            );
        }
    }
    script
}

/// The coinbase tag of a raw block. The miner chooses what it says, so it is cut
/// down here to a bounded run of printable ASCII. What follows the coinbase in the block
/// has no say.
pub fn coinbase_text(block_payload: &[u8]) -> (text: Option<String>)
    ensures
        is_coinbase_text(block_coinbase(block_payload@), text_view(text)),
        text_view(text) == block_tag(block_payload@),
        block_coinbase(block_payload@) is Some ==> forall|rest: Seq<u8>| #[trigger]
            block_tag(block_payload@ + rest) == text_view(text),
{
    let text = match coinbase_transaction(block_payload) {
        Some(tx) => transaction_text(&tx),
        None => None,
    };
    proof {
        let coinbase = block_coinbase(block_payload@);
        assert(is_coinbase_text(coinbase, text_view(text)));
        assert(is_coinbase_text(coinbase, block_tag(block_payload@)));
        law_coinbase_text_is_determined(coinbase, text_view(text), block_tag(block_payload@));
        assert forall|rest: Seq<u8>| coinbase is Some implies #[trigger] block_tag(
            block_payload@ + rest,
        ) == text_view(text) by {
            let longer = block_payload@ + rest;
            assert(block_coinbase(longer) == coinbase);
            assert(is_coinbase_text(block_coinbase(longer), text_view(text)));
            law_coinbase_text_is_determined(coinbase, text_view(text), block_tag(longer));
        }
    }
    text
}

/// Whatever a miner writes into a coinbase, the tag that comes out is printable
/// ASCII, not empty, and no longer than [`MAX_COINBASE_TEXT`].
pub proof fn law_coinbase_text_is_printable(tx: Option<TransactionView>, text: Seq<char>)
    requires
        is_coinbase_text(tx, Some(text)),
    ensures
        0 < text.len() <= MAX_COINBASE_TEXT,
        forall|i: int| 0 <= i < text.len() ==> ' ' <= #[trigger] text[i] <= '~',
{
    let script = tx->0.transparent->0.inputs[0];
    let kept = tag_bytes(script).filter(|b: u8| is_printable(b));
    assert forall|i: int| 0 <= i < text.len() implies ' ' <= #[trigger] text[i] <= '~' by {
        tag_bytes(script).lemma_filter_pred(|b: u8| is_printable(b), i);
        assert(text[i] == kept[i] as char);
    }
}

/// Only the push of the block height is skipped, a byte that says how many bytes follow
/// and those bytes: the tag is made of the first 64 printable bytes of all that stands
/// behind it, whatever that starts with.
pub proof fn law_tag_is_printable_text_behind_height(push: Seq<u8>, tail: Seq<u8>)
    requires
        push.len() > 0,
        1 <= push[0] <= 75,
        push.len() == 1 + push[0],
    ensures
        ({
            let printable = tail.filter(|b: u8| 0x20 <= b <= 0x7e);
            let tag = tag_text(push + tail);
            &&& tag.len() == if printable.len() < 64 {
                printable.len() as int
            } else {
                64
            }
            &&& forall|i: int| 0 <= i < tag.len() ==> #[trigger] tag[i] == printable[i] as char
            &&& printable.len() <= 64 ==> forall|i: int|
                0 <= i < tail.len() && 0x20 <= #[trigger] tail[i] <= 0x7e ==> tag.contains(
                    tail[i] as char,
                )
        }),
{
    assert((push + tail).skip(1 + push[0] as int) =~= tail);
    lemma_tag_of(push + tail, tail);
}

/// A script that starts with no complete push of a height is all tag: the first 64
/// printable bytes of the whole script.
pub proof fn law_script_without_height_is_all_tag(script: Seq<u8>)
    requires
        script.len() == 0 || script[0] == 0 || script[0] > 75 || script.len() < 1 + script[0],
    ensures
        ({
            let printable = script.filter(|b: u8| 0x20 <= b <= 0x7e);
            let tag = tag_text(script);
            &&& tag.len() == if printable.len() < 64 {
                printable.len() as int
            } else {
                64
            }
            &&& forall|i: int| 0 <= i < tag.len() ==> #[trigger] tag[i] == printable[i] as char
            &&& printable.len() <= 64 ==> forall|i: int|
                0 <= i < script.len() && 0x20 <= #[trigger] script[i] <= 0x7e ==> tag.contains(
                    script[i] as char,
                )
        }),
{
    lemma_tag_of(script, script);
}

proof fn lemma_tag_of(script: Seq<u8>, tail: Seq<u8>)
    requires
        tag_bytes(script) == tail,
    ensures
        ({
            let printable = tail.filter(|b: u8| 0x20 <= b <= 0x7e);
            let tag = tag_text(script);
            &&& tag.len() == if printable.len() < 64 {
                printable.len() as int
            } else {
                64
            }
            &&& forall|i: int| 0 <= i < tag.len() ==> #[trigger] tag[i] == printable[i] as char
            &&& printable.len() <= 64 ==> forall|i: int|
                0 <= i < tail.len() && 0x20 <= #[trigger] tail[i] <= 0x7e ==> tag.contains(
                    tail[i] as char,
                )
        }),
{
    let keep = |b: u8| 0x20 <= b <= 0x7e;
    assert((|b: u8| is_printable(b)) =~= keep);
    let printable = tail.filter(keep);
    let tag = tag_text(script);
    if printable.len() <= 64 {
        assert forall|i: int| 0 <= i < tail.len() && 0x20 <= #[trigger]
            tail[i] <= 0x7e implies tag.contains(tail[i] as char) by {
            tail.lemma_filter_contains(keep, i);
            let j = printable.index_of(tail[i]);
            assert(tag[j] == tail[i] as char);
        }
    }
}

/// The tag of a coinbase is that of its first transparent input, and there is one exactly
/// where that input's script has a printable byte behind the push of the height. Without
/// a transparent input there is none.
pub proof fn law_first_input_carries_the_tag(
    tx: TransactionView,
    push: Seq<u8>,
    tail: Seq<u8>,
    text: Option<Seq<char>>,
)
    requires
        is_coinbase_text(Some(tx), text),
    ensures
        match tx.transparent {
            Some(parts) => {
                &&& parts.inputs.len() == 0 ==> text is None
                &&& parts.inputs.len() > 0 ==> (text is Some <==> tag_text(parts.inputs[0]).len()
                    > 0)
                &&& parts.inputs.len() > 0 && text is Some ==> text->0 == tag_text(parts.inputs[0])
                &&& parts.inputs.len() > 0 && parts.inputs[0] == push + tail && push.len() > 0 && 1
                    <= push[0] <= 75 && push.len() == 1 + push[0] ==> {
                    let printable = tail.filter(|b: u8| 0x20 <= b <= 0x7e);
                    &&& text is Some <==> exists|i: int|
                        0 <= i < tail.len() && 0x20 <= #[trigger] tail[i] <= 0x7e
                    &&& text is Some ==> (text->0).len() == if printable.len() < 64 {
                        printable.len() as int
                    } else {
                        64
                    }
                    &&& text is Some ==> forall|i: int|
                        0 <= i < (text->0).len() ==> #[trigger] (text->0)[i] == printable[i] as char
                }
            },
            None => text is None,
        },
        is_coinbase_text(None, text) ==> text is None,
{
    if let Some(parts) = tx.transparent {
        if parts.inputs.len() > 0 && parts.inputs[0] == push + tail && push.len() > 0 && 1
            <= push[0] <= 75 && push.len() == 1 + push[0] {
            law_tag_is_printable_text_behind_height(push, tail);
            let keep = |b: u8| 0x20 <= b <= 0x7e;
            let printable = tail.filter(keep);
            if printable.len() > 0 {
                tail.lemma_filter_pred(keep, 0);
                tail.lemma_filter_contains_rev(keep, printable[0]);
                let i = tail.index_of(printable[0]);
                assert(0x20 <= tail[i] <= 0x7e);
            }
            if exists|i: int| 0 <= i < tail.len() && 0x20 <= #[trigger] tail[i] <= 0x7e {
                let i = choose|i: int| 0 <= i < tail.len() && 0x20 <= #[trigger] tail[i] <= 0x7e;
                tail.lemma_filter_contains(keep, i);
            }
        }
    }
}

/// The miner's script is that of an output that pays at least as much as any other, the
/// last of them where several pay the same; it is missing exactly where there is no
/// transparent output.
pub proof fn law_miner_is_paid_most(tx: TransactionView, script: Option<Seq<char>>)
    requires
        is_miner_script(Some(tx), script),
    ensures
        match tx.transparent {
            Some(parts) => {
                &&& script is None <==> parts.outputs.len() == 0
                &&& script is Some ==> exists|k: int|
                    #![trigger parts.outputs[k]]
                    0 <= k < parts.outputs.len() && script->0 == hex_text(parts.outputs[k].script)
                        && (forall|j: int|
                        0 <= j < parts.outputs.len() ==> (#[trigger] parts.outputs[j]).value
                            <= parts.outputs[k].value) && (forall|j: int|
                        k < j < parts.outputs.len() ==> (#[trigger] parts.outputs[j]).value
                            < parts.outputs[k].value)
            },
            None => script is None,
        },
        is_miner_script(None, script) ==> script is None,
{
    if let (Some(parts), Some(text)) = (tx.transparent, script) {
        let k = choose|k: int| #[trigger]
            is_largest_output(parts.outputs, k) && text == hex_text(parts.outputs[k].script);
        let best = parts.outputs[k];
        assert(script->0 == hex_text(best.script));
        assert forall|j: int| 0 <= j < parts.outputs.len() implies (#[trigger]
        parts.outputs[j]).value <= best.value by {}
    }
}

/// The coinbase stands behind a header of 1487 bytes and the number of transactions, and
/// is read under the branch of network upgrade 6.3. A block that claims no transactions
/// has none, and neither has one that ends before the number is complete.
pub proof fn law_where_the_coinbase_stands(header: Seq<u8>, count: u64, rest: Seq<u8>)
    requires
        header.len() == 1487,
    ensures
        match compact_size_at(header + rest, 1487) {
            Some((number, at)) => block_coinbase(header + rest) == if number == 0 {
                None
            } else {
                parsed_transaction((header + rest).skip(at), 0x37a5_165b)
            },
            None => block_coinbase(header + rest) is None,
        },
        count > 0 ==> block_coinbase(header + compact_size_bytes(count) + rest)
            == parsed_transaction(rest, 0x37a5_165b),
        block_coinbase(header + compact_size_bytes(0) + rest) is None,
        forall|n: int| 0 <= n <= 1487 ==> block_coinbase(#[trigger] header.take(n)) is None,
{
    lemma_compact_size_behind(header, count, rest);
    lemma_compact_size_behind(header, 0, rest);
    let at = (header.len() + compact_size_bytes(count).len()) as int;
    assert((header + compact_size_bytes(count) + rest).skip(at) =~= rest);
}

/// A block has one tag: two results that meet the contract for the same coinbase are the
/// same.
pub proof fn law_coinbase_text_is_determined(
    tx: Option<TransactionView>,
    a: Option<Seq<char>>,
    b: Option<Seq<char>>,
)
    requires
        is_coinbase_text(tx, a),
        is_coinbase_text(tx, b),
    ensures
        a == b,
{
}

/// A block has one miner script: two results that meet the contract for the same coinbase
/// are the same.
pub proof fn law_miner_script_is_determined(
    tx: Option<TransactionView>,
    a: Option<Seq<char>>,
    b: Option<Seq<char>>,
)
    requires
        is_miner_script(tx, a),
        is_miner_script(tx, b),
    ensures
        a == b,
{
    if a is Some && b is Some {
        let outputs = tx->0.transparent->0.outputs;
        let i = choose|k: int| #[trigger]
            is_largest_output(outputs, k) && a->0 == hex_text(outputs[k].script);
        let j = choose|k: int| #[trigger]
            is_largest_output(outputs, k) && b->0 == hex_text(outputs[k].script);
        assert(outputs[i].value <= outputs[j].value || outputs[j].value <= outputs[i].value);
    }
}

} // verus!
