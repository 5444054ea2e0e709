//! Zcash transactions, as far as the ingress reads them.

use vstd::prelude::*;
use zcash_primitives::transaction::Transaction;
use zcash_protocol::consensus::BranchId;

use crate::bytes::Hash32;

verus! {

/// The consensus branch under which transactions without a branch of their own
/// are read: network upgrade 6.3.
pub const SOVRIGHT_P2P_CONSENSUS_BRANCH_ID: u32 = 0x37a5_165b;

/// A transparent output: how much it pays, and under which script.
pub struct TxOutput {
    pub value: u64,
    pub script: Vec<u8>,
}

/// The transparent part of a transaction: the script of each input, and the outputs.
pub struct TransparentParts {
    pub inputs: Vec<Vec<u8>>,
    pub outputs: Vec<TxOutput>,
}

/// What the ingress reads of a transaction.
pub struct ParsedTransaction {
    /// The first four bytes: the version, and in the highest bit whether the
    /// transaction is in one of the formats since Overwinter.
    pub header: u32,
    pub txid: Hash32,
    /// The commitment to signatures and proofs.
    pub auth_digest: Hash32,
    pub transparent: Option<TransparentParts>,
}

/// The mathematical value of a [`TxOutput`].
pub struct OutputView {
    pub value: u64,
    pub script: Seq<u8>,
}

/// The mathematical value of [`TransparentParts`].
pub struct TransparentView {
    pub inputs: Seq<Seq<u8>>,
    pub outputs: Seq<OutputView>,
}

/// The mathematical value of a [`ParsedTransaction`].
pub struct TransactionView {
    pub header: u32,
    pub txid: Seq<u8>,
    pub auth_digest: Seq<u8>,
    pub transparent: Option<TransparentView>,
}

impl View for TxOutput {
    type V = OutputView;

    open spec fn view(&self) -> OutputView {
        OutputView { value: self.value, script: self.script@ }
    }
}

impl View for TransparentParts {
    type V = TransparentView;

    open spec fn view(&self) -> TransparentView {
        TransparentView {
            inputs: Seq::new(self.inputs@.len(), |i: int| self.inputs@[i]@),
            outputs: Seq::new(self.outputs@.len(), |i: int| self.outputs@[i]@),
        }
    }
}

impl View for ParsedTransaction {
    type V = TransactionView;

    open spec fn view(&self) -> TransactionView {
        TransactionView {
            header: self.header,
            txid: self.txid@,
            auth_digest: self.auth_digest@,
            transparent: match self.transparent {
                Some(parts) => Some(parts@),
                None => None,
            },
        }
    }
}

/// The transaction at the start of `bytes`, read under the consensus branch
/// `branch_id`; `None` where there is none.
pub uninterp spec fn parsed_transaction(bytes: Seq<u8>, branch_id: u32) -> Option<TransactionView>;

/// Calls `zcash_primitives::transaction::Transaction::read`, which reads one
/// transaction and ignores what follows it, and copies out its version, its
/// identifiers and its transparent part. `None` where the branch is unknown or
/// the bytes are no transaction. The result is a function of the arguments. Every part is
/// read with the length that the bytes before it give, so nothing that follows the
/// transaction has a say.
#[verifier::external_body]
pub(crate) fn read_transaction(bytes: &[u8], branch_id: u32) -> (result: Option<ParsedTransaction>)
    ensures
        match result {
            Some(tx) => {
                &&& parsed_transaction(bytes@, branch_id) == Some(tx@)
                &&& forall|rest: Seq<u8>| #[trigger]
                    parsed_transaction(bytes@ + rest, branch_id) == Some(tx@)
            },
            None => parsed_transaction(bytes@, branch_id) is None,
        },
{
    let tx = Transaction::read(bytes, BranchId::try_from(branch_id).ok()?).ok()?;
    let transparent = tx.transparent_bundle().map(
        |b| TransparentParts {
            inputs: b.vin.iter().map(|i| i.script_sig().0 .0.clone()).collect(),
            outputs: b.vout.iter().map(
                |o| TxOutput {
                    value: o.value().into_u64(),
                    script: o.script_pubkey().0 .0.clone(),
                },
            ).collect(),
        },
    );
    let auth_digest = tx.auth_commitment().as_bytes().try_into().ok()?;
    Some(ParsedTransaction { header: tx.version().header(), txid: *tx.txid().as_ref(), auth_digest, transparent })
}

} // verus!
