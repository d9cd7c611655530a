//! Transactions and the unspent-output identifiers they spend and create.

use vstd::prelude::*;
use crate::hash::H256;

verus! {

/// Reference to a transaction output: the hash of the transaction that
/// created it and the position of the output within that transaction.
/// Unique per unspent output.
#[derive(Clone, Copy, PartialEq, Eq, Structural, Hash, Debug)]
pub struct UtxoKey {
    pub tx_hash: H256,
    pub index: u32,
}

/// A transaction output: the recipient's public-key hash and the value
/// transferred to it.
#[derive(Clone, Copy, PartialEq, Eq, Structural, Debug)]
pub struct TxOutput {
    pub pk_hash: H256,
    pub value: u64,
}

/// A transaction together with the authorization material supplied by the
/// owners of the spent outputs. `hash` is the transaction's identifier,
/// computed by the node's hashing collaborator; the signature bytes are
/// carried opaquely and judged by the signature-checking collaborator.
#[derive(Clone, Debug)]
pub struct SignedTransaction {
    pub hash: H256,
    pub inputs: Vec<UtxoKey>,
    pub outputs: Vec<TxOutput>,
    pub signature: Vec<u8>,
}

/// Two transaction values carry the same content.
pub open spec fn tx_same(a: SignedTransaction, b: SignedTransaction) -> bool {
    a.hash == b.hash && a.inputs@ == b.inputs@ && a.outputs@ == b.outputs@ && a.signature@
        == b.signature@
}

/// No output key is spent twice by the same transaction.
pub open spec fn inputs_distinct(t: SignedTransaction) -> bool {
    forall|i: int, j: int|
        0 <= i < j < t.inputs@.len() ==> t.inputs@[i] != t.inputs@[j]
}

/// The transactions never spend a common output key.
pub open spec fn inputs_disjoint(a: SignedTransaction, b: SignedTransaction) -> bool {
    forall|i: int, j: int|
        0 <= i < a.inputs@.len() && 0 <= j < b.inputs@.len() ==> a.inputs@[i] != b.inputs@[j]
}

fn copy_keys(v: &Vec<UtxoKey>) -> (r: Vec<UtxoKey>)
    ensures
        r@ == v@,
{
    let mut r: Vec<UtxoKey> = Vec::new();
    let mut i: usize = 0;
    while i < v.len()
        invariant
            i <= v.len(),
            r@ == v@.take(i as int),
        decreases v.len() - i,
    {
        r.push(v[i]);
        proof {
            assert(v@.take(i as int + 1) =~= v@.take(i as int).push(v@[i as int]));
        }
        i = i + 1;
    }
    proof {
        assert(v@.take(v@.len() as int) =~= v@);
    }
    r
}

fn copy_outputs(v: &Vec<TxOutput>) -> (r: Vec<TxOutput>)
    ensures
        r@ == v@,
{
    let mut r: Vec<TxOutput> = Vec::new();
    let mut i: usize = 0;
    while i < v.len()
        invariant
            i <= v.len(),
            r@ == v@.take(i as int),
        decreases v.len() - i,
    {
        r.push(v[i]);
        proof {
            assert(v@.take(i as int + 1) =~= v@.take(i as int).push(v@[i as int]));
        }
        i = i + 1;
    }
    proof {
        assert(v@.take(v@.len() as int) =~= v@);
    }
    r
}

fn copy_bytes(v: &Vec<u8>) -> (r: Vec<u8>)
    ensures
        r@ == v@,
{
    let mut r: Vec<u8> = Vec::new();
    let mut i: usize = 0;
    while i < v.len()
        invariant
            i <= v.len(),
            r@ == v@.take(i as int),
        decreases v.len() - i,
    {
        r.push(v[i]);
        proof {
            assert(v@.take(i as int + 1) =~= v@.take(i as int).push(v@[i as int]));
        }
        i = i + 1;
    }
    proof {
        assert(v@.take(v@.len() as int) =~= v@);
    }
    r
}

impl SignedTransaction {
    /// The transaction's identifier.
    pub fn get_tx_hash(&self) -> (r: H256)
        ensures
            r == self.hash,
    {
        self.hash
    }

    /// A copy of the transaction with the same content.
    pub fn duplicate(&self) -> (r: SignedTransaction)
        ensures
            tx_same(r, *self),
    {
        SignedTransaction {
            hash: self.hash,
            inputs: copy_keys(&self.inputs),
            outputs: copy_outputs(&self.outputs),
            signature: copy_bytes(&self.signature),
        }
    }
}

} // verus!
