//! The mempool: pending transactions plus the unspent-output set they
//! depend on, with the atomic submission pipeline.

use vstd::prelude::*;
use crate::hash::H256;
use crate::tx::{SignedTransaction, TxOutput, UtxoKey, inputs_disjoint, inputs_distinct, tx_same};

verus! {

/// An unspent output held by the mempool's mapping: the output itself and
/// whether a pending transaction already claims it.
#[derive(Clone, Copy, PartialEq, Eq, Structural, Debug)]
pub struct UtxoEntry {
    pub output: TxOutput,
    pub used_in_mempool: bool,
}

/// Why a submission was refused. The mempool is left unchanged whenever
/// one of these is returned.
#[derive(Clone, Copy, PartialEq, Eq, Structural, Debug)]
pub enum SubmissionError {
    /// An input key is absent from the unspent-output mapping.
    UnknownInput,
    /// An input key is already claimed by a pending transaction, or the
    /// submission spends the same key twice.
    DoubleSpendPending,
    /// The signature does not authorize spending the inputs.
    BadSignature,
}

/// The entry stored under key `k`, if any. Later entries shadow earlier
/// ones, though under `utxo_keys_unique` each key occurs at most once.
pub open spec fn find_utxo(u: Seq<(UtxoKey, UtxoEntry)>, k: UtxoKey) -> Option<UtxoEntry>
    decreases u.len(),
{
    if u.len() == 0 {
        None
    } else if u.last().0 == k {
        Some(u.last().1)
    } else {
        find_utxo(u.drop_last(), k)
    }
}

/// Each output key occurs at most once in the mapping.
pub open spec fn utxo_keys_unique(u: Seq<(UtxoKey, UtxoEntry)>) -> bool {
    forall|i: int, j: int| 0 <= i < j < u.len() ==> u[i].0 != u[j].0
}

/// Some input of `t` is absent from the mapping.
pub open spec fn has_unknown_input(u: Seq<(UtxoKey, UtxoEntry)>, t: SignedTransaction) -> bool {
    exists|i: int|
        0 <= i < t.inputs@.len() && find_utxo(u, #[trigger] t.inputs@[i]) is None
}

/// Some input of `t` is already claimed by a pending transaction.
pub open spec fn has_pending_input(u: Seq<(UtxoKey, UtxoEntry)>, t: SignedTransaction) -> bool {
    exists|i: int|
        0 <= i < t.inputs@.len() && (find_utxo(u, #[trigger] t.inputs@[i]) matches Some(e)
            && e.used_in_mempool)
}

/// Every input of `t` is present and claimed: what holds of every pooled
/// transaction.
pub open spec fn claims_marked(u: Seq<(UtxoKey, UtxoEntry)>, t: SignedTransaction) -> bool {
    forall|i: int|
        0 <= i < t.inputs@.len() ==> (find_utxo(u, #[trigger] t.inputs@[i]) matches Some(e)
            && e.used_in_mempool)
}

/// The mapping after the inputs of `t` are claimed: entries spent by `t`
/// have `used_in_mempool` set; every other entry is untouched.
pub open spec fn mark_spent(u: Seq<(UtxoKey, UtxoEntry)>, t: SignedTransaction) -> Seq<
    (UtxoKey, UtxoEntry),
> {
    u.map_values(
        |p: (UtxoKey, UtxoEntry)|
            if t.inputs@.contains(p.0) {
                (p.0, UtxoEntry { output: p.1.output, used_in_mempool: true })
            } else {
                p
            },
    )
}

/// The key under which output `i` of `t` is recorded.
pub open spec fn output_key(t: SignedTransaction, i: int) -> UtxoKey {
    UtxoKey { tx_hash: t.hash, index: i as u32 }
}

/// The fresh entries a successful submission of `t` adds to the mapping.
pub open spec fn new_outputs(t: SignedTransaction) -> Seq<(UtxoKey, UtxoEntry)> {
    Seq::new(
        t.outputs@.len(),
        |i: int| (output_key(t, i), UtxoEntry { output: t.outputs@[i], used_in_mempool: false }),
    )
}

/// No key that a submission of `t` would create is in the mapping already.
/// This holds of any state reachable with distinct transaction hashes.
pub open spec fn outputs_fresh(u: Seq<(UtxoKey, UtxoEntry)>, t: SignedTransaction) -> bool {
    forall|i: int| 0 <= i < t.outputs@.len() ==> find_utxo(u, output_key(t, i)) is None
}

/// The verdict of the submission pipeline on `t` against mapping `u`,
/// with `sig_ok` the signature-checking collaborator's verdict.
pub open spec fn submit_outcome(
    u: Seq<(UtxoKey, UtxoEntry)>,
    t: SignedTransaction,
    sig_ok: bool,
) -> Result<(), SubmissionError> {
    if has_unknown_input(u, t) {
        Err(SubmissionError::UnknownInput)
    } else if has_pending_input(u, t) || !inputs_distinct(t) {
        Err(SubmissionError::DoubleSpendPending)
    } else if !sig_ok {
        Err(SubmissionError::BadSignature)
    } else {
        Ok(())
    }
}

/// The spendable outputs addressed to `pk`: every pair of the mapping
/// whose recipient is `pk` and that no pending transaction claims, in
/// mapping order.
pub open spec fn spendable_by(u: Seq<(UtxoKey, UtxoEntry)>, pk: H256) -> Seq<(UtxoKey, TxOutput)>
    decreases u.len(),
{
    if u.len() == 0 {
        Seq::empty()
    } else {
        spendable_by(u.drop_last(), pk) + (if u.last().1.output.pk_hash == pk
            && !u.last().1.used_in_mempool {
            seq![(u.last().0, u.last().1.output)]
        } else {
            Seq::empty()
        })
    }
}

/// How often a transaction with the content of `t` occurs in the pool.
pub open spec fn count_same(s: Seq<SignedTransaction>, t: SignedTransaction) -> int
    decreases s.len(),
{
    if s.len() == 0 {
        0
    } else {
        count_same(s.drop_last(), t) + (if tx_same(s.last(), t) {
            1int
        } else {
            0int
        })
    }
}

/// The pool of accepted-but-unconfirmed transactions plus the
/// unspent-output mapping they depend on.
pub struct Mempool {
    pub txs: Vec<SignedTransaction>,
    pub utxo: Vec<(UtxoKey, UtxoEntry)>,
}

impl Mempool {
    /// The mempool invariant: keys are unique; every pooled transaction
    /// has all its inputs present and claimed, spends no key twice, and no
    /// two pooled transactions claim a common key.
    pub open spec fn wf(self) -> bool {
        &&& utxo_keys_unique(self.utxo@)
        &&& forall|i: int|
            0 <= i < self.txs@.len() ==> claims_marked(self.utxo@, #[trigger] self.txs@[i])
        &&& forall|i: int| 0 <= i < self.txs@.len() ==> inputs_distinct(#[trigger] self.txs@[i])
        &&& forall|i: int, j: int|
            0 <= i < j < self.txs@.len() ==> inputs_disjoint(self.txs@[i], self.txs@[j])
    }

    /// An empty mempool.
    pub fn new() -> (r: Mempool)
        ensures
            r.wf(),
            r.txs@.len() == 0,
            r.utxo@.len() == 0,
    {
        Mempool { txs: Vec::new(), utxo: Vec::new() }
    }

    /// Installs an unspent output, as the ledger component does when a
    /// confirmed block pays out. Refuses a key that is already present.
    pub fn install_utxo(&mut self, k: UtxoKey, e: UtxoEntry) -> (r: bool)
        requires
            old(self).wf(),
        ensures
            final(self).wf(),
            final(self).txs@ == old(self).txs@,
            r <==> find_utxo(old(self).utxo@, k) is None,
            r ==> final(self).utxo@ == old(self).utxo@.push((k, e)),
            !r ==> final(self).utxo@ == old(self).utxo@,
    {
        let existing = self.lookup_utxo(k);
        if existing.is_some() {
            return false;
        }
        proof {
            let u = self.utxo@;
            let u1 = u.push((k, e));
            lemma_find_contains(u, k);
            assert forall|i: int, j: int| 0 <= i < j < u1.len() implies u1[i].0 != u1[j].0 by {
                if j < u.len() {
                    assert(u[i].0 != u[j].0);
                }
            }
            assert(u1.drop_last() =~= u);
            assert forall|i: int|
                0 <= i < self.txs@.len() implies claims_marked(u1, #[trigger] self.txs@[i]) by {
                let t = self.txs@[i];
                assert(claims_marked(u, t));
                assert forall|j: int|
                    0 <= j < t.inputs@.len() implies (find_utxo(u1, #[trigger] t.inputs@[j]) matches Some(
                    e2,
                ) && e2.used_in_mempool) by {
                    let kk = t.inputs@[j];
                    assert(find_utxo(u, kk) matches Some(e0) && e0.used_in_mempool);
                    assert(kk != k);
                    assert(find_utxo(u1, kk) == find_utxo(u, kk));
                }
            }
        }
        self.utxo.push((k, e));
        true
    }

    /// The entry stored under `k`, if any.
    pub fn lookup_utxo(&self, k: UtxoKey) -> (r: Option<UtxoEntry>)
        ensures
            r == find_utxo(self.utxo@, k),
    {
        let mut i: usize = self.utxo.len();
        proof {
            assert(self.utxo@.take(self.utxo@.len() as int) =~= self.utxo@);
        }
        while i > 0
            invariant
                i <= self.utxo@.len(),
                find_utxo(self.utxo@, k) == find_utxo(self.utxo@.take(i as int), k),
            decreases i,
        {
            i = i - 1;
            let p = self.utxo[i];
            proof {
                let pre = self.utxo@.take(i as int + 1);
                assert(pre.last() == self.utxo@[i as int]);
                assert(pre.drop_last() =~= self.utxo@.take(i as int));
            }
            if p.0 == k {
                return Some(p.1);
            }
        }
        proof {
            assert(self.utxo@.take(0) =~= Seq::<(UtxoKey, UtxoEntry)>::empty());
        }
        None
    }

    /// The number of entries in the unspent-output mapping.
    pub fn utxo_count(&self) -> (n: usize)
        ensures
            n == self.utxo@.len(),
    {
        self.utxo.len()
    }

    /// A snapshot of the unspent-output mapping, in mapping order, with
    /// the `used_in_mempool` flag of each entry.
    pub fn utxo_entries(&self) -> (r: Vec<(UtxoKey, UtxoEntry)>)
        ensures
            r@ == self.utxo@,
    {
        let mut r: Vec<(UtxoKey, UtxoEntry)> = Vec::new();
        let mut i: usize = 0;
        while i < self.utxo.len()
            invariant
                i <= self.utxo@.len(),
                r@ == self.utxo@.take(i as int),
            decreases self.utxo@.len() - i,
        {
            r.push(self.utxo[i]);
            proof {
                assert(self.utxo@.take(i as int + 1) =~= self.utxo@.take(i as int).push(
                    self.utxo@[i as int],
                ));
            }
            i = i + 1;
        }
        proof {
            assert(self.utxo@.take(self.utxo@.len() as int) =~= self.utxo@);
        }
        r
    }

    /// A snapshot of the pooled transactions, in submission order.
    pub fn pending_transactions(&self) -> (r: Vec<SignedTransaction>)
        ensures
            r@.len() == self.txs@.len(),
            forall|i: int| 0 <= i < r@.len() ==> tx_same(#[trigger] r@[i], self.txs@[i]),
    {
        let mut r: Vec<SignedTransaction> = Vec::new();
        let mut i: usize = 0;
        while i < self.txs.len()
            invariant
                i <= self.txs@.len(),
                r@.len() == i,
                forall|j: int| 0 <= j < i ==> tx_same(#[trigger] r@[j], self.txs@[j]),
            decreases self.txs@.len() - i,
        {
            r.push(self.txs[i].duplicate());
            i = i + 1;
        }
        r
    }

    /// The spendable outputs addressed to `pk`: present in the mapping,
    /// claimed by no pending transaction. Entries already claimed
    /// (`used_in_mempool`) are never returned.
    pub fn query_utxo_by_pk(&self, pk: H256) -> (r: Vec<(UtxoKey, TxOutput)>)
        ensures
            r@ == spendable_by(self.utxo@, pk),
    {
        let mut r: Vec<(UtxoKey, TxOutput)> = Vec::new();
        let mut i: usize = 0;
        proof {
            assert(spendable_by(self.utxo@.take(0), pk) =~= Seq::<(UtxoKey, TxOutput)>::empty());
        }
        while i < self.utxo.len()
            invariant
                i <= self.utxo@.len(),
                r@ == spendable_by(self.utxo@.take(i as int), pk),
            decreases self.utxo@.len() - i,
        {
            let p = self.utxo[i];
            proof {
                let ext = self.utxo@.take(i as int + 1);
                assert(ext.drop_last() =~= self.utxo@.take(i as int));
                assert(ext.last() == self.utxo@[i as int]);
            }
            if p.1.output.pk_hash == pk && !p.1.used_in_mempool {
                r.push((p.0, p.1.output));
                proof {
                    assert(spendable_by(self.utxo@.take(i as int + 1), pk) =~= spendable_by(
                        self.utxo@.take(i as int),
                        pk,
                    ).push((self.utxo@[i as int].0, self.utxo@[i as int].1.output)));
                }
            } else {
                proof {
                    assert(spendable_by(self.utxo@.take(i as int + 1), pk) =~= spendable_by(
                        self.utxo@.take(i as int),
                        pk,
                    ));
                }
            }
            i = i + 1;
        }
        proof {
            assert(self.utxo@.take(self.utxo@.len() as int) =~= self.utxo@);
        }
        r
    }

    /// Whether none of the keys a submission of `tx` would create is in
    /// the mapping already. Callers of `add_tx` warrant this; it holds
    /// whenever transaction hashes are unique.
    pub fn outputs_are_fresh(&self, tx: &SignedTransaction) -> (r: bool)
        requires
            tx.outputs@.len() <= u32::MAX,
        ensures
            r == outputs_fresh(self.utxo@, *tx),
    {
        let mut i: usize = 0;
        while i < tx.outputs.len()
            invariant
                i <= tx.outputs@.len(),
                tx.outputs@.len() <= u32::MAX,
                forall|j: int|
                    0 <= j < i ==> find_utxo(self.utxo@, #[trigger] output_key(*tx, j)) is None,
            decreases tx.outputs@.len() - i,
        {
            let k = UtxoKey { tx_hash: tx.get_tx_hash(), index: i as u32 };
            proof {
                assert(k == output_key(*tx, i as int));
            }
            if self.lookup_utxo(k).is_some() {
                return false;
            }
            i = i + 1;
        }
        true
    }

    /// The atomic submission pipeline: verifies that every input of `tx`
    /// is present and unclaimed, that `tx` spends no key twice, and that
    /// the signature-checking collaborator accepted it (`sig_ok`); only
    /// then claims the inputs, installs the new outputs, and appends `tx`
    /// to the pool. On any refusal the mempool is left unchanged.
    ///
    /// The caller warrants `outputs_fresh`: transaction hashes are unique,
    /// so the keys a submission creates are not in the mapping already.
    #[verifier::rlimit(50)]
    pub fn add_tx(&mut self, tx: SignedTransaction, sig_ok: bool) -> (r: Result<
        (),
        SubmissionError,
    >)
        requires
            old(self).wf(),
            outputs_fresh(old(self).utxo@, tx),
            tx.outputs@.len() <= u32::MAX,
        ensures
            final(self).wf(),
            r == submit_outcome(old(self).utxo@, tx, sig_ok),
            r is Err ==> final(self).txs@ == old(self).txs@ && final(self).utxo@ == old(
                self,
            ).utxo@,
            r is Ok ==> final(self).txs@ == old(self).txs@.push(tx) && final(self).utxo@
                == mark_spent(old(self).utxo@, tx) + new_outputs(tx),
    {
        let ghost u0 = self.utxo@;
        let n = tx.inputs.len();
        let mut i: usize = 0;
        while i < n
            invariant
                n == tx.inputs@.len(),
                i <= n,
                u0 == old(self).utxo@,
                old(self).wf(),
                self.utxo@ == u0,
                self.txs@ == old(self).txs@,
                forall|j: int| 0 <= j < i ==> find_utxo(u0, #[trigger] tx.inputs@[j]) is Some,
            decreases n - i,
        {
            if self.lookup_utxo(tx.inputs[i]).is_none() {
                proof {
                    assert(find_utxo(u0, tx.inputs@[i as int]) is None);
                }
                return Err(SubmissionError::UnknownInput);
            }
            i = i + 1;
        }
        proof {
            assert(!has_unknown_input(u0, tx));
        }
        i = 0;
        while i < n
            invariant
                n == tx.inputs@.len(),
                i <= n,
                u0 == old(self).utxo@,
                old(self).wf(),
                self.utxo@ == u0,
                self.txs@ == old(self).txs@,
                forall|j: int| 0 <= j < n ==> find_utxo(u0, #[trigger] tx.inputs@[j]) is Some,
                forall|j: int|
                    0 <= j < i ==> !(find_utxo(u0, #[trigger] tx.inputs@[j]).unwrap()).used_in_mempool,
                forall|a: int, b: int| 0 <= a < b < i ==> tx.inputs@[a] != tx.inputs@[b],
            decreases n - i,
        {
            let eo = self.lookup_utxo(tx.inputs[i]);
            proof {
                assert(find_utxo(u0, tx.inputs@[i as int]) is Some);
            }
            let e = eo.unwrap();
            if e.used_in_mempool {
                proof {
                    assert(find_utxo(u0, tx.inputs@[i as int]) matches Some(e2)
                        && e2.used_in_mempool);
                }
                return Err(SubmissionError::DoubleSpendPending);
            }
            let mut j: usize = 0;
            while j < i
                invariant
                    j <= i < n,
                    n == tx.inputs@.len(),
                    u0 == old(self).utxo@,
                    old(self).wf(),
                    self.utxo@ == u0,
                    self.txs@ == old(self).txs@,
                    forall|jj: int| 0 <= jj < n ==> find_utxo(u0, #[trigger] tx.inputs@[jj]) is Some,
                    forall|b: int| 0 <= b < j ==> tx.inputs@[b] != tx.inputs@[i as int],
                decreases i - j,
            {
                if tx.inputs[j] == tx.inputs[i] {
                    proof {
                        assert(!inputs_distinct(tx));
                    }
                    return Err(SubmissionError::DoubleSpendPending);
                }
                j = j + 1;
            }
            i = i + 1;
        }
        proof {
            assert(!has_pending_input(u0, tx));
            assert(inputs_distinct(tx));
        }
        if !sig_ok {
            return Err(SubmissionError::BadSignature);
        }
        let mut new_utxo: Vec<(UtxoKey, UtxoEntry)> = Vec::new();
        let m = self.utxo.len();
        let mut a: usize = 0;
        proof {
            assert(mark_spent(u0, tx).take(0) =~= Seq::<(UtxoKey, UtxoEntry)>::empty());
        }
        while a < m
            invariant
                m == u0.len(),
                a <= m,
                u0 == old(self).utxo@,
                self.utxo@ == u0,
                self.txs@ == old(self).txs@,
                new_utxo@ == mark_spent(u0, tx).take(a as int),
            decreases m - a,
        {
            let p = self.utxo[a];
            if inputs_contain(&tx.inputs, p.0) {
                new_utxo.push((p.0, UtxoEntry { output: p.1.output, used_in_mempool: true }));
            } else {
                new_utxo.push(p);
            }
            proof {
                assert(mark_spent(u0, tx)[a as int] == (if tx.inputs@.contains(u0[a as int].0) {
                    (u0[a as int].0, UtxoEntry { output: u0[a as int].1.output, used_in_mempool: true })
                } else {
                    u0[a as int]
                }));
                assert(mark_spent(u0, tx).take(a as int + 1) =~= mark_spent(u0, tx).take(
                    a as int,
                ).push(mark_spent(u0, tx)[a as int]));
            }
            a = a + 1;
        }
        proof {
            assert(mark_spent(u0, tx).take(m as int) =~= mark_spent(u0, tx));
        }
        let q = tx.outputs.len();
        let mut b: usize = 0;
        proof {
            assert(mark_spent(u0, tx) + new_outputs(tx).take(0) =~= mark_spent(u0, tx));
        }
        while b < q
            invariant
                q == tx.outputs@.len(),
                q <= u32::MAX,
                b <= q,
                u0 == old(self).utxo@,
                self.utxo@ == u0,
                self.txs@ == old(self).txs@,
                new_utxo@ == mark_spent(u0, tx) + new_outputs(tx).take(b as int),
            decreases q - b,
        {
            new_utxo.push(
                (
                    UtxoKey { tx_hash: tx.get_tx_hash(), index: b as u32 },
                    UtxoEntry { output: tx.outputs[b], used_in_mempool: false },
                ),
            );
            proof {
                assert(new_outputs(tx)[b as int] == (
                    output_key(tx, b as int),
                    UtxoEntry { output: tx.outputs@[b as int], used_in_mempool: false },
                ));
                assert(output_key(tx, b as int).index == b as u32);
                assert(new_outputs(tx).take(b as int + 1) =~= new_outputs(tx).take(b as int).push(
                    new_outputs(tx)[b as int],
                ));
                assert(mark_spent(u0, tx) + new_outputs(tx).take(b as int + 1) =~= (mark_spent(
                    u0,
                    tx,
                ) + new_outputs(tx).take(b as int)).push(new_outputs(tx)[b as int]));
            }
            b = b + 1;
        }
        proof {
            assert(new_outputs(tx).take(q as int) =~= new_outputs(tx));
        }
        self.utxo = new_utxo;
        let ghost txs0 = self.txs@;
        self.txs.push(tx);
        proof {
            lemma_add_tx_wf(u0, txs0, tx);
        }
        Ok(())
    }
}

fn inputs_contain(v: &Vec<UtxoKey>, k: UtxoKey) -> (r: bool)
    ensures
        r == v@.contains(k),
{
    let mut i: usize = 0;
    while i < v.len()
        invariant
            i <= v@.len(),
            forall|j: int| 0 <= j < i ==> v@[j] != k,
        decreases v@.len() - i,
    {
        if v[i] == k {
            return true;
        }
        i = i + 1;
    }
    false
}

/// Looking a key up in a concatenation: the right part shadows the left.
pub proof fn lemma_find_append(a: Seq<(UtxoKey, UtxoEntry)>, b: Seq<(UtxoKey, UtxoEntry)>, k: UtxoKey)
    ensures
        find_utxo(a + b, k) == (if find_utxo(b, k) is Some {
            find_utxo(b, k)
        } else {
            find_utxo(a, k)
        }),
    decreases b.len(),
{
    if b.len() == 0 {
        assert(a + b =~= a);
    } else {
        lemma_find_append(a, b.drop_last(), k);
        assert((a + b).drop_last() =~= a + b.drop_last());
    }
}

/// Claiming inputs preserves which keys are present and what they pay out;
/// it only sets `used_in_mempool` on the entries that `t` spends.
pub proof fn lemma_find_mark_spent(u: Seq<(UtxoKey, UtxoEntry)>, t: SignedTransaction, k: UtxoKey)
    ensures
        find_utxo(mark_spent(u, t), k) == (match find_utxo(u, k) {
            Option::None => Option::<UtxoEntry>::None,
            Option::Some(e) => Option::Some(
                if t.inputs@.contains(k) {
                    UtxoEntry { output: e.output, used_in_mempool: true }
                } else {
                    e
                },
            ),
        }),
    decreases u.len(),
{
    if u.len() == 0 {
        assert(mark_spent(u, t) =~= Seq::<(UtxoKey, UtxoEntry)>::empty());
    } else {
        lemma_find_mark_spent(u.drop_last(), t, k);
        assert(mark_spent(u, t).drop_last() =~= mark_spent(u.drop_last(), t));
        assert(mark_spent(u, t).last() == mark_spent(u, t)[u.len() - 1]);
    }
}

/// A key found among the fresh outputs of `t` is one of `t`'s output keys.
pub proof fn lemma_find_new_outputs(t: SignedTransaction, k: UtxoKey)
    requires
        find_utxo(new_outputs(t), k) is Some,
    ensures
        exists|i: int| 0 <= i < t.outputs@.len() && k == output_key(t, i),
{
    lemma_find_contains(new_outputs(t), k);
    let i = choose|i: int|
        0 <= i < new_outputs(t).len() && (#[trigger] new_outputs(t)[i]).0 == k;
    assert(k == output_key(t, i));
}

/// A query by recipient never returns a claimed entry: every pair it
/// yields comes from a position of the mapping whose entry is addressed
/// to `pk` and has `used_in_mempool` false.
pub proof fn lemma_spendable_by_unclaimed(u: Seq<(UtxoKey, UtxoEntry)>, pk: H256)
    ensures
        forall|i: int|
            0 <= i < spendable_by(u, pk).len() ==> exists|j: int|
                0 <= j < u.len() && (#[trigger] u[j]).0 == (#[trigger] spendable_by(u, pk)[i]).0
                    && u[j].1.output == spendable_by(u, pk)[i].1 && u[j].1.output.pk_hash == pk
                    && !u[j].1.used_in_mempool,
    decreases u.len(),
{
    if u.len() > 0 {
        lemma_spendable_by_unclaimed(u.drop_last(), pk);
        let s = spendable_by(u, pk);
        let pre = spendable_by(u.drop_last(), pk);
        assert forall|i: int|
            0 <= i < s.len() implies exists|j: int|
                0 <= j < u.len() && (#[trigger] u[j]).0 == (#[trigger] s[i]).0 && u[j].1.output
                    == s[i].1 && u[j].1.output.pk_hash == pk && !u[j].1.used_in_mempool by {
            if i < pre.len() {
                assert(s[i] == pre[i]);
                let j = choose|j: int|
                    0 <= j < u.drop_last().len() && (#[trigger] u.drop_last()[j]).0 == pre[i].0
                        && u.drop_last()[j].1.output == pre[i].1 && u.drop_last()[j].1.output.pk_hash
                        == pk && !u.drop_last()[j].1.used_in_mempool;
                assert(u[j] == u.drop_last()[j]);
            } else {
                assert(u.last().1.output.pk_hash == pk && !u.last().1.used_in_mempool);
                assert(s[i] == (u.last().0, u.last().1.output));
                assert(u[u.len() - 1] == u.last());
            }
        }
    }
}

/// A submission with an input absent from the unspent-output mapping is
/// refused as unknown-input, whatever the signature verdict; by `add_tx`'s
/// contract the pool and the mapping are then left unchanged.
pub proof fn lemma_unknown_input_rejected(
    u: Seq<(UtxoKey, UtxoEntry)>,
    t: SignedTransaction,
    sig_ok: bool,
)
    requires
        has_unknown_input(u, t),
    ensures
        submit_outcome(u, t, sig_ok) == Result::<(), SubmissionError>::Err(
            SubmissionError::UnknownInput,
        ),
{
}

/// Two submissions that spend a common output key cannot both succeed.
/// Submissions are serialized by the mempool's lock; after the first one
/// is applied, the key is claimed in the mapping, and the second — already
/// free of unknown inputs beforehand — is refused as a pending double
/// spend, leaving the mempool unchanged.
pub proof fn lemma_conflicting_submissions(
    u: Seq<(UtxoKey, UtxoEntry)>,
    t1: SignedTransaction,
    t2: SignedTransaction,
    sig1: bool,
    sig2: bool,
    k: UtxoKey,
)
    requires
        outputs_fresh(u, t1),
        t1.inputs@.contains(k),
        t2.inputs@.contains(k),
        submit_outcome(u, t1, sig1) is Ok,
        !has_unknown_input(u, t2),
    ensures
        find_utxo(mark_spent(u, t1) + new_outputs(t1), k) matches Some(e) && e.used_in_mempool,
        submit_outcome(mark_spent(u, t1) + new_outputs(t1), t2, sig2) == Result::<
            (),
            SubmissionError,
        >::Err(SubmissionError::DoubleSpendPending),
{
    let ms = mark_spent(u, t1);
    let no = new_outputs(t1);
    let u1 = ms + no;
    let i = choose|i: int| 0 <= i < t1.inputs@.len() && t1.inputs@[i] == k;
    assert(find_utxo(u, t1.inputs@[i]) is Some);
    if find_utxo(no, k) is Some {
        lemma_find_new_outputs(t1, k);
        let oi = choose|oi: int| 0 <= oi < t1.outputs@.len() && k == output_key(t1, oi);
        assert(find_utxo(u, output_key(t1, oi)) is None);
        assert(false);
    }
    lemma_find_append(ms, no, k);
    lemma_find_mark_spent(u, t1, k);
    let j = choose|j: int| 0 <= j < t2.inputs@.len() && t2.inputs@[j] == k;
    assert(find_utxo(u1, t2.inputs@[j]) matches Some(e) && e.used_in_mempool);
    assert(has_pending_input(u1, t2));
    assert forall|c: int|
        0 <= c < t2.inputs@.len() implies find_utxo(u1, #[trigger] t2.inputs@[c]) is Some by {
        let kk = t2.inputs@[c];
        assert(find_utxo(u, kk) is Some);
        if find_utxo(no, kk) is Some {
            lemma_find_append(ms, no, kk);
        } else {
            lemma_find_append(ms, no, kk);
            lemma_find_mark_spent(u, t1, kk);
        }
    }
    assert(!has_unknown_input(u1, t2));
}

/// After a successful submission of a transaction that spends at least
/// one output, the pool contains a transaction with its content exactly
/// once: an identical pending transaction would have made the submission
/// fail as a pending double spend.
pub proof fn lemma_submitted_once(m: Mempool, t: SignedTransaction, sig_ok: bool)
    requires
        m.wf(),
        t.inputs@.len() > 0,
        submit_outcome(m.utxo@, t, sig_ok) is Ok,
    ensures
        count_same(m.txs@.push(t), t) == 1,
{
    assert forall|i: int| 0 <= i < m.txs@.len() implies !tx_same(#[trigger] m.txs@[i], t) by {
        if tx_same(m.txs@[i], t) {
            assert(claims_marked(m.utxo@, m.txs@[i]));
            assert(find_utxo(m.utxo@, m.txs@[i].inputs@[0]) matches Some(e) && e.used_in_mempool);
            assert(m.txs@[i].inputs@[0] == t.inputs@[0]);
            assert(has_pending_input(m.utxo@, t));
            assert(false);
        }
    }
    lemma_count_same_absent(m.txs@, t);
    assert(m.txs@.push(t).drop_last() =~= m.txs@);
    assert(tx_same(m.txs@.push(t).last(), t));
}

proof fn lemma_count_same_absent(s: Seq<SignedTransaction>, t: SignedTransaction)
    requires
        forall|i: int| 0 <= i < s.len() ==> !tx_same(#[trigger] s[i], t),
    ensures
        count_same(s, t) == 0,
    decreases s.len(),
{
    if s.len() > 0 {
        lemma_count_same_absent(s.drop_last(), t);
    }
}

/// A successful submission preserves the mempool invariant: the mapping
/// keeps unique keys, every pooled transaction (the new one included) has
/// its inputs claimed, and no two pooled transactions share a key.
proof fn lemma_add_tx_wf(
    u0: Seq<(UtxoKey, UtxoEntry)>,
    txs0: Seq<SignedTransaction>,
    t: SignedTransaction,
)
    requires
        utxo_keys_unique(u0),
        forall|i: int| 0 <= i < txs0.len() ==> claims_marked(u0, #[trigger] txs0[i]),
        forall|i: int| 0 <= i < txs0.len() ==> inputs_distinct(#[trigger] txs0[i]),
        forall|i: int, j: int| 0 <= i < j < txs0.len() ==> inputs_disjoint(txs0[i], txs0[j]),
        outputs_fresh(u0, t),
        t.outputs@.len() <= u32::MAX,
        !has_unknown_input(u0, t),
        !has_pending_input(u0, t),
        inputs_distinct(t),
    ensures
        utxo_keys_unique(mark_spent(u0, t) + new_outputs(t)),
        forall|i: int|
            0 <= i < txs0.push(t).len() ==> claims_marked(
                mark_spent(u0, t) + new_outputs(t),
                #[trigger] txs0.push(t)[i],
            ),
        forall|i: int| 0 <= i < txs0.push(t).len() ==> inputs_distinct(#[trigger] txs0.push(t)[i]),
        forall|i: int, j: int|
            0 <= i < j < txs0.push(t).len() ==> inputs_disjoint(txs0.push(t)[i], txs0.push(t)[j]),
{
    let ms = mark_spent(u0, t);
    let no = new_outputs(t);
    let u1 = ms + no;
    let txs1 = txs0.push(t);
    assert forall|k: UtxoKey| find_utxo(u0, k) is Some implies find_utxo(no, k) is None by {
        if find_utxo(no, k) is Some {
            lemma_find_new_outputs(t, k);
            let oi = choose|oi: int| 0 <= oi < t.outputs@.len() && k == output_key(t, oi);
            assert(find_utxo(u0, output_key(t, oi)) is None);
        }
    }
    let lm = u0.len() as int;
    assert forall|i: int, j: int| 0 <= i < j < u1.len() implies u1[i].0 != u1[j].0 by {
        if j < lm {
            assert(ms[i].0 == u0[i].0);
            assert(ms[j].0 == u0[j].0);
            assert(u0[i].0 != u0[j].0);
        } else if i < lm {
            assert(u1[j] == no[j - lm]);
            assert(no[j - lm].0 == output_key(t, j - lm));
            if u1[i].0 == u1[j].0 {
                assert(u0[i].0 == output_key(t, j - lm));
                lemma_find_contains(u0, output_key(t, j - lm));
                assert(find_utxo(u0, output_key(t, j - lm)) is None);
                assert(false);
            }
        } else {
            let ia = i - lm;
            let jb = j - lm;
            assert(no[ia].0 == output_key(t, ia));
            assert(no[jb].0 == output_key(t, jb));
            assert(ia as u32 != jb as u32);
        }
    }
    assert forall|i: int| 0 <= i < txs1.len() implies claims_marked(u1, txs1[i]) by {
        if i < txs0.len() {
            let t0 = txs0[i];
            assert(claims_marked(u0, t0));
            assert forall|j: int|
                0 <= j < t0.inputs@.len() implies (find_utxo(u1, #[trigger] t0.inputs@[j]) matches Some(e)
                && e.used_in_mempool) by {
                let k = t0.inputs@[j];
                assert(find_utxo(u0, k) matches Some(e0) && e0.used_in_mempool);
                lemma_find_append(ms, no, k);
                lemma_find_mark_spent(u0, t, k);
            }
            assert(txs1[i] == t0);
        } else {
            assert(txs1[i] == t);
            assert forall|j: int|
                0 <= j < t.inputs@.len() implies (find_utxo(u1, #[trigger] t.inputs@[j]) matches Some(e)
                && e.used_in_mempool) by {
                let k = t.inputs@[j];
                assert(find_utxo(u0, k) is Some);
                assert(t.inputs@.contains(k));
                lemma_find_append(ms, no, k);
                lemma_find_mark_spent(u0, t, k);
            }
        }
    }
    assert forall|i: int| 0 <= i < txs1.len() implies inputs_distinct(txs1[i]) by {
        if i < txs0.len() {
            assert(txs1[i] == txs0[i]);
        } else {
            assert(txs1[i] == t);
        }
    }
    assert forall|i: int, j: int|
        0 <= i < j < txs1.len() implies inputs_disjoint(txs1[i], txs1[j]) by {
        if j < txs0.len() {
            assert(txs1[i] == txs0[i]);
            assert(txs1[j] == txs0[j]);
        } else {
            let t0 = txs0[i];
            assert(txs1[i] == t0);
            assert(txs1[j] == t);
            assert forall|x: int, y: int|
                0 <= x < t0.inputs@.len() && 0 <= y < t.inputs@.len() implies t0.inputs@[x]
                != t.inputs@[y] by {
                let k0 = t0.inputs@[x];
                let k1 = t.inputs@[y];
                assert(claims_marked(u0, t0));
                assert(find_utxo(u0, k0) matches Some(e0) && e0.used_in_mempool);
                if k0 == k1 {
                    assert(find_utxo(u0, t.inputs@[y]) matches Some(e1) && e1.used_in_mempool);
                    assert(has_pending_input(u0, t));
                    assert(false);
                }
            }
        }
    }
}

/// A key is found exactly when some position of the mapping holds it.
pub proof fn lemma_find_contains(u: Seq<(UtxoKey, UtxoEntry)>, k: UtxoKey)
    ensures
        find_utxo(u, k) is Some <==> exists|i: int| 0 <= i < u.len() && (#[trigger] u[i]).0 == k,
    decreases u.len(),
{
    if u.len() > 0 {
        lemma_find_contains(u.drop_last(), k);
        if u.last().0 == k {
            assert(u[u.len() - 1].0 == k);
        } else {
            if find_utxo(u, k) is Some {
                let i = choose|i: int| 0 <= i < u.drop_last().len() && (#[trigger] u.drop_last()[i]).0 == k;
                assert(u[i].0 == k);
            } else {
                if exists|i: int| 0 <= i < u.len() && (#[trigger] u[i]).0 == k {
                    let i = choose|i: int| 0 <= i < u.len() && (#[trigger] u[i]).0 == k;
                    assert(u.drop_last()[i].0 == k);
                }
            }
        }
    }
}

} // verus!
