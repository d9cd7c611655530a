//! Read-only view of the canonical ledger: blocks keyed by identifier,
//! the longest chain, and the transactions confirmed along it.

use vstd::prelude::*;
use crate::CONFIRMATION_DEPTH;
use crate::hash::H256;
use crate::tx::SignedTransaction;

verus! {

/// The transactions of a block, with the cached per-block count.
pub struct Body {
    pub txs: Vec<SignedTransaction>,
    pub tx_count: usize,
}

/// The cached count agrees with the transactions actually present.
pub open spec fn body_ok(b: Body) -> bool {
    b.tx_count == b.txs@.len()
}

/// A block: its identifier, its parent's identifier, and its body. The
/// genesis block sits at height 0 and its parent is never consulted.
pub struct Block {
    pub hash: H256,
    pub parent: H256,
    pub body: Body,
}

/// A block together with the height at which it sits in the ledger.
pub struct BlockWithHeight {
    pub block: Block,
    pub height: u64,
}

/// The canonical ledger: a mapping from block identifier to
/// block-with-height, the identifier of the current tip, and the cached
/// height of the tip. The consensus component mutates it; this crate only
/// reads it under the ledger lock.
pub struct Ledger {
    pub blocks: Vec<(H256, BlockWithHeight)>,
    pub tip: H256,
    pub height: u64,
}

/// The block stored under identifier `h`, if any.
pub open spec fn find_block(m: Seq<(H256, BlockWithHeight)>, h: H256) -> Option<BlockWithHeight>
    decreases m.len(),
{
    if m.len() == 0 {
        None
    } else if m.last().0 == h {
        Some(m.last().1)
    } else {
        find_block(m.drop_last(), h)
    }
}

/// If `ob` holds a non-genesis block, its parent is present in the
/// mapping, one height below it.
pub open spec fn parent_ok(m: Seq<(H256, BlockWithHeight)>, ob: Option<BlockWithHeight>) -> bool {
    match ob {
        Option::None => true,
        Option::Some(b) => b.height > 0 ==> (match find_block(m, b.block.parent) {
            Option::Some(p) => p.height == b.height - 1,
            Option::None => false,
        }),
    }
}

/// Every block except genesis has its parent present in the mapping.
pub open spec fn parent_linked(m: Seq<(H256, BlockWithHeight)>) -> bool {
    forall|h: H256| parent_ok(m, #[trigger] find_block(m, h))
}

impl Ledger {
    /// The ledger invariant: identifiers are unique and consistent with
    /// the blocks they key, parents are linked one height down, the tip is
    /// present at the cached height, and per-block counts are consistent.
    pub open spec fn wf(self) -> bool {
        &&& forall|i: int, j: int|
            0 <= i < j < self.blocks@.len() ==> self.blocks@[i].0 != self.blocks@[j].0
        &&& forall|i: int|
            0 <= i < self.blocks@.len() ==> (#[trigger] self.blocks@[i]).0
                == self.blocks@[i].1.block.hash
        &&& parent_linked(self.blocks@)
        &&& find_block(self.blocks@, self.tip) matches Some(b) && b.height == self.height
        &&& forall|i: int|
            0 <= i < self.blocks@.len() ==> body_ok((#[trigger] self.blocks@[i]).1.block.body)
    }
}

/// The identifiers on the path from genesis to `h`, in height order,
/// `h` last.
pub open spec fn chain_to(m: Seq<(H256, BlockWithHeight)>, h: H256) -> Seq<H256>
    decreases (match find_block(m, h) {
        Option::Some(b) => b.height as int + 1,
        Option::None => 0,
    })
    when parent_linked(m) && find_block(m, h) is Some
{
    match find_block(m, h) {
        Option::Some(b) => if b.height == 0 {
            seq![h]
        } else {
            chain_to(m, b.block.parent).push(h)
        },
        Option::None => Seq::empty(),
    }
}

/// The hashes of a block's transactions, in block order.
pub open spec fn block_tx_hashes(b: BlockWithHeight) -> Seq<H256> {
    b.block.body.txs@.map_values(|t: SignedTransaction| t.hash)
}

/// The transaction hashes of the blocks named by `hs`, concatenated in
/// chain order.
pub open spec fn chain_tx_hashes(m: Seq<(H256, BlockWithHeight)>, hs: Seq<H256>) -> Seq<H256>
    decreases hs.len(),
{
    if hs.len() == 0 {
        Seq::empty()
    } else {
        chain_tx_hashes(m, hs.drop_last()) + (match find_block(m, hs.last()) {
            Option::Some(b) => block_tx_hashes(b),
            Option::None => Seq::empty(),
        })
    }
}

/// The sum of the cached transaction counts of the blocks named by `hs`.
pub open spec fn chain_tx_count(m: Seq<(H256, BlockWithHeight)>, hs: Seq<H256>) -> int
    decreases hs.len(),
{
    if hs.len() == 0 {
        0
    } else {
        chain_tx_count(m, hs.drop_last()) + (match find_block(m, hs.last()) {
            Option::Some(b) => b.block.body.tx_count as int,
            Option::None => 0,
        })
    }
}

/// A found block is one of the mapping's entries.
pub proof fn lemma_find_block_member(m: Seq<(H256, BlockWithHeight)>, h: H256)
    requires
        find_block(m, h) is Some,
    ensures
        exists|i: int|
            0 <= i < m.len() && (#[trigger] m[i]).0 == h && m[i].1 == find_block(m, h).unwrap(),
    decreases m.len(),
{
    if m.last().0 == h {
        assert(m[m.len() - 1].0 == h && m[m.len() - 1].1 == find_block(m, h).unwrap());
    } else {
        lemma_find_block_member(m.drop_last(), h);
        let i = choose|i: int|
            0 <= i < m.drop_last().len() && (#[trigger] m.drop_last()[i]).0 == h
                && m.drop_last()[i].1 == find_block(m.drop_last(), h).unwrap();
        assert(m[i].0 == h && m[i].1 == find_block(m, h).unwrap());
    }
}

/// Every identifier on a chain is present in the mapping.
pub proof fn lemma_chain_elements(m: Seq<(H256, BlockWithHeight)>, h: H256)
    requires
        parent_linked(m),
        find_block(m, h) is Some,
    ensures
        forall|i: int|
            0 <= i < chain_to(m, h).len() ==> find_block(m, #[trigger] chain_to(m, h)[i]) is Some,
    decreases find_block(m, h).unwrap().height,
{
    let b = find_block(m, h).unwrap();
    if b.height > 0 {
        lemma_chain_elements(m, b.block.parent);
        let pre = chain_to(m, b.block.parent);
        assert forall|i: int|
            0 <= i < chain_to(m, h).len() implies find_block(m, #[trigger] chain_to(m, h)[i]) is Some by {
            if i < pre.len() {
                assert(chain_to(m, h)[i] == pre[i]);
            } else {
                assert(chain_to(m, h)[i] == h);
            }
        }
    }
}

/// The transaction count along a chain equals the number of transaction
/// hashes enumerated along the same chain, whenever every block's cached
/// count is consistent with its body.
pub proof fn lemma_tx_count_matches_hashes(m: Seq<(H256, BlockWithHeight)>, hs: Seq<H256>)
    requires
        forall|i: int| 0 <= i < m.len() ==> body_ok((#[trigger] m[i]).1.block.body),
    ensures
        chain_tx_count(m, hs) == chain_tx_hashes(m, hs).len(),
    decreases hs.len(),
{
    if hs.len() > 0 {
        lemma_tx_count_matches_hashes(m, hs.drop_last());
        if find_block(m, hs.last()) is Some {
            lemma_find_block_member(m, hs.last());
            let b = find_block(m, hs.last()).unwrap();
            assert(body_ok(b.block.body));
            assert(block_tx_hashes(b).len() == b.block.body.txs@.len());
        }
    }
}

/// A prefix of a chain accounts for at most the whole chain's
/// transactions.
proof fn lemma_chain_tx_count_take(m: Seq<(H256, BlockWithHeight)>, hs: Seq<H256>, k: int)
    requires
        0 <= k <= hs.len(),
    ensures
        chain_tx_count(m, hs.take(k)) <= chain_tx_count(m, hs),
        chain_tx_count(m, hs.take(k)) >= 0,
    decreases hs.len(),
{
    if k == hs.len() {
        assert(hs.take(k) =~= hs);
        lemma_chain_tx_count_nonneg(m, hs);
    } else {
        assert(hs.drop_last().take(k) =~= hs.take(k));
        lemma_chain_tx_count_take(m, hs.drop_last(), k);
    }
}

proof fn lemma_chain_tx_count_nonneg(m: Seq<(H256, BlockWithHeight)>, hs: Seq<H256>)
    ensures
        chain_tx_count(m, hs) >= 0,
    decreases hs.len(),
{
    if hs.len() > 0 {
        lemma_chain_tx_count_nonneg(m, hs.drop_last());
    }
}

impl Ledger {
    /// The position in the mapping holding identifier `h`, scanned so that
    /// it agrees with `find_block`.
    fn lookup_block_index(&self, h: H256) -> (r: Option<usize>)
        ensures
            r matches Some(i) ==> i < self.blocks@.len() && self.blocks@[i as int].0 == h
                && find_block(self.blocks@, h) == Some(self.blocks@[i as int].1),
            r is None ==> find_block(self.blocks@, h) is None,
    {
        let mut i: usize = self.blocks.len();
        proof {
            assert(self.blocks@.take(self.blocks@.len() as int) =~= self.blocks@);
        }
        while i > 0
            invariant
                i <= self.blocks@.len(),
                find_block(self.blocks@, h) == find_block(self.blocks@.take(i as int), h),
            decreases i,
        {
            i = i - 1;
            proof {
                let pre = self.blocks@.take(i as int + 1);
                assert(pre.last() == self.blocks@[i as int]);
                assert(pre.drop_last() =~= self.blocks@.take(i as int));
            }
            if self.blocks[i].0 == h {
                return Some(i);
            }
        }
        proof {
            assert(self.blocks@.take(0) =~= Seq::<(H256, BlockWithHeight)>::empty());
        }
        None
    }

    /// The cached height of the current tip.
    pub fn ledger_height(&self) -> (r: u64)
        ensures
            r == self.height,
    {
        self.height
    }

    /// The number of blocks known to the ledger, forks included.
    pub fn block_count(&self) -> (n: usize)
        ensures
            n == self.blocks@.len(),
    {
        self.blocks.len()
    }

    /// The identifiers of the blocks on the longest chain, from genesis to
    /// the tip inclusive, in height order.
    pub fn all_blocks_in_longest_chain(&self) -> (r: Vec<H256>)
        requires
            self.wf(),
        ensures
            r@ == chain_to(self.blocks@, self.tip),
    {
        let ghost m = self.blocks@;
        let mut acc: Vec<H256> = Vec::new();
        let mut cur: H256 = self.tip;
        proof {
            assert(chain_to(m, self.tip) =~= chain_to(m, cur) + acc@.reverse());
        }
        loop
            invariant_except_break
                self.wf(),
                m == self.blocks@,
                find_block(m, cur) is Some,
                chain_to(m, self.tip) == chain_to(m, cur) + acc@.reverse(),
            ensures
                chain_to(m, self.tip) == acc@.reverse(),
                m == self.blocks@,
            decreases find_block(m, cur).unwrap().height,
        {
            let idx = self.lookup_block_index(cur).unwrap();
            let height = self.blocks[idx].1.height;
            let parent = self.blocks[idx].1.block.parent;
            acc.push(cur);
            proof {
                let b = find_block(m, cur).unwrap();
                assert(acc@.reverse() =~= seq![cur] + acc@.drop_last().reverse());
            }
            if height == 0 {
                proof {
                    assert(chain_to(m, cur) == seq![cur]);
                    assert(chain_to(m, self.tip) =~= acc@.reverse());
                }
                break ;
            }
            proof {
                let b = find_block(m, cur).unwrap();
                assert(parent_ok(m, find_block(m, cur)));
                assert(chain_to(m, cur) == chain_to(m, b.block.parent).push(cur));
                assert(chain_to(m, self.tip) =~= chain_to(m, parent) + (acc@.reverse()));
            }
            cur = parent;
        }
        let mut r: Vec<H256> = Vec::new();
        let n = acc.len();
        let mut i: usize = n;
        while i > 0
            invariant
                i <= n,
                n == acc@.len(),
                r@.len() == n - i,
                forall|j: int| 0 <= j < r@.len() ==> r@[j] == acc@[n - 1 - j],
            decreases i,
        {
            i = i - 1;
            r.push(acc[i]);
        }
        proof {
            assert(r@ =~= acc@.reverse());
        }
        r
    }

    /// The hashes of every transaction confirmed along the longest chain,
    /// in chain order.
    pub fn longest_chain_tx_hashes(&self) -> (r: Vec<H256>)
        requires
            self.wf(),
        ensures
            r@ == chain_tx_hashes(self.blocks@, chain_to(self.blocks@, self.tip)),
    {
        let ghost m = self.blocks@;
        let hs = self.all_blocks_in_longest_chain();
        proof {
            lemma_chain_elements(m, self.tip);
        }
        let mut r: Vec<H256> = Vec::new();
        let mut i: usize = 0;
        proof {
            assert(chain_tx_hashes(m, hs@.take(0)) =~= Seq::<H256>::empty());
        }
        while i < hs.len()
            invariant
                i <= hs@.len(),
                m == self.blocks@,
                forall|j: int| 0 <= j < hs@.len() ==> find_block(m, #[trigger] hs@[j]) is Some,
                r@ == chain_tx_hashes(m, hs@.take(i as int)),
            decreases hs@.len() - i,
        {
            let idx = self.lookup_block_index(hs[i]).unwrap();
            let body = &self.blocks[idx].1.block.body;
            let ghost b = find_block(m, hs@[i as int]).unwrap();
            let mut j: usize = 0;
            while j < body.txs.len()
                invariant
                    j <= body.txs@.len(),
                    body == &self.blocks@[idx as int].1.block.body,
                    b == find_block(m, hs@[i as int]).unwrap(),
                    find_block(m, hs@[i as int]) is Some,
                    body.txs@ == b.block.body.txs@,
                    r@ == chain_tx_hashes(m, hs@.take(i as int)) + block_tx_hashes(b).take(
                        j as int,
                    ),
                decreases body.txs@.len() - j,
            {
                r.push(body.txs[j].get_tx_hash());
                proof {
                    assert(block_tx_hashes(b).take(j as int + 1) =~= block_tx_hashes(b).take(
                        j as int,
                    ).push(b.block.body.txs@[j as int].hash));
                    assert(r@ =~= chain_tx_hashes(m, hs@.take(i as int)) + block_tx_hashes(
                        b,
                    ).take(j as int + 1));
                }
                j = j + 1;
            }
            proof {
                assert(block_tx_hashes(b).take(body.txs@.len() as int) =~= block_tx_hashes(b));
                let ext = hs@.take(i as int + 1);
                assert(ext.drop_last() =~= hs@.take(i as int));
                assert(ext.last() == hs@[i as int]);
                assert(r@ =~= chain_tx_hashes(m, hs@.take(i as int + 1)));
            }
            i = i + 1;
        }
        proof {
            assert(hs@.take(hs@.len() as int) =~= hs@);
        }
        r
    }

    /// The total number of transactions confirmed along the longest
    /// chain, summed from the per-block cached counts.
    pub fn longest_chain_tx_count(&self) -> (n: usize)
        requires
            self.wf(),
            chain_tx_count(self.blocks@, chain_to(self.blocks@, self.tip)) <= usize::MAX,
        ensures
            n == chain_tx_count(self.blocks@, chain_to(self.blocks@, self.tip)),
    {
        let ghost m = self.blocks@;
        let hs = self.all_blocks_in_longest_chain();
        proof {
            lemma_chain_elements(m, self.tip);
        }
        let mut n: usize = 0;
        let mut i: usize = 0;
        proof {
            assert(chain_tx_count(m, hs@.take(0)) == 0);
        }
        while i < hs.len()
            invariant
                i <= hs@.len(),
                m == self.blocks@,
                self.wf(),
                forall|j: int| 0 <= j < hs@.len() ==> find_block(m, #[trigger] hs@[j]) is Some,
                chain_tx_count(m, hs@) <= usize::MAX,
                n == chain_tx_count(m, hs@.take(i as int)),
            decreases hs@.len() - i,
        {
            let idx = self.lookup_block_index(hs[i]).unwrap();
            let c = self.blocks[idx].1.block.body.tx_count;
            proof {
                let ext = hs@.take(i as int + 1);
                assert(ext.drop_last() =~= hs@.take(i as int));
                assert(ext.last() == hs@[i as int]);
                lemma_chain_tx_count_take(m, hs@, i as int + 1);
            }
            n = n + c;
            i = i + 1;
        }
        proof {
            assert(hs@.take(hs@.len() as int) =~= hs@);
        }
        n
    }
}

/// The longest-chain hash list with the trailing `CONFIRMATION_DEPTH`
/// entries removed when it is longer than that; the full list otherwise.
pub fn confirmed_prefix(v: &Vec<H256>) -> (r: Vec<H256>)
    ensures
        v@.len() <= CONFIRMATION_DEPTH ==> r@ == v@,
        v@.len() > CONFIRMATION_DEPTH ==> r@ == v@.take(v@.len() - CONFIRMATION_DEPTH),
{
    let lim = if v.len() > CONFIRMATION_DEPTH {
        v.len() - CONFIRMATION_DEPTH
    } else {
        v.len()
    };
    let mut r: Vec<H256> = Vec::new();
    let mut i: usize = 0;
    while i < lim
        invariant
            i <= lim <= v@.len(),
            r@ == v@.take(i as int),
        decreases lim - i,
    {
        r.push(v[i]);
        proof {
            assert(v@.take(i as int + 1) =~= v@.take(i as int).push(v@[i as int]));
        }
        i = i + 1;
    }
    proof {
        if v@.len() <= CONFIRMATION_DEPTH {
            assert(v@.take(v@.len() as int) =~= v@);
        }
    }
    r
}

} // verus!
