use node::api::{handle_request, route_of, Message, Payload, Route};
use node::hash::H256;
use node::ledger::{confirmed_prefix, Block, BlockWithHeight, Body, Ledger};
use node::mempool::{Mempool, SubmissionError, UtxoEntry};
use node::transaction_generator::TransactionGenerator;
use node::tx::{SignedTransaction, TxOutput, UtxoKey};

fn h(n: u64) -> H256 {
    H256 { w0: 0, w1: 0, w2: 0, w3: n }
}

fn tx(hash: H256, inputs: Vec<UtxoKey>, outputs: Vec<TxOutput>) -> SignedTransaction {
    SignedTransaction { hash, inputs, outputs, signature: vec![1, 2, 3] }
}

/// A three-block chain (heights 0..=2) plus one fork block at height 1,
/// with one transaction in the genesis block and two in the tip.
fn sample_ledger() -> Ledger {
    let genesis = Block {
        hash: h(1),
        parent: h(0),
        body: Body { txs: vec![tx(h(100), vec![], vec![])], tx_count: 1 },
    };
    let mid = Block {
        hash: h(2),
        parent: h(1),
        body: Body { txs: vec![], tx_count: 0 },
    };
    let tip = Block {
        hash: h(3),
        parent: h(2),
        body: Body {
            txs: vec![tx(h(101), vec![], vec![]), tx(h(102), vec![], vec![])],
            tx_count: 2,
        },
    };
    let fork = Block {
        hash: h(9),
        parent: h(1),
        body: Body { txs: vec![], tx_count: 0 },
    };
    Ledger {
        blocks: vec![
            (h(1), BlockWithHeight { block: genesis, height: 0 }),
            (h(2), BlockWithHeight { block: mid, height: 1 }),
            (h(3), BlockWithHeight { block: tip, height: 2 }),
            (h(9), BlockWithHeight { block: fork, height: 1 }),
        ],
        tip: h(3),
        height: 2,
    }
}

/// A mempool holding two spendable outputs for key owner `h(40)` and one
/// already-claimed output for the same owner.
fn sample_mempool() -> Mempool {
    let mut m = Mempool::new();
    assert!(m.install_utxo(
        UtxoKey { tx_hash: h(100), index: 0 },
        UtxoEntry { output: TxOutput { pk_hash: h(40), value: 10 }, used_in_mempool: false },
    ));
    assert!(m.install_utxo(
        UtxoKey { tx_hash: h(101), index: 0 },
        UtxoEntry { output: TxOutput { pk_hash: h(40), value: 20 }, used_in_mempool: false },
    ));
    assert!(m.install_utxo(
        UtxoKey { tx_hash: h(102), index: 0 },
        UtxoEntry { output: TxOutput { pk_hash: h(41), value: 30 }, used_in_mempool: false },
    ));
    m
}

#[test]
fn routes_resolve() {
    assert_eq!(route_of("/miner/start"), Route::MinerStart);
    assert_eq!(route_of("/tx-generator/start"), Route::TxGeneratorStart);
    assert_eq!(route_of("/network/ping"), Route::NetworkPing);
    assert_eq!(route_of("/blockchain/longest-chain"), Route::LongestChain);
    assert_eq!(route_of("/blockchain/f-chain"), Route::FChain);
    assert_eq!(route_of("/blockchain/height"), Route::Height);
    assert_eq!(route_of("/blockchain/total_block"), Route::TotalBlock);
    assert_eq!(route_of("/blockchain/longest-chain-tx"), Route::LongestChainTx);
    assert_eq!(route_of("/blockchain/longest-chain-tx-count"), Route::LongestChainTxCount);
    assert_eq!(route_of("/utxo"), Route::Utxo);
    assert_eq!(route_of("/mempool/txs"), Route::MempoolTxs);
    assert_eq!(route_of("/utxo-count"), Route::UtxoCount);
    assert_eq!(route_of("/mempool/query_utxo_by_pk"), Route::QueryUtxoByPk);
    assert_eq!(route_of("/mempool/submit_tx"), Route::SubmitTx);
    assert_eq!(route_of("/nope"), Route::Unknown);
}

#[test]
fn unknown_route_is_404() {
    let ledger = sample_ledger();
    let mut mp = sample_mempool();
    let out = handle_request(&ledger, &mut mp, "GET", "/definitely/not/there", None, true);
    assert_eq!(out.response.status, 404);
    match out.response.payload {
        Payload::Envelope { success, message } => {
            assert!(!success);
            assert_eq!(message, "endpoint not found");
        }
        _ => panic!("expected envelope"),
    }
    assert!(out.broadcast.is_none());
    assert!(out.miner_start.is_none());
}

#[test]
fn unparsable_target_is_structured_failure() {
    let ledger = sample_ledger();
    let mut mp = sample_mempool();
    // an absolute target with a malformed host is refused by the url boundary
    let out = handle_request(&ledger, &mut mp, "GET", "http://[", None, true);
    match out.response.payload {
        Payload::Envelope { success, .. } => assert!(!success),
        _ => panic!("expected envelope"),
    }
    assert!(out.broadcast.is_none());
    assert!(out.miner_start.is_none());
}

#[test]
fn height_route_strips_query() {
    let ledger = sample_ledger();
    let mut mp = sample_mempool();
    // the query string must be split off the path by the url boundary
    let out = handle_request(&ledger, &mut mp, "GET", "/blockchain/height?x=1", None, true);
    match out.response.payload {
        Payload::Count(n) => assert_eq!(n, 2),
        _ => panic!("expected count"),
    }
}

#[test]
fn total_block_counts_forks() {
    let ledger = sample_ledger();
    let mut mp = sample_mempool();
    let out = handle_request(&ledger, &mut mp, "GET", "/blockchain/total_block", None, true);
    match out.response.payload {
        Payload::Count(n) => assert_eq!(n, 4),
        _ => panic!("expected count"),
    }
}

#[test]
fn longest_chain_in_order() {
    let ledger = sample_ledger();
    let mut mp = sample_mempool();
    let out = handle_request(&ledger, &mut mp, "GET", "/blockchain/longest-chain", None, true);
    match out.response.payload {
        Payload::HashList(v) => assert_eq!(v, vec![h(1), h(2), h(3)]),
        _ => panic!("expected hash list"),
    }
}

#[test]
fn longest_chain_tx_hashes_in_chain_order() {
    let ledger = sample_ledger();
    let mut mp = sample_mempool();
    let out = handle_request(&ledger, &mut mp, "GET", "/blockchain/longest-chain-tx", None, true);
    match out.response.payload {
        Payload::HashList(v) => assert_eq!(v, vec![h(100), h(101), h(102)]),
        _ => panic!("expected hash list"),
    }
}

#[test]
fn tx_count_equals_tx_hash_list_length() {
    let ledger = sample_ledger();
    let mut mp = sample_mempool();
    let hashes = match handle_request(&ledger, &mut mp, "GET", "/blockchain/longest-chain-tx", None, true)
        .response
        .payload
    {
        Payload::HashList(v) => v,
        _ => panic!("expected hash list"),
    };
    let count = match handle_request(
        &ledger,
        &mut mp,
        "GET",
        "/blockchain/longest-chain-tx-count",
        None,
        true,
    )
    .response
    .payload
    {
        Payload::Count(n) => n,
        _ => panic!("expected count"),
    };
    assert_eq!(count as usize, hashes.len());
    assert_eq!(count, 3);
}

#[test]
fn f_chain_short_list_unchanged() {
    let v = vec![h(1), h(2), h(3)];
    assert_eq!(confirmed_prefix(&v), v);
    let six: Vec<H256> = (1..=6).map(h).collect();
    assert_eq!(confirmed_prefix(&six), six);
}

#[test]
fn f_chain_drops_last_six() {
    let seven: Vec<H256> = (1..=7).map(h).collect();
    assert_eq!(confirmed_prefix(&seven), vec![h(1)]);
    let ten: Vec<H256> = (1..=10).map(h).collect();
    assert_eq!(confirmed_prefix(&ten), vec![h(1), h(2), h(3), h(4)]);
}

#[test]
fn f_chain_route_on_short_chain() {
    let ledger = sample_ledger();
    let mut mp = sample_mempool();
    let out = handle_request(&ledger, &mut mp, "GET", "/blockchain/f-chain", None, true);
    match out.response.payload {
        Payload::HashList(v) => assert_eq!(v, vec![h(1), h(2), h(3)]),
        _ => panic!("expected hash list"),
    }
}

#[test]
fn miner_start_needs_lambda() {
    let ledger = sample_ledger();
    let mut mp = sample_mempool();
    let out = handle_request(&ledger, &mut mp, "GET", "/miner/start", None, true);
    match out.response.payload {
        Payload::Envelope { success, .. } => assert!(!success),
        _ => panic!("expected envelope"),
    }
    assert!(out.miner_start.is_none());

    let out = handle_request(&ledger, &mut mp, "GET", "/miner/start?lambda=abc", None, true);
    match out.response.payload {
        Payload::Envelope { success, .. } => assert!(!success),
        _ => panic!("expected envelope"),
    }
    assert!(out.miner_start.is_none());

    let out = handle_request(&ledger, &mut mp, "GET", "/miner/start?lambda=250", None, true);
    match out.response.payload {
        Payload::Envelope { success, message } => {
            assert!(success);
            assert_eq!(message, "ok");
        }
        _ => panic!("expected envelope"),
    }
    assert_eq!(out.miner_start, Some(250));
}

#[test]
fn ping_broadcasts_once() {
    let ledger = sample_ledger();
    let mut mp = sample_mempool();
    let out = handle_request(&ledger, &mut mp, "GET", "/network/ping", None, true);
    match out.broadcast {
        Some(Message::Ping(s)) => assert_eq!(s, "Test ping"),
        _ => panic!("expected ping broadcast"),
    }
}

#[test]
fn utxo_listing_and_count() {
    let ledger = sample_ledger();
    let mut mp = sample_mempool();
    let out = handle_request(&ledger, &mut mp, "GET", "/utxo", None, true);
    match out.response.payload {
        Payload::UtxoList(v) => {
            assert_eq!(v.len(), 3);
            assert_eq!(v[0].0, UtxoKey { tx_hash: h(100), index: 0 });
            assert!(!v[0].1.used_in_mempool);
        }
        _ => panic!("expected utxo list"),
    }
    let out = handle_request(&ledger, &mut mp, "GET", "/utxo-count", None, true);
    match out.response.payload {
        Payload::Count(n) => assert_eq!(n, 3),
        _ => panic!("expected count"),
    }
}

fn spend_100(hash: H256) -> SignedTransaction {
    tx(
        hash,
        vec![UtxoKey { tx_hash: h(100), index: 0 }],
        vec![TxOutput { pk_hash: h(42), value: 10 }],
    )
}

#[test]
fn submit_requires_post() {
    let ledger = sample_ledger();
    let mut mp = sample_mempool();
    let out = handle_request(
        &ledger,
        &mut mp,
        "GET",
        "/mempool/submit_tx",
        Some(spend_100(h(200))),
        true,
    );
    match out.response.payload {
        Payload::Envelope { success, message } => {
            assert!(!success);
            assert_eq!(message, "not a post request");
        }
        _ => panic!("expected envelope"),
    }
    assert!(out.broadcast.is_none());
    assert_eq!(mp.pending_transactions().len(), 0);
}

#[test]
fn submit_rejects_malformed_body() {
    let ledger = sample_ledger();
    let mut mp = sample_mempool();
    let out = handle_request(&ledger, &mut mp, "POST", "/mempool/submit_tx", None, true);
    match out.response.payload {
        Payload::Envelope { success, .. } => assert!(!success),
        _ => panic!("expected envelope"),
    }
    assert!(out.broadcast.is_none());
}

#[test]
fn successful_submission_broadcasts_once_and_pools_once() {
    let ledger = sample_ledger();
    let mut mp = sample_mempool();
    let out = handle_request(
        &ledger,
        &mut mp,
        "POST",
        "/mempool/submit_tx",
        Some(spend_100(h(200))),
        true,
    );
    match out.response.payload {
        Payload::Envelope { success, message } => {
            assert!(success);
            assert_eq!(message, "ok");
        }
        _ => panic!("expected envelope"),
    }
    match out.broadcast {
        Some(Message::NewTransactionHashes(v)) => assert_eq!(v, vec![h(200)]),
        _ => panic!("expected one broadcast of the new hash"),
    }
    let pool = mp.pending_transactions();
    assert_eq!(pool.len(), 1);
    assert_eq!(pool[0].hash, h(200));
    // the spent key is claimed; the new output appears unclaimed
    let spent = mp
        .lookup_utxo(UtxoKey { tx_hash: h(100), index: 0 })
        .expect("spent key stays in the mapping");
    assert!(spent.used_in_mempool);
    let fresh = mp
        .lookup_utxo(UtxoKey { tx_hash: h(200), index: 0 })
        .expect("new output installed");
    assert!(!fresh.used_in_mempool);
    assert_eq!(fresh.output.value, 10);
}

#[test]
fn unknown_input_rejected_and_state_unchanged() {
    let mut mp = sample_mempool();
    let before_utxo = mp.utxo_entries();
    let t = tx(
        h(201),
        vec![UtxoKey { tx_hash: h(77), index: 9 }],
        vec![TxOutput { pk_hash: h(42), value: 1 }],
    );
    let r = mp.add_tx(t, true);
    assert_eq!(r, Err(SubmissionError::UnknownInput));
    assert_eq!(mp.pending_transactions().len(), 0);
    let after_utxo = mp.utxo_entries();
    assert_eq!(before_utxo.len(), after_utxo.len());
    for (a, b) in before_utxo.iter().zip(after_utxo.iter()) {
        assert_eq!(a, b);
    }
}

#[test]
fn conflicting_submissions_exactly_one_succeeds() {
    let mut mp = sample_mempool();
    let t1 = spend_100(h(200));
    let t2 = tx(
        h(201),
        vec![UtxoKey { tx_hash: h(100), index: 0 }],
        vec![TxOutput { pk_hash: h(43), value: 10 }],
    );
    assert_eq!(mp.add_tx(t1, true), Ok(()));
    assert_eq!(mp.add_tx(t2, true), Err(SubmissionError::DoubleSpendPending));
    // the key ends claimed, and only the first transaction's output exists
    let spent = mp.lookup_utxo(UtxoKey { tx_hash: h(100), index: 0 }).unwrap();
    assert!(spent.used_in_mempool);
    assert!(mp.lookup_utxo(UtxoKey { tx_hash: h(200), index: 0 }).is_some());
    assert!(mp.lookup_utxo(UtxoKey { tx_hash: h(201), index: 0 }).is_none());
    assert_eq!(mp.pending_transactions().len(), 1);
}

#[test]
fn conflicting_submissions_via_dispatcher() {
    let ledger = sample_ledger();
    let mut mp = sample_mempool();
    let t1 = spend_100(h(200));
    let t2 = tx(
        h(201),
        vec![UtxoKey { tx_hash: h(100), index: 0 }],
        vec![TxOutput { pk_hash: h(43), value: 10 }],
    );
    let first = handle_request(&ledger, &mut mp, "POST", "/mempool/submit_tx", Some(t1), true);
    let second = handle_request(&ledger, &mut mp, "POST", "/mempool/submit_tx", Some(t2), true);
    match first.response.payload {
        Payload::Envelope { success, .. } => assert!(success),
        _ => panic!("expected envelope"),
    }
    assert!(first.broadcast.is_some());
    match second.response.payload {
        Payload::Envelope { success, message } => {
            assert!(!success);
            assert_eq!(message, "double spend pending");
        }
        _ => panic!("expected envelope"),
    }
    assert!(second.broadcast.is_none());
    assert_eq!(mp.pending_transactions().len(), 1);
}

#[test]
fn duplicate_input_rejected_as_double_spend() {
    let mut mp = sample_mempool();
    let t = tx(
        h(202),
        vec![
            UtxoKey { tx_hash: h(100), index: 0 },
            UtxoKey { tx_hash: h(100), index: 0 },
        ],
        vec![],
    );
    assert_eq!(mp.add_tx(t, true), Err(SubmissionError::DoubleSpendPending));
    assert_eq!(mp.pending_transactions().len(), 0);
}

#[test]
fn bad_signature_rejected() {
    let mut mp = sample_mempool();
    let t = spend_100(h(203));
    assert_eq!(mp.add_tx(t, false), Err(SubmissionError::BadSignature));
    assert_eq!(mp.pending_transactions().len(), 0);
    let entry = mp.lookup_utxo(UtxoKey { tx_hash: h(100), index: 0 }).unwrap();
    assert!(!entry.used_in_mempool);
}

#[test]
fn query_by_pk_skips_claimed_entries() {
    let ledger = sample_ledger();
    let mut mp = sample_mempool();
    // claim (100, 0) by submitting a spend of it
    assert_eq!(mp.add_tx(spend_100(h(200)), true), Ok(()));
    let pkh = h(40).to_hex();
    let target = format!("/mempool/query_utxo_by_pk?pkh={}", pkh);
    let out = handle_request(&ledger, &mut mp, "GET", &target, None, true);
    match out.response.payload {
        Payload::SpendableList(v) => {
            // (100,0) is claimed now; only (101,0) belongs to h(40)
            assert_eq!(v.len(), 1);
            assert_eq!(v[0].0, UtxoKey { tx_hash: h(101), index: 0 });
            assert_eq!(v[0].1.value, 20);
            for (_, out) in &v {
                assert_eq!(out.pk_hash, h(40));
            }
        }
        _ => panic!("expected spendable list"),
    }
}

#[test]
fn query_by_pk_rejects_bad_parameter() {
    let ledger = sample_ledger();
    let mut mp = sample_mempool();
    let out = handle_request(&ledger, &mut mp, "GET", "/mempool/query_utxo_by_pk", None, true);
    match out.response.payload {
        Payload::Envelope { success, .. } => assert!(!success),
        _ => panic!("expected envelope"),
    }
    let out = handle_request(
        &ledger,
        &mut mp,
        "GET",
        "/mempool/query_utxo_by_pk?pkh=zz",
        None,
        true,
    );
    match out.response.payload {
        Payload::Envelope { success, .. } => assert!(!success),
        _ => panic!("expected envelope"),
    }
}

#[test]
fn mempool_tx_listing() {
    let ledger = sample_ledger();
    let mut mp = sample_mempool();
    assert_eq!(mp.add_tx(spend_100(h(200)), true), Ok(()));
    let out = handle_request(&ledger, &mut mp, "GET", "/mempool/txs", None, true);
    match out.response.payload {
        Payload::TxList(v) => {
            assert_eq!(v.len(), 1);
            assert_eq!(v[0].hash, h(200));
        }
        _ => panic!("expected tx list"),
    }
}

#[test]
fn generator_cycles_three_parties() {
    assert_eq!(TransactionGenerator::next_turn(0), 1);
    assert_eq!(TransactionGenerator::next_turn(1), 2);
    assert_eq!(TransactionGenerator::next_turn(2), 0);
}
