//! The request dispatcher: resolves a request target against the fixed
//! route table and runs the matching handler over the ledger and mempool
//! state, returning the response and the side effects the caller must
//! carry out (a broadcast, a miner start).

use vstd::prelude::*;
use crate::hash::{H256, h256_of_hex, is_hex64};
use crate::ledger::{Ledger, chain_to, chain_tx_count, chain_tx_hashes, confirmed_prefix,
    lemma_tx_count_matches_hashes};
use crate::mempool::{Mempool, SubmissionError, UtxoEntry, mark_spent, new_outputs, spendable_by,
    submit_outcome, outputs_fresh};
use crate::strutil::{all_dec, dec_val, get_param, lookup_param, parse_u64, str_eq};
use crate::tx::{SignedTransaction, TxOutput, UtxoKey, tx_same};
use crate::urlparse::{parse_target, url_target_ok, url_target_path, url_target_query};
use crate::CONFIRMATION_DEPTH;

verus! {

/// The fixed route table of the dispatcher.
#[derive(Clone, Copy, PartialEq, Eq, Structural, Debug)]
pub enum Route {
    MinerStart,
    TxGeneratorStart,
    NetworkPing,
    LongestChain,
    FChain,
    Height,
    TotalBlock,
    LongestChainTx,
    LongestChainTxCount,
    Utxo,
    MempoolTxs,
    UtxoCount,
    QueryUtxoByPk,
    SubmitTx,
    Unknown,
}

/// The route a path resolves to; any path outside the table is `Unknown`.
pub open spec fn spec_route_of(p: Seq<char>) -> Route {
    if p == "/miner/start"@ {
        Route::MinerStart
    } else if p == "/tx-generator/start"@ {
        Route::TxGeneratorStart
    } else if p == "/network/ping"@ {
        Route::NetworkPing
    } else if p == "/blockchain/longest-chain"@ {
        Route::LongestChain
    } else if p == "/blockchain/f-chain"@ {
        Route::FChain
    } else if p == "/blockchain/height"@ {
        Route::Height
    } else if p == "/blockchain/total_block"@ {
        Route::TotalBlock
    } else if p == "/blockchain/longest-chain-tx"@ {
        Route::LongestChainTx
    } else if p == "/blockchain/longest-chain-tx-count"@ {
        Route::LongestChainTxCount
    } else if p == "/utxo"@ {
        Route::Utxo
    } else if p == "/mempool/txs"@ {
        Route::MempoolTxs
    } else if p == "/utxo-count"@ {
        Route::UtxoCount
    } else if p == "/mempool/query_utxo_by_pk"@ {
        Route::QueryUtxoByPk
    } else if p == "/mempool/submit_tx"@ {
        Route::SubmitTx
    } else {
        Route::Unknown
    }
}

/// Resolves a path against the fixed route table.
pub fn route_of(path: &str) -> (r: Route)
    ensures
        r == spec_route_of(path@),
{
    if str_eq(path, "/miner/start") {
        Route::MinerStart
    } else if str_eq(path, "/tx-generator/start") {
        Route::TxGeneratorStart
    } else if str_eq(path, "/network/ping") {
        Route::NetworkPing
    } else if str_eq(path, "/blockchain/longest-chain") {
        Route::LongestChain
    } else if str_eq(path, "/blockchain/f-chain") {
        Route::FChain
    } else if str_eq(path, "/blockchain/height") {
        Route::Height
    } else if str_eq(path, "/blockchain/total_block") {
        Route::TotalBlock
    } else if str_eq(path, "/blockchain/longest-chain-tx") {
        Route::LongestChainTx
    } else if str_eq(path, "/blockchain/longest-chain-tx-count") {
        Route::LongestChainTxCount
    } else if str_eq(path, "/utxo") {
        Route::Utxo
    } else if str_eq(path, "/mempool/txs") {
        Route::MempoolTxs
    } else if str_eq(path, "/utxo-count") {
        Route::UtxoCount
    } else if str_eq(path, "/mempool/query_utxo_by_pk") {
        Route::QueryUtxoByPk
    } else if str_eq(path, "/mempool/submit_tx") {
        Route::SubmitTx
    } else {
        Route::Unknown
    }
}

/// A structured response payload; the caller encodes it on the wire.
pub enum Payload {
    /// The `{success, message}` envelope used for commands and errors.
    Envelope { success: bool, message: String },
    /// A list of identifiers (chain hashes, transaction hashes).
    HashList(Vec<H256>),
    /// A numeric result (height, block count, transaction count).
    Count(u64),
    /// The unspent-output mapping with each entry's claim flag.
    UtxoList(Vec<(UtxoKey, UtxoEntry)>),
    /// Spendable outputs of one recipient.
    SpendableList(Vec<(UtxoKey, TxOutput)>),
    /// The pooled transactions.
    TxList(Vec<SignedTransaction>),
}

/// A response: its status code and its payload.
pub struct ApiResponse {
    pub status: u16,
    pub payload: Payload,
}

/// An instruction to the network collaborator.
pub enum Message {
    Ping(String),
    NewTransactionHashes(Vec<H256>),
}

/// What one request produced: the response to send, at most one message
/// to broadcast, and at most one miner start.
pub struct HandleOutcome {
    pub response: ApiResponse,
    pub broadcast: Option<Message>,
    pub miner_start: Option<u64>,
}

/// The response text for a refused submission.
pub open spec fn submission_error_text(e: SubmissionError) -> Seq<char> {
    match e {
        SubmissionError::UnknownInput => "unknown input"@,
        SubmissionError::DoubleSpendPending => "double spend pending"@,
        SubmissionError::BadSignature => "bad signature"@,
    }
}

impl SubmissionError {
    /// The response text for this refusal.
    pub fn describe(&self) -> (r: String)
        ensures
            r@ == submission_error_text(*self),
    {
        match self {
            SubmissionError::UnknownInput => String::from_str("unknown input"),
            SubmissionError::DoubleSpendPending => String::from_str("double spend pending"),
            SubmissionError::BadSignature => String::from_str("bad signature"),
        }
    }
}

fn envelope(success: bool, message: String) -> (r: ApiResponse)
    ensures
        r.status == 200,
        r.payload == (Payload::Envelope { success, message }),
{
    ApiResponse { status: 200, payload: Payload::Envelope { success, message } }
}

fn no_effects(response: ApiResponse) -> (r: HandleOutcome)
    ensures
        r.response == response,
        r.broadcast is None,
        r.miner_start is None,
{
    HandleOutcome { response, broadcast: None, miner_start: None }
}

/// Dispatches one request. `method` and `target` come from the request
/// line; `body_tx` is the decoded request body, if there was one and it
/// decoded to a transaction; `sig_ok` is the signature-checking
/// collaborator's verdict on that transaction. The ledger and mempool are
/// the shared state, held under their locks for the span of this call.
///
/// The contract pins down, for every route of the table, the response
/// payload, the mempool after the call, and the side effects: a broadcast
/// happens exactly on a ping and on a successful submission (at most once
/// per request), and the mempool changes exactly when a submission
/// succeeds.
#[verifier::rlimit(80)]
pub fn handle_request(
    ledger: &Ledger,
    mempool: &mut Mempool,
    method: &str,
    target: &str,
    body_tx: Option<SignedTransaction>,
    sig_ok: bool,
) -> (out: HandleOutcome)
    requires
        ledger.wf(),
        old(mempool).wf(),
        body_tx matches Some(t) ==> outputs_fresh(old(mempool).utxo@, t) && t.outputs@.len()
            <= u32::MAX,
    ensures
        final(mempool).wf(),
        // the not-found status is reserved for a path outside the table
        out.response.status == 404 <==> (url_target_ok(target@) && spec_route_of(
            url_target_path(target@),
        ) == Route::Unknown),
        out.response.status == 200 || out.response.status == 404,
        // the mempool changes only by a successful submission
        (final(mempool).txs@ == old(mempool).txs@ && final(mempool).utxo@ == old(
            mempool,
        ).utxo@) || (url_target_ok(target@) && spec_route_of(url_target_path(target@))
            == Route::SubmitTx),
        // at most one broadcast, only from ping or submission
        out.broadcast is Some ==> url_target_ok(target@) && (spec_route_of(
            url_target_path(target@),
        ) == Route::NetworkPing || spec_route_of(url_target_path(target@)) == Route::SubmitTx),
        out.miner_start is Some ==> url_target_ok(target@) && spec_route_of(
            url_target_path(target@),
        ) == Route::MinerStart,
        // a target the url parser refuses
        !url_target_ok(target@) ==> (out.response.payload matches Payload::Envelope {
            success, ..
        } && !success) && out.broadcast is None && out.miner_start is None,
        url_target_ok(target@) ==> ({
            let rt = spec_route_of(url_target_path(target@));
            let q = url_target_query(target@);
            &&& rt == Route::MinerStart ==> (match lookup_param(q, "lambda"@) {
                Option::None => (out.response.payload matches Payload::Envelope { success, .. }
                    && !success) && out.miner_start is None,
                Option::Some(v) => if all_dec(v) && dec_val(v) <= u64::MAX {
                    (out.response.payload matches Payload::Envelope { success, message }
                        && success && message@ == "ok"@) && (out.miner_start matches Some(l)
                        && l == dec_val(v))
                } else {
                    (out.response.payload matches Payload::Envelope { success, .. } && !success)
                        && out.miner_start is None
                },
            })
            &&& rt == Route::TxGeneratorStart ==> (out.response.payload matches Payload::Envelope {
                success, ..
            } && !success)
            &&& rt == Route::NetworkPing ==> (out.response.payload matches Payload::Envelope {
                success, message
            } && success && message@ == "ok"@) && (out.broadcast matches Some(m) && m matches
                Message::Ping(s) && s@ == "Test ping"@)
            &&& rt == Route::LongestChain ==> (out.response.payload matches Payload::HashList(v)
                && v@ == chain_to(ledger.blocks@, ledger.tip)) && out.response.status == 200
            &&& rt == Route::FChain ==> (out.response.payload matches Payload::HashList(v) && ({
                let c = chain_to(ledger.blocks@, ledger.tip);
                if c.len() <= CONFIRMATION_DEPTH {
                    v@ == c
                } else {
                    v@ == c.take(c.len() - CONFIRMATION_DEPTH)
                }
            }))
            &&& rt == Route::Height ==> out.response.payload == Payload::Count(ledger.height)
            &&& rt == Route::TotalBlock ==> out.response.payload == Payload::Count(
                ledger.blocks@.len() as u64,
            )
            &&& rt == Route::LongestChainTx ==> (out.response.payload matches Payload::HashList(v)
                && v@ == chain_tx_hashes(ledger.blocks@, chain_to(ledger.blocks@, ledger.tip)))
            &&& rt == Route::LongestChainTxCount ==> (out.response.payload matches Payload::Count(n)
                && n == chain_tx_count(ledger.blocks@, chain_to(ledger.blocks@, ledger.tip)))
            &&& rt == Route::Utxo ==> (out.response.payload matches Payload::UtxoList(v) && v@
                == old(mempool).utxo@)
            &&& rt == Route::MempoolTxs ==> (out.response.payload matches Payload::TxList(v)
                && v@.len() == old(mempool).txs@.len() && (forall|i: int|
                0 <= i < v@.len() ==> tx_same(#[trigger] v@[i], old(mempool).txs@[i])))
            &&& rt == Route::UtxoCount ==> out.response.payload == Payload::Count(
                old(mempool).utxo@.len() as u64,
            )
            &&& rt == Route::QueryUtxoByPk ==> (match lookup_param(q, "pkh"@) {
                Option::None => (out.response.payload matches Payload::Envelope { success, .. }
                    && !success),
                Option::Some(v) => if is_hex64(v) {
                    out.response.payload matches Payload::SpendableList(w) && w@ == spendable_by(
                        old(mempool).utxo@,
                        h256_of_hex(v),
                    )
                } else {
                    out.response.payload matches Payload::Envelope { success, .. } && !success
                },
            })
            &&& rt == Route::SubmitTx ==> (if method@ != "POST"@ {
                (out.response.payload matches Payload::Envelope { success, .. } && !success)
                    && out.broadcast is None
            } else {
                match body_tx {
                    Option::None => (out.response.payload matches Payload::Envelope {
                        success, ..
                    } && !success) && out.broadcast is None,
                    Option::Some(t) => ({
                        let res = submit_outcome(old(mempool).utxo@, t, sig_ok);
                        &&& res is Ok ==> final(mempool).txs@ == old(mempool).txs@.push(t)
                            && final(mempool).utxo@ == mark_spent(old(mempool).utxo@, t)
                            + new_outputs(t) && (out.broadcast matches Some(m) && m matches
                            Message::NewTransactionHashes(v) && v@ == seq![t.hash]) && (
                        out.response.payload matches Payload::Envelope { success, message }
                            && success && message@ == "ok"@)
                        &&& res matches Err(e) ==> final(mempool).txs@ == old(mempool).txs@
                            && final(mempool).utxo@ == old(mempool).utxo@ && (
                        out.response.payload matches Payload::Envelope { success, message }
                            && !success && message@ == submission_error_text(e)) && out.broadcast
                            is None
                    }),
                }
            })
            &&& rt == Route::Unknown ==> out.response.status == 404 && (
            out.response.payload matches Payload::Envelope { success, message } && !success
                && message@ == "endpoint not found"@)
        }),
{
    let parts = match parse_target(target) {
        Some(p) => p,
        None => {
            return no_effects(envelope(false, String::from_str("error parsing url")));
        },
    };
    let route = route_of(parts.path.as_str());
    match route {
        Route::MinerStart => {
            let lambda_s = match get_param(&parts.query, "lambda") {
                Some(v) => v,
                None => {
                    return no_effects(envelope(false, String::from_str("missing lambda")));
                },
            };
            let lambda = match parse_u64(lambda_s.as_str()) {
                Some(v) => v,
                None => {
                    return no_effects(envelope(false, String::from_str("bad lambda")));
                },
            };
            HandleOutcome {
                response: envelope(true, String::from_str("ok")),
                broadcast: None,
                miner_start: Some(lambda),
            }
        },
        Route::TxGeneratorStart => no_effects(envelope(false, String::from_str("unimplemented"))),
        Route::NetworkPing => HandleOutcome {
            response: envelope(true, String::from_str("ok")),
            broadcast: Some(Message::Ping(String::from_str("Test ping"))),
            miner_start: None,
        },
        Route::LongestChain => {
            let v = ledger.all_blocks_in_longest_chain();
            no_effects(ApiResponse { status: 200, payload: Payload::HashList(v) })
        },
        Route::FChain => {
            let v = ledger.all_blocks_in_longest_chain();
            let w = confirmed_prefix(&v);
            no_effects(ApiResponse { status: 200, payload: Payload::HashList(w) })
        },
        Route::Height => {
            no_effects(
                ApiResponse { status: 200, payload: Payload::Count(ledger.ledger_height()) },
            )
        },
        Route::TotalBlock => {
            no_effects(
                ApiResponse { status: 200, payload: Payload::Count(ledger.block_count() as u64) },
            )
        },
        Route::LongestChainTx => {
            let v = ledger.longest_chain_tx_hashes();
            no_effects(ApiResponse { status: 200, payload: Payload::HashList(v) })
        },
        Route::LongestChainTxCount => {
            let v = ledger.longest_chain_tx_hashes();
            proof {
                lemma_tx_count_matches_hashes(
                    ledger.blocks@,
                    chain_to(ledger.blocks@, ledger.tip),
                );
            }
            no_effects(
                ApiResponse { status: 200, payload: Payload::Count(v.len() as u64) },
            )
        },
        Route::Utxo => {
            let v = mempool.utxo_entries();
            no_effects(ApiResponse { status: 200, payload: Payload::UtxoList(v) })
        },
        Route::MempoolTxs => {
            let v = mempool.pending_transactions();
            no_effects(ApiResponse { status: 200, payload: Payload::TxList(v) })
        },
        Route::UtxoCount => {
            no_effects(
                ApiResponse { status: 200, payload: Payload::Count(mempool.utxo_count() as u64) },
            )
        },
        Route::QueryUtxoByPk => {
            let pkh_s = match get_param(&parts.query, "pkh") {
                Some(v) => v,
                None => {
                    return no_effects(envelope(false, String::from_str("missing pkh")));
                },
            };
            let pkh = match H256::from_hex(pkh_s.as_str()) {
                Some(h) => h,
                None => {
                    return no_effects(envelope(false, String::from_str("bad pkh")));
                },
            };
            let w = mempool.query_utxo_by_pk(pkh);
            no_effects(ApiResponse { status: 200, payload: Payload::SpendableList(w) })
        },
        Route::SubmitTx => {
            if !str_eq(method, "POST") {
                return no_effects(envelope(false, String::from_str("not a post request")));
            }
            let t = match body_tx {
                Some(t) => t,
                None => {
                    return no_effects(envelope(false, String::from_str("bad request body")));
                },
            };
            let tx_hash = t.get_tx_hash();
            match mempool.add_tx(t, sig_ok) {
                Ok(()) => {
                    let mut hashes: Vec<H256> = Vec::new();
                    hashes.push(tx_hash);
                    proof {
                        assert(hashes@ =~= seq![tx_hash]);
                    }
                    HandleOutcome {
                        response: envelope(true, String::from_str("ok")),
                        broadcast: Some(Message::NewTransactionHashes(hashes)),
                        miner_start: None,
                    }
                },
                Err(e) => no_effects(envelope(false, e.describe())),
            }
        },
        Route::Unknown => {
            no_effects(
                ApiResponse {
                    status: 404,
                    payload: Payload::Envelope {
                        success: false,
                        message: String::from_str("endpoint not found"),
                    },
                },
            )
        },
    }
}

} // verus!
