use vstd::prelude::*;
use crate::btc::{decipher_runestone, decodes_as_transaction, deserialize_transaction, deserialize_transaction_hex, hex_decodes_as_transaction, hex_transaction, runestone_of, transaction_from_bytes, EdictData, RuneArtifact};
use crate::codec::{hex_bytes, hex_decode, is_hex_text};
use crate::decimal::{decimal, grouped_decimal, push_decimal, push_grouped_decimal};
use crate::types::{parse_rune_id, parse_rune_id_spec, RuneIdData, RuneIdError};

verus! {

/// The fields of a bitcoin node's verbose `getrawtransaction` reply that the canister
/// reads: the `hex` text, whether `blockhash` is null or missing, and `confirmations`
/// where it is an unsigned integer.
#[derive(Debug)]
pub struct RpcTransaction {
    pub hex: Option<String>,
    pub blockhash_is_null: bool,
    pub confirmations: Option<u64>,
}

/// The total that the edicts of `edicts` send of the rune `id`.
pub open spec fn edict_total(edicts: Seq<EdictData>, id: RuneIdData) -> nat
    decreases edicts.len(),
{
    if edicts.len() == 0 {
        0
    } else {
        edict_total(edicts.drop_last(), id) + if edicts.last().id == id {
            edicts.last().amount as nat
        } else {
            0
        }
    }
}

/// Sums what the edicts send of the rune `id`, or `None` where the sum exceeds `u128`.
pub fn rune_total(edicts: &Vec<EdictData>, id: RuneIdData) -> (t: Option<u128>)
    ensures
        t matches Some(v) ==> v as nat == edict_total(edicts@, id),
        t is None ==> edict_total(edicts@, id) > u128::MAX,
{
    let mut total: u128 = 0;
    let mut i: usize = 0;
    while i < edicts.len()
        invariant
            i <= edicts@.len(),
            total as nat == edict_total(edicts@.take(i as int), id),
        decreases edicts@.len() - i,
    {
        let ghost pre = edicts@.take(i as int);
        assert(edicts@.take(i + 1).drop_last() =~= pre);
        let e = &edicts[i];
        if e.id == id {
            match total.checked_add(e.amount) {
                Some(v) => {
                    total = v;
                },
                None => {
                    proof {
                        lemma_edict_total_prefix(edicts@, id, i + 1);
                    }
                    return None;
                },
            }
        }
        i = i + 1;
    }
    assert(edicts@.take(i as int) =~= edicts@);
    Some(total)
}

proof fn lemma_edict_total_prefix(s: Seq<EdictData>, id: RuneIdData, j: int)
    requires
        0 <= j <= s.len(),
    ensures
        edict_total(s.take(j), id) <= edict_total(s, id),
    decreases s.len() - j,
{
    if j < s.len() {
        lemma_edict_total_prefix(s, id, j + 1);
        assert(s.take(j + 1).drop_last() =~= s.take(j));
    } else {
        assert(s.take(j) =~= s);
    }
}

/// What checking a deciphered runestone for `expected_amount` of the rune `id` decides:
/// the amount, or the message of the refusal. The edicts of the rune are added up; a sum
/// beyond `u128` is refused.
pub open spec fn artifact_outcome(artifact: Option<RuneArtifact>, id: RuneIdData, expected_amount: u128) -> Result<u128, Seq<char>> {
    match artifact {
        None => Err("No Runestone found in transaction"@),
        Some(RuneArtifact::Cenotaph) => Err("Transaction contains a cenotaph"@),
        Some(RuneArtifact::Runestone(e)) => {
            let t = edict_total(e@, id);
            if t > u128::MAX {
                Err("Rune amount overflow"@)
            } else if t == 0 {
                Err("Expected rune ID not found in transaction"@)
            } else if t != expected_amount {
                Err("Invalid amount. Expected: "@ + decimal(expected_amount as nat) + ", Found: "@
                    + decimal(t))
            } else {
                Ok(expected_amount)
            }
        },
    }
}

/// A runestone check succeeds only on a runestone whose edicts of the rune send exactly
/// the expected amount, a positive one, and then gives that amount; a runestone whose
/// edicts of the rune send any other total is refused.
pub proof fn law_rune_check_needs_exact_amount(artifact: Option<RuneArtifact>, id: RuneIdData, expected_amount: u128)
    ensures
        artifact_outcome(artifact, id, expected_amount) matches Ok(v) ==> (artifact matches Some(
            RuneArtifact::Runestone(e),
        ) && edict_total(e@, id) == v && v == expected_amount && v > 0),
        artifact matches Some(RuneArtifact::Runestone(e)) ==> (artifact_outcome(
            artifact,
            id,
            expected_amount,
        ) is Ok <==> edict_total(e@, id) == expected_amount && expected_amount > 0),
{
}

/// `r` is the outcome `o`, its message given as text.
pub open spec fn is_outcome(r: Result<u128, String>, o: Result<u128, Seq<char>>) -> bool {
    match o {
        Ok(v) => r == Ok::<u128, String>(v),
        Err(m) => r matches Err(e) && e@ == m,
    }
}

/// Decides whether a deciphered runestone sends exactly `expected_amount`, a positive
/// amount, of the rune `id`, adding up all its edicts of that rune.
pub fn check_rune_artifact(artifact: &Option<RuneArtifact>, id: RuneIdData, expected_amount: u128) -> (r: Result<u128, String>)
    ensures
        is_outcome(r, artifact_outcome(*artifact, id, expected_amount)),
{
    match artifact {
        None => Err("No Runestone found in transaction".to_string()),
        Some(RuneArtifact::Cenotaph) => Err("Transaction contains a cenotaph".to_string()),
        Some(RuneArtifact::Runestone(edicts)) => {
            let total = match rune_total(edicts, id) {
                Some(t) => t,
                None => {
                    return Err("Rune amount overflow".to_string());
                },
            };
            if total == 0 {
                return Err("Expected rune ID not found in transaction".to_string());
            }
            if total != expected_amount {
                let mut m = "Invalid amount. Expected: ".to_string();
                push_decimal(&mut m, expected_amount);
                m.append(", Found: ");
                push_decimal(&mut m, total);
                return Err(m);
            }
            Ok(total)
        },
    }
}

/// The message for a refused rune id.
pub open spec fn rune_id_error_message(e: RuneIdError) -> Seq<char> {
    match e {
        RuneIdError::Format => "Invalid rune ID format. Expected 'block:tx'"@,
        RuneIdError::Block => "Invalid block number"@,
        RuneIdError::Transaction => "Invalid transaction index"@,
    }
}

/// Checks that `transaction` carries a runestone sending exactly `expected_amount`, a
/// positive amount, of the rune `rune_id` (written `block:tx`). The rune id is read first;
/// then the transaction's runestone is judged as `check_rune_artifact` does.
pub fn validate_rune_transaction(transaction: &bitcoin::Transaction, rune_id: &str, expected_amount: u128) -> (r: Result<u128, String>)
    ensures
        parse_rune_id_spec(rune_id@) matches Err(e) ==> (r matches Err(m) && m@
            == rune_id_error_message(e)),
        parse_rune_id_spec(rune_id@) matches Ok(id) ==> is_outcome(
            r,
            artifact_outcome(runestone_of(*transaction), id, expected_amount),
        ),
{
    let expected_id = match parse_rune_id(rune_id) {
        Ok(id) => id,
        Err(RuneIdError::Format) => {
            return Err("Invalid rune ID format. Expected 'block:tx'".to_string());
        },
        Err(RuneIdError::Block) => {
            return Err("Invalid block number".to_string());
        },
        Err(RuneIdError::Transaction) => {
            return Err("Invalid transaction index".to_string());
        },
    };
    let artifact = decipher_runestone(transaction);
    check_rune_artifact(&artifact, expected_id, expected_amount)
}

/// Whether a node's reply shows the transaction confirmed: `Ok` when it is in a block
/// with at least one confirmation.
pub fn check_confirmation(tx_data: &RpcTransaction) -> (r: Result<(), String>)
    ensures
        tx_data.blockhash_is_null ==> (r matches Err(m) && m@
            == "Transaction not yet included in a block"@),
        !tx_data.blockhash_is_null ==> match tx_data.confirmations {
            Some(c) => if c > 0 {
                r is Ok
            } else {
                r matches Err(m) && m@ == "Transaction is in mempool"@
            },
            None => r matches Err(m) && m@ == "Unable to get confirmation data"@,
        },
{
    if tx_data.blockhash_is_null {
        return Err("Transaction not yet included in a block".to_string());
    }
    match tx_data.confirmations {
        Some(confirms) => {
            if confirms > 0 {
                Ok(())
            } else {
                Err("Transaction is in mempool".to_string())
            }
        },
        None => Err("Unable to get confirmation data".to_string()),
    }
}

/// Decodes the transaction that a node's reply holds as hex. It succeeds exactly when the
/// `hex` field is present, is hexadecimal text, and its bytes decode as a transaction,
/// and then gives that transaction.
pub fn json_to_transaction(tx_data: &RpcTransaction) -> (r: Result<bitcoin::Transaction, String>)
    ensures
        tx_data.hex is None ==> (r matches Err(m) && m@ == "No hex field found in transaction data"@),
        tx_data.hex matches Some(h) ==> {
            &&& !is_hex_text(h@) ==> (r matches Err(m) && "Failed to decode hex: "@.is_prefix_of(m@))
            &&& is_hex_text(h@) ==> (r is Ok <==> decodes_as_transaction(hex_bytes(h@)))
            &&& (is_hex_text(h@) && !decodes_as_transaction(hex_bytes(h@))) ==> (r matches Err(m)
                && "Failed to deserialize transaction: "@.is_prefix_of(m@))
            &&& (is_hex_text(h@) && decodes_as_transaction(hex_bytes(h@))) ==> (r matches Ok(t)
                && t == transaction_from_bytes(hex_bytes(h@)))
        },
{
    let hex = match &tx_data.hex {
        Some(h) => h,
        None => {
            return Err("No hex field found in transaction data".to_string());
        },
    };
    let tx_bytes = match hex_decode(hex.as_str()) {
        Ok(b) => b,
        Err(e) => {
            let mut m = "Failed to decode hex: ".to_string();
            m.append(e.as_str());
            return Err(m);
        },
    };
    match deserialize_transaction(tx_bytes.as_slice()) {
        Ok(t) => Ok(t),
        Err(e) => {
            let mut m = "Failed to deserialize transaction: ".to_string();
            m.append(e.as_str());
            Err(m)
        },
    }
}

/// A bitcoin node's JSON-RPC reply, as far as the canister reads it: the text of its
/// `error` member where that is present and not null, and its `result` member where that
/// is present and of the kind asked for.
pub struct RpcReply<R> {
    pub error: Option<String>,
    pub result: Option<R>,
}

/// What a reply answers: the error it reports comes first, then a missing result.
fn reply_result<R>(reply: RpcReply<R>, missing: &str) -> (r: Result<R, String>)
    ensures
        reply.error matches Some(e) ==> (r matches Err(m) && m@ == "RPC error: "@ + e@),
        reply.error is None ==> match reply.result {
            Some(v) => r matches Ok(x) && x == v,
            None => r matches Err(m) && m@ == missing@,
        },
{
    match reply.error {
        Some(e) => {
            let mut m = "RPC error: ".to_string();
            m.append(e.as_str());
            Err(m)
        },
        None => match reply.result {
            Some(v) => Ok(v),
            None => Err(missing.to_string()),
        },
    }
}

/// The hex text of a raw transaction that a `getrawtransaction` reply holds, or the
/// error that the reply reports.
pub fn raw_transaction_result(reply: RpcReply<String>) -> (r: Result<String, String>)
    ensures
        reply.error matches Some(e) ==> (r matches Err(m) && m@ == "RPC error: "@ + e@),
        reply.error is None ==> match reply.result {
            Some(v) => r matches Ok(x) && x@ == v@,
            None => r matches Err(m) && m@ == "No result in response"@,
        },
{
    reply_result(reply, "No result in response")
}

/// The transaction description that a verbose `getrawtransaction` reply holds, or the
/// error that the reply reports.
pub fn transaction_info_result(reply: RpcReply<RpcTransaction>) -> (r: Result<RpcTransaction, String>)
    ensures
        reply.error matches Some(e) ==> (r matches Err(m) && m@ == "RPC error: "@ + e@),
        reply.error is None ==> match reply.result {
            Some(v) => r matches Ok(x) && x == v,
            None => r matches Err(m) && m@ == "No result field in response"@,
        },
{
    reply_result(reply, "No result field in response")
}

/// Whether the bytes are UTF-8 text.
pub uninterp spec fn utf8_valid(bytes: Seq<u8>) -> bool;

/// The characters that UTF-8 bytes encode.
pub uninterp spec fn utf8_text(bytes: Seq<u8>) -> Seq<char>;

/// Whether the text is one JSON value, as `serde_json::from_str` reads it.
pub uninterp spec fn json_parses(text: Seq<char>) -> bool;

/// What the canister reads of the JSON value in the text: see [`RpcJson`].
pub uninterp spec fn rpc_json_of(text: Seq<char>) -> RpcJson;

/// What the canister reads of a bitcoin node's JSON-RPC reply.
#[derive(Debug)]
pub struct RpcJson {
    /// The `error` member, written with `{:?}`, where it is present.
    pub error: Option<String>,
    /// Whether the `error` member is null or missing.
    pub error_is_null: bool,
    /// The `result` member where it is a string.
    pub result_text: Option<String>,
    /// The fields of the `result` member that a verbose description has, where the member
    /// is present.
    pub result: Option<RpcTransaction>,
}

/// Calls `String::from_utf8`; its error is given as its text (not stated here).
#[verifier::external_body]
fn utf8_string(bytes: &[u8]) -> (r: Result<String, String>)
    ensures
        r is Ok <==> utf8_valid(bytes@),
        r matches Ok(t) ==> t@ == utf8_text(bytes@),
{
    String::from_utf8(bytes.to_vec()).map_err(|e| e.to_string())
}

/// Calls `serde_json::from_str::<Value>` and reads the members `error` and `result` of
/// the value, and `hex`, `blockhash` and `confirmations` of `result`, with serde_json's
/// accessors; its error is given as its text (not stated here).
#[verifier::external_body]
fn parse_rpc_json(text: &str) -> (r: Result<RpcJson, String>)
    ensures
        r is Ok <==> json_parses(text@),
        r matches Ok(j) ==> j == rpc_json_of(text@),
{
    serde_json::from_str::<serde_json::Value>(text).map(|j| RpcJson {
        error: j.get("error").map(|e| format!("{:?}", e)),
        error_is_null: j["error"].is_null(),
        result_text: j.get("result").and_then(|v| v.as_str()).map(|t| t.to_string()),
        result: j.get("result").map(|v| RpcTransaction {
            hex: v["hex"].as_str().map(|t| t.to_string()),
            blockhash_is_null: v["blockhash"].is_null(),
            confirmations: v["confirmations"].as_u64(),
        }),
    }).map_err(|e| e.to_string())
}

/// The error that a reply reports: its `error` member where that is present and not null.
pub open spec fn rpc_error_text(j: RpcJson) -> Option<Seq<char>> {
    match j.error {
        Some(e) => if j.error_is_null {
            None
        } else {
            Some(e@)
        },
        None => None,
    }
}

/// The text of a reply's `error` member where that is present and not null.
fn reply_error(j: &RpcJson) -> (e: Option<String>)
    ensures
        match rpc_error_text(*j) {
            Some(t) => e matches Some(x) && x@ == t,
            None => e is None,
        },
{
    match &j.error {
        Some(e) => if j.error_is_null {
            None
        } else {
            Some(e.clone())
        },
        None => None,
    }
}

/// "HTTP error: " and the status in decimal, its digits grouped in threes by `_`.
fn http_error(status: u64) -> (m: String)
    ensures
        m@ == "HTTP error: "@ + grouped_decimal(status as nat),
{
    let mut m = "HTTP error: ".to_string();
    push_grouped_decimal(&mut m, status as u128);
    m
}

/// `prefix` followed by `detail`.
fn prefixed(prefix: &str, detail: String) -> (m: String)
    ensures
        m@ == prefix@ + detail@,
{
    let mut m = prefix.to_string();
    m.append(detail.as_str());
    m
}

/// The hex text of a raw transaction that a node's HTTP reply to `getrawtransaction`
/// holds: a status other than 200 is refused, then a body that is not UTF-8, then one
/// that is not JSON, then the error that the reply reports, then a missing string result.
pub fn raw_transaction_from_response(status: u64, body: &[u8]) -> (r: Result<String, String>)
    ensures
        status != 200 ==> (r matches Err(m) && m@ == "HTTP error: "@ + grouped_decimal(status as nat)),
        status == 200 && !utf8_valid(body@) ==> (r matches Err(m) && "Invalid UTF-8: "@.is_prefix_of(
            m@,
        )),
        status == 200 && utf8_valid(body@) && !json_parses(utf8_text(body@)) ==> (r matches Err(m)
            && "JSON parse error: "@.is_prefix_of(m@)),
        status == 200 && utf8_valid(body@) && json_parses(utf8_text(body@)) ==> {
            let j = rpc_json_of(utf8_text(body@));
            match rpc_error_text(j) {
                Some(e) => r matches Err(m) && m@ == "RPC error: "@ + e,
                None => match j.result_text {
                    Some(t) => r matches Ok(x) && x@ == t@,
                    None => r matches Err(m) && m@ == "No result in response"@,
                },
            }
        },
{
    if status != 200 {
        return Err(http_error(status));
    }
    let text = match utf8_string(body) {
        Ok(t) => t,
        Err(e) => {
            return Err(prefixed("Invalid UTF-8: ", e));
        },
    };
    let j = match parse_rpc_json(text.as_str()) {
        Ok(j) => j,
        Err(e) => {
            return Err(prefixed("JSON parse error: ", e));
        },
    };
    let error = reply_error(&j);
    raw_transaction_result(RpcReply { error, result: j.result_text })
}

/// The verbose description of a transaction that a node's HTTP reply to a verbose
/// `getrawtransaction` holds: a status other than 200 is refused, then a body that is
/// not UTF-8, then one that is not JSON, then the error that the reply reports, then a
/// missing result.
pub fn transaction_info_from_response(status: u64, body: &[u8]) -> (r: Result<RpcTransaction, String>)
    ensures
        status != 200 ==> (r matches Err(m) && m@ == "HTTP error: "@ + grouped_decimal(status as nat)),
        status == 200 && !utf8_valid(body@) ==> (r matches Err(m)
            && "Failed to parse response body: "@.is_prefix_of(m@)),
        status == 200 && utf8_valid(body@) && !json_parses(utf8_text(body@)) ==> (r matches Err(m)
            && "Failed to parse JSON: "@.is_prefix_of(m@)),
        status == 200 && utf8_valid(body@) && json_parses(utf8_text(body@)) ==> {
            let j = rpc_json_of(utf8_text(body@));
            match rpc_error_text(j) {
                Some(e) => r matches Err(m) && m@ == "RPC error: "@ + e,
                None => match j.result {
                    Some(t) => r matches Ok(x) && x == t,
                    None => r matches Err(m) && m@ == "No result field in response"@,
                },
            }
        },
{
    if status != 200 {
        return Err(http_error(status));
    }
    let text = match utf8_string(body) {
        Ok(t) => t,
        Err(e) => {
            return Err(prefixed("Failed to parse response body: ", e));
        },
    };
    let j = match parse_rpc_json(text.as_str()) {
        Ok(j) => j,
        Err(e) => {
            return Err(prefixed("Failed to parse JSON: ", e));
        },
    };
    let error = reply_error(&j);
    transaction_info_result(RpcReply { error, result: j.result })
}

/// What deciphering the runestone of the transaction encoded in hex text finds; text
/// that does not decode is refused with the decoder's message (not stated here).
pub fn runestone_of_hex(trx_hex: &str) -> (r: Result<Option<RuneArtifact>, String>)
    ensures
        r is Ok <==> hex_decodes_as_transaction(trx_hex@),
        r matches Ok(a) ==> a == runestone_of(hex_transaction(trx_hex@)),
{
    match deserialize_transaction_hex(trx_hex) {
        Ok(t) => Ok(decipher_runestone(&t)),
        Err(e) => Err(e),
    }
}

} // verus!
