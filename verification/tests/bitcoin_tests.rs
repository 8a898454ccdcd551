use liquidium_test_backend::canister::CollateralScan;
use liquidium_test_backend::btc::{public_key_to_p2pkh_address, try_public_key_to_p2pkh_address, EdictData, RuneArtifact};
use liquidium_test_backend::rune_trx::{BtcAddress, RuneTransactionBuilder, RuneTransferParams};
use liquidium_test_backend::types::{RuneIdData, UtxoData};
use liquidium_test_backend::utils::{check_confirmation, check_rune_artifact, json_to_transaction, raw_transaction_from_response, raw_transaction_result, rune_total, runestone_of_hex, transaction_info_from_response, transaction_info_result, validate_rune_transaction, RpcReply, RpcTransaction};

const GENERATOR_KEY: &str = "0279be667ef9dcbbac55a06295ce870b07029bfcdb2dce28d959f2815b16f81798";
const GENERATOR_REGTEST_P2PKH: &str = "mrCDrCybB6J1vRfbwM5hemdJz73FwDBC8r";

fn regtest_address() -> BtcAddress {
    BtcAddress::from_regtest_str(GENERATOR_REGTEST_P2PKH).unwrap()
}

fn utxos(values: &[u64]) -> Vec<UtxoData> {
    values
        .iter()
        .enumerate()
        .map(|(i, v)| UtxoData { txid: vec![i as u8 + 1; 32], vout: i as u32, value: *v, height: 1 })
        .collect()
}

fn params(amount: u64, fee_rate: u64) -> RuneTransferParams {
    RuneTransferParams { amount, recipient_address: regtest_address(), fee_rate, rune_id: "840000:1".to_string() }
}

#[test]
fn p2pkh_address_of_generator_key() {
    let key = hex::decode(GENERATOR_KEY).unwrap();
    assert_eq!(public_key_to_p2pkh_address(&key), GENERATOR_REGTEST_P2PKH);
    assert_eq!(try_public_key_to_p2pkh_address(&key[..10]), None);
}

#[test]
fn addresses_must_be_regtest() {
    let a = regtest_address();
    assert_eq!(a.script_pubkey.len(), 25);
    assert!(BtcAddress::from_regtest_str("1BgGZ9tcN4rm9KBzDn7KprQz87SZ26SAMH").is_none());
    assert!(BtcAddress::from_regtest_str("not an address").is_none());
}

#[test]
fn estimate_tx_size_formula() {
    let b = RuneTransactionBuilder::new(bitcoin::Network::Regtest);
    assert_eq!(b.dust_limit, 546);
    assert_eq!(b.estimate_tx_size(0, 0), 10);
    assert_eq!(b.estimate_tx_size(2, 3), 10 + 2 * 148 + 3 * 34);
}

#[test]
fn plan_with_change_above_dust() {
    let b = RuneTransactionBuilder::new(bitcoin::Network::Regtest);
    let change = regtest_address();
    // fee = (10 + 148 + 3 * 34) * 2 = 520; change = 10_000 - 546 - 520 = 8934
    let outs = b.plan_transfer(&params(500, 2), &utxos(&[10_000]), &change).unwrap();
    assert_eq!(outs.len(), 3);
    assert_eq!(outs[0].value, 546);
    assert_eq!(outs[1].value, 0);
    assert_eq!(outs[1].script, change.script_pubkey);
    assert_eq!(outs[2].value, 8934);
}

#[test]
fn plan_without_change_at_dust() {
    let b = RuneTransactionBuilder::new(bitcoin::Network::Regtest);
    // fee = 260 * 1 = 260; change = 1352 - 546 - 260 = 546, not above the dust limit
    let outs = b.plan_transfer(&params(500, 1), &utxos(&[1352]), &regtest_address()).unwrap();
    assert_eq!(outs.len(), 2);
}

#[test]
fn plan_insufficient_funds() {
    let b = RuneTransactionBuilder::new(bitcoin::Network::Regtest);
    let r = b.plan_transfer(&params(500, 10), &utxos(&[600, 700]), &regtest_address());
    assert_eq!(r.err().unwrap(), "Insufficient funds for transfer");
}

#[test]
fn built_transfer_carries_the_rune_edict() {
    let b = RuneTransactionBuilder::new(bitcoin::Network::Regtest);
    let tx = b.build_unsigned_transfer(&params(500, 2), &utxos(&[4000, 6000]), &regtest_address()).unwrap();
    assert_eq!(tx.input.len(), 2);
    assert_eq!(tx.output.len(), 3);
    assert_eq!(tx.version, bitcoin::transaction::Version::TWO);
    assert_eq!(tx.input[1].previous_output.vout, 1);
    assert_eq!(tx.input[0].sequence, bitcoin::Sequence::MAX);
    assert_eq!(validate_rune_transaction(&tx, "840000:1", 500), Ok(500));
    assert_eq!(
        validate_rune_transaction(&tx, "840000:1", 400).unwrap_err(),
        "Invalid amount. Expected: 400, Found: 500"
    );
    assert_eq!(
        validate_rune_transaction(&tx, "840000:2", 500).unwrap_err(),
        "Expected rune ID not found in transaction"
    );
    assert_eq!(
        validate_rune_transaction(&tx, "840000", 500).unwrap_err(),
        "Invalid rune ID format. Expected 'block:tx'"
    );
    assert_eq!(validate_rune_transaction(&tx, "x:1", 500).unwrap_err(), "Invalid block number");
    assert_eq!(validate_rune_transaction(&tx, "1:x", 500).unwrap_err(), "Invalid transaction index");
}

#[test]
fn build_refuses_when_fee_not_covered() {
    let b = RuneTransactionBuilder::new(bitcoin::Network::Regtest);
    let r = b.build_unsigned_transfer(&params(500, 100), &utxos(&[1000]), &regtest_address());
    assert_eq!(r.unwrap_err(), "Insufficient funds for transfer");
}

#[test]
fn transaction_without_runestone() {
    let tx = bitcoin::Transaction {
        version: bitcoin::transaction::Version::TWO,
        lock_time: bitcoin::absolute::LockTime::ZERO,
        input: vec![],
        output: vec![],
    };
    assert_eq!(validate_rune_transaction(&tx, "1:1", 5).unwrap_err(), "No Runestone found in transaction");
}

#[test]
fn rune_artifact_checks() {
    let id = RuneIdData { block: 9, tx: 2 };
    let other = RuneIdData { block: 9, tx: 3 };
    let edicts = vec![
        EdictData { id, amount: 30, output: 0 },
        EdictData { id: other, amount: 1000, output: 0 },
        EdictData { id, amount: 12, output: 1 },
    ];
    assert_eq!(rune_total(&edicts, id), Some(42));
    assert_eq!(check_rune_artifact(&Some(RuneArtifact::Runestone(edicts)), id, 42), Ok(42));
    assert_eq!(check_rune_artifact(&None, id, 42).unwrap_err(), "No Runestone found in transaction");
    assert_eq!(
        check_rune_artifact(&Some(RuneArtifact::Cenotaph), id, 42).unwrap_err(),
        "Transaction contains a cenotaph"
    );
    let big = vec![EdictData { id, amount: u128::MAX, output: 0 }, EdictData { id, amount: 1, output: 0 }];
    assert_eq!(rune_total(&big, id), None);
}

#[test]
fn confirmation_checks() {
    let mk = |null: bool, c: Option<u64>| RpcTransaction { hex: None, blockhash_is_null: null, confirmations: c };
    assert_eq!(check_confirmation(&mk(true, Some(3))).unwrap_err(), "Transaction not yet included in a block");
    assert_eq!(check_confirmation(&mk(false, Some(3))), Ok(()));
    assert_eq!(check_confirmation(&mk(false, Some(0))).unwrap_err(), "Transaction is in mempool");
    assert_eq!(check_confirmation(&mk(false, None)).unwrap_err(), "Unable to get confirmation data");
}

#[test]
fn json_to_transaction_decodes_hex() {
    let b = RuneTransactionBuilder::new(bitcoin::Network::Regtest);
    let tx = b.build_unsigned_transfer(&params(500, 2), &utxos(&[10_000]), &regtest_address()).unwrap();
    let hex = bitcoin::consensus::encode::serialize_hex(&tx);
    let data = RpcTransaction { hex: Some(hex), blockhash_is_null: false, confirmations: Some(1) };
    assert_eq!(json_to_transaction(&data).unwrap(), tx);
    let none = RpcTransaction { hex: None, blockhash_is_null: false, confirmations: Some(1) };
    assert_eq!(json_to_transaction(&none).unwrap_err(), "No hex field found in transaction data");
    let odd = RpcTransaction { hex: Some("abc".to_string()), blockhash_is_null: false, confirmations: None };
    assert!(json_to_transaction(&odd).unwrap_err().starts_with("Failed to decode hex: "));
    let junk = RpcTransaction { hex: Some("0011".to_string()), blockhash_is_null: false, confirmations: None };
    assert!(json_to_transaction(&junk).unwrap_err().starts_with("Failed to deserialize transaction: "));
}

#[test]
fn rpc_reply_error_comes_first() {
    let r = raw_transaction_result(RpcReply { error: Some("Object {\"code\": Number(-5)}".to_string()), result: Some("00".to_string()) });
    assert_eq!(r, Err("RPC error: Object {\"code\": Number(-5)}".to_string()));
}

#[test]
fn rpc_reply_result_or_missing() {
    assert_eq!(raw_transaction_result(RpcReply { error: None, result: Some("0200".to_string()) }), Ok("0200".to_string()));
    assert_eq!(raw_transaction_result(RpcReply { error: None, result: None }), Err("No result in response".to_string()));
    let info = transaction_info_result(RpcReply { error: None, result: None });
    assert_eq!(info.err(), Some("No result field in response".to_string()));
    let info = transaction_info_result(RpcReply {
        error: None,
        result: Some(RpcTransaction { hex: None, blockhash_is_null: false, confirmations: Some(3) }),
    })
    .unwrap();
    assert_eq!(info.confirmations, Some(3));
    assert!(check_confirmation(&info).is_ok());
}

#[test]
fn collateral_scan_reads_a_transaction_from_hex() {
    let b = RuneTransactionBuilder::new(bitcoin::Network::Regtest);
    let tx = b.build_unsigned_transfer(&params(500, 2), &utxos(&[4000, 6000]), &regtest_address()).unwrap();
    let hex = bitcoin::consensus::encode::serialize_hex(&tx);
    let mut scan = CollateralScan::new();
    assert_eq!(scan.absorb_transaction("aa".to_string(), &hex, &"840000:1".to_string()), Ok(()));
    assert_eq!(scan.total_value, 500);
    assert!(scan.checked.contains("aa"));
    assert_eq!(scan.checked.len(), 1);
    assert_eq!(scan.absorb_transaction("bb".to_string(), &hex, &"840000:2".to_string()), Ok(()));
    assert_eq!(scan.total_value, 500);
    assert!(scan.checked.contains("aa") && scan.checked.contains("bb"));
    assert!(scan.absorb_transaction("cc".to_string(), "zz", &"840000:1".to_string()).is_err());
    assert_eq!(scan.checked.len(), 2);
    assert_eq!(scan.total_value, 500);
}

#[test]
fn unsigned_transfer_worked_example() {
    let b = RuneTransactionBuilder::new(bitcoin::Network::Regtest);
    let u = utxos(&[10_000]);
    let tx = b.build_unsigned_transfer(&params(1000, 1), &u, &regtest_address()).unwrap();
    assert_eq!(tx.version, bitcoin::transaction::Version::TWO);
    assert_eq!(tx.lock_time, bitcoin::absolute::LockTime::ZERO);
    assert_eq!(tx.input.len(), 1);
    assert_eq!(tx.input[0].previous_output.vout, 0);
    assert_eq!(tx.input[0].previous_output.txid, <bitcoin::Txid as bitcoin::hashes::Hash>::from_slice(&[1u8; 32]).unwrap());
    assert!(tx.input[0].script_sig.is_empty());
    assert!(tx.input[0].witness.is_empty());
    let values: Vec<u64> = tx.output.iter().map(|o| o.value.to_sat()).collect();
    assert_eq!(values, vec![546, 0, 9194]);
    assert_eq!(tx.output[1].script_pubkey.as_bytes(), regtest_address().script_pubkey.as_slice());
    assert_eq!(tx.output[2].script_pubkey.as_bytes(), regtest_address().script_pubkey.as_slice());
    assert!(tx.output[0].script_pubkey.is_op_return());
}

#[test]
fn raw_transaction_reply_errors_in_order() {
    assert_eq!(raw_transaction_from_response(404, b"{}"), Err("HTTP error: 404".to_string()));
    assert!(raw_transaction_from_response(200, &[0xff, 0xfe]).unwrap_err().starts_with("Invalid UTF-8: "));
    assert!(raw_transaction_from_response(200, b"not json").unwrap_err().starts_with("JSON parse error: "));
    assert!(raw_transaction_from_response(200, br#"{"result":null,"error":{"code":-5}}"#)
        .unwrap_err()
        .starts_with("RPC error: Object"));
    assert_eq!(raw_transaction_from_response(200, br#"{"result":7,"error":null}"#), Err("No result in response".to_string()));
    assert_eq!(raw_transaction_from_response(200, br#"{"result":"0200","error":null}"#), Ok("0200".to_string()));
}

#[test]
fn transaction_info_reply_errors_in_order() {
    assert_eq!(transaction_info_from_response(500, b"").unwrap_err(), "HTTP error: 500");
    assert!(transaction_info_from_response(200, &[0xc3]).unwrap_err().starts_with("Failed to parse response body: "));
    assert!(transaction_info_from_response(200, b"{").unwrap_err().starts_with("Failed to parse JSON: "));
    assert_eq!(transaction_info_from_response(200, br#"{"error":null}"#).unwrap_err(), "No result field in response");
    let info = transaction_info_from_response(
        200,
        br#"{"result":{"hex":"00","blockhash":"ab","confirmations":3},"error":null}"#,
    )
    .unwrap();
    assert_eq!(info.hex, Some("00".to_string()));
    assert!(!info.blockhash_is_null);
    assert_eq!(info.confirmations, Some(3));
    let pending = transaction_info_from_response(200, br#"{"result":{"hex":"00"}}"#).unwrap();
    assert!(pending.blockhash_is_null);
    assert_eq!(check_confirmation(&pending).unwrap_err(), "Transaction not yet included in a block");
}

#[test]
fn runestone_of_hex_finds_the_edict() {
    let b = RuneTransactionBuilder::new(bitcoin::Network::Regtest);
    let tx = b.build_unsigned_transfer(&params(500, 2), &utxos(&[4000, 6000]), &regtest_address()).unwrap();
    let hex = bitcoin::consensus::encode::serialize_hex(&tx);
    match runestone_of_hex(&hex).unwrap() {
        Some(RuneArtifact::Runestone(edicts)) => {
            assert_eq!(edicts.len(), 1);
            assert_eq!(edicts[0].id, RuneIdData { block: 840000, tx: 1 });
            assert_eq!(edicts[0].amount, 500);
            assert_eq!(edicts[0].output, 0);
        }
        other => panic!("unexpected {:?}", other),
    }
    assert!(runestone_of_hex("zz").is_err());
}

#[test]
fn http_status_grouped_in_threes() {
    assert_eq!(raw_transaction_from_response(1005, b"").unwrap_err(), "HTTP error: 1_005");
    assert_eq!(transaction_info_from_response(1234567, b"").unwrap_err(), "HTTP error: 1_234_567");
    assert_eq!(raw_transaction_from_response(999, b"").unwrap_err(), "HTTP error: 999");
}
