use liquidium_test_backend::codec::sha256_hex;
use liquidium_test_backend::decimal::{decimal_string, parse_u32, parse_u64};
use liquidium_test_backend::types::{parse_rune_id, OutpointData, RuneIdData, RuneIdError, UtxoData};

#[test]
fn decimal_strings() {
    assert_eq!(decimal_string(0), "0");
    assert_eq!(decimal_string(7), "7");
    assert_eq!(decimal_string(840000), "840000");
    assert_eq!(decimal_string(u128::MAX), u128::MAX.to_string());
}

#[test]
fn parse_u64_like_std() {
    for s in ["0", "42", "+42", "007", "18446744073709551615", "", "+", "-1", "1a", " 1", "18446744073709551616", "++1"] {
        assert_eq!(parse_u64(s), s.parse::<u64>().ok(), "input {:?}", s);
    }
}

#[test]
fn parse_u32_like_std() {
    for s in ["0", "4294967295", "4294967296", "+7", "x", "99999999999999999999999"] {
        assert_eq!(parse_u32(s), s.parse::<u32>().ok(), "input {:?}", s);
    }
}

#[test]
fn rune_id_to_string_and_back() {
    let id = RuneIdData { block: 840000, tx: 1 };
    assert_eq!(id.to_string(), "840000:1");
    assert_eq!(parse_rune_id("840000:1"), Ok(id));
    assert_eq!(parse_rune_id("+5:+6"), Ok(RuneIdData { block: 5, tx: 6 }));
    assert_eq!(parse_rune_id("840000"), Err(RuneIdError::Format));
    assert_eq!(parse_rune_id("1:2:3"), Err(RuneIdError::Format));
    assert_eq!(parse_rune_id("x:1"), Err(RuneIdError::Block));
    assert_eq!(parse_rune_id(":1"), Err(RuneIdError::Block));
    assert_eq!(parse_rune_id("1:4294967296"), Err(RuneIdError::Transaction));
    assert_eq!(parse_rune_id("1:"), Err(RuneIdError::Transaction));
}

#[test]
fn outpoint_from_utxo_writes_hex() {
    let utxo = UtxoData { txid: vec![0x00, 0xab, 0xff, 0x10], vout: 3, value: 5000, height: 77 };
    let o = OutpointData::from_utxo(&utxo);
    assert_eq!(o.txn_id, "00abff10");
    assert_eq!(o.index, 3);
    assert_eq!(o.amount, 5000);
    assert_eq!(o.height, 77);
}

#[test]
fn hash_of_encoding_is_sha256_hex() {
    assert_eq!(
        OutpointData::compute_hash_of_encoding(b"abc"),
        "ba7816bf8f01cfea414140de5dae2223b00361a396177a9cb410ff61f20015ad"
    );
    assert_eq!(
        sha256_hex(b""),
        "e3b0c44298fc1c149afbf4c8996fb92427ae41e4649b934ca495991b7852b855"
    );
}
