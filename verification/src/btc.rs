use vstd::prelude::*;
use crate::types::RuneIdData;

verus! {

#[verifier::external_type_specification]
#[verifier::external_body]
pub struct ExTransaction(bitcoin::Transaction);

#[verifier::external_type_specification]
#[verifier::external_body]
pub struct ExTxIn(bitcoin::TxIn);

#[verifier::external_type_specification]
#[verifier::external_body]
pub struct ExTxOut(bitcoin::TxOut);

/// Whether the bytes are one complete consensus encoding of a bitcoin transaction.
pub uninterp spec fn decodes_as_transaction(bytes: Seq<u8>) -> bool;

/// The transaction that consensus decoding reads from the bytes.
pub uninterp spec fn transaction_from_bytes(bytes: Seq<u8>) -> bitcoin::Transaction;

/// The transaction that consensus decoding reads from hexadecimal text.
pub uninterp spec fn hex_transaction(text: Seq<char>) -> bitcoin::Transaction;

/// What deciphering the runestone of a transaction finds.
pub uninterp spec fn runestone_of(transaction: bitcoin::Transaction) -> Option<RuneArtifact>;

/// The input spending output `vout` of the transaction `txid`, with an empty script, an
/// empty witness and the sequence number `sequence`.
pub uninterp spec fn tx_input(txid: Seq<u8>, vout: u32, sequence: u32) -> bitcoin::TxIn;

/// The output of `value` satoshis paying to `script`.
pub uninterp spec fn tx_output(value: u64, script: Seq<u8>) -> bitcoin::TxOut;

/// The transaction of the given version, lock time, inputs and outputs.
pub uninterp spec fn transaction_of(
    version: i32,
    lock_time: u32,
    input: Seq<bitcoin::TxIn>,
    output: Seq<bitcoin::TxOut>,
) -> bitcoin::Transaction;

/// Whether the text is hexadecimal for one complete consensus encoding of a bitcoin
/// transaction, as `bitcoin::consensus::encode::deserialize_hex` reads it.
pub uninterp spec fn hex_decodes_as_transaction(text: Seq<char>) -> bool;

/// The regtest P2PKH address, as text, of a serialized public key, or `None` where the
/// bytes are not a public key.
pub uninterp spec fn p2pkh_regtest_address(public_key: Seq<u8>) -> Option<Seq<char>>;

/// The output script that a regtest address given as text pays to, or `None` where the
/// text is not an address valid on regtest.
pub uninterp spec fn regtest_address_script(address: Seq<char>) -> Option<Seq<u8>>;

/// The `OP_RETURN` script of a runestone holding one edict and nothing else.
pub uninterp spec fn single_edict_runestone_script(
    block: u64,
    tx: u32,
    amount: u128,
    output: u32,
) -> Seq<u8>;

/// An edict of a runestone: an amount of a rune sent to an output.
#[derive(Debug)]
pub struct EdictData {
    pub id: RuneIdData,
    pub amount: u128,
    pub output: u32,
}

/// What deciphering a transaction's runestone found.
#[derive(Debug)]
pub enum RuneArtifact {
    /// A malformed runestone.
    Cenotaph,
    /// A runestone, with its edicts in order.
    Runestone(Vec<EdictData>),
}

/// An output of a transaction to build: its value in satoshis and its script.
#[derive(Debug)]
pub struct PlannedOutput {
    pub value: u64,
    pub script: Vec<u8>,
}

/// Calls `bitcoin::consensus::deserialize::<Transaction>`, which succeeds exactly when
/// the bytes decode to a transaction with nothing left over, and then gives that
/// transaction; the error is given as its text (not stated here).
#[verifier::external_body]
pub(crate) fn deserialize_transaction(bytes: &[u8]) -> (r: Result<bitcoin::Transaction, String>)
    ensures
        r is Ok <==> decodes_as_transaction(bytes@),
        r matches Ok(t) ==> t == transaction_from_bytes(bytes@),
{
    bitcoin::consensus::deserialize::<bitcoin::Transaction>(bytes).map_err(|e| e.to_string())
}

/// Calls `bitcoin::consensus::encode::deserialize_hex::<Transaction>`, which reads the
/// text two hexadecimal digits per byte and decodes a transaction from the bytes; the
/// error is given as its text (not stated here).
#[verifier::external_body]
pub(crate) fn deserialize_transaction_hex(text: &str) -> (r: Result<bitcoin::Transaction, String>)
    ensures
        r is Ok <==> hex_decodes_as_transaction(text@),
        r matches Ok(t) ==> t == hex_transaction(text@),
{
    bitcoin::consensus::encode::deserialize_hex::<bitcoin::Transaction>(text).map_err(|e| e.to_string())
}

/// Calls `ordinals::Runestone::decipher` and hands out the edicts of a runestone, in
/// order; what it finds depends on the transaction alone.
#[verifier::external_body]
pub(crate) fn decipher_runestone(transaction: &bitcoin::Transaction) -> (r: Option<RuneArtifact>)
    ensures
        r == runestone_of(*transaction),
{
    match ordinals::Runestone::decipher(transaction) {
        None => None,
        Some(ordinals::Artifact::Cenotaph(_)) => Some(RuneArtifact::Cenotaph),
        Some(ordinals::Artifact::Runestone(r)) => Some(RuneArtifact::Runestone(r.edicts.iter().map(|e| EdictData { id: RuneIdData { block: e.id.block, tx: e.id.tx }, amount: e.amount, output: e.output }).collect())),
    }
}

/// Calls `bitcoin::PublicKey::from_slice`, then `bitcoin::Address::p2pkh` for regtest and
/// writes the address as text. `from_slice` refuses any length but 33 and 65, and a
/// 65-byte key that does not start with 4.
#[verifier::external_body]
pub(crate) fn p2pkh_address_of(public_key: &[u8]) -> (r: Option<String>)
    ensures
        r matches Some(a) ==> p2pkh_regtest_address(public_key@) == Some(a@),
        r is None ==> p2pkh_regtest_address(public_key@) is None,
        r is Some ==> (public_key@.len() == 33 || (public_key@.len() == 65 && public_key@[0]
            == 4)),
{
    bitcoin::PublicKey::from_slice(public_key).ok().map(
        |k| bitcoin::Address::p2pkh(&k, bitcoin::Network::Regtest).to_string(),
    )
}

/// Calls `bitcoin::Address::from_str`, `require_network(Regtest)` and `script_pubkey`.
#[verifier::external_body]
pub(crate) fn address_script_of(address: &str) -> (r: Option<Vec<u8>>)
    ensures
        r matches Some(s) ==> regtest_address_script(address@) == Some(s@),
        r is None ==> regtest_address_script(address@) is None,
{
    address.parse::<bitcoin::Address<bitcoin::address::NetworkUnchecked>>().ok().and_then(
        |a| a.require_network(bitcoin::Network::Regtest).ok(),
    ).map(|a| a.script_pubkey().into_bytes())
}

/// Calls `ordinals::Runestone::encipher` on a runestone with one edict, no etching, mint
/// or pointer.
#[verifier::external_body]
pub(crate) fn runestone_script(id: RuneIdData, amount: u128, output: u32) -> (s: Vec<u8>)
    ensures
        s@ == single_edict_runestone_script(id.block, id.tx, amount, output),
{
    ordinals::Runestone {
        edicts: vec![ordinals::Edict { id: ordinals::RuneId { block: id.block, tx: id.tx }, amount, output }],
        etching: None,
        mint: None,
        pointer: None,
    }.encipher().into_bytes()
}

/// Makes a `bitcoin::TxIn` spending output `vout` of the transaction `txid` with an empty
/// script, an empty witness and the given sequence number. `Txid::from_slice` takes only
/// 32 bytes.
#[verifier::external_body]
pub(crate) fn make_input(txid: &[u8], vout: u32, sequence: u32) -> (i: bitcoin::TxIn)
    requires
        txid@.len() == 32,
    ensures
        i == tx_input(txid@, vout, sequence),
{
    let txid = <bitcoin::Txid as bitcoin::hashes::Hash>::from_slice(txid).unwrap();
    bitcoin::TxIn { previous_output: bitcoin::OutPoint::new(txid, vout), script_sig: bitcoin::ScriptBuf::new(), sequence: bitcoin::Sequence(sequence), witness: bitcoin::Witness::new() }
}

/// Makes a `bitcoin::TxOut` of `value` satoshis paying to `script`.
#[verifier::external_body]
pub(crate) fn make_output(value: u64, script: &[u8]) -> (o: bitcoin::TxOut)
    ensures
        o == tx_output(value, script@),
{
    bitcoin::TxOut { value: bitcoin::Amount::from_sat(value), script_pubkey: bitcoin::ScriptBuf::from_bytes(script.to_vec()) }
}

/// Makes a `bitcoin::Transaction` of the given version, lock time (by
/// `LockTime::from_consensus`), inputs and outputs.
#[verifier::external_body]
pub(crate) fn make_transaction(version: i32, lock_time: u32, input: Vec<bitcoin::TxIn>, output: Vec<bitcoin::TxOut>) -> (t: bitcoin::Transaction)
    ensures
        t == transaction_of(version, lock_time, input@, output@),
{
    bitcoin::Transaction { version: bitcoin::transaction::Version(version), lock_time: bitcoin::absolute::LockTime::from_consensus(lock_time), input, output }
}

/// The regtest P2PKH address of a public key, as text.
pub fn public_key_to_p2pkh_address(public_key: &[u8]) -> (a: String)
    requires
        p2pkh_regtest_address(public_key@) is Some,
    ensures
        p2pkh_regtest_address(public_key@) == Some(a@),
{
    p2pkh_address_of(public_key).unwrap()
}

/// The regtest P2PKH address of a public key, as text, or `None` where the bytes are not a
/// public key.
pub fn try_public_key_to_p2pkh_address(public_key: &[u8]) -> (a: Option<String>)
    ensures
        a matches Some(x) ==> p2pkh_regtest_address(public_key@) == Some(x@),
        a is None ==> p2pkh_regtest_address(public_key@) is None,
{
    match p2pkh_address_of(public_key) {
        Some(_) => Some(public_key_to_p2pkh_address(public_key)),
        None => None,
    }
}

} // verus!
