use vstd::prelude::*;
use crate::btc::{
    address_script_of, make_input, make_output, make_transaction, regtest_address_script,
    runestone_script, single_edict_runestone_script, transaction_of, tx_input, tx_output,
    PlannedOutput,
};
use crate::decimal::{decimal, law_parse_decimal, lemma_decimal_digits, parse_u32, parse_u64, parse_unsigned};
use crate::types::{find_colon, first_colon, lemma_first_colon_at, lemma_first_colon_none, rune_id_text, RuneIdData, UtxoData};

verus! {

#[verifier::external_type_specification]
#[verifier::external_body]
pub struct ExNetwork(bitcoin::Network);

/// A bitcoin address, by the output script that pays to it.
#[derive(Debug)]
pub struct BtcAddress {
    pub script_pubkey: Vec<u8>,
}

impl BtcAddress {
    /// Reads an address given as text and valid on regtest.
    pub fn from_regtest_str(address: &str) -> (a: Option<BtcAddress>)
        ensures
            a matches Some(x) ==> regtest_address_script(address@) == Some(x.script_pubkey@),
            a is None ==> regtest_address_script(address@) is None,
    {
        match address_script_of(address) {
            Some(s) => Some(BtcAddress { script_pubkey: s }),
            None => None,
        }
    }
}

/// What a rune transfer sends: `amount` of the rune `rune_id` (written `block:tx`) to
/// `recipient_address`, paying `fee_rate` satoshis per virtual byte.
pub struct RuneTransferParams {
    pub amount: u64,
    pub recipient_address: BtcAddress,
    pub fee_rate: u64,
    pub rune_id: String,
}

/// The first two `:`-separated fields of `s`, read as a block and a transaction index;
/// fields after the second are ignored.
pub open spec fn rune_id_fields(s: Seq<char>) -> (Option<nat>, Option<nat>) {
    let p = first_colon(s) as int;
    let rest = s.skip(p + 1);
    (
        parse_unsigned(s.take(p), u64::MAX as nat),
        parse_unsigned(rest.take(first_colon(rest) as int), u32::MAX as nat),
    )
}

/// Whether `to_runeid` accepts `s`: it has a `:` and both of its first two fields parse.
pub open spec fn rune_id_fields_parse(s: Seq<char>) -> bool {
    &&& first_colon(s) < s.len()
    &&& rune_id_fields(s).0 is Some
    &&& rune_id_fields(s).1 is Some
}

/// Whether the first two `:`-separated fields of `id` read as a rune id, as a transfer
/// needs.
pub fn rune_id_fields_ok(id: &str) -> (b: bool)
    ensures
        b == rune_id_fields_parse(id@),
{
    let len = id.unicode_len();
    let p = find_colon(id, 0);
    assert(id@.skip(0) =~= id@);
    if p >= len {
        return false;
    }
    let q = find_colon(id, p + 1);
    let head = id.substring_char(0, p);
    let second = id.substring_char(p + 1, q);
    assert(head@ =~= id@.take(p as int));
    assert(second@ =~= id@.skip(p + 1).take(first_colon(id@.skip(p + 1)) as int));
    parse_u64(head).is_some() && parse_u32(second).is_some()
}

fn to_runeid(id: &str) -> (r: RuneIdData)
    requires
        rune_id_fields_parse(id@),
    ensures
        r.block == rune_id_fields(id@).0.unwrap(),
        r.tx == rune_id_fields(id@).1.unwrap(),
{
    let len = id.unicode_len();
    let p = find_colon(id, 0);
    assert(id@.skip(0) =~= id@);
    let q = find_colon(id, p + 1);
    let head = id.substring_char(0, p);
    let second = id.substring_char(p + 1, q);
    assert(head@ =~= id@.take(p as int));
    assert(second@ =~= id@.skip(p + 1).take(first_colon(id@.skip(p + 1)) as int));
    let block = parse_u64(head).unwrap();
    let tx = parse_u32(second).unwrap();
    RuneIdData { block, tx }
}

/// The sum of the values of `utxos`.
pub open spec fn utxo_total(utxos: Seq<UtxoData>) -> nat
    decreases utxos.len(),
{
    if utxos.len() == 0 {
        0
    } else {
        utxo_total(utxos.drop_last()) + utxos.last().value as nat
    }
}

/// Estimated virtual size of a transaction: 10 bytes of overhead, 148 per input and 34 per
/// output.
pub open spec fn tx_size_estimate(num_inputs: nat, num_outputs: nat) -> nat {
    10 + 148 * num_inputs + 34 * num_outputs
}

/// The outputs of a rune transfer: the runestone with 546 satoshis, the recipient with
/// none, and the change where it exceeds the dust limit; `None` where the inputs cannot
/// pay the fee, an estimate for three outputs.
pub open spec fn transfer_outputs(
    total: nat,
    num_inputs: nat,
    fee_rate: nat,
    dust_limit: nat,
    rune_script: Seq<u8>,
    recipient_script: Seq<u8>,
    change_script: Seq<u8>,
) -> Option<Seq<(u64, Seq<u8>)>> {
    let fee = tx_size_estimate(num_inputs, 3) * fee_rate;
    if total - 546 < fee {
        None
    } else {
        let change = total - 546 - fee;
        let base = seq![(546u64, rune_script), (0u64, recipient_script)];
        if change > dust_limit {
            Some(base.push((change as u64, change_script)))
        } else {
            Some(base)
        }
    }
}

/// The inputs of a transfer: one per unspent output, in order, each spending it with an
/// empty script and witness and the sequence number `0xFFFFFFFF`.
pub open spec fn transfer_inputs(utxos: Seq<UtxoData>) -> Seq<bitcoin::TxIn> {
    Seq::new(utxos.len(), |i: int| tx_input(utxos[i].txid@, utxos[i].vout, 0xFFFF_FFFFu32))
}

/// The transaction outputs of planned `(value, script)` pairs, in order.
pub open spec fn planned_outputs(outs: Seq<(u64, Seq<u8>)>) -> Seq<bitcoin::TxOut> {
    Seq::new(outs.len(), |i: int| tx_output(outs[i].0, outs[i].1))
}

/// The outputs of the transfer described by `params` from `utxos`, with change to
/// `change_script`: see `transfer_outputs`. The runestone sends the amount to output 0.
pub open spec fn transfer_plan(
    dust_limit: u64,
    params: RuneTransferParams,
    utxos: Seq<UtxoData>,
    change_script: Seq<u8>,
) -> Option<Seq<(u64, Seq<u8>)>> {
    transfer_outputs(
        utxo_total(utxos),
        utxos.len() as nat,
        params.fee_rate as nat,
        dust_limit as nat,
        single_edict_runestone_script(
            rune_id_fields(params.rune_id@).0.unwrap() as u64,
            rune_id_fields(params.rune_id@).1.unwrap() as u32,
            params.amount as u128,
            0,
        ),
        params.recipient_address.script_pubkey@,
        change_script,
    )
}

/// Builds rune transfers.
pub struct RuneTransactionBuilder {
    pub network: bitcoin::Network,
    pub dust_limit: u64,
}

impl RuneTransactionBuilder {
    /// A builder for `network` with a dust limit of 546 satoshis.
    pub fn new(network: bitcoin::Network) -> (b: Self)
        ensures
            b.dust_limit == 546,
            b.network == network,
    {
        RuneTransactionBuilder { network, dust_limit: 546 }
    }

    /// Estimated virtual size of a transaction.
    pub fn estimate_tx_size(&self, num_inputs: usize, num_outputs: usize) -> (size: usize)
        requires
            tx_size_estimate(num_inputs as nat, num_outputs as nat) <= usize::MAX,
        ensures
            size == tx_size_estimate(num_inputs as nat, num_outputs as nat),
    {
        let mut size: usize = 10;
        size += num_inputs * 148;
        size += num_outputs * 34;
        size
    }

    /// The outputs of the transfer that `build_unsigned_transfer` makes.
    pub fn plan_transfer(&self, params: &RuneTransferParams, utxos: &[UtxoData], change_address: &BtcAddress) -> (r: Result<Vec<PlannedOutput>, String>)
        requires
            rune_id_fields_parse(params.rune_id@),
            546 <= utxo_total(utxos@) <= u64::MAX,
            tx_size_estimate(utxos@.len() as nat, 3) <= usize::MAX,
            tx_size_estimate(utxos@.len() as nat, 3) * params.fee_rate <= u64::MAX,
        ensures
            ({
                let spec = transfer_plan(
                    self.dust_limit,
                    *params,
                    utxos@,
                    change_address.script_pubkey@,
                );
                &&& spec is None ==> (r matches Err(m) && m@ == "Insufficient funds for transfer"@)
                &&& spec matches Some(outs) ==> (r matches Ok(v) && v@.len() == outs.len() && forall|
                    i: int,
                | 0 <= i < outs.len() ==> #[trigger] v@[i].value == outs[i].0 && v@[i].script@
                    == outs[i].1)
            }),
    {
        let mut total: u64 = 0;
        let mut i: usize = 0;
        while i < utxos.len()
            invariant
                i <= utxos@.len(),
                total as nat == utxo_total(utxos@.take(i as int)),
                utxo_total(utxos@) <= u64::MAX,
            decreases utxos@.len() - i,
        {
            assert(utxos@.take(i + 1).drop_last() =~= utxos@.take(i as int));
            proof {
                lemma_utxo_total_prefix(utxos@, i + 1);
            }
            total = total + utxos[i].value;
            i = i + 1;
        }
        assert(utxos@.take(i as int) =~= utxos@);
        let id = to_runeid(params.rune_id.as_str());
        let rune_script = runestone_script(id, params.amount as u128, 0);
        let mut outputs: Vec<PlannedOutput> = Vec::new();
        outputs.push(PlannedOutput { value: 546, script: rune_script });
        outputs.push(
            PlannedOutput { value: 0, script: clone_bytes(&params.recipient_address.script_pubkey) },
        );
        let size = self.estimate_tx_size(utxos.len(), outputs.len() + 1);
        let fee = size as u64 * params.fee_rate;
        let output_amount: u64 = 546;
        let after_outputs = total - output_amount;
        if after_outputs < fee {
            return Err("Insufficient funds for transfer".to_string());
        }
        let change = after_outputs - fee;
        if change > self.dust_limit {
            outputs.push(PlannedOutput { value: change, script: clone_bytes(&change_address.script_pubkey) });
        }
        Ok(outputs)
    }

    /// Builds the unsigned rune transfer: version 2, lock time 0, one input per unspent
    /// output (empty script, empty witness, sequence `0xFFFFFFFF`), and the outputs that
    /// `plan_transfer` gives: runestone, recipient, then change where there is any.
    pub fn build_unsigned_transfer(&self, params: &RuneTransferParams, utxos: &[UtxoData], change_address: &BtcAddress) -> (r: Result<bitcoin::Transaction, String>)
        requires
            rune_id_fields_parse(params.rune_id@),
            546 <= utxo_total(utxos@) <= u64::MAX,
            tx_size_estimate(utxos@.len() as nat, 3) <= usize::MAX,
            tx_size_estimate(utxos@.len() as nat, 3) * params.fee_rate <= u64::MAX,
            forall|i: int| 0 <= i < utxos@.len() ==> #[trigger] utxos@[i].txid@.len() == 32,
        ensures
            r is Ok <==> tx_size_estimate(utxos@.len() as nat, 3) * params.fee_rate
                <= utxo_total(utxos@) - 546,
            r matches Err(m) ==> m@ == "Insufficient funds for transfer"@,
            r matches Ok(t) ==> t == transaction_of(
                2,
                0,
                transfer_inputs(utxos@),
                planned_outputs(
                    transfer_plan(self.dust_limit, *params, utxos@, change_address.script_pubkey@).unwrap(),
                ),
            ),
    {
        let ghost plan = transfer_plan(self.dust_limit, *params, utxos@, change_address.script_pubkey@);
        let outputs = match self.plan_transfer(params, utxos, change_address) {
            Ok(o) => o,
            Err(e) => {
                return Err(e);
            },
        };
        let mut input = Vec::new();
        let mut i: usize = 0;
        while i < utxos.len()
            invariant
                i <= utxos@.len(),
                forall|j: int| 0 <= j < utxos@.len() ==> #[trigger] utxos@[j].txid@.len() == 32,
                input@.len() == i,
                forall|j: int| 0 <= j < i ==> #[trigger] input@[j] == transfer_inputs(utxos@)[j],
            decreases utxos@.len() - i,
        {
            input.push(make_input(utxos[i].txid.as_slice(), utxos[i].vout, 0xFFFF_FFFF));
            i = i + 1;
        }
        assert(input@ =~= transfer_inputs(utxos@));
        let mut output = Vec::new();
        let mut j: usize = 0;
        while j < outputs.len()
            invariant
                j <= outputs@.len(),
                plan matches Some(outs) && outs.len() == outputs@.len() && forall|q: int|
                    0 <= q < outs.len() ==> #[trigger] outputs@[q].value == outs[q].0
                        && outputs@[q].script@ == outs[q].1,
                output@.len() == j,
                forall|q: int| 0 <= q < j ==> #[trigger] output@[q] == planned_outputs(plan.unwrap())[q],
            decreases outputs@.len() - j,
        {
            output.push(make_output(outputs[j].value, outputs[j].script.as_slice()));
            j = j + 1;
        }
        assert(output@ =~= planned_outputs(plan.unwrap()));
        Ok(make_transaction(2, 0, input, output))
    }
}

/// What a transfer's outputs are, in terms of what it spends: where the inputs cover the
/// runestone's 546 satoshis and the fee, the first output carries the runestone with 546
/// satoshis, the second pays nothing to the recipient, and a third output, present exactly
/// when the change exceeds the dust limit, pays all the change to the change address.
/// Value is kept: the outputs and the fee add up to what is spent, but for change at or
/// below the dust limit, which goes to the fee.
pub proof fn law_transfer_outputs(
    total: nat,
    num_inputs: nat,
    fee_rate: nat,
    dust_limit: nat,
    rune_script: Seq<u8>,
    recipient_script: Seq<u8>,
    change_script: Seq<u8>,
)
    requires
        total <= u64::MAX,
    ensures
        ({
            let fee = tx_size_estimate(num_inputs, 3) * fee_rate;
            let outs = transfer_outputs(
                total,
                num_inputs,
                fee_rate,
                dust_limit,
                rune_script,
                recipient_script,
                change_script,
            );
            &&& outs is None <==> total < 546 + fee
            &&& outs matches Some(o) ==> {
                &&& o.len() == 2 || o.len() == 3
                &&& o[0] == (546u64, rune_script)
                &&& o[1] == (0u64, recipient_script)
                &&& o.len() == 3 <==> total > 546 + fee + dust_limit
                &&& o.len() == 3 ==> o[2].1 == change_script && o[2].0 + 546 + fee == total
                &&& o.len() == 2 ==> total - 546 - fee <= dust_limit
            }
        }),
{
}

/// Each input of a transfer spends the unspent output at the same place in the list, by
/// its own transaction id and output index, with sequence `0xFFFFFFFF`; there is one input
/// per unspent output.
pub proof fn law_transfer_inputs_spend_utxos(utxos: Seq<UtxoData>)
    ensures
        transfer_inputs(utxos).len() == utxos.len(),
        forall|i: int|
            0 <= i < utxos.len() ==> #[trigger] transfer_inputs(utxos)[i] == tx_input(
                utxos[i].txid@,
                utxos[i].vout,
                0xFFFF_FFFFu32,
            ),
{
}

/// The text of a rune id reads back, field by field, as the same rune id, so a transfer
/// of a rune named by its text sends that rune.
pub proof fn law_rune_id_fields_round_trip(id: RuneIdData)
    ensures
        rune_id_fields_parse(rune_id_text(id)),
        rune_id_fields(rune_id_text(id)) == (Some(id.block as nat), Some(id.tx as nat)),
{
    let b = decimal(id.block as nat);
    let t = decimal(id.tx as nat);
    let s = rune_id_text(id);
    lemma_decimal_digits(id.block as nat);
    lemma_decimal_digits(id.tx as nat);
    let p = b.len() as int;
    assert(s[p] == ':');
    assert forall|i: int| 0 <= i < p implies #[trigger] s[i] != ':' by {
        assert(s[i] == b[i]);
    }
    lemma_first_colon_at(s, p);
    assert(s.skip(p + 1) =~= t);
    assert(s.take(p) =~= b);
    lemma_first_colon_none(t);
    assert(t.take(t.len() as int) =~= t);
    law_parse_decimal(id.block as nat, u64::MAX as nat);
    law_parse_decimal(id.tx as nat, u32::MAX as nat);
}

fn clone_bytes(b: &Vec<u8>) -> (c: Vec<u8>)
    ensures
        c@ == b@,
{
    b.clone()
}

proof fn lemma_utxo_total_prefix(s: Seq<UtxoData>, j: int)
    requires
        0 <= j <= s.len(),
    ensures
        utxo_total(s.take(j)) <= utxo_total(s),
    decreases s.len() - j,
{
    if j < s.len() {
        lemma_utxo_total_prefix(s, j + 1);
        assert(s.take(j + 1).drop_last() =~= s.take(j));
    } else {
        assert(s.take(j) =~= s);
    }
}

} // verus!
