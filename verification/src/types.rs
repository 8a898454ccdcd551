use vstd::prelude::*;
use crate::codec::{hex_encode, hex_lower, sha256_digest, sha256_hex};
use crate::decimal::{decimal, parse_unsigned, parse_u32, parse_u64, push_decimal};

verus! {

/// A loan offer. Principals are held as their textual form; the two ratios, which the
/// canister keeps as `f32`, are held as their IEEE-754 bit patterns.
#[derive(Debug)]
pub struct LoanOffer {
    pub id: String,
    /// The collateral amount, in runes.
    pub collateral_amt: u64,
    pub rune_id: String,
    pub max_ltv_bits: u32,
    pub lender: String,
    pub liquidity_bundle_id: String,
    pub term: u32,
    pub interest_bits: u32,
}

/// What the canister's bitcoin API reports of an unspent output.
#[derive(Debug)]
pub struct UtxoData {
    pub txid: Vec<u8>,
    pub vout: u32,
    pub value: u64,
    pub height: u32,
}

/// An outpoint with its amount and height; the transaction id is lower-case hex.
#[derive(Debug)]
pub struct OutpointData {
    pub txn_id: String,
    pub index: u32,
    pub amount: u64,
    pub height: u32,
}

impl OutpointData {
    /// The outpoint of an unspent output, its transaction id written as hex.
    pub fn from_utxo(utxo: &UtxoData) -> (o: Self)
        ensures
            o.txn_id@ == hex_lower(utxo.txid@),
            o.index == utxo.vout,
            o.amount == utxo.value,
            o.height == utxo.height,
    {
        OutpointData {
            txn_id: hex_encode(utxo.txid.as_slice()),
            index: utxo.vout,
            amount: utxo.value,
            height: utxo.height,
        }
    }

    /// The hash of an outpoint from its encoded bytes: lower-case hex of their SHA-256
    /// digest. The encoding itself (CBOR) is made where serde runs.
    pub fn compute_hash_of_encoding(encoded: &[u8]) -> (h: String)
        ensures
            h@ == hex_lower(sha256_digest(encoded@)),
            h@.len() == 64,
    {
        sha256_hex(encoded)
    }
}

/// A rune id: the block of its etching and the transaction's index in it.
#[derive(Clone, Copy, Debug, PartialEq, Eq, Structural)]
pub struct RuneIdData {
    pub block: u64,
    pub tx: u32,
}

/// The text `block:tx` of a rune id.
pub open spec fn rune_id_text(id: RuneIdData) -> Seq<char> {
    decimal(id.block as nat) + seq![':'] + decimal(id.tx as nat)
}

/// The position of the first `:` in `s`, or its length when there is none.
pub open spec fn first_colon(s: Seq<char>) -> nat
    decreases s.len(),
{
    if s.len() == 0 {
        0
    } else if s[0] == ':' {
        0
    } else {
        1 + first_colon(s.drop_first())
    }
}

/// Why a rune id's text was refused.
#[derive(Clone, Copy, Debug, PartialEq, Eq, Structural)]
pub enum RuneIdError {
    /// Not two fields separated by one `:`.
    Format,
    /// The block is not a `u64`.
    Block,
    /// The transaction index is not a `u32`.
    Transaction,
}

/// What reading `block:tx` gives: the text must hold exactly one `:`, the part before it
/// must parse as a `u64` and the part after it as a `u32`.
pub open spec fn parse_rune_id_spec(s: Seq<char>) -> Result<RuneIdData, RuneIdError> {
    let p = first_colon(s) as int;
    if p >= s.len() || first_colon(s.skip(p + 1)) < s.skip(p + 1).len() {
        Err(RuneIdError::Format)
    } else {
        match parse_unsigned(s.take(p), u64::MAX as nat) {
            None => Err(RuneIdError::Block),
            Some(b) => match parse_unsigned(s.skip(p + 1), u32::MAX as nat) {
                None => Err(RuneIdError::Transaction),
                Some(t) => Ok(RuneIdData { block: b as u64, tx: t as u32 }),
            },
        }
    }
}

pub(crate) proof fn lemma_first_colon_bound(s: Seq<char>)
    ensures
        first_colon(s) <= s.len(),
        first_colon(s) < s.len() ==> s[first_colon(s) as int] == ':',
        forall|i: int| 0 <= i < first_colon(s) ==> #[trigger] s[i] != ':',
    decreases s.len(),
{
    if s.len() > 0 && s[0] != ':' {
        lemma_first_colon_bound(s.drop_first());
        assert forall|i: int| 0 <= i < first_colon(s) implies #[trigger] s[i] != ':' by {
            if i > 0 {
                assert(s[i] == s.drop_first()[i - 1]);
            }
        }
    }
}

pub(crate) proof fn lemma_first_colon_none(s: Seq<char>)
    requires
        forall|i: int| 0 <= i < s.len() ==> #[trigger] s[i] != ':',
    ensures
        first_colon(s) == s.len(),
    decreases s.len(),
{
    if s.len() > 0 {
        assert forall|i: int| 0 <= i < s.drop_first().len() implies #[trigger] s.drop_first()[i]
            != ':' by {
            assert(s.drop_first()[i] == s[i + 1]);
        }
        lemma_first_colon_none(s.drop_first());
    }
}

pub(crate) proof fn lemma_first_colon_at(s: Seq<char>, p: int)
    requires
        0 <= p < s.len(),
        s[p] == ':',
        forall|i: int| 0 <= i < p ==> #[trigger] s[i] != ':',
    ensures
        first_colon(s) == p,
    decreases s.len(),
{
    if p > 0 {
        assert forall|i: int| 0 <= i < p - 1 implies #[trigger] s.drop_first()[i] != ':' by {
            assert(s.drop_first()[i] == s[i + 1]);
        }
        lemma_first_colon_at(s.drop_first(), p - 1);
    }
}

/// Finds the first `:` of `s` at or after `from`.
pub(crate) fn find_colon(s: &str, from: usize) -> (p: usize)
    requires
        from <= s@.len(),
    ensures
        from <= p <= s@.len(),
        p == from + first_colon(s@.skip(from as int)),
{
    let len = s.unicode_len();
    let mut i = from;
    while i < len
        invariant
            from <= i <= len,
            len == s@.len(),
            forall|j: int| from <= j < i ==> #[trigger] s@[j] != ':',
        decreases len - i,
    {
        if s.get_char(i) == ':' {
            proof {
                let t = s@.skip(from as int);
                assert forall|j: int| 0 <= j < i - from implies #[trigger] t[j] != ':' by {
                    assert(t[j] == s@[from + j]);
                }
                lemma_first_colon_at(t, i - from);
            }
            return i;
        }
        i = i + 1;
    }
    proof {
        let t = s@.skip(from as int);
        assert forall|j: int| 0 <= j < t.len() implies #[trigger] t[j] != ':' by {
            assert(t[j] == s@[from + j]);
        }
        lemma_first_colon_none(t);
    }
    i
}

/// Reads a rune id written `block:tx`.
pub fn parse_rune_id(s: &str) -> (r: Result<RuneIdData, RuneIdError>)
    ensures
        r == parse_rune_id_spec(s@),
{
    let len = s.unicode_len();
    let p = find_colon(s, 0);
    assert(s@.skip(0) =~= s@);
    if p >= len {
        return Err(RuneIdError::Format);
    }
    let q = find_colon(s, p + 1);
    if q < len {
        return Err(RuneIdError::Format);
    }
    let head = s.substring_char(0, p);
    let tail = s.substring_char(p + 1, len);
    assert(head@ =~= s@.take(p as int));
    assert(tail@ =~= s@.skip(p + 1));
    match parse_u64(head) {
        None => Err(RuneIdError::Block),
        Some(b) => match parse_u32(tail) {
            None => Err(RuneIdError::Transaction),
            Some(t) => Ok(RuneIdData { block: b, tx: t }),
        },
    }
}

impl RuneIdData {
    /// The text `block:tx`.
    pub fn to_string(&self) -> (s: String)
        ensures
            s@ == rune_id_text(*self),
    {
        let mut s = String::new();
        push_decimal(&mut s, self.block as u128);
        s.append(":");
        push_decimal(&mut s, self.tx as u128);
        proof {
            reveal_strlit(":");
        }
        assert(s@ =~= rune_id_text(*self));
        s
    }
}

/// Reading back the text of a rune id gives the same rune id.
pub proof fn law_rune_id_text_round_trip(id: RuneIdData)
    ensures
        parse_rune_id_spec(rune_id_text(id)) == Ok::<RuneIdData, RuneIdError>(id),
{
    let b = decimal(id.block as nat);
    let t = decimal(id.tx as nat);
    let s = rune_id_text(id);
    crate::decimal::lemma_decimal_digits(id.block as nat);
    crate::decimal::lemma_decimal_digits(id.tx as nat);
    let p = b.len() as int;
    assert(s[p] == ':');
    assert forall|i: int| 0 <= i < p implies #[trigger] s[i] != ':' by {
        assert(s[i] == b[i]);
    }
    lemma_first_colon_at(s, p);
    assert(s.skip(p + 1) =~= t);
    assert(s.take(p) =~= b);
    lemma_first_colon_none(t);
    crate::decimal::law_parse_decimal(id.block as nat, u64::MAX as nat);
    crate::decimal::law_parse_decimal(id.tx as nat, u32::MAX as nat);
}

/// A request for a loan against an offer.
#[derive(Debug)]
pub struct LoanRequest {
    pub offer_id: String,
    pub collateral_id: String,
    pub receive_addr: String,
}

/// Copies an optional text.
pub fn clone_opt_string(s: &Option<String>) -> (r: Option<String>)
    ensures
        r == *s,
{
    match s {
        Some(x) => Some(x.clone()),
        None => None,
    }
}

impl Clone for LoanOffer {
    fn clone(&self) -> (r: Self)
        ensures
            r == *self,
    {
        LoanOffer {
            id: self.id.clone(),
            collateral_amt: self.collateral_amt,
            rune_id: self.rune_id.clone(),
            max_ltv_bits: self.max_ltv_bits,
            lender: self.lender.clone(),
            liquidity_bundle_id: self.liquidity_bundle_id.clone(),
            term: self.term,
            interest_bits: self.interest_bits,
        }
    }
}

/// Runes deposited as collateral. The owner is a principal in its textual form.
#[derive(Debug)]
pub struct Collateral {
    pub id: String,
    pub rune_id: String,
    pub trx_hex: Option<String>,
    pub amount: u64,
    pub owner: String,
    pub txn_id: String,
    pub address: String,
    /// The loan that uses this collateral, if any.
    pub loan_trx: Option<String>,
}

impl Clone for Collateral {
    fn clone(&self) -> (r: Self)
        ensures
            r == *self,
    {
        Collateral {
            id: self.id.clone(),
            rune_id: self.rune_id.clone(),
            trx_hex: clone_opt_string(&self.trx_hex),
            amount: self.amount,
            owner: self.owner.clone(),
            txn_id: self.txn_id.clone(),
            address: self.address.clone(),
            loan_trx: clone_opt_string(&self.loan_trx),
        }
    }
}

/// A lender's bitcoin set aside for loans. The lender is a principal in its textual form.
#[derive(Debug)]
pub struct Bundle {
    pub id: String,
    pub lender: String,
    pub amount: u64,
    /// The transaction that funded the bundle.
    pub txn_id: String,
    /// The loan that uses this bundle, if any.
    pub loan_trx: Option<String>,
    pub address: String,
}

impl Clone for Bundle {
    fn clone(&self) -> (r: Self)
        ensures
            r == *self,
    {
        Bundle {
            id: self.id.clone(),
            lender: self.lender.clone(),
            amount: self.amount,
            txn_id: self.txn_id.clone(),
            loan_trx: clone_opt_string(&self.loan_trx),
            address: self.address.clone(),
        }
    }
}

/// Where a loan stands; the text is the id of the transaction that settled it.
#[allow(non_camel_case_types)]
#[derive(Debug, PartialEq, Eq)]
pub enum LoanStatus {
    PENDING,
    PAID_BACK(String),
    DEFAULTED(String),
}

impl Clone for LoanStatus {
    fn clone(&self) -> (r: Self)
        ensures
            r == *self,
    {
        match self {
            LoanStatus::PENDING => LoanStatus::PENDING,
            LoanStatus::PAID_BACK(t) => LoanStatus::PAID_BACK(t.clone()),
            LoanStatus::DEFAULTED(t) => LoanStatus::DEFAULTED(t.clone()),
        }
    }
}

/// A loan. The owner is a principal in its textual form; the loan-to-value ratio, which
/// the canister keeps as `f64`, and the interest, kept as `f32`, are held as their IEEE-754
/// bit patterns.
#[derive(Debug)]
pub struct LoanTransaction {
    pub bundle_id: String,
    pub collateral_id: String,
    pub owner: String,
    pub created_at: u64,
    pub expires_at: u64,
    pub sat_worth: u64,
    pub id: String,
    pub ltv_bits: u64,
    pub borrowed_amount: u64,
    pub txn_id: String,
    pub loan_status: LoanStatus,
    pub interest_bits: u32,
}

impl LoanTransaction {
    /// A new, pending loan of the bundle `bundle_id` against the collateral
    /// `collateral_id`, taken by `owner` over `period` (start and expiry, in milliseconds).
    pub fn pending(
        id: String,
        bundle_id: String,
        collateral_id: String,
        owner: String,
        period: (u64, u64),
        sat_worth: u64,
        ltv_bits: u64,
        borrowed_amount: u64,
        txn_id: String,
        interest_bits: u32,
    ) -> (l: LoanTransaction)
        ensures
            l == (LoanTransaction {
                bundle_id,
                collateral_id,
                owner,
                created_at: period.0,
                expires_at: period.1,
                sat_worth,
                id,
                ltv_bits,
                borrowed_amount,
                txn_id,
                loan_status: LoanStatus::PENDING,
                interest_bits,
            }),
    {
        LoanTransaction {
            bundle_id,
            collateral_id,
            owner,
            created_at: period.0,
            expires_at: period.1,
            sat_worth,
            id,
            ltv_bits,
            borrowed_amount,
            txn_id,
            loan_status: LoanStatus::PENDING,
            interest_bits,
        }
    }
}

impl Clone for LoanTransaction {
    fn clone(&self) -> (r: Self)
        ensures
            r == *self,
    {
        LoanTransaction {
            bundle_id: self.bundle_id.clone(),
            collateral_id: self.collateral_id.clone(),
            owner: self.owner.clone(),
            created_at: self.created_at,
            expires_at: self.expires_at,
            sat_worth: self.sat_worth,
            id: self.id.clone(),
            ltv_bits: self.ltv_bits,
            borrowed_amount: self.borrowed_amount,
            txn_id: self.txn_id.clone(),
            loan_status: self.loan_status.clone(),
            interest_bits: self.interest_bits,
        }
    }
}

} // verus!
