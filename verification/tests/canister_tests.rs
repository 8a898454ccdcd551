use liquidium_test_backend::expiry::ExpiryResource;
use liquidium_test_backend::btc::{EdictData, RuneArtifact};
use liquidium_test_backend::canister::{
    check_bundle_funds, check_collateral_funds, days_to_milliseconds, get_rune_unit_price, greet,
    collateral_worth, loan_period, nanoseconds_to_milliseconds, CollateralScan, LendingState, ScanStep,
};
use liquidium_test_backend::types::{
    Bundle, Collateral, LoanOffer, LoanRequest, LoanStatus, LoanTransaction, RuneIdData, UtxoData,
};

const ALICE: &str = "t2lrx-mmt4s-tqhf7-nizyn-22rtl-ze2e4-dsypi-2yiig-l3wfk-afar6-4ae";
const BOB: &str = "gjsb5-aob2b-zf7yv-7olwn-zkz6u-bpjjl-tjix4-h5l5r-fgc4u-tizdh-nae";

fn s(x: &str) -> String {
    x.to_string()
}

fn blank_bundle(amount: u64) -> Bundle {
    Bundle { id: s(""), lender: s(""), amount, txn_id: s(""), loan_trx: Some(s("stale")), address: s("") }
}

fn blank_collateral(amount: u64, rune: &str) -> Collateral {
    Collateral {
        id: s(""),
        rune_id: s(rune),
        trx_hex: None,
        amount,
        owner: s(""),
        txn_id: s(""),
        address: s(""),
        loan_trx: Some(s("stale")),
    }
}

fn offer(bundle: &str, amount: u64, rune: &str) -> LoanOffer {
    LoanOffer {
        id: s(""),
        collateral_amt: amount,
        rune_id: s(rune),
        max_ltv_bits: 0.5f32.to_bits(),
        lender: s(""),
        liquidity_bundle_id: s(bundle),
        term: 30,
        interest_bits: 0.1f32.to_bits(),
    }
}

fn loan(id: &str, bundle: &str, collateral: &str, owner: &str, expires_at: u64) -> LoanTransaction {
    LoanTransaction {
        bundle_id: s(bundle),
        collateral_id: s(collateral),
        owner: s(owner),
        created_at: 1,
        expires_at,
        sat_worth: 100,
        id: s(id),
        ltv_bits: 0.5f64.to_bits(),
        borrowed_amount: 50,
        txn_id: s("tx"),
        loan_status: LoanStatus::PENDING,
        interest_bits: 0.1f32.to_bits(),
    }
}

fn request(offer: &str, collateral: &str) -> LoanRequest {
    LoanRequest { offer_id: s(offer), collateral_id: s(collateral), receive_addr: s("addr") }
}

#[test]
fn greeting_and_time() {
    assert_eq!(greet(&s("ICP")), "Hello, ICP!");
    assert_eq!(nanoseconds_to_milliseconds(1_999_999), 1);
    assert_eq!(days_to_milliseconds(2), 172_800_000);
    assert_eq!(get_rune_unit_price(&s("1:1")), 100);
}

#[test]
fn funds_checks() {
    assert_eq!(check_bundle_funds(10, 9).unwrap_err(), "Insufficient Fund");
    assert_eq!(check_bundle_funds(9, 9), Ok(()));
    assert_eq!(check_collateral_funds(10, 9).unwrap_err(), "Insufficient Funds");
    assert_eq!(check_collateral_funds(9, 10), Ok(()));
}

#[test]
fn bundle_and_offer_flow() {
    let mut st = LendingState::new();
    assert_eq!(st.check_offer_bundle(&s("b1"), &s(ALICE)).unwrap_err(), "Collateral not found");
    let (bid, tid) = st.record_bundle(blank_bundle(5000), s(ALICE), s("b1"), s("bcrt1addr"), s("fund-tx"));
    assert_eq!((bid.as_str(), tid.as_str()), ("b1", "fund-tx"));
    let b = st.get_bundle(&s("b1")).unwrap();
    assert_eq!(b.lender, ALICE);
    assert_eq!(b.loan_trx, None);
    assert_eq!(b.amount, 5000);
    assert_eq!(
        st.check_offer_bundle(&s("b1"), &s(BOB)).unwrap_err(),
        "You are not owner of the collateral bundle"
    );
    assert_eq!(st.check_offer_bundle(&s("b1"), &s(ALICE)), Ok(()));
    st.record_offer(offer("b1", 100, "840000:1"), s(ALICE), s("o1"));
    st.record_offer(offer("b1", 200, "840000:1"), s(BOB), s("o2"));
    let all = st.get_loan_offers(None);
    assert_eq!(all.iter().map(|o| o.id.clone()).collect::<Vec<_>>(), vec![s("o1"), s("o2")]);
    let alice = st.get_loan_offers(Some(s(ALICE)));
    assert_eq!(alice.len(), 1);
    assert_eq!(alice[0].lender, ALICE);
    assert_eq!(alice[0].collateral_amt, 100);
    assert!(st.get_loan_offers(Some(s("nobody"))).is_empty());
}

#[test]
fn loan_request_checks_in_order() {
    let mut st = LendingState::new();
    st.record_bundle(blank_bundle(5000), s(ALICE), s("b1"), s("a"), s("t"));
    st.record_offer(offer("b1", 100, "840000:1"), s(ALICE), s("o1"));
    st.record_offer(offer("missing", 100, "840000:1"), s(ALICE), s("o2"));
    st.record_offer(offer("b1", 100, "1:1"), s(ALICE), s("o3"));
    st.record_offer(offer("b1", 1000, "840000:1"), s(ALICE), s("o4"));
    assert_eq!(st.check_loan_request(&request("o1", "c1"), &s(BOB)).unwrap_err(), "Collateral not found");
    st.record_collateral(blank_collateral(500, "840000:1"), s(BOB), s("c1"), s("ca"), s("ct"));
    let c = st.get_colateral(&s("c1")).unwrap();
    assert_eq!((c.owner.as_str(), c.loan_trx.clone()), (BOB, None));
    assert_eq!(
        st.check_loan_request(&request("o1", "c1"), &s(ALICE)).unwrap_err(),
        "You are not authorized to used this collateral"
    );
    assert_eq!(st.check_loan_request(&request("zz", "c1"), &s(BOB)).unwrap_err(), "Offer doesn't exixst");
    assert_eq!(st.check_loan_request(&request("o2", "c1"), &s(BOB)).unwrap_err(), "Bundle not found");
    assert_eq!(
        st.check_loan_request(&request("o3", "c1"), &s(BOB)).unwrap_err(),
        "Your collateral rune is not same with rune required for offer"
    );
    assert_eq!(
        st.check_loan_request(&request("o4", "c1"), &s(BOB)).unwrap_err(),
        "Your collateral amount is less than required for this offer"
    );
    let (o, b, c) = st.check_loan_request(&request("o1", "c1"), &s(BOB)).unwrap();
    assert_eq!((o.id.as_str(), b.id.as_str(), c.id.as_str()), ("o1", "b1", "c1"));

    st.record_loan(loan("l1", "b1", "c1", BOB, 10_000));
    assert_eq!(st.get_colateral(&s("c1")).unwrap().loan_trx, Some(s("l1")));
    assert_eq!(st.get_bundle(&s("b1")).unwrap().loan_trx, Some(s("l1")));
    assert_eq!(st.check_loan_request(&request("o1", "c1"), &s(BOB)).unwrap_err(), "This collateral is in use");
    st.record_collateral(blank_collateral(500, "840000:1"), s(BOB), s("c2"), s("ca"), s("ct"));
    assert_eq!(st.check_loan_request(&request("o1", "c2"), &s(BOB)).unwrap_err(), "Liquidity Bundle is in use");
    assert_eq!(st.check_offer_bundle(&s("b1"), &s(ALICE)).unwrap_err(), "This Liquidity Bundle is in use.");
}

#[test]
fn repayment_and_default() {
    let mut st = LendingState::new();
    st.record_bundle(blank_bundle(5000), s(ALICE), s("b1"), s("a"), s("t"));
    st.record_collateral(blank_collateral(500, "840000:1"), s(BOB), s("c1"), s("ca"), s("ct"));
    st.record_bundle(blank_bundle(5000), s(ALICE), s("b2"), s("a"), s("t"));
    st.record_collateral(blank_collateral(500, "840000:1"), s(BOB), s("c2"), s("ca"), s("ct"));
    st.record_loan(loan("l1", "b1", "c1", BOB, 1_000));
    st.record_loan(loan("l2", "b2", "c2", BOB, 5_000));

    assert_eq!(st.check_repayment(&s("nope"), &s(BOB)).unwrap_err(), "Transaction not found");
    assert_eq!(st.check_repayment(&s("l2"), &s(ALICE)).unwrap_err(), "You are not authorized");
    let (l, b, c) = st.check_repayment(&s("l2"), &s(BOB)).unwrap();
    assert_eq!((l.id.as_str(), b.id.as_str(), c.id.as_str()), ("l2", "b2", "c2"));
    st.mark_paid(&s("l2"), s("pay-tx"));
    assert_eq!(st.get_loan_transaction(&s("l2")).unwrap().loan_status, LoanStatus::PAID_BACK(s("pay-tx")));
    assert!(st.pending_loan(&s("l2")).is_none());

    let expired = st.take_expired(2_000);
    let ids: Vec<String> = expired.into_iter().map(|r| r.data.unwrap()).collect();
    assert_eq!(ids, vec![s("l1")]);
    assert!(st.take_expired(2_000).is_empty());
    let pending = st.pending_loan(&s("l1")).unwrap();
    st.apply_default(&s("l1"), &pending.collateral_id, &pending.bundle_id, s("rune-tx"));
    assert!(st.get_colateral(&s("c1")).is_none());
    assert!(st.get_bundle(&s("b1")).is_none());
    assert_eq!(st.get_loan_transaction(&s("l1")).unwrap().loan_status, LoanStatus::DEFAULTED(s("rune-tx")));
    assert_eq!(st.check_repayment(&s("l1"), &s(BOB)).unwrap_err(), "Bundle/Collateral not Found");
    let later = st.take_expired(10_000);
    assert_eq!(later.len(), 1);
    assert_eq!(later[0].expiration, 5_000);
}

#[test]
fn loans_expiring_together_are_all_taken() {
    let mut st = LendingState::new();
    st.record_bundle(blank_bundle(5000), s(ALICE), s("b1"), s("a"), s("t"));
    st.record_collateral(blank_collateral(500, "840000:1"), s(BOB), s("c1"), s("ca"), s("ct"));
    st.record_bundle(blank_bundle(5000), s(ALICE), s("b2"), s("a"), s("t"));
    st.record_collateral(blank_collateral(500, "840000:1"), s(BOB), s("c2"), s("ca"), s("ct"));
    st.record_loan(loan("l1", "b1", "c1", BOB, 3_000));
    st.record_loan(loan("l2", "b2", "c2", BOB, 3_000));
    assert!(st.take_expired(2_999).is_empty());
    let ids: Vec<String> = st.take_expired(3_000).into_iter().map(|r| r.data.unwrap()).collect();
    assert_eq!(ids, vec![s("l1"), s("l2")]);
}

#[test]
fn collateral_scan() {
    let mut scan = CollateralScan::new();
    let u1 = UtxoData { txid: vec![0xaa; 2], vout: 0, value: 600, height: 1 };
    let u2 = UtxoData { txid: vec![0xaa; 2], vout: 1, value: 700, height: 1 };
    let u3 = UtxoData { txid: vec![0xbb; 2], vout: 0, value: 800, height: 1 };
    match scan.step(50, &u1) {
        ScanStep::Fetch(t) => assert_eq!(t, "aaaa"),
        _ => panic!("expected a fetch"),
    }
    let id = RuneIdData { block: 840000, tx: 1 };
    let edicts = vec![
        EdictData { id, amount: 30, output: 0 },
        EdictData { id: RuneIdData { block: 1, tx: 1 }, amount: 99, output: 0 },
        EdictData { id, amount: 25, output: 1 },
    ];
    scan.absorb(s("aaaa"), &Some(RuneArtifact::Runestone(edicts)), &s("840000:1"));
    assert_eq!(scan.total_value, 55);
    assert!(scan.checked.contains("aaaa"));
    assert_eq!(scan.checked.len(), 1);
    // enough runes: now satoshis are gathered until the dust minimum is reached
    assert!(matches!(scan.step(50, &u2), ScanStep::Skip));
    assert_eq!(scan.sat_amount, 700);
    assert!(matches!(scan.step(50, &u3), ScanStep::Skip));
    assert_eq!(scan.sat_amount, 1500);
    assert!(matches!(scan.step(50, &u1), ScanStep::Stop));
    assert_eq!(scan.sat_amount, 1500);
    // a transaction already read is skipped
    let mut scan2 = CollateralScan::new();
    scan2.absorb(s("aaaa"), &None, &s("840000:1"));
    assert!(matches!(scan2.step(50, &u2), ScanStep::Skip));
    assert_eq!(scan2.total_value, 0);
}

#[test]
fn loan_period_and_worth() {
    assert_eq!(loan_period(5_000_000_000, 2), (5_000, 5_000 + 2 * 86_400_000));
    let start = u64::MAX / 1_000_000;
    assert_eq!(loan_period(u64::MAX, u32::MAX), (start, start + u32::MAX as u64 * 86_400_000));
    assert_eq!(collateral_worth(&"840000:1".to_string(), 7), Some(700));
    assert_eq!(collateral_worth(&"840000:1".to_string(), u64::MAX), None);
}

#[test]
fn lender_offers_listed_once_each() {
    let mut st = LendingState::new();
    st.record_offer(offer("b1", 100, "840000:1"), s(ALICE), s("o1"));
    st.record_offer(offer("b1", 150, "840000:1"), s(ALICE), s("o1"));
    st.record_offer(offer("b1", 200, "840000:1"), s(ALICE), s("o2"));
    st.record_offer(offer("b1", 300, "840000:1"), s(BOB), s("o3"));
    let alice = st.get_loan_offers(Some(s(ALICE)));
    assert_eq!(alice.iter().map(|o| o.id.clone()).collect::<Vec<_>>(), vec![s("o1"), s("o2")]);
    assert_eq!(alice[0].collateral_amt, 150);
    assert!(alice.iter().all(|o| o.lender == ALICE));
    let bob = st.get_loan_offers(Some(s(BOB)));
    assert_eq!(bob.len(), 1);
    assert_eq!(bob[0].lender, BOB);
}

#[test]
fn liquidation_passes_over_settled_and_missing_loans() {
    let mut st = LendingState::new();
    st.record_bundle(blank_bundle(5000), s(ALICE), s("b1"), s("a"), s("t"));
    st.record_collateral(blank_collateral(500, "840000:1"), s(BOB), s("c1"), s("ca"), s("ct"));
    st.record_bundle(blank_bundle(5000), s(ALICE), s("b2"), s("a"), s("t"));
    st.record_collateral(blank_collateral(500, "840000:1"), s(BOB), s("c2"), s("ca"), s("ct"));
    st.record_loan(loan("l1", "b1", "c1", BOB, 1_000));
    st.record_loan(loan("l2", "b2", "c2", BOB, 1_000));
    st.mark_paid(&s("l2"), s("pay"));
    let due = st.take_expired(1_000);
    assert_eq!(due.len(), 2);
    let (l, b, c) = st.liquidation_of(&due[0]).unwrap();
    assert_eq!((l.id.as_str(), b.id.as_str(), c.id.as_str()), ("l1", "b1", "c1"));
    assert!(st.liquidation_of(&due[1]).is_none());
    assert!(st.liquidation_of(&ExpiryResource { expiration: 1, data: None }).is_none());
    assert!(st.liquidation_of(&ExpiryResource { expiration: 1, data: Some(s("nope")) }).is_none());
    st.apply_default(&s("l1"), &s("c1"), &s("b1"), s("rune"));
    assert!(st.liquidation_of(&due[0]).is_none());
}
