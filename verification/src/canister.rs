use vstd::prelude::*;
use vstd::hash_map::StringHashMap;
use vstd::hash_set::StringHashSet;
use crate::expiry::ExpiryResource;
use crate::redblack::{keys_above, keys_at_most, inserted, law_insert_keeps_items, law_remove_takes_due_items, RedBlackTree, SortKey};
use crate::btc::{decipher_runestone, deserialize_transaction_hex, hex_decodes_as_transaction, hex_transaction, runestone_of, EdictData, RuneArtifact};
use crate::codec::hex_lower;
use crate::types::{
    rune_id_text, Bundle, Collateral, LoanOffer, LoanRequest, LoanStatus, LoanTransaction,
    OutpointData, UtxoData,
};

verus! {

/// Whether the text `id` is one of `ids`.
pub open spec fn has_id(ids: Seq<String>, id: Seq<char>) -> bool {
    exists|i: int| 0 <= i < ids.len() && ids[i]@ == id
}

/// No text occurs twice in `ids`.
pub open spec fn distinct_ids(ids: Seq<String>) -> bool {
    forall|i: int, j: int| 0 <= i < j < ids.len() ==> ids[i]@ != ids[j]@
}

/// The ids recorded for `owner` in an index from principals to ids; none where the index
/// has no entry.
pub open spec fn ids_of(index: Map<Seq<char>, Vec<String>>, owner: Seq<char>) -> Seq<String> {
    if index.contains_key(owner) {
        index[owner]@
    } else {
        Seq::empty()
    }
}

/// No owner in the index has an id listed twice.
pub open spec fn index_distinct(index: Map<Seq<char>, Vec<String>>) -> bool {
    forall|p: Seq<char>| #[trigger] distinct_ids(ids_of(index, p))
}

/// Copies a list of texts.
fn copy_ids(v: &Vec<String>) -> (r: Vec<String>)
    ensures
        r@ == v@,
{
    let mut r: Vec<String> = Vec::new();
    let mut i: usize = 0;
    while i < v.len()
        invariant
            i <= v@.len(),
            r@ == v@.take(i as int),
        decreases v@.len() - i,
    {
        r.push(v[i].clone());
        i = i + 1;
        assert(r@ =~= v@.take(i as int));
    }
    assert(v@.take(i as int) =~= v@);
    r
}

/// Whether `id` is in `v`.
fn contains_id(v: &Vec<String>, id: &String) -> (b: bool)
    ensures
        b == has_id(v@, id@),
{
    let mut i: usize = 0;
    while i < v.len()
        invariant
            i <= v@.len(),
            forall|j: int| 0 <= j < i ==> v@[j]@ != id@,
        decreases v@.len() - i,
    {
        if v[i] == *id {
            return true;
        }
        i = i + 1;
    }
    false
}

/// Records `id` under `owner`, as a set does: nothing changes where it is there already.
fn add_id(index: &mut StringHashMap<Vec<String>>, owner: &String, id: String)
    ensures
        forall|k: Seq<char>| k != owner@ ==> ids_of(final(index)@, k) == ids_of(old(index)@, k),
        has_id(ids_of(old(index)@, owner@), id@) ==> ids_of(final(index)@, owner@) == ids_of(
            old(index)@,
            owner@,
        ),
        !has_id(ids_of(old(index)@, owner@), id@) ==> ids_of(final(index)@, owner@) == ids_of(
            old(index)@,
            owner@,
        ).push(id),
        final(index)@.dom() == old(index)@.dom().insert(owner@),
        index_distinct(old(index)@) ==> index_distinct(final(index)@),
{
        let ghost before = ids_of(index@, owner@);
    let mut list = match index.get(owner.as_str()) {
        Some(v) => copy_ids(v),
        None => Vec::new(),
    };
    if !contains_id(&list, &id) {
        list.push(id);
    }
    let ghost after = list@;
    index.insert(owner.clone(), list);
    proof {
        if index_distinct(old(index)@) {
            assert(distinct_ids(before));
            assert forall|p: Seq<char>| #[trigger] distinct_ids(ids_of(index@, p)) by {
                if p == owner@ {
                    assert(ids_of(index@, p) == after);
                    assert forall|i: int, j: int| 0 <= i < j < after.len() implies after[i]@ != after[j]@ by {
                        if j == before.len() {
                            assert(after[i] == before[i]);
                        } else {
                            assert(after[i] == before[i] && after[j] == before[j]);
                        }
                    }
                } else {
                    assert(ids_of(index@, p) == ids_of(old(index)@, p));
                }
            }
        }
    }
}

/// The canister's records: offers, bundles, collaterals and loans, who owns them, and the
/// loans ordered by when they expire.
pub struct LendingState {
    lender_offer: StringHashMap<Vec<String>>,
    loan_offer: StringHashMap<LoanOffer>,
    offer_ids: Vec<String>,
    bundles: StringHashMap<Bundle>,
    collaterals: StringHashMap<Collateral>,
    lender_bundle: StringHashMap<Vec<String>>,
    borrower_collaterals: StringHashMap<Vec<String>>,
    loan_transactions: StringHashMap<LoanTransaction>,
    borrower_loan_transactions: StringHashMap<Vec<String>>,
    sorted_data: RedBlackTree<ExpiryResource<String>>,
}

impl LendingState {
    /// The records agree: every offer id is listed once, the list and the offers hold the
    /// same ids, every id a lender is credited with is an offer, every offer is credited to
    /// its lender, and no owner is credited with an id twice.
    pub closed spec fn wf(&self) -> bool {
        &&& distinct_ids(self.offer_ids@)
        &&& forall|k: Seq<char>| #[trigger]
            self.loan_offer@.contains_key(k) ==> has_id(ids_of(self.lender_offer@, self.loan_offer@[k].lender@), k)
        &&& index_distinct(self.lender_offer@)
        &&& index_distinct(self.lender_bundle@)
        &&& index_distinct(self.borrower_collaterals@)
        &&& index_distinct(self.borrower_loan_transactions@)
        &&& forall|k: Seq<char>| #[trigger]
            self.loan_offer@.contains_key(k) <==> has_id(self.offer_ids@, k)
        &&& forall|l: Seq<char>, i: int|
            0 <= i < ids_of(self.lender_offer@, l).len() ==> #[trigger] self.loan_offer@.contains_key(
                ids_of(self.lender_offer@, l)[i]@,
            )
    }

    /// The offers, by id.
    pub closed spec fn offers(&self) -> Map<Seq<char>, LoanOffer> {
        self.loan_offer@
    }

    /// Every offer id once, in the order the offers were made.
    pub closed spec fn offer_order(&self) -> Seq<String> {
        self.offer_ids@
    }

    /// The ids of the offers a lender made.
    pub closed spec fn offers_of(&self, lender: Seq<char>) -> Seq<String> {
        ids_of(self.lender_offer@, lender)
    }

    /// The bundles, by id.
    pub closed spec fn bundles(&self) -> Map<Seq<char>, Bundle> {
        self.bundles@
    }

    /// The ids of the bundles a lender made.
    pub closed spec fn bundles_of(&self, lender: Seq<char>) -> Seq<String> {
        ids_of(self.lender_bundle@, lender)
    }

    /// The collaterals, by id.
    pub closed spec fn collaterals(&self) -> Map<Seq<char>, Collateral> {
        self.collaterals@
    }

    /// The ids of the collaterals a borrower deposited.
    pub closed spec fn collaterals_of(&self, borrower: Seq<char>) -> Seq<String> {
        ids_of(self.borrower_collaterals@, borrower)
    }

    /// The loans, by id.
    pub closed spec fn loans(&self) -> Map<Seq<char>, LoanTransaction> {
        self.loan_transactions@
    }

    /// The ids of the loans a borrower took.
    pub closed spec fn loans_of(&self, borrower: Seq<char>) -> Seq<String> {
        ids_of(self.borrower_loan_transactions@, borrower)
    }

    /// The loans' expiry records, in increasing order of expiry.
    pub closed spec fn expiries(&self) -> Seq<ExpiryResource<String>> {
        self.sorted_data@
    }

    /// How many expiry records were added and not yet taken out.
    pub closed spec fn expiry_count(&self) -> usize {
        self.sorted_data.size_spec()
    }

    /// A state with no records.
    pub fn new() -> (s: Self)
        ensures
            s.wf(),
            s.offers().is_empty(),
            s.offer_order().len() == 0,
            s.bundles().is_empty(),
            s.collaterals().is_empty(),
            s.loans().is_empty(),
            s.expiries().len() == 0,
            s.expiry_count() == 0,
            forall|p: Seq<char>| #[trigger] s.offers_of(p).len() == 0 && s.bundles_of(p).len()
                == 0 && s.collaterals_of(p).len() == 0 && s.loans_of(p).len() == 0,
            offers_owned(&s),
    {
        LendingState {
            lender_offer: StringHashMap::new(),
            loan_offer: StringHashMap::new(),
            offer_ids: Vec::new(),
            bundles: StringHashMap::new(),
            collaterals: StringHashMap::new(),
            lender_bundle: StringHashMap::new(),
            borrower_collaterals: StringHashMap::new(),
            loan_transactions: StringHashMap::new(),
            borrower_loan_transactions: StringHashMap::new(),
            sorted_data: RedBlackTree::new(),
        }
    }
}

/// What `get_loan_offers` returns for the ids `ids`: the offer of each id, in order.
pub open spec fn offers_for(offers: Map<Seq<char>, LoanOffer>, ids: Seq<String>, r: Seq<LoanOffer>) -> bool {
    &&& r.len() == ids.len()
    &&& forall|i: int| 0 <= i < ids.len() ==> #[trigger] r[i] == offers[ids[i]@]
}

/// The message of a refused request to use a bundle for an offer, or `None` where it may.
pub open spec fn offer_bundle_refusal(bundles: Map<Seq<char>, Bundle>, bundle_id: Seq<char>, caller: Seq<char>) -> Option<Seq<char>> {
    if !bundles.contains_key(bundle_id) {
        Some("Collateral not found"@)
    } else if bundles[bundle_id].lender@ != caller {
        Some("You are not owner of the collateral bundle"@)
    } else if bundles[bundle_id].loan_trx is Some {
        Some("This Liquidity Bundle is in use."@)
    } else {
        None
    }
}

impl LendingState {
    /// The collateral of id `id`, if there is one.
    pub fn get_colateral(&self, id: &String) -> (r: Option<Collateral>)
        ensures
            r == (if self.collaterals().contains_key(id@) {
                Some(self.collaterals()[id@])
            } else {
                None
            }),
    {
        match self.collaterals.get(id.as_str()) {
            Some(c) => Some(c.clone()),
            None => None,
        }
    }

    /// The bundle of id `id`, if there is one.
    pub fn get_bundle(&self, id: &String) -> (r: Option<Bundle>)
        ensures
            r == (if self.bundles().contains_key(id@) {
                Some(self.bundles()[id@])
            } else {
                None
            }),
    {
        match self.bundles.get(id.as_str()) {
            Some(b) => Some(b.clone()),
            None => None,
        }
    }

    /// The loan of id `id`, if there is one.
    pub fn get_loan_transaction(&self, id: &String) -> (r: Option<LoanTransaction>)
        ensures
            r == (if self.loans().contains_key(id@) {
                Some(self.loans()[id@])
            } else {
                None
            }),
    {
        match self.loan_transactions.get(id.as_str()) {
            Some(t) => Some(t.clone()),
            None => None,
        }
    }

    /// Every offer, in the order they were made, or only those of `lender`, in the order
    /// that lender made them.
    pub fn get_loan_offers(&self, lender: Option<String>) -> (r: Vec<LoanOffer>)
        requires
            self.wf(),
        ensures
            lender is None ==> offers_for(self.offers(), self.offer_order(), r@),
            lender matches Some(l) ==> offers_for(self.offers(), self.offers_of(l@), r@),
            lender is Some && offers_owned(self) ==> forall|i: int|
                0 <= i < r@.len() ==> #[trigger] r@[i].lender@ == lender.unwrap()@,
    {
        let ids: Vec<String> = match &lender {
            None => copy_ids(&self.offer_ids),
            Some(l) => match self.lender_offer.get(l.as_str()) {
                Some(v) => copy_ids(v),
                None => Vec::new(),
            },
        };
        let ghost g = ids@;
        assert(forall|i: int| 0 <= i < g.len() ==> #[trigger] self.loan_offer@.contains_key(g[i]@))
            by {
            match &lender {
                None => {
                    assert forall|i: int| 0 <= i < g.len() implies #[trigger] self.loan_offer@.contains_key(g[i]@) by {
                        assert(has_id(self.offer_ids@, g[i]@));
                    }
                },
                Some(l) => {
                    assert(g == ids_of(self.lender_offer@, l@));
                },
            }
        }
        let mut r: Vec<LoanOffer> = Vec::new();
        let mut i: usize = 0;
        while i < ids.len()
            invariant
                i <= ids@.len(),
                ids@ == g,
                forall|j: int| 0 <= j < g.len() ==> #[trigger] self.loan_offer@.contains_key(g[j]@),
                r@.len() == i,
                forall|j: int| 0 <= j < i ==> #[trigger] r@[j] == self.loan_offer@[g[j]@],
            decreases ids@.len() - i,
        {
            assert(self.loan_offer@.contains_key(g[i as int]@));
            let o = self.loan_offer.get(ids[i].as_str()).unwrap().clone();
            r.push(o);
            i = i + 1;
        }
        r
    }

    /// Whether `caller` may make an offer backed by the bundle `bundle_id`: the bundle must
    /// exist, be the caller's and be free.
    pub fn check_offer_bundle(&self, bundle_id: &String, caller: &String) -> (r: Result<(), String>)
        ensures
            match offer_bundle_refusal(self.bundles(), bundle_id@, caller@) {
                Some(m) => r matches Err(e) && e@ == m,
                None => r is Ok,
            },
    {
        match self.bundles.get(bundle_id.as_str()) {
            None => Err("Collateral not found".to_string()),
            Some(bundle) => {
                if *caller != bundle.lender {
                    return Err("You are not owner of the collateral bundle".to_string());
                }
                if bundle.loan_trx.is_some() {
                    return Err("This Liquidity Bundle is in use.".to_string());
                }
                Ok(())
            },
        }
    }

    /// Records `offer` as made by `caller` under the id `loan_id`.
    pub fn record_offer(&mut self, offer: LoanOffer, caller: String, loan_id: String)
        requires
            old(self).wf(),
        ensures
            final(self).wf(),
            final(self).offers() == old(self).offers().insert(
                loan_id@,
                LoanOffer { id: loan_id, lender: caller, ..offer },
            ),
            has_id(old(self).offer_order(), loan_id@) ==> final(self).offer_order() == old(self).offer_order(),
            !has_id(old(self).offer_order(), loan_id@) ==> final(self).offer_order() == old(self).offer_order().push(loan_id),
            final(self).offers_of(caller@) == with_id(old(self).offers_of(caller@), loan_id),
            forall|p: Seq<char>| p != caller@ ==> #[trigger] final(self).offers_of(p) == old(self).offers_of(p),
            final(self).bundles() == old(self).bundles(),
            final(self).collaterals() == old(self).collaterals(),
            final(self).loans() == old(self).loans(),
            final(self).expiries() == old(self).expiries(),
            final(self).expiry_count() == old(self).expiry_count(),
            forall|p: Seq<char>| #[trigger] final(self).bundles_of(p) == old(self).bundles_of(p),
            forall|p: Seq<char>| #[trigger] final(self).collaterals_of(p) == old(self).collaterals_of(p),
            forall|p: Seq<char>| #[trigger] final(self).loans_of(p) == old(self).loans_of(p),
            offers_owned(&*old(self)) && (!old(self).offers().contains_key(loan_id@) || old(
                self,
            ).offers()[loan_id@].lender@ == caller@) ==> offers_owned(&*final(self)),
    {
        let ghost lid = loan_id@;
        let ghost old_state = *self;
        let mut offer = offer;
        offer.lender = caller.clone();
        offer.id = loan_id.clone();
        let known = self.loan_offer.contains_key(loan_id.as_str());
        let ghost old_ids = self.offer_ids@;
        if !known {
            assert(!has_id(old_ids, lid));
            self.offer_ids.push(loan_id.clone());
            proof {
                let n = self.offer_ids@;
                assert(n[n.len() - 1]@ == lid);
                assert forall|i: int, j: int| 0 <= i < j < n.len() implies n[i]@ != n[j]@ by {
                    if j == n.len() - 1 {
                        assert(n[i] == old_ids[i]);
                    } else {
                        assert(n[i] == old_ids[i] && n[j] == old_ids[j]);
                    }
                }
                assert forall|k: Seq<char>| has_id(n, k) <==> (has_id(old_ids, k) || k == lid) by {
                    if has_id(n, k) {
                        let i = choose|i: int| 0 <= i < n.len() && n[i]@ == k;
                        if i < old_ids.len() {
                            assert(n[i] == old_ids[i]);
                        }
                    }
                    if has_id(old_ids, k) {
                        let i = choose|i: int| 0 <= i < old_ids.len() && old_ids[i]@ == k;
                        assert(n[i] == old_ids[i]);
                    }
                }
            }
        }
        self.loan_offer.insert(loan_id.clone(), offer);
        add_id(&mut self.lender_offer, &caller, loan_id);
        proof {
            let ol = ids_of(old_state.lender_offer@, caller@);
            let nl = ids_of(self.lender_offer@, caller@);
            if !has_id(ol, lid) {
                assert(nl[nl.len() - 1]@ == lid);
            }
            assert(has_id(nl, lid));
            assert forall|k: Seq<char>| #[trigger] self.loan_offer@.contains_key(k) implies has_id(
                ids_of(self.lender_offer@, self.loan_offer@[k].lender@),
                k,
            ) by {
                if k != lid {
                    let l = old_state.loan_offer@[k].lender@;
                    assert(self.loan_offer@[k] == old_state.loan_offer@[k]);
                    assert(has_id(ids_of(old_state.lender_offer@, l), k));
                    if l == caller@ {
                        let i = choose|i: int| 0 <= i < ol.len() && ol[i]@ == k;
                        assert(nl[i] == ol[i]);
                    }
                }
            }
            if offers_owned(&old_state) && (!old_state.offers().contains_key(lid)
                || old_state.offers()[lid].lender@ == caller@) {
                assert forall|l: Seq<char>, i: int|
                    0 <= i < self.offers_of(l).len() implies #[trigger] self.offers()[self.offers_of(
                        l,
                    )[i]@].lender@ == l by {
                    let id = self.offers_of(l)[i]@;
                    if l != caller@ {
                        assert(self.offers_of(l) == old_state.offers_of(l));
                        assert(old_state.loan_offer@.contains_key(ids_of(old_state.lender_offer@, l)[i]@));
                        assert(old_state.offers()[old_state.offers_of(l)[i]@].lender@ == l);
                    } else if i < ol.len() {
                        assert(nl[i] == ol[i]);
                        assert(old_state.offers()[old_state.offers_of(l)[i]@].lender@ == l);
                    }
                }
            }
            assert forall|k: Seq<char>| #[trigger] self.loan_offer@.contains_key(k) <==> has_id(self.offer_ids@, k) by {
                if known {
                    assert(old_state.loan_offer@.contains_key(lid));
                }
            }
            assert forall|l: Seq<char>, i: int|
                0 <= i < ids_of(self.lender_offer@, l).len() implies #[trigger] self.loan_offer@.contains_key(
                    ids_of(self.lender_offer@, l)[i]@) by {
                if l != caller@ {
                    assert(ids_of(self.lender_offer@, l) == ids_of(old_state.lender_offer@, l));
                    assert(old_state.loan_offer@.contains_key(ids_of(old_state.lender_offer@, l)[i]@));
                } else if has_id(ol, lid) {
                    assert(old_state.loan_offer@.contains_key(ol[i]@));
                } else if i < ol.len() {
                    assert(nl[i] == ol[i]);
                    assert(old_state.loan_offer@.contains_key(ol[i]@));
                }
            }
        }
    }
}

/// The offers and who made them are the same in `a` and `b`.
pub open spec fn same_offers(a: &LendingState, b: &LendingState) -> bool {
    &&& a.offers() == b.offers()
    &&& a.offer_order() == b.offer_order()
    &&& forall|p: Seq<char>| #[trigger] a.offers_of(p) == b.offers_of(p)
}

/// Every offer credited to a lender was made by that lender. Recording an offer under an
/// id that another lender's offer already has leaves that id credited to both, so this
/// holds as long as no offer id is reused by a different lender.
pub open spec fn offers_owned(state: &LendingState) -> bool {
    forall|l: Seq<char>, i: int|
        0 <= i < state.offers_of(l).len() ==> #[trigger] state.offers()[state.offers_of(l)[i]@].lender@
            == l
}

/// What liquidating the loan of an expired record uses, where anything: see
/// `LendingState::liquidation_of`.
pub open spec fn liquidation_outcome(
    state: &LendingState,
    resource: ExpiryResource<String>,
) -> Option<(LoanTransaction, Bundle, Collateral)> {
    match resource.data {
        None => None,
        Some(id) => if !state.loans().contains_key(id@) || !is_pending(state.loans()[id@].loan_status) {
            None
        } else {
            let loan = state.loans()[id@];
            if !state.bundles().contains_key(loan.bundle_id@) {
                None
            } else if !state.collaterals().contains_key(loan.collateral_id@) {
                None
            } else {
                Some((loan, state.bundles()[loan.bundle_id@], state.collaterals()[loan.collateral_id@]))
            }
        },
    }
}

/// The bundles and who made them are the same in `a` and `b`.
pub open spec fn same_bundles(a: &LendingState, b: &LendingState) -> bool {
    &&& a.bundles() == b.bundles()
    &&& forall|p: Seq<char>| #[trigger] a.bundles_of(p) == b.bundles_of(p)
}

/// The collaterals and who deposited them are the same in `a` and `b`.
pub open spec fn same_collaterals(a: &LendingState, b: &LendingState) -> bool {
    &&& a.collaterals() == b.collaterals()
    &&& forall|p: Seq<char>| #[trigger] a.collaterals_of(p) == b.collaterals_of(p)
}

/// The loans, who took them and their expiry records are the same in `a` and `b`.
pub open spec fn same_loans(a: &LendingState, b: &LendingState) -> bool {
    &&& a.loans() == b.loans()
    &&& forall|p: Seq<char>| #[trigger] a.loans_of(p) == b.loans_of(p)
    &&& a.expiries() == b.expiries()
    &&& a.expiry_count() == b.expiry_count()
}

/// An id list after recording `id` in it, as a set does.
pub open spec fn with_id(ids: Seq<String>, id: String) -> Seq<String> {
    if has_id(ids, id@) {
        ids
    } else {
        ids.push(id)
    }
}

/// Whether a lender whose address holds `balance` satoshis can fund a bundle of `amount`.
pub fn check_bundle_funds(amount: u64, balance: u64) -> (r: Result<(), String>)
    ensures
        amount > balance ==> (r matches Err(m) && m@ == "Insufficient Fund"@),
        amount <= balance ==> r is Ok,
{
    if amount > balance {
        return Err("Insufficient Fund".to_string());
    }
    Ok(())
}

/// Whether the runes found, `total_value`, cover a collateral of `amount`.
pub fn check_collateral_funds(amount: u64, total_value: u64) -> (r: Result<(), String>)
    ensures
        amount > total_value ==> (r matches Err(m) && m@ == "Insufficient Funds"@),
        amount <= total_value ==> r is Ok,
{
    if amount > total_value {
        return Err("Insufficient Funds".to_string());
    }
    Ok(())
}

impl LendingState {
    /// Records a funded bundle of `caller` under `bundle_id`, at `address`, funded by the
    /// transaction `txn_id`; it is free. Returns the bundle's id and the transaction's.
    pub fn record_bundle(
        &mut self,
        bundle: Bundle,
        caller: String,
        bundle_id: String,
        address: String,
        txn_id: String,
    ) -> (r: (String, String))
        requires
            old(self).wf(),
        ensures
            final(self).wf(),
            r == (bundle_id, txn_id),
            final(self).bundles() == old(self).bundles().insert(
                bundle_id@,
                Bundle {
                    id: bundle_id,
                    lender: caller,
                    amount: bundle.amount,
                    txn_id: txn_id,
                    loan_trx: None,
                    address: address,
                },
            ),
            final(self).bundles_of(caller@) == with_id(old(self).bundles_of(caller@), bundle_id),
            forall|p: Seq<char>| p != caller@ ==> #[trigger] final(self).bundles_of(p) == old(self).bundles_of(p),
            same_offers(&*final(self), &*old(self)),
            same_collaterals(&*final(self), &*old(self)),
            same_loans(&*final(self), &*old(self)),
    {
        let b = Bundle {
            id: bundle_id.clone(),
            lender: caller.clone(),
            amount: bundle.amount,
            txn_id: txn_id.clone(),
            loan_trx: None,
            address,
        };
        self.bundles.insert(bundle_id.clone(), b);
        add_id(&mut self.lender_bundle, &caller, bundle_id.clone());
        (bundle_id, txn_id)
    }

    /// Records deposited runes of `caller` under `collateral_id`, at `address`, moved there
    /// by the transaction `txn_id`; the collateral is free. Returns the collateral's id and
    /// the transaction's.
    pub fn record_collateral(
        &mut self,
        collateral: Collateral,
        caller: String,
        collateral_id: String,
        address: String,
        txn_id: String,
    ) -> (r: (String, String))
        requires
            old(self).wf(),
        ensures
            final(self).wf(),
            r == (collateral_id, txn_id),
            final(self).collaterals() == old(self).collaterals().insert(
                collateral_id@,
                Collateral {
                    id: collateral_id,
                    owner: caller,
                    txn_id: txn_id,
                    loan_trx: None,
                    address: address,
                    ..collateral
                },
            ),
            final(self).collaterals_of(caller@) == with_id(old(self).collaterals_of(caller@), collateral_id),
            forall|p: Seq<char>| p != caller@ ==> #[trigger] final(self).collaterals_of(p) == old(self).collaterals_of(p),
            same_offers(&*final(self), &*old(self)),
            same_bundles(&*final(self), &*old(self)),
            same_loans(&*final(self), &*old(self)),
    {
        let mut c = collateral;
        c.owner = caller.clone();
        c.id = collateral_id.clone();
        c.loan_trx = None;
        c.txn_id = txn_id.clone();
        c.address = address;
        self.collaterals.insert(collateral_id.clone(), c);
        add_id(&mut self.borrower_collaterals, &caller, collateral_id.clone());
        (collateral_id, txn_id)
    }
}

/// The loan status a new loan starts in.
pub open spec fn is_pending(s: LoanStatus) -> bool {
    s matches LoanStatus::PENDING
}

/// What checking a loan request of `caller` decides: the offer, bundle and collateral it
/// uses, or the message of the first check that fails.
pub open spec fn loan_request_outcome(
    state: &LendingState,
    request: &LoanRequest,
    caller: Seq<char>,
) -> Result<(LoanOffer, Bundle, Collateral), Seq<char>> {
    let cid = request.collateral_id@;
    let oid = request.offer_id@;
    if !state.collaterals().contains_key(cid) {
        Err("Collateral not found"@)
    } else if caller != state.collaterals()[cid].owner@ {
        Err("You are not authorized to used this collateral"@)
    } else if state.collaterals()[cid].loan_trx is Some {
        Err("This collateral is in use"@)
    } else if !state.offers().contains_key(oid) {
        Err("Offer doesn't exixst"@)
    } else if state.offers()[oid].rune_id@ != state.collaterals()[cid].rune_id@ {
        Err("Your collateral rune is not same with rune required for offer"@)
    } else if state.offers()[oid].collateral_amt > state.collaterals()[cid].amount {
        Err("Your collateral amount is less than required for this offer"@)
    } else if !state.bundles().contains_key(state.offers()[oid].liquidity_bundle_id@) {
        Err("Bundle not found"@)
    } else if state.bundles()[state.offers()[oid].liquidity_bundle_id@].loan_trx is Some {
        Err("Liquidity Bundle is in use"@)
    } else {
        Ok(
            (
                state.offers()[oid],
                state.bundles()[state.offers()[oid].liquidity_bundle_id@],
                state.collaterals()[cid],
            ),
        )
    }
}

/// What checking a repayment of the loan `loan_id` by `caller` decides.
pub open spec fn repayment_outcome(
    state: &LendingState,
    loan_id: Seq<char>,
    caller: Seq<char>,
) -> Result<(LoanTransaction, Bundle, Collateral), Seq<char>> {
    if !state.loans().contains_key(loan_id) {
        Err("Transaction not found"@)
    } else if caller != state.loans()[loan_id].owner@ {
        Err("You are not authorized"@)
    } else if !state.bundles().contains_key(state.loans()[loan_id].bundle_id@)
        || !state.collaterals().contains_key(state.loans()[loan_id].collateral_id@) {
        Err("Bundle/Collateral not Found"@)
    } else {
        Ok(
            (
                state.loans()[loan_id],
                state.bundles()[state.loans()[loan_id].bundle_id@],
                state.collaterals()[state.loans()[loan_id].collateral_id@],
            ),
        )
    }
}

/// Milliseconds in `nanoseconds`, rounded down.
pub fn nanoseconds_to_milliseconds(nanoseconds: u64) -> (ms: u64)
    ensures
        ms == nanoseconds / 1_000_000,
{
    nanoseconds / 1_000_000
}

/// Milliseconds in `days` days.
pub fn days_to_milliseconds(days: u64) -> (ms: u64)
    requires
        days * 86_400_000 <= u64::MAX,
    ensures
        ms == days * 86_400_000,
{
    let millis_per_day: u64 = 24 * 60 * 60 * 1000;
    days * millis_per_day
}

/// The price of one unit of a rune, in satoshis: a fixed 100 for every rune.
pub fn get_rune_unit_price(rune_id: &String) -> (price: u64)
    ensures
        price == 100,
{
    100
}

/// When a loan made at `now_ns` nanoseconds for `term` days starts and expires, in
/// milliseconds.
pub fn loan_period(now_ns: u64, term: u32) -> (r: (u64, u64))
    ensures
        r.0 == now_ns / 1_000_000,
        r.1 == now_ns / 1_000_000 + term * 86_400_000,
{
    let created = nanoseconds_to_milliseconds(now_ns);
    assert(term * 86_400_000 <= u32::MAX * 86_400_000) by (nonlinear_arith)
        requires
            term <= u32::MAX,
    ;
    let span = days_to_milliseconds(term as u64);
    (created, created + span)
}

/// What `amount` runes of `rune_id` are worth in satoshis at the unit price; `None` where
/// that does not fit in `u64`.
pub fn collateral_worth(rune_id: &String, amount: u64) -> (r: Option<u64>)
    ensures
        100 * amount <= u64::MAX ==> r == Some((100 * amount) as u64),
        100 * amount > u64::MAX ==> r is None,
{
    get_rune_unit_price(rune_id).checked_mul(amount)
}

/// A greeting.
pub fn greet(name: &String) -> (g: String)
    ensures
        g@ == "Hello, "@ + name@ + "!"@,
{
    let mut g = "Hello, ".to_string();
    g.append(name.as_str());
    g.append("!");
    g
}

impl LendingState {
    /// Checks a loan request of `caller`: the collateral must exist, be the caller's and be
    /// free; the offer must exist, ask for the collateral's rune and no more of it than the
    /// collateral holds; the offer's bundle must exist and be free.
    pub fn check_loan_request(&self, request: &LoanRequest, caller: &String) -> (r: Result<
        (LoanOffer, Bundle, Collateral),
        String,
    >)
        ensures
            match loan_request_outcome(self, request, caller@) {
                Ok(t) => r == Ok::<(LoanOffer, Bundle, Collateral), String>(t),
                Err(m) => r matches Err(e) && e@ == m,
            },
    {
        let collateral = match self.collaterals.get(request.collateral_id.as_str()) {
            None => {
                return Err("Collateral not found".to_string());
            },
            Some(c) => c,
        };
        if *caller != collateral.owner {
            return Err("You are not authorized to used this collateral".to_string());
        }
        if collateral.loan_trx.is_some() {
            return Err("This collateral is in use".to_string());
        }
        let offer = match self.loan_offer.get(request.offer_id.as_str()) {
            None => {
                return Err("Offer doesn't exixst".to_string());
            },
            Some(o) => o,
        };
        if offer.rune_id != collateral.rune_id {
            return Err("Your collateral rune is not same with rune required for offer".to_string());
        }
        if offer.collateral_amt > collateral.amount {
            return Err("Your collateral amount is less than required for this offer".to_string());
        }
        let bundle = match self.bundles.get(offer.liquidity_bundle_id.as_str()) {
            None => {
                return Err("Bundle not found".to_string());
            },
            Some(b) => b,
        };
        if bundle.loan_trx.is_some() {
            return Err("Liquidity Bundle is in use".to_string());
        }
        Ok((offer.clone(), bundle.clone(), collateral.clone()))
    }

    /// Records the loan `loan`: its collateral and bundle are marked in use by it, it is
    /// credited to its owner, and its expiry is recorded.
    pub fn record_loan(&mut self, loan: LoanTransaction)
        requires
            old(self).wf(),
            old(self).collaterals().contains_key(loan.collateral_id@),
            old(self).bundles().contains_key(loan.bundle_id@),
            old(self).expiry_count() < usize::MAX,
        ensures
            final(self).wf(),
            final(self).collaterals() == old(self).collaterals().insert(
                loan.collateral_id@,
                Collateral { loan_trx: Some(loan.id), ..old(self).collaterals()[loan.collateral_id@] },
            ),
            final(self).bundles() == old(self).bundles().insert(
                loan.bundle_id@,
                Bundle { loan_trx: Some(loan.id), ..old(self).bundles()[loan.bundle_id@] },
            ),
            final(self).loans() == old(self).loans().insert(loan.id@, loan),
            final(self).loans_of(loan.owner@) == with_id(old(self).loans_of(loan.owner@), loan.id),
            forall|p: Seq<char>| p != loan.owner@ ==> #[trigger] final(self).loans_of(p) == old(self).loans_of(p),
            final(self).expiries() == inserted(
                old(self).expiries(),
                ExpiryResource { expiration: loan.expires_at, data: Some(loan.id) },
            ),
            final(self).expiry_count() == old(self).expiry_count() + 1,
            final(self).expiries().contains(
                ExpiryResource { expiration: loan.expires_at, data: Some(loan.id) },
            ),
            forall|x: ExpiryResource<String>| #[trigger]
                old(self).expiries().contains(x) ==> final(self).expiries().contains(x),
            same_offers(&*final(self), &*old(self)),
            forall|p: Seq<char>| #[trigger] final(self).bundles_of(p) == old(self).bundles_of(p),
            forall|p: Seq<char>| #[trigger] final(self).collaterals_of(p) == old(self).collaterals_of(p),
    {
        let loan_id = loan.id.clone();
        let mut collateral = self.collaterals.get(loan.collateral_id.as_str()).unwrap().clone();
        collateral.loan_trx = Some(loan_id.clone());
        self.collaterals.insert(loan.collateral_id.clone(), collateral);
        let mut bundle = self.bundles.get(loan.bundle_id.as_str()).unwrap().clone();
        bundle.loan_trx = Some(loan_id.clone());
        self.bundles.insert(loan.bundle_id.clone(), bundle);
        let owner = loan.owner.clone();
        let expires_at = loan.expires_at;
        let ghost l = loan;
        self.loan_transactions.insert(loan_id.clone(), loan);
        add_id(&mut self.borrower_loan_transactions, &owner, loan_id.clone());
        let resource = ExpiryResource { expiration: expires_at, data: Some(loan_id) };
        let ghost rec = resource;
        let ghost e = self.sorted_data@;
        self.sorted_data.insert(resource);
        proof {
            assert forall|x: ExpiryResource<String>| #[trigger] e.contains(x) implies inserted(
                e,
                rec,
            ).contains(x) by {
                law_insert_keeps_items(e, rec, x);
            }
            law_insert_keeps_items(e, rec, rec);
        }
    }
}

impl LendingState {
    /// Takes out the expiry records of loans expired at `now_ms` (expiry at most `now_ms`),
    /// in increasing order of expiry: every such record is returned, records with equal
    /// expiry included, and every other record stays.
    pub fn take_expired(&mut self, now_ms: u64) -> (r: Vec<ExpiryResource<String>>)
        requires
            old(self).wf(),
        ensures
            final(self).wf(),
            r@ == keys_at_most(old(self).expiries(), now_ms),
            final(self).expiries() == keys_above(old(self).expiries(), now_ms),
            forall|x: ExpiryResource<String>| #[trigger]
                old(self).expiries().contains(x) ==> (if x.expiration <= now_ms {
                    r@.contains(x)
                } else {
                    final(self).expiries().contains(x)
                }),
            final(self).expiry_count() == old(self).expiry_count() - r@.len(),
            same_offers(&*final(self), &*old(self)),
            same_bundles(&*final(self), &*old(self)),
            same_collaterals(&*final(self), &*old(self)),
            final(self).loans() == old(self).loans(),
            forall|p: Seq<char>| #[trigger] final(self).loans_of(p) == old(self).loans_of(p),
    {
        let expiry = ExpiryResource { expiration: now_ms, data: None };
        let ghost e = self.sorted_data@;
        let r = self.sorted_data.remove_less_than_or_equal(&expiry);
        proof {
            assert forall|x: ExpiryResource<String>| #[trigger] e.contains(x) implies (if x.expiration
                <= now_ms {
                r@.contains(x)
            } else {
                keys_above(e, now_ms).contains(x)
            }) by {
                law_remove_takes_due_items(e, now_ms, x);
            }
        }
        r
    }

    /// The loan `loan_id` where it exists and is still pending.
    pub fn pending_loan(&self, loan_id: &String) -> (r: Option<LoanTransaction>)
        ensures
            r == (if self.loans().contains_key(loan_id@) && is_pending(self.loans()[loan_id@].loan_status) {
                Some(self.loans()[loan_id@])
            } else {
                None
            }),
    {
        match self.loan_transactions.get(loan_id.as_str()) {
            None => None,
            Some(t) => match t.loan_status {
                LoanStatus::PENDING => Some(t.clone()),
                _ => None,
            },
        }
    }

    /// What an expired record leads to: the loan it names, with its bundle and collateral,
    /// where the loan exists, is still pending, and its bundle and collateral are both
    /// recorded; `None` (the record is passed over) otherwise.
    pub fn liquidation_of(&self, resource: &ExpiryResource<String>) -> (r: Option<(LoanTransaction, Bundle, Collateral)>)
        ensures
            r == liquidation_outcome(self, *resource),
    {
        let loan_id = match &resource.data {
            Some(id) => id,
            None => {
                return None;
            },
        };
        let loan = match self.pending_loan(loan_id) {
            Some(l) => l,
            None => {
                return None;
            },
        };
        let bundle = match self.get_bundle(&loan.bundle_id) {
            Some(b) => b,
            None => {
                return None;
            },
        };
        let collateral = match self.get_colateral(&loan.collateral_id) {
            Some(c) => c,
            None => {
                return None;
            },
        };
        Some((loan, bundle, collateral))
    }

    /// Settles a defaulted loan: its collateral and bundle records are dropped and the loan
    /// is marked defaulted by the transaction `rune_txid` that moved the runes.
    pub fn apply_default(&mut self, loan_id: &String, collateral_id: &String, bundle_id: &String, rune_txid: String)
        requires
            old(self).wf(),
            old(self).loans().contains_key(loan_id@),
        ensures
            final(self).wf(),
            final(self).collaterals() == old(self).collaterals().remove(collateral_id@),
            final(self).bundles() == old(self).bundles().remove(bundle_id@),
            final(self).loans() == old(self).loans().insert(
                loan_id@,
                LoanTransaction {
                    loan_status: LoanStatus::DEFAULTED(rune_txid),
                    ..old(self).loans()[loan_id@]
                },
            ),
            same_offers(&*final(self), &*old(self)),
            forall|p: Seq<char>| #[trigger] final(self).bundles_of(p) == old(self).bundles_of(p),
            forall|p: Seq<char>| #[trigger] final(self).collaterals_of(p) == old(self).collaterals_of(p),
            forall|p: Seq<char>| #[trigger] final(self).loans_of(p) == old(self).loans_of(p),
            final(self).expiries() == old(self).expiries(),
            final(self).expiry_count() == old(self).expiry_count(),
    {
        self.collaterals.remove(collateral_id.as_str());
        self.bundles.remove(bundle_id.as_str());
        let mut t = self.loan_transactions.get(loan_id.as_str()).unwrap().clone();
        t.loan_status = LoanStatus::DEFAULTED(rune_txid);
        self.loan_transactions.insert(loan_id.clone(), t);
    }

    /// Checks a repayment of the loan `loan_id` by `caller`: the loan must exist and be the
    /// caller's, and its bundle and collateral must exist.
    pub fn check_repayment(&self, loan_id: &String, caller: &String) -> (r: Result<
        (LoanTransaction, Bundle, Collateral),
        String,
    >)
        ensures
            match repayment_outcome(self, loan_id@, caller@) {
                Ok(t) => r == Ok::<(LoanTransaction, Bundle, Collateral), String>(t),
                Err(m) => r matches Err(e) && e@ == m,
            },
    {
        let loan = match self.loan_transactions.get(loan_id.as_str()) {
            None => {
                return Err("Transaction not found".to_string());
            },
            Some(t) => t,
        };
        if *caller != loan.owner {
            return Err("You are not authorized".to_string());
        }
        let bundle = self.bundles.get(loan.bundle_id.as_str());
        let collateral = self.collaterals.get(loan.collateral_id.as_str());
        match (bundle, collateral) {
            (Some(b), Some(c)) => Ok((loan.clone(), b.clone(), c.clone())),
            _ => Err("Bundle/Collateral not Found".to_string()),
        }
    }

    /// Marks the loan `loan_id` paid back by the transaction `txid`.
    pub fn mark_paid(&mut self, loan_id: &String, txid: String)
        requires
            old(self).wf(),
            old(self).loans().contains_key(loan_id@),
        ensures
            final(self).wf(),
            final(self).loans() == old(self).loans().insert(
                loan_id@,
                LoanTransaction { loan_status: LoanStatus::PAID_BACK(txid), ..old(self).loans()[loan_id@] },
            ),
            same_offers(&*final(self), &*old(self)),
            same_bundles(&*final(self), &*old(self)),
            same_collaterals(&*final(self), &*old(self)),
            forall|p: Seq<char>| #[trigger] final(self).loans_of(p) == old(self).loans_of(p),
            final(self).expiries() == old(self).expiries(),
            final(self).expiry_count() == old(self).expiry_count(),
    {
        let mut t = self.loan_transactions.get(loan_id.as_str()).unwrap().clone();
        t.loan_status = LoanStatus::PAID_BACK(txid);
        self.loan_transactions.insert(loan_id.clone(), t);
    }
}

/// The runes of `rune_id` that the edicts send, each amount cut to its low 64 bits.
pub open spec fn scan_gain(edicts: Seq<EdictData>, rune_id: Seq<char>) -> nat
    decreases edicts.len(),
{
    if edicts.len() == 0 {
        0
    } else {
        scan_gain(edicts.drop_last(), rune_id) + if rune_id_text(edicts.last().id) == rune_id {
            edicts.last().amount as u64 as nat
        } else {
            0
        }
    }
}

/// What `absorb` adds for what deciphering a transaction found.
pub open spec fn artifact_gain(artifact: Option<RuneArtifact>, rune_id: Seq<char>) -> nat {
    match artifact {
        Some(RuneArtifact::Runestone(e)) => scan_gain(e@, rune_id),
        _ => 0,
    }
}

/// What the scan of unspent outputs does with the next one.
pub enum ScanStep {
    /// Go on with the next output.
    Skip,
    /// Stop scanning.
    Stop,
    /// Fetch the transaction of this id, decipher it and hand the result to `absorb`.
    Fetch(String),
}

/// The scan over a borrower's unspent outputs that counts the runes of a collateral:
/// once enough runes are found it keeps adding outputs' satoshis until it holds at least
/// 1000 (the dust minimum), and it reads each transaction once.
pub struct CollateralScan {
    pub total_value: u64,
    pub sat_amount: u64,
    pub checked: StringHashSet,
}

impl CollateralScan {
    /// The transactions already read.
    pub closed spec fn checked(&self) -> Set<Seq<char>> {
        self.checked@
    }

    /// A scan that has found nothing.
    pub fn new() -> (s: Self)
        ensures
            s.total_value == 0,
            s.sat_amount == 0,
            s.checked() == Set::<Seq<char>>::empty(),
    {
        CollateralScan { total_value: 0, sat_amount: 0, checked: StringHashSet::new() }
    }

    /// Decides what to do with the next unspent output when `required` runes are needed.
    pub fn step(&mut self, required: u64, utxo: &UtxoData) -> (r: ScanStep)
        requires
            (old(self).total_value >= required && old(self).sat_amount < 1000) ==> old(self).sat_amount
                + utxo.value <= u64::MAX,
        ensures
            final(self).total_value == old(self).total_value,
            final(self).checked() == old(self).checked(),
            old(self).total_value >= required && old(self).sat_amount < 1000 ==> (r is Skip
                && final(self).sat_amount == old(self).sat_amount + utxo.value),
            old(self).total_value >= required && old(self).sat_amount >= 1000 ==> (r is Stop
                && final(self).sat_amount == old(self).sat_amount),
            old(self).total_value < required ==> final(self).sat_amount == old(self).sat_amount && if old(
                self,
            ).checked().contains(hex_lower(utxo.txid@)) {
                r is Skip
            } else {
                r matches ScanStep::Fetch(t) && t@ == hex_lower(utxo.txid@)
            },
    {
        let output_data = OutpointData::from_utxo(utxo);
        if self.total_value >= required {
            if self.sat_amount < 1000 {
                self.sat_amount = self.sat_amount + utxo.value;
                return ScanStep::Skip;
            }
            return ScanStep::Stop;
        }
        let txn_id = output_data.txn_id;
        if self.checked.contains(txn_id.as_str()) {
            return ScanStep::Skip;
        }
        ScanStep::Fetch(txn_id)
    }

    /// Takes in a fetched transaction: it is marked read, and where it holds a runestone the
    /// amounts its edicts send of the rune `rune_id` (written `block:tx`) are added.
    pub fn absorb(&mut self, txn_id: String, artifact: &Option<RuneArtifact>, rune_id: &String)
        requires
            artifact matches Some(RuneArtifact::Runestone(e)) ==> old(self).total_value + scan_gain(
                e@,
                rune_id@,
            ) <= u64::MAX,
        ensures
            final(self).checked() == old(self).checked().insert(txn_id@),
            final(self).sat_amount == old(self).sat_amount,
            final(self).total_value == old(self).total_value + match artifact {
                Some(RuneArtifact::Runestone(e)) => scan_gain(e@, rune_id@),
                _ => 0,
            },
    {
        self.checked.insert(txn_id);
        if let Some(RuneArtifact::Runestone(edicts)) = artifact {
            let ghost start = self.total_value;
            let ghost ch = self.checked@;
            let ghost sat = self.sat_amount;
            let mut i: usize = 0;
            while i < edicts.len()
                invariant
                    i <= edicts@.len(),
                    self.checked@ == ch,
                    self.sat_amount == sat,
                    self.total_value == start + scan_gain(edicts@.take(i as int), rune_id@),
                    start + scan_gain(edicts@, rune_id@) <= u64::MAX,
                decreases edicts@.len() - i,
            {
                assert(edicts@.take(i + 1).drop_last() =~= edicts@.take(i as int));
                proof {
                    lemma_scan_gain_prefix(edicts@, rune_id@, i + 1);
                }
                let text = edicts[i].id.to_string();
                if text == *rune_id {
                    self.total_value = self.total_value + (#[verifier::truncate] (edicts[i].amount as u64));
                }
                i = i + 1;
            }
            assert(edicts@.take(i as int) =~= edicts@);
        }
    }
}

impl CollateralScan {
    /// Whether the count stays within `u64` after adding what `artifact` sends of the rune
    /// `rune_id`.
    fn gain_fits(&self, artifact: &Option<RuneArtifact>, rune_id: &String) -> (ok: bool)
        ensures
            ok == (self.total_value + artifact_gain(*artifact, rune_id@) <= u64::MAX),
    {
        match artifact {
            Some(RuneArtifact::Runestone(edicts)) => {
                let mut acc: u64 = self.total_value;
                let mut i: usize = 0;
                while i < edicts.len()
                    invariant
                        i <= edicts@.len(),
                        acc == self.total_value + scan_gain(edicts@.take(i as int), rune_id@),
                        artifact_gain(*artifact, rune_id@) == scan_gain(edicts@, rune_id@),
                    decreases edicts@.len() - i,
                {
                    assert(edicts@.take(i + 1).drop_last() =~= edicts@.take(i as int));
                    let text = edicts[i].id.to_string();
                    if text == *rune_id {
                        match acc.checked_add(#[verifier::truncate] (edicts[i].amount as u64)) {
                            Some(v) => {
                                acc = v;
                            },
                            None => {
                                proof {
                                    lemma_scan_gain_prefix(edicts@, rune_id@, i + 1);
                                    assert(scan_gain(edicts@.take(i + 1), rune_id@) == scan_gain(
                                        edicts@.take(i as int),
                                        rune_id@,
                                    ) + edicts@[i as int].amount as u64 as nat);
                                }
                                return false;
                            },
                        }
                    }
                    i = i + 1;
                }
                assert(edicts@.take(i as int) =~= edicts@);
                true
            },
            _ => true,
        }
    }

    /// Takes in the fetched transaction `txn_id`, given as the hex text of its encoding:
    /// decodes it, deciphers its runestone and hands that to `absorb`. Text that does not
    /// decode is refused with the decoder's message, and runes that would carry the count
    /// past `u64` with "Rune amount overflow"; a refusal changes nothing.
    pub fn absorb_transaction(&mut self, txn_id: String, trx_hex: &str, rune_id: &String) -> (r: Result<(), String>)
        ensures
            ({
                let gain = artifact_gain(runestone_of(hex_transaction(trx_hex@)), rune_id@);
                &&& r is Ok <==> (hex_decodes_as_transaction(trx_hex@) && old(self).total_value
                    + gain <= u64::MAX)
                &&& (hex_decodes_as_transaction(trx_hex@) && old(self).total_value + gain
                    > u64::MAX) ==> (r matches Err(m) && m@ == "Rune amount overflow"@)
                &&& r is Err ==> *final(self) == *old(self)
                &&& r is Ok ==> final(self).checked() == old(self).checked().insert(txn_id@)
                    && final(self).sat_amount == old(self).sat_amount && final(self).total_value
                    == old(self).total_value + gain
            }),
    {
        let transaction = match deserialize_transaction_hex(trx_hex) {
            Ok(t) => t,
            Err(e) => {
                return Err(e);
            },
        };
        let artifact = decipher_runestone(&transaction);
        if !self.gain_fits(&artifact, rune_id) {
            return Err("Rune amount overflow".to_string());
        }
        self.absorb(txn_id, &artifact, rune_id);
        Ok(())
    }
}

proof fn lemma_scan_gain_prefix(s: Seq<EdictData>, rune_id: Seq<char>, j: int)
    requires
        0 <= j <= s.len(),
    ensures
        scan_gain(s.take(j), rune_id) <= scan_gain(s, rune_id),
    decreases s.len() - j,
{
    if j < s.len() {
        lemma_scan_gain_prefix(s, rune_id, j + 1);
        assert(s.take(j + 1).drop_last() =~= s.take(j));
    } else {
        assert(s.take(j) =~= s);
    }
}

/// The offers credited to a lender are, each once, exactly the offers that lender made,
/// where no offer id was reused by another lender.
pub proof fn law_lender_offers(state: &LendingState, p: Seq<char>)
    requires
        state.wf(),
        offers_owned(state),
    ensures
        distinct_ids(state.offers_of(p)),
        forall|k: Seq<char>|
            (state.offers().contains_key(k) && state.offers()[k].lender@ == p) <==> #[trigger] has_id(
                state.offers_of(p),
                k,
            ),
{
    assert forall|k: Seq<char>|
        (state.offers().contains_key(k) && state.offers()[k].lender@ == p) <==> #[trigger] has_id(
            state.offers_of(p),
            k,
        ) by {
        if has_id(state.offers_of(p), k) {
            let i = choose|i: int| 0 <= i < state.offers_of(p).len() && state.offers_of(p)[i]@ == k;
            assert(state.loan_offer@.contains_key(ids_of(state.lender_offer@, p)[i]@));
            assert(state.offers()[state.offers_of(p)[i]@].lender@ == p);
        }
        if state.offers().contains_key(k) && state.offers()[k].lender@ == p {
            assert(state.loan_offer@.contains_key(k));
        }
    }
}

/// A recorded loan is liquidated on time: once its expiry has come, the records that
/// `take_expired` returns include the loan's, whatever other loans expire at the same
/// moment. (`take_expired` returns every record with an expiry at most its bound, and
/// no other operation drops a record.)
pub proof fn law_due_loan_is_taken(
    before: &LendingState,
    recorded: &LendingState,
    loan: LoanTransaction,
    now_ms: u64,
)
    requires
        recorded.expiries() == inserted(
            before.expiries(),
            ExpiryResource { expiration: loan.expires_at, data: Some(loan.id) },
        ),
        loan.expires_at <= now_ms,
    ensures
        keys_at_most(recorded.expiries(), now_ms).contains(
            ExpiryResource { expiration: loan.expires_at, data: Some(loan.id) },
        ),
{
    let rec = ExpiryResource { expiration: loan.expires_at, data: Some(loan.id) };
    law_insert_keeps_items(before.expiries(), rec, rec);
    law_remove_takes_due_items(recorded.expiries(), now_ms, rec);
}

/// Once a loan is recorded against a collateral, every request to borrow against that
/// collateral is refused, whoever makes it.
pub proof fn law_loan_locks_collateral(
    before: &LendingState,
    after: &LendingState,
    loan: LoanTransaction,
    request: &LoanRequest,
    caller: Seq<char>,
)
    requires
        before.collaterals().contains_key(loan.collateral_id@),
        after.collaterals() == before.collaterals().insert(
            loan.collateral_id@,
            Collateral { loan_trx: Some(loan.id), ..before.collaterals()[loan.collateral_id@] },
        ),
        request.collateral_id@ == loan.collateral_id@,
    ensures
        loan_request_outcome(after, request, caller) is Err,
        caller == before.collaterals()[loan.collateral_id@].owner@ ==> loan_request_outcome(
            after,
            request,
            caller,
        ) == Err::<(LoanOffer, Bundle, Collateral), Seq<char>>("This collateral is in use"@),
{
}

/// Once a loan is recorded against a bundle, the bundle can back no new offer, and no
/// request for an offer it backs is granted.
pub proof fn law_loan_locks_bundle(
    before: &LendingState,
    after: &LendingState,
    loan: LoanTransaction,
    request: &LoanRequest,
    caller: Seq<char>,
)
    requires
        before.bundles().contains_key(loan.bundle_id@),
        after.bundles() == before.bundles().insert(
            loan.bundle_id@,
            Bundle { loan_trx: Some(loan.id), ..before.bundles()[loan.bundle_id@] },
        ),
        after.offers().contains_key(request.offer_id@),
        after.offers()[request.offer_id@].liquidity_bundle_id@ == loan.bundle_id@,
    ensures
        offer_bundle_refusal(after.bundles(), loan.bundle_id@, caller) is Some,
        loan_request_outcome(after, request, caller) is Err,
{
}

/// A granted loan request uses a collateral of the caller that is free, holds the rune the
/// offer asks for and at least the amount it asks, and the offer's free bundle.
pub proof fn law_granted_request(state: &LendingState, request: &LoanRequest, caller: Seq<char>)
    requires
        loan_request_outcome(state, request, caller) is Ok,
    ensures
        loan_request_outcome(state, request, caller) matches Ok((o, b, c)) ==> {
            &&& c.owner@ == caller
            &&& c.loan_trx is None
            &&& o.rune_id@ == c.rune_id@
            &&& o.collateral_amt <= c.amount
            &&& b.loan_trx is None
            &&& state.bundles()[o.liquidity_bundle_id@] == b
        },
{
}

/// A loan request is granted whenever every check passes: the collateral exists, is the
/// caller's and is free; the offer exists, asks for the collateral's rune and at most the
/// amount the collateral holds; and the offer's bundle exists and is free.
pub proof fn law_request_granted_when_checks_pass(state: &LendingState, request: &LoanRequest, caller: Seq<char>)
    requires
        state.collaterals().contains_key(request.collateral_id@),
        state.collaterals()[request.collateral_id@].owner@ == caller,
        state.collaterals()[request.collateral_id@].loan_trx is None,
        state.offers().contains_key(request.offer_id@),
        state.offers()[request.offer_id@].rune_id@ == state.collaterals()[request.collateral_id@].rune_id@,
        state.offers()[request.offer_id@].collateral_amt <= state.collaterals()[request.collateral_id@].amount,
        state.bundles().contains_key(state.offers()[request.offer_id@].liquidity_bundle_id@),
        state.bundles()[state.offers()[request.offer_id@].liquidity_bundle_id@].loan_trx is None,
    ensures
        loan_request_outcome(state, request, caller) == Ok::<
            (LoanOffer, Bundle, Collateral),
            Seq<char>,
        >(
            (
                state.offers()[request.offer_id@],
                state.bundles()[state.offers()[request.offer_id@].liquidity_bundle_id@],
                state.collaterals()[request.collateral_id@],
            ),
        ),
{
}

/// Counting runes is additive over edicts, and an edict counts exactly when its rune id,
/// as text, is the collateral's rune id: then it adds its amount (cut to 64 bits), and an
/// edict of any other rune adds nothing.
pub proof fn law_scan_gain_counts_matching_edicts(edicts: Seq<EdictData>, e: EdictData, rune_id: Seq<char>)
    ensures
        scan_gain(Seq::empty(), rune_id) == 0,
        rune_id_text(e.id) == rune_id ==> scan_gain(edicts.push(e), rune_id) == scan_gain(
            edicts,
            rune_id,
        ) + e.amount as u64,
        rune_id_text(e.id) != rune_id ==> scan_gain(edicts.push(e), rune_id) == scan_gain(
            edicts,
            rune_id,
        ),
{
    assert(edicts.push(e).drop_last() =~= edicts);
}

/// A recorded offer is listed among its lender's offers and carries the lender and its id.
pub proof fn law_recorded_offer_listed(
    before: &LendingState,
    after: &LendingState,
    offer: LoanOffer,
    caller: String,
    loan_id: String,
)
    requires
        after.offers() == before.offers().insert(
            loan_id@,
            LoanOffer { id: loan_id, lender: caller, ..offer },
        ),
        after.offers_of(caller@) == with_id(before.offers_of(caller@), loan_id),
    ensures
        has_id(after.offers_of(caller@), loan_id@),
        after.offers()[loan_id@].lender == caller,
        after.offers()[loan_id@].id == loan_id,
{
    if !has_id(before.offers_of(caller@), loan_id@) {
        let l = after.offers_of(caller@);
        assert(l[l.len() - 1] == loan_id);
    }
}

} // verus!
