//! The lifecycle orchestrator.
//!
//! `AssetSystem` owns the state the lifecycle operates on: the asset
//! classes, the holdings with their balances, and the two keyed side-record
//! stores — holding metadata and provenance ledgers — addressed through
//! `addressing`.  The operations `issue`, `transfer`, and `transform`
//! validate authority and preconditions first and mutate only after every
//! check has passed, so a refused operation leaves the system untouched.

use vstd::prelude::*;
use crate::addressing::AccountId;
use crate::addressing::RecordId;
use crate::addressing::derive_metadata_record_id;
use crate::addressing::derive_provenance_record_id;
use crate::addressing::metadata_record_id;
use crate::addressing::provenance_record_id;
use crate::errors::LifecycleError;
use crate::holding::HoldingMetadata;
use crate::ledger::ProvenanceLedger;
use crate::ledger::TransferRecord;

verus! {

/// One issuable asset type.  The authority is the sole identity permitted
/// to issue new supply; the descriptive fields are set at creation.
pub struct AssetClass {
    /// Unique identifier of the class.
    pub id: AccountId,
    /// The sole identity permitted to issue supply of this class.
    pub authority: AccountId,
    /// Decimal precision, fixed at creation.
    pub decimals: u8,
    /// Display name.
    pub name: String,
    /// Display symbol.
    pub symbol: String,
    /// Where the backing asset comes from.
    pub origin: String,
    /// Purity of the backing asset, in parts per thousand.
    pub purity_per_mille: u32,
    /// Ethical certification of the backing asset.
    pub certification: String,
}

/// One account's balance of one asset class.
#[derive(Clone, Copy, Debug, PartialEq, Eq)]
pub struct Holding {
    /// Unique identifier of the holding.
    pub id: AccountId,
    /// The asset class the balance is denominated in.
    pub class: AccountId,
    /// The identity that controls the holding.
    pub owner: AccountId,
    /// Quantity held, in the smallest unit.
    pub balance: u64,
}

/// One stored holding-metadata record, filed under its derived identifier.
pub struct MetadataEntry {
    /// Where the record lives: derived from (class, holding).
    pub record_id: RecordId,
    /// The state-machine record itself.
    pub meta: HoldingMetadata,
}

/// One stored provenance ledger, filed under its derived identifier.
pub struct ProvenanceEntry {
    /// Where the ledger lives: derived from the asset class.
    pub record_id: RecordId,
    /// The append-only history itself.
    pub ledger: ProvenanceLedger,
}

/// Whether a record with identifier `rid` exists in the metadata store.
pub open spec fn meta_has(s: Seq<MetadataEntry>, rid: Seq<u8>) -> bool {
    exists|i: int| 0 <= i < s.len() && (#[trigger] s[i]).record_id@ == rid
}

/// The index the record with identifier `rid` sits at.
pub open spec fn meta_index(s: Seq<MetadataEntry>, rid: Seq<u8>) -> int {
    choose|i: int| 0 <= i < s.len() && (#[trigger] s[i]).record_id@ == rid
}

/// The stored metadata record with identifier `rid`.
pub open spec fn meta_at(s: Seq<MetadataEntry>, rid: Seq<u8>) -> HoldingMetadata {
    s[meta_index(s, rid)].meta
}

/// Whether a ledger with identifier `rid` exists in the provenance store.
pub open spec fn prov_has(s: Seq<ProvenanceEntry>, rid: Seq<u8>) -> bool {
    exists|i: int| 0 <= i < s.len() && (#[trigger] s[i]).record_id@ == rid
}

/// The index the ledger with identifier `rid` sits at.
pub open spec fn prov_index(s: Seq<ProvenanceEntry>, rid: Seq<u8>) -> int {
    choose|i: int| 0 <= i < s.len() && (#[trigger] s[i]).record_id@ == rid
}

/// The stored history with identifier `rid`, oldest record first.
pub open spec fn prov_at(s: Seq<ProvenanceEntry>, rid: Seq<u8>) -> Seq<TransferRecord> {
    s[prov_index(s, rid)].ledger@
}

/// No two metadata records share an identifier.
pub open spec fn meta_keys_distinct(s: Seq<MetadataEntry>) -> bool {
    forall|i: int, j: int|
        0 <= i < j < s.len() ==> (#[trigger] s[i]).record_id@ != (#[trigger] s[j]).record_id@
}

/// No two provenance ledgers share an identifier.
pub open spec fn prov_keys_distinct(s: Seq<ProvenanceEntry>) -> bool {
    forall|i: int, j: int|
        0 <= i < j < s.len() ==> (#[trigger] s[i]).record_id@ != (#[trigger] s[j]).record_id@
}

/// No two asset classes share an identifier.
pub open spec fn classes_distinct(s: Seq<AssetClass>) -> bool {
    forall|i: int, j: int| 0 <= i < j < s.len() ==> (#[trigger] s[i]).id != (#[trigger] s[j]).id
}

/// No two holdings share an identifier.
pub open spec fn holdings_distinct(s: Seq<Holding>) -> bool {
    forall|i: int, j: int| 0 <= i < j < s.len() ==> (#[trigger] s[i]).id != (#[trigger] s[j]).id
}

/// The whole state the lifecycle operates on.
pub struct AssetSystem {
    /// The address space record identifiers are derived inside.
    pub program_id: [u8; 32],
    /// The initialized asset classes.
    pub classes: Vec<AssetClass>,
    /// The opened holdings with their balances.
    pub holdings: Vec<Holding>,
    /// The holding-metadata store, keyed by derived record identifier.
    pub holding_metadata: Vec<MetadataEntry>,
    /// The provenance-ledger store, keyed by derived record identifier.
    pub provenance: Vec<ProvenanceEntry>,
}

impl AssetSystem {
    /// Well-formedness: every keyed collection has distinct keys, and every
    /// stored history carries only positive quantities.  Established at
    /// creation and preserved by every operation.
    pub open spec fn wf(self) -> bool {
        &&& classes_distinct(self.classes@)
        &&& holdings_distinct(self.holdings@)
        &&& meta_keys_distinct(self.holding_metadata@)
        &&& prov_keys_distinct(self.provenance@)
        &&& forall|i: int|
            0 <= i < self.provenance@.len() ==> (#[trigger] self.provenance@[i]).ledger.wf()
    }

    /// Whether an asset class with identifier `id` is initialized.
    pub open spec fn has_class(self, id: AccountId) -> bool {
        exists|i: int| 0 <= i < self.classes@.len() && (#[trigger] self.classes@[i]).id == id
    }

    /// The index of the class with identifier `id`.
    pub open spec fn class_index_spec(self, id: AccountId) -> int {
        choose|i: int| 0 <= i < self.classes@.len() && (#[trigger] self.classes@[i]).id == id
    }

    /// The class with identifier `id`.
    pub open spec fn class_at(self, id: AccountId) -> AssetClass {
        self.classes@[self.class_index_spec(id)]
    }

    /// Whether a holding with identifier `id` is opened.
    pub open spec fn has_holding(self, id: AccountId) -> bool {
        exists|i: int| 0 <= i < self.holdings@.len() && (#[trigger] self.holdings@[i]).id == id
    }

    /// The index of the holding with identifier `id`.
    pub open spec fn holding_index_spec(self, id: AccountId) -> int {
        choose|i: int| 0 <= i < self.holdings@.len() && (#[trigger] self.holdings@[i]).id == id
    }

    /// The holding with identifier `id`.
    pub open spec fn holding_at(self, id: AccountId) -> Holding {
        self.holdings@[self.holding_index_spec(id)]
    }

    /// The balance of holding `id`; zero when the holding is not opened.
    pub open spec fn balance_of_spec(self, id: AccountId) -> u64 {
        if self.has_holding(id) {
            self.holding_at(id).balance
        } else {
            0
        }
    }

    /// The holding metadata of `(class, holding)`: the stored record where
    /// one exists, else the unlocked default a fresh record starts from.
    pub open spec fn metadata_of(self, class: AccountId, holding: AccountId) -> HoldingMetadata {
        match metadata_record_id(class, holding, self.program_id@) {
            Some(rid) => if meta_has(self.holding_metadata@, rid) {
                meta_at(self.holding_metadata@, rid)
            } else {
                HoldingMetadata::unlocked_spec()
            },
            None => HoldingMetadata::unlocked_spec(),
        }
    }

    /// The transfer history of `class` in append order; empty when no
    /// transfer was ever recorded.
    pub open spec fn history_of(self, class: AccountId) -> Seq<TransferRecord> {
        match provenance_record_id(class, self.program_id@) {
            Some(rid) => if prov_has(self.provenance@, rid) {
                prov_at(self.provenance@, rid)
            } else {
                Seq::<TransferRecord>::empty()
            },
            None => Seq::<TransferRecord>::empty(),
        }
    }

    /// An empty system over the address space `program_id`.
    pub fn new(program_id: [u8; 32]) -> (r: AssetSystem)
        ensures
            r.wf(),
            r.program_id == program_id,
            r.classes@ == Seq::<AssetClass>::empty(),
            r.holdings@ == Seq::<Holding>::empty(),
            r.holding_metadata@ == Seq::<MetadataEntry>::empty(),
            r.provenance@ == Seq::<ProvenanceEntry>::empty(),
    {
        AssetSystem {
            program_id,
            classes: Vec::new(),
            holdings: Vec::new(),
            holding_metadata: Vec::new(),
            provenance: Vec::new(),
        }
    }
}

/// A class found at index `i` is the class its identifier resolves to.
pub proof fn lemma_class_index(s: AssetSystem, i: int)
    requires
        classes_distinct(s.classes@),
        0 <= i < s.classes@.len(),
    ensures
        s.has_class(s.classes@[i].id),
        s.class_index_spec(s.classes@[i].id) == i,
{
    let id = s.classes@[i].id;
    assert(s.has_class(id));
    let j = s.class_index_spec(id);
    if j != i {
        if j < i {
            assert(s.classes@[j].id != s.classes@[i].id);
        } else {
            assert(s.classes@[i].id != s.classes@[j].id);
        }
    }
}

/// A holding found at index `i` is the holding its identifier resolves to.
pub proof fn lemma_holding_index(s: AssetSystem, i: int)
    requires
        holdings_distinct(s.holdings@),
        0 <= i < s.holdings@.len(),
    ensures
        s.has_holding(s.holdings@[i].id),
        s.holding_index_spec(s.holdings@[i].id) == i,
{
    let id = s.holdings@[i].id;
    assert(s.has_holding(id));
    let j = s.holding_index_spec(id);
    if j != i {
        if j < i {
            assert(s.holdings@[j].id != s.holdings@[i].id);
        } else {
            assert(s.holdings@[i].id != s.holdings@[j].id);
        }
    }
}

/// A metadata record found at index `i` is the record its identifier
/// resolves to.
pub proof fn lemma_meta_index_of(s: Seq<MetadataEntry>, i: int)
    requires
        meta_keys_distinct(s),
        0 <= i < s.len(),
    ensures
        meta_has(s, s[i].record_id@),
        meta_index(s, s[i].record_id@) == i,
{
    let rid = s[i].record_id@;
    assert(meta_has(s, rid));
    let j = meta_index(s, rid);
    if j != i {
        if j < i {
            assert(s[j].record_id@ != s[i].record_id@);
        } else {
            assert(s[i].record_id@ != s[j].record_id@);
        }
    }
}

/// A provenance ledger found at index `i` is the ledger its identifier
/// resolves to.
pub proof fn lemma_prov_index_of(s: Seq<ProvenanceEntry>, i: int)
    requires
        prov_keys_distinct(s),
        0 <= i < s.len(),
    ensures
        prov_has(s, s[i].record_id@),
        prov_index(s, s[i].record_id@) == i,
{
    let rid = s[i].record_id@;
    assert(prov_has(s, rid));
    let j = prov_index(s, rid);
    if j != i {
        if j < i {
            assert(s[j].record_id@ != s[i].record_id@);
        } else {
            assert(s[i].record_id@ != s[j].record_id@);
        }
    }
}

/// Updating the holding at index `i` without changing its identifier keeps
/// the holdings' identifiers distinct.
pub proof fn lemma_holdings_update_same_id(s: Seq<Holding>, i: int, h: Holding)
    requires
        holdings_distinct(s),
        0 <= i < s.len(),
        h.id == s[i].id,
    ensures
        holdings_distinct(s.update(i, h)),
{
    let t = s.update(i, h);
    assert forall|a: int, b: int| 0 <= a < b < t.len() implies (#[trigger] t[a]).id != (
    #[trigger] t[b]).id by {
        assert(t[a].id == s[a].id);
        assert(t[b].id == s[b].id);
    }
}

/// Updating the class at index `i` without changing its identifier keeps
/// the classes' identifiers distinct.
pub proof fn lemma_classes_update_same_id(s: Seq<AssetClass>, i: int, c: AssetClass)
    requires
        classes_distinct(s),
        0 <= i < s.len(),
        c.id == s[i].id,
    ensures
        classes_distinct(s.update(i, c)),
{
    let t = s.update(i, c);
    assert forall|a: int, b: int| 0 <= a < b < t.len() implies (#[trigger] t[a]).id != (
    #[trigger] t[b]).id by {
        assert(t[a].id == s[a].id);
        assert(t[b].id == s[b].id);
    }
}

/// Replacing the metadata record at index `i` by one with the same
/// identifier touches exactly that identifier: distinctness is kept, the
/// new record is found under it, and every other identifier resolves as
/// before.
pub proof fn lemma_meta_update_frame(s: Seq<MetadataEntry>, i: int, e: MetadataEntry)
    requires
        meta_keys_distinct(s),
        0 <= i < s.len(),
        e.record_id@ == s[i].record_id@,
    ensures
        meta_keys_distinct(s.update(i, e)),
        meta_has(s.update(i, e), e.record_id@),
        meta_at(s.update(i, e), e.record_id@) == e.meta,
        forall|rid2: Seq<u8>|
            rid2 != e.record_id@ ==> #[trigger] meta_has(s.update(i, e), rid2) == meta_has(s, rid2),
        forall|rid2: Seq<u8>|
            rid2 != e.record_id@ && meta_has(s, rid2) ==> #[trigger] meta_at(s.update(i, e), rid2)
                == meta_at(s, rid2),
{
    let t = s.update(i, e);
    assert forall|a: int, b: int| 0 <= a < b < t.len() implies (#[trigger] t[a]).record_id@ != (
    #[trigger] t[b]).record_id@ by {
        assert(t[a].record_id@ == s[a].record_id@);
        assert(t[b].record_id@ == s[b].record_id@);
    }
    lemma_meta_index_of(t, i);
    assert forall|rid2: Seq<u8>| rid2 != e.record_id@ implies #[trigger] meta_has(t, rid2)
        == meta_has(s, rid2) by {
        if meta_has(s, rid2) {
            let j = meta_index(s, rid2);
            assert(s[j].record_id@ == rid2);
            assert(t[j].record_id@ == rid2);
            assert(meta_has(t, rid2));
        }
        if meta_has(t, rid2) {
            let j = meta_index(t, rid2);
            assert(t[j].record_id@ == rid2);
            assert(s[j].record_id@ == rid2);
            assert(meta_has(s, rid2));
        }
    }
    assert forall|rid2: Seq<u8>| rid2 != e.record_id@ && meta_has(s, rid2) implies #[trigger] meta_at(
        t,
        rid2,
    ) == meta_at(s, rid2) by {
        let j = meta_index(s, rid2);
        assert(s[j].record_id@ == rid2);
        assert(t[j].record_id@ == rid2);
        lemma_meta_index_of(s, j);
        lemma_meta_index_of(t, j);
    }
}

/// Appending a metadata record under a fresh identifier touches exactly
/// that identifier.
pub proof fn lemma_meta_push_frame(s: Seq<MetadataEntry>, e: MetadataEntry)
    requires
        meta_keys_distinct(s),
        !meta_has(s, e.record_id@),
    ensures
        meta_keys_distinct(s.push(e)),
        meta_has(s.push(e), e.record_id@),
        meta_at(s.push(e), e.record_id@) == e.meta,
        forall|rid2: Seq<u8>|
            rid2 != e.record_id@ ==> #[trigger] meta_has(s.push(e), rid2) == meta_has(s, rid2),
        forall|rid2: Seq<u8>|
            rid2 != e.record_id@ && meta_has(s, rid2) ==> #[trigger] meta_at(s.push(e), rid2)
                == meta_at(s, rid2),
{
    let t = s.push(e);
    assert forall|a: int, b: int| 0 <= a < b < t.len() implies (#[trigger] t[a]).record_id@ != (
    #[trigger] t[b]).record_id@ by {
        if b == s.len() {
            assert(t[a].record_id@ == s[a].record_id@);
            assert(s[a].record_id@ != e.record_id@);
        } else {
            assert(t[a].record_id@ == s[a].record_id@);
            assert(t[b].record_id@ == s[b].record_id@);
        }
    }
    lemma_meta_index_of(t, s.len() as int);
    assert forall|rid2: Seq<u8>| rid2 != e.record_id@ implies #[trigger] meta_has(t, rid2)
        == meta_has(s, rid2) by {
        if meta_has(s, rid2) {
            let j = meta_index(s, rid2);
            assert(t[j].record_id@ == rid2);
            assert(meta_has(t, rid2));
        }
        if meta_has(t, rid2) {
            let j = meta_index(t, rid2);
            assert(t[j].record_id@ == rid2);
            assert(j != s.len());
            assert(s[j].record_id@ == rid2);
            assert(meta_has(s, rid2));
        }
    }
    assert forall|rid2: Seq<u8>| rid2 != e.record_id@ && meta_has(s, rid2) implies #[trigger] meta_at(
        t,
        rid2,
    ) == meta_at(s, rid2) by {
        let j = meta_index(s, rid2);
        assert(s[j].record_id@ == rid2);
        assert(t[j].record_id@ == rid2);
        lemma_meta_index_of(s, j);
        lemma_meta_index_of(t, j);
    }
}

/// Replacing the provenance ledger at index `i` by one with the same
/// identifier touches exactly that identifier.
pub proof fn lemma_prov_update_frame(s: Seq<ProvenanceEntry>, i: int, e: ProvenanceEntry)
    requires
        prov_keys_distinct(s),
        0 <= i < s.len(),
        e.record_id@ == s[i].record_id@,
    ensures
        prov_keys_distinct(s.update(i, e)),
        prov_has(s.update(i, e), e.record_id@),
        prov_at(s.update(i, e), e.record_id@) == e.ledger@,
        forall|rid2: Seq<u8>|
            rid2 != e.record_id@ ==> #[trigger] prov_has(s.update(i, e), rid2) == prov_has(s, rid2),
        forall|rid2: Seq<u8>|
            rid2 != e.record_id@ && prov_has(s, rid2) ==> #[trigger] prov_at(s.update(i, e), rid2)
                == prov_at(s, rid2),
{
    let t = s.update(i, e);
    assert forall|a: int, b: int| 0 <= a < b < t.len() implies (#[trigger] t[a]).record_id@ != (
    #[trigger] t[b]).record_id@ by {
        assert(t[a].record_id@ == s[a].record_id@);
        assert(t[b].record_id@ == s[b].record_id@);
    }
    lemma_prov_index_of(t, i);
    assert forall|rid2: Seq<u8>| rid2 != e.record_id@ implies #[trigger] prov_has(t, rid2)
        == prov_has(s, rid2) by {
        if prov_has(s, rid2) {
            let j = prov_index(s, rid2);
            assert(s[j].record_id@ == rid2);
            assert(t[j].record_id@ == rid2);
            assert(prov_has(t, rid2));
        }
        if prov_has(t, rid2) {
            let j = prov_index(t, rid2);
            assert(t[j].record_id@ == rid2);
            assert(s[j].record_id@ == rid2);
            assert(prov_has(s, rid2));
        }
    }
    assert forall|rid2: Seq<u8>| rid2 != e.record_id@ && prov_has(s, rid2) implies #[trigger] prov_at(
        t,
        rid2,
    ) == prov_at(s, rid2) by {
        let j = prov_index(s, rid2);
        assert(s[j].record_id@ == rid2);
        assert(t[j].record_id@ == rid2);
        lemma_prov_index_of(s, j);
        lemma_prov_index_of(t, j);
    }
}

/// Appending a provenance ledger under a fresh identifier touches exactly
/// that identifier.
pub proof fn lemma_prov_push_frame(s: Seq<ProvenanceEntry>, e: ProvenanceEntry)
    requires
        prov_keys_distinct(s),
        !prov_has(s, e.record_id@),
    ensures
        prov_keys_distinct(s.push(e)),
        prov_has(s.push(e), e.record_id@),
        prov_at(s.push(e), e.record_id@) == e.ledger@,
        forall|rid2: Seq<u8>|
            rid2 != e.record_id@ ==> #[trigger] prov_has(s.push(e), rid2) == prov_has(s, rid2),
        forall|rid2: Seq<u8>|
            rid2 != e.record_id@ && prov_has(s, rid2) ==> #[trigger] prov_at(s.push(e), rid2)
                == prov_at(s, rid2),
{
    let t = s.push(e);
    assert forall|a: int, b: int| 0 <= a < b < t.len() implies (#[trigger] t[a]).record_id@ != (
    #[trigger] t[b]).record_id@ by {
        if b == s.len() {
            assert(t[a].record_id@ == s[a].record_id@);
            assert(s[a].record_id@ != e.record_id@);
        } else {
            assert(t[a].record_id@ == s[a].record_id@);
            assert(t[b].record_id@ == s[b].record_id@);
        }
    }
    lemma_prov_index_of(t, s.len() as int);
    assert forall|rid2: Seq<u8>| rid2 != e.record_id@ implies #[trigger] prov_has(t, rid2)
        == prov_has(s, rid2) by {
        if prov_has(s, rid2) {
            let j = prov_index(s, rid2);
            assert(t[j].record_id@ == rid2);
            assert(prov_has(t, rid2));
        }
        if prov_has(t, rid2) {
            let j = prov_index(t, rid2);
            assert(t[j].record_id@ == rid2);
            assert(j != s.len());
            assert(s[j].record_id@ == rid2);
            assert(prov_has(s, rid2));
        }
    }
    assert forall|rid2: Seq<u8>| rid2 != e.record_id@ && prov_has(s, rid2) implies #[trigger] prov_at(
        t,
        rid2,
    ) == prov_at(s, rid2) by {
        let j = prov_index(s, rid2);
        assert(s[j].record_id@ == rid2);
        assert(t[j].record_id@ == rid2);
        lemma_prov_index_of(s, j);
        lemma_prov_index_of(t, j);
    }
}

impl AssetSystem {
    /// Whether two record identifiers are the same bytes.
    fn record_id_eq(a: &RecordId, b: &RecordId) -> (r: bool)
        ensures
            r == (a@ == b@),
    {
        if a.len() != b.len() {
            proof {
                assert(a@.len() != b@.len());
            }
            return false;
        }
        let mut i: usize = 0;
        while i < a.len()
            invariant
                i <= a.len(),
                a@.len() == b@.len(),
                forall|j: int| 0 <= j < i ==> a@[j] == b@[j],
            decreases a.len() - i,
        {
            if a[i] != b[i] {
                return false;
            }
            i += 1;
        }
        proof {
            assert(a@ =~= b@);
        }
        true
    }

    /// Find the index of the class with identifier `id`.
    fn find_class(&self, id: AccountId) -> (r: Option<usize>)
        ensures
            match r {
                Some(i) => i < self.classes@.len() && self.classes@[i as int].id == id,
                None => !self.has_class(id),
            },
    {
        let mut i: usize = 0;
        while i < self.classes.len()
            invariant
                i <= self.classes@.len(),
                forall|j: int| 0 <= j < i ==> (#[trigger] self.classes@[j]).id != id,
            decreases self.classes@.len() - i,
        {
            if self.classes[i].id == id {
                return Some(i);
            }
            i += 1;
        }
        None
    }

    /// Find the index of the holding with identifier `id`.
    fn find_holding(&self, id: AccountId) -> (r: Option<usize>)
        ensures
            match r {
                Some(i) => i < self.holdings@.len() && self.holdings@[i as int].id == id,
                None => !self.has_holding(id),
            },
    {
        let mut i: usize = 0;
        while i < self.holdings.len()
            invariant
                i <= self.holdings@.len(),
                forall|j: int| 0 <= j < i ==> (#[trigger] self.holdings@[j]).id != id,
            decreases self.holdings@.len() - i,
        {
            if self.holdings[i].id == id {
                return Some(i);
            }
            i += 1;
        }
        None
    }

    /// Find the index of the metadata record with identifier `rid`.
    fn find_metadata(&self, rid: &RecordId) -> (r: Option<usize>)
        ensures
            match r {
                Some(i) => i < self.holding_metadata@.len() && self.holding_metadata@[i as int].record_id@ == rid@,
                None => !meta_has(self.holding_metadata@, rid@),
            },
    {
        let mut i: usize = 0;
        while i < self.holding_metadata.len()
            invariant
                i <= self.holding_metadata@.len(),
                forall|j: int| 0 <= j < i ==> (#[trigger] self.holding_metadata@[j]).record_id@ != rid@,
            decreases self.holding_metadata@.len() - i,
        {
            if Self::record_id_eq(&self.holding_metadata[i].record_id, rid) {
                return Some(i);
            }
            i += 1;
        }
        None
    }

    /// Find the index of the provenance ledger with identifier `rid`.
    fn find_provenance(&self, rid: &RecordId) -> (r: Option<usize>)
        ensures
            match r {
                Some(i) => i < self.provenance@.len() && self.provenance@[i as int].record_id@ == rid@,
                None => !prov_has(self.provenance@, rid@),
            },
    {
        let mut i: usize = 0;
        while i < self.provenance.len()
            invariant
                i <= self.provenance@.len(),
                forall|j: int| 0 <= j < i ==> (#[trigger] self.provenance@[j]).record_id@ != rid@,
            decreases self.provenance@.len() - i,
        {
            if Self::record_id_eq(&self.provenance[i].record_id, rid) {
                return Some(i);
            }
            i += 1;
        }
        None
    }

    /// What an initialization request decides: a class identifier may be
    /// taken only once.
    pub open spec fn initialize_check(self, id: AccountId) -> Result<(), LifecycleError> {
        if self.has_class(id) {
            Err(LifecycleError::ClassAlreadyExists)
        } else {
            Ok(())
        }
    }

    /// Initialize a new asset class.  The identifier must be fresh; the
    /// authority and the descriptive metadata are recorded as given and the
    /// rest of the system is untouched.
    pub fn initialize_asset_class(
        &mut self,
        id: AccountId,
        authority: AccountId,
        decimals: u8,
        name: String,
        symbol: String,
        origin: String,
        purity_per_mille: u32,
        certification: String,
    ) -> (r: Result<(), LifecycleError>)
        requires
            old(self).wf(),
        ensures
            final(self).wf(),
            r == old(self).initialize_check(id),
            r is Err ==> *final(self) == *old(self),
            r is Ok ==> final(self).classes@.len() == old(self).classes@.len() + 1
                && final(self).classes@.last().id == id
                && final(self).classes@.last().authority == authority
                && final(self).classes@.last().decimals == decimals
                && final(self).classes@.subrange(0, old(self).classes@.len() as int) == old(self).classes@,
            final(self).holdings@ == old(self).holdings@,
            final(self).holding_metadata@ == old(self).holding_metadata@,
            final(self).provenance@ == old(self).provenance@,
            final(self).program_id == old(self).program_id,
            r is Ok ==> final(self).has_class(id) && final(self).class_at(id).authority == authority,
    {
        if self.find_class(id).is_some() {
            return Err(LifecycleError::ClassAlreadyExists);
        }
        let fresh = AssetClass {
            id,
            authority,
            decimals,
            name,
            symbol,
            origin,
            purity_per_mille,
            certification,
        };
        self.classes.push(fresh);
        proof {
            assert(self.classes@.subrange(0, old(self).classes@.len() as int) =~= old(
                self,
            ).classes@);
            assert forall|i: int, j: int| 0 <= i < j < self.classes@.len() implies (
            #[trigger] self.classes@[i]).id != (#[trigger] self.classes@[j]).id by {
                if j == self.classes@.len() - 1 {
                    assert(!old(self).has_class(id));
                    assert(old(self).classes@[i].id != id);
                }
            }
            lemma_class_index(*self, self.classes@.len() - 1);
        }
        Ok(())
    }

    /// What an open request decides: re-opening an existing holding is
    /// accepted only with the class and owner it already has.
    pub open spec fn open_check(self, class: AccountId, owner: AccountId, id: AccountId) -> Result<
        (),
        LifecycleError,
    > {
        if !self.has_class(class) {
            Err(LifecycleError::UnknownAssetClass)
        } else if self.has_holding(id) {
            if self.holding_at(id).class == class && self.holding_at(id).owner == owner {
                Ok(())
            } else {
                Err(LifecycleError::DataIntegrityViolation)
            }
        } else {
            Ok(())
        }
    }

    /// Open (or find) the holding `id` of `owner` for `class`: the
    /// get-or-init step of the derive-or-create pattern.  A fresh holding
    /// starts at balance zero; an existing one is left exactly as it is.
    pub fn open_holding(&mut self, class: AccountId, owner: AccountId, id: AccountId) -> (r: Result<
        (),
        LifecycleError,
    >)
        requires
            old(self).wf(),
        ensures
            final(self).wf(),
            r == old(self).open_check(class, owner, id),
            r is Err ==> *final(self) == *old(self),
            r is Ok && old(self).has_holding(id) ==> *final(self) == *old(self),
            r is Ok && !old(self).has_holding(id) ==> final(self).holdings@ == old(
                self,
            ).holdings@.push(Holding { id, class, owner, balance: 0 }),
            r is Ok ==> final(self).has_holding(id) && final(self).holding_at(id).class == class
                && final(self).holding_at(id).owner == owner,
            final(self).classes@ == old(self).classes@,
            final(self).holding_metadata@ == old(self).holding_metadata@,
            final(self).provenance@ == old(self).provenance@,
            final(self).program_id == old(self).program_id,
            final(self).balance_of_spec(id) == old(self).balance_of_spec(id),
    {
        if self.find_class(class).is_none() {
            return Err(LifecycleError::UnknownAssetClass);
        }
        match self.find_holding(id) {
            Some(i) => {
                let existing = self.holdings[i];
                proof {
                    lemma_holding_index(*self, i as int);
                }
                if existing.class == class && existing.owner == owner {
                    Ok(())
                } else {
                    Err(LifecycleError::DataIntegrityViolation)
                }
            },
            None => {
                self.holdings.push(Holding { id, class, owner, balance: 0 });
                proof {
                    assert forall|i: int, j: int|
                        0 <= i < j < self.holdings@.len() implies (
                    #[trigger] self.holdings@[i]).id != (#[trigger] self.holdings@[j]).id by {
                        if j == self.holdings@.len() - 1 {
                            assert(!old(self).has_holding(id));
                            assert(old(self).holdings@[i].id != id);
                        }
                    }
                    lemma_holding_index(*self, self.holdings@.len() - 1);
                    assert(!old(self).has_holding(id));
                }
                Ok(())
            },
        }
    }

    /// What a descriptive-metadata update decides: the class must be known
    /// and the requesting actor its recorded authority.
    pub open spec fn update_metadata_check(self, class: AccountId, authority: AccountId) -> Result<
        (),
        LifecycleError,
    > {
        if !self.has_class(class) {
            Err(LifecycleError::UnknownAssetClass)
        } else if self.class_at(class).authority != authority {
            Err(LifecycleError::InvalidAuthority)
        } else {
            Ok(())
        }
    }

    /// Replace the descriptive metadata of `class`.  Only the recorded
    /// authority may do so; the identifier, the authority, and the decimal
    /// precision are immutable, and nothing else in the system is touched.
    pub fn update_class_metadata(
        &mut self,
        class: AccountId,
        authority: AccountId,
        name: String,
        symbol: String,
        origin: String,
        purity_per_mille: u32,
        certification: String,
    ) -> (r: Result<(), LifecycleError>)
        requires
            old(self).wf(),
        ensures
            final(self).wf(),
            r == old(self).update_metadata_check(class, authority),
            r is Err ==> *final(self) == *old(self),
            r is Ok ==> final(self).classes@ == old(self).classes@.update(
                old(self).class_index_spec(class),
                (AssetClass {
                    id: old(self).class_at(class).id,
                    authority: old(self).class_at(class).authority,
                    decimals: old(self).class_at(class).decimals,
                    name,
                    symbol,
                    origin,
                    purity_per_mille,
                    certification,
                }),
            ),
            final(self).holdings@ == old(self).holdings@,
            final(self).holding_metadata@ == old(self).holding_metadata@,
            final(self).provenance@ == old(self).provenance@,
            final(self).program_id == old(self).program_id,
    {
        let ci = match self.find_class(class) {
            Some(i) => i,
            None => { return Err(LifecycleError::UnknownAssetClass) },
        };
        proof {
            lemma_class_index(*self, ci as int);
        }
        if self.classes[ci].authority != authority {
            return Err(LifecycleError::InvalidAuthority);
        }
        let updated = AssetClass {
            id: self.classes[ci].id,
            authority: self.classes[ci].authority,
            decimals: self.classes[ci].decimals,
            name,
            symbol,
            origin,
            purity_per_mille,
            certification,
        };
        self.classes[ci] = updated;
        proof {
            lemma_classes_update_same_id(old(self).classes@, ci as int, updated);
        }
        Ok(())
    }

    /// What an issue request decides, in the order the checks run: the
    /// quantity must be positive, the class known, the requesting actor its
    /// recorded authority, the recipient holding opened and of that class,
    /// the credited balance representable, and — when a lock is requested —
    /// the holding's metadata record willing to take a lock.
    pub open spec fn issue_check(
        self,
        class: AccountId,
        authority: AccountId,
        holding: AccountId,
        amount: u64,
        lock_period: Option<u64>,
    ) -> Result<(), LifecycleError> {
        if amount == 0 {
            Err(LifecycleError::InvalidAmount)
        } else if !self.has_class(class) {
            Err(LifecycleError::UnknownAssetClass)
        } else if self.class_at(class).authority != authority {
            Err(LifecycleError::InvalidAuthority)
        } else if !self.has_holding(holding) {
            Err(LifecycleError::UnknownHolding)
        } else if self.holding_at(holding).class != class {
            Err(LifecycleError::DataIntegrityViolation)
        } else if self.holding_at(holding).balance + amount > u64::MAX {
            Err(LifecycleError::BalanceOverflow)
        } else {
            match lock_period {
                None => Ok(()),
                Some(_) => match metadata_record_id(class, holding, self.program_id@) {
                    None => Err(LifecycleError::StorageFailure),
                    Some(_) => self.metadata_of(class, holding).lock_check(),
                },
            }
        }
    }

    /// Issue `amount` new units of `class` to `holding`, optionally locking
    /// the holding for `lock_period` starting at `now`.
    ///
    /// Accepted exactly when `issue_check` accepts; a refusal leaves the
    /// system untouched.  On success the recipient balance grows by
    /// `amount`; with a lock requested the holding's metadata record —
    /// created on first use — moves to locked-at-`now`, and no other
    /// metadata record is touched; without one the metadata store is left
    /// as it was.  Classes and provenance are never touched.
    pub fn issue(
        &mut self,
        class: AccountId,
        authority: AccountId,
        holding: AccountId,
        amount: u64,
        lock_period: Option<u64>,
        now: u64,
    ) -> (r: Result<(), LifecycleError>)
        requires
            old(self).wf(),
        ensures
            final(self).wf(),
            r == old(self).issue_check(class, authority, holding, amount, lock_period),
            r is Err ==> *final(self) == *old(self),
            r is Ok ==> final(self).balance_of_spec(holding) == old(self).balance_of_spec(holding)
                + amount,
            r is Ok ==> final(self).holdings@ == old(self).holdings@.update(
                old(self).holding_index_spec(holding),
                (Holding {
                    balance: (old(self).holding_at(holding).balance + amount) as u64,
                    ..old(self).holding_at(holding)
                }),
            ),
            final(self).classes@ == old(self).classes@,
            final(self).provenance@ == old(self).provenance@,
            final(self).program_id == old(self).program_id,
            r is Ok && lock_period is None ==> final(self).holding_metadata@ == old(
                self,
            ).holding_metadata@,
            r is Ok ==> (lock_period matches Some(p) ==> final(self).metadata_of(class, holding)
                == HoldingMetadata::locked_spec(now, p)),
            r is Ok && lock_period is Some ==> (metadata_record_id(
                class,
                holding,
                old(self).program_id@,
            ) matches Some(rid) && (forall|rid2: Seq<u8>|
                rid2 != rid ==> #[trigger] meta_has(final(self).holding_metadata@, rid2)
                    == meta_has(old(self).holding_metadata@, rid2)) && (forall|rid2: Seq<u8>|
                rid2 != rid && meta_has(old(self).holding_metadata@, rid2)
                    ==> #[trigger] meta_at(final(self).holding_metadata@, rid2) == meta_at(
                    old(self).holding_metadata@,
                    rid2,
                ))),
    {
        if amount == 0 {
            return Err(LifecycleError::InvalidAmount);
        }
        let ci = match self.find_class(class) {
            Some(i) => i,
            None => { return Err(LifecycleError::UnknownAssetClass) },
        };
        proof {
            lemma_class_index(*self, ci as int);
        }
        if self.classes[ci].authority != authority {
            return Err(LifecycleError::InvalidAuthority);
        }
        let hi = match self.find_holding(holding) {
            Some(i) => i,
            None => { return Err(LifecycleError::UnknownHolding) },
        };
        proof {
            lemma_holding_index(*self, hi as int);
        }
        let h = self.holdings[hi];
        if h.class != class {
            return Err(LifecycleError::DataIntegrityViolation);
        }
        if amount > u64::MAX - h.balance {
            return Err(LifecycleError::BalanceOverflow);
        }
        let credited = Holding { balance: h.balance + amount, ..h };
        match lock_period {
            None => {
                self.holdings[hi] = credited;
                proof {
                    lemma_holdings_update_same_id(old(self).holdings@, hi as int, credited);
                    lemma_holding_index(*self, hi as int);
                }
                Ok(())
            },
            Some(period) => {
                let rid = match derive_metadata_record_id(class, holding, &self.program_id) {
                    Some(rid) => rid,
                    None => { return Err(LifecycleError::StorageFailure) },
                };
                proof {
                    assert(rid.deep_view() =~= rid@);
                    assert(metadata_record_id(class, holding, self.program_id@) == Some(rid@));
                }
                match self.find_metadata(&rid) {
                    Some(mi) => {
                        proof {
                            lemma_meta_index_of(self.holding_metadata@, mi as int);
                        }
                        let mut m = self.holding_metadata[mi].meta;
                        match m.lock(now, period) {
                            Err(e) => Err(e),
                            Ok(()) => {
                                self.holdings[hi] = credited;
                                let fresh_entry = MetadataEntry { record_id: rid, meta: m };
                                self.holding_metadata[mi] = fresh_entry;
                                proof {
                                    lemma_holdings_update_same_id(
                                        old(self).holdings@,
                                        hi as int,
                                        credited,
                                    );
                                    lemma_holding_index(*self, hi as int);
                                    lemma_meta_update_frame(
                                        old(self).holding_metadata@,
                                        mi as int,
                                        fresh_entry,
                                    );
                                }
                                Ok(())
                            },
                        }
                    },
                    None => {
                        let mut m = HoldingMetadata::new_unlocked();
                        match m.lock(now, period) {
                            Err(e) => Err(e),
                            Ok(()) => {
                                self.holdings[hi] = credited;
                                let fresh_entry = MetadataEntry { record_id: rid, meta: m };
                                self.holding_metadata.push(fresh_entry);
                                proof {
                                    lemma_holdings_update_same_id(
                                        old(self).holdings@,
                                        hi as int,
                                        credited,
                                    );
                                    lemma_holding_index(*self, hi as int);
                                    lemma_meta_push_frame(old(self).holding_metadata@, fresh_entry);
                                }
                                Ok(())
                            },
                        }
                    },
                }
            },
        }
    }

    /// What a transfer request decides, in the order the checks run: the
    /// quantity must be positive, source and destination distinct, the
    /// class known, the source holding opened, controlled by the requesting
    /// owner, of that class, and funded; the destination opened, of that
    /// class, and able to take the credit; and the class's ledger
    /// addressable.
    pub open spec fn transfer_check(
        self,
        class: AccountId,
        owner: AccountId,
        from: AccountId,
        to: AccountId,
        amount: u64,
    ) -> Result<(), LifecycleError> {
        if amount == 0 {
            Err(LifecycleError::InvalidAmount)
        } else if from == to {
            Err(LifecycleError::SelfTransfer)
        } else if !self.has_class(class) {
            Err(LifecycleError::UnknownAssetClass)
        } else if !self.has_holding(from) {
            Err(LifecycleError::Unauthorized)
        } else if self.holding_at(from).owner != owner {
            Err(LifecycleError::Unauthorized)
        } else if self.holding_at(from).class != class {
            Err(LifecycleError::DataIntegrityViolation)
        } else if self.holding_at(from).balance < amount {
            Err(LifecycleError::InsufficientBalance)
        } else if !self.has_holding(to) {
            Err(LifecycleError::UnknownHolding)
        } else if self.holding_at(to).class != class {
            Err(LifecycleError::DataIntegrityViolation)
        } else if self.holding_at(to).balance + amount > u64::MAX {
            Err(LifecycleError::BalanceOverflow)
        } else {
            match provenance_record_id(class, self.program_id@) {
                None => Err(LifecycleError::StorageFailure),
                Some(_) => Ok(()),
            }
        }
    }

    /// Move `amount` units of `class` from `from` to `to` on behalf of
    /// `owner`, and record the transfer in the class's provenance ledger
    /// with timestamp `now`.
    ///
    /// Accepted exactly when `transfer_check` accepts; a refusal leaves the
    /// system untouched — in particular the ledger never grows on a failed
    /// transfer.  On success the source is debited, the destination is
    /// credited, exactly one record is appended at the end of the class's
    /// history, and no other holding, ledger, class, or metadata record is
    /// touched.
    pub fn transfer(
        &mut self,
        class: AccountId,
        owner: AccountId,
        from: AccountId,
        to: AccountId,
        amount: u64,
        now: u64,
    ) -> (r: Result<(), LifecycleError>)
        requires
            old(self).wf(),
        ensures
            final(self).wf(),
            r == old(self).transfer_check(class, owner, from, to, amount),
            r is Err ==> *final(self) == *old(self),
            r is Ok ==> final(self).balance_of_spec(from) == old(self).balance_of_spec(from)
                - amount,
            r is Ok ==> final(self).balance_of_spec(to) == old(self).balance_of_spec(to) + amount,
            r is Ok ==> final(self).holdings@ == old(self).holdings@.update(
                old(self).holding_index_spec(from),
                (Holding {
                    balance: (old(self).holding_at(from).balance - amount) as u64,
                    ..old(self).holding_at(from)
                }),
            ).update(
                old(self).holding_index_spec(to),
                (Holding {
                    balance: (old(self).holding_at(to).balance + amount) as u64,
                    ..old(self).holding_at(to)
                }),
            ),
            final(self).classes@ == old(self).classes@,
            final(self).holding_metadata@ == old(self).holding_metadata@,
            final(self).program_id == old(self).program_id,
            r is Ok ==> final(self).history_of(class) == old(self).history_of(class).push(
                TransferRecord { from, to, amount, timestamp: now },
            ),
            r is Ok ==> (provenance_record_id(class, old(self).program_id@) matches Some(rid) && (
            forall|rid2: Seq<u8>|
                rid2 != rid ==> #[trigger] prov_has(final(self).provenance@, rid2) == prov_has(
                    old(self).provenance@,
                    rid2,
                )) && (forall|rid2: Seq<u8>|
                rid2 != rid && prov_has(old(self).provenance@, rid2) ==> #[trigger] prov_at(
                    final(self).provenance@,
                    rid2,
                ) == prov_at(old(self).provenance@, rid2))),
    {
        if amount == 0 {
            return Err(LifecycleError::InvalidAmount);
        }
        if from == to {
            return Err(LifecycleError::SelfTransfer);
        }
        if self.find_class(class).is_none() {
            return Err(LifecycleError::UnknownAssetClass);
        }
        let fi = match self.find_holding(from) {
            Some(i) => i,
            None => { return Err(LifecycleError::Unauthorized) },
        };
        proof {
            lemma_holding_index(*self, fi as int);
        }
        let hf = self.holdings[fi];
        if hf.owner != owner {
            return Err(LifecycleError::Unauthorized);
        }
        if hf.class != class {
            return Err(LifecycleError::DataIntegrityViolation);
        }
        if hf.balance < amount {
            return Err(LifecycleError::InsufficientBalance);
        }
        let ti = match self.find_holding(to) {
            Some(i) => i,
            None => { return Err(LifecycleError::UnknownHolding) },
        };
        proof {
            lemma_holding_index(*self, ti as int);
        }
        let ht = self.holdings[ti];
        if ht.class != class {
            return Err(LifecycleError::DataIntegrityViolation);
        }
        if amount > u64::MAX - ht.balance {
            return Err(LifecycleError::BalanceOverflow);
        }
        let rid = match derive_provenance_record_id(class, &self.program_id) {
            Some(rid) => rid,
            None => { return Err(LifecycleError::StorageFailure) },
        };
        proof {
            assert(rid.deep_view() =~= rid@);
            assert(provenance_record_id(class, self.program_id@) == Some(rid@));
            assert(fi != ti);
        }
        let debited = Holding { balance: hf.balance - amount, ..hf };
        let credited = Holding { balance: ht.balance + amount, ..ht };
        self.holdings[fi] = debited;
        self.holdings[ti] = credited;
        proof {
            lemma_holdings_update_same_id(old(self).holdings@, fi as int, debited);
            lemma_holdings_update_same_id(self.holdings@, ti as int, credited);
            assert(self.holdings@.update(ti as int, credited)[ti as int].id == to);
        }
        match self.find_provenance(&rid) {
            Some(pi) => {
                proof {
                    lemma_prov_index_of(old(self).provenance@, pi as int);
                }
                self.provenance[pi].ledger.record_transfer(from, to, amount, now);
                proof {
                    lemma_holding_index(*self, fi as int);
                    lemma_holding_index(*self, ti as int);
                    lemma_prov_update_frame(
                        old(self).provenance@,
                        pi as int,
                        self.provenance@[pi as int],
                    );
                    assert forall|i: int| 0 <= i < self.provenance@.len() implies (
                    #[trigger] self.provenance@[i]).ledger.wf() by {
                        if i != pi {
                            assert(self.provenance@[i] == old(self).provenance@[i]);
                        }
                    }
                }
                Ok(())
            },
            None => {
                let mut fresh = ProvenanceLedger::new();
                fresh.record_transfer(from, to, amount, now);
                let fresh_entry = ProvenanceEntry { record_id: rid, ledger: fresh };
                self.provenance.push(fresh_entry);
                proof {
                    lemma_holding_index(*self, fi as int);
                    lemma_holding_index(*self, ti as int);
                    lemma_prov_push_frame(old(self).provenance@, fresh_entry);
                    assert(prov_at(self.provenance@, rid@) =~= old(self).history_of(class).push(
                        TransferRecord { from, to, amount, timestamp: now },
                    ));
                    assert forall|i: int| 0 <= i < self.provenance@.len() implies (
                    #[trigger] self.provenance@[i]).ledger.wf() by {
                        if i != self.provenance@.len() - 1 {
                            assert(self.provenance@[i] == old(self).provenance@[i]);
                        }
                    }
                }
                Ok(())
            },
        }
    }

    /// What a transformation request decides, in the order the checks run:
    /// the class must be known, the holding opened, controlled by the
    /// requesting owner, and of that class, its metadata record
    /// addressable, and the state machine willing — locked, elapsed, and
    /// not already transformed.  On acceptance the whole tracked balance is
    /// what gets extinguished.
    pub open spec fn transform_check(
        self,
        class: AccountId,
        owner: AccountId,
        holding: AccountId,
        now: u64,
    ) -> Result<u64, LifecycleError> {
        if !self.has_class(class) {
            Err(LifecycleError::UnknownAssetClass)
        } else if !self.has_holding(holding) {
            Err(LifecycleError::Unauthorized)
        } else if self.holding_at(holding).owner != owner {
            Err(LifecycleError::Unauthorized)
        } else if self.holding_at(holding).class != class {
            Err(LifecycleError::DataIntegrityViolation)
        } else {
            match metadata_record_id(class, holding, self.program_id@) {
                None => Err(LifecycleError::StorageFailure),
                Some(_) => match self.metadata_of(class, holding).transform_check(now) {
                    Ok(()) => Ok(self.holding_at(holding).balance),
                    Err(e) => Err(e),
                },
            }
        }
    }

    /// Transform the holding into its unique representation at time `now`:
    /// the one-way exit of the holding-period state machine.
    ///
    /// Accepted exactly when `transform_check` accepts; a refusal leaves
    /// the system untouched.  On success the whole tracked balance — which
    /// the call returns, for the caller to mint the unique representation
    /// from — is removed from the holding, and the metadata record is
    /// retained with only its terminal flag newly set, never deleted and
    /// never reusable for a new lock.  Classes and provenance are never
    /// touched.
    pub fn transform(
        &mut self,
        class: AccountId,
        owner: AccountId,
        holding: AccountId,
        now: u64,
    ) -> (r: Result<u64, LifecycleError>)
        requires
            old(self).wf(),
        ensures
            final(self).wf(),
            r == old(self).transform_check(class, owner, holding, now),
            r is Err ==> *final(self) == *old(self),
            r matches Ok(q) ==> q == old(self).balance_of_spec(holding),
            r is Ok ==> final(self).balance_of_spec(holding) == 0,
            r is Ok ==> final(self).holdings@ == old(self).holdings@.update(
                old(self).holding_index_spec(holding),
                (Holding { balance: 0, ..old(self).holding_at(holding) }),
            ),
            r is Ok ==> final(self).metadata_of(class, holding) == (HoldingMetadata {
                transformed: true,
                ..old(self).metadata_of(class, holding)
            }),
            final(self).classes@ == old(self).classes@,
            final(self).provenance@ == old(self).provenance@,
            final(self).program_id == old(self).program_id,
            r is Ok ==> (metadata_record_id(class, holding, old(self).program_id@) matches Some(rid)
                && (forall|rid2: Seq<u8>|
                rid2 != rid ==> #[trigger] meta_has(final(self).holding_metadata@, rid2)
                    == meta_has(old(self).holding_metadata@, rid2)) && (forall|rid2: Seq<u8>|
                rid2 != rid && meta_has(old(self).holding_metadata@, rid2)
                    ==> #[trigger] meta_at(final(self).holding_metadata@, rid2) == meta_at(
                    old(self).holding_metadata@,
                    rid2,
                ))),
    {
        if self.find_class(class).is_none() {
            return Err(LifecycleError::UnknownAssetClass);
        }
        let hi = match self.find_holding(holding) {
            Some(i) => i,
            None => { return Err(LifecycleError::Unauthorized) },
        };
        proof {
            lemma_holding_index(*self, hi as int);
        }
        let h = self.holdings[hi];
        if h.owner != owner {
            return Err(LifecycleError::Unauthorized);
        }
        if h.class != class {
            return Err(LifecycleError::DataIntegrityViolation);
        }
        let rid = match derive_metadata_record_id(class, holding, &self.program_id) {
            Some(rid) => rid,
            None => { return Err(LifecycleError::StorageFailure) },
        };
        proof {
            assert(rid.deep_view() =~= rid@);
            assert(metadata_record_id(class, holding, self.program_id@) == Some(rid@));
        }
        match self.find_metadata(&rid) {
            Some(mi) => {
                proof {
                    lemma_meta_index_of(self.holding_metadata@, mi as int);
                }
                let mut m = self.holding_metadata[mi].meta;
                match m.mark_transformed(now) {
                    Err(e) => Err(e),
                    Ok(()) => {
                        let extinguished = h.balance;
                        let zeroed = Holding { balance: 0, ..h };
                        self.holdings[hi] = zeroed;
                        let fresh_entry = MetadataEntry { record_id: rid, meta: m };
                        self.holding_metadata[mi] = fresh_entry;
                        proof {
                            lemma_holdings_update_same_id(old(self).holdings@, hi as int, zeroed);
                            lemma_holding_index(*self, hi as int);
                            lemma_meta_update_frame(
                                old(self).holding_metadata@,
                                mi as int,
                                fresh_entry,
                            );
                        }
                        Ok(extinguished)
                    },
                }
            },
            None => {
                proof {
                    assert(old(self).metadata_of(class, holding)
                        == HoldingMetadata::unlocked_spec());
                }
                Err(LifecycleError::InsufficientHoldingPeriod)
            },
        }
    }

    /// What a history query decides: the class must be known and its ledger
    /// addressable.
    pub open spec fn query_check(self, class: AccountId) -> Result<(), LifecycleError> {
        if !self.has_class(class) {
            Err(LifecycleError::UnknownAssetClass)
        } else {
            match provenance_record_id(class, self.program_id@) {
                None => Err(LifecycleError::StorageFailure),
                Some(_) => Ok(()),
            }
        }
    }

    /// The transfer history of `class`, oldest record first: a read-only
    /// snapshot that shows each appended record exactly once, in append
    /// order — never re-sorted by timestamp.  Empty when no transfer was
    /// ever recorded.
    pub fn query_history(&self, class: AccountId) -> (r: Result<Vec<TransferRecord>, LifecycleError>)
        requires
            self.wf(),
        ensures
            r matches Ok(v) ==> v@ == self.history_of(class),
            r is Ok <==> self.query_check(class) is Ok,
            r matches Err(e) ==> self.query_check(class) == Err::<(), LifecycleError>(e),
    {
        if self.find_class(class).is_none() {
            return Err(LifecycleError::UnknownAssetClass);
        }
        let rid = match derive_provenance_record_id(class, &self.program_id) {
            Some(rid) => rid,
            None => { return Err(LifecycleError::StorageFailure) },
        };
        proof {
            assert(rid.deep_view() =~= rid@);
            assert(provenance_record_id(class, self.program_id@) == Some(rid@));
        }
        match self.find_provenance(&rid) {
            Some(pi) => {
                proof {
                    lemma_prov_index_of(self.provenance@, pi as int);
                }
                Ok(self.provenance[pi].ledger.query_history())
            },
            None => {
                proof {
                    assert(self.history_of(class) =~= Seq::<TransferRecord>::empty());
                }
                Ok(Vec::new())
            },
        }
    }

    /// The holding metadata of `(class, holding)`: the stored record, or
    /// the unlocked default when none was ever created.  Fails only when
    /// the record's identifier cannot be derived.
    pub fn holding_metadata_of(&self, class: AccountId, holding: AccountId) -> (r: Result<
        HoldingMetadata,
        LifecycleError,
    >)
        requires
            self.wf(),
        ensures
            r matches Ok(m) ==> m == self.metadata_of(class, holding),
            r is Err <==> metadata_record_id(class, holding, self.program_id@) is None,
            r matches Err(e) ==> e == LifecycleError::StorageFailure,
    {
        let rid = match derive_metadata_record_id(class, holding, &self.program_id) {
            Some(rid) => rid,
            None => { return Err(LifecycleError::StorageFailure) },
        };
        proof {
            assert(rid.deep_view() =~= rid@);
            assert(metadata_record_id(class, holding, self.program_id@) == Some(rid@));
        }
        match self.find_metadata(&rid) {
            Some(mi) => {
                proof {
                    lemma_meta_index_of(self.holding_metadata@, mi as int);
                }
                Ok(self.holding_metadata[mi].meta)
            },
            None => Ok(HoldingMetadata::new_unlocked()),
        }
    }

    /// The balance of holding `id`; zero when the holding is not opened.
    pub fn balance_of(&self, id: AccountId) -> (r: u64)
        requires
            self.wf(),
        ensures
            r == self.balance_of_spec(id),
    {
        match self.find_holding(id) {
            Some(i) => {
                proof {
                    lemma_holding_index(*self, i as int);
                }
                self.holdings[i].balance
            },
            None => 0,
        }
    }
}

/// The transformed state is terminal at the system level too: once the
/// metadata record of `(class, holding)` is transformed, a further
/// transformation request on it is refused whatever the wall-clock time and
/// whoever asks — and when every check up to the state machine passes, the
/// refusal names the terminal state itself.
pub proof fn lemma_transform_is_terminal(
    s: AssetSystem,
    class: AccountId,
    owner: AccountId,
    holding: AccountId,
    now: u64,
)
    requires
        s.metadata_of(class, holding).transformed,
    ensures
        s.transform_check(class, owner, holding, now) is Err,
        (s.has_class(class) && s.has_holding(holding) && s.holding_at(holding).owner == owner
            && s.holding_at(holding).class == class && metadata_record_id(
            class,
            holding,
            s.program_id@,
        ) is Some) ==> s.transform_check(class, owner, holding, now) == Err::<
            u64,
            LifecycleError,
        >(LifecycleError::AlreadyTransformed),
{
}

/// A transfer asking for more than the source holding carries is refused
/// with `InsufficientBalance`; by `transfer`'s contract a refused transfer
/// leaves the system — the ledger's length included — unchanged.
pub proof fn lemma_insufficient_balance_refused(
    s: AssetSystem,
    class: AccountId,
    owner: AccountId,
    from: AccountId,
    to: AccountId,
    amount: u64,
)
    requires
        amount > 0,
        from != to,
        s.has_class(class),
        s.has_holding(from),
        s.holding_at(from).owner == owner,
        s.holding_at(from).class == class,
        s.balance_of_spec(from) < amount,
    ensures
        s.transfer_check(class, owner, from, to, amount) == Err::<(), LifecycleError>(
            LifecycleError::InsufficientBalance,
        ),
{
}

/// An issue requested by an actor other than the class's recorded authority
/// is refused with `InvalidAuthority`, whatever the holding, quantity, or
/// lock; by `issue`'s contract a refused issue changes no balance.
pub proof fn lemma_non_authority_issue_refused(
    s: AssetSystem,
    class: AccountId,
    authority: AccountId,
    holding: AccountId,
    amount: u64,
    lock_period: Option<u64>,
)
    requires
        amount > 0,
        s.has_class(class),
        s.class_at(class).authority != authority,
    ensures
        s.issue_check(class, authority, holding, amount, lock_period) == Err::<(), LifecycleError>(
            LifecycleError::InvalidAuthority,
        ),
{
}

} // verus!
