//! The append-only provenance ledger.
//!
//! One ledger exists per asset class.  Records are appended in call order
//! and that order is the history: nothing is re-sorted by timestamp,
//! deduplicated, reordered, or removed.

use vstd::prelude::*;
use crate::addressing::AccountId;

verus! {

/// One recorded transfer: who moved how much to whom, and when.
#[derive(Clone, Copy, Debug, PartialEq, Eq)]
pub struct TransferRecord {
    /// The source holding.
    pub from: AccountId,
    /// The destination holding.
    pub to: AccountId,
    /// The quantity moved; always positive.
    pub amount: u64,
    /// The wall-clock time the transfer was recorded at.  Informational:
    /// the history keeps append order even when timestamps run backwards.
    pub timestamp: u64,
}

/// The transfer history of one asset class, oldest record first.
#[derive(Clone, Debug, PartialEq, Eq)]
pub struct ProvenanceLedger {
    records: Vec<TransferRecord>,
}

impl View for ProvenanceLedger {
    type V = Seq<TransferRecord>;

    closed spec fn view(&self) -> Seq<TransferRecord> {
        self.records@
    }
}

impl ProvenanceLedger {
    /// Every record carries a positive quantity.
    pub open spec fn wf(self) -> bool {
        forall|i: int| 0 <= i < self@.len() ==> (#[trigger] self@[i]).amount > 0
    }

    /// An empty history.
    pub fn new() -> (r: ProvenanceLedger)
        ensures
            r@ == Seq::<TransferRecord>::empty(),
            r.wf(),
    {
        ProvenanceLedger { records: Vec::new() }
    }

    /// How many transfers the history holds.
    pub fn len(&self) -> (r: usize)
        ensures
            r == self@.len(),
    {
        self.records.len()
    }

    /// The `i`-th transfer in append order, oldest first.
    pub fn get(&self, i: usize) -> (r: &TransferRecord)
        requires
            i < self@.len(),
        ensures
            *r == self@[i as int],
    {
        &self.records[i]
    }

    /// Append one transfer to the history.  The one mutation the ledger
    /// offers: the new record goes to the end, every existing record keeps
    /// its place, and nothing is ever removed.
    pub fn record_transfer(&mut self, from: AccountId, to: AccountId, amount: u64, timestamp: u64)
        requires
            amount > 0,
        ensures
            final(self)@ == old(self)@.push(TransferRecord { from, to, amount, timestamp }),
            old(self).wf() ==> final(self).wf(),
    {
        self.records.push(TransferRecord { from, to, amount, timestamp });
        proof {
            if old(self).wf() {
                assert forall|i: int| 0 <= i < self@.len() implies (#[trigger] self@[i]).amount
                    > 0 by {
                    if i < old(self)@.len() {
                        assert(old(self)@[i].amount > 0);
                    } else {
                        assert(self@[i] == (TransferRecord { from, to, amount, timestamp }));
                    }
                }
            }
        }
    }

    /// The whole history in append order: a read-only snapshot that shows
    /// each record exactly once, oldest first.
    pub fn query_history(&self) -> (r: Vec<TransferRecord>)
        ensures
            r@ == self@,
    {
        let mut r: Vec<TransferRecord> = Vec::new();
        let mut i: usize = 0;
        while i < self.records.len()
            invariant
                i <= self.records.len(),
                r@ == self.records@.subrange(0, i as int),
            decreases self.records.len() - i,
        {
            r.push(self.records[i]);
            proof {
                assert(r@ =~= self.records@.subrange(0, i + 1));
            }
            i += 1;
        }
        proof {
            assert(r@ =~= self.records@);
        }
        r
    }
}

/// Appends land in call order: after two sequential appends the history is
/// the old history, then the first record, then the second, with every
/// older record at its old place — whatever the records' timestamps say.
pub proof fn lemma_appends_keep_call_order(h: Seq<TransferRecord>, first: TransferRecord, second: TransferRecord)
    ensures
        ({
            let appended = h.push(first).push(second);
            &&& appended.len() == h.len() + 2
            &&& appended[h.len() as int] == first
            &&& appended[h.len() as int + 1] == second
            &&& appended.subrange(0, h.len() as int) == h
        }),
{
    let appended = h.push(first).push(second);
    assert(appended.subrange(0, h.len() as int) =~= h);
}

} // verus!
