//! Taking in what a key-value store hands out.
//!
//! A store keeps each record as a value under the key of its fingerprint.
//! What comes out of it is not trusted: a value may not be readable as a
//! record, and a record may sit under a key that is not the key of its own
//! fingerprint. Such entries are skipped, one by one; the rest of the scan
//! goes on.

use crate::catalog::Catalog;
use crate::keys::{key_of, key_value, lemma_key_injective};
use crate::record::{Record, RecordView};
use vstd::prelude::*;

verus! {

/// One entry as the store hands it out.
#[derive(Clone, Debug, PartialEq, Eq)]
pub struct Stored {
    /// The key of the entry.
    pub key: Vec<u8>,
    /// The record read from the value of the entry, if the value could be
    /// read as a record.
    pub record: Option<Record>,
}

/// The mathematical value of a [`Stored`].
pub struct StoredView {
    pub key: Seq<u8>,
    pub record: Option<RecordView>,
}

impl View for Stored {
    type V = StoredView;

    open spec fn view(&self) -> StoredView {
        StoredView {
            key: self.key@,
            record: match self.record {
                Some(r) => Some(r@),
                None => None,
            },
        }
    }
}

/// The mathematical values of a sequence of entries.
pub open spec fn entries_of(e: Seq<Stored>) -> Seq<StoredView> {
    e.map_values(|x: Stored| x@)
}

/// Whether an entry is what the store should hold: a record under the key
/// of its own fingerprint.
pub open spec fn admissible(e: StoredView) -> bool {
    e.record matches Some(r) && e.key == key_of(r.fingerprint)
}

/// The map of the catalog that the entries make, taken in order, the
/// inadmissible ones skipped.
pub open spec fn loaded(entries: Seq<StoredView>) -> Map<u128, RecordView>
    decreases entries.len(),
{
    if entries.len() == 0 {
        Map::empty()
    } else if admissible(entries.last()) {
        loaded(entries.drop_last()).insert(
            entries.last().record->0.fingerprint,
            entries.last().record->0,
        )
    } else {
        loaded(entries.drop_last())
    }
}

/// The number of entries that are skipped.
pub open spec fn skipped(entries: Seq<StoredView>) -> nat
    decreases entries.len(),
{
    if entries.len() == 0 {
        0
    } else if admissible(entries.last()) {
        skipped(entries.drop_last())
    } else {
        skipped(entries.drop_last()) + 1
    }
}

/// No more entries are skipped than there are.
pub proof fn lemma_skipped_bound(entries: Seq<StoredView>)
    ensures
        skipped(entries) <= entries.len(),
    decreases entries.len(),
{
    if entries.len() > 0 {
        lemma_skipped_bound(entries.drop_last());
    }
}

/// The record of an entry, if the entry is admissible.
pub fn vet(entry: &Stored) -> (record: Option<&Record>)
    ensures
        match record {
            Some(r) => admissible(entry@) && entry@.record == Some(r@),
            None => !admissible(entry@),
        },
{
    match &entry.record {
        None => None,
        Some(r) => {
            match key_value(entry.key.as_slice()) {
                None => None,
                Some(fp) => {
                    if fp == r.fingerprint {
                        Some(r)
                    } else {
                        proof {
                            if key_of(fp) == key_of(r.fingerprint) {
                                lemma_key_injective(fp, r.fingerprint);
                            }
                        }
                        None
                    }
                },
            }
        },
    }
}

/// Builds the catalog that the entries make and counts the entries that
/// were skipped.
pub fn load(entries: &Vec<Stored>) -> (result: (Catalog, usize))
    ensures
        result.0.wf(),
        result.0@ == loaded(entries_of(entries@)),
        result.1 == skipped(entries_of(entries@)),
{
    let ghost all = entries_of(entries@);
    let mut catalog: Catalog = Catalog::new();
    let mut rejected: usize = 0;
    let mut i: usize = 0;
    while i < entries.len()
        invariant
            i <= entries.len(),
            all == entries_of(entries@),
            catalog.wf(),
            catalog@ == loaded(all.take(i as int)),
            rejected == skipped(all.take(i as int)),
            rejected <= i,
        decreases entries.len() - i,
    {
        proof {
            let next = all.take(i + 1);
            assert(next.drop_last() =~= all.take(i as int));
            assert(next.last() == entries[i as int]@);
        }
        match vet(&entries[i]) {
            Some(record) => {
                catalog.put(record.duplicate());
            },
            None => {
                rejected += 1;
            },
        }
        i += 1;
    }
    assert(all.take(i as int) =~= all);
    (catalog, rejected)
}

} // verus!
