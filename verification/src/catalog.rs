//! The catalog: one record per fingerprint.
//!
//! A catalog is a finite map from fingerprints to records, kept as a vector
//! of records in ascending order of fingerprint. Its view is the map; its
//! [`Catalog::entries`] are the records in the order in which a scan meets
//! them, lowest fingerprint first. A record is always kept under its own
//! fingerprint.

use crate::record::{Record, RecordView};
use vstd::prelude::*;

verus! {

/// Whether the fingerprints of `s` rise strictly from each record to the next.
pub open spec fn ascending(s: Seq<RecordView>) -> bool {
    forall|i: int, j: int|
        #![trigger s[i], s[j]]
        0 <= i < j < s.len() ==> s[i].fingerprint < s[j].fingerprint
}

/// Whether some record of `s` has the fingerprint `fp`.
pub open spec fn holds(s: Seq<RecordView>, fp: u128) -> bool {
    exists|i: int| #![trigger s[i]] 0 <= i < s.len() && s[i].fingerprint == fp
}

/// The map from each fingerprint in `s` to the record that has it.
pub open spec fn index_of(s: Seq<RecordView>) -> Map<u128, RecordView> {
    Map::new(
        |fp: u128| holds(s, fp),
        |fp: u128| s[choose|i: int| #![trigger s[i]] 0 <= i < s.len() && s[i].fingerprint == fp],
    )
}

/// In an ascending sequence every record is the one that the map holds under
/// its fingerprint.
pub proof fn lemma_indexed(s: Seq<RecordView>, i: int)
    requires
        ascending(s),
        0 <= i < s.len(),
    ensures
        holds(s, s[i].fingerprint),
        index_of(s).dom().contains(s[i].fingerprint),
        index_of(s)[s[i].fingerprint] == s[i],
{
    let fp = s[i].fingerprint;
    let j = choose|j: int| #![trigger s[j]] 0 <= j < s.len() && s[j].fingerprint == fp;
    assert(s[j].fingerprint == fp);
    if j < i {
        assert(s[j].fingerprint < s[i].fingerprint);
    } else if i < j {
        assert(s[i].fingerprint < s[j].fingerprint);
    }
}

/// A fingerprint that falls between two neighbours of an ascending sequence
/// is not in it.
pub proof fn lemma_not_held(s: Seq<RecordView>, p: int, fp: u128)
    requires
        0 <= p <= s.len(),
        forall|i: int| #![trigger s[i]] 0 <= i < p ==> s[i].fingerprint < fp,
        forall|i: int| #![trigger s[i]] p <= i < s.len() ==> s[i].fingerprint > fp,
    ensures
        !holds(s, fp),
        !index_of(s).dom().contains(fp),
{
}

/// The map of the empty sequence is empty.
pub proof fn lemma_empty_holds_nothing(s: Seq<RecordView>)
    ensures
        s.len() == 0 ==> index_of(s) == Map::<u128, RecordView>::empty(),
{
    if s.len() == 0 {
        assert(index_of(s) =~= Map::<u128, RecordView>::empty());
    }
}

/// Whether every record of the map is kept under its own fingerprint.
pub open spec fn keyed(m: Map<u128, RecordView>) -> bool {
    forall|fp: u128| m.dom().contains(fp) ==> (#[trigger] m[fp]).fingerprint == fp
}

/// The map of a sequence keeps every record under its own fingerprint.
pub proof fn lemma_keyed(s: Seq<RecordView>)
    ensures
        keyed(index_of(s)),
{
    assert forall|fp: u128| index_of(s).dom().contains(fp) implies (#[trigger] index_of(s)[fp]).fingerprint
        == fp by {
        let i = choose|i: int| #![trigger s[i]] 0 <= i < s.len() && s[i].fingerprint == fp;
        assert(s[i].fingerprint == fp);
    }
}

/// Putting a record in the place of one with the same fingerprint keeps the
/// order and changes the map at that fingerprint only.
pub proof fn lemma_replaced(s: Seq<RecordView>, p: int, r: RecordView)
    requires
        ascending(s),
        0 <= p < s.len(),
        s[p].fingerprint == r.fingerprint,
    ensures
        ascending(s.update(p, r)),
        index_of(s.update(p, r)) == index_of(s).insert(r.fingerprint, r),
{
    let t = s.update(p, r);
    assert(ascending(t)) by {
        assert forall|i: int, j: int| #![trigger t[i], t[j]] 0 <= i < j < t.len() implies t[i].fingerprint
            < t[j].fingerprint by {
            assert(s[i].fingerprint < s[j].fingerprint);
        }
    }
    let a = index_of(t);
    let b = index_of(s).insert(r.fingerprint, r);
    assert forall|fp: u128| a.dom().contains(fp) <==> b.dom().contains(fp) by {
        if holds(t, fp) {
            let i = choose|i: int| #![trigger t[i]] 0 <= i < t.len() && t[i].fingerprint == fp;
            assert(s[i].fingerprint == fp);
        }
        if holds(s, fp) {
            let i = choose|i: int| #![trigger s[i]] 0 <= i < s.len() && s[i].fingerprint == fp;
            assert(t[i].fingerprint == fp);
        }
        if fp == r.fingerprint {
            assert(t[p].fingerprint == fp);
        }
    }
    assert forall|fp: u128| a.dom().contains(fp) implies a[fp] == b[fp] by {
        let i = choose|i: int| #![trigger t[i]] 0 <= i < t.len() && t[i].fingerprint == fp;
        lemma_indexed(t, i);
        if i != p {
            assert(s[i] == t[i]);
            lemma_indexed(s, i);
        }
    }
    assert(a =~= b);
}

/// Putting a record between the neighbours that its fingerprint falls between
/// keeps the order and adds it to the map.
pub proof fn lemma_inserted(s: Seq<RecordView>, p: int, r: RecordView)
    requires
        ascending(s),
        0 <= p <= s.len(),
        forall|i: int| #![trigger s[i]] 0 <= i < p ==> s[i].fingerprint < r.fingerprint,
        forall|i: int| #![trigger s[i]] p <= i < s.len() ==> s[i].fingerprint > r.fingerprint,
    ensures
        ascending(s.insert(p, r)),
        index_of(s.insert(p, r)) == index_of(s).insert(r.fingerprint, r),
{
    let t = s.insert(p, r);
    assert forall|i: int| #![trigger t[i]] 0 <= i < t.len() implies t[i] == (if i < p {
        s[i]
    } else if i == p {
        r
    } else {
        s[i - 1]
    }) by {}
    assert(ascending(t)) by {
        assert forall|i: int, j: int| #![trigger t[i], t[j]] 0 <= i < j < t.len() implies t[i].fingerprint
            < t[j].fingerprint by {
            if j < p {
                assert(s[i].fingerprint < s[j].fingerprint);
            } else if j == p {
                assert(s[i].fingerprint < r.fingerprint);
            } else if i < p {
                assert(s[i].fingerprint < s[j - 1].fingerprint);
            } else if i == p {
                assert(s[j - 1].fingerprint > r.fingerprint);
            } else {
                assert(s[i - 1].fingerprint < s[j - 1].fingerprint);
            }
        }
    }
    let a = index_of(t);
    let b = index_of(s).insert(r.fingerprint, r);
    assert forall|fp: u128| a.dom().contains(fp) <==> b.dom().contains(fp) by {
        if holds(t, fp) {
            let i = choose|i: int| #![trigger t[i]] 0 <= i < t.len() && t[i].fingerprint == fp;
            if i < p {
                assert(s[i].fingerprint == fp);
            } else if i > p {
                assert(s[i - 1].fingerprint == fp);
            }
        }
        if holds(s, fp) {
            let i = choose|i: int| #![trigger s[i]] 0 <= i < s.len() && s[i].fingerprint == fp;
            if i < p {
                assert(t[i].fingerprint == fp);
            } else {
                assert(t[i + 1].fingerprint == fp);
            }
        }
        if fp == r.fingerprint {
            assert(t[p].fingerprint == fp);
        }
    }
    assert forall|fp: u128| a.dom().contains(fp) implies a[fp] == b[fp] by {
        let i = choose|i: int| #![trigger t[i]] 0 <= i < t.len() && t[i].fingerprint == fp;
        lemma_indexed(t, i);
        if i < p {
            lemma_indexed(s, i);
        } else if i > p {
            lemma_indexed(s, i - 1);
        }
    }
    assert(a =~= b);
}

/// Taking a record out keeps the order and removes its fingerprint from the
/// map.
pub proof fn lemma_removed(s: Seq<RecordView>, p: int)
    requires
        ascending(s),
        0 <= p < s.len(),
    ensures
        ascending(s.remove(p)),
        index_of(s.remove(p)) == index_of(s).remove(s[p].fingerprint),
{
    let t = s.remove(p);
    let gone = s[p].fingerprint;
    assert forall|i: int| #![trigger t[i]] 0 <= i < t.len() implies t[i] == (if i < p {
        s[i]
    } else {
        s[i + 1]
    }) by {}
    assert(ascending(t)) by {
        assert forall|i: int, j: int| #![trigger t[i], t[j]] 0 <= i < j < t.len() implies t[i].fingerprint
            < t[j].fingerprint by {
            let si = if i < p { i } else { i + 1 };
            let sj = if j < p { j } else { j + 1 };
            assert(s[si].fingerprint < s[sj].fingerprint);
        }
    }
    let a = index_of(t);
    let b = index_of(s).remove(gone);
    assert forall|fp: u128| a.dom().contains(fp) <==> b.dom().contains(fp) by {
        if holds(t, fp) {
            let i = choose|i: int| #![trigger t[i]] 0 <= i < t.len() && t[i].fingerprint == fp;
            let si = if i < p { i } else { i + 1 };
            assert(s[si].fingerprint == fp);
            if si < p {
                assert(s[si].fingerprint < s[p].fingerprint);
            } else {
                assert(s[p].fingerprint < s[si].fingerprint);
            }
        }
        if holds(s, fp) && fp != gone {
            let i = choose|i: int| #![trigger s[i]] 0 <= i < s.len() && s[i].fingerprint == fp;
            if i < p {
                assert(t[i].fingerprint == fp);
            } else {
                assert(t[i - 1].fingerprint == fp);
            }
        }
    }
    assert forall|fp: u128| a.dom().contains(fp) implies a[fp] == b[fp] by {
        let i = choose|i: int| #![trigger t[i]] 0 <= i < t.len() && t[i].fingerprint == fp;
        lemma_indexed(t, i);
        let si = if i < p { i } else { i + 1 };
        lemma_indexed(s, si);
    }
    assert(a =~= b);
}

/// The order of a scan is a matter of the contents alone: two ascending
/// sequences with the same map are the same sequence.
pub proof fn lemma_order_determined(a: Seq<RecordView>, b: Seq<RecordView>)
    requires
        ascending(a),
        ascending(b),
        index_of(a) == index_of(b),
    ensures
        a == b,
    decreases a.len(),
{
    if a.len() == 0 {
        if b.len() > 0 {
            lemma_indexed(b, 0);
            assert(holds(a, b[0].fingerprint));
        }
        assert(a =~= b);
    } else {
        let top = a.len() - 1;
        lemma_indexed(a, top);
        assert(holds(b, a[top].fingerprint));
        let j = choose|j: int| #![trigger b[j]] 0 <= j < b.len() && b[j].fingerprint == a[top].fingerprint;
        let last = b.len() - 1;
        lemma_indexed(b, last);
        assert(holds(a, b[last].fingerprint));
        let i = choose|i: int| #![trigger a[i]] 0 <= i < a.len() && a[i].fingerprint == b[last].fingerprint;
        if j < last {
            assert(b[j].fingerprint < b[last].fingerprint);
        }
        if i < top {
            assert(a[i].fingerprint < a[top].fingerprint);
        }
        assert(j == last);
        lemma_indexed(b, j);
        assert(a[top] == b[last]);
        lemma_removed(a, top);
        lemma_removed(b, last);
        assert(a.remove(top) =~= a.drop_last());
        assert(b.remove(last) =~= b.drop_last());
        lemma_order_determined(a.drop_last(), b.drop_last());
        assert(a =~= a.drop_last().push(a[top]));
        assert(b =~= b.drop_last().push(b[last]));
    }
}

/// The map of an ascending sequence has as many records as the sequence.
pub proof fn lemma_count(s: Seq<RecordView>)
    requires
        ascending(s),
    ensures
        index_of(s).dom().finite(),
        index_of(s).dom().len() == s.len(),
    decreases s.len(),
{
    if s.len() == 0 {
        lemma_empty_holds_nothing(s);
    } else {
        let top = s.len() - 1;
        let rest = s.drop_last();
        lemma_removed(s, top);
        assert(s.remove(top) =~= rest);
        lemma_count(rest);
        lemma_indexed(s, top);
        assert(index_of(s).dom() =~= index_of(rest).dom().insert(s[top].fingerprint));
    }
}

/// What was put under a fingerprint is what is found there, equal in every
/// field, and nothing else in the catalog is touched.
pub proof fn lemma_put_then_get(m: Map<u128, RecordView>, r: RecordView, other: u128)
    ensures
        m.insert(r.fingerprint, r).dom().contains(r.fingerprint),
        m.insert(r.fingerprint, r)[r.fingerprint] == r,
        other != r.fingerprint ==> m.insert(r.fingerprint, r).dom().contains(other)
            == m.dom().contains(other),
        other != r.fingerprint ==> m.insert(r.fingerprint, r)[other] == m[other],
{
}

/// What was removed is not found, and nothing else in the catalog is
/// touched.
pub proof fn lemma_remove_then_get(m: Map<u128, RecordView>, fp: u128, other: u128)
    ensures
        !m.remove(fp).dom().contains(fp),
        other != fp ==> m.remove(fp).dom().contains(other) == m.dom().contains(other),
        other != fp ==> m.remove(fp)[other] == m[other],
{
}

/// The catalog of tracks.
pub struct Catalog {
    records: Vec<Record>,
}

impl View for Catalog {
    type V = Map<u128, RecordView>;

    /// The catalog as a map from fingerprint to record.
    open spec fn view(&self) -> Map<u128, RecordView> {
        index_of(self.entries())
    }
}

impl Catalog {
    /// The records in the order of a scan: ascending by fingerprint.
    pub closed spec fn entries(&self) -> Seq<RecordView> {
        self.records@.map_values(|r: Record| r@)
    }

    /// What every catalog satisfies: no fingerprint occurs twice, and the
    /// records stand in ascending order of fingerprint.
    pub open spec fn wf(&self) -> bool {
        ascending(self.entries())
    }

    /// Every record of a catalog is kept under its own fingerprint.
    pub proof fn lemma_records_keyed(self)
        ensures
            keyed(self@),
    {
        lemma_keyed(self.entries());
    }

    /// The empty catalog.
    pub fn new() -> (catalog: Catalog)
        ensures
            catalog.wf(),
            catalog.entries() == Seq::<RecordView>::empty(),
            catalog@ == Map::<u128, RecordView>::empty(),
    {
        let catalog = Catalog { records: Vec::new() };
        assert(catalog.entries() =~= Seq::<RecordView>::empty());
        assert(catalog@ =~= Map::<u128, RecordView>::empty());
        catalog
    }

    /// The number of records.
    pub fn len(&self) -> (n: usize)
        ensures
            n == self.entries().len(),
            self.wf() ==> n == self@.dom().len(),
    {
        proof {
            if self.wf() {
                lemma_count(self.entries());
            }
        }
        self.records.len()
    }

    /// Whether the catalog holds no record.
    pub fn is_empty(&self) -> (empty: bool)
        ensures
            empty == (self.entries().len() == 0),
    {
        self.records.len() == 0
    }

    /// The number of records whose fingerprint is below `fp`, which is the
    /// place in the scan where `fp` stands or would stand.
    fn position(&self, fp: u128) -> (p: usize)
        requires
            self.wf(),
        ensures
            p <= self.entries().len(),
            forall|i: int|
                #![trigger self.entries()[i]]
                0 <= i < p ==> self.entries()[i].fingerprint < fp,
            forall|i: int|
                #![trigger self.entries()[i]]
                p <= i < self.entries().len() ==> self.entries()[i].fingerprint >= fp,
    {
        let mut low: usize = 0;
        let mut high: usize = self.records.len();
        while low < high
            invariant
                self.wf(),
                low <= high <= self.records.len(),
                self.entries().len() == self.records.len(),
                forall|i: int|
                    #![trigger self.entries()[i]]
                    0 <= i < low ==> self.entries()[i].fingerprint < fp,
                forall|i: int|
                    #![trigger self.entries()[i]]
                    high <= i < self.entries().len() ==> self.entries()[i].fingerprint >= fp,
            decreases high - low,
        {
            let middle: usize = low + (high - low) / 2;
            assert(self.entries()[middle as int] == self.records[middle as int]@);
            if self.records[middle].fingerprint < fp {
                assert forall|i: int| #![trigger self.entries()[i]] 0 <= i < middle + 1 implies self.entries()[i].fingerprint
                    < fp by {
                    if i < middle {
                        assert(self.entries()[i].fingerprint < self.entries()[middle as int].fingerprint);
                    }
                }
                low = middle + 1;
            } else {
                assert forall|i: int|
                    #![trigger self.entries()[i]]
                    middle <= i < self.entries().len() implies self.entries()[i].fingerprint >= fp by {
                    if middle < i {
                        assert(self.entries()[middle as int].fingerprint < self.entries()[i].fingerprint);
                    }
                }
                high = middle;
            }
        }
        low
    }

    /// Whether a record is kept under `fp`.
    pub fn contains(&self, fp: u128) -> (found: bool)
        requires
            self.wf(),
        ensures
            found == self@.dom().contains(fp),
    {
        self.get(fp).is_some()
    }

    /// The record kept under `fp`, if there is one.
    pub fn get(&self, fp: u128) -> (found: Option<&Record>)
        requires
            self.wf(),
        ensures
            match found {
                Some(record) => self@.dom().contains(fp) && self@[fp] == record@
                    && record.fingerprint == fp,
                None => !self@.dom().contains(fp),
            },
    {
        let p: usize = self.position(fp);
        if p < self.records.len() {
            assert(self.entries()[p as int] == self.records[p as int]@);
            if self.records[p].fingerprint == fp {
                proof {
                    lemma_indexed(self.entries(), p as int);
                }
                return Some(&self.records[p]);
            }
        }
        proof {
            lemma_not_held(self.entries(), p as int, fp);
        }
        None
    }

    /// The record at place `i` of the scan, if the scan has that many.
    pub fn nth(&self, i: usize) -> (found: Option<&Record>)
        ensures
            match found {
                Some(record) => i < self.entries().len() && self.entries()[i as int] == record@,
                None => i >= self.entries().len(),
            },
    {
        if i < self.records.len() {
            Some(&self.records[i])
        } else {
            None
        }
    }

    /// Keeps `record` under its own fingerprint, in place of the record that
    /// was kept there, if there was one.
    pub fn put(&mut self, record: Record)
        requires
            old(self).wf(),
        ensures
            final(self).wf(),
            final(self)@ == old(self)@.insert(record.fingerprint, record@),
    {
        let p: usize = self.position(record.fingerprint);
        let ghost before = self.entries();
        let ghost value = record@;
        if p < self.records.len() && self.records[p].fingerprint == record.fingerprint {
            assert(before[p as int] == self.records[p as int]@);
            self.records.set(p, record);
            proof {
                assert(self.entries() =~= before.update(p as int, value));
                lemma_replaced(before, p as int, value);
            }
        } else {
            assert(p < before.len() ==> before[p as int] == self.records[p as int]@);
            self.records.insert(p, record);
            proof {
                assert(self.entries() =~= before.insert(p as int, value));
                lemma_inserted(before, p as int, value);
            }
        }
    }

    /// Drops the record kept under `fp` and tells whether there was one.
    pub fn remove(&mut self, fp: u128) -> (removed: bool)
        requires
            old(self).wf(),
        ensures
            final(self).wf(),
            final(self)@ == old(self)@.remove(fp),
            removed == old(self)@.dom().contains(fp),
    {
        let p: usize = self.position(fp);
        let ghost before = self.entries();
        if p < self.records.len() && self.records[p].fingerprint == fp {
            assert(before[p as int] == self.records[p as int]@);
            let _ = self.records.remove(p);
            proof {
                assert(self.entries() =~= before.remove(p as int));
                lemma_removed(before, p as int);
                lemma_indexed(before, p as int);
            }
            true
        } else {
            assert(p < before.len() ==> before[p as int] == self.records[p as int]@);
            proof {
                lemma_not_held(before, p as int, fp);
                assert(self@ =~= self@.remove(fp));
            }
            false
        }
    }

    /// The fingerprints of the catalog in the order of a scan.
    pub fn fingerprints(&self) -> (keys: Vec<u128>)
        ensures
            keys@.len() == self.entries().len(),
            forall|i: int|
                0 <= i < keys@.len() ==> keys@[i] == #[trigger] self.entries()[i].fingerprint,
    {
        let mut keys: Vec<u128> = Vec::new();
        let mut i: usize = 0;
        while i < self.records.len()
            invariant
                i <= self.records.len(),
                keys@.len() == i,
                self.entries().len() == self.records.len(),
                forall|j: int| 0 <= j < i ==> keys@[j] == #[trigger] self.entries()[j].fingerprint,
            decreases self.records.len() - i,
        {
            assert(self.entries()[i as int] == self.records[i as int]@);
            keys.push(self.records[i].fingerprint);
            i += 1;
        }
        keys
    }
}

} // verus!
