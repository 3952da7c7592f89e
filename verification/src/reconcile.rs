//! Reconciling the catalog with the files that back it.
//!
//! For each record the caller looks at the file that the record's
//! fingerprint names and hands in what it saw: the file is missing, or it is
//! there and has a certain digest and certain tags. A record whose file is
//! missing is removed. A record whose file has the digest the record was made
//! from is left alone. A record whose file has another digest is replaced by
//! one with the new digest and the new tags, and the fingerprint and analysis
//! it had.

use crate::catalog::{keyed, Catalog};
use crate::record::{refreshed_view, Record, RecordView};
use vstd::prelude::*;

verus! {

/// The digest of a sequence of bytes: 32 bytes that stand for them.
pub uninterp spec fn digest_of(bytes: Seq<u8>) -> Seq<u8>;

/// Calls `blake3::hash` and hands back the 32 bytes of the hash.
///
/// Believed of it: the result depends on the bytes alone.
#[verifier::external_body]
fn blake3_hash(bytes: &[u8]) -> (digest: [u8; 32])
    ensures
        digest@ == digest_of(bytes@),
{
    *blake3::hash(bytes).as_bytes()
}

/// The digest of the bytes of a file.
pub fn content_digest(bytes: &[u8]) -> (digest: [u8; 32])
    ensures
        digest@ == digest_of(bytes@),
        digest@.len() == 32,
{
    blake3_hash(bytes)
}

/// What the file system shows of the file of one record.
#[derive(Clone, Debug, PartialEq, Eq)]
pub enum Observation {
    /// There is no such file.
    Missing,
    /// The file is there.
    Present {
        /// Digest of its bytes.
        digest: [u8; 32],
        /// Title read from it.
        title: String,
        /// Artist read from it.
        artist: String,
        /// Album read from it.
        album: String,
    },
}

/// The mathematical value of an [`Observation`].
pub enum ObservationView {
    Missing,
    Present { digest: Seq<u8>, title: Seq<char>, artist: Seq<char>, album: Seq<char> },
}

impl View for Observation {
    type V = ObservationView;

    open spec fn view(&self) -> ObservationView {
        match self {
            Observation::Missing => ObservationView::Missing,
            Observation::Present { digest, title, artist, album } => ObservationView::Present {
                digest: digest@,
                title: title@,
                artist: artist@,
                album: album@,
            },
        }
    }
}

/// An observation together with the fingerprint of the record it is about.
#[derive(Clone, Debug, PartialEq, Eq)]
pub struct Finding {
    /// Fingerprint of the record whose file was looked at.
    pub fingerprint: u128,
    /// What was seen.
    pub observation: Observation,
}

/// The mathematical value of a [`Finding`].
pub struct FindingView {
    pub fingerprint: u128,
    pub observation: ObservationView,
}

impl View for Finding {
    type V = FindingView;

    open spec fn view(&self) -> FindingView {
        FindingView { fingerprint: self.fingerprint, observation: self.observation@ }
    }
}

/// The mathematical values of a sequence of findings.
pub open spec fn findings_of(f: Seq<Finding>) -> Seq<FindingView> {
    f.map_values(|x: Finding| x@)
}

/// What reconciliation does about one finding.
#[derive(Clone, Copy, Debug, PartialEq, Eq, Structural)]
pub enum Change {
    /// The catalog holds no record under that fingerprint; nothing is done.
    Unknown,
    /// The file has the digest the record was made from; nothing is done.
    Intact,
    /// The file has another digest; the record was replaced.
    Updated,
    /// The file is missing; the record was removed.
    Removed,
}

/// Whether a change writes to the catalog.
pub open spec fn mutates(change: Change) -> bool {
    change == Change::Updated || change == Change::Removed
}

/// What is done about a record in view of what was seen of its file.
pub open spec fn verdict_of(r: RecordView, o: ObservationView) -> Change {
    match o {
        ObservationView::Missing => Change::Removed,
        ObservationView::Present { digest, .. } => if digest == r.content_hash {
            Change::Intact
        } else {
            Change::Updated
        },
    }
}

/// The record that takes the place of `r` after an update.
pub open spec fn renewed(r: RecordView, o: ObservationView) -> RecordView {
    match o {
        ObservationView::Missing => r,
        ObservationView::Present { digest, title, artist, album } => refreshed_view(
            r,
            digest,
            title,
            artist,
            album,
        ),
    }
}

/// What is done about the finding `(fp, o)` in a catalog with the map `m`.
pub open spec fn change_of(m: Map<u128, RecordView>, fp: u128, o: ObservationView) -> Change {
    if m.dom().contains(fp) {
        verdict_of(m[fp], o)
    } else {
        Change::Unknown
    }
}

/// The map of the catalog after the finding `(fp, o)` has been dealt with.
pub open spec fn step(m: Map<u128, RecordView>, fp: u128, o: ObservationView) -> Map<
    u128,
    RecordView,
> {
    match change_of(m, fp, o) {
        Change::Unknown => m,
        Change::Intact => m,
        Change::Updated => m.insert(fp, renewed(m[fp], o)),
        Change::Removed => m.remove(fp),
    }
}

/// The map of the catalog after the findings `f` have been dealt with in
/// order.
pub open spec fn run(m: Map<u128, RecordView>, f: Seq<FindingView>) -> Map<u128, RecordView>
    decreases f.len(),
{
    if f.len() == 0 {
        m
    } else {
        step(run(m, f.drop_last()), f.last().fingerprint, f.last().observation)
    }
}

/// What is done about each of the findings `f` when they are dealt with in
/// order, starting from the map `m`.
pub open spec fn changes(m: Map<u128, RecordView>, f: Seq<FindingView>) -> Seq<Change>
    decreases f.len(),
{
    if f.len() == 0 {
        Seq::empty()
    } else {
        changes(m, f.drop_last()).push(
            change_of(run(m, f.drop_last()), f.last().fingerprint, f.last().observation),
        )
    }
}

/// Decides what is to be done about a record in view of what was seen of its
/// file.
pub fn audit(record: &Record, observation: &Observation) -> (verdict: Change)
    ensures
        verdict == verdict_of(record@, observation@),
{
    match observation {
        Observation::Missing => Change::Removed,
        Observation::Present { digest, .. } => {
            if record.has_digest(digest) {
                Change::Intact
            } else {
                Change::Updated
            }
        },
    }
}

/// Deals with one finding: removes, replaces or leaves the record that the
/// finding is about, and tells which.
pub fn reconcile_one(
    catalog: &mut Catalog,
    fingerprint: u128,
    observation: &Observation,
) -> (change: Change)
    requires
        old(catalog).wf(),
    ensures
        final(catalog).wf(),
        final(catalog)@ == step(old(catalog)@, fingerprint, observation@),
        change == change_of(old(catalog)@, fingerprint, observation@),
{
    let fresh: Option<Record> = match catalog.get(fingerprint) {
        None => {
            return Change::Unknown;
        },
        Some(record) => match observation {
            Observation::Missing => None,
            Observation::Present { digest, title, artist, album } => {
                if record.has_digest(digest) {
                    return Change::Intact;
                }
                Some(record.refreshed(*digest, title.clone(), artist.clone(), album.clone()))
            },
        },
    };
    match fresh {
        None => {
            catalog.remove(fingerprint);
            Change::Removed
        },
        Some(record) => {
            catalog.put(record);
            Change::Updated
        },
    }
}

/// Deals with the findings in order and tells, for each, what was done.
pub fn reconcile(catalog: &mut Catalog, findings: &Vec<Finding>) -> (done: Vec<Change>)
    requires
        old(catalog).wf(),
    ensures
        final(catalog).wf(),
        final(catalog)@ == run(old(catalog)@, findings_of(findings@)),
        done@ == changes(old(catalog)@, findings_of(findings@)),
{
    let ghost start = catalog@;
    let ghost all = findings_of(findings@);
    let mut done: Vec<Change> = Vec::new();
    let mut i: usize = 0;
    while i < findings.len()
        invariant
            i <= findings.len(),
            catalog.wf(),
            all == findings_of(findings@),
            catalog@ == run(start, all.take(i as int)),
            done@ == changes(start, all.take(i as int)),
        decreases findings.len() - i,
    {
        let finding: &Finding = &findings[i];
        let change: Change = reconcile_one(catalog, finding.fingerprint, &finding.observation);
        proof {
            let next = all.take(i + 1);
            assert(next.drop_last() =~= all.take(i as int));
            assert(next.last() == finding@);
        }
        done.push(change);
        i += 1;
    }
    assert(all.take(i as int) =~= all);
    done
}

/// Whether a finding leaves a catalog with the map `m` as it is.
pub open spec fn settled(m: Map<u128, RecordView>, fp: u128, o: ObservationView) -> bool {
    !mutates(change_of(m, fp, o))
}

/// Whether the findings agree with one another: whatever is seen of one
/// file is the same each time. This is what it means that no file changes
/// while the findings are gathered.
pub open spec fn consistent(f: Seq<FindingView>) -> bool {
    forall|i: int, j: int|
        #![trigger f[i], f[j]]
        0 <= i < j < f.len() && f[i].fingerprint == f[j].fingerprint ==> f[i].observation
            == f[j].observation
}

/// Whether one of the findings is about the fingerprint `fp`.
pub open spec fn mentions(f: Seq<FindingView>, fp: u128) -> bool {
    exists|i: int| #![trigger f[i]] 0 <= i < f.len() && f[i].fingerprint == fp
}

/// A finding that has been dealt with leaves the catalog as it is when it is
/// dealt with again.
pub proof fn lemma_step_settles(m: Map<u128, RecordView>, fp: u128, o: ObservationView)
    ensures
        settled(step(m, fp, o), fp, o),
{
}

/// Dealing with a finding touches no record but the one it is about.
pub proof fn lemma_step_elsewhere(
    m: Map<u128, RecordView>,
    fp: u128,
    o: ObservationView,
    other: u128,
)
    requires
        other != fp,
    ensures
        step(m, fp, o).dom().contains(other) == m.dom().contains(other),
        step(m, fp, o)[other] == m[other],
{
}

/// A finding that leaves the catalog as it is still does so after another
/// finding has been dealt with, as long as the two agree.
pub proof fn lemma_step_keeps_settled(
    m: Map<u128, RecordView>,
    fp: u128,
    o: ObservationView,
    fp2: u128,
    o2: ObservationView,
)
    requires
        settled(m, fp, o),
        fp2 != fp || o2 == o,
    ensures
        settled(step(m, fp2, o2), fp, o),
{
    if fp2 != fp {
        lemma_step_elsewhere(m, fp2, o2, fp);
    }
}

/// One change is reported for each finding.
pub proof fn lemma_changes_len(m: Map<u128, RecordView>, f: Seq<FindingView>)
    ensures
        changes(m, f).len() == f.len(),
    decreases f.len(),
{
    if f.len() > 0 {
        lemma_changes_len(m, f.drop_last());
    }
}

/// A part of consistent findings is consistent.
proof fn lemma_consistent_prefix(f: Seq<FindingView>)
    requires
        consistent(f),
        f.len() > 0,
    ensures
        consistent(f.drop_last()),
{
    let g = f.drop_last();
    assert forall|i: int, j: int|
        #![trigger g[i], g[j]]
        0 <= i < j < g.len() && g[i].fingerprint == g[j].fingerprint implies g[i].observation
        == g[j].observation by {
        assert(f[i].fingerprint == f[j].fingerprint);
    }
}

/// After a run over consistent findings each of them leaves the catalog as
/// it is.
pub proof fn lemma_run_settles(m: Map<u128, RecordView>, f: Seq<FindingView>, i: int)
    requires
        consistent(f),
        0 <= i < f.len(),
    ensures
        settled(run(m, f), f[i].fingerprint, f[i].observation),
    decreases f.len(),
{
    let g = f.drop_last();
    let before = run(m, g);
    if i == f.len() - 1 {
        lemma_step_settles(before, f.last().fingerprint, f.last().observation);
    } else {
        lemma_consistent_prefix(f);
        lemma_run_settles(m, g, i);
        assert(g[i] == f[i]);
        assert(f[i].fingerprint == f[f.len() - 1].fingerprint ==> f[i].observation == f[f.len()
            - 1].observation);
        lemma_step_keeps_settled(
            before,
            f[i].fingerprint,
            f[i].observation,
            f.last().fingerprint,
            f.last().observation,
        );
    }
}

/// A run over findings that each leave the catalog as it is changes
/// nothing, and reports no change that writes.
pub proof fn lemma_settled_run(m: Map<u128, RecordView>, f: Seq<FindingView>)
    requires
        forall|i: int|
            #![trigger f[i]]
            0 <= i < f.len() ==> settled(m, f[i].fingerprint, f[i].observation),
    ensures
        run(m, f) == m,
        changes(m, f).len() == f.len(),
        forall|i: int| 0 <= i < f.len() ==> !mutates(#[trigger] changes(m, f)[i]),
    decreases f.len(),
{
    if f.len() > 0 {
        let g = f.drop_last();
        assert forall|i: int| #![trigger g[i]] 0 <= i < g.len() implies settled(
            m,
            g[i].fingerprint,
            g[i].observation,
        ) by {
            assert(g[i] == f[i]);
        }
        lemma_settled_run(m, g);
        assert(settled(m, f[f.len() - 1].fingerprint, f[f.len() - 1].observation));
    }
}

/// Reconciling twice writes nothing the second time: when no file changes
/// between two runs, the second run leaves the catalog as the first left it
/// and reports neither an update nor a removal.
pub proof fn lemma_second_run_idle(m: Map<u128, RecordView>, f: Seq<FindingView>)
    requires
        consistent(f),
    ensures
        run(run(m, f), f) == run(m, f),
        changes(run(m, f), f).len() == f.len(),
        forall|i: int| 0 <= i < f.len() ==> !mutates(#[trigger] changes(run(m, f), f)[i]),
{
    let after = run(m, f);
    assert forall|i: int| #![trigger f[i]] 0 <= i < f.len() implies settled(
        after,
        f[i].fingerprint,
        f[i].observation,
    ) by {
        lemma_run_settles(m, f, i);
    }
    lemma_settled_run(after, f);
}

/// A run touches no record that none of the findings is about.
pub proof fn lemma_run_elsewhere(m: Map<u128, RecordView>, f: Seq<FindingView>, fp: u128)
    requires
        !mentions(f, fp),
    ensures
        run(m, f).dom().contains(fp) == m.dom().contains(fp),
        run(m, f)[fp] == m[fp],
    decreases f.len(),
{
    if f.len() > 0 {
        let g = f.drop_last();
        assert(!mentions(g, fp)) by {
            if mentions(g, fp) {
                let i = choose|i: int| #![trigger g[i]] 0 <= i < g.len() && g[i].fingerprint == fp;
                assert(f[i].fingerprint == fp);
            }
        }
        lemma_run_elsewhere(m, g, fp);
        assert(f[f.len() - 1].fingerprint != fp);
        lemma_step_elsewhere(run(m, g), f.last().fingerprint, f.last().observation, fp);
    }
}

/// A record whose file is missing is gone after the run.
pub proof fn lemma_missing_file_removes(m: Map<u128, RecordView>, f: Seq<FindingView>, i: int)
    requires
        consistent(f),
        0 <= i < f.len(),
        f[i].observation == ObservationView::Missing,
    ensures
        !run(m, f).dom().contains(f[i].fingerprint),
{
    lemma_run_settles(m, f, i);
}

/// The record that a run leaves under a fingerprint whose file was seen:
/// the record as it was where the file has the digest it was made from,
/// and else the record with the digest and the tags that were seen, and the
/// fingerprint and analysis it had.
pub proof fn lemma_present_file_result(m: Map<u128, RecordView>, f: Seq<FindingView>, i: int)
    requires
        consistent(f),
        0 <= i < f.len(),
        f[i].observation is Present,
        m.dom().contains(f[i].fingerprint),
    ensures
        run(m, f).dom().contains(f[i].fingerprint),
        run(m, f)[f[i].fingerprint] == (if verdict_of(m[f[i].fingerprint], f[i].observation)
            == Change::Intact {
            m[f[i].fingerprint]
        } else {
            renewed(m[f[i].fingerprint], f[i].observation)
        }),
    decreases f.len(),
{
    let fp = f[i].fingerprint;
    let o = f[i].observation;
    let g = f.drop_last();
    let before = run(m, g);
    let last = f[f.len() - 1];
    if last.fingerprint != fp {
        lemma_consistent_prefix(f);
        assert(g[i] == f[i]);
        lemma_present_file_result(m, g, i);
        lemma_step_elsewhere(before, last.fingerprint, last.observation, fp);
    } else {
        assert(last.observation == o) by {
            if i < f.len() - 1 {
                assert(f[i].fingerprint == f[f.len() - 1].fingerprint);
            }
        }
        if mentions(g, fp) {
            let k = choose|k: int| #![trigger g[k]] 0 <= k < g.len() && g[k].fingerprint == fp;
            lemma_consistent_prefix(f);
            assert(g[k] == f[k]);
            assert(f[k].fingerprint == f[f.len() - 1].fingerprint);
            assert(g[k].observation == o);
            lemma_present_file_result(m, g, k);
        } else {
            lemma_run_elsewhere(m, g, fp);
        }
    }
}

/// A record whose file has changed has, after the run, the digest that was
/// seen, and the fingerprint and the analysis that it had before.
pub proof fn lemma_changed_file_updates(m: Map<u128, RecordView>, f: Seq<FindingView>, i: int)
    requires
        consistent(f),
        0 <= i < f.len(),
        f[i].observation is Present,
        m.dom().contains(f[i].fingerprint),
    ensures
        run(m, f).dom().contains(f[i].fingerprint),
        run(m, f)[f[i].fingerprint].content_hash == f[i].observation->digest,
        run(m, f)[f[i].fingerprint].fingerprint == m[f[i].fingerprint].fingerprint,
        run(m, f)[f[i].fingerprint].analysis == m[f[i].fingerprint].analysis,
{
    lemma_present_file_result(m, f, i);
}

/// A run keeps every record under its own fingerprint.
pub proof fn lemma_run_keyed(m: Map<u128, RecordView>, f: Seq<FindingView>)
    requires
        keyed(m),
    ensures
        keyed(run(m, f)),
    decreases f.len(),
{
    if f.len() > 0 {
        lemma_run_keyed(m, f.drop_last());
    }
}

} // verus!
