//! Finding the catalogued tracks closest to a new one.
//!
//! The search is one scan over the catalog in ascending order of fingerprint.
//! Two things are looked for at once: the track at the smallest audio
//! distance, and the track whose title scores highest against the title of
//! the new track. A distance counts only if it is a number below infinity, a
//! score only if it is a number above zero. On a tie the track met first
//! wins, which is the one with the lowest fingerprint.

use crate::catalog::Catalog;
use crate::ieee::{
    in_unit_interval, is_less, is_nan, less, place, INFINITY, NOT_A_NUMBER, ONE, ZERO,
};
use crate::record::RecordView;
use vstd::prelude::*;

verus! {

/// A catalogued track as the search sees it.
#[derive(Clone, Copy, Debug, PartialEq, Eq)]
pub struct Candidate {
    /// Fingerprint of the catalogued track.
    pub fingerprint: u128,
    /// Bit pattern of its audio distance from the new track; smaller is
    /// closer.
    pub distance: u32,
    /// Bit pattern of the score of its title against the new title; higher
    /// is more similar.
    pub score: u32,
}

/// What a search found.
#[derive(Clone, Copy, Debug, PartialEq, Eq)]
pub struct Closest {
    /// The track at the smallest audio distance, if any distance counted.
    pub audio_best: Option<u128>,
    /// Bit pattern of that distance, or of infinity.
    pub audio_distance: u32,
    /// The track with the highest title score, if any score counted.
    pub title_best: Option<u128>,
    /// Bit pattern of that score, or of zero.
    pub title_score: u32,
}

/// Whether candidate `i` is the one a scan of the first `n` candidates ends
/// up with as nearest: its distance is a number below infinity, no distance
/// is below it, and every number before it is strictly above it.
pub open spec fn nearest_in(c: Seq<Candidate>, n: int, i: int) -> bool {
    &&& 0 <= i < n <= c.len()
    &&& less(c[i].distance, INFINITY)
    &&& forall|j: int| 0 <= j < n ==> !less(#[trigger] c[j].distance, c[i].distance)
    &&& forall|j: int|
        0 <= j < i ==> is_nan(#[trigger] c[j].distance) || less(c[i].distance, c[j].distance)
}

/// Whether candidate `i` is the one a scan of the first `n` candidates ends
/// up with as best by title: its score is a number above zero, no score is
/// above it, and every number before it is strictly below it.
pub open spec fn best_titled_in(c: Seq<Candidate>, n: int, i: int) -> bool {
    &&& 0 <= i < n <= c.len()
    &&& less(ZERO, c[i].score)
    &&& forall|j: int| 0 <= j < n ==> !less(c[i].score, #[trigger] c[j].score)
    &&& forall|j: int| 0 <= j < i ==> is_nan(#[trigger] c[j].score) || less(c[j].score, c[i].score)
}

/// The place of the nearest candidate, if any distance counts.
pub open spec fn nearest(c: Seq<Candidate>) -> Option<int> {
    if exists|i: int| nearest_in(c, c.len() as int, i) {
        Some(choose|i: int| nearest_in(c, c.len() as int, i))
    } else {
        None
    }
}

/// The place of the candidate with the best title, if any score counts.
pub open spec fn best_titled(c: Seq<Candidate>) -> Option<int> {
    if exists|i: int| best_titled_in(c, c.len() as int, i) {
        Some(choose|i: int| best_titled_in(c, c.len() as int, i))
    } else {
        None
    }
}

/// What a search over the candidates `c` finds.
pub open spec fn closest_of(c: Seq<Candidate>) -> Closest {
    Closest {
        audio_best: match nearest(c) {
            Some(i) => Some(c[i].fingerprint),
            None => None,
        },
        audio_distance: match nearest(c) {
            Some(i) => c[i].distance,
            None => INFINITY,
        },
        title_best: match best_titled(c) {
            Some(i) => Some(c[i].fingerprint),
            None => None,
        },
        title_score: match best_titled(c) {
            Some(i) => c[i].score,
            None => ZERO,
        },
    }
}

/// At most one candidate is the nearest.
pub proof fn lemma_nearest_unique(c: Seq<Candidate>, n: int, i: int, k: int)
    requires
        nearest_in(c, n, i),
        nearest_in(c, n, k),
    ensures
        i == k,
{
    if i < k {
        assert(is_nan(c[i].distance) || less(c[k].distance, c[i].distance));
        assert(!less(c[k].distance, c[i].distance));
    } else if k < i {
        assert(is_nan(c[k].distance) || less(c[i].distance, c[k].distance));
        assert(!less(c[i].distance, c[k].distance));
    }
}

/// At most one candidate is the best by title.
pub proof fn lemma_best_titled_unique(c: Seq<Candidate>, n: int, i: int, k: int)
    requires
        best_titled_in(c, n, i),
        best_titled_in(c, n, k),
    ensures
        i == k,
{
    if i < k {
        assert(is_nan(c[i].score) || less(c[i].score, c[k].score));
        assert(!less(c[i].score, c[k].score));
    } else if k < i {
        assert(is_nan(c[k].score) || less(c[k].score, c[i].score));
        assert(!less(c[k].score, c[i].score));
    }
}

/// A candidate whose distance is a number below infinity and strictly below
/// every other distance that is a number is the nearest.
pub proof fn lemma_strictly_nearest_wins(c: Seq<Candidate>, i: int)
    requires
        0 <= i < c.len(),
        less(c[i].distance, INFINITY),
        forall|j: int|
            0 <= j < c.len() && j != i ==> is_nan(#[trigger] c[j].distance) || less(
                c[i].distance,
                c[j].distance,
            ),
    ensures
        closest_of(c).audio_best == Some(c[i].fingerprint),
        closest_of(c).audio_distance == c[i].distance,
{
    assert(nearest_in(c, c.len() as int, i));
    lemma_nearest_unique(c, c.len() as int, i, choose|k: int| nearest_in(c, c.len() as int, k));
}

/// Among the candidates that score one, where no score is above one, the
/// first is the best by title.
pub proof fn lemma_first_full_score_wins(c: Seq<Candidate>, i: int)
    requires
        0 <= i < c.len(),
        c[i].score == ONE,
        forall|j: int| 0 <= j < c.len() ==> in_unit_interval(#[trigger] c[j].score),
        forall|j: int| 0 <= j < i ==> (#[trigger] c[j].score) != ONE,
    ensures
        closest_of(c).title_best == Some(c[i].fingerprint),
        closest_of(c).title_score == ONE,
{
    assert(best_titled_in(c, c.len() as int, i));
    lemma_best_titled_unique(
        c,
        c.len() as int,
        i,
        choose|k: int| best_titled_in(c, c.len() as int, k),
    );
}

/// Whether the fingerprints of the candidates rise strictly from each to the
/// next, as they do in a scan of the catalog.
pub open spec fn rising(c: Seq<Candidate>) -> bool {
    forall|i: int, j: int|
        #![trigger c[i], c[j]]
        0 <= i < j < c.len() ==> c[i].fingerprint < c[j].fingerprint
}

/// On a tie the lowest fingerprint wins: in a scan of the catalog no
/// candidate at the same distance as the nearest, and none with the same
/// score as the best by title, has a lower fingerprint than it.
pub proof fn lemma_lowest_fingerprint_wins(c: Seq<Candidate>, i: int, j: int)
    requires
        rising(c),
        0 <= i < c.len(),
        0 <= j < c.len(),
    ensures
        nearest_in(c, c.len() as int, i) && !is_nan(c[j].distance) && place(c[j].distance) == place(
            c[i].distance,
        ) ==> c[i].fingerprint <= c[j].fingerprint,
        best_titled_in(c, c.len() as int, i) && !is_nan(c[j].score) && place(c[j].score) == place(
            c[i].score,
        ) ==> c[i].fingerprint <= c[j].fingerprint,
{
    if j < i {
        assert(c[j].fingerprint < c[i].fingerprint);
        if nearest_in(c, c.len() as int, i) {
            assert(is_nan(c[j].distance) || less(c[i].distance, c[j].distance));
        }
        if best_titled_in(c, c.len() as int, i) {
            assert(is_nan(c[j].score) || less(c[j].score, c[i].score));
        }
    } else if i < j {
        assert(c[i].fingerprint < c[j].fingerprint);
    }
}

/// The candidates met in a scan of a well-formed catalog have rising
/// fingerprints.
pub proof fn lemma_scan_rising(title: Seq<char>, distances: Seq<u32>, entries: Seq<RecordView>)
    requires
        crate::catalog::ascending(entries),
    ensures
        rising(candidates_of(title, distances, entries)),
{
    let c = candidates_of(title, distances, entries);
    assert forall|i: int, j: int| #![trigger c[i], c[j]] 0 <= i < j < c.len() implies c[i].fingerprint
        < c[j].fingerprint by {
        assert(entries[i].fingerprint < entries[j].fingerprint);
    }
}

/// With no candidate at all nothing is found: no track, distance infinity,
/// score zero.
pub proof fn lemma_nothing_to_find(c: Seq<Candidate>)
    requires
        c.len() == 0,
    ensures
        closest_of(c) == (Closest {
            audio_best: None,
            audio_distance: INFINITY,
            title_best: None,
            title_score: ZERO,
        }),
{
}

/// Scans the candidates in order and picks the nearest and the best by
/// title.
pub fn select_closest(candidates: &Vec<Candidate>) -> (found: Closest)
    ensures
        found == closest_of(candidates@),
{
    let n: usize = candidates.len();
    let mut audio_best: Option<u128> = None;
    let mut audio_distance: u32 = INFINITY;
    let mut title_best: Option<u128> = None;
    let mut title_score: u32 = ZERO;
    let ghost c = candidates@;
    let ghost mut audio_at: int = 0;
    let ghost mut title_at: int = 0;
    let mut i: usize = 0;
    while i < n
        invariant
            i <= n,
            n == c.len(),
            c == candidates@,
            match audio_best {
                Some(fp) => nearest_in(c, i as int, audio_at) && c[audio_at].fingerprint == fp
                    && c[audio_at].distance == audio_distance,
                None => audio_distance == INFINITY && forall|j: int|
                    0 <= j < i ==> !less(#[trigger] c[j].distance, INFINITY),
            },
            match title_best {
                Some(fp) => best_titled_in(c, i as int, title_at) && c[title_at].fingerprint == fp
                    && c[title_at].score == title_score,
                None => title_score == ZERO && forall|j: int|
                    0 <= j < i ==> !less(ZERO, #[trigger] c[j].score),
            },
        decreases n - i,
    {
        let candidate: Candidate = candidates[i];
        if is_less(candidate.distance, audio_distance) {
            audio_distance = candidate.distance;
            audio_best = Some(candidate.fingerprint);
            proof {
                audio_at = i as int;
            }
        }
        if is_less(title_score, candidate.score) {
            title_score = candidate.score;
            title_best = Some(candidate.fingerprint);
            proof {
                title_at = i as int;
            }
        }
        i += 1;
    }
    proof {
        match audio_best {
            Some(fp) => {
                lemma_nearest_unique(
                    c,
                    n as int,
                    audio_at,
                    choose|k: int| nearest_in(c, c.len() as int, k),
                );
            },
            None => {
                assert forall|k: int| !nearest_in(c, c.len() as int, k) by {
                    if 0 <= k < c.len() {
                        assert(!less(c[k].distance, INFINITY));
                    }
                }
            },
        }
        match title_best {
            Some(fp) => {
                lemma_best_titled_unique(
                    c,
                    n as int,
                    title_at,
                    choose|k: int| best_titled_in(c, c.len() as int, k),
                );
            },
            None => {
                assert forall|k: int| !best_titled_in(c, c.len() as int, k) by {
                    if 0 <= k < c.len() {
                        assert(!less(ZERO, c[k].score));
                    }
                }
            },
        }
    }
    Closest { audio_best, audio_distance, title_best, title_score }
}

/// The score of `title` against `query`, as the bit pattern of a
/// single-precision number: how large a share of the three-letter groups of
/// `query` occurs in `title`.
pub uninterp spec fn title_score(query: Seq<char>, title: Seq<char>) -> u32;

/// Calls `rust_fuzzy_search::fuzzy_compare` and hands back the bit pattern of
/// its result.
///
/// Believed of it: the result depends on the two strings alone; it is a
/// number from zero to one with its sign bit clear, because the function
/// divides a count of matches, which starts at zero and only grows, by a
/// positive length and replaces whatever lies outside zero to one by zero;
/// and a string compared with itself scores exactly one, because each of its
/// groups is found, so that the count equals the length it is divided by, as
/// long as that count can be held exactly in single precision.
#[verifier::external_body]
fn fuzzy_score(query: &str, title: &str) -> (bits: u32)
    ensures
        bits == title_score(query@, title@),
        in_unit_interval(bits),
        query@ == title@ && query@.len() < 0x100_0000 ==> bits == ONE,
{
    rust_fuzzy_search::fuzzy_compare(query, title).to_bits()
}

/// The distance that belongs to the record at place `i` of the scan. A
/// record for which no distance was handed in is treated as at no distance
/// at all: it is never the nearest.
pub open spec fn distance_at(distances: Seq<u32>, i: int) -> u32 {
    if 0 <= i < distances.len() {
        distances[i]
    } else {
        NOT_A_NUMBER
    }
}

/// The candidates that a search for `title` meets in a catalog with these
/// entries, given the audio distance of each entry.
pub open spec fn candidates_of(
    title: Seq<char>,
    distances: Seq<u32>,
    entries: Seq<RecordView>,
) -> Seq<Candidate> {
    Seq::new(
        entries.len(),
        |i: int|
            Candidate {
                fingerprint: entries[i].fingerprint,
                distance: distance_at(distances, i),
                score: title_score(title, entries[i].title),
            },
    )
}

/// Finds the catalogued tracks closest to a new track with this title.
///
/// `distances[i]` is the bit pattern of the audio distance between the new
/// track and the record at place `i` of the scan of the catalog. Titles are
/// scored here. On a tie the record met first wins, that is the one with
/// the lowest fingerprint.
///
/// A record whose title is the title asked for is the best by title, with
/// score one, unless a record before it scores one as well.
pub fn find_closest(title: &str, distances: &Vec<u32>, catalog: &Catalog) -> (found: Closest)
    ensures
        found == closest_of(candidates_of(title@, distances@, catalog.entries())),
        forall|i: int|
            #![trigger catalog.entries()[i]]
            0 <= i < catalog.entries().len() && catalog.entries()[i].title == title@ && title@.len()
                < 0x100_0000 && (forall|j: int|
                0 <= j < i ==> title_score(title@, #[trigger] catalog.entries()[j].title) != ONE)
                ==> found.title_best == Some(catalog.entries()[i].fingerprint) && found.title_score
                == ONE,
{
    let n: usize = catalog.len();
    let ghost entries = catalog.entries();
    let ghost wanted = candidates_of(title@, distances@, entries);
    let mut candidates: Vec<Candidate> = Vec::new();
    let mut i: usize = 0;
    while i < n
        invariant
            i <= n,
            n == entries.len(),
            entries == catalog.entries(),
            wanted == candidates_of(title@, distances@, entries),
            candidates@.len() == i,
            forall|j: int| 0 <= j < i ==> candidates@[j] == wanted[j],
            forall|j: int| 0 <= j < i ==> in_unit_interval(#[trigger] wanted[j].score),
            forall|j: int|
                0 <= j < i && entries[j].title == title@ && title@.len() < 0x100_0000 ==> (
                #[trigger] wanted[j]).score == ONE,
        decreases n - i,
    {
        match catalog.nth(i) {
            Some(record) => {
                let distance: u32 = if i < distances.len() {
                    distances[i]
                } else {
                    NOT_A_NUMBER
                };
                let score: u32 = fuzzy_score(title, record.title.as_str());
                candidates.push(Candidate { fingerprint: record.fingerprint, distance, score });
            },
            None => {
                assert(false);
            },
        }
        i += 1;
    }
    assert(candidates@ =~= wanted);
    let found: Closest = select_closest(&candidates);
    proof {
        assert forall|i: int|
            #![trigger catalog.entries()[i]]
            0 <= i < entries.len() && entries[i].title == title@ && title@.len() < 0x100_0000 && (
            forall|j: int| 0 <= j < i ==> title_score(title@, #[trigger] entries[j].title) != ONE)
            implies found.title_best == Some(entries[i].fingerprint) && found.title_score == ONE by {
            assert(wanted[i].score == ONE);
            assert forall|j: int| 0 <= j < i implies (#[trigger] wanted[j].score) != ONE by {
                assert(title_score(title@, entries[j].title) != ONE);
            }
            lemma_first_full_score_wins(wanted, i);
        }
    }
    found
}

} // verus!
