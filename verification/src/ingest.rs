//! Assessing a new track before it is taken into the catalog.
//!
//! A track whose fingerprint the catalog already holds is most likely a
//! track the catalog already has. A track with a new fingerprint may still
//! be close to one that is there, by sound or by title. Either way the
//! decision is the caller's: the assessment changes nothing.

use crate::catalog::Catalog;
use crate::record::RecordView;
use crate::search::{candidates_of, closest_of, find_closest, Closest};
use vstd::prelude::*;

verus! {

/// What the catalog has to say about a new track.
#[derive(Clone, Copy, Debug, PartialEq, Eq)]
pub enum Outcome {
    /// The catalog holds a record with the very fingerprint of the new track.
    Duplicate,
    /// The fingerprint is new, and these are the closest tracks there are.
    Candidates(Closest),
    /// The fingerprint is new and nothing in the catalog comes close.
    Accepted,
}

/// The outcome for a track, given whether its fingerprint is known and what
/// the search found.
pub open spec fn outcome_of(known: bool, found: Closest) -> Outcome {
    if known {
        Outcome::Duplicate
    } else if found.audio_best is Some || found.title_best is Some {
        Outcome::Candidates(found)
    } else {
        Outcome::Accepted
    }
}

/// The outcome for a track, given whether its fingerprint is known and what
/// the search found.
pub fn classify(known: bool, found: Closest) -> (outcome: Outcome)
    ensures
        outcome == outcome_of(known, found),
{
    if known {
        Outcome::Duplicate
    } else if found.audio_best.is_some() || found.title_best.is_some() {
        Outcome::Candidates(found)
    } else {
        Outcome::Accepted
    }
}

/// Assesses a new track with this fingerprint and title against the catalog.
///
/// `distances[i]` is the bit pattern of the audio distance between the new
/// track and the record at place `i` of the scan of the catalog.
pub fn assess(
    catalog: &Catalog,
    fingerprint: u128,
    title: &str,
    distances: &Vec<u32>,
) -> (outcome: Outcome)
    requires
        catalog.wf(),
    ensures
        outcome == outcome_of(
            catalog@.dom().contains(fingerprint),
            closest_of(candidates_of(title@, distances@, catalog.entries())),
        ),
        catalog.entries().len() == 0 ==> outcome == Outcome::Accepted,
{
    if catalog.contains(fingerprint) {
        proof {
            assert(catalog.entries().len() > 0) by {
                crate::catalog::lemma_empty_holds_nothing(catalog.entries());
            }
        }
        Outcome::Duplicate
    } else {
        let found: Closest = find_closest(title, distances, catalog);
        proof {
            if catalog.entries().len() == 0 {
                crate::search::lemma_nothing_to_find(
                    candidates_of(title@, distances@, catalog.entries()),
                );
            }
        }
        classify(false, found)
    }
}

} // verus!
