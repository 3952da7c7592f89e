use rust_fuzzy_search::fuzzy_compare;
use wusic::catalog::Catalog;
use wusic::ieee::{INFINITY, NOT_A_NUMBER, ONE, ZERO};
use wusic::record::Record;
use wusic::search::{find_closest, select_closest, Candidate, Closest};

fn vector(seed: u32) -> [f32; 20] {
    let mut v = [0.0f32; 20];
    for (k, slot) in v.iter_mut().enumerate() {
        *slot = ((seed as usize * 7 + k * 13) % 17) as f32 / 17.0 - 0.4;
    }
    v
}

fn bits(v: &[f32; 20]) -> [u32; 20] {
    let mut out = [0u32; 20];
    for k in 0..20 {
        out[k] = v[k].to_bits();
    }
    out
}

fn cosine_distance(a: &[f32; 20], b: &[f32; 20]) -> f32 {
    let dot = |x: &[f32; 20], y: &[f32; 20]| -> f32 {
        let mut sum = 0.0f32;
        for k in 0..20 {
            sum += x[k] * y[k];
        }
        sum
    };
    1.0 - dot(a, b) / (dot(a, a).sqrt() * dot(b, b).sqrt())
}

fn record(fingerprint: u128, title: &str, v: &[f32; 20]) -> Record {
    Record {
        content_hash: [0u8; 32],
        fingerprint,
        title: String::from(title),
        artist: String::from("artist"),
        album: String::from("album"),
        analysis: bits(v),
    }
}

fn distances(query: &[f32; 20], catalog: &Catalog) -> Vec<u32> {
    let mut out = Vec::new();
    let mut i = 0;
    while let Some(r) = catalog.nth(i) {
        let mut stored = [0.0f32; 20];
        for k in 0..20 {
            stored[k] = f32::from_bits(r.analysis[k]);
        }
        out.push(cosine_distance(query, &stored).to_bits());
        i += 1;
    }
    out
}

fn candidate(fingerprint: u128, distance: f32, score: f32) -> Candidate {
    Candidate { fingerprint, distance: distance.to_bits(), score: score.to_bits() }
}

#[test]
fn nothing_is_found_among_no_candidates() {
    let found = select_closest(&Vec::new());
    assert_eq!(
        found,
        Closest { audio_best: None, audio_distance: INFINITY, title_best: None, title_score: ZERO }
    );
    assert_eq!(f32::from_bits(found.audio_distance), f32::INFINITY);
    assert_eq!(f32::from_bits(found.title_score), 0.0);
}

#[test]
fn nothing_is_found_in_an_empty_catalog() {
    let found = find_closest("any title", &Vec::new(), &Catalog::new());
    assert_eq!(
        found,
        Closest { audio_best: None, audio_distance: INFINITY, title_best: None, title_score: ZERO }
    );
}

#[test]
fn smallest_distance_and_highest_score_win() {
    let c = vec![
        candidate(1, 0.5, 0.25),
        candidate(2, 0.125, 0.5),
        candidate(3, 0.25, 0.75),
        candidate(4, 1.5, 0.0),
    ];
    let found = select_closest(&c);
    assert_eq!(found.audio_best, Some(2));
    assert_eq!(found.audio_distance, 0.125f32.to_bits());
    assert_eq!(found.title_best, Some(3));
    assert_eq!(found.title_score, 0.75f32.to_bits());
}

#[test]
fn first_met_wins_a_tie() {
    let c = vec![
        candidate(10, 0.25, 0.5),
        candidate(20, 0.25, 0.5),
        candidate(30, 0.25, 0.5),
    ];
    let found = select_closest(&c);
    assert_eq!(found.audio_best, Some(10));
    assert_eq!(found.title_best, Some(10));
}

#[test]
fn the_two_zeros_tie() {
    let c = vec![candidate(1, 0.0, 0.5), candidate(2, -0.0, 0.5)];
    let found = select_closest(&c);
    assert_eq!(found.audio_best, Some(1));
    assert_eq!(found.audio_distance, 0.0f32.to_bits());
    let c = vec![candidate(1, -0.0, 0.5), candidate(2, 0.0, 0.5)];
    let found = select_closest(&c);
    assert_eq!(found.audio_best, Some(1));
    assert_eq!(found.audio_distance, (-0.0f32).to_bits());
}

#[test]
fn what_is_no_number_never_wins() {
    let c = vec![
        candidate(1, f32::NAN, f32::NAN),
        candidate(2, 0.75, 0.125),
        candidate(3, f32::NAN, f32::NAN),
    ];
    let found = select_closest(&c);
    assert_eq!(found.audio_best, Some(2));
    assert_eq!(found.title_best, Some(2));
    let c = vec![candidate(1, f32::NAN, f32::NAN), candidate(2, -f32::NAN, -f32::NAN)];
    let found = select_closest(&c);
    assert_eq!(found.audio_best, None);
    assert_eq!(found.audio_distance, INFINITY);
    assert_eq!(found.title_best, None);
    assert_eq!(found.title_score, ZERO);
}

#[test]
fn infinite_distance_and_zero_score_do_not_count() {
    let c = vec![candidate(1, f32::INFINITY, 0.0), candidate(2, f32::INFINITY, -0.0)];
    let found = select_closest(&c);
    assert_eq!(found.audio_best, None);
    assert_eq!(found.title_best, None);
    let c = vec![candidate(1, f32::MAX, f32::MIN_POSITIVE), candidate(2, f32::INFINITY, -1.0)];
    let found = select_closest(&c);
    assert_eq!(found.audio_best, Some(1));
    assert_eq!(found.title_best, Some(1));
}

#[test]
fn negative_distance_is_below_zero() {
    let c = vec![candidate(1, 0.0, 0.5), candidate(2, -1.0e-7, 0.5)];
    let found = select_closest(&c);
    assert_eq!(found.audio_best, Some(2));
    assert_eq!(found.audio_distance, (-1.0e-7f32).to_bits());
}

#[test]
fn titles_are_scored_by_shared_groups_of_three() {
    let mut catalog = Catalog::new();
    catalog.put(record(1, "kolbasobulko", &vector(1)));
    catalog.put(record(2, "sandwich", &vector(2)));
    let found = find_closest("bulko", &Vec::new(), &catalog);
    assert_eq!(found.title_best, Some(1));
    assert_eq!(found.title_score, fuzzy_compare("bulko", "kolbasobulko").to_bits());
    assert_ne!(found.title_score, ZERO);
    assert_ne!(found.title_score, ONE);
    assert_eq!(found.audio_best, None);
}

#[test]
fn equal_title_is_the_best_with_score_one() {
    let mut catalog = Catalog::new();
    catalog.put(record(1, "So What", &vector(1)));
    catalog.put(record(2, "Blue in Green", &vector(2)));
    catalog.put(record(3, "All Blues", &vector(3)));
    let found = find_closest("Blue in Green", &Vec::new(), &catalog);
    assert_eq!(found.title_best, Some(2));
    assert_eq!(found.title_score, ONE);
    assert_eq!(f32::from_bits(found.title_score), 1.0);
}

#[test]
fn empty_title_matches_an_empty_title() {
    let mut catalog = Catalog::new();
    catalog.put(record(1, "something", &vector(1)));
    catalog.put(record(2, "", &vector(2)));
    let found = find_closest("", &Vec::new(), &catalog);
    assert_eq!(found.title_best, Some(2));
    assert_eq!(found.title_score, ONE);
}

#[test]
fn earlier_record_that_scores_one_wins_over_the_equal_title() {
    let mut catalog = Catalog::new();
    catalog.put(record(1, "abab", &vector(1)));
    catalog.put(record(2, "ab", &vector(2)));
    let found = find_closest("ab", &Vec::new(), &catalog);
    assert_eq!(fuzzy_compare("ab", "abab"), 1.0);
    assert_eq!(found.title_best, Some(1));
    assert_eq!(found.title_score, ONE);
}

#[test]
fn equal_vector_is_the_nearest_at_distance_about_zero() {
    let mut catalog = Catalog::new();
    for seed in 1..8u32 {
        catalog.put(record(seed as u128 * 100, "t", &vector(seed)));
    }
    let query = vector(5);
    let found = find_closest("unrelated", &distances(&query, &catalog), &catalog);
    assert_eq!(found.audio_best, Some(500));
    assert!(f32::from_bits(found.audio_distance).abs() < 1.0e-6);
}

#[test]
fn record_without_a_distance_is_never_the_nearest() {
    let mut catalog = Catalog::new();
    catalog.put(record(1, "a", &vector(1)));
    catalog.put(record(2, "b", &vector(2)));
    catalog.put(record(3, "c", &vector(3)));
    let found = find_closest("zzz", &vec![0.5f32.to_bits(), 0.75f32.to_bits()], &catalog);
    assert_eq!(found.audio_best, Some(1));
    let found = find_closest("zzz", &vec![NOT_A_NUMBER, 0.75f32.to_bits()], &catalog);
    assert_eq!(found.audio_best, Some(2));
    let found = find_closest("zzz", &Vec::new(), &catalog);
    assert_eq!(found.audio_best, None);
    assert_eq!(found.audio_distance, INFINITY);
    let many = vec![0.5f32.to_bits(), 0.75f32.to_bits(), 0.875f32.to_bits(), 0.0f32.to_bits()];
    let found = find_closest("zzz", &many, &catalog);
    assert_eq!(found.audio_best, Some(1));
}

#[test]
fn lowest_fingerprint_wins_a_tie_in_the_catalog() {
    let mut catalog = Catalog::new();
    catalog.put(record(30, "same", &vector(1)));
    catalog.put(record(10, "same", &vector(1)));
    catalog.put(record(20, "same", &vector(1)));
    let even = vec![0.25f32.to_bits(); 3];
    let found = find_closest("same", &even, &catalog);
    assert_eq!(found.audio_best, Some(10));
    assert_eq!(found.title_best, Some(10));
}
