use wusic::catalog::Catalog;
use wusic::record::{Feature, Record};

fn record(fingerprint: u128, title: &str) -> Record {
    let mut analysis = [0u32; 20];
    for (k, slot) in analysis.iter_mut().enumerate() {
        *slot = (k as f32 * 0.125).to_bits();
    }
    Record {
        content_hash: [fingerprint as u8; 32],
        fingerprint,
        title: String::from(title),
        artist: String::from("artist"),
        album: String::from("album"),
        analysis,
    }
}

#[test]
fn new_catalog_is_empty() {
    let catalog = Catalog::new();
    assert_eq!(catalog.len(), 0);
    assert!(catalog.is_empty());
    assert!(catalog.get(0).is_none());
    assert!(catalog.nth(0).is_none());
    assert!(!catalog.contains(7));
    assert_eq!(catalog.fingerprints(), Vec::<u128>::new());
}

#[test]
fn what_is_put_is_what_is_got() {
    let mut catalog = Catalog::new();
    let r = record(0xaaaa_aaaa_aaaa_aaaa_aaaa_aaaa_aaaa_aaaa, "first");
    catalog.put(r.clone());
    let found = catalog.get(r.fingerprint).unwrap();
    assert_eq!(found, &r);
    assert_eq!(found.content_hash, r.content_hash);
    assert_eq!(found.fingerprint, r.fingerprint);
    assert_eq!(found.title, r.title);
    assert_eq!(found.artist, r.artist);
    assert_eq!(found.album, r.album);
    assert_eq!(found.analysis, r.analysis);
    assert_eq!(catalog.len(), 1);
    assert!(catalog.contains(r.fingerprint));
}

#[test]
fn put_under_a_known_fingerprint_overwrites() {
    let mut catalog = Catalog::new();
    catalog.put(record(5, "old"));
    catalog.put(record(9, "other"));
    catalog.put(record(5, "new"));
    assert_eq!(catalog.len(), 2);
    assert_eq!(catalog.get(5).unwrap().title, "new");
    assert_eq!(catalog.get(9).unwrap().title, "other");
}

#[test]
fn scan_is_in_ascending_order_of_fingerprint() {
    let mut catalog = Catalog::new();
    for fp in [40u128, 10, 30, u128::MAX, 0, 20] {
        catalog.put(record(fp, "t"));
    }
    assert_eq!(catalog.fingerprints(), vec![0, 10, 20, 30, 40, u128::MAX]);
    assert_eq!(catalog.nth(0).unwrap().fingerprint, 0);
    assert_eq!(catalog.nth(5).unwrap().fingerprint, u128::MAX);
    assert!(catalog.nth(6).is_none());
}

#[test]
fn remove_drops_one_record_only() {
    let mut catalog = Catalog::new();
    for fp in [1u128, 2, 3] {
        catalog.put(record(fp, "t"));
    }
    assert!(catalog.remove(2));
    assert!(!catalog.remove(2));
    assert!(!catalog.remove(99));
    assert_eq!(catalog.fingerprints(), vec![1, 3]);
    assert!(catalog.get(2).is_none());
    assert_eq!(catalog.get(1).unwrap(), &record(1, "t"));
    assert_eq!(catalog.get(3).unwrap(), &record(3, "t"));
}

#[test]
fn record_is_kept_under_its_own_fingerprint() {
    let mut catalog = Catalog::new();
    for fp in [7u128, 3, 11] {
        catalog.put(record(fp, "t"));
    }
    for fp in catalog.fingerprints() {
        assert_eq!(catalog.get(fp).unwrap().fingerprint, fp);
    }
}

#[test]
fn duplicate_is_equal_in_every_field() {
    let r = record(77, "copy me");
    assert_eq!(r.duplicate(), r);
}

#[test]
fn digests_are_compared_byte_for_byte() {
    let r = record(3, "t");
    assert!(r.has_digest(&[3u8; 32]));
    let mut other = [3u8; 32];
    other[31] = 4;
    assert!(!r.has_digest(&other));
    other[31] = 3;
    other[0] = 0;
    assert!(!r.has_digest(&other));
}

#[test]
fn refreshed_record_keeps_fingerprint_and_analysis() {
    let r = record(3, "old title");
    let fresh = r.refreshed(
        [9u8; 32],
        String::from("new title"),
        String::from("new artist"),
        String::from("new album"),
    );
    assert_eq!(fresh.content_hash, [9u8; 32]);
    assert_eq!(fresh.fingerprint, r.fingerprint);
    assert_eq!(fresh.analysis, r.analysis);
    assert_eq!(fresh.title, "new title");
    assert_eq!(fresh.artist, "new artist");
    assert_eq!(fresh.album, "new album");
}

#[test]
fn features_are_found_at_their_places() {
    let r = record(1, "t");
    assert_eq!(Feature::Tempo.place(), 0);
    assert_eq!(Feature::ZeroCrossingRate.place(), 1);
    assert_eq!(Feature::MeanLoudness.place(), 8);
    assert_eq!(Feature::DeviationLoudness.place(), 9);
    assert_eq!(Feature::Chroma1.place(), 10);
    assert_eq!(Feature::Chroma10.place(), 19);
    assert_eq!(r.feature(Feature::Tempo), 0.0f32.to_bits());
    assert_eq!(r.feature(Feature::MeanLoudness), 1.0f32.to_bits());
    assert_eq!(r.feature(Feature::Chroma10), (19.0f32 * 0.125).to_bits());
}
