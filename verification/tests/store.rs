use wusic::keys::key_bytes;
use wusic::record::Record;
use wusic::store::{load, vet, Stored};

fn record(fingerprint: u128, title: &str) -> Record {
    Record {
        content_hash: [2u8; 32],
        fingerprint,
        title: String::from(title),
        artist: String::from("artist"),
        album: String::from("album"),
        analysis: [7u32; 20],
    }
}

fn entry(key: u128, record: Option<Record>) -> Stored {
    Stored { key: key_bytes(key).to_vec(), record }
}

#[test]
fn record_under_its_own_key_is_taken() {
    let e = entry(5, Some(record(5, "t")));
    assert_eq!(vet(&e), Some(&record(5, "t")));
}

#[test]
fn unreadable_value_is_skipped() {
    assert_eq!(vet(&entry(5, None)), None);
}

#[test]
fn record_under_another_key_is_skipped() {
    assert_eq!(vet(&entry(6, Some(record(5, "t")))), None);
    let short = Stored { key: vec![0, 0, 5], record: Some(record(5, "t")) };
    assert_eq!(vet(&short), None);
    let empty = Stored { key: Vec::new(), record: Some(record(0, "t")) };
    assert_eq!(vet(&empty), None);
}

#[test]
fn one_bad_entry_does_not_stop_the_scan() {
    let entries = vec![
        entry(1, Some(record(1, "one"))),
        entry(2, None),
        entry(3, Some(record(3, "three"))),
        entry(4, Some(record(40, "misplaced"))),
        entry(5, Some(record(5, "five"))),
    ];
    let (catalog, skipped) = load(&entries);
    assert_eq!(skipped, 2);
    assert_eq!(catalog.fingerprints(), vec![1, 3, 5]);
    assert_eq!(catalog.get(3).unwrap(), &record(3, "three"));
}

#[test]
fn nothing_stored_makes_an_empty_catalog() {
    let (catalog, skipped) = load(&Vec::new());
    assert_eq!(skipped, 0);
    assert!(catalog.is_empty());
}

#[test]
fn later_entry_under_the_same_key_stands() {
    let entries = vec![entry(1, Some(record(1, "early"))), entry(1, Some(record(1, "late")))];
    let (catalog, skipped) = load(&entries);
    assert_eq!(skipped, 0);
    assert_eq!(catalog.len(), 1);
    assert_eq!(catalog.get(1).unwrap().title, "late");
}
