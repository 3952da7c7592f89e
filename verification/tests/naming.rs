use wusic::naming::{file_name, file_stem, listing_line, push_hex, to_hex};
use wusic::record::Record;

#[test]
fn hex_is_lower_case_without_leading_zeros() {
    assert_eq!(to_hex(0), "0");
    assert_eq!(to_hex(9), "9");
    assert_eq!(to_hex(10), "a");
    assert_eq!(to_hex(15), "f");
    assert_eq!(to_hex(16), "10");
    assert_eq!(to_hex(0xdead_beef), "deadbeef");
    assert_eq!(to_hex(u128::MAX), "ffffffffffffffffffffffffffffffff");
    for n in [1u128, 17, 255, 256, 4095, 0x0123_4567_89ab_cdef, 1u128 << 100] {
        assert_eq!(to_hex(n), format!("{:x}", n));
    }
}

#[test]
fn hex_is_appended_to_what_is_there() {
    let mut text = String::from("x=");
    push_hex(&mut text, 0x2a);
    assert_eq!(text, "x=2a");
    push_hex(&mut text, 0);
    assert_eq!(text, "x=2a0");
}

#[test]
fn file_is_named_after_both_parts_of_the_fingerprint() {
    let fp: u128 = 0x0123_4567_89ab_cdef_0011_2233_4455_6677;
    assert_eq!(file_stem(fp), "123456789abcdef00112233_44556677");
    assert_eq!(file_name(fp, "opus"), "123456789abcdef00112233_44556677.opus");
    assert_eq!(file_stem(0), "0_0");
    assert_eq!(file_name(0, "tmp"), "0_0.tmp");
    assert_eq!(file_stem(1u128 << 32), "1_0");
    assert_eq!(file_stem(u128::MAX), "ffffffffffffffffffffffff_ffffffff");
    for fp in [5u128, 0xaaaa_aaaa_aaaa_aaaa_aaaa_aaaa_aaaa_aaaa, 1u128 << 127] {
        assert_eq!(
            file_name(fp, "opus"),
            format!("{:x}_{:x}.opus", fp >> 32, (fp << 96) >> 96)
        );
    }
}

#[test]
fn listing_line_names_artist_then_title_then_album() {
    let record = Record {
        content_hash: [0u8; 32],
        fingerprint: 0x1_0000_0002,
        title: String::from("Blue in Green"),
        artist: String::from("Miles Davis"),
        album: String::from("Kind of Blue"),
        analysis: [0u32; 20],
    };
    assert_eq!(listing_line(&record), "1_2 | Miles Davis - Blue in Green | Kind of Blue");
}

#[test]
fn different_fingerprints_name_different_files() {
    let fps: [u128; 6] = [0, 1, 1u128 << 32, (1u128 << 32) + 1, 0x10, 0x1_0000_0000_0000];
    for a in fps {
        for b in fps {
            assert_eq!(file_stem(a) == file_stem(b), a == b);
        }
    }
}
