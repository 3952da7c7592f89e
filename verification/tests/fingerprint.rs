use half::f16;
use wusic::fingerprint::{
    fingerprint, lower_bits, pack_halves, pack_words, unpack_words, upper_bits, Signature,
};

// Places of the features in an analysis, as the analyzer orders them.
const TEMPO: usize = 0;
const ZCR: usize = 1;
const MEAN_CENTROID: usize = 2;
const DEV_CENTROID: usize = 3;
const MEAN_ROLLOFF: usize = 4;
const DEV_ROLLOFF: usize = 5;
const MEAN_FLATNESS: usize = 6;
const DEV_FLATNESS: usize = 7;
const MEAN_LOUDNESS: usize = 8;
const DEV_LOUDNESS: usize = 9;
const CHROMA: usize = 10;

fn ratio(a: f32, b: f32, c: f32, d: f32) -> f32 {
    (a * b * c * d) / (a + b + c + d)
}

fn signature_of(v: &[f32; 20]) -> Signature {
    Signature {
        mean_ratio: f16::from_f32(ratio(
            v[MEAN_LOUDNESS],
            v[MEAN_CENTROID],
            v[MEAN_FLATNESS],
            v[MEAN_ROLLOFF],
        ))
        .to_bits(),
        deviation_ratio: f16::from_f32(ratio(
            v[DEV_LOUDNESS],
            v[DEV_CENTROID],
            v[DEV_FLATNESS],
            v[DEV_ROLLOFF],
        ))
        .to_bits(),
        odd_chroma: (v[CHROMA] + v[CHROMA + 2] + v[CHROMA + 4] + v[CHROMA + 6] + v[CHROMA + 8])
            .to_bits(),
        even_chroma: (v[CHROMA + 1]
            + v[CHROMA + 3]
            + v[CHROMA + 5]
            + v[CHROMA + 7]
            + v[CHROMA + 9])
            .to_bits(),
        rhythm: (v[TEMPO] + v[ZCR]).to_bits(),
    }
}

fn sample() -> [f32; 20] {
    let mut v = [0.0f32; 20];
    v[TEMPO] = 0.5;
    v[ZCR] = 0.25;
    v[MEAN_LOUDNESS] = 1.0;
    v[MEAN_CENTROID] = 2.0;
    v[MEAN_FLATNESS] = 3.0;
    v[MEAN_ROLLOFF] = 4.0;
    v[DEV_LOUDNESS] = 1.0;
    v[DEV_CENTROID] = 1.0;
    v[DEV_FLATNESS] = 1.0;
    v[DEV_ROLLOFF] = 1.0;
    for k in 0..10 {
        v[CHROMA + k] = if k % 2 == 0 { 0.5 } else { 0.25 };
    }
    v
}

#[test]
fn halves_stand_side_by_side() {
    assert_eq!(pack_halves(0x3c00, 0x7e00), 0x3c00_7e00);
    assert_eq!(pack_halves(0, 0xffff), 0x0000_ffff);
    assert_eq!(pack_halves(0xffff, 0), 0xffff_0000);
}

#[test]
fn words_stand_lowest_first() {
    let fp = pack_words(0x1111_1111, 0x2222_2222, 0x3333_3333, 0x4444_4444);
    assert_eq!(fp, 0x4444_4444_3333_3333_2222_2222_1111_1111);
    assert_eq!(unpack_words(fp), [0x1111_1111, 0x2222_2222, 0x3333_3333, 0x4444_4444]);
}

#[test]
fn words_are_read_back_at_the_extremes() {
    assert_eq!(pack_words(0, 0, 0, 0), 0);
    assert_eq!(pack_words(u32::MAX, u32::MAX, u32::MAX, u32::MAX), u128::MAX);
    assert_eq!(unpack_words(u128::MAX), [u32::MAX; 4]);
    assert_eq!(unpack_words(1u128 << 96), [0, 0, 0, 1]);
}

#[test]
fn fingerprint_of_a_signature() {
    let signature = Signature {
        mean_ratio: 0xaaaa,
        deviation_ratio: 0xbbbb,
        odd_chroma: 0xcccc_cccc,
        even_chroma: 0xdddd_dddd,
        rhythm: 0xeeee_eeee,
    };
    assert_eq!(fingerprint(&signature), 0xeeee_eeee_dddd_dddd_cccc_cccc_aaaa_bbbb);
}

#[test]
fn fingerprint_of_a_vector_has_the_expected_words() {
    let signature = signature_of(&sample());
    // 24 / 10 = 2.4, which in half precision is 0x40cd; 1 / 4 is 0x3400.
    assert_eq!(signature.mean_ratio, 0x40cd);
    assert_eq!(signature.deviation_ratio, 0x3400);
    assert_eq!(signature.odd_chroma, 2.5f32.to_bits());
    assert_eq!(signature.even_chroma, 1.25f32.to_bits());
    assert_eq!(signature.rhythm, 0.75f32.to_bits());
    let fp = fingerprint(&signature);
    assert_eq!(fp, 0x3f40_0000_3fa0_0000_4020_0000_40cd_3400);
}

#[test]
fn fingerprint_is_the_same_on_every_call() {
    let v = sample();
    let first = fingerprint(&signature_of(&v));
    for _ in 0..10 {
        assert_eq!(fingerprint(&signature_of(&v)), first);
    }
}

#[test]
fn a_zero_sum_gives_the_pattern_of_no_number() {
    let mut v = sample();
    v[MEAN_LOUDNESS] = 0.0;
    v[MEAN_CENTROID] = 0.0;
    v[MEAN_FLATNESS] = 0.0;
    v[MEAN_ROLLOFF] = 0.0;
    let signature = signature_of(&v);
    assert_eq!(signature.mean_ratio & 0x7c00, 0x7c00);
    assert_ne!(signature.mean_ratio & 0x03ff, 0);
    let fp = fingerprint(&signature);
    assert_eq!(fp, fingerprint(&signature_of(&v)));
    assert_eq!((fp >> 16) as u16, signature.mean_ratio);
    assert_eq!(fp as u16, signature.deviation_ratio);
}

#[test]
fn the_two_parts_of_a_fingerprint() {
    let fp: u128 = 0x0123_4567_89ab_cdef_0011_2233_4455_6677;
    assert_eq!(upper_bits(fp), 0x0123_4567_89ab_cdef_0011_2233);
    assert_eq!(lower_bits(fp), 0x4455_6677);
    assert_eq!(upper_bits(u128::MAX), (1u128 << 96) - 1);
    assert_eq!(lower_bits(u128::MAX), u32::MAX);
}
