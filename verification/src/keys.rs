//! The key under which a record is stored: the 16 bytes of its fingerprint,
//! most significant byte first.
//!
//! With the most significant byte first, keys compared byte by byte stand in
//! the order of the fingerprints they encode, so a store that hands out its
//! entries in key order hands them out in ascending order of fingerprint.

use vstd::prelude::*;

verus! {

/// The number of bytes in a key.
pub const KEY_BYTES: usize = 16;

/// Byte `i` of the key of `fp`, byte 0 being the most significant.
pub open spec fn key_byte(fp: u128, i: u32) -> u8 {
    ((fp >> ((8 * (15 - i)) as u128)) & 0xff) as u8
}

/// The key of a fingerprint.
pub open spec fn key_of(fp: u128) -> Seq<u8> {
    Seq::new(16, |i: int| key_byte(fp, i as u32))
}

/// The fingerprint that 16 bytes are the key of.
pub open spec fn value_of(k: Seq<u8>) -> u128 {
    ((k[0] as u128) << 120) | ((k[1] as u128) << 112) | ((k[2] as u128) << 104) | ((k[3] as u128)
        << 96) | ((k[4] as u128) << 88) | ((k[5] as u128) << 80) | ((k[6] as u128) << 72) | ((
    k[7] as u128) << 64) | ((k[8] as u128) << 56) | ((k[9] as u128) << 48) | ((k[10] as u128)
        << 40) | ((k[11] as u128) << 32) | ((k[12] as u128) << 24) | ((k[13] as u128) << 16) | ((
    k[14] as u128) << 8) | (k[15] as u128)
}

proof fn lemma_bytes_joined(
    b0: u8,
    b1: u8,
    b2: u8,
    b3: u8,
    b4: u8,
    b5: u8,
    b6: u8,
    b7: u8,
    b8: u8,
    b9: u8,
    b10: u8,
    b11: u8,
    b12: u8,
    b13: u8,
    b14: u8,
    b15: u8,
) -> (fp: u128)
    ensures
        fp == ((b0 as u128) << 120) | ((b1 as u128) << 112) | ((b2 as u128) << 104) | ((b3 as u128)
            << 96) | ((b4 as u128) << 88) | ((b5 as u128) << 80) | ((b6 as u128) << 72) | ((
        b7 as u128) << 64) | ((b8 as u128) << 56) | ((b9 as u128) << 48) | ((b10 as u128) << 40)
            | ((b11 as u128) << 32) | ((b12 as u128) << 24) | ((b13 as u128) << 16) | ((
        b14 as u128) << 8) | (b15 as u128),
        key_byte(fp, 0) == b0,
        key_byte(fp, 1) == b1,
        key_byte(fp, 2) == b2,
        key_byte(fp, 3) == b3,
        key_byte(fp, 4) == b4,
        key_byte(fp, 5) == b5,
        key_byte(fp, 6) == b6,
        key_byte(fp, 7) == b7,
        key_byte(fp, 8) == b8,
        key_byte(fp, 9) == b9,
        key_byte(fp, 10) == b10,
        key_byte(fp, 11) == b11,
        key_byte(fp, 12) == b12,
        key_byte(fp, 13) == b13,
        key_byte(fp, 14) == b14,
        key_byte(fp, 15) == b15,
{
    let fp: u128 = ((b0 as u128) << 120) | ((b1 as u128) << 112) | ((b2 as u128) << 104) | ((
    b3 as u128) << 96) | ((b4 as u128) << 88) | ((b5 as u128) << 80) | ((b6 as u128) << 72) | ((
    b7 as u128) << 64) | ((b8 as u128) << 56) | ((b9 as u128) << 48) | ((b10 as u128) << 40) | ((
    b11 as u128) << 32) | ((b12 as u128) << 24) | ((b13 as u128) << 16) | ((b14 as u128) << 8) | (
    b15 as u128);
    assert(key_byte(fp, 0) == b0 && key_byte(fp, 1) == b1 && key_byte(fp, 2) == b2 && key_byte(
        fp,
        3,
    ) == b3 && key_byte(fp, 4) == b4 && key_byte(fp, 5) == b5 && key_byte(fp, 6) == b6
        && key_byte(fp, 7) == b7) by (bit_vector)
        requires
            fp == ((b0 as u128) << 120) | ((b1 as u128) << 112) | ((b2 as u128) << 104) | ((
            b3 as u128) << 96) | ((b4 as u128) << 88) | ((b5 as u128) << 80) | ((b6 as u128) << 72)
                | ((b7 as u128) << 64) | ((b8 as u128) << 56) | ((b9 as u128) << 48) | ((
            b10 as u128) << 40) | ((b11 as u128) << 32) | ((b12 as u128) << 24) | ((b13 as u128)
                << 16) | ((b14 as u128) << 8) | (b15 as u128),
    ;
    assert(key_byte(fp, 8) == b8 && key_byte(fp, 9) == b9 && key_byte(fp, 10) == b10 && key_byte(
        fp,
        11,
    ) == b11 && key_byte(fp, 12) == b12 && key_byte(fp, 13) == b13 && key_byte(fp, 14) == b14
        && key_byte(fp, 15) == b15) by (bit_vector)
        requires
            fp == ((b0 as u128) << 120) | ((b1 as u128) << 112) | ((b2 as u128) << 104) | ((
            b3 as u128) << 96) | ((b4 as u128) << 88) | ((b5 as u128) << 80) | ((b6 as u128) << 72)
                | ((b7 as u128) << 64) | ((b8 as u128) << 56) | ((b9 as u128) << 48) | ((
            b10 as u128) << 40) | ((b11 as u128) << 32) | ((b12 as u128) << 24) | ((b13 as u128)
                << 16) | ((b14 as u128) << 8) | (b15 as u128),
    ;
    fp
}

/// Sixteen bytes are the key of the fingerprint they encode.
pub proof fn lemma_key_of_value(k: Seq<u8>)
    requires
        k.len() == 16,
    ensures
        key_of(value_of(k)) == k,
{
    let fp = lemma_bytes_joined(
        k[0],
        k[1],
        k[2],
        k[3],
        k[4],
        k[5],
        k[6],
        k[7],
        k[8],
        k[9],
        k[10],
        k[11],
        k[12],
        k[13],
        k[14],
        k[15],
    );
    assert(fp == value_of(k));
    assert(key_of(fp) =~= k);
}

/// A fingerprint is read back from its key.
pub proof fn lemma_value_of_key(fp: u128)
    ensures
        key_of(fp).len() == 16,
        value_of(key_of(fp)) == fp,
{
    let k = key_of(fp);
    assert(((key_byte(fp, 0) as u128) << 120) | ((key_byte(fp, 1) as u128) << 112) | ((key_byte(
        fp,
        2,
    ) as u128) << 104) | ((key_byte(fp, 3) as u128) << 96) | ((key_byte(fp, 4) as u128) << 88) | ((
    key_byte(fp, 5) as u128) << 80) | ((key_byte(fp, 6) as u128) << 72) | ((key_byte(fp, 7) as u128)
        << 64) | ((key_byte(fp, 8) as u128) << 56) | ((key_byte(fp, 9) as u128) << 48) | ((
    key_byte(fp, 10) as u128) << 40) | ((key_byte(fp, 11) as u128) << 32) | ((key_byte(
        fp,
        12,
    ) as u128) << 24) | ((key_byte(fp, 13) as u128) << 16) | ((key_byte(fp, 14) as u128) << 8) | (
    key_byte(fp, 15) as u128) == fp) by (bit_vector);
}

/// Two fingerprints with the same key are the same fingerprint.
pub proof fn lemma_key_injective(a: u128, b: u128)
    requires
        key_of(a) == key_of(b),
    ensures
        a == b,
{
    lemma_value_of_key(a);
    lemma_value_of_key(b);
}

/// Whether `x` stands before `y` when the two are compared byte by byte
/// from the front.
pub open spec fn before(x: Seq<u8>, y: Seq<u8>) -> bool {
    exists|i: int|
        #![trigger x[i]]
        0 <= i < x.len() && i < y.len() && x[i] < y[i] && forall|j: int|
            0 <= j < i ==> #[trigger] x[j] == y[j]
}

proof fn lemma_top_byte(a: u128, b: u128)
    by (bit_vector)
    ensures
        ((a >> 120) & 0xff) as u8 == ((b >> 120) & 0xff) as u8 ==> (a >> 120) == (b >> 120),
        a < b && ((a >> 120) & 0xff) as u8 != ((b >> 120) & 0xff) as u8 ==> (((a >> 120)
            & 0xff) as u8) < (((b >> 120) & 0xff) as u8),
        (a >> 0) == (b >> 0) ==> a == b,
{
}

proof fn lemma_next_bytes(a: u128, b: u128)
    by (bit_vector)
    ensures
        (a >> 120) == (b >> 120) && ((a >> 112) & 0xff) as u8 == ((b >> 112) & 0xff) as u8 ==> (a >> 112) == (b
            >> 112),
        (a >> 120) == (b >> 120) && a < b && ((a >> 112) & 0xff) as u8 != ((b >> 112) & 0xff) as u8 ==> (((a
            >> 112) & 0xff) as u8) < (((b >> 112) & 0xff) as u8),
        (a >> 112) == (b >> 112) && ((a >> 104) & 0xff) as u8 == ((b >> 104) & 0xff) as u8 ==> (a >> 104) == (b
            >> 104),
        (a >> 112) == (b >> 112) && a < b && ((a >> 104) & 0xff) as u8 != ((b >> 104) & 0xff) as u8 ==> (((a
            >> 104) & 0xff) as u8) < (((b >> 104) & 0xff) as u8),
        (a >> 104) == (b >> 104) && ((a >> 96) & 0xff) as u8 == ((b >> 96) & 0xff) as u8 ==> (a >> 96) == (b
            >> 96),
        (a >> 104) == (b >> 104) && a < b && ((a >> 96) & 0xff) as u8 != ((b >> 96) & 0xff) as u8 ==> (((a
            >> 96) & 0xff) as u8) < (((b >> 96) & 0xff) as u8),
        (a >> 96) == (b >> 96) && ((a >> 88) & 0xff) as u8 == ((b >> 88) & 0xff) as u8 ==> (a >> 88) == (b
            >> 88),
        (a >> 96) == (b >> 96) && a < b && ((a >> 88) & 0xff) as u8 != ((b >> 88) & 0xff) as u8 ==> (((a
            >> 88) & 0xff) as u8) < (((b >> 88) & 0xff) as u8),
        (a >> 88) == (b >> 88) && ((a >> 80) & 0xff) as u8 == ((b >> 80) & 0xff) as u8 ==> (a >> 80) == (b
            >> 80),
        (a >> 88) == (b >> 88) && a < b && ((a >> 80) & 0xff) as u8 != ((b >> 80) & 0xff) as u8 ==> (((a
            >> 80) & 0xff) as u8) < (((b >> 80) & 0xff) as u8),
        (a >> 80) == (b >> 80) && ((a >> 72) & 0xff) as u8 == ((b >> 72) & 0xff) as u8 ==> (a >> 72) == (b
            >> 72),
        (a >> 80) == (b >> 80) && a < b && ((a >> 72) & 0xff) as u8 != ((b >> 72) & 0xff) as u8 ==> (((a
            >> 72) & 0xff) as u8) < (((b >> 72) & 0xff) as u8),
        (a >> 72) == (b >> 72) && ((a >> 64) & 0xff) as u8 == ((b >> 64) & 0xff) as u8 ==> (a >> 64) == (b
            >> 64),
        (a >> 72) == (b >> 72) && a < b && ((a >> 64) & 0xff) as u8 != ((b >> 64) & 0xff) as u8 ==> (((a
            >> 64) & 0xff) as u8) < (((b >> 64) & 0xff) as u8),
        (a >> 64) == (b >> 64) && ((a >> 56) & 0xff) as u8 == ((b >> 56) & 0xff) as u8 ==> (a >> 56) == (b
            >> 56),
        (a >> 64) == (b >> 64) && a < b && ((a >> 56) & 0xff) as u8 != ((b >> 56) & 0xff) as u8 ==> (((a
            >> 56) & 0xff) as u8) < (((b >> 56) & 0xff) as u8),
        (a >> 56) == (b >> 56) && ((a >> 48) & 0xff) as u8 == ((b >> 48) & 0xff) as u8 ==> (a >> 48) == (b
            >> 48),
        (a >> 56) == (b >> 56) && a < b && ((a >> 48) & 0xff) as u8 != ((b >> 48) & 0xff) as u8 ==> (((a
            >> 48) & 0xff) as u8) < (((b >> 48) & 0xff) as u8),
        (a >> 48) == (b >> 48) && ((a >> 40) & 0xff) as u8 == ((b >> 40) & 0xff) as u8 ==> (a >> 40) == (b
            >> 40),
        (a >> 48) == (b >> 48) && a < b && ((a >> 40) & 0xff) as u8 != ((b >> 40) & 0xff) as u8 ==> (((a
            >> 40) & 0xff) as u8) < (((b >> 40) & 0xff) as u8),
        (a >> 40) == (b >> 40) && ((a >> 32) & 0xff) as u8 == ((b >> 32) & 0xff) as u8 ==> (a >> 32) == (b
            >> 32),
        (a >> 40) == (b >> 40) && a < b && ((a >> 32) & 0xff) as u8 != ((b >> 32) & 0xff) as u8 ==> (((a
            >> 32) & 0xff) as u8) < (((b >> 32) & 0xff) as u8),
        (a >> 32) == (b >> 32) && ((a >> 24) & 0xff) as u8 == ((b >> 24) & 0xff) as u8 ==> (a >> 24) == (b
            >> 24),
        (a >> 32) == (b >> 32) && a < b && ((a >> 24) & 0xff) as u8 != ((b >> 24) & 0xff) as u8 ==> (((a
            >> 24) & 0xff) as u8) < (((b >> 24) & 0xff) as u8),
        (a >> 24) == (b >> 24) && ((a >> 16) & 0xff) as u8 == ((b >> 16) & 0xff) as u8 ==> (a >> 16) == (b
            >> 16),
        (a >> 24) == (b >> 24) && a < b && ((a >> 16) & 0xff) as u8 != ((b >> 16) & 0xff) as u8 ==> (((a
            >> 16) & 0xff) as u8) < (((b >> 16) & 0xff) as u8),
        (a >> 16) == (b >> 16) && ((a >> 8) & 0xff) as u8 == ((b >> 8) & 0xff) as u8 ==> (a >> 8) == (b
            >> 8),
        (a >> 16) == (b >> 16) && a < b && ((a >> 8) & 0xff) as u8 != ((b >> 8) & 0xff) as u8 ==> (((a
            >> 8) & 0xff) as u8) < (((b >> 8) & 0xff) as u8),
        (a >> 8) == (b >> 8) && ((a >> 0) & 0xff) as u8 == ((b >> 0) & 0xff) as u8 ==> (a >> 0) == (b
            >> 0),
        (a >> 8) == (b >> 8) && a < b && ((a >> 0) & 0xff) as u8 != ((b >> 0) & 0xff) as u8 ==> (((a
            >> 0) & 0xff) as u8) < (((b >> 0) & 0xff) as u8),
{
}

proof fn lemma_order_from(a: u128, b: u128, i: int)
    requires
        a < b,
        0 <= i <= 16,
        i > 0 ==> (a >> ((8 * (16 - i)) as u128)) == (b >> ((8 * (16 - i)) as u128)),
        forall|j: int| 0 <= j < i ==> #[trigger] key_of(a)[j] == key_of(b)[j],
    ensures
        before(key_of(a), key_of(b)),
    decreases 16 - i,
{
    let x = key_of(a);
    let y = key_of(b);
    if i == 16 {
        lemma_top_byte(a, b);
        assert(a == b);
    } else {
        let s: u128 = (8 * (15 - i)) as u128;
        assert(x[i] == key_byte(a, i as u32));
        assert(y[i] == key_byte(b, i as u32));
        assert(key_byte(a, i as u32) == ((a >> s) & 0xff) as u8);
        assert(key_byte(b, i as u32) == ((b >> s) & 0xff) as u8);
        if i == 0 {
            lemma_top_byte(a, b);
        } else {
            lemma_next_bytes(a, b);
        }
        if x[i] == y[i] {
            assert(forall|j: int| 0 <= j < i + 1 ==> #[trigger] x[j] == y[j]);
            lemma_order_from(a, b, i + 1);
        } else {
            assert(x[i] < y[i]);
        }
    }
}

/// Nothing stands before what stands before it.
pub proof fn lemma_before_one_way(x: Seq<u8>, y: Seq<u8>)
    requires
        before(x, y),
    ensures
        !before(y, x),
        x != y,
{
    let i = choose|i: int|
        #![trigger x[i]]
        0 <= i < x.len() && i < y.len() && x[i] < y[i] && forall|j: int|
            0 <= j < i ==> #[trigger] x[j] == y[j];
    if before(y, x) {
        let k = choose|k: int|
            #![trigger y[k]]
            0 <= k < y.len() && k < x.len() && y[k] < x[k] && forall|j: int|
                0 <= j < k ==> #[trigger] y[j] == x[j];
        if i < k {
            assert(y[i] == x[i]);
        } else if k < i {
            assert(x[k] == y[k]);
        }
    }
}

/// Keys stand in the order of the fingerprints they encode: a store that
/// hands out its entries in the order of their keys hands them out in
/// ascending order of fingerprint.
pub proof fn lemma_key_order(a: u128, b: u128)
    ensures
        a < b <==> before(key_of(a), key_of(b)),
{
    if a < b {
        lemma_order_from(a, b, 0);
    } else if b < a {
        lemma_order_from(b, a, 0);
        lemma_before_one_way(key_of(b), key_of(a));
    } else {
        if before(key_of(a), key_of(b)) {
            lemma_before_one_way(key_of(a), key_of(b));
        }
    }
}

/// The key of a fingerprint.
pub fn key_bytes(fp: u128) -> (key: [u8; 16])
    ensures
        key@ == key_of(fp),
{
    let mut key: [u8; 16] = [0u8;16];
    let mut i: usize = 0;
    while i < 16
        invariant
            i <= 16,
            forall|j: int| 0 <= j < i ==> key@[j] == key_byte(fp, j as u32),
        decreases 16 - i,
    {
        let shift: u32 = 8 * (15 - i as u32);
        let byte: u8 = ((fp >> shift) & 0xff) as u8;
        assert(byte == key_byte(fp, i as u32));
        key[i] = byte;
        i += 1;
    }
    assert(key@ =~= key_of(fp));
    key
}

/// The fingerprint that the bytes are the key of, if they are the key of
/// one: that is, if there are 16 of them.
pub fn key_value(bytes: &[u8]) -> (value: Option<u128>)
    ensures
        match value {
            Some(fp) => bytes@ == key_of(fp) && fp == value_of(bytes@),
            None => bytes@.len() != 16,
        },
{
    if bytes.len() != 16 {
        return None;
    }
    let fp: u128 = ((bytes[0] as u128) << 120) | ((bytes[1] as u128) << 112) | ((bytes[2] as u128)
        << 104) | ((bytes[3] as u128) << 96) | ((bytes[4] as u128) << 88) | ((bytes[5] as u128)
        << 80) | ((bytes[6] as u128) << 72) | ((bytes[7] as u128) << 64) | ((bytes[8] as u128)
        << 56) | ((bytes[9] as u128) << 48) | ((bytes[10] as u128) << 40) | ((bytes[11] as u128)
        << 32) | ((bytes[12] as u128) << 24) | ((bytes[13] as u128) << 16) | ((bytes[14] as u128)
        << 8) | (bytes[15] as u128);
    proof {
        lemma_key_of_value(bytes@);
    }
    Some(fp)
}

} // verus!
