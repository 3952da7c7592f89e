//! Assembling the 128-bit fingerprint of a track.
//!
//! A fingerprint is made of four 32-bit words. The lowest word holds two
//! half-precision numbers, the other three hold single-precision numbers, all
//! of them as raw IEEE-754 bit patterns. The arithmetic that produces those
//! five numbers from the features of a track is floating-point work and is
//! done by the caller; this module fixes how the bit patterns are laid out and
//! shows that the layout loses nothing.

use vstd::prelude::*;

verus! {

/// The five quantities a fingerprint is made of, as IEEE-754 bit patterns.
#[derive(Clone, Copy, Debug, PartialEq, Eq)]
pub struct Signature {
    /// Half-precision bits of the product of the four mean features divided
    /// by their sum.
    pub mean_ratio: u16,
    /// Half-precision bits of the same ratio taken over the four
    /// standard-deviation features.
    pub deviation_ratio: u16,
    /// Single-precision bits of the sum of the odd-numbered chroma bins.
    pub odd_chroma: u32,
    /// Single-precision bits of the sum of the even-numbered chroma bins.
    pub even_chroma: u32,
    /// Single-precision bits of tempo plus zero-crossing rate.
    pub rhythm: u32,
}

/// Two 16-bit halves side by side: `high` in bits 16..32, `low` in bits 0..16.
pub open spec fn join_halves(high: u16, low: u16) -> u32 {
    ((high as u32) << 16) | (low as u32)
}

/// Four 32-bit words side by side, `w0` lowest.
pub open spec fn join_words(w0: u32, w1: u32, w2: u32, w3: u32) -> u128 {
    ((w3 as u128) << 96) | ((w2 as u128) << 64) | ((w1 as u128) << 32) | (w0 as u128)
}

/// The word of `fp` at position `index`, position 0 being the lowest.
pub open spec fn word_of(fp: u128, index: u32) -> u32 {
    ((fp >> (32 * index) as u128) & 0xffff_ffff) as u32
}

/// The fingerprint that a signature stands for.
pub open spec fn fingerprint_of(s: Signature) -> u128 {
    join_words(join_halves(s.mean_ratio, s.deviation_ratio), s.odd_chroma, s.even_chroma, s.rhythm)
}

/// The bits of a fingerprint above its lowest word.
pub open spec fn high_part(fp: u128) -> u128 {
    fp >> 32
}

/// The lowest word of a fingerprint.
pub open spec fn low_part(fp: u128) -> u32 {
    (fp & 0xffff_ffff) as u32
}

/// Packs two half-precision bit patterns into the lowest word of a
/// fingerprint.
pub fn pack_halves(high: u16, low: u16) -> (word: u32)
    ensures
        word == join_halves(high, low),
{
    ((high as u32) << 16) | (low as u32)
}

/// Packs four words into a fingerprint.
pub fn pack_words(w0: u32, w1: u32, w2: u32, w3: u32) -> (fp: u128)
    ensures
        fp == join_words(w0, w1, w2, w3),
{
    ((w3 as u128) << 96) | ((w2 as u128) << 64) | ((w1 as u128) << 32) | (w0 as u128)
}

/// The fingerprint of a signature. The result is a function of the signature
/// alone: the same signature gives the same fingerprint on every call.
pub fn fingerprint(signature: &Signature) -> (fp: u128)
    ensures
        fp == fingerprint_of(*signature),
{
    let w0: u32 = pack_halves(signature.mean_ratio, signature.deviation_ratio);
    pack_words(w0, signature.odd_chroma, signature.even_chroma, signature.rhythm)
}

/// The fingerprint is a matter of the signature alone: what is equal in all
/// five quantities has the same fingerprint.
pub proof fn lemma_fingerprint_determined(a: Signature, b: Signature)
    requires
        a.mean_ratio == b.mean_ratio,
        a.deviation_ratio == b.deviation_ratio,
        a.odd_chroma == b.odd_chroma,
        a.even_chroma == b.even_chroma,
        a.rhythm == b.rhythm,
    ensures
        fingerprint_of(a) == fingerprint_of(b),
{
}

/// The four words of a fingerprint, lowest first.
pub fn unpack_words(fp: u128) -> (words: [u32; 4])
    ensures
        forall|i: u32| 0 <= i < 4 ==> words@[i as int] == #[trigger] word_of(fp, i),
{
    let w0: u32 = (fp & 0xffff_ffff) as u32;
    let w1: u32 = ((fp >> 32) & 0xffff_ffff) as u32;
    let w2: u32 = ((fp >> 64) & 0xffff_ffff) as u32;
    let w3: u32 = ((fp >> 96) & 0xffff_ffff) as u32;
    assert(fp >> 0 == fp) by (bit_vector);
    [w0, w1, w2, w3]
}

/// The part of a fingerprint that names its file before the separator: the
/// upper 96 bits.
pub fn upper_bits(fp: u128) -> (high: u128)
    ensures
        high == high_part(fp),
        high <= 0xffff_ffff_ffff_ffff_ffff_ffff,
{
    assert(fp >> 32 <= 0xffff_ffff_ffff_ffff_ffff_ffff) by (bit_vector);
    fp >> 32
}

/// The part of a fingerprint that names its file after the separator: the
/// lowest word.
pub fn lower_bits(fp: u128) -> (low: u32)
    ensures
        low == low_part(fp),
{
    (fp & 0xffff_ffff) as u32
}

/// Packing is lossless: every word can be read back from the fingerprint.
pub proof fn lemma_words_recovered(w0: u32, w1: u32, w2: u32, w3: u32)
    ensures
        word_of(join_words(w0, w1, w2, w3), 0) == w0,
        word_of(join_words(w0, w1, w2, w3), 1) == w1,
        word_of(join_words(w0, w1, w2, w3), 2) == w2,
        word_of(join_words(w0, w1, w2, w3), 3) == w3,
{
    assert(word_of(join_words(w0, w1, w2, w3), 0) == w0) by (bit_vector);
    assert(word_of(join_words(w0, w1, w2, w3), 1) == w1) by (bit_vector);
    assert(word_of(join_words(w0, w1, w2, w3), 2) == w2) by (bit_vector);
    assert(word_of(join_words(w0, w1, w2, w3), 3) == w3) by (bit_vector);
}

/// Every fingerprint is the packing of its own four words.
pub proof fn lemma_words_rejoined(fp: u128)
    ensures
        join_words(word_of(fp, 0), word_of(fp, 1), word_of(fp, 2), word_of(fp, 3)) == fp,
{
    assert(join_words(word_of(fp, 0), word_of(fp, 1), word_of(fp, 2), word_of(fp, 3)) == fp)
        by (bit_vector);
}

/// Both halves of the lowest word can be read back from it.
pub proof fn lemma_halves_recovered(high: u16, low: u16)
    ensures
        (join_halves(high, low) >> 16) as u16 == high,
        (join_halves(high, low) & 0xffff) as u16 == low,
{
    assert((join_halves(high, low) >> 16) as u16 == high) by (bit_vector);
    assert((join_halves(high, low) & 0xffff) as u16 == low) by (bit_vector);
}

/// Two signatures with the same fingerprint are the same signature.
pub proof fn lemma_fingerprint_injective(a: Signature, b: Signature)
    requires
        fingerprint_of(a) == fingerprint_of(b),
    ensures
        a == b,
{
    let wa: u32 = join_halves(a.mean_ratio, a.deviation_ratio);
    let wb: u32 = join_halves(b.mean_ratio, b.deviation_ratio);
    lemma_words_recovered(wa, a.odd_chroma, a.even_chroma, a.rhythm);
    lemma_words_recovered(wb, b.odd_chroma, b.even_chroma, b.rhythm);
    lemma_halves_recovered(a.mean_ratio, a.deviation_ratio);
    lemma_halves_recovered(b.mean_ratio, b.deviation_ratio);
}

/// A fingerprint is determined by the two parts that name its file.
pub proof fn lemma_parts_determine(a: u128, b: u128)
    requires
        high_part(a) == high_part(b),
        low_part(a) == low_part(b),
    ensures
        a == b,
{
    assert(a >> 32 == b >> 32 && (a & 0xffff_ffff) as u32 == (b & 0xffff_ffff) as u32 ==> a == b)
        by (bit_vector);
}

} // verus!
