//! Names and listing lines made from a fingerprint.
//!
//! The file that backs a track is named after the fingerprint of the track:
//! the upper 96 bits in hexadecimal, an underscore, the lowest 32 bits in
//! hexadecimal, a dot and the extension. Hexadecimal is written in lower case
//! without leading zeros.

use crate::fingerprint::{high_part, low_part, lower_bits, upper_bits};
use crate::record::{Record, RecordView};
use vstd::prelude::*;

verus! {

/// The character for a hexadecimal digit.
pub open spec fn hex_char(d: int) -> char {
    if d == 0 {
        '0'
    } else if d == 1 {
        '1'
    } else if d == 2 {
        '2'
    } else if d == 3 {
        '3'
    } else if d == 4 {
        '4'
    } else if d == 5 {
        '5'
    } else if d == 6 {
        '6'
    } else if d == 7 {
        '7'
    } else if d == 8 {
        '8'
    } else if d == 9 {
        '9'
    } else if d == 10 {
        'a'
    } else if d == 11 {
        'b'
    } else if d == 12 {
        'c'
    } else if d == 13 {
        'd'
    } else if d == 14 {
        'e'
    } else {
        'f'
    }
}

/// A number in hexadecimal: lower case, no leading zeros, at least one digit.
pub open spec fn hex(n: nat) -> Seq<char>
    decreases n,
{
    if n < 16 {
        seq![hex_char(n as int)]
    } else {
        hex(n / 16).push(hex_char((n % 16) as int))
    }
}

/// The name of the file of a fingerprint, without dot and extension.
pub open spec fn stem_of(fp: u128) -> Seq<char> {
    hex(high_part(fp) as nat).push('_') + hex(low_part(fp) as nat)
}

/// The name of the file of a fingerprint with the given extension.
pub open spec fn file_name_of(fp: u128, extension: Seq<char>) -> Seq<char> {
    stem_of(fp).push('.') + extension
}

/// The line that lists a record in short: name of the file without
/// extension, then artist and title, then album.
pub open spec fn line_of(r: RecordView) -> Seq<char> {
    stem_of(r.fingerprint) + " | "@ + r.artist + " - "@ + r.title + " | "@ + r.album
}

/// Hexadecimal has at least one digit, and no digit is an underscore.
pub proof fn lemma_hex_digits(n: nat)
    ensures
        hex(n).len() >= 1,
        n >= 16 ==> hex(n).len() >= 2,
        forall|i: int| 0 <= i < hex(n).len() ==> #[trigger] hex(n)[i] != '_',
    decreases n,
{
    if n >= 16 {
        lemma_hex_digits(n / 16);
    }
}

/// Two numbers written alike in hexadecimal are the same number.
pub proof fn lemma_hex_injective(a: nat, b: nat)
    requires
        hex(a) == hex(b),
    ensures
        a == b,
    decreases a,
{
    lemma_hex_digits(a);
    lemma_hex_digits(b);
    if a < 16 {
        assert(hex(a)[0] == hex_char(a as int));
        assert(hex(b)[0] == hex_char(b as int));
    } else {
        let x = hex(a / 16);
        let y = hex(b / 16);
        assert(hex(a).last() == hex_char((a % 16) as int));
        assert(hex(b).last() == hex_char((b % 16) as int));
        assert(hex(a).drop_last() =~= x);
        assert(hex(b).drop_last() =~= y);
        lemma_hex_injective(a / 16, b / 16);
    }
}

/// Two fingerprints whose files have the same name are the same
/// fingerprint: no two records share a file.
pub proof fn lemma_stem_injective(a: u128, b: u128)
    requires
        stem_of(a) == stem_of(b),
    ensures
        a == b,
{
    let ha = hex(high_part(a) as nat);
    let hb = hex(high_part(b) as nat);
    let la = hex(low_part(a) as nat);
    let lb = hex(low_part(b) as nat);
    lemma_hex_digits(high_part(a) as nat);
    lemma_hex_digits(high_part(b) as nat);
    let p = ha.len() as int;
    let q = hb.len() as int;
    assert(stem_of(a)[p] == '_');
    assert(stem_of(b)[q] == '_');
    if p < q {
        assert(stem_of(b)[p] == hb[p]);
    } else if q < p {
        assert(stem_of(a)[q] == ha[q]);
    }
    assert(ha =~= stem_of(a).subrange(0, p));
    assert(hb =~= stem_of(b).subrange(0, q));
    assert(la =~= stem_of(a).subrange(p + 1, stem_of(a).len() as int));
    assert(lb =~= stem_of(b).subrange(q + 1, stem_of(b).len() as int));
    lemma_hex_injective(high_part(a) as nat, high_part(b) as nat);
    lemma_hex_injective(low_part(a) as nat, low_part(b) as nat);
    crate::fingerprint::lemma_parts_determine(a, b);
}

/// Calls `String::push`, which appends one character to the end of the
/// string.
#[verifier::external_body]
fn push_char(text: &mut String, c: char)
    ensures
        final(text)@ == old(text)@.push(c),
{
    text.push(c)
}

fn hex_digit(d: u8) -> (c: char)
    requires
        d < 16,
    ensures
        c == hex_char(d as int),
{
    match d {
        0 => '0',
        1 => '1',
        2 => '2',
        3 => '3',
        4 => '4',
        5 => '5',
        6 => '6',
        7 => '7',
        8 => '8',
        9 => '9',
        10 => 'a',
        11 => 'b',
        12 => 'c',
        13 => 'd',
        14 => 'e',
        _ => 'f',
    }
}

/// Appends a number in hexadecimal to the text.
pub fn push_hex(text: &mut String, n: u128)
    ensures
        final(text)@ == old(text)@ + hex(n as nat),
    decreases n,
{
    if n >= 16 {
        push_hex(text, n / 16);
    }
    push_char(text, hex_digit((n % 16) as u8));
    assert(text@ =~= old(text)@ + hex(n as nat));
}

/// A number in hexadecimal.
pub fn to_hex(n: u128) -> (text: String)
    ensures
        text@ == hex(n as nat),
{
    let mut text: String = String::new();
    push_hex(&mut text, n);
    assert(text@ =~= hex(n as nat));
    text
}

/// The name of the file of a fingerprint, without dot and extension.
pub fn file_stem(fp: u128) -> (name: String)
    ensures
        name@ == stem_of(fp),
{
    let mut name: String = String::new();
    push_hex(&mut name, upper_bits(fp));
    push_char(&mut name, '_');
    push_hex(&mut name, lower_bits(fp) as u128);
    assert(name@ =~= stem_of(fp));
    name
}

/// The name of the file of a fingerprint with the given extension.
pub fn file_name(fp: u128, extension: &str) -> (name: String)
    ensures
        name@ == file_name_of(fp, extension@),
{
    let mut name: String = file_stem(fp);
    push_char(&mut name, '.');
    name.append(extension);
    name
}

/// The line that lists a record in short.
pub fn listing_line(record: &Record) -> (line: String)
    ensures
        line@ == line_of(record@),
{
    let mut line: String = file_stem(record.fingerprint);
    line.append(" | ");
    line.append(record.artist.as_str());
    line.append(" - ");
    line.append(record.title.as_str());
    line.append(" | ");
    line.append(record.album.as_str());
    line
}

} // verus!
