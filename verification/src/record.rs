//! The record that the catalog keeps for each track.

use vstd::prelude::*;

verus! {

/// The number of bytes in the digest of a file.
pub const DIGEST_BYTES: usize = 32;

/// The number of features in the analysis of a track.
pub const FEATURES: usize = 20;

/// The features of an analysis, in the order in which the analyzer
/// produces them.
#[derive(Clone, Copy, Debug, PartialEq, Eq)]
pub enum Feature {
    Tempo,
    ZeroCrossingRate,
    MeanSpectralCentroid,
    DeviationSpectralCentroid,
    MeanSpectralRolloff,
    DeviationSpectralRolloff,
    MeanSpectralFlatness,
    DeviationSpectralFlatness,
    MeanLoudness,
    DeviationLoudness,
    Chroma1,
    Chroma2,
    Chroma3,
    Chroma4,
    Chroma5,
    Chroma6,
    Chroma7,
    Chroma8,
    Chroma9,
    Chroma10,
}

/// The place of a feature in an analysis.
pub open spec fn place_of(feature: Feature) -> int {
    match feature {
        Feature::Tempo => 0,
        Feature::ZeroCrossingRate => 1,
        Feature::MeanSpectralCentroid => 2,
        Feature::DeviationSpectralCentroid => 3,
        Feature::MeanSpectralRolloff => 4,
        Feature::DeviationSpectralRolloff => 5,
        Feature::MeanSpectralFlatness => 6,
        Feature::DeviationSpectralFlatness => 7,
        Feature::MeanLoudness => 8,
        Feature::DeviationLoudness => 9,
        Feature::Chroma1 => 10,
        Feature::Chroma2 => 11,
        Feature::Chroma3 => 12,
        Feature::Chroma4 => 13,
        Feature::Chroma5 => 14,
        Feature::Chroma6 => 15,
        Feature::Chroma7 => 16,
        Feature::Chroma8 => 17,
        Feature::Chroma9 => 18,
        Feature::Chroma10 => 19,
    }
}

impl Feature {
    /// The place of the feature in an analysis.
    pub fn place(self) -> (i: usize)
        ensures
            i == place_of(self),
            i < 20,
    {
        match self {
            Feature::Tempo => 0,
            Feature::ZeroCrossingRate => 1,
            Feature::MeanSpectralCentroid => 2,
            Feature::DeviationSpectralCentroid => 3,
            Feature::MeanSpectralRolloff => 4,
            Feature::DeviationSpectralRolloff => 5,
            Feature::MeanSpectralFlatness => 6,
            Feature::DeviationSpectralFlatness => 7,
            Feature::MeanLoudness => 8,
            Feature::DeviationLoudness => 9,
            Feature::Chroma1 => 10,
            Feature::Chroma2 => 11,
            Feature::Chroma3 => 12,
            Feature::Chroma4 => 13,
            Feature::Chroma5 => 14,
            Feature::Chroma6 => 15,
            Feature::Chroma7 => 16,
            Feature::Chroma8 => 17,
            Feature::Chroma9 => 18,
            Feature::Chroma10 => 19,
        }
    }
}

/// What the catalog knows about one track.
///
/// The analysis is kept as the bit patterns of its single-precision features,
/// in the order in which the analyzer produced them.
#[derive(Clone, Debug, PartialEq, Eq)]
pub struct Record {
    /// Digest of the bytes of the file that backs the track.
    pub content_hash: [u8; 32],
    /// Fingerprint of the track, the key under which the record is kept.
    pub fingerprint: u128,
    /// Title of the track.
    pub title: String,
    /// Artist of the track.
    pub artist: String,
    /// Album of the track.
    pub album: String,
    /// The features of the track as single-precision bit patterns.
    pub analysis: [u32; 20],
}

/// The mathematical value of a [`Record`].
pub struct RecordView {
    pub content_hash: Seq<u8>,
    pub fingerprint: u128,
    pub title: Seq<char>,
    pub artist: Seq<char>,
    pub album: Seq<char>,
    pub analysis: Seq<u32>,
}

impl View for Record {
    type V = RecordView;

    open spec fn view(&self) -> RecordView {
        RecordView {
            content_hash: self.content_hash@,
            fingerprint: self.fingerprint,
            title: self.title@,
            artist: self.artist@,
            album: self.album@,
            analysis: self.analysis@,
        }
    }
}

/// The record that replaces `r` once its file has been found to hold other
/// bytes: digest and tags are new, fingerprint and analysis stay.
pub open spec fn refreshed_view(
    r: RecordView,
    digest: Seq<u8>,
    title: Seq<char>,
    artist: Seq<char>,
    album: Seq<char>,
) -> RecordView {
    RecordView {
        content_hash: digest,
        fingerprint: r.fingerprint,
        title: title,
        artist: artist,
        album: album,
        analysis: r.analysis,
    }
}

/// Tells whether two digests are the same, byte for byte.
pub fn same_digest(a: &[u8; 32], b: &[u8; 32]) -> (same: bool)
    ensures
        same == (a@ == b@),
{
    let mut i: usize = 0;
    while i < 32
        invariant
            i <= 32,
            forall|j: int| 0 <= j < i ==> a@[j] == b@[j],
        decreases 32 - i,
    {
        if a[i] != b[i] {
            return false;
        }
        i += 1;
    }
    assert(a@ =~= b@);
    true
}

impl Record {
    /// A record with the same value in every field.
    pub fn duplicate(&self) -> (copy: Record)
        ensures
            copy@ == self@,
    {
        Record {
            content_hash: self.content_hash,
            fingerprint: self.fingerprint,
            title: self.title.clone(),
            artist: self.artist.clone(),
            album: self.album.clone(),
            analysis: self.analysis,
        }
    }

    /// The bit pattern of one feature of the track.
    pub fn feature(&self, feature: Feature) -> (bits: u32)
        ensures
            bits == self@.analysis[place_of(feature)],
    {
        self.analysis[feature.place()]
    }

    /// Tells whether the record was made from a file with this digest.
    pub fn has_digest(&self, digest: &[u8; 32]) -> (same: bool)
        ensures
            same == (self@.content_hash == digest@),
    {
        same_digest(&self.content_hash, digest)
    }

    /// The record that takes the place of this one when its file holds other
    /// bytes than it was made from. Fingerprint and analysis are kept.
    pub fn refreshed(
        &self,
        digest: [u8; 32],
        title: String,
        artist: String,
        album: String,
    ) -> (fresh: Record)
        ensures
            fresh@ == refreshed_view(self@, digest@, title@, artist@, album@),
            fresh@.fingerprint == self@.fingerprint,
            fresh@.analysis == self@.analysis,
            fresh@.content_hash == digest@,
    {
        Record {
            content_hash: digest,
            fingerprint: self.fingerprint,
            title: title,
            artist: artist,
            album: album,
            analysis: self.analysis,
        }
    }
}

} // verus!
