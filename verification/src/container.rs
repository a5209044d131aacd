//! The container itself: two magic sequences, two opaque header regions, the
//! optional block of human-readable strings, and whatever bytes are left.

use vstd::prelude::*;
use vstd::slice::slice_to_vec;
use crate::cursor::{lemma_stop_index_splits, match_literal, stop_index, take_fixed,
    take_until_byte,
};
use crate::error::ParseError;
use crate::metadata::{
    lemma_human_reassembles, spec_human, HumanMetadata, HumanMetadataView, RawMetadata, NAME_TAG,
};

verus! {

/// The magic sequence that opens a container: the ASCII text `Stella BINARY `.
pub const MAGIC_BYTES0: [u8; 14] = [
    0x53,
    0x74,
    0x65,
    0x6C,
    0x6C,
    0x61,
    0x20,
    0x42,
    0x49,
    0x4E,
    0x41,
    0x52,
    0x59,
    0x20,
];

/// The magic sequence that follows the first header region.
pub const MAGIC_BYTES1: [u8; 4] = [0xB8, 0xA5, 0xA9, 0x6A];

/// The number of bytes in the first header region.
pub const METADATA0_LEN: usize = 14;

/// Where the first header region begins: behind the first magic sequence.
pub const METADATA0_OFFSET: usize = 14;

/// Where the second magic sequence begins: behind the first header region.
pub const MAGIC1_OFFSET: usize = 28;

/// Where the second header region begins: behind the second magic sequence.
pub const METADATA1_OFFSET: usize = 32;

/// The byte at which the second header region ends. It is also the first byte
/// of the name field's tag.
pub const METADATA1_STOP: u8 = 0x33;

/// A decoded container.
#[derive(Debug, Clone, PartialEq, Eq, Hash)]
pub struct StelData {
    /// The first header region: the 14 bytes behind the first magic sequence.
    pub metadata0: Vec<u8>,
    /// The second header region: the bytes behind the second magic sequence,
    /// up to the next `0x33` byte or the end of the input.
    pub metadata1: Vec<u8>,
    /// The human-readable strings, absent where the block could not be read.
    pub human_metadata: Option<HumanMetadata>,
    /// Every byte that nothing above has claimed.
    pub raw_leftover: Vec<u8>,
}

/// What a `StelData` holds, as mathematical values.
pub struct StelDataView {
    pub metadata0: Seq<u8>,
    pub metadata1: Seq<u8>,
    pub human_metadata: Option<HumanMetadataView>,
    pub raw_leftover: Seq<u8>,
}

/// The regions of a container as they stand in the input, before any text is
/// decoded.
pub struct RawContainer {
    pub metadata0: Seq<u8>,
    pub metadata1: Seq<u8>,
    pub human_metadata: Option<RawMetadata>,
    pub raw_leftover: Seq<u8>,
}

impl View for StelData {
    type V = StelDataView;

    open spec fn view(&self) -> StelDataView {
        StelDataView {
            metadata0: self.metadata0@,
            metadata1: self.metadata1@,
            human_metadata: match self.human_metadata {
                Some(h) => Some(h@),
                None => None,
            },
            raw_leftover: self.raw_leftover@,
        }
    }
}

impl RawContainer {
    /// The container that holds these regions, with the strings decoded.
    pub open spec fn decoded(self) -> StelDataView {
        StelDataView {
            metadata0: self.metadata0,
            metadata1: self.metadata1,
            human_metadata: match self.human_metadata {
                Some(raw) => Some(raw.decoded()),
                None => None,
            },
            raw_leftover: self.raw_leftover,
        }
    }

    /// The bytes of the metadata block that was read; none where it is absent.
    pub open spec fn metadata_bytes(self) -> Seq<u8> {
        match self.human_metadata {
            Some(raw) => raw.encoded(),
            None => Seq::empty(),
        }
    }

    /// The bytes of the whole container: first magic sequence, first header
    /// region, second magic sequence, second header region, the metadata
    /// block that was read, and the leftover.
    pub open spec fn encoded(self) -> Seq<u8> {
        MAGIC_BYTES0@ + self.metadata0 + MAGIC_BYTES1@ + self.metadata1 + self.metadata_bytes()
            + self.raw_leftover
    }
}

/// The bytes of `input` behind the second header region: empty, or beginning
/// with `0x33`. Meaningful where `input` holds both magic sequences and the
/// first header region.
pub open spec fn metadata_region(input: Seq<u8>) -> Seq<u8> {
    let body = input.skip(METADATA1_OFFSET as int);
    body.skip(stop_index(body, METADATA1_STOP))
}

/// The container that `input` holds, or why it holds none.
///
/// `BadMagic` where `input` does not begin with the first magic sequence;
/// else `UnexpectedEof` where fewer than 14 bytes follow it; else `BadMagic`
/// where the second magic sequence does not follow those 14 bytes. Every
/// other input holds a container.
pub open spec fn spec_container(input: Seq<u8>) -> Result<RawContainer, ParseError> {
    if !MAGIC_BYTES0@.is_prefix_of(input) {
        Err(ParseError::BadMagic)
    } else if input.len() < MAGIC1_OFFSET {
        Err(ParseError::UnexpectedEof)
    } else if !MAGIC_BYTES1@.is_prefix_of(input.skip(MAGIC1_OFFSET as int)) {
        Err(ParseError::BadMagic)
    } else {
        let body = input.skip(METADATA1_OFFSET as int);
        let region = metadata_region(input);
        let metadata0 = input.subrange(METADATA0_OFFSET as int, MAGIC1_OFFSET as int);
        let metadata1 = body.take(stop_index(body, METADATA1_STOP));
        match spec_human(region) {
            Ok((rest, raw)) => Ok(
                RawContainer { metadata0, metadata1, human_metadata: Some(raw), raw_leftover: rest },
            ),
            Err(_) => Ok(
                RawContainer { metadata0, metadata1, human_metadata: None, raw_leftover: region },
            ),
        }
    }
}

/// The second header region ends at the first `0x33` byte behind the second
/// magic sequence: it holds no `0x33`, and the metadata region behind it is
/// empty or begins with `0x33`.
pub proof fn lemma_metadata_region_start(input: Seq<u8>)
    requires
        spec_container(input) is Ok,
    ensures
        !spec_container(input).unwrap().metadata1.contains(METADATA1_STOP),
        metadata_region(input).len() == 0 || metadata_region(input)[0] == METADATA1_STOP,
{
    let body = input.skip(METADATA1_OFFSET as int);
    lemma_stop_index_splits(body, METADATA1_STOP);
    let metadata1 = spec_container(input).unwrap().metadata1;
    if metadata1.contains(METADATA1_STOP) {
        let i = choose|i: int| 0 <= i < metadata1.len() && metadata1[i] == METADATA1_STOP;
        assert(body[i] == metadata1[i]);
    }
}

/// The first header region of every container is 14 bytes long.
pub proof fn lemma_metadata0_is_fixed(input: Seq<u8>)
    requires
        spec_container(input) is Ok,
    ensures
        spec_container(input).unwrap().metadata0.len() == METADATA0_LEN,
{
}

/// No byte is lost and none is made up: the two magic sequences, the two
/// header regions, the bytes of the metadata fields that were read, and the
/// leftover, in this order, are `input` again.
pub proof fn lemma_container_reassembles(input: Seq<u8>)
    requires
        spec_container(input) is Ok,
    ensures
        spec_container(input).unwrap().encoded() == input,
{
    let raw = spec_container(input).unwrap();
    let body = input.skip(METADATA1_OFFSET as int);
    let region = metadata_region(input);
    lemma_stop_index_splits(body, METADATA1_STOP);
    assert(MAGIC_BYTES0@ =~= input.subrange(0, 14));
    assert(MAGIC_BYTES1@ =~= input.skip(28).subrange(0, 4));
    assert(body =~= raw.metadata1 + region);
    assert(input =~= MAGIC_BYTES0@ + raw.metadata0 + MAGIC_BYTES1@ + body);
    if spec_human(region) is Ok {
        lemma_human_reassembles(region);
    } else {
        assert(region =~= raw.metadata_bytes() + raw.raw_leftover);
    }
    assert(region == raw.metadata_bytes() + raw.raw_leftover);
    assert(input =~= raw.encoded());
}

/// A metadata region that does not begin with the name field's tag (so one
/// that is empty, and one whose first byte is not `0x33`) does not stop the
/// decoding: the container is there, its metadata is absent, and the whole
/// region is its leftover.
pub proof fn lemma_unreadable_metadata_is_leftover(input: Seq<u8>)
    requires
        spec_container(input) is Ok,
        !NAME_TAG@.is_prefix_of(metadata_region(input)),
    ensures
        spec_container(input).unwrap().human_metadata is None,
        spec_container(input).unwrap().raw_leftover == metadata_region(input),
{
}

/// An input that does not begin with the first magic sequence holds no
/// container: decoding fails with `BadMagic`.
pub proof fn lemma_missing_first_magic(input: Seq<u8>)
    requires
        !MAGIC_BYTES0@.is_prefix_of(input),
    ensures
        spec_container(input) == Err::<RawContainer, ParseError>(ParseError::BadMagic),
{
}

/// An input that ends less than 14 bytes behind the first magic sequence
/// holds no container: decoding fails with `UnexpectedEof`.
pub proof fn lemma_truncated_metadata0(input: Seq<u8>)
    requires
        MAGIC_BYTES0@.is_prefix_of(input),
        input.len() < METADATA0_OFFSET + METADATA0_LEN,
    ensures
        spec_container(input) == Err::<RawContainer, ParseError>(ParseError::UnexpectedEof),
{
}

/// An input with the first magic sequence and the first header region, but
/// without the second magic sequence behind them, holds no container:
/// decoding fails with `BadMagic`.
pub proof fn lemma_missing_second_magic(input: Seq<u8>)
    requires
        MAGIC_BYTES0@.is_prefix_of(input),
        input.len() >= METADATA0_OFFSET + METADATA0_LEN,
        !MAGIC_BYTES1@.is_prefix_of(input.skip(MAGIC1_OFFSET as int)),
    ensures
        spec_container(input) == Err::<RawContainer, ParseError>(ParseError::BadMagic),
{
}

/// Behind a sound header nothing fails: an input with both magic sequences
/// in place and 14 bytes between them holds a container.
pub proof fn lemma_sound_header_decodes(input: Seq<u8>)
    requires
        MAGIC_BYTES0@.is_prefix_of(input),
        input.len() >= METADATA0_OFFSET + METADATA0_LEN,
        MAGIC_BYTES1@.is_prefix_of(input.skip(MAGIC1_OFFSET as int)),
    ensures
        spec_container(input) is Ok,
{
}

impl StelData {
    /// The first header region is 14 bytes long.
    pub open spec fn wf(&self) -> bool {
        self.metadata0@.len() == METADATA0_LEN
    }

    /// Decodes a container from `bytes`, the full contents of a file.
    ///
    /// Fails only in the header: with `BadMagic` where either magic sequence
    /// is not in its place, with `UnexpectedEof` where fewer than 14 bytes
    /// follow the first. Behind the header nothing can fail: a metadata block
    /// that cannot be read is absent, and its bytes are part of the leftover.
    pub fn parse(bytes: &[u8]) -> (r: Result<StelData, ParseError>)
        ensures
            match spec_container(bytes@) {
                Ok(raw) => r matches Ok(data) && data@ == raw.decoded() && data.wf(),
                Err(e) => r matches Err(f) && f == e,
            },
    {
        let (after_magic0, _) = match match_literal(bytes, &MAGIC_BYTES0) {
            Ok(found) => found,
            Err(_) => {
                return Err(ParseError::BadMagic);
            },
        };
        let (after_metadata0, metadata0) = match take_fixed(after_magic0, METADATA0_LEN) {
            Ok(found) => found,
            Err(e) => {
                return Err(e);
            },
        };
        let (after_magic1, _) = match match_literal(after_metadata0, &MAGIC_BYTES1) {
            Ok(found) => found,
            Err(_) => {
                return Err(ParseError::BadMagic);
            },
        };
        proof {
            assert(after_metadata0@ =~= bytes@.skip(28));
            assert(metadata0@ =~= bytes@.subrange(14, 28));
            assert(after_magic1@ =~= bytes@.skip(32));
        }
        let (region, metadata1) = take_until_byte(after_magic1, METADATA1_STOP);
        let mut leftover = region;
        let mut human_metadata = None;
        match HumanMetadata::parse(region) {
            Ok((new_bytes, new_human_metadata)) => {
                leftover = new_bytes;
                human_metadata = Some(new_human_metadata);
            },
            Err(_) => {},
        }
        Ok(
            StelData {
                metadata0: slice_to_vec(metadata0),
                metadata1: slice_to_vec(metadata1),
                human_metadata,
                raw_leftover: slice_to_vec(leftover),
            },
        )
    }
}

} // verus!
