//! The block of tagged, human-readable strings that may follow the two header
//! regions of a container.
//!
//! A field is a two-byte tag, a payload, and a NUL. The fields are looked for
//! in one fixed order. The first, the name, has to be there; each of the
//! others is read where its tag stands at the cursor and is skipped for good
//! where it does not.

use vstd::prelude::*;
use crate::cursor::match_literal;
use crate::error::ParseError;
use crate::text::{
    lemma_c_bytes_of_terminated, lemma_c_bytes_reassembles, lossy_text, parse_c_str, spec_c_bytes,
    NUL,
};

verus! {

/// The tag of the name field.
pub const NAME_TAG: [u8; 2] = [0x33, 0x00];

/// The tag of the description field.
pub const DESCRIPTION_TAG: [u8; 2] = [0x37, 0x00];

/// The tag of the field whose meaning is not known.
pub const FIELD3A_TAG: [u8; 2] = [0x3A, 0x00];

/// The tag of the website link field.
pub const WEBSITE_LINK_TAG: [u8; 2] = [0x8E, 0x00];

/// The human-readable strings of a container. Every field is either a decoded
/// string or absent.
#[derive(Debug, PartialEq, Eq, Clone, Hash)]
pub struct HumanMetadata {
    pub name: Option<String>,
    pub description: Option<String>,
    pub field3a: Option<String>,
    pub website_link: Option<String>,
}

/// What a `HumanMetadata` holds, as mathematical values.
pub struct HumanMetadataView {
    pub name: Option<Seq<char>>,
    pub description: Option<Seq<char>>,
    pub field3a: Option<Seq<char>>,
    pub website_link: Option<Seq<char>>,
}

/// The payloads of the fields as they stand in the input, before decoding.
pub struct RawMetadata {
    pub name: Option<Seq<u8>>,
    pub description: Option<Seq<u8>>,
    pub field3a: Option<Seq<u8>>,
    pub website_link: Option<Seq<u8>>,
}

/// The characters of an optional string.
pub open spec fn text_of(field: Option<String>) -> Option<Seq<char>> {
    match field {
        Some(s) => Some(s@),
        None => None,
    }
}

/// The text that an optional payload decodes to.
pub open spec fn decoded_field(payload: Option<Seq<u8>>) -> Option<Seq<char>> {
    match payload {
        Some(p) => Some(lossy_text(p)),
        None => None,
    }
}

impl View for HumanMetadata {
    type V = HumanMetadataView;

    open spec fn view(&self) -> HumanMetadataView {
        HumanMetadataView {
            name: text_of(self.name),
            description: text_of(self.description),
            field3a: text_of(self.field3a),
            website_link: text_of(self.website_link),
        }
    }
}

impl HumanMetadataView {
    /// The record with every field absent.
    pub open spec fn empty() -> HumanMetadataView {
        HumanMetadataView { name: None, description: None, field3a: None, website_link: None }
    }
}

impl RawMetadata {
    /// The record that holds these payloads as text.
    pub open spec fn decoded(self) -> HumanMetadataView {
        HumanMetadataView {
            name: decoded_field(self.name),
            description: decoded_field(self.description),
            field3a: decoded_field(self.field3a),
            website_link: decoded_field(self.website_link),
        }
    }

    /// The bytes that these fields take up in a container: each field that is
    /// present as its tag, its payload and a NUL, in the fixed order.
    pub open spec fn encoded(self) -> Seq<u8> {
        encoded_field(NAME_TAG@, self.name) + encoded_field(DESCRIPTION_TAG@, self.description)
            + encoded_field(FIELD3A_TAG@, self.field3a) + encoded_field(
            WEBSITE_LINK_TAG@,
            self.website_link,
        )
    }
}

/// The bytes of one field: `tag`, the payload and a NUL; nothing for an absent
/// field.
pub open spec fn encoded_field(tag: Seq<u8>, payload: Option<Seq<u8>>) -> Seq<u8> {
    match payload {
        Some(p) => tag + p + seq![NUL],
        None => Seq::empty(),
    }
}

/// A tagged field at the start of `input`: what is left behind its NUL, and
/// its payload. `TagMismatch` where `input` does not begin with `tag`,
/// `UnexpectedEof` where no NUL follows the tag.
pub open spec fn spec_tagged(input: Seq<u8>, tag: Seq<u8>) -> Result<
    (Seq<u8>, Seq<u8>),
    ParseError,
> {
    if tag.is_prefix_of(input) {
        spec_c_bytes(input.skip(tag.len() as int))
    } else {
        Err(ParseError::TagMismatch)
    }
}

/// An optional tagged field at the start of `input`: where the field cannot be
/// read the cursor stays where it was and the field is absent.
pub open spec fn spec_optional(input: Seq<u8>, tag: Seq<u8>) -> (Seq<u8>, Option<Seq<u8>>) {
    match spec_tagged(input, tag) {
        Ok((rest, payload)) => (rest, Some(payload)),
        Err(_) => (input, None),
    }
}

/// The metadata block at the start of `input`: what is left behind the last
/// field that was read, and the payloads. Fails as the name field fails.
pub open spec fn spec_human(input: Seq<u8>) -> Result<(Seq<u8>, RawMetadata), ParseError> {
    match spec_tagged(input, NAME_TAG@) {
        Ok((after_name, name)) => {
            let (after_description, description) = spec_optional(after_name, DESCRIPTION_TAG@);
            let (after_field3a, field3a) = spec_optional(after_description, FIELD3A_TAG@);
            let (rest, website_link) = spec_optional(after_field3a, WEBSITE_LINK_TAG@);
            Ok((rest, RawMetadata { name: Some(name), description, field3a, website_link }))
        },
        Err(e) => Err(e),
    }
}

/// What `spec_tagged` reads joins back to `input`: the tag, the payload, a
/// NUL, then what is left.
pub proof fn lemma_tagged_reassembles(input: Seq<u8>, tag: Seq<u8>)
    requires
        spec_tagged(input, tag) is Ok,
    ensures
        ({
            let (rest, payload) = spec_tagged(input, tag).unwrap();
            &&& input == encoded_field(tag, Some(payload)) + rest
            &&& !payload.contains(NUL)
        }),
{
    let behind = input.skip(tag.len() as int);
    lemma_c_bytes_reassembles(behind);
    let (rest, payload) = spec_tagged(input, tag).unwrap();
    assert(input =~= tag + behind);
    assert(input =~= tag + payload + seq![NUL] + rest);
}

/// A field that was written out is read back: behind `tag`, a payload
/// without a NUL and a NUL, `spec_tagged` finds that payload and leaves what
/// follows.
pub proof fn lemma_tagged_of_encoded(tag: Seq<u8>, payload: Seq<u8>, rest: Seq<u8>)
    requires
        !payload.contains(NUL),
    ensures
        spec_tagged(encoded_field(tag, Some(payload)) + rest, tag) == Ok::<
            (Seq<u8>, Seq<u8>),
            ParseError,
        >((rest, payload)),
{
    let input = encoded_field(tag, Some(payload)) + rest;
    assert(tag =~= input.subrange(0, tag.len() as int));
    assert(input.skip(tag.len() as int) =~= payload + seq![NUL] + rest);
    lemma_c_bytes_of_terminated(payload, rest);
}

/// Whether or not an optional field is read, the bytes of what was read and
/// what is left join back to `input`.
pub proof fn lemma_optional_reassembles(input: Seq<u8>, tag: Seq<u8>)
    ensures
        ({
            let (rest, payload) = spec_optional(input, tag);
            input == encoded_field(tag, payload) + rest
        }),
{
    if spec_tagged(input, tag) is Ok {
        lemma_tagged_reassembles(input, tag);
    } else {
        assert(input =~= Seq::<u8>::empty() + input);
    }
}

/// The metadata block consumes exactly the bytes of the fields it records:
/// they, written out in the fixed order, and what is left join back to
/// `input`. The name is always among them.
pub proof fn lemma_human_reassembles(input: Seq<u8>)
    requires
        spec_human(input) is Ok,
    ensures
        ({
            let (rest, raw) = spec_human(input).unwrap();
            &&& input == raw.encoded() + rest
            &&& raw.name is Some
        }),
{
    let (after_name, name) = spec_tagged(input, NAME_TAG@).unwrap();
    let (after_description, description) = spec_optional(after_name, DESCRIPTION_TAG@);
    let (after_field3a, field3a) = spec_optional(after_description, FIELD3A_TAG@);
    let (rest, website_link) = spec_optional(after_field3a, WEBSITE_LINK_TAG@);
    lemma_tagged_reassembles(input, NAME_TAG@);
    lemma_optional_reassembles(after_name, DESCRIPTION_TAG@);
    lemma_optional_reassembles(after_description, FIELD3A_TAG@);
    lemma_optional_reassembles(after_field3a, WEBSITE_LINK_TAG@);
    let raw = RawMetadata { name: Some(name), description, field3a, website_link };
    assert(input =~= raw.encoded() + rest);
}

/// The fields are matched strictly in their fixed order: a description that
/// stands behind the `0x3A` field is never read. On a name, a `0x3A` field
/// and a description, in this order in the input, the block records the name
/// and the `0x3A` field, leaves the description absent, and leaves the
/// description's bytes, with all that follows, unconsumed.
pub proof fn lemma_description_behind_field3a_is_skipped(
    name: Seq<u8>,
    field3a: Seq<u8>,
    description: Seq<u8>,
    tail: Seq<u8>,
)
    requires
        !name.contains(NUL),
        !field3a.contains(NUL),
        !description.contains(NUL),
    ensures
        ({
            let unread = encoded_field(DESCRIPTION_TAG@, Some(description)) + tail;
            let input = encoded_field(NAME_TAG@, Some(name)) + (encoded_field(
                FIELD3A_TAG@,
                Some(field3a),
            ) + unread);
            spec_human(input) == Ok::<(Seq<u8>, RawMetadata), ParseError>(
                (
                    unread,
                    RawMetadata {
                        name: Some(name),
                        description: None,
                        field3a: Some(field3a),
                        website_link: None,
                    },
                ),
            )
        }),
{
    let unread = encoded_field(DESCRIPTION_TAG@, Some(description)) + tail;
    let after_name = encoded_field(FIELD3A_TAG@, Some(field3a)) + unread;
    lemma_tagged_of_encoded(NAME_TAG@, name, after_name);
    lemma_tagged_of_encoded(FIELD3A_TAG@, field3a, unread);
    assert(after_name[0] == 0x3A);
    assert(!DESCRIPTION_TAG@.is_prefix_of(after_name)) by {
        if DESCRIPTION_TAG@.is_prefix_of(after_name) {
            assert(after_name.subrange(0, 2)[0] == DESCRIPTION_TAG@[0]);
        }
    }
    assert(unread[0] == 0x37);
    assert(!WEBSITE_LINK_TAG@.is_prefix_of(unread)) by {
        if WEBSITE_LINK_TAG@.is_prefix_of(unread) {
            assert(unread.subrange(0, 2)[0] == WEBSITE_LINK_TAG@[0]);
        }
    }
}

impl Default for HumanMetadata {
    fn default() -> (r: Self)
        ensures
            r@ == HumanMetadataView::empty(),
    {
        HumanMetadata { name: None, description: None, field3a: None, website_link: None }
    }
}

impl HumanMetadata {
    /// Reads one tagged string: `tag_bytes`, then a NUL-terminated payload.
    ///
    /// Returns what is left behind the NUL and the payload decoded as text.
    /// Fails with `TagMismatch` where `bytes` does not begin with `tag_bytes`,
    /// and with `UnexpectedEof` where no NUL follows the tag.
    pub fn parse_tagged_string<'a>(bytes: &'a [u8], tag_bytes: &[u8]) -> (r: Result<
        (&'a [u8], String),
        ParseError,
    >)
        ensures
            match spec_tagged(bytes@, tag_bytes@) {
                Ok((rest, payload)) => r matches Ok((x, s)) && x@ == rest && s@ == lossy_text(
                    payload,
                ),
                Err(e) => r matches Err(f) && f == e,
            },
    {
        match match_literal(bytes, tag_bytes) {
            Ok((rest, _)) => parse_c_str(rest),
            Err(_) => Err(ParseError::TagMismatch),
        }
    }

    /// Reads the name field into a record that holds nothing else.
    pub fn parse_name<'a>(bytes: &'a [u8]) -> (r: Result<(&'a [u8], HumanMetadata), ParseError>)
        ensures
            match spec_tagged(bytes@, NAME_TAG@) {
                Ok((rest, payload)) => r matches Ok((x, h)) && x@ == rest && h@ == (
                HumanMetadataView { name: Some(lossy_text(payload)), ..HumanMetadataView::empty() }),
                Err(e) => r matches Err(f) && f == e,
            },
    {
        match HumanMetadata::parse_tagged_string(bytes, &NAME_TAG) {
            Ok((rest, name)) => Ok(
                (
                    rest,
                    HumanMetadata {
                        name: Some(name),
                        description: None,
                        field3a: None,
                        website_link: None,
                    },
                ),
            ),
            Err(e) => Err(e),
        }
    }

    /// Reads the description field into a record that holds nothing else.
    pub fn parse_description<'a>(bytes: &'a [u8]) -> (r: Result<
        (&'a [u8], HumanMetadata),
        ParseError,
    >)
        ensures
            match spec_tagged(bytes@, DESCRIPTION_TAG@) {
                Ok((rest, payload)) => r matches Ok((x, h)) && x@ == rest && h@ == (
                HumanMetadataView {
                    description: Some(lossy_text(payload)),
                    ..HumanMetadataView::empty()
                }),
                Err(e) => r matches Err(f) && f == e,
            },
    {
        match HumanMetadata::parse_tagged_string(bytes, &DESCRIPTION_TAG) {
            Ok((rest, description)) => Ok(
                (
                    rest,
                    HumanMetadata {
                        name: None,
                        description: Some(description),
                        field3a: None,
                        website_link: None,
                    },
                ),
            ),
            Err(e) => Err(e),
        }
    }

    /// Reads the `0x3A` field into a record that holds nothing else.
    pub fn parse_field3a<'a>(bytes: &'a [u8]) -> (r: Result<(&'a [u8], HumanMetadata), ParseError>)
        ensures
            match spec_tagged(bytes@, FIELD3A_TAG@) {
                Ok((rest, payload)) => r matches Ok((x, h)) && x@ == rest && h@ == (
                HumanMetadataView {
                    field3a: Some(lossy_text(payload)),
                    ..HumanMetadataView::empty()
                }),
                Err(e) => r matches Err(f) && f == e,
            },
    {
        match HumanMetadata::parse_tagged_string(bytes, &FIELD3A_TAG) {
            Ok((rest, field3a)) => Ok(
                (
                    rest,
                    HumanMetadata {
                        name: None,
                        description: None,
                        field3a: Some(field3a),
                        website_link: None,
                    },
                ),
            ),
            Err(e) => Err(e),
        }
    }

    /// Reads the website link field into a record that holds nothing else.
    pub fn parse_website_link<'a>(bytes: &'a [u8]) -> (r: Result<
        (&'a [u8], HumanMetadata),
        ParseError,
    >)
        ensures
            match spec_tagged(bytes@, WEBSITE_LINK_TAG@) {
                Ok((rest, payload)) => r matches Ok((x, h)) && x@ == rest && h@ == (
                HumanMetadataView {
                    website_link: Some(lossy_text(payload)),
                    ..HumanMetadataView::empty()
                }),
                Err(e) => r matches Err(f) && f == e,
            },
    {
        match HumanMetadata::parse_tagged_string(bytes, &WEBSITE_LINK_TAG) {
            Ok((rest, website_link)) => Ok(
                (
                    rest,
                    HumanMetadata {
                        name: None,
                        description: None,
                        field3a: None,
                        website_link: Some(website_link),
                    },
                ),
            ),
            Err(e) => Err(e),
        }
    }

    /// Reads the metadata block at the start of `bytes`.
    ///
    /// The name has to be there: where it cannot be read, the whole block
    /// fails with the name's error. After it, description, `0x3A` field and
    /// website link are tried in this order, each at the cursor that the
    /// fields before it left; one that cannot be read stays absent and leaves
    /// the cursor where it was. Returns what is left behind the last field
    /// that was read, and the record.
    pub fn parse<'a>(bytes: &'a [u8]) -> (r: Result<(&'a [u8], HumanMetadata), ParseError>)
        ensures
            match spec_human(bytes@) {
                Ok((rest, raw)) => r matches Ok((x, h)) && x@ == rest && h@ == raw.decoded(),
                Err(e) => r matches Err(f) && f == e,
            },
    {
        let (mut bytes, mut human) = match HumanMetadata::parse_name(bytes) {
            Ok(found) => found,
            Err(e) => {
                return Err(e);
            },
        };
        match HumanMetadata::parse_description(bytes) {
            Ok((new_bytes, new_human)) => {
                bytes = new_bytes;
                human.description = new_human.description;
            },
            Err(_) => {},
        }
        match HumanMetadata::parse_field3a(bytes) {
            Ok((new_bytes, new_human)) => {
                bytes = new_bytes;
                human.field3a = new_human.field3a;
            },
            Err(_) => {},
        }
        match HumanMetadata::parse_website_link(bytes) {
            Ok((new_bytes, new_human)) => {
                bytes = new_bytes;
                human.website_link = new_human.website_link;
            },
            Err(_) => {},
        }
        Ok((bytes, human))
    }
}

} // verus!
