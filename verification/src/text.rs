//! NUL-terminated strings and the lenient text decoding that every string
//! field of the format goes through.

use vstd::prelude::*;
use vstd::utf8::{decode_utf8, valid_utf8};
use crate::cursor::{
    lemma_stop_index_splits, lemma_stop_index_unique, match_literal, stop_index,
    take_until_byte,
};
use crate::error::ParseError;

verus! {

/// The byte that ends a string.
pub const NUL: u8 = 0x00;

/// What `String::from_utf8_lossy` makes of `bytes`.
pub uninterp spec fn utf8_lossy(bytes: Seq<u8>) -> Seq<char>;

/// The text that a string field holds for the payload `bytes`: the characters
/// that `bytes` encode where they are valid UTF-8, and otherwise what std's
/// lossy conversion makes of them, with U+FFFD in place of what is malformed.
pub open spec fn lossy_text(bytes: Seq<u8>) -> Seq<char> {
    if valid_utf8(bytes) {
        decode_utf8(bytes)
    } else {
        utf8_lossy(bytes)
    }
}

/// The character that stands in for malformed input: U+FFFD.
pub const REPLACEMENT: char = '\u{FFFD}';

/// `String::from_utf8_lossy`, made into an owned `String`. The conversion is
/// a function of the bytes alone and never fails. On valid UTF-8 it changes
/// nothing, so the result then holds the characters that the bytes encode;
/// on anything else it puts U+FFFD in place of each malformed sequence, so
/// the result then holds that character.
#[verifier::external_body]
fn from_utf8_lossy(bytes: &[u8]) -> (s: String)
    ensures
        s@ == utf8_lossy(bytes@),
        valid_utf8(bytes@) ==> s@ == decode_utf8(bytes@),
        !valid_utf8(bytes@) ==> s@.contains(REPLACEMENT),
{
    String::from_utf8_lossy(bytes).into_owned()
}

/// Decodes `bytes` as text, leniently: malformed input never fails, it shows
/// as U+FFFD in the text.
pub fn decode_text(bytes: &[u8]) -> (s: String)
    ensures
        s@ == lossy_text(bytes@),
        !valid_utf8(bytes@) ==> s@.contains(REPLACEMENT),
{
    from_utf8_lossy(bytes)
}

/// A NUL-terminated payload at the start of `input`: what is left behind the
/// terminator, and the payload without it. `UnexpectedEof` where `input` holds
/// no NUL.
pub open spec fn spec_c_bytes(input: Seq<u8>) -> Result<(Seq<u8>, Seq<u8>), ParseError> {
    let n = stop_index(input, NUL);
    if n < input.len() {
        Ok((input.skip(n + 1), input.take(n)))
    } else {
        Err(ParseError::UnexpectedEof)
    }
}

/// What `spec_c_bytes` reads joins back to `input`: the payload, which holds
/// no NUL, then a NUL, then what is left.
pub proof fn lemma_c_bytes_reassembles(input: Seq<u8>)
    requires
        spec_c_bytes(input) is Ok,
    ensures
        ({
            let (rest, payload) = spec_c_bytes(input).unwrap();
            &&& input == payload + seq![NUL] + rest
            &&& !payload.contains(NUL)
        }),
{
    let n = stop_index(input, NUL);
    let (rest, payload) = spec_c_bytes(input).unwrap();
    lemma_stop_index_splits(input, NUL);
    assert(input =~= payload + seq![NUL] + rest);
    if payload.contains(NUL) {
        let i = choose|i: int| 0 <= i < payload.len() && payload[i] == NUL;
        assert(input[i] == payload[i]);
    }
}

/// A payload without a NUL, followed by a NUL, is read back as it is, and
/// what follows the NUL is left.
pub proof fn lemma_c_bytes_of_terminated(payload: Seq<u8>, rest: Seq<u8>)
    requires
        !payload.contains(NUL),
    ensures
        spec_c_bytes(payload + seq![NUL] + rest) == Ok::<(Seq<u8>, Seq<u8>), ParseError>(
            (rest, payload),
        ),
{
    let input = payload + seq![NUL] + rest;
    let n = payload.len() as int;
    assert forall|i: int| 0 <= i < n implies input[i] != NUL by {
        assert(input[i] == payload[i]);
    }
    assert(input[n] == NUL);
    lemma_stop_index_unique(input, NUL, n);
    assert(input.skip(n + 1) =~= rest);
    assert(input.take(n) =~= payload);
}

/// Splits a NUL-terminated payload off the start of `input`.
///
/// Returns what is left behind the terminator and the bytes before it; fails
/// with `UnexpectedEof` where `input` ends before a NUL is found.
pub fn split_c_bytes<'a>(input: &'a [u8]) -> (r: Result<(&'a [u8], &'a [u8]), ParseError>)
    ensures
        match spec_c_bytes(input@) {
            Ok((rest, payload)) => r matches Ok((x, y)) && x@ == rest && y@ == payload,
            Err(e) => r matches Err(f) && f == e,
        },
{
    let (rest, payload) = take_until_byte(input, NUL);
    let terminator: [u8; 1] = [NUL];
    proof {
        let n = stop_index(input@, NUL);
        lemma_stop_index_splits(input@, NUL);
        assert(terminator@ =~= seq![NUL]);
        if n < input@.len() {
            assert(rest@[0] == NUL);
            assert(terminator@ =~= rest@.subrange(0, 1));
            assert(rest@.skip(1) =~= input@.skip(n + 1));
        }
    }
    match match_literal(rest, &terminator) {
        Ok((rest, _)) => Ok((rest, payload)),
        Err(_) => Err(ParseError::UnexpectedEof),
    }
}

/// Reads a NUL-terminated string from the start of `bytes`.
///
/// Returns what is left behind the terminator and the payload decoded as
/// text; fails with `UnexpectedEof` where `bytes` ends before a NUL is found.
pub fn parse_c_str<'a>(bytes: &'a [u8]) -> (r: Result<(&'a [u8], String), ParseError>)
    ensures
        match spec_c_bytes(bytes@) {
            Ok((rest, payload)) => r matches Ok((x, s)) && x@ == rest && s@ == lossy_text(payload),
            Err(e) => r matches Err(f) && f == e,
        },
{
    match split_c_bytes(bytes) {
        Ok((rest, payload)) => Ok((rest, decode_text(payload))),
        Err(e) => Err(e),
    }
}

} // verus!
