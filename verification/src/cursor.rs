//! Byte-cursor primitives: matching a literal, taking a fixed number of bytes,
//! and taking bytes until a predicate holds.
//!
//! A cursor is a byte slice; every primitive hands back the slice that is left
//! together with the slice that it consumed, and the two always join to the
//! slice that came in. The splitting itself is done by `nom`; the contracts of
//! the three private wrappers below are what this crate takes on trust from it.

use vstd::prelude::*;
use vstd::pervasive::unreached;
use crate::error::ParseError;

verus! {

/// `nom::Err`, the failure that every `nom` parser returns. Opaque here: only
/// the fact that a parser failed is used.
#[verifier::external_type_specification]
#[verifier::external_body]
#[verifier::reject_recursive_types(E)]
pub struct ExNomErr<E>(nom::Err<E>);

/// `nom::error::Error`, the default payload of `nom::Err`. Opaque here.
#[verifier::external_type_specification]
#[verifier::external_body]
#[verifier::reject_recursive_types(I)]
pub struct ExNomError<I>(nom::error::Error<I>);

/// The index of the first `stop` byte in `input`, or `input.len()` where
/// `input` holds none: the length of the longest prefix free of `stop`.
pub open spec fn stop_index(input: Seq<u8>, stop: u8) -> int
    decreases input.len(),
{
    if input.len() == 0 || input[0] == stop {
        0
    } else {
        1 + stop_index(input.skip(1), stop)
    }
}

/// `n` splits `input` at its first `stop` byte: no byte before `n` is `stop`,
/// and `n` is either the end of `input` or the place of a `stop` byte.
pub open spec fn splits_at_stop(input: Seq<u8>, stop: u8, n: int) -> bool {
    &&& 0 <= n <= input.len()
    &&& forall|i: int| 0 <= i < n ==> input[i] != stop
    &&& n < input.len() ==> input[n] == stop
}

/// `n` splits `input` where `predicate` first holds: of every byte before `n`
/// the predicate may say `false`, and `n` is either the end of `input` or the
/// place of a byte of which it may say `true`.
pub open spec fn splits_where<F: Fn(u8) -> bool>(input: Seq<u8>, predicate: F, n: int) -> bool {
    &&& 0 <= n <= input.len()
    &&& forall|i: int| 0 <= i < n ==> call_ensures(predicate, (#[trigger] input[i],), false)
    &&& n < input.len() ==> call_ensures(predicate, (input[n],), true)
}

/// `stop_index` splits `input` at its first `stop` byte.
pub proof fn lemma_stop_index_splits(input: Seq<u8>, stop: u8)
    ensures
        splits_at_stop(input, stop, stop_index(input, stop)),
    decreases input.len(),
{
    if input.len() == 0 || input[0] == stop {
    } else {
        let tail = input.skip(1);
        lemma_stop_index_splits(tail, stop);
        let n = stop_index(input, stop);
        assert forall|i: int| 0 <= i < n implies input[i] != stop by {
            if i > 0 {
                assert(input[i] == tail[i - 1]);
            }
        }
        if n < input.len() {
            assert(input[n] == tail[n - 1]);
        }
    }
}

/// Only one index splits `input` at its first `stop` byte.
pub proof fn lemma_stop_index_unique(input: Seq<u8>, stop: u8, n: int)
    requires
        splits_at_stop(input, stop, n),
    ensures
        n == stop_index(input, stop),
{
    lemma_stop_index_splits(input, stop);
    let m = stop_index(input, stop);
    if n < m {
        assert(input[n] != stop);
    } else if m < n {
        assert(input[m] != stop);
    }
}

/// `nom::bytes::complete::tag` on byte slices. It succeeds exactly when
/// `input` begins with `literal`; it then returns the bytes behind the literal
/// and the matched bytes, in this order.
#[verifier::external_body]
fn nom_tag<'a>(input: &'a [u8], literal: &[u8]) -> (r: Result<
    (&'a [u8], &'a [u8]),
    nom::Err<nom::error::Error<&'a [u8]>>,
>)
    ensures
        r is Ok <==> literal@.is_prefix_of(input@),
        r matches Ok((rest, matched)) ==> matched@ == literal@ && matched@ + rest@ == input@,
{
    nom::bytes::complete::tag(literal)(input)
}

/// `nom::bytes::complete::take` on byte slices. It succeeds exactly when
/// `input` holds at least `count` bytes; it then returns the bytes behind the
/// first `count` and those first `count` bytes, in this order.
#[verifier::external_body]
fn nom_take<'a>(input: &'a [u8], count: usize) -> (r: Result<
    (&'a [u8], &'a [u8]),
    nom::Err<nom::error::Error<&'a [u8]>>,
>)
    ensures
        r is Ok <==> count <= input@.len(),
        r matches Ok((rest, taken)) ==> taken@.len() == count && taken@ + rest@ == input@,
{
    nom::bytes::complete::take(count)(input)
}

/// `nom::bytes::complete::take_till` on byte slices. It never fails. It asks
/// `predicate` of the bytes of `input` in order and splits before the first
/// byte of which the answer is `true`, or at the end where there is none; it
/// returns the bytes from the split on and the bytes before it, in this
/// order.
#[verifier::external_body]
fn nom_take_till<'a, F: Fn(u8) -> bool>(input: &'a [u8], predicate: F) -> (r: Result<
    (&'a [u8], &'a [u8]),
    nom::Err<nom::error::Error<&'a [u8]>>,
>)
    requires
        forall|byte: u8| call_requires(predicate, (byte,)),
    ensures
        r is Ok,
        r matches Ok((rest, taken)) ==> taken@ + rest@ == input@ && splits_where(
            input@,
            predicate,
            taken@.len() as int,
        ),
{
    nom::bytes::complete::take_till(predicate)(input)
}

/// Matches `literal` at the start of `input`.
///
/// Where `input` begins with `literal`, returns what is left behind it and the
/// matched bytes; otherwise fails with `UnexpectedBytes`. An empty literal
/// always matches and consumes nothing.
pub fn match_literal<'a>(input: &'a [u8], literal: &[u8]) -> (r: Result<
    (&'a [u8], &'a [u8]),
    ParseError,
>)
    ensures
        literal@.is_prefix_of(input@) ==> (r matches Ok((rest, matched)) && matched@ == literal@
            && rest@ == input@.skip(literal@.len() as int)),
        !literal@.is_prefix_of(input@) ==> r == Err::<(&[u8], &[u8]), ParseError>(
            ParseError::UnexpectedBytes,
        ),
{
    match nom_tag(input, literal) {
        Ok((rest, matched)) => {
            assert(rest@ =~= input@.skip(literal@.len() as int));
            Ok((rest, matched))
        },
        Err(_) => Err(ParseError::UnexpectedBytes),
    }
}

/// Takes exactly `n` bytes from the start of `input`.
///
/// Where `input` holds at least `n` bytes, returns what is left behind them
/// and the `n` bytes; otherwise fails with `UnexpectedEof`.
pub fn take_fixed<'a>(input: &'a [u8], n: usize) -> (r: Result<(&'a [u8], &'a [u8]), ParseError>)
    ensures
        n <= input@.len() ==> (r matches Ok((rest, taken)) && taken@ == input@.take(n as int)
            && rest@ == input@.skip(n as int)),
        n > input@.len() ==> r == Err::<(&[u8], &[u8]), ParseError>(ParseError::UnexpectedEof),
{
    match nom_take(input, n) {
        Ok((rest, taken)) => {
            assert(taken@ =~= input@.take(n as int));
            assert(rest@ =~= input@.skip(n as int));
            Ok((rest, taken))
        },
        Err(_) => Err(ParseError::UnexpectedEof),
    }
}

/// Takes the longest prefix of `input` on whose bytes `predicate` is false.
///
/// Never fails: the prefix is empty where `input` is empty or `predicate`
/// holds of its first byte, and is all of `input` where `predicate` holds of
/// none. Returns what is left and the prefix.
pub fn take_until<'a, F: Fn(u8) -> bool>(input: &'a [u8], predicate: F) -> (r: (
    &'a [u8],
    &'a [u8],
))
    requires
        forall|byte: u8| call_requires(predicate, (byte,)),
    ensures
        r.1@ + r.0@ == input@,
        splits_where(input@, predicate, r.1@.len() as int),
{
    match nom_take_till(input, predicate) {
        Ok(found) => found,
        Err(_) => unreached(),
    }
}

/// Takes the longest prefix of `input` that holds no `stop` byte.
///
/// Returns what is left (empty, or beginning with `stop`) and the prefix.
pub fn take_until_byte<'a>(input: &'a [u8], stop: u8) -> (r: (&'a [u8], &'a [u8]))
    ensures
        r.1@ == input@.take(stop_index(input@, stop)),
        r.0@ == input@.skip(stop_index(input@, stop)),
        !r.1@.contains(stop),
        r.0@.len() > 0 ==> r.0@[0] == stop,
{
    let is_stop = |byte: u8| -> (found: bool)
        ensures
            found == (byte == stop),
        { byte == stop };
    let (rest, taken) = take_until(input, is_stop);
    proof {
        let n = taken@.len() as int;
        assert forall|i: int| 0 <= i < n implies input@[i] != stop by {
            assert(call_ensures(is_stop, (input@[i],), false));
        }
        lemma_stop_index_unique(input@, stop, n);
        assert(taken@ =~= input@.take(n));
        assert(rest@ =~= input@.skip(n));
        if taken@.contains(stop) {
            let i = choose|i: int| 0 <= i < taken@.len() && taken@[i] == stop;
            assert(input@[i] == taken@[i]);
        }
    }
    (rest, taken)
}

} // verus!
