//! Payloads: the values a carrier moves, and the codec that frames them.
//!
//! The bytes are made and read by `rmp_serde`. What it writes and accepts for
//! booleans and 64-bit integers is stated over the frames of `wire`; nothing in
//! this module is proved of `rmp_serde` itself. Other values of the codec are
//! no payloads: see `Payload`.

use vstd::prelude::*;
use vstd::slice::slice_subrange;
use crate::wire::{
    bool_frame, frame_tail, int_frame, is_frame, is_partial, leading_bool, leading_int,
    leading_uint, lemma_bool_round_trip, lemma_int_round_trip, lemma_uint_round_trip, tail_len,
    uint_frame,
};

verus! {

/// The error of `rmp_serde`'s encoder. Carried, never looked into.
#[verifier::external_type_specification]
#[verifier::external_body]
pub struct ExEncodeError(rmp_serde::encode::Error);

/// The error of `rmp_serde`'s decoder. Carried, never looked into.
#[verifier::external_type_specification]
#[verifier::external_body]
pub struct ExDecodeError(rmp_serde::decode::Error);

/// The error of a byte stream. Carried, never looked into.
#[verifier::external_type_specification]
#[verifier::external_body]
pub struct ExIoError(std::io::Error);

/// Calls `rmp_serde::encode::write` on a signed 64-bit integer, with a new
/// vector as the writer. The call succeeds: the encoder fails on an integer
/// only where its writer does, and a vector takes every write. The bytes are
/// the integer's frame: the shortest form that holds it, unsigned where it is
/// not negative.
#[verifier::external_body]
fn encode_int(value: i64) -> (r: Result<Vec<u8>, rmp_serde::encode::Error>)
    ensures
        r is Ok,
        r matches Ok(bytes) ==> bytes@ == int_frame(value as int),
{
    let mut bytes = Vec::new();
    match rmp_serde::encode::write(&mut bytes, &value) {
        Ok(()) => Ok(bytes),
        Err(e) => Err(e),
    }
}

/// Calls `rmp_serde::encode::write` on an unsigned 64-bit integer, with a new
/// vector as the writer. The call succeeds: the encoder fails on an integer
/// only where its writer does, and a vector takes every write. The bytes are
/// the integer's frame: the shortest unsigned form that holds it.
#[verifier::external_body]
fn encode_uint(value: u64) -> (r: Result<Vec<u8>, rmp_serde::encode::Error>)
    ensures
        r is Ok,
        r matches Ok(bytes) ==> bytes@ == uint_frame(value as nat),
{
    let mut bytes = Vec::new();
    match rmp_serde::encode::write(&mut bytes, &value) {
        Ok(()) => Ok(bytes),
        Err(e) => Err(e),
    }
}

/// Calls `rmp_serde::encode::write` on a boolean, with a new vector as the
/// writer. The call succeeds: the encoder fails on a boolean only where its
/// writer does, and a vector takes every write. The bytes are the boolean's
/// marker.
#[verifier::external_body]
fn encode_bool(value: bool) -> (r: Result<Vec<u8>, rmp_serde::encode::Error>)
    ensures
        r is Ok,
        r matches Ok(bytes) ==> bytes@ == bool_frame(value),
{
    let mut bytes = Vec::new();
    match rmp_serde::encode::write(&mut bytes, &value) {
        Ok(()) => Ok(bytes),
        Err(e) => Err(e),
    }
}

/// Calls `rmp_serde::from_slice` for a signed 64-bit integer. It succeeds
/// exactly where the bytes begin with an integer, written in any form, that
/// fits the type, and then returns that integer; what follows the integer is
/// not read.
#[verifier::external_body]
fn decode_int(bytes: &[u8]) -> (r: Result<i64, rmp_serde::decode::Error>)
    ensures
        match r {
            Ok(value) => leading_int(bytes@) == Some(value),
            Err(_) => leading_int(bytes@) is None,
        },
{
    rmp_serde::from_slice(bytes)
}

/// Calls `rmp_serde::from_slice` for an unsigned 64-bit integer. It succeeds
/// exactly where the bytes begin with an integer, written in any form, that is
/// not negative and fits the type, and then returns that integer; what follows
/// the integer is not read.
#[verifier::external_body]
fn decode_uint(bytes: &[u8]) -> (r: Result<u64, rmp_serde::decode::Error>)
    ensures
        match r {
            Ok(value) => leading_uint(bytes@) == Some(value),
            Err(_) => leading_uint(bytes@) is None,
        },
{
    rmp_serde::from_slice(bytes)
}

/// Calls `rmp_serde::from_slice` for a boolean. It succeeds exactly where the
/// first byte is the marker of `true` or of `false`, and then returns that
/// boolean; what follows the marker is not read.
#[verifier::external_body]
fn decode_bool(bytes: &[u8]) -> (r: Result<bool, rmp_serde::decode::Error>)
    ensures
        match r {
            Ok(value) => leading_bool(bytes@) == Some(value),
            Err(_) => leading_bool(bytes@) is None,
        },
{
    rmp_serde::from_slice(bytes)
}

/// A value that a carrier can move: it has a frame, and a frame can be read
/// back as such a value.
///
/// A frame is one boolean or one 64-bit integer, so these are the payloads:
/// `bool`, `i64` and `u64`. A string, a float, an array, a map or nil has no
/// frame here and cannot be a payload, though the codec could encode it: the
/// carrier must know from the first byte where a value ends, and knows it for
/// these markers only.
pub trait Payload: Sized {
    /// The frame that carries this value.
    spec fn frame(&self) -> Seq<u8>;

    /// Whether the encoder takes this value. It takes every boolean and every
    /// 64-bit integer.
    spec fn encodable(&self) -> bool;

    /// The value of this type that `bytes` begin with, if there is one.
    spec fn carried(bytes: Seq<u8>) -> Option<Self>;

    /// Encodes the value. Succeeds exactly where the value is encodable; the
    /// bytes are then the value's frame.
    fn encode(&self) -> (r: Result<Vec<u8>, rmp_serde::encode::Error>)
        ensures
            r is Ok <==> self.encodable(),
            r matches Ok(bytes) ==> bytes@ == self.frame(),
    ;

    /// Decodes the value that `bytes` begin with. Fails exactly where they
    /// begin with no value of this type.
    fn decode(bytes: &[u8]) -> (r: Result<Self, rmp_serde::decode::Error>)
        ensures
            match r {
                Ok(value) => Self::carried(bytes@) == Some(value),
                Err(_) => Self::carried(bytes@) is None,
            },
    ;

    /// A value's frame is one whole frame, and carries that value.
    proof fn lemma_round_trip(&self)
        ensures
            is_frame(self.frame()),
            Self::carried(self.frame()) == Some(*self),
    ;
}

impl Payload for bool {
    open spec fn frame(&self) -> Seq<u8> {
        bool_frame(*self)
    }

    open spec fn encodable(&self) -> bool {
        true
    }

    open spec fn carried(bytes: Seq<u8>) -> Option<bool> {
        leading_bool(bytes)
    }

    fn encode(&self) -> (r: Result<Vec<u8>, rmp_serde::encode::Error>) {
        encode_bool(*self)
    }

    fn decode(bytes: &[u8]) -> (r: Result<bool, rmp_serde::decode::Error>) {
        decode_bool(bytes)
    }

    proof fn lemma_round_trip(&self) {
        lemma_bool_round_trip(*self);
    }
}

impl Payload for i64 {
    open spec fn frame(&self) -> Seq<u8> {
        int_frame(*self as int)
    }

    open spec fn encodable(&self) -> bool {
        true
    }

    open spec fn carried(bytes: Seq<u8>) -> Option<i64> {
        leading_int(bytes)
    }

    fn encode(&self) -> (r: Result<Vec<u8>, rmp_serde::encode::Error>) {
        encode_int(*self)
    }

    fn decode(bytes: &[u8]) -> (r: Result<i64, rmp_serde::decode::Error>) {
        decode_int(bytes)
    }

    proof fn lemma_round_trip(&self) {
        lemma_int_round_trip(*self);
    }
}

impl Payload for u64 {
    open spec fn frame(&self) -> Seq<u8> {
        uint_frame(*self as nat)
    }

    open spec fn encodable(&self) -> bool {
        true
    }

    open spec fn carried(bytes: Seq<u8>) -> Option<u64> {
        leading_uint(bytes)
    }

    fn encode(&self) -> (r: Result<Vec<u8>, rmp_serde::encode::Error>) {
        encode_uint(*self)
    }

    fn decode(bytes: &[u8]) -> (r: Result<u64, rmp_serde::decode::Error>) {
        decode_uint(bytes)
    }

    proof fn lemma_round_trip(&self) {
        lemma_uint_round_trip(*self);
    }
}

/// Why no value could be read.
#[derive(Debug)]
pub enum DecodeFault {
    /// The stream failed while a frame was read.
    Stream(std::io::Error),
    /// The stream had ended before the first byte of a frame.
    Closed,
    /// The stream ended inside a frame.
    Truncated,
    /// The byte opens no boolean and no integer: it is the marker of a value
    /// that is no payload, or no marker at all. Nothing behind it was taken.
    Marker(u8),
    /// The frame is whole, but the decoder found no value of the type asked
    /// for in it.
    Codec(rmp_serde::decode::Error),
}

/// Reads the first frame of `bytes` as a `T`. Returns the value and the length
/// of its frame; bytes behind the frame are left alone.
pub fn unpack<T: Payload>(bytes: &[u8]) -> (r: Result<(T, usize), DecodeFault>)
    ensures
        match r {
            Ok((value, used)) => {
                &&& 1 <= used <= bytes@.len()
                &&& is_frame(bytes@.take(used as int))
                &&& T::carried(bytes@.take(used as int)) == Some(value)
            },
            Err(DecodeFault::Closed) => bytes@.len() == 0,
            Err(DecodeFault::Marker(marker)) => {
                &&& bytes@.len() >= 1
                &&& bytes@[0] == marker
                &&& tail_len(marker) is None
            },
            Err(DecodeFault::Truncated) => bytes@.len() >= 1 && is_partial(bytes@),
            Err(DecodeFault::Codec(_)) => {
                &&& bytes@.len() >= 1
                &&& tail_len(bytes@[0]) matches Some(n)
                &&& bytes@.len() >= 1 + n
                &&& T::carried(bytes@.take(1 + n as int)) is None
            },
            Err(DecodeFault::Stream(_)) => false,
        },
{
    if bytes.len() == 0 {
        return Err(DecodeFault::Closed);
    }
    let marker: u8 = bytes[0];
    match frame_tail(marker) {
        None => Err(DecodeFault::Marker(marker)),
        Some(tail) => {
            if bytes.len() - 1 < tail {
                Err(DecodeFault::Truncated)
            } else {
                let used: usize = 1 + tail;
                let frame = slice_subrange(bytes, 0, used);
                match T::decode(frame) {
                    Ok(value) => Ok((value, used)),
                    Err(e) => Err(DecodeFault::Codec(e)),
                }
            }
        },
    }
}

} // verus!
