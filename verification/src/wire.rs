//! The frames that travel over a carrier.
//!
//! A frame is one MessagePack scalar: a marker byte, followed by as many
//! big-endian digits as the marker announces. Booleans and integers are the
//! only payloads a carrier moves, so these are the only frames described here.

use vstd::prelude::*;

verus! {

/// The marker of the boolean `false`.
pub const MARKER_FALSE: u8 = 0xc2;

/// The marker of the boolean `true`.
pub const MARKER_TRUE: u8 = 0xc3;

/// The marker of an unsigned integer held in one digit.
pub const MARKER_U8: u8 = 0xcc;

/// The marker of an unsigned integer held in two digits.
pub const MARKER_U16: u8 = 0xcd;

/// The marker of an unsigned integer held in four digits.
pub const MARKER_U32: u8 = 0xce;

/// The marker of an unsigned integer held in eight digits.
pub const MARKER_U64: u8 = 0xcf;

/// The marker of a signed integer held in one digit.
pub const MARKER_I8: u8 = 0xd0;

/// The marker of a signed integer held in two digits.
pub const MARKER_I16: u8 = 0xd1;

/// The marker of a signed integer held in four digits.
pub const MARKER_I32: u8 = 0xd2;

/// The marker of a signed integer held in eight digits.
pub const MARKER_I64: u8 = 0xd3;

/// 256 to the power of `width`: the number of values that `width` digits spell.
pub open spec fn span(width: nat) -> nat
    decreases width,
{
    if width == 0 {
        1
    } else {
        256 * span((width - 1) as nat)
    }
}

/// The number that `digits` spell in base 256, most significant digit first.
pub open spec fn be_value(digits: Seq<u8>) -> nat
    decreases digits.len(),
{
    if digits.len() == 0 {
        0
    } else {
        be_value(digits.drop_last()) * 256 + digits.last() as nat
    }
}

/// The `width` digits that spell `value` in base 256, most significant first.
pub open spec fn be_digits(value: nat, width: nat) -> Seq<u8>
    decreases width,
{
    if width == 0 {
        Seq::empty()
    } else {
        be_digits(value / 256, (width - 1) as nat).push((value % 256) as u8)
    }
}

/// The number of digits that follow `marker`, or `None` where the marker
/// opens no boolean and no integer.
pub open spec fn tail_len(marker: u8) -> Option<nat> {
    if marker < 0x80 || marker >= 0xe0 || marker == MARKER_FALSE || marker == MARKER_TRUE {
        Some(0)
    } else if marker == MARKER_U8 || marker == MARKER_I8 {
        Some(1)
    } else if marker == MARKER_U16 || marker == MARKER_I16 {
        Some(2)
    } else if marker == MARKER_U32 || marker == MARKER_I32 {
        Some(4)
    } else if marker == MARKER_U64 || marker == MARKER_I64 {
        Some(8)
    } else {
        None
    }
}

/// `bytes` is exactly one frame: a marker and the digits it announces.
pub open spec fn is_frame(bytes: Seq<u8>) -> bool {
    bytes.len() >= 1 && tail_len(bytes[0]) == Some((bytes.len() - 1) as nat)
}

/// `bytes` is the beginning of a frame, short of the whole: nothing yet, or a
/// marker that opens a frame, with fewer digits than it announces.
pub open spec fn is_partial(bytes: Seq<u8>) -> bool {
    bytes.len() >= 1 ==> match tail_len(bytes[0]) {
        Some(n) => bytes.len() < 1 + n,
        None => false,
    }
}

/// The frame of a boolean: its marker alone.
pub open spec fn bool_frame(value: bool) -> Seq<u8> {
    if value {
        seq![MARKER_TRUE]
    } else {
        seq![MARKER_FALSE]
    }
}

/// The frame of an unsigned integer: the shortest unsigned form that holds it.
pub open spec fn uint_frame(value: nat) -> Seq<u8> {
    if value < 0x80 {
        seq![value as u8]
    } else if value < 0x100 {
        seq![MARKER_U8] + be_digits(value, 1)
    } else if value < 0x1_0000 {
        seq![MARKER_U16] + be_digits(value, 2)
    } else if value < 0x1_0000_0000 {
        seq![MARKER_U32] + be_digits(value, 4)
    } else {
        seq![MARKER_U64] + be_digits(value, 8)
    }
}

/// The frame of a signed integer: that of the unsigned integer where it is not
/// negative, else the shortest signed form that holds it, in two's complement.
pub open spec fn int_frame(value: int) -> Seq<u8> {
    if value >= 0 {
        uint_frame(value as nat)
    } else if value >= -0x20 {
        seq![(value + 0x100) as u8]
    } else if value >= -0x80 {
        seq![MARKER_I8] + be_digits((value + 0x100) as nat, 1)
    } else if value >= -0x8000 {
        seq![MARKER_I16] + be_digits((value + 0x1_0000) as nat, 2)
    } else if value >= -0x8000_0000 {
        seq![MARKER_I32] + be_digits((value + 0x1_0000_0000) as nat, 4)
    } else {
        seq![MARKER_I64] + be_digits((value + 0x1_0000_0000_0000_0000) as nat, 8)
    }
}

/// The boolean that `bytes` begin with, if they begin with one.
pub open spec fn leading_bool(bytes: Seq<u8>) -> Option<bool> {
    if bytes.len() >= 1 && bytes[0] == MARKER_TRUE {
        Some(true)
    } else if bytes.len() >= 1 && bytes[0] == MARKER_FALSE {
        Some(false)
    } else {
        None
    }
}

/// The integer that `bytes` begin with, if they begin with one, in whichever
/// form it was written. Bytes behind it are not looked at.
pub open spec fn leading_number(bytes: Seq<u8>) -> Option<int> {
    if bytes.len() == 0 {
        None
    } else if bytes[0] < 0x80 {
        Some(bytes[0] as int)
    } else if bytes[0] >= 0xe0 {
        Some(bytes[0] - 0x100)
    } else if MARKER_U8 <= bytes[0] <= MARKER_I64 {
        let width = tail_len(bytes[0]).unwrap();
        if bytes.len() < 1 + width {
            None
        } else {
            let digits = be_value(bytes.subrange(1, 1 + width as int));
            if bytes[0] >= MARKER_I8 && 2 * digits >= span(width) {
                Some(digits - span(width))
            } else {
                Some(digits as int)
            }
        }
    } else {
        None
    }
}

/// The signed integer that `bytes` begin with: `leading_number`, where it fits
/// in 64 bits with a sign.
pub open spec fn leading_int(bytes: Seq<u8>) -> Option<i64> {
    match leading_number(bytes) {
        Some(n) if i64::MIN <= n <= i64::MAX => Some(n as i64),
        _ => None,
    }
}

/// The unsigned integer that `bytes` begin with: `leading_number`, where it is
/// not negative and fits in 64 bits.
pub open spec fn leading_uint(bytes: Seq<u8>) -> Option<u64> {
    match leading_number(bytes) {
        Some(n) if 0 <= n <= u64::MAX => Some(n as u64),
        _ => None,
    }
}

/// The number of digits that follow `marker`.
pub fn frame_tail(marker: u8) -> (tail: Option<usize>)
    ensures
        match tail {
            Some(n) => tail_len(marker) == Some(n as nat),
            None => tail_len(marker) is None,
        },
{
    if marker < 0x80 || marker >= 0xe0 || marker == MARKER_FALSE || marker == MARKER_TRUE {
        Some(0)
    } else if marker == MARKER_U8 || marker == MARKER_I8 {
        Some(1)
    } else if marker == MARKER_U16 || marker == MARKER_I16 {
        Some(2)
    } else if marker == MARKER_U32 || marker == MARKER_I32 {
        Some(4)
    } else if marker == MARKER_U64 || marker == MARKER_I64 {
        Some(8)
    } else {
        None
    }
}

/// The first four powers of 256 that frames use.
pub proof fn lemma_span_values()
    ensures
        span(1) == 0x100,
        span(2) == 0x1_0000,
        span(4) == 0x1_0000_0000,
        span(8) == 0x1_0000_0000_0000_0000,
{
    reveal_with_fuel(span, 9);
}

/// Digits have the width asked for, and spell the value they were made from
/// where that value fits in the width.
pub proof fn lemma_digits_round_trip(value: nat, width: nat)
    ensures
        be_digits(value, width).len() == width,
        value < span(width) ==> be_value(be_digits(value, width)) == value,
    decreases width,
{
    if width > 0 {
        let rest = be_digits(value / 256, (width - 1) as nat);
        lemma_digits_round_trip(value / 256, (width - 1) as nat);
        assert(be_digits(value, width).drop_last() =~= rest);
    }
}

/// What a boolean's frame carries is that boolean.
pub proof fn lemma_bool_round_trip(value: bool)
    ensures
        is_frame(bool_frame(value)),
        leading_bool(bool_frame(value)) == Some(value),
{
}

/// The number that follows a marker in a frame made of that marker and the
/// digits of `value`.
proof fn lemma_marked_digits(marker: u8, value: nat, width: nat)
    requires
        tail_len(marker) == Some(width),
        value < span(width),
    ensures
        is_frame(seq![marker] + be_digits(value, width)),
        be_value((seq![marker] + be_digits(value, width)).subrange(1, 1 + width as int)) == value,
{
    lemma_digits_round_trip(value, width);
    let frame = seq![marker] + be_digits(value, width);
    assert(frame.subrange(1, 1 + width as int) =~= be_digits(value, width));
}

/// What an unsigned integer's frame carries is that integer.
pub proof fn lemma_uint_round_trip(value: u64)
    ensures
        is_frame(uint_frame(value as nat)),
        leading_uint(uint_frame(value as nat)) == Some(value),
{
    lemma_span_values();
    let v = value as nat;
    if v < 0x80 {
    } else if v < 0x100 {
        lemma_marked_digits(MARKER_U8, v, 1);
    } else if v < 0x1_0000 {
        lemma_marked_digits(MARKER_U16, v, 2);
    } else if v < 0x1_0000_0000 {
        lemma_marked_digits(MARKER_U32, v, 4);
    } else {
        lemma_marked_digits(MARKER_U64, v, 8);
    }
}

/// What a signed integer's frame carries is that integer.
pub proof fn lemma_int_round_trip(value: i64)
    ensures
        is_frame(int_frame(value as int)),
        leading_int(int_frame(value as int)) == Some(value),
{
    lemma_span_values();
    let v = value as int;
    if v >= 0 {
        lemma_uint_round_trip(value as u64);
    } else if v >= -0x20 {
    } else if v >= -0x80 {
        lemma_marked_digits(MARKER_I8, (v + 0x100) as nat, 1);
    } else if v >= -0x8000 {
        lemma_marked_digits(MARKER_I16, (v + 0x1_0000) as nat, 2);
    } else if v >= -0x8000_0000 {
        lemma_marked_digits(MARKER_I32, (v + 0x1_0000_0000) as nat, 4);
    } else {
        lemma_marked_digits(MARKER_I64, (v + 0x1_0000_0000_0000_0000) as nat, 8);
    }
}

} // verus!
