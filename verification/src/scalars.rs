//! Booleans and fixed-width integers.

use crate::bytes::{
    from_twos_complement, le_bytes, le_value, lemma_le_value_bound, lemma_le_value_of_le_bytes,
    lemma_pow256_values, pow256, put_le, take_le, twos_complement,
};
use crate::codec::{Codec, DecodeError};
use vstd::prelude::*;

verus! {

/// The unsigned number that the first `width` bytes spell.
pub open spec fn uint_decoding(bytes: Seq<u8>, width: nat) -> Result<(nat, nat), DecodeError> {
    if bytes.len() < width {
        Err(DecodeError::UnexpectedEof)
    } else {
        Ok((le_value(bytes.take(width as int)), width))
    }
}

/// The signed number that the first `width` bytes spell in two's complement.
pub open spec fn sint_decoding(bytes: Seq<u8>, width: nat) -> Result<(int, nat), DecodeError> {
    if bytes.len() < width {
        Err(DecodeError::UnexpectedEof)
    } else {
        Ok((from_twos_complement(le_value(bytes.take(width as int)), width), width))
    }
}

/// The bytes of an unsigned number that fits in `width` bytes decode to it.
pub proof fn lemma_uint_round_trip(n: nat, width: nat, rest: Seq<u8>)
    requires
        n < pow256(width),
    ensures
        uint_decoding(le_bytes(n, width) + rest, width) == Ok::<(nat, nat), DecodeError>(
            (n, width),
        ),
        le_bytes(n, width).len() == width,
{
    lemma_le_value_of_le_bytes(n, width);
    assert((le_bytes(n, width) + rest).take(width as int) =~= le_bytes(n, width));
}

/// The bytes of a signed number in the range of `width` bytes decode to it.
pub proof fn lemma_sint_round_trip(v: int, width: nat, rest: Seq<u8>)
    requires
        -(pow256(width) as int) <= 2 * v < pow256(width),
    ensures
        sint_decoding(le_bytes(twos_complement(v, width), width) + rest, width) == Ok::<
            (int, nat),
            DecodeError,
        >((v, width)),
        le_bytes(twos_complement(v, width), width).len() == width,
{
    lemma_uint_round_trip(twos_complement(v, width), width, rest);
}

/// What decodes as an unsigned number of `width` bytes fits in them, and its
/// bytes are the ones that were read.
pub proof fn lemma_uint_decoding_canonical(bytes: Seq<u8>, width: nat)
    ensures
        uint_decoding(bytes, width) matches Ok((n, w)) ==> w == width && width <= bytes.len() && n
            < pow256(width) && le_bytes(n, width) == bytes.take(width as int),
{
    if bytes.len() >= width {
        lemma_le_value_bound(bytes.take(width as int));
        crate::bytes::lemma_le_bytes_of_le_value(bytes.take(width as int));
    }
}

/// What decodes as a signed number of `width` bytes lies in their range, and
/// its bytes are the ones that were read.
pub proof fn lemma_sint_decoding_canonical(bytes: Seq<u8>, width: nat)
    ensures
        sint_decoding(bytes, width) matches Ok((v, w)) ==> w == width && width <= bytes.len() && -(
        pow256(width) as int) <= 2 * v < pow256(width) && le_bytes(
            twos_complement(v, width),
            width,
        ) == bytes.take(width as int),
{
    if bytes.len() >= width {
        lemma_uint_decoding_canonical(bytes, width);
        crate::bytes::lemma_from_twos_complement_range(
            le_value(bytes.take(width as int)),
            width,
        );
    }
}

/// Reads an unsigned number of `width` bytes at `pos`.
pub fn take_uint(input: &[u8], pos: usize, width: usize) -> (r: Result<(u128, usize), DecodeError>)
    requires
        pos <= input@.len(),
        0 < width <= 16,
    ensures
        match uint_decoding(input@.skip(pos as int), width as nat) {
            Ok((n, w)) => r matches Ok((v, next)) && v as nat == n && next == pos + w && next
                <= input@.len() && n < pow256(width as nat),
            Err(e) => r matches Err(x) && x == e,
        },
{
    if input.len() - pos < width {
        Err(DecodeError::UnexpectedEof)
    } else {
        let v: u128 = take_le(input, pos, width);
        proof {
            let rest = input@.skip(pos as int);
            assert(rest.take(width as int) =~= input@.subrange(pos as int, pos + width));
            lemma_le_value_bound(rest.take(width as int));
        }
        Ok((v, pos + width))
    }
}

/// Reads a signed number of `width` bytes at `pos`.
pub fn take_sint(input: &[u8], pos: usize, width: usize) -> (r: Result<(i128, usize), DecodeError>)
    requires
        pos <= input@.len(),
        0 < width <= 16,
    ensures
        match sint_decoding(input@.skip(pos as int), width as nat) {
            Ok((n, w)) => r matches Ok((v, next)) && v as int == n && next == pos + w && next
                <= input@.len() && -(pow256(width as nat) as int) <= 2 * n < pow256(width as nat),
            Err(e) => r matches Err(x) && x == e,
        },
{
    match take_uint(input, pos, width) {
        Err(e) => Err(e),
        Ok((u, next)) => {
            proof {
                lemma_pow256_values();
                crate::bytes::lemma_pow256_monotonic(width as nat, 16);
            }
            let half: u128 = 0x8000_0000_0000_0000_0000_0000_0000_0000;
            let v: i128 = if width == 16 {
                if u < half {
                    u as i128
                } else {
                    (u - half) as i128 + i128::MIN
                }
            } else {
                let modulus: u128 = power_of_256(width);
                if u < modulus / 2 {
                    u as i128
                } else {
                    u as i128 - modulus as i128
                }
            };
            Ok((v, next))
        },
    }
}

/// 256 to the power `width`, for a width that leaves the result in range.
pub fn power_of_256(width: usize) -> (r: u128)
    requires
        width < 16,
    ensures
        r as nat == pow256(width as nat),
        r <= 0x100_0000_0000_0000_0000_0000_0000_0000,
{
    let mut r: u128 = 1;
    let mut i: usize = 0;
    while i < width
        invariant
            i <= width < 16,
            r as nat == pow256(i as nat),
        decreases width - i,
    {
        proof {
            crate::bytes::lemma_pow256_monotonic(i as nat, 14);
            crate::bytes::lemma_pow256_monotonic((i + 1) as nat, 15);
            lemma_pow256_values();
            reveal_with_fuel(pow256, 2);
            assert(pow256(16) == 256 * pow256(15));
            assert(pow256(15) == 256 * pow256(14));
        }
        r = r * 256;
        i = i + 1;
    }
    proof {
        crate::bytes::lemma_pow256_monotonic(width as nat, 15);
        lemma_pow256_values();
        reveal_with_fuel(pow256, 2);
        assert(pow256(16) == 256 * pow256(15));
    }
    r
}

/// Appends the two's complement of `v` on `width` bytes.
pub fn put_sint(out: &mut Vec<u8>, v: i128, width: usize)
    requires
        0 < width <= 16,
        -(pow256(width as nat) as int) <= 2 * v < pow256(width as nat),
    ensures
        final(out)@ == old(out)@ + le_bytes(twos_complement(v as int, width as nat), width as nat),
{
    proof {
        lemma_pow256_values();
        crate::bytes::lemma_pow256_monotonic(width as nat, 16);
    }
    let u: u128 = if v >= 0 {
        v as u128
    } else if width == 16 {
        let half: u128 = 0x8000_0000_0000_0000_0000_0000_0000_0000;
        (v - i128::MIN) as u128 + half
    } else {
        let modulus: u128 = power_of_256(width);
        (v + modulus as i128) as u128
    };
    put_le(out, u, width);
}

impl Codec for bool {
    type Model = bool;

    open spec fn model(&self) -> bool {
        *self
    }

    open spec fn representable(m: bool) -> bool {
        true
    }

    open spec fn encoding(m: bool) -> Seq<u8> {
        if m {
            seq![1u8]
        } else {
            seq![0u8]
        }
    }

    open spec fn decoding(bytes: Seq<u8>) -> Result<(bool, nat), DecodeError> {
        if bytes.len() == 0 {
            Err(DecodeError::UnexpectedEof)
        } else if bytes[0] == 0 {
            Ok((false, 1))
        } else if bytes[0] == 1 {
            Ok((true, 1))
        } else {
            Err(DecodeError::InvalidBooleanByte)
        }
    }

    proof fn lemma_round_trip(m: bool, rest: Seq<u8>) {
    }

    proof fn lemma_decoding_canonical(bytes: Seq<u8>) {
        if bytes.len() > 0 {
            assert(bytes.take(1) =~= seq![bytes[0]]);
        }
    }

    fn encode_to(&self, out: &mut Vec<u8>) {
        if *self {
            out.push(1);
        } else {
            out.push(0);
        }
        assert(out@ =~= old(out)@ + Self::encoding(*self));
    }

    fn decode_from(input: &[u8], pos: usize) -> (r: Result<(bool, usize), DecodeError>) {
        if pos >= input.len() {
            return Err(DecodeError::UnexpectedEof);
        }
        let b: u8 = input[pos];
        if b == 0 {
            Ok((false, pos + 1))
        } else if b == 1 {
            Ok((true, pos + 1))
        } else {
            Err(DecodeError::InvalidBooleanByte)
        }
    }
}

impl Codec for u8 {
    type Model = u8;

    open spec fn model(&self) -> u8 {
        *self
    }

    open spec fn representable(m: u8) -> bool {
        true
    }

    open spec fn encoding(m: u8) -> Seq<u8> {
        le_bytes(m as nat, 1)
    }

    open spec fn decoding(bytes: Seq<u8>) -> Result<(u8, nat), DecodeError> {
        match uint_decoding(bytes, 1) {
            Ok((n, w)) => Ok((n as u8, w)),
            Err(e) => Err(e),
        }
    }

    proof fn lemma_round_trip(m: u8, rest: Seq<u8>) {
        lemma_pow256_values();
        lemma_uint_round_trip(m as nat, 1, rest);
    }

    proof fn lemma_decoding_canonical(bytes: Seq<u8>) {
        lemma_pow256_values();
        lemma_uint_decoding_canonical(bytes, 1);
    }

    fn encode_to(&self, out: &mut Vec<u8>) {
        put_le(out, *self as u128, 1);
    }

    fn decode_from(input: &[u8], pos: usize) -> (r: Result<(u8, usize), DecodeError>) {
        proof {
            lemma_pow256_values();
        }
        match take_uint(input, pos, 1) {
            Ok((v, next)) => Ok((v as u8, next)),
            Err(e) => Err(e),
        }
    }
}

impl Codec for u16 {
    type Model = u16;

    open spec fn model(&self) -> u16 {
        *self
    }

    open spec fn representable(m: u16) -> bool {
        true
    }

    open spec fn encoding(m: u16) -> Seq<u8> {
        le_bytes(m as nat, 2)
    }

    open spec fn decoding(bytes: Seq<u8>) -> Result<(u16, nat), DecodeError> {
        match uint_decoding(bytes, 2) {
            Ok((n, w)) => Ok((n as u16, w)),
            Err(e) => Err(e),
        }
    }

    proof fn lemma_round_trip(m: u16, rest: Seq<u8>) {
        lemma_pow256_values();
        lemma_uint_round_trip(m as nat, 2, rest);
    }

    proof fn lemma_decoding_canonical(bytes: Seq<u8>) {
        lemma_pow256_values();
        lemma_uint_decoding_canonical(bytes, 2);
    }

    fn encode_to(&self, out: &mut Vec<u8>) {
        put_le(out, *self as u128, 2);
    }

    fn decode_from(input: &[u8], pos: usize) -> (r: Result<(u16, usize), DecodeError>) {
        proof {
            lemma_pow256_values();
        }
        match take_uint(input, pos, 2) {
            Ok((v, next)) => Ok((v as u16, next)),
            Err(e) => Err(e),
        }
    }
}

impl Codec for u32 {
    type Model = u32;

    open spec fn model(&self) -> u32 {
        *self
    }

    open spec fn representable(m: u32) -> bool {
        true
    }

    open spec fn encoding(m: u32) -> Seq<u8> {
        le_bytes(m as nat, 4)
    }

    open spec fn decoding(bytes: Seq<u8>) -> Result<(u32, nat), DecodeError> {
        match uint_decoding(bytes, 4) {
            Ok((n, w)) => Ok((n as u32, w)),
            Err(e) => Err(e),
        }
    }

    proof fn lemma_round_trip(m: u32, rest: Seq<u8>) {
        lemma_pow256_values();
        lemma_uint_round_trip(m as nat, 4, rest);
    }

    proof fn lemma_decoding_canonical(bytes: Seq<u8>) {
        lemma_pow256_values();
        lemma_uint_decoding_canonical(bytes, 4);
    }

    fn encode_to(&self, out: &mut Vec<u8>) {
        put_le(out, *self as u128, 4);
    }

    fn decode_from(input: &[u8], pos: usize) -> (r: Result<(u32, usize), DecodeError>) {
        proof {
            lemma_pow256_values();
        }
        match take_uint(input, pos, 4) {
            Ok((v, next)) => Ok((v as u32, next)),
            Err(e) => Err(e),
        }
    }
}

impl Codec for u64 {
    type Model = u64;

    open spec fn model(&self) -> u64 {
        *self
    }

    open spec fn representable(m: u64) -> bool {
        true
    }

    open spec fn encoding(m: u64) -> Seq<u8> {
        le_bytes(m as nat, 8)
    }

    open spec fn decoding(bytes: Seq<u8>) -> Result<(u64, nat), DecodeError> {
        match uint_decoding(bytes, 8) {
            Ok((n, w)) => Ok((n as u64, w)),
            Err(e) => Err(e),
        }
    }

    proof fn lemma_round_trip(m: u64, rest: Seq<u8>) {
        lemma_pow256_values();
        lemma_uint_round_trip(m as nat, 8, rest);
    }

    proof fn lemma_decoding_canonical(bytes: Seq<u8>) {
        lemma_pow256_values();
        lemma_uint_decoding_canonical(bytes, 8);
    }

    fn encode_to(&self, out: &mut Vec<u8>) {
        put_le(out, *self as u128, 8);
    }

    fn decode_from(input: &[u8], pos: usize) -> (r: Result<(u64, usize), DecodeError>) {
        proof {
            lemma_pow256_values();
        }
        match take_uint(input, pos, 8) {
            Ok((v, next)) => Ok((v as u64, next)),
            Err(e) => Err(e),
        }
    }
}

impl Codec for u128 {
    type Model = u128;

    open spec fn model(&self) -> u128 {
        *self
    }

    open spec fn representable(m: u128) -> bool {
        true
    }

    open spec fn encoding(m: u128) -> Seq<u8> {
        le_bytes(m as nat, 16)
    }

    open spec fn decoding(bytes: Seq<u8>) -> Result<(u128, nat), DecodeError> {
        match uint_decoding(bytes, 16) {
            Ok((n, w)) => Ok((n as u128, w)),
            Err(e) => Err(e),
        }
    }

    proof fn lemma_round_trip(m: u128, rest: Seq<u8>) {
        lemma_pow256_values();
        lemma_uint_round_trip(m as nat, 16, rest);
    }

    proof fn lemma_decoding_canonical(bytes: Seq<u8>) {
        lemma_pow256_values();
        lemma_uint_decoding_canonical(bytes, 16);
    }

    fn encode_to(&self, out: &mut Vec<u8>) {
        put_le(out, *self as u128, 16);
    }

    fn decode_from(input: &[u8], pos: usize) -> (r: Result<(u128, usize), DecodeError>) {
        proof {
            lemma_pow256_values();
        }
        match take_uint(input, pos, 16) {
            Ok((v, next)) => Ok((v as u128, next)),
            Err(e) => Err(e),
        }
    }
}

impl Codec for i8 {
    type Model = i8;

    open spec fn model(&self) -> i8 {
        *self
    }

    open spec fn representable(m: i8) -> bool {
        true
    }

    open spec fn encoding(m: i8) -> Seq<u8> {
        le_bytes(twos_complement(m as int, 1), 1)
    }

    open spec fn decoding(bytes: Seq<u8>) -> Result<(i8, nat), DecodeError> {
        match sint_decoding(bytes, 1) {
            Ok((n, w)) => Ok((n as i8, w)),
            Err(e) => Err(e),
        }
    }

    proof fn lemma_round_trip(m: i8, rest: Seq<u8>) {
        lemma_pow256_values();
        lemma_sint_round_trip(m as int, 1, rest);
    }

    proof fn lemma_decoding_canonical(bytes: Seq<u8>) {
        lemma_pow256_values();
        lemma_sint_decoding_canonical(bytes, 1);
    }

    fn encode_to(&self, out: &mut Vec<u8>) {
        proof {
            lemma_pow256_values();
        }
        put_sint(out, *self as i128, 1);
    }

    fn decode_from(input: &[u8], pos: usize) -> (r: Result<(i8, usize), DecodeError>) {
        proof {
            lemma_pow256_values();
        }
        match take_sint(input, pos, 1) {
            Ok((v, next)) => Ok((v as i8, next)),
            Err(e) => Err(e),
        }
    }
}

impl Codec for i16 {
    type Model = i16;

    open spec fn model(&self) -> i16 {
        *self
    }

    open spec fn representable(m: i16) -> bool {
        true
    }

    open spec fn encoding(m: i16) -> Seq<u8> {
        le_bytes(twos_complement(m as int, 2), 2)
    }

    open spec fn decoding(bytes: Seq<u8>) -> Result<(i16, nat), DecodeError> {
        match sint_decoding(bytes, 2) {
            Ok((n, w)) => Ok((n as i16, w)),
            Err(e) => Err(e),
        }
    }

    proof fn lemma_round_trip(m: i16, rest: Seq<u8>) {
        lemma_pow256_values();
        lemma_sint_round_trip(m as int, 2, rest);
    }

    proof fn lemma_decoding_canonical(bytes: Seq<u8>) {
        lemma_pow256_values();
        lemma_sint_decoding_canonical(bytes, 2);
    }

    fn encode_to(&self, out: &mut Vec<u8>) {
        proof {
            lemma_pow256_values();
        }
        put_sint(out, *self as i128, 2);
    }

    fn decode_from(input: &[u8], pos: usize) -> (r: Result<(i16, usize), DecodeError>) {
        proof {
            lemma_pow256_values();
        }
        match take_sint(input, pos, 2) {
            Ok((v, next)) => Ok((v as i16, next)),
            Err(e) => Err(e),
        }
    }
}

impl Codec for i32 {
    type Model = i32;

    open spec fn model(&self) -> i32 {
        *self
    }

    open spec fn representable(m: i32) -> bool {
        true
    }

    open spec fn encoding(m: i32) -> Seq<u8> {
        le_bytes(twos_complement(m as int, 4), 4)
    }

    open spec fn decoding(bytes: Seq<u8>) -> Result<(i32, nat), DecodeError> {
        match sint_decoding(bytes, 4) {
            Ok((n, w)) => Ok((n as i32, w)),
            Err(e) => Err(e),
        }
    }

    proof fn lemma_round_trip(m: i32, rest: Seq<u8>) {
        lemma_pow256_values();
        lemma_sint_round_trip(m as int, 4, rest);
    }

    proof fn lemma_decoding_canonical(bytes: Seq<u8>) {
        lemma_pow256_values();
        lemma_sint_decoding_canonical(bytes, 4);
    }

    fn encode_to(&self, out: &mut Vec<u8>) {
        proof {
            lemma_pow256_values();
        }
        put_sint(out, *self as i128, 4);
    }

    fn decode_from(input: &[u8], pos: usize) -> (r: Result<(i32, usize), DecodeError>) {
        proof {
            lemma_pow256_values();
        }
        match take_sint(input, pos, 4) {
            Ok((v, next)) => Ok((v as i32, next)),
            Err(e) => Err(e),
        }
    }
}

impl Codec for i64 {
    type Model = i64;

    open spec fn model(&self) -> i64 {
        *self
    }

    open spec fn representable(m: i64) -> bool {
        true
    }

    open spec fn encoding(m: i64) -> Seq<u8> {
        le_bytes(twos_complement(m as int, 8), 8)
    }

    open spec fn decoding(bytes: Seq<u8>) -> Result<(i64, nat), DecodeError> {
        match sint_decoding(bytes, 8) {
            Ok((n, w)) => Ok((n as i64, w)),
            Err(e) => Err(e),
        }
    }

    proof fn lemma_round_trip(m: i64, rest: Seq<u8>) {
        lemma_pow256_values();
        lemma_sint_round_trip(m as int, 8, rest);
    }

    proof fn lemma_decoding_canonical(bytes: Seq<u8>) {
        lemma_pow256_values();
        lemma_sint_decoding_canonical(bytes, 8);
    }

    fn encode_to(&self, out: &mut Vec<u8>) {
        proof {
            lemma_pow256_values();
        }
        put_sint(out, *self as i128, 8);
    }

    fn decode_from(input: &[u8], pos: usize) -> (r: Result<(i64, usize), DecodeError>) {
        proof {
            lemma_pow256_values();
        }
        match take_sint(input, pos, 8) {
            Ok((v, next)) => Ok((v as i64, next)),
            Err(e) => Err(e),
        }
    }
}

impl Codec for i128 {
    type Model = i128;

    open spec fn model(&self) -> i128 {
        *self
    }

    open spec fn representable(m: i128) -> bool {
        true
    }

    open spec fn encoding(m: i128) -> Seq<u8> {
        le_bytes(twos_complement(m as int, 16), 16)
    }

    open spec fn decoding(bytes: Seq<u8>) -> Result<(i128, nat), DecodeError> {
        match sint_decoding(bytes, 16) {
            Ok((n, w)) => Ok((n as i128, w)),
            Err(e) => Err(e),
        }
    }

    proof fn lemma_round_trip(m: i128, rest: Seq<u8>) {
        lemma_pow256_values();
        lemma_sint_round_trip(m as int, 16, rest);
    }

    proof fn lemma_decoding_canonical(bytes: Seq<u8>) {
        lemma_pow256_values();
        lemma_sint_decoding_canonical(bytes, 16);
    }

    fn encode_to(&self, out: &mut Vec<u8>) {
        proof {
            lemma_pow256_values();
        }
        put_sint(out, *self as i128, 16);
    }

    fn decode_from(input: &[u8], pos: usize) -> (r: Result<(i128, usize), DecodeError>) {
        proof {
            lemma_pow256_values();
        }
        match take_sint(input, pos, 16) {
            Ok((v, next)) => Ok((v as i128, next)),
            Err(e) => Err(e),
        }
    }
}

} // verus!
