//! Enumerated values: one tag byte that names the variant, then the fields
//! of that variant in declaration order.

use crate::codec::{Codec, DecodeError};
use vstd::prelude::*;

verus! {

/// The one way in which a message of the root record fails.
#[derive(Debug, Clone, Copy, PartialEq, Eq, Structural)]
pub enum Error {
    ThisIsAnErrorEnum,
}

/// Three variants without fields.
#[derive(Debug, Clone, Copy, PartialEq, Eq, Structural)]
pub enum EnumWithoutValues {
    A,
    B,
    C,
}

/// Three variants with one, two and three fields.
#[derive(Debug, Clone, Copy, PartialEq, Eq, Structural)]
pub enum EnumWithValues {
    OneValue(u32),
    TwoValues(u32, u32),
    ThreeValues(u32, u32, u32),
}

impl Default for EnumWithoutValues {
    fn default() -> (r: EnumWithoutValues)
        ensures
            r == EnumWithoutValues::A,
    {
        EnumWithoutValues::A
    }
}

/// The tag byte at the head of `bytes`.
pub open spec fn tag_decoding(bytes: Seq<u8>) -> Result<u8, DecodeError> {
    if bytes.len() == 0 {
        Err(DecodeError::UnexpectedEof)
    } else {
        Ok(bytes[0])
    }
}

/// Reads the tag byte at `pos`, and returns it with the position behind it.
pub fn take_tag(input: &[u8], pos: usize) -> (r: Result<(u8, usize), DecodeError>)
    requires
        pos <= input@.len(),
    ensures
        match tag_decoding(input@.skip(pos as int)) {
            Ok(tag) => r matches Ok((t, next)) && t == tag && next == pos + 1 && next
                <= input@.len(),
            Err(e) => r matches Err(x) && x == e,
        },
{
    if pos >= input.len() {
        Err(DecodeError::UnexpectedEof)
    } else {
        Ok((input[pos], pos + 1))
    }
}

impl Codec for Error {
    type Model = Error;

    open spec fn model(&self) -> Error {
        *self
    }

    open spec fn representable(m: Error) -> bool {
        true
    }

    open spec fn encoding(m: Error) -> Seq<u8> {
        seq![0u8]
    }

    open spec fn decoding(bytes: Seq<u8>) -> Result<(Error, nat), DecodeError> {
        match tag_decoding(bytes) {
            Err(e) => Err(e),
            Ok(tag) => if tag == 0 {
                Ok((Error::ThisIsAnErrorEnum, 1))
            } else {
                Err(DecodeError::InvalidDiscriminant)
            },
        }
    }

    proof fn lemma_round_trip(m: Error, rest: Seq<u8>) {
    }

    proof fn lemma_decoding_canonical(bytes: Seq<u8>) {
        if bytes.len() > 0 {
            assert(bytes.take(1) =~= seq![bytes[0]]);
        }
    }

    fn encode_to(&self, out: &mut Vec<u8>) {
        out.push(0);
        assert(out@ =~= old(out)@ + Self::encoding(*self));
    }

    fn decode_from(input: &[u8], pos: usize) -> (r: Result<(Error, usize), DecodeError>) {
        match take_tag(input, pos) {
            Err(e) => Err(e),
            Ok((tag, next)) => if tag == 0 {
                Ok((Error::ThisIsAnErrorEnum, next))
            } else {
                Err(DecodeError::InvalidDiscriminant)
            },
        }
    }
}

impl Codec for EnumWithoutValues {
    type Model = EnumWithoutValues;

    open spec fn model(&self) -> EnumWithoutValues {
        *self
    }

    open spec fn representable(m: EnumWithoutValues) -> bool {
        true
    }

    open spec fn encoding(m: EnumWithoutValues) -> Seq<u8> {
        match m {
            EnumWithoutValues::A => seq![0u8],
            EnumWithoutValues::B => seq![1u8],
            EnumWithoutValues::C => seq![2u8],
        }
    }

    open spec fn decoding(bytes: Seq<u8>) -> Result<(EnumWithoutValues, nat), DecodeError> {
        match tag_decoding(bytes) {
            Err(e) => Err(e),
            Ok(tag) => if tag == 0 {
                Ok((EnumWithoutValues::A, 1))
            } else if tag == 1 {
                Ok((EnumWithoutValues::B, 1))
            } else if tag == 2 {
                Ok((EnumWithoutValues::C, 1))
            } else {
                Err(DecodeError::InvalidDiscriminant)
            },
        }
    }

    proof fn lemma_round_trip(m: EnumWithoutValues, rest: Seq<u8>) {
    }

    proof fn lemma_decoding_canonical(bytes: Seq<u8>) {
        if bytes.len() > 0 {
            assert(bytes.take(1) =~= seq![bytes[0]]);
        }
    }

    fn encode_to(&self, out: &mut Vec<u8>) {
        match self {
            EnumWithoutValues::A => out.push(0),
            EnumWithoutValues::B => out.push(1),
            EnumWithoutValues::C => out.push(2),
        }
        assert(out@ =~= old(out)@ + Self::encoding(*self));
    }

    fn decode_from(input: &[u8], pos: usize) -> (r: Result<
        (EnumWithoutValues, usize),
        DecodeError,
    >) {
        match take_tag(input, pos) {
            Err(e) => Err(e),
            Ok((tag, next)) => if tag == 0 {
                Ok((EnumWithoutValues::A, next))
            } else if tag == 1 {
                Ok((EnumWithoutValues::B, next))
            } else if tag == 2 {
                Ok((EnumWithoutValues::C, next))
            } else {
                Err(DecodeError::InvalidDiscriminant)
            },
        }
    }
}

impl Codec for EnumWithValues {
    type Model = EnumWithValues;

    open spec fn model(&self) -> EnumWithValues {
        *self
    }

    open spec fn representable(m: EnumWithValues) -> bool {
        true
    }

    open spec fn encoding(m: EnumWithValues) -> Seq<u8> {
        match m {
            EnumWithValues::OneValue(a) => seq![0u8] + u32::encoding(a),
            EnumWithValues::TwoValues(a, b) => seq![1u8] + <(u32, u32)>::encoding((a, b)),
            EnumWithValues::ThreeValues(a, b, c) => seq![2u8] + <(u32, (u32, u32))>::encoding(
                (a, (b, c)),
            ),
        }
    }

    open spec fn decoding(bytes: Seq<u8>) -> Result<(EnumWithValues, nat), DecodeError> {
        match tag_decoding(bytes) {
            Err(e) => Err(e),
            Ok(tag) => if tag == 0 {
                match u32::decoding(bytes.skip(1)) {
                    Err(e) => Err(e),
                    Ok((a, n)) => Ok((EnumWithValues::OneValue(a), 1 + n)),
                }
            } else if tag == 1 {
                match <(u32, u32)>::decoding(bytes.skip(1)) {
                    Err(e) => Err(e),
                    Ok((p, n)) => Ok((EnumWithValues::TwoValues(p.0, p.1), 1 + n)),
                }
            } else if tag == 2 {
                match <(u32, (u32, u32))>::decoding(bytes.skip(1)) {
                    Err(e) => Err(e),
                    Ok((p, n)) => Ok((EnumWithValues::ThreeValues(p.0, p.1.0, p.1.1), 1 + n)),
                }
            } else {
                Err(DecodeError::InvalidDiscriminant)
            },
        }
    }

    proof fn lemma_round_trip(m: EnumWithValues, rest: Seq<u8>) {
        let whole = Self::encoding(m) + rest;
        match m {
            EnumWithValues::OneValue(a) => {
                u32::lemma_round_trip(a, rest);
                assert(whole.skip(1) =~= u32::encoding(a) + rest);
            },
            EnumWithValues::TwoValues(a, b) => {
                <(u32, u32)>::lemma_round_trip((a, b), rest);
                assert(whole.skip(1) =~= <(u32, u32)>::encoding((a, b)) + rest);
            },
            EnumWithValues::ThreeValues(a, b, c) => {
                <(u32, (u32, u32))>::lemma_round_trip((a, (b, c)), rest);
                assert(whole.skip(1) =~= <(u32, (u32, u32))>::encoding((a, (b, c))) + rest);
            },
        }
    }

    proof fn lemma_decoding_canonical(bytes: Seq<u8>) {
        if bytes.len() > 0 {
            let tail = bytes.skip(1);
            let tag = bytes[0];
            if tag == 0 {
                u32::lemma_decoding_canonical(tail);
                if let Ok((a, n)) = u32::decoding(tail) {
                    assert(bytes.take(1 + n as int) =~= seq![tag] + tail.take(n as int));
                }
            } else if tag == 1 {
                <(u32, u32)>::lemma_decoding_canonical(tail);
                if let Ok((p, n)) = <(u32, u32)>::decoding(tail) {
                    assert(bytes.take(1 + n as int) =~= seq![tag] + tail.take(n as int));
                }
            } else if tag == 2 {
                <(u32, (u32, u32))>::lemma_decoding_canonical(tail);
                if let Ok((p, n)) = <(u32, (u32, u32))>::decoding(tail) {
                    assert(bytes.take(1 + n as int) =~= seq![tag] + tail.take(n as int));
                }
            }
        }
    }

    fn encode_to(&self, out: &mut Vec<u8>) {
        let ghost before = out@;
        match self {
            EnumWithValues::OneValue(a) => {
                out.push(0);
                a.encode_to(out);
            },
            EnumWithValues::TwoValues(a, b) => {
                out.push(1);
                a.encode_to(out);
                b.encode_to(out);
            },
            EnumWithValues::ThreeValues(a, b, c) => {
                out.push(2);
                a.encode_to(out);
                b.encode_to(out);
                c.encode_to(out);
            },
        }
        assert(out@ =~= before + Self::encoding(*self));
    }

    fn decode_from(input: &[u8], pos: usize) -> (r: Result<(EnumWithValues, usize), DecodeError>) {
        match take_tag(input, pos) {
            Err(e) => Err(e),
            Ok((tag, at)) => {
                assert(input@.skip(pos as int).skip(1) =~= input@.skip(at as int));
                if tag == 0 {
                    match u32::decode_from(input, at) {
                        Err(e) => Err(e),
                        Ok((a, next)) => Ok((EnumWithValues::OneValue(a), next)),
                    }
                } else if tag == 1 {
                    match <(u32, u32)>::decode_from(input, at) {
                        Err(e) => Err(e),
                        Ok(((a, b), next)) => Ok((EnumWithValues::TwoValues(a, b), next)),
                    }
                } else if tag == 2 {
                    match <(u32, (u32, u32))>::decode_from(input, at) {
                        Err(e) => Err(e),
                        Ok(((a, (b, c)), next)) => Ok((EnumWithValues::ThreeValues(a, b, c), next)),
                    }
                } else {
                    Err(DecodeError::InvalidDiscriminant)
                }
            },
        }
    }
}

} // verus!
