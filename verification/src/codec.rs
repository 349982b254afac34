//! The byte codec: what every storable type states of its encoding, and the
//! laws that follow for all of them.

use vstd::prelude::*;

verus! {

/// Why a byte string is not the encoding of a value of the expected type.
#[derive(Debug, Clone, Copy, PartialEq, Eq, Structural)]
pub enum DecodeError {
    /// Fewer bytes remain than the type requires.
    UnexpectedEof,
    /// The tag of an enumerated value names no variant.
    InvalidDiscriminant,
    /// A boolean byte is neither 0 nor 1.
    InvalidBooleanByte,
    /// A length prefix is not the shortest form of the length, or exceeds 64 bits.
    InvalidLengthPrefix,
    /// The bytes of a text are not UTF-8.
    InvalidUtf8,
}

/// A type with a canonical byte encoding.
///
/// The contract is stated over `Model`, the mathematical value that an
/// in-memory value stands for, so that two values with equal content have one
/// encoding whatever their addresses or capacities.
pub trait Codec: Sized {
    /// The mathematical value of an in-memory value.
    type Model;

    /// What this value stands for.
    spec fn model(&self) -> Self::Model;

    /// Whether `m` is within the limits of the encoding: every value that
    /// `encode_to` is given and every value that `decode_from` returns is.
    spec fn representable(m: Self::Model) -> bool;

    /// The encoding of `m`.
    spec fn encoding(m: Self::Model) -> Seq<u8>;

    /// The value that a prefix of `bytes` encodes, with the length of that
    /// prefix, or the reason why no prefix encodes a value.
    spec fn decoding(bytes: Seq<u8>) -> Result<(Self::Model, nat), DecodeError>;

    /// Decoding an encoding, whatever follows it, gives the value back and
    /// consumes exactly the encoding.
    proof fn lemma_round_trip(m: Self::Model, rest: Seq<u8>)
        requires
            Self::representable(m),
        ensures
            Self::decoding(Self::encoding(m) + rest) == Ok::<(Self::Model, nat), DecodeError>(
                (m, Self::encoding(m).len()),
            ),
    ;

    /// Only its encoding decodes to a value: where `bytes` decodes, the bytes
    /// consumed are the encoding of the value found.
    proof fn lemma_decoding_canonical(bytes: Seq<u8>)
        ensures
            Self::decoding(bytes) matches Ok((m, n)) ==> n <= bytes.len() && Self::representable(m)
                && Self::encoding(m) == bytes.take(n as int),
    ;

    /// Appends the encoding of `self` to `out`.
    fn encode_to(&self, out: &mut Vec<u8>)
        ensures
            final(out)@ == old(out)@ + Self::encoding(self.model()),
            Self::representable(self.model()),
    ;

    /// Decodes one value from the bytes of `input` that start at `pos`, and
    /// returns it with the position behind its encoding.
    fn decode_from(input: &[u8], pos: usize) -> (r: Result<(Self, usize), DecodeError>)
        requires
            pos <= input@.len(),
        ensures
            match Self::decoding(input@.skip(pos as int)) {
                Ok((m, n)) => r matches Ok((v, next)) && v.model() == m && next == pos + n && next
                    <= input@.len() && Self::representable(m),
                Err(e) => r matches Err(x) && x == e,
            },
    ;
}

/// The encoding of a value as a byte string of its own.
pub open spec fn encode_spec<T: Codec>(m: T::Model) -> Seq<u8> {
    T::encoding(m)
}

/// The value that `bytes` starts with; bytes behind it are ignored.
pub open spec fn decode_spec<T: Codec>(bytes: Seq<u8>) -> Result<T::Model, DecodeError> {
    match T::decoding(bytes) {
        Ok((m, _)) => Ok(m),
        Err(e) => Err(e),
    }
}

/// Encodes `value`. Never fails.
pub fn encode<T: Codec>(value: &T) -> (bytes: Vec<u8>)
    ensures
        bytes@ == encode_spec::<T>(value.model()),
        T::representable(value.model()),
{
    let mut out: Vec<u8> = Vec::new();
    value.encode_to(&mut out);
    assert(out@ =~= T::encoding(value.model()));
    out
}

/// Decodes the value that `bytes` starts with.
pub fn decode<T: Codec>(bytes: &[u8]) -> (r: Result<T, DecodeError>)
    ensures
        match decode_spec::<T>(bytes@) {
            Ok(m) => r matches Ok(v) && v.model() == m && T::representable(m),
            Err(e) => r matches Err(x) && x == e,
        },
{
    assert(bytes@.skip(0) =~= bytes@);
    match T::decode_from(bytes, 0) {
        Ok((v, _)) => Ok(v),
        Err(e) => Err(e),
    }
}

/// Round trip: decoding the encoding of a value gives the value.
pub proof fn lemma_decode_inverts_encode<T: Codec>(m: T::Model)
    requires
        T::representable(m),
    ensures
        decode_spec::<T>(encode_spec::<T>(m)) == Ok::<T::Model, DecodeError>(m),
{
    T::lemma_round_trip(m, Seq::empty());
    assert(T::encoding(m) + Seq::<u8>::empty() =~= T::encoding(m));
}

/// Every value has one encoding only: a byte string that decodes to a value
/// with nothing left over is the encoding of that value.
pub proof fn lemma_encode_inverts_decode<T: Codec>(bytes: Seq<u8>)
    ensures
        T::decoding(bytes) matches Ok((m, n)) ==> (n == bytes.len() ==> encode_spec::<T>(m)
            == bytes),
{
    T::lemma_decoding_canonical(bytes);
    assert(bytes.take(bytes.len() as int) =~= bytes);
}

/// Determinism: two values with the same content have the same encoding.
pub proof fn lemma_encoding_deterministic<T: Codec>(a: T, b: T)
    requires
        a.model() == b.model(),
    ensures
        encode_spec::<T>(a.model()) == encode_spec::<T>(b.model()),
{
}

/// No encoding is the beginning of the encoding of another value: where two
/// byte strings that start with encodings are equal, so are the values.
pub proof fn lemma_encoding_prefix_free<T: Codec>(
    a: T::Model,
    b: T::Model,
    after_a: Seq<u8>,
    after_b: Seq<u8>,
)
    requires
        T::representable(a),
        T::representable(b),
        T::encoding(a) + after_a == T::encoding(b) + after_b,
    ensures
        a == b,
        after_a == after_b,
{
    T::lemma_round_trip(a, after_a);
    T::lemma_round_trip(b, after_b);
    let whole = T::encoding(a) + after_a;
    assert(after_a =~= whole.skip(T::encoding(a).len() as int));
    assert(after_b =~= whole.skip(T::encoding(b).len() as int));
}

/// Injectivity: values with different content have different encodings.
pub proof fn lemma_encoding_injective<T: Codec>(a: T::Model, b: T::Model)
    requires
        T::representable(a),
        T::representable(b),
        a != b,
    ensures
        T::encoding(a) != T::encoding(b),
{
    if T::encoding(a) == T::encoding(b) {
        lemma_encoding_prefix_free::<T>(a, b, Seq::empty(), Seq::empty());
    }
}

} // verus!
