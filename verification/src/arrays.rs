//! Arrays of a fixed size: the elements one after the other, with no length
//! prefix, since the length belongs to the type.

use crate::codec::{Codec, DecodeError};
use crate::sequences::{
    all_representable, elements_decoding, elements_encoding, lemma_elements_round_trip, models,
    put_elements, take_elements,
};
use vstd::array::{array_as_slice, array_fill_for_copy_types};
use vstd::prelude::*;

verus! {

/// Decodes `N` values that follow one another from `pos` on into an array.
/// `filler` is what the array holds before the values are put in.
pub fn take_array<T: Codec + Copy, const N: usize>(input: &[u8], pos: usize, filler: T) -> (r:
    Result<([T; N], usize), DecodeError>)
    requires
        pos <= input@.len(),
    ensures
        match elements_decoding::<T>(input@.skip(pos as int), N as nat) {
            Ok((ms, n)) => r matches Ok((a, next)) && models(a@) == ms && next == pos + n && next
                <= input@.len() && all_representable::<T>(ms) && ms.len() == N,
            Err(e) => r matches Err(x) && x == e,
        },
{
    match take_elements::<T>(input, pos, N as u64) {
        Err(e) => Err(e),
        Ok((items, next)) => {
            let mut array: [T; N] = array_fill_for_copy_types(filler);
            let mut i: usize = 0;
            while i < N
                invariant
                    i <= N,
                    items@.len() == N,
                    array@.len() == N,
                    forall|j: int| 0 <= j < i ==> array@[j] == items@[j],
                decreases N - i,
            {
                array[i] = items[i];
                i = i + 1;
            }
            assert(array@ =~= items@);
            Ok((array, next))
        },
    }
}

impl<const N: usize> Codec for [u8; N] {
    type Model = Seq<u8>;

    open spec fn model(&self) -> Seq<u8> {
        models(self@)
    }

    open spec fn representable(m: Seq<u8>) -> bool {
        m.len() == N
    }

    open spec fn encoding(m: Seq<u8>) -> Seq<u8> {
        elements_encoding::<u8>(m)
    }

    open spec fn decoding(bytes: Seq<u8>) -> Result<(Seq<u8>, nat), DecodeError> {
        elements_decoding::<u8>(bytes, N as nat)
    }

    proof fn lemma_round_trip(m: Seq<u8>, rest: Seq<u8>) {
        lemma_elements_round_trip::<u8>(m, rest);
    }

    proof fn lemma_decoding_canonical(bytes: Seq<u8>) {
        crate::sequences::lemma_elements_decoding_canonical::<u8>(bytes, N as nat);
    }

    fn encode_to(&self, out: &mut Vec<u8>) {
        put_elements(array_as_slice(self), out);
    }

    fn decode_from(input: &[u8], pos: usize) -> (r: Result<([u8; N], usize), DecodeError>) {
        take_array(input, pos, 0u8)
    }
}

impl<const N: usize> Codec for [u32; N] {
    type Model = Seq<u32>;

    open spec fn model(&self) -> Seq<u32> {
        models(self@)
    }

    open spec fn representable(m: Seq<u32>) -> bool {
        m.len() == N
    }

    open spec fn encoding(m: Seq<u32>) -> Seq<u8> {
        elements_encoding::<u32>(m)
    }

    open spec fn decoding(bytes: Seq<u8>) -> Result<(Seq<u32>, nat), DecodeError> {
        elements_decoding::<u32>(bytes, N as nat)
    }

    proof fn lemma_round_trip(m: Seq<u32>, rest: Seq<u8>) {
        lemma_elements_round_trip::<u32>(m, rest);
    }

    proof fn lemma_decoding_canonical(bytes: Seq<u8>) {
        crate::sequences::lemma_elements_decoding_canonical::<u32>(bytes, N as nat);
    }

    fn encode_to(&self, out: &mut Vec<u8>) {
        put_elements(array_as_slice(self), out);
    }

    fn decode_from(input: &[u8], pos: usize) -> (r: Result<([u32; N], usize), DecodeError>) {
        take_array(input, pos, 0u32)
    }
}

} // verus!
