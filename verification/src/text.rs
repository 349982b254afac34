//! Text: a length prefix in bytes, then the UTF-8 bytes.

use crate::bytes::{lemma_pow256_values, pow256};
use crate::codec::{Codec, DecodeError};
use crate::compact::{
    length_prefix, length_prefix_decoding, lemma_length_prefix_round_trip, put_length_prefix,
    take_length_prefix,
};
use vstd::prelude::*;
use vstd::slice::{slice_subrange, slice_to_vec};
use vstd::utf8::{
    decode_utf8, encode_utf8, encode_utf8_decode_utf8, encode_utf8_valid_utf8, valid_utf8,
};

verus! {

/// `String::from_utf8` of std: the text whose UTF-8 form is `bytes`, or
/// nothing where `bytes` is not UTF-8.
#[verifier::external_body]
fn text_from_utf8(bytes: Vec<u8>) -> (r: Option<String>)
    ensures
        r is Some <==> valid_utf8(bytes@),
        r matches Some(s) ==> s@ == decode_utf8(bytes@),
{
    String::from_utf8(bytes).ok()
}

/// Appends every byte of `bytes` to `out`.
pub fn put_bytes(out: &mut Vec<u8>, bytes: &[u8])
    ensures
        final(out)@ == old(out)@ + bytes@,
{
    let mut i: usize = 0;
    assert(out@ =~= old(out)@ + bytes@.take(0));
    while i < bytes.len()
        invariant
            i <= bytes@.len(),
            out@ == old(out)@ + bytes@.take(i as int),
        decreases bytes@.len() - i,
    {
        out.push(bytes[i]);
        assert(out@ =~= old(out)@ + bytes@.take(i + 1));
        i = i + 1;
    }
    assert(bytes@.take(i as int) =~= bytes@);
}

impl Codec for String {
    type Model = Seq<char>;

    open spec fn model(&self) -> Seq<char> {
        self@
    }

    open spec fn representable(m: Seq<char>) -> bool {
        encode_utf8(m).len() < pow256(8)
    }

    open spec fn encoding(m: Seq<char>) -> Seq<u8> {
        length_prefix(encode_utf8(m).len()) + encode_utf8(m)
    }

    open spec fn decoding(bytes: Seq<u8>) -> Result<(Seq<char>, nat), DecodeError> {
        match length_prefix_decoding(bytes) {
            Err(e) => Err(e),
            Ok((n, w)) => if bytes.len() < w + n {
                Err(DecodeError::UnexpectedEof)
            } else if !valid_utf8(bytes.subrange(w as int, (w + n) as int)) {
                Err(DecodeError::InvalidUtf8)
            } else {
                Ok((decode_utf8(bytes.subrange(w as int, (w + n) as int)), w + n))
            },
        }
    }

    proof fn lemma_round_trip(m: Seq<char>, rest: Seq<u8>) {
        let body = encode_utf8(m);
        let prefix = length_prefix(body.len());
        let whole = Self::encoding(m) + rest;
        lemma_length_prefix_round_trip(body.len(), body + rest);
        assert(whole =~= prefix + (body + rest));
        assert(whole.subrange(prefix.len() as int, (prefix.len() + body.len()) as int) =~= body);
        encode_utf8_valid_utf8(m);
        encode_utf8_decode_utf8(m);
    }

    proof fn lemma_decoding_canonical(bytes: Seq<u8>) {
        crate::compact::lemma_length_prefix_decoding_canonical(bytes);
        match length_prefix_decoding(bytes) {
            Err(_) => {},
            Ok((n, w)) => {
                if bytes.len() >= w + n {
                    let body = bytes.subrange(w as int, (w + n) as int);
                    if valid_utf8(body) {
                        vstd::utf8::decode_utf8_encode_utf8(body);
                        assert(bytes.take((w + n) as int) =~= bytes.take(w as int) + body);
                    }
                }
            },
        }
    }

    fn encode_to(&self, out: &mut Vec<u8>) {
        let ghost before = out@;
        let bytes: &[u8] = self.as_str().as_bytes();
        proof {
            lemma_pow256_values();
        }
        put_length_prefix(out, bytes.len() as u64);
        put_bytes(out, bytes);
        assert(out@ =~= before + Self::encoding(self@));
    }

    fn decode_from(input: &[u8], pos: usize) -> (r: Result<(String, usize), DecodeError>) {
        match take_length_prefix(input, pos) {
            Err(e) => Err(e),
            Ok((n, at)) => {
                let left: usize = input.len() - at;
                if (left as u64) < n {
                    return Err(DecodeError::UnexpectedEof);
                }
                let end: usize = at + n as usize;
                let body: Vec<u8> = slice_to_vec(slice_subrange(input, at, end));
                assert(input@.skip(pos as int).subrange(at - pos, at - pos + n) =~= body@);
                let ghost body_bytes = body@;
                match text_from_utf8(body) {
                    None => Err(DecodeError::InvalidUtf8),
                    Some(s) => {
                        proof {
                            lemma_pow256_values();
                            vstd::utf8::decode_utf8_encode_utf8(body_bytes);
                        }
                        Ok((s, end))
                    },
                }
            },
        }
    }
}

} // verus!
