//! The chain's own plain types: account identifiers, hashes and balances.

use crate::codec::{Codec, DecodeError};
use vstd::prelude::*;

verus! {

/// An amount of the chain's currency.
pub type Balance = u128;

/// The identifier of an account: 32 bytes.
#[derive(Debug, Clone, Copy, PartialEq, Eq)]
pub struct AccountId {
    pub bytes: [u8; 32],
}

/// A hash: 32 bytes.
#[derive(Debug, Clone, Copy, PartialEq, Eq)]
pub struct Hash {
    pub bytes: [u8; 32],
}

impl AccountId {
    /// The account with these bytes.
    pub fn from_bytes(bytes: [u8; 32]) -> (r: AccountId)
        ensures
            r.bytes == bytes,
    {
        AccountId { bytes }
    }
}

impl Hash {
    /// The hash with these bytes.
    pub fn from_bytes(bytes: [u8; 32]) -> (r: Hash)
        ensures
            r.bytes == bytes,
    {
        Hash { bytes }
    }
}

impl Codec for AccountId {
    type Model = Seq<u8>;

    open spec fn model(&self) -> Seq<u8> {
        self.bytes.model()
    }

    open spec fn representable(m: Seq<u8>) -> bool {
        <[u8; 32] as Codec>::representable(m)
    }

    open spec fn encoding(m: Seq<u8>) -> Seq<u8> {
        <[u8; 32] as Codec>::encoding(m)
    }

    open spec fn decoding(bytes: Seq<u8>) -> Result<(Seq<u8>, nat), DecodeError> {
        <[u8; 32] as Codec>::decoding(bytes)
    }

    proof fn lemma_round_trip(m: Seq<u8>, rest: Seq<u8>) {
        <[u8; 32] as Codec>::lemma_round_trip(m, rest);
    }

    proof fn lemma_decoding_canonical(bytes: Seq<u8>) {
        <[u8; 32] as Codec>::lemma_decoding_canonical(bytes);
    }

    fn encode_to(&self, out: &mut Vec<u8>) {
        self.bytes.encode_to(out);
    }

    fn decode_from(input: &[u8], pos: usize) -> (r: Result<(AccountId, usize), DecodeError>) {
        match <[u8; 32] as Codec>::decode_from(input, pos) {
            Err(e) => Err(e),
            Ok((bytes, next)) => Ok((AccountId { bytes }, next)),
        }
    }
}

impl Codec for Hash {
    type Model = Seq<u8>;

    open spec fn model(&self) -> Seq<u8> {
        self.bytes.model()
    }

    open spec fn representable(m: Seq<u8>) -> bool {
        <[u8; 32] as Codec>::representable(m)
    }

    open spec fn encoding(m: Seq<u8>) -> Seq<u8> {
        <[u8; 32] as Codec>::encoding(m)
    }

    open spec fn decoding(bytes: Seq<u8>) -> Result<(Seq<u8>, nat), DecodeError> {
        <[u8; 32] as Codec>::decoding(bytes)
    }

    proof fn lemma_round_trip(m: Seq<u8>, rest: Seq<u8>) {
        <[u8; 32] as Codec>::lemma_round_trip(m, rest);
    }

    proof fn lemma_decoding_canonical(bytes: Seq<u8>) {
        <[u8; 32] as Codec>::lemma_decoding_canonical(bytes);
    }

    fn encode_to(&self, out: &mut Vec<u8>) {
        self.bytes.encode_to(out);
    }

    fn decode_from(input: &[u8], pos: usize) -> (r: Result<(Hash, usize), DecodeError>) {
        match <[u8; 32] as Codec>::decode_from(input, pos) {
            Err(e) => Err(e),
            Ok((bytes, next)) => Ok((Hash { bytes }, next)),
        }
    }
}

} // verus!
