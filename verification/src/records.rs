//! Records: the encodings of the fields, one after the other in declaration
//! order. A record is encoded as the nested pair of its fields is, so the
//! order of the fields is part of the format.

use crate::codec::{Codec, DecodeError};
use crate::primitives::{AccountId, Balance};
use crate::variants::{EnumWithValues, EnumWithoutValues};
use vstd::prelude::*;

verus! {

/// A boolean, both enumerations, an array and a pair.
#[derive(Debug, Clone, Copy, PartialEq, Eq)]
pub struct PrimitiveTypes {
    pub bool_value: bool,
    pub enum_without_values: EnumWithoutValues,
    pub enum_with_values: EnumWithValues,
    pub array_value: [u32; 3],
    pub tuple_value: (u32, u32),
}

/// The fields of [`PrimitiveTypes`] in declaration order.
pub type PrimitiveTypesFields = (bool, (EnumWithoutValues, (EnumWithValues, ([u32; 3], (u32, u32)))));

/// What a [`PrimitiveTypes`] stands for: what its fields stand for, in declaration order.
pub type PrimitiveTypesModel = (bool, (EnumWithoutValues, (EnumWithValues, (Seq<u32>, (u32, u32)))));

/// The largest and the smallest value of every signed width.
#[derive(Debug, Clone, Copy, PartialEq, Eq, Structural)]
pub struct SignedIntegers {
    pub i128_value_max: i128,
    pub i128_value_min: i128,
    pub i16_value_max: i16,
    pub i16_value_min: i16,
    pub i32_value_max: i32,
    pub i32_value_min: i32,
    pub i64_value_max: i64,
    pub i64_value_min: i64,
    pub i8_value_max: i8,
    pub i8_value_min: i8,
}

/// The fields of [`SignedIntegers`] in declaration order.
pub type SignedIntegersFields = (i128, (i128, (i16, (i16, (i32, (i32, (i64, (i64, (i8, i8)))))))));

/// What a [`SignedIntegers`] stands for: what its fields stand for, in declaration order.
pub type SignedIntegersModel = (i128, (i128, (i16, (i16, (i32, (i32, (i64, (i64, (i8, i8)))))))));

/// An account, the largest and the smallest balance, and a hash.
#[derive(Debug, Clone, Copy, PartialEq, Eq)]
pub struct SubstrateTypes {
    pub account_id_value: AccountId,
    pub balance_value_max: Balance,
    pub balance_value_min: Balance,
    pub hash_value: crate::primitives::Hash,
}

/// The fields of [`SubstrateTypes`] in declaration order.
pub type SubstrateTypesFields = (AccountId, (Balance, (Balance, crate::primitives::Hash)));

/// What a [`SubstrateTypes`] stands for: what its fields stand for, in declaration order.
pub type SubstrateTypesModel = (Seq<u8>, (u128, (u128, Seq<u8>)));

/// A text, a vector of texts and a vector of vectors of texts.
#[derive(Debug, Clone, PartialEq, Eq)]
pub struct InkPreludeTypes {
    pub string_value: String,
    pub vec_string_value: Vec<String>,
    pub vec_vec_string_value: Vec<Vec<String>>,
}

/// The fields of [`InkPreludeTypes`] in declaration order.
pub type InkPreludeTypesFields = (String, (Vec<String>, Vec<Vec<String>>));

/// What a [`InkPreludeTypes`] stands for: what its fields stand for, in declaration order.
pub type InkPreludeTypesModel = (Seq<char>, (Seq<Seq<char>>, Seq<Seq<Seq<char>>>));

/// The largest and the smallest value of every unsigned width.
#[derive(Debug, Clone, Copy, PartialEq, Eq, Structural)]
pub struct UnsignedIntegers {
    pub u128_value_max: u128,
    pub u128_value_min: u128,
    pub u16_value_max: u16,
    pub u16_value_min: u16,
    pub u32_value_max: u32,
    pub u32_value_min: u32,
    pub u64_value_max: u64,
    pub u64_value_min: u64,
    pub u8_value_max: u8,
    pub u8_value_min: u8,
}

/// The fields of [`UnsignedIntegers`] in declaration order.
pub type UnsignedIntegersFields = (u128, (u128, (u16, (u16, (u32, (u32, (u64, (u64, (u8, u8)))))))));

/// What a [`UnsignedIntegers`] stands for: what its fields stand for, in declaration order.
pub type UnsignedIntegersModel = (u128, (u128, (u16, (u16, (u32, (u32, (u64, (u64, (u8, u8)))))))));

impl Codec for PrimitiveTypes {
    type Model = PrimitiveTypesModel;

    open spec fn model(&self) -> PrimitiveTypesModel {
        (self.bool_value.model(), (self.enum_without_values.model(), (self.enum_with_values.model(), (self.array_value.model(), self.tuple_value.model()))))
    }

    open spec fn representable(m: PrimitiveTypesModel) -> bool {
        <PrimitiveTypesFields as Codec>::representable(m)
    }

    open spec fn encoding(m: PrimitiveTypesModel) -> Seq<u8> {
        <PrimitiveTypesFields as Codec>::encoding(m)
    }

    open spec fn decoding(bytes: Seq<u8>) -> Result<(PrimitiveTypesModel, nat), DecodeError> {
        <PrimitiveTypesFields as Codec>::decoding(bytes)
    }

    proof fn lemma_round_trip(m: PrimitiveTypesModel, rest: Seq<u8>) {
        <PrimitiveTypesFields as Codec>::lemma_round_trip(m, rest);
    }

    proof fn lemma_decoding_canonical(bytes: Seq<u8>) {
        <PrimitiveTypesFields as Codec>::lemma_decoding_canonical(bytes);
    }

    fn encode_to(&self, out: &mut Vec<u8>) {
        let ghost before = out@;
        self.bool_value.encode_to(out);
        self.enum_without_values.encode_to(out);
        self.enum_with_values.encode_to(out);
        self.array_value.encode_to(out);
        self.tuple_value.encode_to(out);
        assert(out@ =~= before + Self::encoding(self.model()));
    }

    fn decode_from(input: &[u8], pos: usize) -> (r: Result<(PrimitiveTypes, usize), DecodeError>) {
        match <PrimitiveTypesFields as Codec>::decode_from(input, pos) {
            Err(e) => Err(e),
            Ok(((bool_value, (enum_without_values, (enum_with_values, (array_value, tuple_value)))), next)) => Ok(((PrimitiveTypes { bool_value, enum_without_values, enum_with_values, array_value, tuple_value }), next)),
        }
    }
}

impl Codec for SignedIntegers {
    type Model = SignedIntegersModel;

    open spec fn model(&self) -> SignedIntegersModel {
        (self.i128_value_max.model(), (self.i128_value_min.model(), (self.i16_value_max.model(), (self.i16_value_min.model(), (self.i32_value_max.model(), (self.i32_value_min.model(), (self.i64_value_max.model(), (self.i64_value_min.model(), (self.i8_value_max.model(), self.i8_value_min.model())))))))))
    }

    open spec fn representable(m: SignedIntegersModel) -> bool {
        <SignedIntegersFields as Codec>::representable(m)
    }

    open spec fn encoding(m: SignedIntegersModel) -> Seq<u8> {
        <SignedIntegersFields as Codec>::encoding(m)
    }

    open spec fn decoding(bytes: Seq<u8>) -> Result<(SignedIntegersModel, nat), DecodeError> {
        <SignedIntegersFields as Codec>::decoding(bytes)
    }

    proof fn lemma_round_trip(m: SignedIntegersModel, rest: Seq<u8>) {
        <SignedIntegersFields as Codec>::lemma_round_trip(m, rest);
    }

    proof fn lemma_decoding_canonical(bytes: Seq<u8>) {
        <SignedIntegersFields as Codec>::lemma_decoding_canonical(bytes);
    }

    fn encode_to(&self, out: &mut Vec<u8>) {
        let ghost before = out@;
        self.i128_value_max.encode_to(out);
        self.i128_value_min.encode_to(out);
        self.i16_value_max.encode_to(out);
        self.i16_value_min.encode_to(out);
        self.i32_value_max.encode_to(out);
        self.i32_value_min.encode_to(out);
        self.i64_value_max.encode_to(out);
        self.i64_value_min.encode_to(out);
        self.i8_value_max.encode_to(out);
        self.i8_value_min.encode_to(out);
        assert(out@ =~= before + Self::encoding(self.model()));
    }

    fn decode_from(input: &[u8], pos: usize) -> (r: Result<(SignedIntegers, usize), DecodeError>) {
        match <SignedIntegersFields as Codec>::decode_from(input, pos) {
            Err(e) => Err(e),
            Ok(((i128_value_max, (i128_value_min, (i16_value_max, (i16_value_min, (i32_value_max, (i32_value_min, (i64_value_max, (i64_value_min, (i8_value_max, i8_value_min))))))))), next)) => Ok(((SignedIntegers { i128_value_max, i128_value_min, i16_value_max, i16_value_min, i32_value_max, i32_value_min, i64_value_max, i64_value_min, i8_value_max, i8_value_min }), next)),
        }
    }
}

impl Codec for SubstrateTypes {
    type Model = SubstrateTypesModel;

    open spec fn model(&self) -> SubstrateTypesModel {
        (self.account_id_value.model(), (self.balance_value_max.model(), (self.balance_value_min.model(), self.hash_value.model())))
    }

    open spec fn representable(m: SubstrateTypesModel) -> bool {
        <SubstrateTypesFields as Codec>::representable(m)
    }

    open spec fn encoding(m: SubstrateTypesModel) -> Seq<u8> {
        <SubstrateTypesFields as Codec>::encoding(m)
    }

    open spec fn decoding(bytes: Seq<u8>) -> Result<(SubstrateTypesModel, nat), DecodeError> {
        <SubstrateTypesFields as Codec>::decoding(bytes)
    }

    proof fn lemma_round_trip(m: SubstrateTypesModel, rest: Seq<u8>) {
        <SubstrateTypesFields as Codec>::lemma_round_trip(m, rest);
    }

    proof fn lemma_decoding_canonical(bytes: Seq<u8>) {
        <SubstrateTypesFields as Codec>::lemma_decoding_canonical(bytes);
    }

    fn encode_to(&self, out: &mut Vec<u8>) {
        let ghost before = out@;
        self.account_id_value.encode_to(out);
        self.balance_value_max.encode_to(out);
        self.balance_value_min.encode_to(out);
        self.hash_value.encode_to(out);
        assert(out@ =~= before + Self::encoding(self.model()));
    }

    fn decode_from(input: &[u8], pos: usize) -> (r: Result<(SubstrateTypes, usize), DecodeError>) {
        match <SubstrateTypesFields as Codec>::decode_from(input, pos) {
            Err(e) => Err(e),
            Ok(((account_id_value, (balance_value_max, (balance_value_min, hash_value))), next)) => Ok(((SubstrateTypes { account_id_value, balance_value_max, balance_value_min, hash_value }), next)),
        }
    }
}

impl Codec for InkPreludeTypes {
    type Model = InkPreludeTypesModel;

    open spec fn model(&self) -> InkPreludeTypesModel {
        (self.string_value.model(), (self.vec_string_value.model(), self.vec_vec_string_value.model()))
    }

    open spec fn representable(m: InkPreludeTypesModel) -> bool {
        <InkPreludeTypesFields as Codec>::representable(m)
    }

    open spec fn encoding(m: InkPreludeTypesModel) -> Seq<u8> {
        <InkPreludeTypesFields as Codec>::encoding(m)
    }

    open spec fn decoding(bytes: Seq<u8>) -> Result<(InkPreludeTypesModel, nat), DecodeError> {
        <InkPreludeTypesFields as Codec>::decoding(bytes)
    }

    proof fn lemma_round_trip(m: InkPreludeTypesModel, rest: Seq<u8>) {
        <InkPreludeTypesFields as Codec>::lemma_round_trip(m, rest);
    }

    proof fn lemma_decoding_canonical(bytes: Seq<u8>) {
        <InkPreludeTypesFields as Codec>::lemma_decoding_canonical(bytes);
    }

    fn encode_to(&self, out: &mut Vec<u8>) {
        let ghost before = out@;
        self.string_value.encode_to(out);
        self.vec_string_value.encode_to(out);
        self.vec_vec_string_value.encode_to(out);
        assert(out@ =~= before + Self::encoding(self.model()));
    }

    fn decode_from(input: &[u8], pos: usize) -> (r: Result<(InkPreludeTypes, usize), DecodeError>) {
        match <InkPreludeTypesFields as Codec>::decode_from(input, pos) {
            Err(e) => Err(e),
            Ok(((string_value, (vec_string_value, vec_vec_string_value)), next)) => Ok(((InkPreludeTypes { string_value, vec_string_value, vec_vec_string_value }), next)),
        }
    }
}

impl Codec for UnsignedIntegers {
    type Model = UnsignedIntegersModel;

    open spec fn model(&self) -> UnsignedIntegersModel {
        (self.u128_value_max.model(), (self.u128_value_min.model(), (self.u16_value_max.model(), (self.u16_value_min.model(), (self.u32_value_max.model(), (self.u32_value_min.model(), (self.u64_value_max.model(), (self.u64_value_min.model(), (self.u8_value_max.model(), self.u8_value_min.model())))))))))
    }

    open spec fn representable(m: UnsignedIntegersModel) -> bool {
        <UnsignedIntegersFields as Codec>::representable(m)
    }

    open spec fn encoding(m: UnsignedIntegersModel) -> Seq<u8> {
        <UnsignedIntegersFields as Codec>::encoding(m)
    }

    open spec fn decoding(bytes: Seq<u8>) -> Result<(UnsignedIntegersModel, nat), DecodeError> {
        <UnsignedIntegersFields as Codec>::decoding(bytes)
    }

    proof fn lemma_round_trip(m: UnsignedIntegersModel, rest: Seq<u8>) {
        <UnsignedIntegersFields as Codec>::lemma_round_trip(m, rest);
    }

    proof fn lemma_decoding_canonical(bytes: Seq<u8>) {
        <UnsignedIntegersFields as Codec>::lemma_decoding_canonical(bytes);
    }

    fn encode_to(&self, out: &mut Vec<u8>) {
        let ghost before = out@;
        self.u128_value_max.encode_to(out);
        self.u128_value_min.encode_to(out);
        self.u16_value_max.encode_to(out);
        self.u16_value_min.encode_to(out);
        self.u32_value_max.encode_to(out);
        self.u32_value_min.encode_to(out);
        self.u64_value_max.encode_to(out);
        self.u64_value_min.encode_to(out);
        self.u8_value_max.encode_to(out);
        self.u8_value_min.encode_to(out);
        assert(out@ =~= before + Self::encoding(self.model()));
    }

    fn decode_from(input: &[u8], pos: usize) -> (r: Result<(UnsignedIntegers, usize), DecodeError>) {
        match <UnsignedIntegersFields as Codec>::decode_from(input, pos) {
            Err(e) => Err(e),
            Ok(((u128_value_max, (u128_value_min, (u16_value_max, (u16_value_min, (u32_value_max, (u32_value_min, (u64_value_max, (u64_value_min, (u8_value_max, u8_value_min))))))))), next)) => Ok(((UnsignedIntegers { u128_value_max, u128_value_min, u16_value_max, u16_value_min, u32_value_max, u32_value_min, u64_value_max, u64_value_min, u8_value_max, u8_value_min }), next)),
        }
    }
}

} // verus!
