//! Values made of other values: pairs, vectors and text.

use crate::bytes::{lemma_pow256_values, pow256};
use crate::codec::{Codec, DecodeError};
use crate::compact::{
    length_prefix, length_prefix_decoding, lemma_length_prefix_round_trip, put_length_prefix,
    take_length_prefix,
};
use vstd::prelude::*;

verus! {

/// What each element of `s` stands for.
pub open spec fn models<T: Codec>(s: Seq<T>) -> Seq<T::Model> {
    Seq::new(s.len(), |i: int| s[i].model())
}

/// Whether every element of `ms` is representable.
pub open spec fn all_representable<T: Codec>(ms: Seq<T::Model>) -> bool {
    forall|i: int| 0 <= i < ms.len() ==> T::representable(#[trigger] ms[i])
}

/// The encodings of the elements of `ms`, one after the other.
pub open spec fn elements_encoding<T: Codec>(ms: Seq<T::Model>) -> Seq<u8>
    decreases ms.len(),
{
    if ms.len() == 0 {
        Seq::<u8>::empty()
    } else {
        elements_encoding::<T>(ms.drop_last()) + T::encoding(ms.last())
    }
}

/// The first `count` values that `bytes` encodes one after the other, with
/// the number of bytes they take, or the error of the first that fails.
pub open spec fn elements_decoding<T: Codec>(bytes: Seq<u8>, count: nat) -> Result<
    (Seq<T::Model>, nat),
    DecodeError,
>
    decreases count,
{
    if count == 0 {
        Ok((Seq::<T::Model>::empty(), 0nat))
    } else {
        match elements_decoding::<T>(bytes, (count - 1) as nat) {
            Err(e) => Err(e),
            Ok((ms, used)) => match T::decoding(bytes.skip(used as int)) {
                Err(e) => Err(e),
                Ok((m, n)) => Ok((ms.push(m), used + n)),
            },
        }
    }
}

/// Once an element fails to decode, every longer run fails with its error.
pub proof fn lemma_elements_decoding_error_persists<T: Codec>(
    bytes: Seq<u8>,
    failed: nat,
    count: nat,
)
    requires
        failed <= count,
        elements_decoding::<T>(bytes, failed) is Err,
    ensures
        elements_decoding::<T>(bytes, count) == elements_decoding::<T>(bytes, failed),
    decreases count,
{
    if failed < count {
        lemma_elements_decoding_error_persists::<T>(bytes, failed, (count - 1) as nat);
    }
}

/// A run of encodings decodes to its elements, whatever follows it.
pub proof fn lemma_elements_round_trip<T: Codec>(ms: Seq<T::Model>, rest: Seq<u8>)
    requires
        all_representable::<T>(ms),
    ensures
        elements_decoding::<T>(elements_encoding::<T>(ms) + rest, ms.len()) == Ok::<
            (Seq<T::Model>, nat),
            DecodeError,
        >((ms, elements_encoding::<T>(ms).len())),
    decreases ms.len(),
{
    if ms.len() > 0 {
        let init = ms.drop_last();
        let last = ms.last();
        let tail = T::encoding(last) + rest;
        let whole = elements_encoding::<T>(ms) + rest;
        assert(all_representable::<T>(init)) by {
            assert forall|i: int| 0 <= i < init.len() implies T::representable(
                #[trigger] init[i],
            ) by {
                assert(0 <= i < ms.len());
                assert(init[i] == ms[i]);
            }
        }
        lemma_elements_round_trip::<T>(init, tail);
        assert(whole =~= elements_encoding::<T>(init) + tail);
        assert(whole.skip(elements_encoding::<T>(init).len() as int) =~= tail);
        T::lemma_round_trip(last, rest);
        assert(init.push(last) =~= ms);
        assert(elements_decoding::<T>(whole, init.len()) == Ok::<
            (Seq<T::Model>, nat),
            DecodeError,
        >((init, elements_encoding::<T>(init).len())));
        assert(T::decoding(tail) == Ok::<(T::Model, nat), DecodeError>(
            (last, T::encoding(last).len()),
        ));
    } else {
        assert(ms =~= Seq::<T::Model>::empty());
    }
}

/// Only a run of encodings decodes to a run of values.
pub proof fn lemma_elements_decoding_canonical<T: Codec>(bytes: Seq<u8>, count: nat)
    ensures
        elements_decoding::<T>(bytes, count) matches Ok((ms, used)) ==> used <= bytes.len()
            && ms.len() == count && all_representable::<T>(ms) && elements_encoding::<T>(ms)
            == bytes.take(used as int),
    decreases count,
{
    if count == 0 {
        assert(bytes.take(0) =~= Seq::<u8>::empty());
    } else {
        lemma_elements_decoding_canonical::<T>(bytes, (count - 1) as nat);
        match elements_decoding::<T>(bytes, (count - 1) as nat) {
            Err(_) => {},
            Ok((init, used)) => {
                let tail = bytes.skip(used as int);
                T::lemma_decoding_canonical(tail);
                match T::decoding(tail) {
                    Err(_) => {},
                    Ok((m, n)) => {
                        let ms = init.push(m);
                        assert(ms.drop_last() =~= init);
                        assert(bytes.take((used + n) as int) =~= bytes.take(used as int)
                            + tail.take(n as int));
                        assert forall|i: int| 0 <= i < ms.len() implies T::representable(
                            #[trigger] ms[i],
                        ) by {
                            if i < init.len() {
                                assert(ms[i] == init[i]);
                            }
                        }
                    },
                }
            },
        }
    }
}

/// Appends the encodings of the elements of `items` to `out`.
pub fn put_elements<T: Codec>(items: &[T], out: &mut Vec<u8>)
    ensures
        final(out)@ == old(out)@ + elements_encoding::<T>(models(items@)),
        all_representable::<T>(models(items@)),
{
    let ghost all = models(items@);
    let mut i: usize = 0;
    assert(all.take(0).len() == 0);
    assert(out@ =~= old(out)@ + elements_encoding::<T>(all.take(0)));
    while i < items.len()
        invariant
            i <= items@.len(),
            all == models(items@),
            out@ == old(out)@ + elements_encoding::<T>(all.take(i as int)),
            forall|j: int| 0 <= j < i ==> T::representable(#[trigger] all[j]),
        decreases items@.len() - i,
    {
        let ghost before = out@;
        items[i].encode_to(out);
        proof {
            let grown = all.take(i + 1);
            assert(grown.drop_last() =~= all.take(i as int));
            assert(grown.last() == items@[i as int].model());
            assert(out@ =~= old(out)@ + elements_encoding::<T>(grown));
        }
        i = i + 1;
    }
    assert(all.take(i as int) =~= all);
}

/// Decodes `count` values that follow one another from `pos` on.
pub fn take_elements<T: Codec>(input: &[u8], pos: usize, count: u64) -> (r: Result<
    (Vec<T>, usize),
    DecodeError,
>)
    requires
        pos <= input@.len(),
    ensures
        match elements_decoding::<T>(input@.skip(pos as int), count as nat) {
            Ok((ms, n)) => r matches Ok((v, next)) && models(v@) == ms && next == pos + n && next
                <= input@.len() && all_representable::<T>(ms) && ms.len() == count,
            Err(e) => r matches Err(x) && x == e,
        },
{
    let ghost body = input@.skip(pos as int);
    let mut items: Vec<T> = Vec::new();
    let mut at: usize = pos;
    let mut i: u64 = 0;
    assert(models(items@) =~= Seq::<T::Model>::empty());
    while i < count
        invariant
            i <= count,
            pos <= at <= input@.len(),
            body == input@.skip(pos as int),
            elements_decoding::<T>(body, i as nat) == Ok::<(Seq<T::Model>, nat), DecodeError>(
                (models(items@), (at - pos) as nat),
            ),
            all_representable::<T>(models(items@)),
            items@.len() == i,
        decreases count - i,
    {
        assert(body.skip(at - pos) =~= input@.skip(at as int));
        match T::decode_from(input, at) {
            Err(e) => {
                proof {
                    assert(elements_decoding::<T>(body, (i + 1) as nat) == Err::<
                        (Seq<T::Model>, nat),
                        DecodeError,
                    >(e));
                    lemma_elements_decoding_error_persists::<T>(
                        body,
                        (i + 1) as nat,
                        count as nat,
                    );
                }
                return Err(e);
            },
            Ok((v, next)) => {
                let ghost before = models(items@);
                let ghost m = v.model();
                items.push(v);
                assert(models(items@) =~= before.push(m));
                at = next;
            },
        }
        i = i + 1;
    }
    Ok((items, at))
}

impl<T: Codec> Codec for Vec<T> {
    type Model = Seq<T::Model>;

    open spec fn model(&self) -> Seq<T::Model> {
        models(self@)
    }

    open spec fn representable(m: Seq<T::Model>) -> bool {
        m.len() < pow256(8) && all_representable::<T>(m)
    }

    open spec fn encoding(m: Seq<T::Model>) -> Seq<u8> {
        length_prefix(m.len()) + elements_encoding::<T>(m)
    }

    open spec fn decoding(bytes: Seq<u8>) -> Result<(Seq<T::Model>, nat), DecodeError> {
        match length_prefix_decoding(bytes) {
            Err(e) => Err(e),
            Ok((count, w)) => match elements_decoding::<T>(bytes.skip(w as int), count) {
                Err(e) => Err(e),
                Ok((ms, used)) => Ok((ms, w + used)),
            },
        }
    }

    proof fn lemma_round_trip(m: Seq<T::Model>, rest: Seq<u8>) {
        let prefix = length_prefix(m.len());
        let body = elements_encoding::<T>(m);
        lemma_length_prefix_round_trip(m.len(), body + rest);
        lemma_elements_round_trip::<T>(m, rest);
        assert(Self::encoding(m) + rest =~= prefix + (body + rest));
        assert((prefix + (body + rest)).skip(prefix.len() as int) =~= body + rest);
    }

    proof fn lemma_decoding_canonical(bytes: Seq<u8>) {
        crate::compact::lemma_length_prefix_decoding_canonical(bytes);
        match length_prefix_decoding(bytes) {
            Err(_) => {},
            Ok((count, w)) => {
                let tail = bytes.skip(w as int);
                lemma_elements_decoding_canonical::<T>(tail, count);
                match elements_decoding::<T>(tail, count) {
                    Err(_) => {},
                    Ok((ms, used)) => {
                        assert(bytes.take((w + used) as int) =~= bytes.take(w as int) + tail.take(
                            used as int,
                        ));
                    },
                }
            },
        }
    }

    fn encode_to(&self, out: &mut Vec<u8>) {
        let ghost before = out@;
        proof {
            lemma_pow256_values();
        }
        put_length_prefix(out, self.len() as u64);
        put_elements(self.as_slice(), out);
        assert(out@ =~= before + Self::encoding(self.model()));
    }

    fn decode_from(input: &[u8], pos: usize) -> (r: Result<(Vec<T>, usize), DecodeError>) {
        match take_length_prefix(input, pos) {
            Err(e) => Err(e),
            Ok((count, at)) => {
                proof {
                    lemma_pow256_values();
                }
                assert(input@.skip(pos as int).skip(at - pos) =~= input@.skip(at as int));
                take_elements(input, at, count)
            },
        }
    }
}

impl<A: Codec, B: Codec> Codec for (A, B) {
    type Model = (A::Model, B::Model);

    open spec fn model(&self) -> (A::Model, B::Model) {
        (self.0.model(), self.1.model())
    }

    open spec fn representable(m: (A::Model, B::Model)) -> bool {
        A::representable(m.0) && B::representable(m.1)
    }

    open spec fn encoding(m: (A::Model, B::Model)) -> Seq<u8> {
        A::encoding(m.0) + B::encoding(m.1)
    }

    open spec fn decoding(bytes: Seq<u8>) -> Result<((A::Model, B::Model), nat), DecodeError> {
        match A::decoding(bytes) {
            Err(e) => Err(e),
            Ok((a, n)) => match B::decoding(bytes.skip(n as int)) {
                Err(e) => Err(e),
                Ok((b, k)) => Ok(((a, b), n + k)),
            },
        }
    }

    proof fn lemma_round_trip(m: (A::Model, B::Model), rest: Seq<u8>) {
        let first = A::encoding(m.0);
        let second = B::encoding(m.1);
        A::lemma_round_trip(m.0, second + rest);
        B::lemma_round_trip(m.1, rest);
        assert(Self::encoding(m) + rest =~= first + (second + rest));
        assert((first + (second + rest)).skip(first.len() as int) =~= second + rest);
    }

    proof fn lemma_decoding_canonical(bytes: Seq<u8>) {
        A::lemma_decoding_canonical(bytes);
        match A::decoding(bytes) {
            Err(_) => {},
            Ok((a, n)) => {
                let tail = bytes.skip(n as int);
                B::lemma_decoding_canonical(tail);
                match B::decoding(tail) {
                    Err(_) => {},
                    Ok((b, k)) => {
                        assert(bytes.take((n + k) as int) =~= bytes.take(n as int) + tail.take(
                            k as int,
                        ));
                    },
                }
            },
        }
    }

    fn encode_to(&self, out: &mut Vec<u8>) {
        let ghost before = out@;
        self.0.encode_to(out);
        self.1.encode_to(out);
        assert(out@ =~= before + Self::encoding(self.model()));
    }

    fn decode_from(input: &[u8], pos: usize) -> (r: Result<((A, B), usize), DecodeError>) {
        match A::decode_from(input, pos) {
            Err(e) => Err(e),
            Ok((a, at)) => {
                assert(input@.skip(pos as int).skip(at - pos) =~= input@.skip(at as int));
                match B::decode_from(input, at) {
                    Err(e) => Err(e),
                    Ok((b, next)) => Ok(((a, b), next)),
                }
            },
        }
    }
}

} // verus!
