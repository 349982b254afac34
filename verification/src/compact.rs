//! The length prefix of variable-length values: a number in the shortest of
//! four forms, told apart by the two low bits of the first byte.

use crate::bytes::{
    le_bytes, le_value, lemma_le_value_bound, lemma_le_value_of_le_bytes, lemma_pow256_monotonic,
    lemma_pow256_values, pow256, put_le, take_le,
};
use crate::codec::DecodeError;
use vstd::prelude::*;

verus! {

/// The number of bytes that the long form spends on `n`: the fewest that hold
/// it, and at least four.
pub open spec fn long_form_width(n: nat) -> nat {
    if n < pow256(4) {
        4
    } else if n < pow256(5) {
        5
    } else if n < pow256(6) {
        6
    } else if n < pow256(7) {
        7
    } else {
        8
    }
}

/// The prefix that announces the length `n`.
///
/// Below 2^6 one byte holds `4n`; below 2^14 two bytes hold `4n + 1`; below
/// 2^30 four bytes hold `4n + 2`; from there on a first byte `4(w - 4) + 3`
/// is followed by the `w` bytes of `n`.
pub open spec fn length_prefix(n: nat) -> Seq<u8> {
    if n < 0x40 {
        le_bytes(4 * n, 1)
    } else if n < 0x4000 {
        le_bytes(4 * n + 1, 2)
    } else if n < 0x4000_0000 {
        le_bytes(4 * n + 2, 4)
    } else {
        seq![(4 * (long_form_width(n) - 4) + 3) as u8] + le_bytes(n, long_form_width(n))
    }
}

/// The length that `bytes` starts with and the size of its prefix. A prefix
/// in a longer form than its number needs is refused, and so is one of more
/// than eight bytes.
pub open spec fn length_prefix_decoding(bytes: Seq<u8>) -> Result<(nat, nat), DecodeError> {
    if bytes.len() == 0 {
        Err(DecodeError::UnexpectedEof)
    } else if bytes[0] % 4 == 0 {
        Ok(((bytes[0] / 4) as nat, 1))
    } else if bytes[0] % 4 == 1 {
        if bytes.len() < 2 {
            Err(DecodeError::UnexpectedEof)
        } else if le_value(bytes.take(2)) / 4 < 0x40 {
            Err(DecodeError::InvalidLengthPrefix)
        } else {
            Ok((le_value(bytes.take(2)) / 4, 2))
        }
    } else if bytes[0] % 4 == 2 {
        if bytes.len() < 4 {
            Err(DecodeError::UnexpectedEof)
        } else if le_value(bytes.take(4)) / 4 < 0x4000 {
            Err(DecodeError::InvalidLengthPrefix)
        } else {
            Ok((le_value(bytes.take(4)) / 4, 4))
        }
    } else {
        let width = (bytes[0] / 4 + 4) as nat;
        if width > 8 {
            Err(DecodeError::InvalidLengthPrefix)
        } else if bytes.len() < 1 + width {
            Err(DecodeError::UnexpectedEof)
        } else {
            let n = le_value(bytes.subrange(1, 1 + width as int));
            if n < 0x4000_0000 || long_form_width(n) != width {
                Err(DecodeError::InvalidLengthPrefix)
            } else {
                Ok((n, 1 + width))
            }
        }
    }
}

/// A length that fits in 64 bits has a prefix, and the prefix gives it back.
pub proof fn lemma_length_prefix_round_trip(n: nat, rest: Seq<u8>)
    requires
        n < pow256(8),
    ensures
        length_prefix_decoding(length_prefix(n) + rest) == Ok::<(nat, nat), DecodeError>(
            (n, length_prefix(n).len()),
        ),
{
    lemma_pow256_values();
    let p = length_prefix(n);
    let whole = p + rest;
    if n < 0x40 {
        lemma_le_value_of_le_bytes(4 * n, 1);
        assert(whole[0] == p[0]);
        assert(p[0] == ((4 * n) % 256) as u8);
    } else if n < 0x4000 {
        lemma_le_value_of_le_bytes(4 * n + 1, 2);
        assert(whole[0] == p[0]);
        assert(p[0] == ((4 * n + 1) % 256) as u8);
        assert(whole.take(2) =~= p);
    } else if n < 0x4000_0000 {
        lemma_le_value_of_le_bytes(4 * n + 2, 4);
        assert(whole[0] == p[0]);
        assert(p[0] == ((4 * n + 2) % 256) as u8);
        assert(whole.take(4) =~= p);
    } else {
        let w = long_form_width(n);
        lemma_le_value_of_le_bytes(n, w);
        assert(whole[0] == p[0]);
        assert(p[0] == (4 * (w - 4) + 3) as u8);
        assert(whole.subrange(1, 1 + w as int) =~= le_bytes(n, w));
    }
}

/// Only the prefix of a length decodes to it, and a decoded length fits in
/// 64 bits.
pub proof fn lemma_length_prefix_decoding_canonical(bytes: Seq<u8>)
    ensures
        length_prefix_decoding(bytes) matches Ok((n, w)) ==> w <= bytes.len() && n < pow256(8)
            && length_prefix(n) == bytes.take(w as int),
{
    lemma_pow256_values();
    if bytes.len() > 0 {
        let first = bytes[0];
        if first % 4 == 0 {
            let head = bytes.take(1);
            crate::bytes::lemma_le_bytes_of_le_value(head);
            assert(head.skip(1).len() == 0);
            assert(le_value(head.skip(1)) == 0);
            assert(head[0] == first);
            assert(le_value(head) == first as nat);
        } else if first % 4 == 1 {
            if bytes.len() >= 2 {
                let head = bytes.take(2);
                crate::bytes::lemma_le_bytes_of_le_value(head);
                lemma_le_value_bound(head);
                assert(le_value(head) == first as nat + 256 * le_value(head.skip(1)));
            }
        } else if first % 4 == 2 {
            if bytes.len() >= 4 {
                let head = bytes.take(4);
                crate::bytes::lemma_le_bytes_of_le_value(head);
                lemma_le_value_bound(head);
                assert(le_value(head) == first as nat + 256 * le_value(head.skip(1)));
            }
        } else {
            let width = (first / 4 + 4) as nat;
            if width <= 8 && bytes.len() >= 1 + width {
                let body = bytes.subrange(1, 1 + width as int);
                crate::bytes::lemma_le_bytes_of_le_value(body);
                lemma_le_value_bound(body);
                lemma_pow256_monotonic(width, 8);
                let n = le_value(body);
                if n >= 0x4000_0000 && long_form_width(n) == width {
                    assert(first == (4 * (width - 4) + 3) as u8);
                    assert(bytes.take(1 + width as int) =~= seq![first] + body);
                }
            }
        }
    }
}

/// Appends the prefix for the length `n`.
pub fn put_length_prefix(out: &mut Vec<u8>, n: u64)
    ensures
        final(out)@ == old(out)@ + length_prefix(n as nat),
{
    proof {
        lemma_pow256_values();
    }
    if n < 0x40 {
        put_le(out, (4 * n) as u128, 1);
    } else if n < 0x4000 {
        put_le(out, (4 * n + 1) as u128, 2);
    } else if n < 0x4000_0000 {
        put_le(out, (4 * n + 2) as u128, 4);
    } else {
        let width: usize = if n < 0x1_0000_0000 {
            4
        } else if n < 0x100_0000_0000 {
            5
        } else if n < 0x1_0000_0000_0000 {
            6
        } else if n < 0x100_0000_0000_0000 {
            7
        } else {
            8
        };
        let first: u8 = (4 * (width - 4) + 3) as u8;
        let ghost before = out@;
        out.push(first);
        put_le(out, n as u128, width);
        assert(out@ =~= before + length_prefix(n as nat));
    }
}

/// Reads the length prefix at `pos`.
pub fn take_length_prefix(input: &[u8], pos: usize) -> (r: Result<(u64, usize), DecodeError>)
    requires
        pos <= input@.len(),
    ensures
        match length_prefix_decoding(input@.skip(pos as int)) {
            Ok((n, w)) => r matches Ok((v, next)) && v as nat == n && next == pos + w && next
                <= input@.len(),
            Err(e) => r matches Err(x) && x == e,
        },
{
    let ghost bytes = input@.skip(pos as int);
    let left: usize = input.len() - pos;
    if left == 0 {
        return Err(DecodeError::UnexpectedEof);
    }
    let first: u8 = input[pos];
    assert(bytes[0] == first);
    proof {
        lemma_pow256_values();
    }
    let form: u8 = first % 4;
    if form == 0 {
        Ok(((first / 4) as u64, pos + 1))
    } else if form == 1 {
        if left < 2 {
            return Err(DecodeError::UnexpectedEof);
        }
        let raw: u128 = take_le(input, pos, 2);
        proof {
            assert(bytes.take(2) =~= input@.subrange(pos as int, pos + 2));
            lemma_le_value_bound(bytes.take(2));
        }
        let n: u128 = raw / 4;
        if n < 0x40 {
            Err(DecodeError::InvalidLengthPrefix)
        } else {
            Ok((n as u64, pos + 2))
        }
    } else if form == 2 {
        if left < 4 {
            return Err(DecodeError::UnexpectedEof);
        }
        let raw: u128 = take_le(input, pos, 4);
        proof {
            assert(bytes.take(4) =~= input@.subrange(pos as int, pos + 4));
            lemma_le_value_bound(bytes.take(4));
        }
        let n: u128 = raw / 4;
        if n < 0x4000 {
            Err(DecodeError::InvalidLengthPrefix)
        } else {
            Ok((n as u64, pos + 4))
        }
    } else {
        let width: usize = (first / 4) as usize + 4;
        if width > 8 {
            return Err(DecodeError::InvalidLengthPrefix);
        }
        if left - 1 < width {
            return Err(DecodeError::UnexpectedEof);
        }
        let n: u128 = take_le(input, pos + 1, width);
        proof {
            assert(bytes.subrange(1, 1 + width) =~= input@.subrange(pos + 1, pos + 1 + width));
            lemma_le_value_bound(bytes.subrange(1, 1 + width));
            lemma_pow256_monotonic(width as nat, 8);
        }
        let needed: usize = if n < 0x1_0000_0000 {
            4
        } else if n < 0x100_0000_0000 {
            5
        } else if n < 0x1_0000_0000_0000 {
            6
        } else if n < 0x100_0000_0000_0000 {
            7
        } else {
            8
        };
        if n < 0x4000_0000 || needed != width {
            Err(DecodeError::InvalidLengthPrefix)
        } else {
            Ok((n as u64, pos + 1 + width))
        }
    }
}

} // verus!
