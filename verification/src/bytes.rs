//! Little-endian integers as byte strings.

use vstd::prelude::*;

verus! {

/// 256 to the power `k`: the number of values that `k` bytes can hold.
pub open spec fn pow256(k: nat) -> nat
    decreases k,
{
    if k == 0 {
        1
    } else {
        256 * pow256((k - 1) as nat)
    }
}

/// The `width` least significant bytes of `n`, least significant first.
pub open spec fn le_bytes(n: nat, width: nat) -> Seq<u8>
    decreases width,
{
    if width == 0 {
        Seq::<u8>::empty()
    } else {
        seq![(n % 256) as u8] + le_bytes(n / 256, (width - 1) as nat)
    }
}

/// The number that `bytes` spells, least significant byte first.
pub open spec fn le_value(bytes: Seq<u8>) -> nat
    decreases bytes.len(),
{
    if bytes.len() == 0 {
        0
    } else {
        bytes[0] as nat + 256 * le_value(bytes.skip(1))
    }
}

/// The number that stands for the signed `v` in two's complement on `width` bytes.
pub open spec fn twos_complement(v: int, width: nat) -> nat {
    if v >= 0 {
        v as nat
    } else {
        (v + pow256(width)) as nat
    }
}

/// The signed number that `u` stands for in two's complement on `width` bytes.
pub open spec fn from_twos_complement(u: nat, width: nat) -> int {
    if 2 * u < pow256(width) {
        u as int
    } else {
        u - pow256(width)
    }
}

/// The powers of 256 that the widths in use need.
pub proof fn lemma_pow256_values()
    ensures
        pow256(0) == 1,
        pow256(1) == 0x100,
        pow256(2) == 0x1_0000,
        pow256(3) == 0x100_0000,
        pow256(4) == 0x1_0000_0000,
        pow256(5) == 0x100_0000_0000,
        pow256(6) == 0x1_0000_0000_0000,
        pow256(7) == 0x100_0000_0000_0000,
        pow256(8) == 0x1_0000_0000_0000_0000,
        pow256(16) == 0x1_0000_0000_0000_0000_0000_0000_0000_0000,
{
    reveal_with_fuel(pow256, 9);
    assert(pow256(8) == 0x1_0000_0000_0000_0000);
    assert(pow256(12) == 0x1_0000_0000 * pow256(8));
    assert(pow256(16) == 0x1_0000_0000 * pow256(12));
}

/// A larger exponent gives a power at least as large, and every power is positive.
pub proof fn lemma_pow256_monotonic(a: nat, b: nat)
    requires
        a <= b,
    ensures
        0 < pow256(a) <= pow256(b),
    decreases b,
{
    if b == 0 {
    } else if a == b {
        lemma_pow256_monotonic((a - 1) as nat, (b - 1) as nat);
    } else {
        lemma_pow256_monotonic(a, (b - 1) as nat);
    }
}

/// A number written on `width` bytes takes `width` bytes.
pub proof fn lemma_le_bytes_len(n: nat, width: nat)
    ensures
        le_bytes(n, width).len() == width,
    decreases width,
{
    if width > 0 {
        lemma_le_bytes_len(n / 256, (width - 1) as nat);
    }
}

/// A byte string of length `k` spells a number below 256 to the `k`.
pub proof fn lemma_le_value_bound(bytes: Seq<u8>)
    ensures
        le_value(bytes) < pow256(bytes.len()),
    decreases bytes.len(),
{
    if bytes.len() > 0 {
        lemma_le_value_bound(bytes.skip(1));
    }
}

/// Reading back the `width` bytes of a number that fits in them gives the number.
pub proof fn lemma_le_value_of_le_bytes(n: nat, width: nat)
    requires
        n < pow256(width),
    ensures
        le_value(le_bytes(n, width)) == n,
        le_bytes(n, width).len() == width,
    decreases width,
{
    lemma_le_bytes_len(n, width);
    if width > 0 {
        let rest = le_bytes(n / 256, (width - 1) as nat);
        lemma_le_value_of_le_bytes(n / 256, (width - 1) as nat);
        assert(le_bytes(n, width).skip(1) =~= rest);
        assert(le_bytes(n, width)[0] == (n % 256) as u8);
    }
}

/// Writing out the number that a byte string spells gives the byte string.
pub proof fn lemma_le_bytes_of_le_value(bytes: Seq<u8>)
    ensures
        le_bytes(le_value(bytes), bytes.len()) == bytes,
    decreases bytes.len(),
{
    if bytes.len() > 0 {
        let tail = bytes.skip(1);
        lemma_le_bytes_of_le_value(tail);
        let n = le_value(bytes);
        assert(n == bytes[0] as nat + 256 * le_value(tail));
        assert(n % 256 == bytes[0] as nat);
        assert(n / 256 == le_value(tail));
        assert(le_bytes(n, bytes.len()) =~= bytes);
    } else {
        assert(le_bytes(le_value(bytes), 0) =~= bytes);
    }
}

/// What `width` bytes spell in two's complement lies in the signed range of
/// that width, and stands for the same bytes again.
pub proof fn lemma_from_twos_complement_range(u: nat, width: nat)
    requires
        u < pow256(width),
    ensures
        -(pow256(width) as int) <= 2 * from_twos_complement(u, width) < pow256(width),
        twos_complement(from_twos_complement(u, width), width) == u,
{
}

/// Appends the `width` low bytes of `x` to `out`, least significant first.
pub fn put_le(out: &mut Vec<u8>, x: u128, width: usize)
    ensures
        final(out)@ == old(out)@ + le_bytes(x as nat, width as nat),
{
    let mut rest: u128 = x;
    let mut i: usize = 0;
    while i < width
        invariant
            i <= width,
            old(out)@ + le_bytes(x as nat, width as nat) == out@ + le_bytes(
                rest as nat,
                (width - i) as nat,
            ),
        decreases width - i,
    {
        let ghost before = out@;
        out.push((rest % 256) as u8);
        proof {
            let tail = le_bytes((rest / 256) as nat, (width - i - 1) as nat);
            assert(before + le_bytes(rest as nat, (width - i) as nat) =~= before.push(
                (rest % 256) as u8,
            ) + tail);
        }
        rest = rest / 256;
        i = i + 1;
    }
    assert(out@ + le_bytes(rest as nat, 0) =~= out@);
}

/// Reads the number spelt by the `width` bytes of `input` that start at `pos`.
pub fn take_le(input: &[u8], pos: usize, width: usize) -> (r: u128)
    requires
        width <= 16,
        pos + width <= input@.len(),
    ensures
        r as nat == le_value(input@.subrange(pos as int, pos + width)),
{
    let ghost s = input@.subrange(pos as int, pos + width);
    let total: usize = input.len();
    let mut acc: u128 = 0;
    let mut i: usize = width;
    assert(s.skip(width as int).len() == 0);
    while i > 0
        invariant
            i <= width <= 16,
            pos + width <= total == input@.len(),
            s == input@.subrange(pos as int, pos + width),
            acc as nat == le_value(s.skip(i as int)),
        decreases i,
    {
        i = i - 1;
        let b: u8 = input[pos + i];
        proof {
            let cur = s.skip(i as int);
            assert(cur.skip(1) =~= s.skip(i + 1));
            assert(cur[0] == b);
            lemma_le_value_bound(s.skip(i + 1));
            lemma_pow256_monotonic((width - i - 1) as nat, 15);
            lemma_pow256_values();
            reveal_with_fuel(pow256, 2);
            assert(pow256(16) == 256 * pow256(15));
        }
        acc = acc * 256 + b as u128;
    }
    assert(s.skip(0) =~= s);
    acc
}

} // verus!
