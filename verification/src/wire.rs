//! The wire format of a solution: its indices as one string of bits.

use vstd::prelude::*;

use crate::gpu::MAX_INDICES;

verus! {

/// Bits of an index on the wire for the parameters `(n, k)`: the collision
/// length and one more.
pub open spec fn index_width(n: u32, k: u32) -> int {
    n as int / (k + 1) + 1
}

/// The indices of a solution for `(n, k)` fit the wire format: they have at
/// most 32 bits.
pub open spec fn is_packable(n: u32, k: u32) -> bool {
    k < u32::MAX && index_width(n, k) <= 32
}

/// Bit `b` of `v`, where bit 0 is the lowest.
pub open spec fn bit_of(v: u32, b: int) -> bool {
    (v >> (b as u32)) & 1 == 1
}

/// Bit `p` of the bit string: the indices one after the other, `width` bits
/// each, the highest bit of an index first; what follows is zero.
pub open spec fn stream_bit(indices: Seq<u32>, width: int, p: int) -> bool {
    p < width * indices.len() && bit_of(indices[p / width], width - 1 - p % width)
}

pub open spec fn weight(bit: bool, w: int) -> int {
    if bit {
        w
    } else {
        0
    }
}

/// Byte `i` of the bit string: eight of its bits, the first the highest.
pub open spec fn wire_byte(indices: Seq<u32>, width: int, i: int) -> int {
    weight(stream_bit(indices, width, 8 * i), 128) + weight(
        stream_bit(indices, width, 8 * i + 1),
        64,
    ) + weight(stream_bit(indices, width, 8 * i + 2), 32) + weight(
        stream_bit(indices, width, 8 * i + 3),
        16,
    ) + weight(stream_bit(indices, width, 8 * i + 4), 8) + weight(
        stream_bit(indices, width, 8 * i + 5),
        4,
    ) + weight(stream_bit(indices, width, 8 * i + 6), 2) + weight(
        stream_bit(indices, width, 8 * i + 7),
        1,
    )
}

/// The indices on the wire, `width` bits each, in the fewest bytes.
pub open spec fn wire_bytes(indices: Seq<u32>, width: int) -> Seq<u8> {
    Seq::new(
        ((width * indices.len() + 7) / 8) as nat,
        |i: int| wire_byte(indices, width, i) as u8,
    )
}

/// Bit `p` of a byte string, where bit 0 is the highest of the first byte.
pub open spec fn wire_bit(bytes: Seq<u8>, p: int) -> bool {
    (bytes[p / 8] >> ((7 - p % 8) as u8)) & 1 == 1
}

/// Setting one bit of a byte leaves the others alone.
proof fn lemma_or_bit(byte: u8, bit: u8, shift: u8, other: u8)
    requires
        bit <= 1,
        shift < 8,
        other < 8,
        (byte >> shift) & 1 == 0,
    ensures
        ((byte | (bit << shift)) >> shift) & 1 == bit,
        other != shift ==> ((byte | (bit << shift)) >> other) & 1 == (byte >> other) & 1,
{
    assert(((byte | (bit << shift)) >> shift) & 1 == bit) by (bit_vector)
        requires
            bit <= 1,
            shift < 8,
            (byte >> shift) & 1 == 0,
    ;
    assert(other != shift ==> ((byte | (bit << shift)) >> other) & 1 == (byte >> other) & 1)
        by (bit_vector)
        requires
            bit <= 1,
            shift < 8,
            other < 8,
    ;
}

/// A byte is the sum of the weights of its bits.
proof fn lemma_byte_of_bits(bytes: Seq<u8>, i: int)
    ensures
        bytes[i] as int == weight(wire_bit(bytes, 8 * i), 128) + weight(
            wire_bit(bytes, 8 * i + 1),
            64,
        ) + weight(wire_bit(bytes, 8 * i + 2), 32) + weight(wire_bit(bytes, 8 * i + 3), 16)
            + weight(wire_bit(bytes, 8 * i + 4), 8) + weight(wire_bit(bytes, 8 * i + 5), 4)
            + weight(wire_bit(bytes, 8 * i + 6), 2) + weight(wire_bit(bytes, 8 * i + 7), 1),
{
    let b = bytes[i];
    assert(b == 128 * ((b >> 7u8) & 1) + 64 * ((b >> 6u8) & 1) + 32 * ((b >> 5u8) & 1) + 16 * ((b
        >> 4u8) & 1) + 8 * ((b >> 3u8) & 1) + 4 * ((b >> 2u8) & 1) + 2 * ((b >> 1u8) & 1) + ((b
        >> 0u8) & 1)) by (bit_vector);
    assert(forall|s: u8| (#[trigger] (b >> s)) & 1 == 0 || (b >> s) & 1 == 1) by (bit_vector);
}

/// The bits of the wire format are those of the bit string.
proof fn lemma_wire_bytes(bytes: Seq<u8>, indices: Seq<u32>, width: int)
    requires
        width > 0,
        bytes.len() == (width * indices.len() + 7) / 8,
        forall|p: int|
            0 <= p < 8 * bytes.len() ==> #[trigger] wire_bit(bytes, p) == stream_bit(
                indices,
                width,
                p,
            ),
    ensures
        bytes == wire_bytes(indices, width),
{
    assert forall|i: int| 0 <= i < bytes.len() implies bytes[i] == wire_byte(
        indices,
        width,
        i,
    ) as u8 by {
        lemma_byte_of_bits(bytes, i);
        assert(wire_bit(bytes, 8 * i) == stream_bit(indices, width, 8 * i));
        assert(wire_bit(bytes, 8 * i + 1) == stream_bit(indices, width, 8 * i + 1));
        assert(wire_bit(bytes, 8 * i + 2) == stream_bit(indices, width, 8 * i + 2));
        assert(wire_bit(bytes, 8 * i + 3) == stream_bit(indices, width, 8 * i + 3));
        assert(wire_bit(bytes, 8 * i + 4) == stream_bit(indices, width, 8 * i + 4));
        assert(wire_bit(bytes, 8 * i + 5) == stream_bit(indices, width, 8 * i + 5));
        assert(wire_bit(bytes, 8 * i + 6) == stream_bit(indices, width, 8 * i + 6));
        assert(wire_bit(bytes, 8 * i + 7) == stream_bit(indices, width, 8 * i + 7));
    }
    assert(bytes =~= wire_bytes(indices, width));
}

/// Packs the indices of a solution for `(n, k)` into the wire format.
pub fn compress_indices(n: u32, k: u32, indices: &[u32; 32]) -> (out: Vec<u8>)
    requires
        is_packable(n, k),
    ensures
        out@ == wire_bytes(indices@, index_width(n, k)),
{
    let bits_per: usize = (n / (k + 1)) as usize + 1;
    let total_bits: usize = bits_per * MAX_INDICES;
    let total_bytes: usize = (total_bits + 7) / 8;
    let ghost width = index_width(n, k);
    assert(bits_per == width && 1 <= width) by {
        assert(n as int / (k + 1) >= 0) by (nonlinear_arith)
            requires
                n >= 0,
                k >= 0,
        ;
    }
    let mut out: Vec<u8> = vec![0u8; total_bytes];
    assert forall|q: int| 0 <= q < 8 * total_bytes implies !#[trigger] wire_bit(out@, q) by {
        let s = (7 - q % 8) as u8;
        assert((0u8 >> s) & 1 == 0) by (bit_vector);
        assert(out@[q / 8] == 0u8);
    }
    let mut pos: usize = 0;
    let mut i: usize = 0;
    while i < MAX_INDICES
        invariant
            i <= MAX_INDICES,
            1 <= bits_per <= 32,
            bits_per == width,
            total_bits == bits_per * MAX_INDICES,
            total_bytes == (total_bits + 7) / 8,
            pos == i * width,
            out@.len() == total_bytes,
            forall|q: int|
                0 <= q < 8 * total_bytes ==> #[trigger] wire_bit(out@, q) == (q < pos
                    && stream_bit(indices@, width, q)),
        decreases MAX_INDICES - i,
    {
        let idx: u32 = indices[i];
        let mut b: usize = bits_per;
        while b > 0
            invariant
                i < MAX_INDICES,
                idx == indices@[i as int],
                b <= bits_per,
                1 <= bits_per <= 32,
                bits_per == width,
                total_bits == bits_per * MAX_INDICES,
                total_bytes == (total_bits + 7) / 8,
                pos == i * width + (width - b),
                out@.len() == total_bytes,
                forall|q: int|
                    0 <= q < 8 * total_bytes ==> #[trigger] wire_bit(out@, q) == (q < pos
                        && stream_bit(indices@, width, q)),
            decreases b,
        {
            b -= 1;
            proof {
                let r = width - 1 - b;
                assert(pos == i * width + r);
                vstd::arithmetic::div_mod::lemma_fundamental_div_mod_converse(
                    pos as int,
                    width,
                    i as int,
                    r,
                );
                assert(i * width + width <= 32 * width) by (nonlinear_arith)
                    requires
                        i + 1 <= 32,
                        width >= 1,
                ;
            }
            let bit: u32 = (idx >> (b as u32)) & 1;
            let byte: usize = pos / 8;
            let shift: u8 = (7 - pos % 8) as u8;
            assert(bit <= 1) by (bit_vector)
                requires
                    bit == (idx >> (b as u32)) & 1,
            ;
            let ghost before = out@;
            let small: u8 = bit as u8;
            let cell: u8 = out[byte];
            out.set(byte, cell | (small << shift));
            proof {
                assert(bit_of(idx, b as int) == (bit == 1));
                assert(stream_bit(indices@, width, pos as int) == (bit == 1)) by {
                    assert(pos < width * 32) by (nonlinear_arith)
                        requires
                            pos < i * width + width,
                            i * width + width <= 32 * width,
                    ;
                }
                assert(!wire_bit(before, pos as int));
                assert((cell >> shift) & 1 == 0) by {
                    assert((cell >> shift) & 1 == 0 || (cell >> shift) & 1 == 1) by (bit_vector);
                }
                assert forall|q: int| 0 <= q < 8 * total_bytes implies #[trigger] wire_bit(
                    out@,
                    q,
                ) == (q < pos + 1 && stream_bit(indices@, width, q)) by {
                    let other = (7 - q % 8) as u8;
                    assert(wire_bit(before, q) == (q < pos && stream_bit(indices@, width, q)));
                    lemma_or_bit(cell, small, shift, other);
                    if q / 8 == byte && q != pos {
                        assert(other != shift);
                    }
                }
            }
            pos += 1;
        }
        assert(pos == (i + 1) * width) by (nonlinear_arith)
            requires
                pos == i * width + (width - b),
                b == 0,
        ;
        i += 1;
    }
    proof {
        assert(pos == 32 * width);
        assert forall|q: int| 0 <= q < 8 * total_bytes implies #[trigger] wire_bit(out@, q)
            == stream_bit(indices@, width, q) by {}
        lemma_wire_bytes(out@, indices@, width);
    }
    out
}

/// The first `count` bits of index `i`, read back from the wire.
pub open spec fn read_bits(bytes: Seq<u8>, width: int, i: int, count: nat) -> int
    decreases count,
{
    if count == 0 {
        0
    } else {
        2 * read_bits(bytes, width, i, (count - 1) as nat) + weight(
            wire_bit(bytes, i * width + count - 1),
            1,
        )
    }
}

/// Index `i`, read back from the wire.
pub open spec fn read_index(bytes: Seq<u8>, width: int, i: int) -> int {
    read_bits(bytes, width, i, width as nat)
}

proof fn lemma_bits_of_sum(x: u8, b0: u8, b1: u8, b2: u8, b3: u8, b4: u8, b5: u8, b6: u8, b7: u8)
    requires
        b0 <= 1,
        b1 <= 1,
        b2 <= 1,
        b3 <= 1,
        b4 <= 1,
        b5 <= 1,
        b6 <= 1,
        b7 <= 1,
        x == 128 * b0 + 64 * b1 + 32 * b2 + 16 * b3 + 8 * b4 + 4 * b5 + 2 * b6 + b7,
    ensures
        (x >> 7u8) & 1 == b0,
        (x >> 6u8) & 1 == b1,
        (x >> 5u8) & 1 == b2,
        (x >> 4u8) & 1 == b3,
        (x >> 3u8) & 1 == b4,
        (x >> 2u8) & 1 == b5,
        (x >> 1u8) & 1 == b6,
        (x >> 0u8) & 1 == b7,
{
    assert((x >> 7u8) & 1 == b0 && (x >> 6u8) & 1 == b1 && (x >> 5u8) & 1 == b2 && (x >> 4u8) & 1
        == b3 && (x >> 3u8) & 1 == b4 && (x >> 2u8) & 1 == b5 && (x >> 1u8) & 1 == b6 && (x >> 0u8)
        & 1 == b7) by (bit_vector)
        requires
            b0 <= 1,
            b1 <= 1,
            b2 <= 1,
            b3 <= 1,
            b4 <= 1,
            b5 <= 1,
            b6 <= 1,
            b7 <= 1,
            x == 128 * b0 + 64 * b1 + 32 * b2 + 16 * b3 + 8 * b4 + 4 * b5 + 2 * b6 + b7,
    ;
}

/// The bits on the wire are the bits of the indices, in order, and the bits
/// that fill the last byte are zero.
pub proof fn wire_carries_the_bit_string(indices: Seq<u32>, width: int, p: int)
    requires
        width > 0,
        0 <= p < 8 * wire_bytes(indices, width).len(),
    ensures
        wire_bit(wire_bytes(indices, width), p) == stream_bit(indices, width, p),
{
    let i = p / 8;
    let f = |j: int| weight(stream_bit(indices, width, 8 * i + j), 1) as u8;
    let x = wire_bytes(indices, width)[i];
    assert(x == wire_byte(indices, width, i) as u8);
    lemma_bits_of_sum(x, f(0), f(1), f(2), f(3), f(4), f(5), f(6), f(7));
    assert(p == 8 * i + p % 8);
}

proof fn lemma_bit_is_quotient(v: u32, b: int)
    requires
        0 <= b < 32,
    ensures
        bit_of(v, b) == ((v as int / vstd::arithmetic::power2::pow2(b as nat) as int) % 2 == 1),
{
    vstd::bits::lemma_u32_shr_is_div(v, b as u32);
    let q = v >> (b as u32);
    assert(q & 1 == q % 2) by (bit_vector);
}

proof fn lemma_read_bits(indices: Seq<u32>, width: int, i: int, count: nat)
    requires
        0 < width <= 32,
        0 <= i < indices.len(),
        count <= width,
    ensures
        read_bits(wire_bytes(indices, width), width, i, count) == (indices[i] as int
            / vstd::arithmetic::power2::pow2((width - count) as nat) as int)
            % vstd::arithmetic::power2::pow2(count) as int,
    decreases count,
{
    let v = indices[i] as int;
    let bytes = wire_bytes(indices, width);
    vstd::arithmetic::power2::lemma2_to64();
    if count > 0 {
        let before = (count - 1) as nat;
        let b = width - count;
        let x = v / vstd::arithmetic::power2::pow2(b as nat) as int;
        lemma_read_bits(indices, width, i, before);
        vstd::arithmetic::power2::lemma_pow2_pos(b as nat);
        vstd::arithmetic::power2::lemma_pow2_pos(before);
        vstd::arithmetic::power2::lemma_pow2_unfold((b + 1) as nat);
        vstd::arithmetic::power2::lemma_pow2_unfold(count);
        vstd::arithmetic::div_mod::lemma_div_denominator(
            v,
            vstd::arithmetic::power2::pow2(b as nat) as int,
            2,
        );
        vstd::arithmetic::div_mod::lemma_mod_breakdown(
            x,
            2,
            vstd::arithmetic::power2::pow2(before) as int,
        );
        assert(x >= 0) by {
            vstd::arithmetic::div_mod::lemma_div_pos_is_pos(
                v,
                vstd::arithmetic::power2::pow2(b as nat) as int,
            );
        }
        let p = i * width + count - 1;
        assert(p < width * indices.len()) by (nonlinear_arith)
            requires
                p == i * width + count - 1,
                count <= width,
                i < indices.len(),
                width > 0,
        ;
        assert(p >= 0) by (nonlinear_arith)
            requires
                p == i * width + count - 1,
                count >= 1,
                i >= 0,
                width > 0,
        ;
        vstd::arithmetic::div_mod::lemma_fundamental_div_mod_converse(p, width, i, count - 1);
        wire_carries_the_bit_string(indices, width, p);
        lemma_bit_is_quotient(indices[i], b);
    } else {
        assert(forall|y: int| #[trigger] (y % 1) == 0);
    }
}

/// Reading an index back from the wire gives its low `width` bits, and so the
/// index itself where it fits.
pub proof fn wire_round_trip(indices: Seq<u32>, width: int, i: int)
    requires
        0 < width <= 32,
        0 <= i < indices.len(),
    ensures
        read_index(wire_bytes(indices, width), width, i) == indices[i] as int
            % vstd::arithmetic::power2::pow2(width as nat) as int,
        indices[i] < vstd::arithmetic::power2::pow2(width as nat) ==> read_index(
            wire_bytes(indices, width),
            width,
            i,
        ) == indices[i],
{
    lemma_read_bits(indices, width, i, width as nat);
    vstd::arithmetic::power2::lemma2_to64();
    if indices[i] < vstd::arithmetic::power2::pow2(width as nat) {
        vstd::arithmetic::div_mod::lemma_small_mod(
            indices[i] as nat,
            vstd::arithmetic::power2::pow2(width as nat),
        );
    }
}

/// Different solutions are different on the wire.
pub proof fn wire_tells_solutions_apart(a: Seq<u32>, b: Seq<u32>, width: int)
    requires
        0 < width <= 32,
        a.len() == b.len(),
        forall|i: int|
            0 <= i < a.len() ==> #[trigger] a[i] < vstd::arithmetic::power2::pow2(width as nat),
        forall|i: int|
            0 <= i < b.len() ==> #[trigger] b[i] < vstd::arithmetic::power2::pow2(width as nat),
        wire_bytes(a, width) == wire_bytes(b, width),
    ensures
        a == b,
{
    assert forall|i: int| 0 <= i < a.len() implies a[i] == b[i] by {
        wire_round_trip(a, width, i);
        wire_round_trip(b, width, i);
    }
    assert(a =~= b);
}

/// A solution for (96, 5) takes 17 bits an index and 68 bytes in all.
pub proof fn wire_length_of_96_5(indices: Seq<u32>)
    requires
        indices.len() == MAX_INDICES,
    ensures
        is_packable(96, 5),
        index_width(96, 5) == 17,
        wire_bytes(indices, index_width(96, 5)).len() == 68,
{
    assert(96u32 as int / (5u32 + 1) == 16) by (nonlinear_arith);
}

proof fn lemma_byte_bit_is_quotient(v: u8, b: int)
    requires
        0 <= b < 8,
    ensures
        ((v >> (b as u8)) & 1 == 1) == ((v as int / vstd::arithmetic::power2::pow2(b as nat) as int)
            % 2 == 1),
{
    vstd::bits::lemma_u8_shr_is_div(v, b as u8);
    let q = v >> (b as u8);
    assert(q & 1 == q % 2) by (bit_vector);
}

/// The wire format, bit by bit, for all parameters: 32 indices of
/// `n / (k + 1) + 1` bits fill as many bytes as that takes, and bit `p`,
/// counted from the highest of the first byte, is bit `p % width` of index
/// `p / width`, counted from the highest of its `width` bits.
pub proof fn wire_bit_by_bit(n: u32, k: u32, indices: Seq<u32>, width: int, p: int)
    requires
        indices.len() == 32,
        width == n as int / (k + 1) + 1,
        width <= 32,
        0 <= p < 32 * width,
    ensures
        wire_bytes(indices, index_width(n, k)).len() == 4 * width,
        (wire_bytes(indices, index_width(n, k))[p / 8] as int / vstd::arithmetic::power2::pow2(
            (7 - p % 8) as nat,
        ) as int) % 2 == (indices[p / width] as int / vstd::arithmetic::power2::pow2(
            (width - 1 - p % width) as nat,
        ) as int) % 2,
{
    assert(width >= 1) by {
        assert(n as int / (k + 1) >= 0) by (nonlinear_arith)
            requires
                n >= 0,
                k >= 0,
        ;
    }
    let bytes = wire_bytes(indices, width);
    assert(0 <= p % width < width && 0 <= p / width < 32) by (nonlinear_arith)
        requires
            1 <= width,
            0 <= p < 32 * width,
    ;
    wire_carries_the_bit_string(indices, width, p);
    lemma_byte_bit_is_quotient(bytes[p / 8], 7 - p % 8);
    lemma_bit_is_quotient(indices[p / width], width - 1 - p % width);
    assert(stream_bit(indices, width, p) == bit_of(indices[p / width], width - 1 - p % width));
}

} // verus!
