//! Scaling a little-endian byte buffer by the cofactor 8: a shift by three
//! bits across byte boundaries, in place, together with what the shift does
//! to the integer that the buffer encodes.

use vstd::arithmetic::div_mod::lemma_fundamental_div_mod_converse;
use vstd::arithmetic::power2::{lemma2_to64, lemma_pow2_adds, lemma_pow2_pos, pow2};
use vstd::prelude::*;

verus! {

/// The integer that a little-endian byte sequence encodes: index 0 is the
/// least significant byte.
pub open spec fn le_value(bytes: Seq<u8>) -> nat
    decreases bytes.len(),
{
    if bytes.len() == 0 {
        0
    } else {
        bytes[0] as nat + 256 * le_value(bytes.drop_first())
    }
}

/// One byte of a left shift by three bits: the low five bits of `b` move up,
/// and the top three bits of the byte below come in at the bottom.
pub open spec fn shl3_byte(b: u8, below: u8) -> u8 {
    (b << 3) | (below >> 5)
}

/// One byte of a right shift by three bits: the high five bits of `b` move
/// down, and the low three bits of the byte above come in at the top.
pub open spec fn shr3_byte(b: u8, above: u8) -> u8 {
    (b >> 3) | (above << 5)
}

/// The buffer shifted left by three bits, with the top three bits of `below`
/// entering at the least significant end. The three bits that leave the most
/// significant byte are dropped.
pub open spec fn shl3_bytes_from(x: Seq<u8>, below: u8) -> Seq<u8> {
    Seq::new(
        x.len(),
        |i: int|
            shl3_byte(
                x[i],
                if i == 0 {
                    below
                } else {
                    x[i - 1]
                },
            ),
    )
}

/// The buffer times 8: a truncating left shift by three bits.
pub open spec fn mul8_bytes(x: Seq<u8>) -> Seq<u8> {
    shl3_bytes_from(x, 0)
}

/// The buffer divided by 8: a right shift by three bits. The three bits that
/// leave the least significant byte are dropped.
pub open spec fn div8_bytes(x: Seq<u8>) -> Seq<u8> {
    Seq::new(
        x.len(),
        |i: int|
            shr3_byte(
                x[i],
                if i + 1 == x.len() {
                    0u8
                } else {
                    x[i + 1]
                },
            ),
    )
}

/// One byte of the left shift in arithmetic, and in the form in which the
/// loop computes it: the two parts share no bit, so their sum is their union.
proof fn lemma_shl3_byte_arith(b: u8, below: u8)
    ensures
        shl3_byte(b, below) == (b % 32) * 8 + below / 32,
        ((b << 3) | ((below & 0b1110_0000) >> 5)) == ((b << 3) + ((below & 0b1110_0000) >> 5)),
        ((b << 3) | ((below & 0b1110_0000) >> 5)) == shl3_byte(b, below),
{
    assert(((b << 3) | (below >> 5)) == (b % 32) * 8 + below / 32) by (bit_vector);
    assert(((b << 3) | ((below & 0b1110_0000) >> 5)) == ((b << 3) + ((below & 0b1110_0000) >> 5)))
        by (bit_vector);
    assert(((b << 3) | ((below & 0b1110_0000) >> 5)) == ((b << 3) | (below >> 5)))
        by (bit_vector);
}

/// One byte of the right shift in arithmetic, and in the form in which the
/// loop computes it: the two parts share no bit, so their sum is their union.
proof fn lemma_shr3_byte_arith(b: u8, above: u8)
    ensures
        shr3_byte(b, above) == b / 8 + (above % 8) * 32,
        ((b >> 3) | ((above & 0b0000_0111) << 5)) == ((b >> 3) + ((above & 0b0000_0111) << 5)),
        ((b >> 3) | ((above & 0b0000_0111) << 5)) == shr3_byte(b, above),
{
    assert(((b >> 3) | (above << 5)) == b / 8 + (above % 8) * 32) by (bit_vector);
    assert(((b >> 3) | ((above & 0b0000_0111) << 5)) == ((b >> 3) + ((above & 0b0000_0111) << 5)))
        by (bit_vector);
    assert(((b >> 3) | ((above & 0b0000_0111) << 5)) == ((b >> 3) | (above << 5)))
        by (bit_vector);
}

/// A sequence of `n` bytes encodes an integer below `2^(8n)`.
pub proof fn lemma_le_value_bound(x: Seq<u8>)
    ensures
        le_value(x) < pow2(8 * x.len()),
    decreases x.len(),
{
    lemma2_to64();
    if x.len() > 0 {
        lemma_le_value_bound(x.drop_first());
        lemma_pow2_adds(8, 8 * (x.len() - 1) as nat);
    }
}

/// Shifting right by three bits divides the encoded integer by 8, rounding
/// down: the low three bits of the first byte are the remainder.
pub proof fn lemma_div8_value(x: Seq<u8>)
    ensures
        x.len() > 0 ==> 8 * le_value(div8_bytes(x)) + x[0] % 8 == le_value(x),
        le_value(div8_bytes(x)) == le_value(x) / 8,
    decreases x.len(),
{
    if x.len() > 0 {
        let rest = x.drop_first();
        let above: u8 = if x.len() == 1 {
            0u8
        } else {
            x[1]
        };
        assert(div8_bytes(x).drop_first() =~= div8_bytes(rest));
        lemma_div8_value(rest);
        lemma_shr3_byte_arith(x[0], above);
    }
}

/// Shifting left by three bits multiplies the encoded integer by 8, up to
/// what enters at the bottom (the top three bits of `below`) and what leaves
/// at the top (the top three bits of the last byte).
pub proof fn lemma_shl3_value(x: Seq<u8>, below: u8)
    ensures
        le_value(shl3_bytes_from(x, below)) + (if x.len() == 0 {
            below
        } else {
            x.last()
        }) / 32 * pow2(8 * x.len()) == 8 * le_value(x) + below / 32,
    decreases x.len(),
{
    lemma2_to64();
    if x.len() == 0 {
        let carry: int = below as int / 32;
        let one: int = pow2(0) as int;
        assert(carry * one == carry) by (nonlinear_arith)
            requires
                one == 1,
        ;
    } else {
        let rest = x.drop_first();
        let shifted = shl3_bytes_from(x, below);
        let carry: int = x.last() as int / 32;
        let unit: int = pow2(8 * rest.len()) as int;
        let whole: int = pow2(8 * x.len()) as int;
        assert(shifted.drop_first() =~= shl3_bytes_from(rest, x[0]));
        lemma_shl3_value(rest, x[0]);
        lemma_shl3_byte_arith(x[0], below);
        lemma_pow2_adds(8, 8 * rest.len());
        assert(carry * whole == 256 * (carry * unit)) by (nonlinear_arith)
            requires
                whole == 256 * unit,
        ;
    }
}

/// Shifting left by three bits multiplies the encoded integer by 8 modulo
/// `2^(8n)`, where `n` is the number of bytes.
pub proof fn lemma_mul8_value(x: Seq<u8>)
    ensures
        le_value(mul8_bytes(x)) == (8 * le_value(x)) % pow2(8 * x.len()),
{
    let carry: int = if x.len() == 0 {
        0
    } else {
        x.last() as int / 32
    };
    lemma_shl3_value(x, 0);
    lemma_le_value_bound(mul8_bytes(x));
    lemma_pow2_pos(8 * x.len());
    lemma_fundamental_div_mod_converse(
        8 * le_value(x) as int,
        pow2(8 * x.len()) as int,
        carry,
        le_value(mul8_bytes(x)) as int,
    );
}

/// Two byte sequences of one length that encode the same integer are equal.
pub proof fn lemma_le_value_injective(a: Seq<u8>, b: Seq<u8>)
    requires
        a.len() == b.len(),
        le_value(a) == le_value(b),
    ensures
        a == b,
    decreases a.len(),
{
    if a.len() > 0 {
        lemma_le_value_injective(a.drop_first(), b.drop_first());
        assert(a =~= seq![a[0]] + a.drop_first());
        assert(b =~= seq![b[0]] + b.drop_first());
    } else {
        assert(a =~= b);
    }
}

/// The last byte is the most significant: it counts `2^(8(n-1))` each.
pub proof fn lemma_le_value_split_last(x: Seq<u8>)
    requires
        x.len() > 0,
    ensures
        le_value(x) == le_value(x.drop_last()) + x.last() * pow2(8 * (x.len() - 1) as nat),
    decreases x.len(),
{
    lemma2_to64();
    let top: int = x.last() as int;
    let rest = x.drop_first();
    if x.len() == 1 {
        let one: int = pow2(0) as int;
        assert(x.drop_last() =~= rest);
        assert(top * one == top) by (nonlinear_arith)
            requires
                one == 1,
        ;
    } else {
        let unit: int = pow2(8 * (rest.len() - 1) as nat) as int;
        let whole: int = pow2(8 * (x.len() - 1) as nat) as int;
        lemma_le_value_split_last(rest);
        assert(rest.drop_last() =~= x.drop_last().drop_first());
        lemma_pow2_adds(8, 8 * (rest.len() - 1) as nat);
        assert(top * whole == 256 * (top * unit)) by (nonlinear_arith)
            requires
                whole == 256 * unit,
        ;
    }
}

/// Multiplying by 8 and then dividing by 8 gives the buffer back exactly
/// when the top three bits of its last byte are zero.
pub proof fn lemma_divide_undoes_multiply(x: Seq<u8>)
    requires
        x.len() > 0,
    ensures
        div8_bytes(mul8_bytes(x)) == x <==> x.last() & 0b1110_0000 == 0,
{
    let n = x.len() as int;
    let back = div8_bytes(mul8_bytes(x));
    assert forall|i: int| 0 <= i < n - 1 implies back[i] == x[i] by {
        let b: u8 = x[i];
        let above: u8 = x[i + 1];
        let below: u8 = if i == 0 {
            0u8
        } else {
            x[i - 1]
        };
        assert(shr3_byte(shl3_byte(b, below), shl3_byte(above, b)) == b) by (bit_vector);
    }
    let top: u8 = x[n - 1];
    let below: u8 = if n == 1 {
        0u8
    } else {
        x[n - 2]
    };
    assert(shr3_byte(shl3_byte(top, below), 0) == top <==> top & 0b1110_0000 == 0)
        by (bit_vector);
    if top & 0b1110_0000 == 0 {
        assert(back =~= x);
    } else {
        assert(back[n - 1] != x[n - 1]);
    }
}

/// Dividing by 8 and then multiplying by 8 gives the buffer back exactly
/// when the bottom three bits of its first byte are zero.
pub proof fn lemma_multiply_undoes_divide(x: Seq<u8>)
    requires
        x.len() > 0,
    ensures
        mul8_bytes(div8_bytes(x)) == x <==> x[0] & 0b0000_0111 == 0,
{
    let n = x.len() as int;
    let back = mul8_bytes(div8_bytes(x));
    assert forall|i: int| 0 < i < n implies back[i] == x[i] by {
        let b: u8 = x[i];
        let below: u8 = x[i - 1];
        let above: u8 = if i + 1 == n {
            0u8
        } else {
            x[i + 1]
        };
        assert(shl3_byte(shr3_byte(b, above), shr3_byte(below, b)) == b) by (bit_vector);
    }
    let bottom: u8 = x[0];
    let above: u8 = if n == 1 {
        0u8
    } else {
        x[1]
    };
    assert(shl3_byte(shr3_byte(bottom, above), 0) == bottom <==> bottom & 0b0000_0111 == 0)
        by (bit_vector);
    if bottom & 0b0000_0111 == 0 {
        assert(back =~= x);
    } else {
        assert(back[0] != x[0]);
    }
}

/// Divides the 256-bit little-endian integer in `scalar` by 8, in place. The
/// remainder, the low three bits of the first byte, is dropped.
pub fn divide_scalar_bytes_by_cofactor(scalar: &mut [u8; 32])
    ensures
        final(scalar)@ == div8_bytes(old(scalar)@),
        le_value(final(scalar)@) == le_value(old(scalar)@) / 8,
{
    let ghost before = scalar@;
    let mut low: u8 = 0;
    let mut i: usize = 32;
    while i > 0
        invariant
            i <= 32,
            before.len() == 32,
            forall|j: int| 0 <= j < i ==> scalar@[j] == before[j],
            forall|j: int| i <= j < 32 ==> scalar@[j] == #[trigger] div8_bytes(before)[j],
            low == (if i == 32 {
                0u8
            } else {
                (before[i as int] & 0b0000_0111) << 5
            }),
        decreases i,
    {
        i = i - 1;
        let b: u8 = scalar[i];
        let r: u8 = b & 0b0000_0111;
        proof {
            let above: u8 = if i == 31 {
                0u8
            } else {
                before[i + 1]
            };
            lemma_shr3_byte_arith(b, above);
            assert((0u8 & 0b0000_0111) << 5 == 0u8) by (bit_vector);
        }
        scalar[i] = (b >> 3) + low;
        low = r << 5;
    }
    proof {
        assert(scalar@ =~= div8_bytes(before));
        lemma_div8_value(before);
    }
}

/// Multiplies the 256-bit little-endian integer in `scalar` by 8, in place.
/// The three bits that leave the last byte are dropped.
pub fn multiply_scalar_bytes_by_cofactor(scalar: &mut [u8; 32])
    ensures
        final(scalar)@ == mul8_bytes(old(scalar)@),
        le_value(final(scalar)@) == (le_value(old(scalar)@) * 8) % pow2(256),
{
    let ghost before = scalar@;
    let mut high: u8 = 0;
    let mut i: usize = 0;
    while i < 32
        invariant
            i <= 32,
            before.len() == 32,
            forall|j: int| i <= j < 32 ==> scalar@[j] == before[j],
            forall|j: int| 0 <= j < i ==> scalar@[j] == #[trigger] mul8_bytes(before)[j],
            high == (if i == 0 {
                0u8
            } else {
                (before[i - 1] & 0b1110_0000) >> 5
            }),
        decreases 32 - i,
    {
        let b: u8 = scalar[i];
        let r: u8 = b & 0b1110_0000;
        proof {
            let below: u8 = if i == 0 {
                0u8
            } else {
                before[i - 1]
            };
            lemma_shl3_byte_arith(b, below);
            assert((0u8 & 0b1110_0000) >> 5 == 0u8) by (bit_vector);
        }
        scalar[i] = (b << 3) + high;
        high = r >> 5;
        i = i + 1;
    }
    proof {
        assert(scalar@ =~= mul8_bytes(before));
        lemma_mul8_value(before);
    }
}

} // verus!
