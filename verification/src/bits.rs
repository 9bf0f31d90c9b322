//! Little-endian bit sequences.
//!
//! Both engines shuffle register values through the bridge one bit at a
//! time, least-significant bit first.  This module gives those bit
//! sequences a mathematical meaning (`bits_value`, `bits_of_u64`) and the
//! executable conversions the engines need, together with the lemmas that
//! tie a sequence back to the word it came from.

use vstd::arithmetic::div_mod::lemma_mod_breakdown;
use vstd::arithmetic::power2::{lemma2_to64, lemma_pow2_adds, lemma_pow2_pos, pow2};
use vstd::bits::{lemma_u64_low_bits_mask_is_mod, lemma_u64_shr_is_div, low_bits_mask};
use vstd::prelude::*;

verus! {

/// Bit `i` of a 64-bit word, LSB-first.
pub open spec fn bit64(v: u64, i: nat) -> bool {
    (v >> (i as u64)) & 1 == 1
}

/// The low `len` bits of `v`, LSB-first.
pub open spec fn bits_of_u64(v: u64, len: nat) -> Seq<bool> {
    Seq::new(len, |i: int| bit64(v, i as nat))
}

/// The unsigned value of an LSB-first bit sequence.
pub open spec fn bits_value(s: Seq<bool>) -> nat
    decreases s.len(),
{
    if s.len() == 0 {
        0
    } else {
        (if s[0] {
            1nat
        } else {
            0nat
        }) + 2 * bits_value(s.skip(1))
    }
}

/// A bit sequence's value is bounded by two to its length.
pub proof fn lemma_bits_value_bound(s: Seq<bool>)
    ensures
        bits_value(s) < pow2(s.len()),
    decreases s.len(),
{
    if s.len() == 0 {
        lemma2_to64();
    } else {
        lemma_bits_value_bound(s.skip(1));
        lemma_pow2_adds(1, (s.len() - 1) as nat);
        lemma2_to64();
    }
}

/// Reading back the low `len` bits of a word yields the word reduced
/// modulo two to the `len`.
pub proof fn lemma_bits_of_u64_value(v: u64, len: nat)
    requires
        len <= 64,
    ensures
        bits_value(bits_of_u64(v, len)) == (v as nat) % pow2(len),
    decreases len,
{
    if len == 0 {
        lemma2_to64();
        assert(v as nat % 1 == 0);
    } else {
        let half = v >> 1u64;
        assert(bits_of_u64(v, len).skip(1) =~= bits_of_u64(half, (len - 1) as nat)) by {
            assert forall|i: int| 0 <= i < len - 1 implies bit64(v, (i + 1) as nat) == #[trigger] bit64(
                half,
                i as nat,
            ) by {
                let iu = i as u64;
                assert((v >> ((iu + 1) as u64)) & 1 == ((v >> 1u64) >> iu) & 1) by (bit_vector)
                    requires
                        iu < 63,
                ;
            }
        }
        lemma_bits_of_u64_value(half, (len - 1) as nat);
        lemma_u64_shr_is_div(v, 1);
        lemma_pow2_pos((len - 1) as nat);
        lemma_mod_breakdown(v as int, 2, pow2((len - 1) as nat) as int);
        assert(pow2(len) == 2 * pow2((len - 1) as nat)) by {
            lemma_pow2_adds(1, (len - 1) as nat);
            lemma2_to64();
        }
        assert(bit64(v, 0) == (v as nat % 2 == 1)) by {
            assert((v >> 0u64) & 1 == v % 2) by (bit_vector);
        }
        assert(half as nat == v as nat / 2) by {
            lemma2_to64();
        }
        assert(bits_value(bits_of_u64(v, len)) == (if bit64(v, 0) {
            1nat
        } else {
            0nat
        }) + 2 * ((v as nat / 2) % pow2((len - 1) as nat)));
        assert((v as int) % (2 * pow2((len - 1) as nat) as int) == 2 * ((v as int / 2) % pow2(
            (len - 1) as nat,
        ) as int) + (v as int) % 2);
    }
}

/// Masking with the low `len`-bit mask is the same reduction.
pub proof fn lemma_bits_of_u64_masked(v: u64, len: nat)
    requires
        len <= 64,
    ensures
        bits_value(bits_of_u64(v, len)) == v & (low_bits_mask(len) as u64),
{
    lemma_bits_of_u64_value(v, len);
    if len < 64 {
        lemma_u64_low_bits_mask_is_mod(v, len);
        lemma_pow2_pos(len);
        assert(v % (pow2(len) as u64) == (v as nat) % pow2(len)) by {
            lemma2_to64();
            vstd::bits::lemma_u64_pow2_no_overflow(len);
        }
    } else {
        assert(low_bits_mask(64) == 0xffffffffffffffff) by {
            vstd::bits::lemma_low_bits_mask_values();
        }
        assert(v & 0xffffffffffffffffu64 == v) by (bit_vector);
        assert(pow2(64) == 0x10000000000000000) by {
            lemma2_to64();
            vstd::arithmetic::power2::lemma2_to64_rest();
        }
        assert((v as nat) % pow2(64) == v as nat) by {
            assert((v as nat) < 0x10000000000000000);
        }
    }
}

/// The word a captured bit sequence encodes, LSB-first.
pub fn load_le_u64(bits: &Vec<bool>) -> (r: u64)
    requires
        bits@.len() <= 64,
    ensures
        r as nat == bits_value(bits@),
{
    let ghost s = bits@;
    let mut acc: u64 = 0;
    let mut i: usize = bits.len();
    assert(s.skip(i as int) =~= Seq::<bool>::empty());
    while i > 0
        invariant
            i <= s.len() <= 64,
            bits@ == s,
            acc as nat == bits_value(s.skip(i as int)),
        decreases i,
    {
        i = i - 1;
        let b = bits[i];
        proof {
            let suffix = s.skip(i as int);
            assert(suffix[0] == s[i as int]);
            assert(suffix.skip(1) =~= s.skip(i as int + 1));
            lemma_bits_value_bound(suffix);
            assert(pow2(suffix.len()) <= pow2(64)) by {
                if suffix.len() < 64 {
                    vstd::arithmetic::power2::lemma_pow2_strictly_increases(suffix.len(), 64);
                }
            }
            assert(pow2(64) == 0x10000000000000000) by {
                lemma2_to64();
                vstd::arithmetic::power2::lemma2_to64_rest();
            }
        }
        acc = 2 * acc + (if b {
            1
        } else {
            0
        });
    }
    assert(s.skip(0) =~= s);
    acc
}

/// As `load_le_u64`, for sequences short enough to fit a `u32`.
pub fn load_le_u32(bits: &Vec<bool>) -> (r: u32)
    requires
        bits@.len() <= 32,
    ensures
        r as nat == bits_value(bits@),
{
    proof {
        lemma_bits_value_bound(bits@);
        assert(pow2(bits@.len()) <= pow2(32)) by {
            if bits@.len() < 32 {
                vstd::arithmetic::power2::lemma_pow2_strictly_increases(bits@.len(), 32);
            }
        }
        lemma2_to64();
    }
    load_le_u64(bits) as u32
}

/// How many of the low 32 bits of `v` are set, among the low `n`.
pub open spec fn popcount32(v: u32, n: nat) -> nat
    decreases n,
{
    if n == 0 {
        0
    } else {
        popcount32(v, (n - 1) as nat) + (if (v >> ((n - 1) as u32)) & 1 == 1 {
            1nat
        } else {
            0nat
        })
    }
}

/// The even/odd parity of a 32-bit word: its population count modulo two.
pub open spec fn parity32(v: u32) -> u8 {
    (popcount32(v, 32) % 2) as u8
}

/// At most `n` of the low `n` bits are set.
pub proof fn lemma_popcount32_bound(v: u32, n: nat)
    ensures
        popcount32(v, n) <= n,
    decreases n,
{
    if n > 0 {
        lemma_popcount32_bound(v, (n - 1) as nat);
    }
}

/// Counts the set bits of a 32-bit word.
pub fn popcount(v: u32) -> (r: u32)
    ensures
        r as nat == popcount32(v, 32),
{
    let mut count: u32 = 0;
    let mut i: u32 = 0;
    while i < 32
        invariant
            i <= 32,
            count as nat == popcount32(v, i as nat),
        decreases 32 - i,
    {
        proof {
            lemma_popcount32_bound(v, i as nat);
        }
        if (v >> i) & 1 == 1 {
            count = count + 1;
        }
        i = i + 1;
    }
    count
}

/// The parity byte of a 32-bit word.
pub fn compute_parity(v: u32) -> (r: u8)
    ensures
        r == parity32(v),
{
    proof {
        lemma_popcount32_bound(v, 32);
    }
    (popcount(v) % 2) as u8
}

/// The low byte of a 16-bit length, as it is sent on the wire.
pub open spec fn le16_lo(v: u16) -> u8 {
    (v & 0xFF) as u8
}

/// The high byte of a 16-bit length.
pub open spec fn le16_hi(v: u16) -> u8 {
    (v >> 8u16) as u8
}

/// The value a 4-byte little-endian group encodes.
pub open spec fn u32_from_le(b0: u8, b1: u8, b2: u8, b3: u8) -> u32 {
    b0 as u32 | (b1 as u32) << 8u32 | (b2 as u32) << 16u32 | (b3 as u32) << 24u32
}

} // verus!
