//! Bit-packing codec: merges a sequence of (value, bit-width) pairs into a
//! big-endian byte buffer of `ceil(total_bits / 8)` bytes, and splits such a
//! buffer back into values, most-significant field first.

use vstd::prelude::*;
use vstd::arithmetic::power2::{
    pow2, lemma_pow2_adds, lemma_pow2_pos, lemma_pow2_strictly_increases, lemma2_to64,
    lemma2_to64_rest,
};
use vstd::arithmetic::div_mod::{
    lemma_div_denominator, lemma_fundamental_div_mod, lemma_fundamental_div_mod_converse,
    lemma_small_mod,
};
use vstd::arithmetic::mul::{lemma_mul_inequality, lemma_mul_is_distributive_sub_other_way};
use vstd::bits::{
    low_bits_mask, lemma_u64_low_bits_mask_is_mod, lemma_u64_shl_is_mul, lemma_u64_shr_is_div,
};

verus! {

/// Value of a byte sequence read as one big-endian unsigned integer.
pub open spec fn be_bytes_value(s: Seq<u8>) -> nat
    decreases s.len(),
{
    if s.len() == 0 {
        0
    } else {
        be_bytes_value(s.drop_last()) * 256 + s.last() as nat
    }
}

/// Sum of a sequence of bit-widths.
pub open spec fn sum_bits(widths: Seq<u8>) -> nat
    decreases widths.len(),
{
    if widths.len() == 0 {
        0
    } else {
        sum_bits(widths.drop_last()) + widths.last() as nat
    }
}

/// The bit-widths declared by a sequence of (value, bit-width) pairs.
pub open spec fn widths_of(pairs: Seq<(u64, u8)>) -> Seq<u8> {
    pairs.map_values(|p: (u64, u8)| p.1)
}

/// Total number of bits declared by a sequence of (value, bit-width) pairs.
pub open spec fn total_bits(pairs: Seq<(u64, u8)>) -> nat {
    sum_bits(widths_of(pairs))
}

/// The merged integer: each value reduced modulo `2^width`, then concatenated
/// with the first pair in the most significant position.
pub open spec fn merged_value(pairs: Seq<(u64, u8)>) -> nat
    decreases pairs.len(),
{
    if pairs.len() == 0 {
        0
    } else {
        merged_value(pairs.drop_last()) * pow2(pairs.last().1 as nat) + (
        pairs.last().0 as nat) % pow2(pairs.last().1 as nat)
    }
}

/// Splits the integer `v` into one field per declared width, the last width
/// taken from the least significant bits.
pub open spec fn split_fields(v: nat, widths: Seq<u8>) -> Seq<(u64, u8)>
    decreases widths.len(),
{
    if widths.len() == 0 {
        Seq::empty()
    } else {
        split_fields(v / pow2(widths.last() as nat), widths.drop_last()).push(
            (((v % pow2(widths.last() as nat)) as u64), widths.last()),
        )
    }
}

/// The unique `len`-byte big-endian rendering of `v` (low bytes of `v` when
/// it does not fit).
pub open spec fn be_bytes_of(v: nat, len: nat) -> Seq<u8>
    decreases len,
{
    if len == 0 {
        Seq::empty()
    } else {
        be_bytes_of(v / 256, (len - 1) as nat).push((v % 256) as u8)
    }
}

proof fn lemma_be_bytes_of_value(s: Seq<u8>)
    ensures
        be_bytes_of(be_bytes_value(s), s.len()) =~= s,
    decreases s.len(),
{
    if s.len() > 0 {
        let v = be_bytes_value(s);
        lemma_fundamental_div_mod_converse(
            v as int,
            256,
            be_bytes_value(s.drop_last()) as int,
            s.last() as int,
        );
        lemma_be_bytes_of_value(s.drop_last());
    }
}

/// Each value reduced modulo `2^width`, widths kept.
pub open spec fn masked_pairs(pairs: Seq<(u64, u8)>) -> Seq<(u64, u8)> {
    pairs.map_values(|p: (u64, u8)| ((((p.0 as nat) % pow2(p.1 as nat)) as u64), p.1))
}

proof fn lemma_merged_value_bound(pairs: Seq<(u64, u8)>)
    ensures
        merged_value(pairs) < pow2(total_bits(pairs)),
    decreases pairs.len(),
{
    if pairs.len() == 0 {
        lemma2_to64();
    } else {
        let front = pairs.drop_last();
        let b = pairs.last().1 as nat;
        assert(widths_of(pairs).drop_last() =~= widths_of(front));
        assert(widths_of(pairs).last() == pairs.last().1);
        lemma_merged_value_bound(front);
        let m = merged_value(front);
        let tf = total_bits(front);
        lemma_pow2_pos(b);
        lemma_pow2_pos(tf);
        let r = (pairs.last().0 as nat) % pow2(b);
        assert(r < pow2(b)) by {
            lemma_pow2_pos(b);
        }
        assert(m * pow2(b) <= (pow2(tf) - 1) * pow2(b)) by {
            lemma_mul_inequality(m as int, pow2(tf) - 1, pow2(b) as int);
        }
        assert((pow2(tf) - 1) * pow2(b) == pow2(tf) * pow2(b) - pow2(b)) by {
            lemma_mul_is_distributive_sub_other_way(
                pow2(b) as int,
                pow2(tf) as int,
                1,
            );
        }
        lemma_pow2_adds(tf, b);
        assert(total_bits(pairs) == tf + b);
    }
}

proof fn lemma_be_bytes_value_bound(s: Seq<u8>)
    ensures
        be_bytes_value(s) < pow2(8 * s.len()),
    decreases s.len(),
{
    if s.len() == 0 {
        lemma2_to64();
    } else {
        let front = s.drop_last();
        lemma_be_bytes_value_bound(front);
        let m = be_bytes_value(front);
        let tf = 8 * front.len();
        lemma_pow2_pos(tf);
        assert(m * 256 <= (pow2(tf) - 1) * 256) by {
            lemma_mul_inequality(m as int, pow2(tf) - 1, 256);
        }
        assert((pow2(tf) - 1) * 256 == pow2(tf) * 256 - 256) by {
            lemma_mul_is_distributive_sub_other_way(256, pow2(tf) as int, 1);
        }
        lemma_pow2_adds(tf, 8);
        lemma2_to64();
        assert(8 * s.len() == tf + 8);
    }
}

/// A single declared width never exceeds the sum of all declared widths.
proof fn lemma_sum_bits_element(widths: Seq<u8>, i: int)
    requires
        0 <= i < widths.len(),
    ensures
        widths[i] <= sum_bits(widths),
    decreases widths.len(),
{
    if i == widths.len() - 1 {
    } else {
        lemma_sum_bits_element(widths.drop_last(), i);
    }
}

/// Splitting the merged integer by the declared widths recovers every pair,
/// each value reduced modulo `2^width`.
proof fn lemma_split_of_merged(pairs: Seq<(u64, u8)>)
    requires
        total_bits(pairs) <= 64,
    ensures
        split_fields(merged_value(pairs), widths_of(pairs)) =~= masked_pairs(pairs),
    decreases pairs.len(),
{
    if pairs.len() == 0 {
        assert(widths_of(pairs) =~= Seq::<u8>::empty());
    } else {
        let front = pairs.drop_last();
        let b = pairs.last().1 as nat;
        assert(widths_of(pairs).drop_last() =~= widths_of(front));
        assert(widths_of(pairs).last() == pairs.last().1);
        let m = merged_value(front);
        let r = (pairs.last().0 as nat) % pow2(b);
        let v = merged_value(pairs);
        lemma_pow2_pos(b);
        assert(r < pow2(b));
        assert(v == m * pow2(b) + r);
        lemma_fundamental_div_mod_converse(v as int, pow2(b) as int, m as int, r as int);
        assert(v / pow2(b) == m);
        assert(v % pow2(b) == r);
        assert(total_bits(front) <= 64);
        lemma_split_of_merged(front);
        assert(split_fields(v, widths_of(pairs)) == split_fields(m, widths_of(front)).push(
            ((r as u64), pairs.last().1),
        ));
        assert(masked_pairs(pairs) =~= masked_pairs(front).push(((r as u64), pairs.last().1)));
    }
}

/// Codec round trip: splitting the merged integer of any pair sequence whose
/// values fit their declared widths, and whose widths sum to at most 64 bits,
/// yields the sequence itself. Together with the contracts of `pack_data`,
/// `vec_to_u64` and `unpack_data` this states that unpacking a packed buffer
/// returns the same (value, bit-width) pairs.
pub proof fn lemma_codec_round_trip(pairs: Seq<(u64, u8)>)
    requires
        total_bits(pairs) <= 64,
        forall|i: int|
            0 <= i < pairs.len() ==> (#[trigger] pairs[i].0 as nat) < pow2(pairs[i].1 as nat),
    ensures
        split_fields(merged_value(pairs), widths_of(pairs)) == pairs,
{
    lemma_split_of_merged(pairs);
    assert(masked_pairs(pairs) =~= pairs) by {
        assert forall|i: int| 0 <= i < pairs.len() implies masked_pairs(pairs)[i] == pairs[i] by {
            lemma_small_mod(pairs[i].0 as nat, pow2(pairs[i].1 as nat));
        }
    }
}

/// Reads up to eight bytes as one big-endian unsigned 64-bit integer.
pub fn vec_to_u64(v: &Vec<u8>) -> (r: u64)
    requires
        v@.len() <= 8,
    ensures
        r as nat == be_bytes_value(v@),
{
    let mut res: u64 = 0;
    let n = v.len();
    proof {
        lemma2_to64();
        assert(pow2(0) == 1);
    }
    for i in 0..n
        invariant
            n == v@.len() <= 8,
            res as nat == be_bytes_value(v@.take(i as int)),
            res < pow2(8 * i as nat),
    {
        proof {
            lemma_be_bytes_value_bound(v@.take(i as int));
            lemma2_to64();
            lemma2_to64_rest();
            lemma_pow2_strictly_increases(8 * i as nat, 64);
            // res * 256 stays below 2^64
            lemma_mul_inequality(res as int, pow2(8 * i as nat) - 1, 256);
            lemma_mul_is_distributive_sub_other_way(256, pow2(8 * i as nat) as int, 1);
            lemma_pow2_adds(8 * i as nat, 8);
            if 8 * i as nat + 8 < 64 {
                lemma_pow2_strictly_increases(8 * i as nat + 8, 64);
            }
            lemma_u64_shl_is_mul(res, 8);
        }
        let b: u64 = v[i] as u64;
        let shifted: u64 = res << 8u64;
        assert(shifted & 0xFF == 0) by (bit_vector)
            requires
                shifted == res << 8u64,
        ;
        assert(shifted | b == shifted + b) by (bit_vector)
            requires
                shifted & 0xFF == 0,
                b < 0x100,
        ;
        res = shifted | b;
        proof {
            assert(v@.take(i + 1).drop_last() =~= v@.take(i as int));
            assert(v@.take(i + 1).last() == v@[i as int]);
        }
    }
    proof {
        assert(v@.take(n as int) =~= v@);
    }
    res
}

/// Packs (value, bit-width) pairs into the smallest big-endian byte buffer
/// that holds their concatenation: each value is reduced modulo `2^width`,
/// the widths must sum to at most 64 bits.
pub fn pack_data(vec: &Vec<(u64, u8)>) -> (r: Vec<u8>)
    requires
        total_bits(vec@) <= 64,
    ensures
        r@.len() == (total_bits(vec@) + 7) / 8,
        be_bytes_value(r@) == merged_value(vec@),
        r@ == be_bytes_of(merged_value(vec@), (total_bits(vec@) + 7) / 8),
{
    let mut merged: u64 = 0;
    let mut total: u32 = 0;
    let n = vec.len();
    for i in 0..n
        invariant
            n == vec@.len(),
            total_bits(vec@) <= 64,
            total as nat == total_bits(vec@.take(i as int)),
            total <= 64,
            merged as nat == merged_value(vec@.take(i as int)),
    {
        let (data, bits) = vec[i];
        proof {
            assert(vec@.take(i + 1).drop_last() =~= vec@.take(i as int));
            assert(vec@.take(i + 1).last() == vec@[i as int]);
            assert(widths_of(vec@.take(i + 1)).drop_last() =~= widths_of(vec@.take(i as int)));
            assert(widths_of(vec@.take(i + 1)).last() == bits);
            assert(total_bits(vec@.take(i + 1)) == total_bits(vec@.take(i as int)) + bits);
            lemma_total_bits_take_le(vec@, i + 1);
            lemma_merged_value_bound(vec@.take(i as int));
        }
        let masked: u64 = mask_to_width(data, bits);
        if bits == 64 {
            proof {
                lemma2_to64();
                assert(pow2(0) == 1);
                assert(merged == 0);
            }
            merged = masked;
        } else {
            proof {
                lemma_pow2_strictly_increases(bits as nat, 64);
                lemma_pow2_adds((64 - bits) as nat, bits as nat);
                lemma2_to64();
                lemma2_to64_rest();
                if total + bits < 64 {
                    lemma_pow2_strictly_increases(total as nat, (64 - bits) as nat);
                }
                // merged * 2^bits fits in a u64
                lemma_mul_inequality(
                    merged as int,
                    pow2((64 - bits) as nat) - 1,
                    pow2(bits as nat) as int,
                );
                lemma_mul_is_distributive_sub_other_way(
                    pow2(bits as nat) as int,
                    pow2((64 - bits) as nat) as int,
                    1,
                );
                lemma_u64_shl_is_mul(merged, bits as u64);
                lemma_pow2_pos(bits as nat);
                lemma_u64_shl_is_mul(1u64, bits as u64);
                assert(1u64 << (bits as u64) == pow2(bits as nat));
            }
            let shifted: u64 = merged << (bits as u64);
            assert(shifted | masked == shifted + masked) by (bit_vector)
                requires
                    bits < 64,
                    shifted == merged << (bits as u64),
                    masked < (1u64 << (bits as u64)),
            ;
            merged = shifted | masked;
        }
        total = total + bits as u32;
    }
    proof {
        assert(vec@.take(n as int) =~= vec@);
    }
    let total_bytes: usize = ((total + 7) / 8) as usize;
    let ghost orig: nat = merged as nat;
    proof {
        lemma_merged_value_bound(vec@);
        if total < 8 * total_bytes {
            lemma_pow2_strictly_increases(total as nat, (8 * total_bytes) as nat);
        }
        lemma_pow2_pos((8 * total_bytes) as nat);
        lemma_div_big_is_zero(orig, pow2((8 * total_bytes) as nat));
    }
    let mut res: Vec<u8> = Vec::new();
    let mut j: usize = 0;
    while j < total_bytes
        invariant
            total_bytes <= 8,
            total <= 64,
            orig == merged as nat,
            orig == merged_value(vec@),
            orig < pow2((8 * total_bytes) as nat),
            j <= total_bytes,
            res@.len() == j,
            be_bytes_value(res@) == orig / pow2((8 * (total_bytes - j)) as nat),
        decreases total_bytes - j,
    {
        let sh: u64 = (8 * (total_bytes - 1 - j)) as u64;
        let ghost d: nat = (8 * (total_bytes - 1 - j)) as nat;
        proof {
            lemma_u64_shr_is_div(merged, sh);
            lemma_u64_low_bits_mask_is_mod(merged >> sh, 8);
            vstd::bits::lemma_low_bits_mask_values();
            lemma2_to64();
            // step the running big-endian value by one byte
            lemma_pow2_pos(d);
            lemma_pow2_adds(d, 8);
            lemma_div_denominator(orig as int, pow2(d) as int, 256);
            lemma_fundamental_div_mod(orig as int / pow2(d) as int, 256);
        }
        let byte: u8 = ((merged >> sh) & 0xFF) as u8;
        proof {
            assert(byte as nat == (orig / pow2(d)) % 256);
            assert((orig / pow2(d)) / 256 == orig / pow2(d + 8));
            assert((8 * (total_bytes - j)) as nat == d + 8);
            assert(res@.push(byte).drop_last() =~= res@);
            assert(res@.push(byte).last() == byte);
            assert(be_bytes_value(res@.push(byte)) == be_bytes_value(res@) * 256 + byte as nat);
        }
        res.push(byte);
        j = j + 1;
    }
    proof {
        lemma2_to64();
        assert(pow2(0) == 1);
        vstd::arithmetic::div_mod::lemma_div_basics(orig as int);
        lemma_be_bytes_of_value(res@);
    }
    res
}

/// Reduces a value to its low `bits` bits (`bits` at most 64).
fn mask_to_width(data: u64, bits: u8) -> (r: u64)
    requires
        bits <= 64,
    ensures
        r as nat == (data as nat) % pow2(bits as nat),
        r <= data,
{
    if bits == 64 {
        proof {
            lemma2_to64_rest();
            lemma_small_mod(data as nat, pow2(64));
        }
        data
    } else {
        proof {
            lemma_pow2_strictly_increases(bits as nat, 64);
            lemma2_to64();
            lemma2_to64_rest();
            lemma_u64_shl_is_mul(1u64, bits as u64);
            lemma_u64_low_bits_mask_is_mod(data, bits as nat);
            assert(low_bits_mask(bits as nat) == (pow2(bits as nat) - 1) as nat);
        }
        let m: u64 = (1u64 << (bits as u64)) - 1;
        assert(data & m <= data) by (bit_vector);
        proof {
            lemma_pow2_pos(bits as nat);
            assert((data & m) as nat == (data as nat) % pow2(bits as nat));
        }
        data & m
    }
}

proof fn lemma_total_bits_take_le(s: Seq<(u64, u8)>, i: int)
    requires
        0 <= i <= s.len(),
    ensures
        total_bits(s.take(i)) <= total_bits(s),
    decreases s.len() - i,
{
    if i == s.len() {
        assert(s.take(i) =~= s);
    } else {
        lemma_total_bits_take_le(s, i + 1);
        assert(s.take(i + 1).drop_last() =~= s.take(i));
        assert(widths_of(s.take(i + 1)).drop_last() =~= widths_of(s.take(i)));
        assert(total_bits(s.take(i + 1)) == total_bits(s.take(i)) + s[i].1);
    }
}

/// Splits a big-endian byte buffer into one (value, bit-width) pair per
/// declared width, most significant field first; the widths must sum to at
/// most 64 bits and the buffer must fit one 64-bit integer.
pub fn unpack_data(vec: &Vec<u8>, bits: &Vec<u8>) -> (r: Vec<(u64, u8)>)
    requires
        vec@.len() <= 8,
        sum_bits(bits@) <= 64,
    ensures
        r@ == split_fields(be_bytes_value(vec@), bits@),
{
    let mut data: u64 = vec_to_u64(vec);
    let ghost big_v: nat = data as nat;
    let len = bits.len();
    let mut rev: Vec<(u64, u8)> = Vec::new();
    let mut k: usize = 0;
    let ghost mut processed: nat = 0;
    proof {
        lemma_be_bytes_value_bound(vec@);
        lemma2_to64();
        lemma2_to64_rest();
        if 8 * vec@.len() < 64 {
            lemma_pow2_strictly_increases(8 * vec@.len(), 64);
        }
        assert(pow2(0) == 1);
        vstd::arithmetic::div_mod::lemma_div_basics(big_v as int);
        assert(bits@.take(len as int) =~= bits@);
        assert(rev@.reverse() =~= Seq::<(u64, u8)>::empty());
        assert(split_fields(big_v, bits@.take(len as int)) + rev@.reverse() =~= split_fields(
            big_v,
            bits@,
        ));
    }
    while k < len
        invariant
            len == bits@.len(),
            sum_bits(bits@) <= 64,
            k <= len,
            rev@.len() == k,
            processed == sum_bits(bits@) - sum_bits(bits@.take((len - k) as int)),
            data as nat == big_v / pow2(processed),
            big_v < pow2(64),
            split_fields(big_v, bits@) =~= split_fields(data as nat, bits@.take((len - k) as int))
                + rev@.reverse(),
        decreases len - k,
    {
        let idx = len - 1 - k;
        let b: u8 = bits[idx];
        proof {
            lemma_sum_bits_element(bits@, idx as int);
            lemma_suffix_sum_step(bits@, (idx + 1) as int);
            assert(bits@.take(idx + 1).drop_last() =~= bits@.take(idx as int));
            assert(bits@.take(idx + 1).last() == b);
            assert(sum_bits(bits@.take(idx + 1)) == sum_bits(bits@.take(idx as int)) + b);
        }
        let t: u64 = mask_to_width(data, b);
        let next: u64;
        if b == 64 {
            proof {
                lemma2_to64_rest();
                lemma_div_big_is_zero(data as nat, pow2(64));
            }
            next = 0;
        } else {
            proof {
                lemma_u64_shr_is_div(data, b as u64);
            }
            next = data >> (b as u64);
        }
        proof {
            // dividing twice is dividing by the product of the powers
            lemma_pow2_pos(processed);
            lemma_pow2_pos(b as nat);
            lemma_div_denominator(big_v as int, pow2(processed) as int, pow2(b as nat) as int);
            lemma_pow2_adds(processed, b as nat);
            let m = (len - k) as int;
            assert(split_fields(data as nat, bits@.take(m)) == split_fields(
                next as nat,
                bits@.take(m - 1),
            ).push((t, b)));
            assert((split_fields(next as nat, bits@.take(m - 1)).push((t, b)))
                + rev@.reverse() =~= split_fields(next as nat, bits@.take(m - 1))
                + rev@.push((t, b)).reverse());
            processed = processed + b as nat;
        }
        rev.push((t, b));
        data = next;
        k = k + 1;
    }
    proof {
        assert(bits@.take(0) =~= Seq::<u8>::empty());
        assert(split_fields(big_v, bits@) =~= rev@.reverse());
    }
    let mut res: Vec<(u64, u8)> = Vec::new();
    let mut i: usize = 0;
    while i < len
        invariant
            len == rev@.len(),
            i <= len,
            res@.len() == i,
            res@ =~= rev@.reverse().take(i as int),
        decreases len - i,
    {
        res.push(rev[len - 1 - i]);
        i = i + 1;
    }
    proof {
        assert(res@ =~= rev@.reverse());
        assert(res@ =~= split_fields(be_bytes_value(vec@), bits@));
    }
    res
}

proof fn lemma_div_big_is_zero(x: nat, d: nat)
    requires
        0 < d,
        x < d,
    ensures
        x / d == 0,
{
    lemma_small_mod(x, d);
    lemma_fundamental_div_mod(x as int, d as int);
    assert(x == d * (x / d) + x % d);
    if x / d > 0 {
        lemma_mul_inequality(1, (x / d) as int, d as int);
        assert(d * (x / d) >= d) by (nonlinear_arith)
            requires
                x / d >= 1,
                d > 0,
        ;
    }
}

/// One peeling step of the running suffix sum used while unpacking.
proof fn lemma_suffix_sum_step(widths: Seq<u8>, m: int)
    requires
        0 < m <= widths.len(),
    ensures
        sum_bits(widths) - sum_bits(widths.take(m)) + widths[m - 1] == sum_bits(widths) - sum_bits(
            widths.take(m - 1),
        ),
        sum_bits(widths.take(m)) <= sum_bits(widths),
    decreases widths.len() - m,
{
    assert(widths.take(m).drop_last() =~= widths.take(m - 1));
    assert(widths.take(m).last() == widths[m - 1]);
    if m == widths.len() {
        assert(widths.take(m) =~= widths);
    } else {
        lemma_suffix_sum_step(widths, m + 1);
    }
}

} // verus!
