//! The wire codec for field elements.
//!
//! A value is multiplied into Montgomery form, rendered as a fixed-width
//! big-endian byte block, the bytes of each half-word limb are reversed, and
//! the two limbs are swapped.  Both transforms must be applied, in this
//! order, for interoperability with the numeric runtime that consumes the
//! bytes.  Decoding applies the inverse transforms and multiplies by the
//! inverse Montgomery constant.

use vstd::prelude::*;

verus! {

use crate::error::Error;
use crate::field::{mul_mod, P, R, R_INV};
use crate::field::lemma_r_r_inv;
use vstd::arithmetic::div_mod::{
    lemma_small_mod, lemma_breakdown, lemma_div_denominator, lemma_fundamental_div_mod_converse,
    lemma_mul_mod_noop_left, lemma_mul_mod_noop_right,
};
use vstd::arithmetic::mul::{
    lemma_mul_is_commutative, lemma_mul_is_associative, lemma_mul_inequality,
};

/// The number of bytes in one half-word limb.
pub const LIMB_WIDTH: usize = 8;

/// The number of bytes in one encoded field element.
pub const WORD_WIDTH: usize = 16;

/// `256^k`: the number of values a `k`-byte block can hold.
pub open spec fn pow256(k: nat) -> int
    decreases k,
{
    if k == 0 {
        1
    } else {
        256 * pow256((k - 1) as nat)
    }
}

/// The value of a byte block read in big-endian order.
pub open spec fn be_val(s: Seq<u8>) -> int
    decreases s.len(),
{
    if s.len() == 0 {
        0
    } else {
        s[0] * pow256((s.len() - 1) as nat) + be_val(s.drop_first())
    }
}

/// The value of a byte block read in little-endian order, which is what the
/// two limb transforms together make of a big-endian block.
pub open spec fn le_val(s: Seq<u8>) -> int {
    be_val(s.reverse())
}

pub proof fn lemma_pow256_pos(k: nat)
    ensures
        pow256(k) >= 1,
    decreases k,
{
    if k > 0 {
        lemma_pow256_pos((k - 1) as nat);
    }
}

pub proof fn lemma_pow256_vals()
    ensures
        pow256(15) == 1329227995784915872903807060280344576int,
        pow256(16) == 340282366920938463463374607431768211456int,
{
    assert(pow256(0) == 1int);
    assert(pow256(1) == 256int);
    assert(pow256(2) == 65536int);
    assert(pow256(3) == 16777216int);
    assert(pow256(4) == 4294967296int);
    assert(pow256(5) == 1099511627776int);
    assert(pow256(6) == 281474976710656int);
    assert(pow256(7) == 72057594037927936int);
    assert(pow256(8) == 18446744073709551616int);
    assert(pow256(9) == 4722366482869645213696int);
    assert(pow256(10) == 1208925819614629174706176int);
    assert(pow256(11) == 309485009821345068724781056int);
    assert(pow256(12) == 79228162514264337593543950336int);
    assert(pow256(13) == 20282409603651670423947251286016int);
    assert(pow256(14) == 5192296858534827628530496329220096int);
    assert(pow256(15) == 1329227995784915872903807060280344576int);
    assert(pow256(16) == 340282366920938463463374607431768211456int);
}

pub proof fn lemma_pow256_mono(i: nat, j: nat)
    requires
        i <= j,
    ensures
        pow256(i) <= pow256(j),
    decreases j,
{
    if i < j {
        lemma_pow256_mono(i, (j - 1) as nat);
        lemma_pow256_pos((j - 1) as nat);
    }
}

/// A byte block's value is bounded by the capacity of its width.
pub proof fn lemma_be_val_bound(s: Seq<u8>)
    ensures
        0 <= be_val(s) < pow256(s.len()),
    decreases s.len(),
{
    if s.len() == 0 {
    } else {
        let tail = s.drop_first();
        let p = pow256((s.len() - 1) as nat);
        lemma_be_val_bound(tail);
        lemma_pow256_pos((s.len() - 1) as nat);
        assert(0 <= s[0] * p && s[0] * p <= 255 * p) by (nonlinear_arith)
            requires
                0 <= s[0] <= 255,
                p >= 1,
        ;
        assert(255 * p + (p - 1) < 256 * p);
    }
}

/// Appending a byte multiplies the block's value by 256 and adds the byte.
pub proof fn lemma_be_val_snoc(s: Seq<u8>, b: u8)
    ensures
        be_val(s.push(b)) == 256 * be_val(s) + b,
    decreases s.len(),
{
    if s.len() == 0 {
        assert(s.push(b).drop_first() =~= Seq::<u8>::empty());
        assert(s.push(b)[0] == b);
        assert(pow256(0) == 1);
        assert(be_val(Seq::<u8>::empty()) == 0);
        assert(be_val(s.push(b)) == b as int * 1int + 0int);
        assert(b as int * 1int == b as int) by (nonlinear_arith);
    } else {
        let n = s.len();
        lemma_be_val_snoc(s.drop_first(), b);
        assert(s.push(b).drop_first() =~= s.drop_first().push(b));
        assert(s.push(b)[0] == s[0]);
        assert(be_val(s.push(b)) == s[0] * pow256(n) + be_val(s.drop_first().push(b)));
        assert(be_val(s) == s[0] * pow256((n - 1) as nat) + be_val(s.drop_first()));
        assert(pow256(n) == 256 * pow256((n - 1) as nat));
        assert(s[0] * pow256(n) == 256 * (s[0] * pow256((n - 1) as nat))) by (nonlinear_arith)
            requires
                pow256(n) == 256 * pow256((n - 1) as nat),
        ;
    }
}

/// The big-endian digits of a value, as a function of the value.
pub open spec fn be_bytes(v: int, n: nat) -> Seq<u8>
    decreases n,
{
    if n == 0 {
        Seq::empty()
    } else {
        seq![((v / pow256((n - 1) as nat)) % 256) as u8] + be_bytes(
            v % pow256((n - 1) as nat),
            (n - 1) as nat,
        )
    }
}

/// Reversing twice gives the sequence back.
pub proof fn lemma_reverse_involution(s: Seq<u8>)
    ensures
        s.reverse().reverse() == s,
{
    assert(s.reverse().reverse() =~= s);
}

/// A block is determined by its width and its big-endian value.
pub proof fn lemma_be_bytes_unique(s: Seq<u8>, v: int, n: nat)
    requires
        s.len() == n,
        be_val(s) == v,
        0 <= v < pow256(n),
    ensures
        s == be_bytes(v, n),
    decreases n,
{
    if n == 0 {
        assert(s =~= be_bytes(v, 0));
    } else {
        let p = pow256((n - 1) as nat);
        lemma_pow256_pos((n - 1) as nat);
        let tail = s.drop_first();
        lemma_be_val_bound(tail);
        assert(v == s[0] * p + be_val(tail));
        lemma_fundamental_div_mod_converse(v, p, s[0] as int, be_val(tail));
        assert(s[0] * p < pow256(n));
        assert((s[0] as int) < 256) by (nonlinear_arith)
            requires
                s[0] * p < 256 * p,
                p >= 1,
        ;
        lemma_small_mod(s[0] as nat, 256);
        lemma_be_bytes_unique(tail, v % p, (n - 1) as nat);
        assert(s =~= be_bytes(v, n));
    }
}

/// Reading the big-endian digits of a value gives the value back.
pub proof fn lemma_be_val_of_be_bytes(v: int, n: nat)
    requires
        0 <= v < pow256(n),
    ensures
        be_bytes(v, n).len() == n,
        be_val(be_bytes(v, n)) == v,
    decreases n,
{
    if n == 0 {
    } else {
        let p = pow256((n - 1) as nat);
        lemma_pow256_pos((n - 1) as nat);
        vstd::arithmetic::div_mod::lemma_fundamental_div_mod(v, p);
        assert((v / p) < 256) by (nonlinear_arith)
            requires
                v < 256 * p,
                p >= 1,
                v >= 0,
                v == p * (v / p) + v % p,
                0 <= v % p < p,
        ;
        vstd::arithmetic::div_mod::lemma_div_pos_is_pos(v, p);
        lemma_small_mod((v / p) as nat, 256);
        lemma_be_val_of_be_bytes(v % p, (n - 1) as nat);
        let s = be_bytes(v, n);
        assert(s[0] == ((v / p) % 256) as u8);
        assert(s.drop_first() =~= be_bytes(v % p, (n - 1) as nat));
        assert(be_val(s) == (v / p) * p + (v % p));
        lemma_mul_is_commutative(v / p, p);
    }
}

/// Render a value as a 16-byte big-endian block.
pub fn u128_to_be_bytes(value: u128) -> (out: Vec<u8>)
    ensures
        out@.len() == 16,
        be_val(out@) == value as int,
        out@ == be_bytes(value as int, 16),
{
    let mut out: Vec<u8> = vec![0u8; 16];
    let mut v: u128 = value;
    let mut i: usize = 0;
    proof {
        assert(value as int * 1int == value as int) by (nonlinear_arith);
        lemma_fundamental_div_mod_converse(value as int, 1int, value as int, 0int);
        assert(out@.subrange(16 - 0, 16) =~= Seq::<u8>::empty());
    }
    while i < 16
        invariant
            out@.len() == 16,
            i <= 16,
            v as int == value as int / pow256(i as nat),
            be_val(out@.subrange(16 - i as int, 16)) == value as int % pow256(i as nat),
        decreases 16 - i,
    {
        let ghost i0 = i as nat;
        let ghost v0 = v as int;
        let ghost suffix0 = out@.subrange(16 - i as int, 16);
        let d: u8 = (v % 256) as u8;
        out[15 - i] = d;
        v = v / 256;
        i = i + 1;
        proof {
            lemma_pow256_pos(i0);
            let p = pow256(i0);
            let suffix1 = out@.subrange(16 - i as int, 16);
            assert(suffix1[0] == d);
            assert(suffix1.drop_first() =~= suffix0);
            assert(be_val(suffix1) == d * p + be_val(suffix0));
            lemma_breakdown(value as int, p, 256);
            assert(value as int % (p * 256) == p * ((value as int / p) % 256) + value as int % p);
            assert(d as int == (value as int / p) % 256);
            assert(pow256(i as nat) == 256 * p);
            lemma_mul_is_commutative(p, 256);
            lemma_mul_is_commutative(d as int, p);
            lemma_div_denominator(value as int, p, 256);
            assert(v as int == value as int / pow256(i as nat));
        }
    }
    proof {
        assert(out@.subrange(0, 16) =~= out@);
        lemma_pow256_vals();
        lemma_small_mod(value as nat, pow256(16) as nat);
        lemma_be_bytes_unique(out@, value as int, 16);
    }
    out
}

/// Read a 16-byte big-endian block back into a value.
pub fn be_bytes_to_u128(bytes: &Vec<u8>) -> (v: u128)
    requires
        bytes@.len() == 16,
    ensures
        v as int == be_val(bytes@),
{
    let mut acc: u128 = 0;
    let mut i: usize = 0;
    proof {
        assert(bytes@.subrange(0, 0) =~= Seq::<u8>::empty());
    }
    while i < 16
        invariant
            bytes@.len() == 16,
            i <= 16,
            acc as int == be_val(bytes@.subrange(0, i as int)),
            (acc as int) < pow256(i as nat),
        decreases 16 - i,
    {
        let ghost prefix0 = bytes@.subrange(0, i as int);
        let b = bytes[i];
        proof {
            lemma_pow256_vals();
            lemma_pow256_mono(i as nat, 15);
            lemma_mul_inequality(acc as int, pow256(15) - 1, 256);
            assert((pow256(15) - 1) * 256 + 255 < pow256(16)) by (nonlinear_arith)
                requires
                    pow256(16) == 256 * pow256(15),
            ;
            assert(acc as int * 256 + b <= (pow256(15) - 1) * 256 + 255);
        }
        acc = acc * 256 + (b as u128);
        i = i + 1;
        proof {
            assert(bytes@.subrange(0, i as int) =~= prefix0.push(b));
            lemma_be_val_snoc(prefix0, b);
            assert((acc as int) < pow256(i as nat)) by (nonlinear_arith)
                requires
                    acc as int == 256 * be_val(prefix0) + b,
                    b < 256,
                    be_val(prefix0) < pow256((i - 1) as nat),
                    pow256(i as nat) == 256 * pow256((i - 1) as nat),
            ;
        }
    }
    proof {
        assert(bytes@.subrange(0, 16) =~= bytes@);
    }
    acc
}

/// Copy `length` bytes of `src`, starting at `src_pos`, over the bytes of
/// `dest` starting at `dest_pos`.
pub fn array_copy(src: &Vec<u8>, src_pos: usize, dest: &mut Vec<u8>, dest_pos: usize, length: usize)
    requires
        src_pos + length <= src@.len(),
        dest_pos + length <= old(dest)@.len(),
    ensures
        final(dest)@.len() == old(dest)@.len(),
        forall|j: int|
            dest_pos <= j < dest_pos + length ==> final(dest)@[j] == src@[j - dest_pos + src_pos],
        forall|j: int|
            0 <= j < old(dest)@.len() && !(dest_pos <= j < dest_pos + length) ==> final(dest)@[j]
                == old(dest)@[j],
{
    let src_len = src.len();
    let dest_len = dest.len();
    let mut k: usize = 0;
    while k < length
        invariant
            src@.len() == src_len,
            dest@.len() == dest_len,
            src_pos + length <= src@.len(),
            dest_pos + length <= dest@.len(),
            dest@.len() == old(dest)@.len(),
            k <= length,
            forall|j: int| dest_pos <= j < dest_pos + k ==> dest@[j] == src@[j - dest_pos + src_pos],
            forall|j: int|
                0 <= j < dest@.len() && !(dest_pos <= j < dest_pos + k) ==> dest@[j] == old(
                    dest,
                )@[j],
        decreases length - k,
    {
        dest[dest_pos + k] = src[src_pos + k];
        k = k + 1;
    }
}

/// Reverse the byte order within each of the two 8-byte limbs.
pub fn invert_limb_endianness(input: &Vec<u8>) -> (out: Vec<u8>)
    requires
        input@.len() == 16,
    ensures
        out@.len() == 16,
        forall|j: int| 0 <= j < 16 ==> out@[j] == input@[8 * (j / 8) + 7 - (j % 8)],
{
    let mut out: Vec<u8> = vec![0u8; 16];
    let mut j: usize = 0;
    while j < 16
        invariant
            input@.len() == 16,
            out@.len() == 16,
            j <= 16,
            forall|k: int| 0 <= k < j ==> out@[k] == input@[8 * (k / 8) + 7 - (k % 8)],
        decreases 16 - j,
    {
        let src = 8 * (j / 8) + 7 - (j % 8);
        out[j] = input[src];
        j = j + 1;
    }
    out
}

/// Swap the two 8-byte limbs of a 16-byte block.
pub fn swap_limbs(input: Vec<u8>) -> (out: Vec<u8>)
    requires
        input@.len() == 16,
    ensures
        out@.len() == 16,
        forall|j: int| 0 <= j < 16 ==> out@[j] == input@[if j < 8 { j + 8 } else { j - 8 }],
{
    let mut out: Vec<u8> = vec![0u8; 16];
    array_copy(&input, 0, &mut out, 8, 8);
    array_copy(&input, 8, &mut out, 0, 8);
    out
}

/// Applying both limb transforms to a block amounts to reversing it whole.
proof fn lemma_transforms_reverse(s: Seq<u8>, inverted: Seq<u8>, swapped: Seq<u8>)
    requires
        s.len() == 16,
        inverted.len() == 16,
        swapped.len() == 16,
        forall|j: int| 0 <= j < 16 ==> inverted[j] == s[8 * (j / 8) + 7 - (j % 8)],
        forall|j: int| 0 <= j < 16 ==> swapped[j] == inverted[if j < 8 { j + 8 } else { j - 8 }],
    ensures
        swapped == s.reverse(),
{
    assert forall|j: int| 0 <= j < 16 implies swapped[j] == s[15 - j] by {
        if j < 8 {
            assert(swapped[j] == inverted[j + 8]);
            assert(inverted[j + 8] == s[8 * ((j + 8) / 8) + 7 - ((j + 8) % 8)]);
            assert(8 * ((j + 8) / 8) + 7 - ((j + 8) % 8) == 15 - j);
        } else {
            assert(swapped[j] == inverted[j - 8]);
            assert(inverted[j - 8] == s[8 * ((j - 8) / 8) + 7 - ((j - 8) % 8)]);
            assert(8 * ((j - 8) / 8) + 7 - ((j - 8) % 8) == 15 - j);
        }
    }
    assert(swapped =~= s.reverse());
}

/// Multiply into Montgomery form and render big-endian.
pub fn from_int_to_mont(num: u128, r: u128, prime: u128) -> (out: Vec<u8>)
    requires
        prime > 0,
    ensures
        out@.len() == 16,
        be_val(out@) == (num as int * r as int) % (prime as int),
        out@ == be_bytes((num as int * r as int) % (prime as int), 16),
{
    let mont = mul_mod(num, r, prime);
    u128_to_be_bytes(mont)
}

/// Read a big-endian block and multiply by the inverse Montgomery constant.
pub fn from_mont_to_int(value: Vec<u8>, r_inv: u128, prime: u128) -> (res: u128)
    requires
        value@.len() == 16,
        prime > 0,
    ensures
        res as int == (be_val(value@) * r_inv as int) % (prime as int),
        res < prime,
{
    let raw = be_bytes_to_u128(&value);
    mul_mod(raw, r_inv, prime)
}

/// The whole wire encoding of one field element, as a function of the
/// element: Montgomery form, big-endian, then both limb transforms.
pub open spec fn gfp_of(x: int, r: int, p: int) -> Seq<u8> {
    be_bytes((x * r) % p, 16).reverse()
}

/// Reading a wire block back in little-endian order undoes the encoding up
/// to the Montgomery factor: what ties the packed bundles to decoding.
pub proof fn lemma_gfp_le_val(x: int, r: int, p: int)
    requires
        0 < p <= pow256(16),
    ensures
        gfp_of(x, r, p).len() == 16,
        le_val(gfp_of(x, r, p)) == (x * r) % p,
{
    let m = (x * r) % p;
    lemma_be_val_of_be_bytes(m, 16);
    lemma_reverse_involution(be_bytes(m, 16));
}

/// Encode a field element for the wire: Montgomery form, big-endian, then
/// both limb transforms.
pub fn to_gfp(value: u128, r: u128, prime: u128) -> (out: Vec<u8>)
    requires
        prime > 0,
    ensures
        out@.len() == 16,
        le_val(out@) == (value as int * r as int) % (prime as int),
        out@ == gfp_of(value as int, r as int, prime as int),
{
    let mont_bytes = from_int_to_mont(value, r, prime);
    let inverted = invert_limb_endianness(&mont_bytes);
    let out = swap_limbs(inverted);
    proof {
        lemma_transforms_reverse(mont_bytes@, inverted@, out@);
        assert(out@.reverse() =~= mont_bytes@);
    }
    out
}

/// Decode one wire block back to a field element.  A block whose length is
/// not the fixed word width is malformed.
pub fn from_gfp(gfp: &Vec<u8>, r_inv: u128, prime: u128) -> (res: Result<u128, Error>)
    requires
        prime > 0,
    ensures
        res is Ok <==> gfp@.len() == 16,
        res is Err ==> res == Err::<u128, Error>(Error::MalformedInput),
        res matches Ok(x) ==> x as int == (le_val(gfp@) * r_inv as int) % (prime as int) && x
            < prime,
{
    if gfp.len() != 16 {
        return Err(Error::MalformedInput);
    }
    let inverted = invert_limb_endianness(gfp);
    let swapped = swap_limbs(inverted);
    proof {
        lemma_transforms_reverse(gfp@, inverted@, swapped@);
    }
    Ok(from_mont_to_int(swapped, r_inv, prime))
}

/// The `j`-th 16-byte block of a byte string.
pub open spec fn wire_block(s: Seq<u8>, j: int) -> Seq<u8> {
    s.subrange(16 * j, 16 * j + 16)
}

/// Decode a concatenation of wire blocks into field elements, one per
/// block.  A byte string that is not a whole number of blocks is malformed.
pub fn to_bigint_arr(value: &Vec<u8>, r_inv: u128, prime: u128) -> (res: Result<
    Vec<u128>,
    Error,
>)
    requires
        prime > 0,
    ensures
        res is Ok <==> value@.len() % 16 == 0,
        res is Err ==> res == Err::<Vec<u128>, Error>(Error::MalformedInput),
        res matches Ok(v) ==> v@.len() == value@.len() / 16 && forall|j: int|
            0 <= j < v@.len() ==> v@[j] as int == (le_val(wire_block(value@, j)) * r_inv as int) % (
            prime as int) && v@[j] < prime,
{
    if value.len() % 16 != 0 {
        return Err(Error::MalformedInput);
    }
    let vlen = value.len();
    let n = vlen / 16;
    proof {
        vstd::arithmetic::div_mod::lemma_fundamental_div_mod(vlen as int, 16);
    }
    let mut out: Vec<u128> = Vec::new();
    let mut j: usize = 0;
    while j < n
        invariant
            prime > 0,
            value@.len() == vlen,
            value@.len() == 16 * n,
            j <= n,
            out@.len() == j,
            forall|k: int|
                0 <= k < j ==> out@[k] as int == (le_val(wire_block(value@, k)) * r_inv as int) % (
                prime as int) && out@[k] < prime,
        decreases n - j,
    {
        let mut block: Vec<u8> = Vec::new();
        let mut k: usize = 0;
        while k < 16
            invariant
                value@.len() == vlen,
                value@.len() == 16 * n,
                j < n,
                k <= 16,
                block@.len() == k,
                forall|t: int| 0 <= t < k ==> block@[t] == value@[16 * j + t],
            decreases 16 - k,
        {
            block.push(value[16 * j + k]);
            k = k + 1;
        }
        proof {
            assert(block@ =~= wire_block(value@, j as int));
        }
        let inverted = invert_limb_endianness(&block);
        let swapped = swap_limbs(inverted);
        proof {
            lemma_transforms_reverse(block@, inverted@, swapped@);
        }
        let x = from_mont_to_int(swapped, r_inv, prime);
        out.push(x);
        j = j + 1;
    }
    Ok(out)
}

/// Decoding inverts encoding: for any value below an odd prime, multiplying
/// by `r` and then by a matching `r_inv`, both modulo the prime, returns the
/// value itself.
pub proof fn lemma_codec_round_trip(v: int, r: int, r_inv: int, p: int)
    requires
        0 <= v < p,
        0 < p,
        (r * r_inv) % p == 1,
    ensures
        (((v * r) % p) * r_inv) % p == v,
{
    lemma_mul_mod_noop_left(v * r, r_inv, p);
    lemma_mul_is_associative(v, r, r_inv);
    lemma_mul_mod_noop_right(v, r * r_inv, p);
    assert(v * 1 == v) by (nonlinear_arith);
    lemma_small_mod(v as nat, p as nat);
}

/// The round-trip law at the deployed constants: `decode(encode(v)) == v`
/// for every `v` in `[0, P)`.
pub proof fn lemma_round_trip(v: u128)
    requires
        v < P,
    ensures
        (((v as int * R as int) % (P as int)) * R_INV as int) % (P as int) == v as int,
{
    lemma_r_r_inv();
    lemma_codec_round_trip(v as int, R as int, R_INV as int, P as int);
}

} // verus!
