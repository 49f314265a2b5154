//! Lower-case RFC 4648 base32 without padding, as used for content-hash labels.
use vstd::prelude::*;

use vstd::arithmetic::power2::pow2;

verus! {

/// Bit `k` of `bytes`, most significant first; `0` past the end.
pub open spec fn bit_at(bytes: Seq<u8>, k: int) -> nat {
    if 0 <= k < 8 * bytes.len() {
        ((bytes[k / 8] >> ((7 - k % 8) as u8)) & 1u8) as nat
    } else {
        0
    }
}

/// The `len` bits of `bytes` from bit `start` on, read as a binary number.
pub open spec fn bits_value(bytes: Seq<u8>, start: int, len: nat) -> nat
    decreases len,
{
    if len == 0 {
        0
    } else {
        bits_value(bytes, start, (len - 1) as nat) * 2 + bit_at(bytes, start + len - 1)
    }
}

/// The low `n` bits set.
pub open spec fn low_mask(n: u32) -> u32 {
    ((1u32 << n) - 1) as u32
}

/// The base32 digit for `v < 32`: `a`..`z`, then `2`..`7`.
pub open spec fn b32_digit(v: nat) -> char {
    if v < 26 {
        ((97 + v) as u8) as char
    } else {
        ((24 + v) as u8) as char
    }
}

/// `bytes` in base32: one digit per five bits, the last group padded with zero bits.
pub open spec fn base32(bytes: Seq<u8>) -> Seq<char> {
    Seq::new(((8 * bytes.len() + 4) / 5) as nat, |i: int| b32_digit(bits_value(bytes, 5 * i, 5)))
}

/// Reading `l + m` bits is reading `l` bits, shifting, and reading the next `m`.
pub proof fn lemma_bits_concat(b: Seq<u8>, s: int, l: nat, m: nat)
    ensures
        bits_value(b, s, l + m) == bits_value(b, s, l) * pow2(m) + bits_value(b, s + l, m),
    decreases m,
{
    if m == 0 {
        vstd::arithmetic::power2::lemma2_to64();
    } else {
        lemma_bits_concat(b, s, l, (m - 1) as nat);
        vstd::arithmetic::power2::lemma_pow2_unfold(m);
        let a = bits_value(b, s, l);
        let p = pow2((m - 1) as nat);
        let r = bits_value(b, s + l, (m - 1) as nat);
        assert(bits_value(b, s, l + m) == bits_value(b, s, (l + m - 1) as nat) * 2 + bit_at(b, s + l + m - 1));
        assert((a * p + r) * 2 == a * (p * 2) + r * 2) by (nonlinear_arith);
    }
}

/// `len` bits read as a number are below `2^len`.
pub proof fn lemma_bits_bound(b: Seq<u8>, s: int, len: nat)
    ensures
        bits_value(b, s, len) < pow2(len),
    decreases len,
{
    if len == 0 {
        vstd::arithmetic::power2::lemma2_to64();
    } else {
        lemma_bits_bound(b, s, (len - 1) as nat);
        vstd::arithmetic::power2::lemma_pow2_unfold(len);
        let y = b[(s + len - 1) / 8] >> ((7 - (s + len - 1) % 8) as u8);
        assert((y & 1u8) <= 1) by (bit_vector);
    }
}

/// Bits past the end read as zero.
pub proof fn lemma_bits_past_end(b: Seq<u8>, s: int, len: nat)
    requires
        s >= 8 * b.len(),
    ensures
        bits_value(b, s, len) == 0,
    decreases len,
{
    if len > 0 {
        lemma_bits_past_end(b, s, (len - 1) as nat);
    }
}

/// The eight bits of byte `i` read back as that byte.
pub proof fn lemma_byte_bits(b: Seq<u8>, i: int)
    requires
        0 <= i < b.len(),
    ensures
        bits_value(b, 8 * i, 8) == b[i],
{
    reveal_with_fuel(bits_value, 9);
    let x = b[i];
    let s = 8 * i;
    let b7 = ((x >> 7u8) & 1u8) as u32;
    let b6 = ((x >> 6u8) & 1u8) as u32;
    let b5 = ((x >> 5u8) & 1u8) as u32;
    let b4 = ((x >> 4u8) & 1u8) as u32;
    let b3 = ((x >> 3u8) & 1u8) as u32;
    let b2 = ((x >> 2u8) & 1u8) as u32;
    let b1 = ((x >> 1u8) & 1u8) as u32;
    let b0 = ((x >> 0u8) & 1u8) as u32;
    assert(bit_at(b, s) == b7);
    assert(bit_at(b, s + 1) == b6);
    assert(bit_at(b, s + 2) == b5);
    assert(bit_at(b, s + 3) == b4);
    assert(bit_at(b, s + 4) == b3);
    assert(bit_at(b, s + 5) == b2);
    assert(bit_at(b, s + 6) == b1);
    assert(bit_at(b, s + 7) == b0);
    assert(b7 * 128 + b6 * 64 + b5 * 32 + b4 * 16 + b3 * 8 + b2 * 4 + b1 * 2 + b0 == x as u32) by (bit_vector)
        requires
            b7 == ((x >> 7u8) & 1u8) as u32,
            b6 == ((x >> 6u8) & 1u8) as u32,
            b5 == ((x >> 5u8) & 1u8) as u32,
            b4 == ((x >> 4u8) & 1u8) as u32,
            b3 == ((x >> 3u8) & 1u8) as u32,
            b2 == ((x >> 2u8) & 1u8) as u32,
            b1 == ((x >> 1u8) & 1u8) as u32,
            b0 == ((x >> 0u8) & 1u8) as u32,
    ;
}

/// `2^k` as a `u32` shift.
proof fn lemma_pow2_shift(k: u32)
    requires
        k < 32,
    ensures
        (1u32 << k) as nat == pow2(k as nat),
{
    vstd::bits::lemma_u32_pow2_no_overflow(k as nat);
    vstd::bits::lemma_u32_shl_is_mul(1u32, k);
}

/// The base32 digit for `v`.
fn b32_digit_exec(v: u32) -> (r: char)
    requires
        v < 32,
    ensures
        r == b32_digit(v as nat),
{
    let b: u8 = v as u8;
    if b < 26 {
        (97 + b) as char
    } else {
        (24 + b) as char
    }
}

/// Lower-case base32 of `bytes`, without padding.
pub fn base32_16(bytes: &[u8]) -> (r: String)
    ensures
        r@ == base32(bytes@),
{
    let ghost b = bytes@;
    let mut out: Vec<char> = Vec::new();
    let mut buf: u32 = 0;
    let mut bits: u32 = 0;
    let mut i: usize = 0;
    assert(buf & low_mask(0u32) == 0) by (bit_vector);
    while i < bytes.len()
        invariant
            b == bytes@,
            i <= b.len(),
            bits < 5,
            5 * out@.len() + bits == 8 * i,
            forall|j: int| 0 <= j < out@.len() ==> out@[j] == b32_digit(bits_value(b, 5 * j, 5)),
            (buf & low_mask(bits)) as nat == bits_value(b, (5 * out@.len()) as int, bits as nat),
        decreases b.len() - i,
    {
        let x = bytes[i];
        let ghost c = out@.len() as int;
        let ghost p = buf & low_mask(bits);
        proof {
            assert(p < 32) by (bit_vector)
                requires
                    bits < 5,
                    p == buf & low_mask(bits),
            ;
            assert((((buf << 8u32) | (x as u32)) & low_mask((bits + 8) as u32)) == p * 256 + x as u32) by (bit_vector)
                requires
                    bits < 5,
                    p == buf & low_mask(bits),
            ;
            lemma_bits_concat(b, 5 * c, bits as nat, 8);
            lemma_byte_bits(b, i as int);
            vstd::arithmetic::power2::lemma2_to64();
        }
        buf = (buf << 8) | (x as u32);
        bits = bits + 8;
        while bits >= 5
            invariant
                b == bytes@,
                i < b.len(),
                bits <= 12,
                5 * out@.len() + bits == 8 * (i + 1),
                forall|j: int| 0 <= j < out@.len() ==> out@[j] == b32_digit(bits_value(b, 5 * j, 5)),
                (buf & low_mask(bits)) as nat == bits_value(b, (5 * out@.len()) as int, bits as nat),
            decreases bits,
        {
            let k = bits - 5;
            let ghost c = out@.len() as int;
            let ghost g = bits_value(b, 5 * c, 5);
            let ghost r = bits_value(b, 5 * c + 5, k as nat);
            proof {
                lemma_bits_concat(b, 5 * c, 5, k as nat);
                lemma_bits_bound(b, 5 * c, 5);
                lemma_bits_bound(b, 5 * c + 5, k as nat);
                lemma_pow2_shift(k);
                vstd::arithmetic::power2::lemma2_to64();
                let gu = g as u32;
                let ru = r as u32;
                assert(gu as nat == g && ru as nat == r);
                assert((buf & low_mask((k + 5) as u32)) == gu * (1u32 << k) + ru);
                assert(((buf >> k) & 31) == gu && (buf & low_mask(k)) == ru) by (bit_vector)
                    requires
                        k <= 7,
                        gu < 32,
                        ru < (1u32 << k),
                        (buf & low_mask((k + 5) as u32)) == gu * (1u32 << k) + ru,
                ;
            }
            bits = k;
            let v = (buf >> bits) & 0x1f;
            out.push(b32_digit_exec(v));
        }
        i += 1;
    }
    if bits > 0 {
        let ghost c = out@.len() as int;
        let ghost p = buf & low_mask(bits);
        proof {
            lemma_bits_concat(b, 5 * c, bits as nat, (5 - bits) as nat);
            lemma_bits_past_end(b, 5 * c + bits, (5 - bits) as nat);
            lemma_pow2_shift((5 - bits) as u32);
            lemma_bits_bound(b, 5 * c, 5);
            vstd::arithmetic::power2::lemma2_to64();
            assert(((buf << ((5 - bits) as u32)) & 31) == p * (1u32 << ((5 - bits) as u32))) by (bit_vector)
                requires
                    1 <= bits <= 4,
                    p == buf & low_mask(bits),
            ;
        }
        let v = (buf << (5 - bits)) & 0x1f;
        out.push(b32_digit_exec(v));
    }
    assert(out@ =~= base32(b));
    let mut s = String::new();
    let mut k: usize = 0;
    while k < out.len()
        invariant
            k <= out@.len(),
            s@ == out@.take(k as int),
        decreases out@.len() - k,
    {
        crate::text::push(&mut s, out[k]);
        assert(out@.take(k + 1) =~= out@.take(k as int).push(out@[k as int]));
        k += 1;
    }
    assert(out@.take(out@.len() as int) =~= out@);
    s
}

} // verus!
