//! The bit-field codec: mapping a bit range of a byte buffer to and from an
//! integer value.
//!
//! Bit `i` of a buffer lives in byte `i / 8` at significance `i % 8`, so bit
//! indices count from the least significant bit of the first byte.  A field
//! occupies a contiguous range `[lo, hi)` of such indices.  The value of a
//! field is assembled big-endian by byte: the fragment held in the earliest
//! byte that the range touches carries the most significant bits, and inside
//! one byte a higher bit index is more significant.  Encoding stores the low
//! `hi - lo` bits of a value into exactly that range and leaves every other
//! bit of the buffer as it was; the proofs at the end of this module state
//! both laws.

use vstd::prelude::*;
use vstd::arithmetic::power2::pow2;
use vstd::pervasive::VecAdditionalExecFns;

verus! {

/// The value (0 or 1) of bit `i` of `bytes`.
pub open spec fn bit_of(bytes: Seq<u8>, i: int) -> nat {
    byte_bit(bytes[i / 8], i % 8)
}

/// The value (0 or 1) of bit `k` of the single byte `b`.
pub open spec fn byte_bit(b: u8, k: int) -> nat {
    ((b as nat) / pow2(k as nat)) % 2
}

/// The bits of `b` at positions `[s, e)`, read as an integer with bit `s`
/// least significant.
pub open spec fn frag_val(b: u8, s: int, e: int) -> nat {
    ((b as nat) / pow2(s as nat)) % pow2((e - s) as nat)
}

/// The integer held in bits `[lo, hi)` of `bytes`: the fragment in the first
/// byte the range touches is most significant, later bytes follow.
pub open spec fn decode_bits(bytes: Seq<u8>, lo: int, hi: int) -> nat
    decreases hi - lo,
{
    if lo >= hi {
        0
    } else {
        let j = lo / 8;
        let e = if hi < 8 * j + 8 { hi } else { 8 * j + 8 };
        frag_val(bytes[j], lo - 8 * j, e - 8 * j) * pow2((hi - e) as nat)
            + decode_bits(bytes, e, hi)
    }
}

/// The byte `b` with bits `[s, e)` replaced by the low `e - s` bits of `x`,
/// computed as an unbounded integer.
pub open spec fn set_bits_nat(b: u8, s: int, e: int, x: nat) -> nat {
    ((b as nat) / pow2(e as nat)) * pow2(e as nat)
        + (x % pow2((e - s) as nat)) * pow2(s as nat)
        + (b as nat) % pow2(s as nat)
}

/// The byte `b` with bits `[s, e)` replaced by the low `e - s` bits of `x`.
pub open spec fn set_bits(b: u8, s: int, e: int, x: nat) -> u8 {
    set_bits_nat(b, s, e, x) as u8
}

/// `bytes` with the low `hi - lo` bits of `v` stored into bits `[lo, hi)`,
/// packed as `decode_bits` reads them; all other bits kept.
pub open spec fn encode_bits(bytes: Seq<u8>, lo: int, hi: int, v: nat) -> Seq<u8>
    decreases hi - lo,
{
    if lo >= hi {
        bytes
    } else {
        let j = lo / 8;
        let e = if hi < 8 * j + 8 { hi } else { 8 * j + 8 };
        let x = (v / pow2((hi - e) as nat)) % pow2((e - lo) as nat);
        encode_bits(bytes.update(j, set_bits(bytes[j], lo - 8 * j, e - 8 * j, x)), e, hi, v)
    }
}

/// `set_bits_nat` stays below 256, so `set_bits` is the same number as a byte.
proof fn lemma_set_bits_fits(b: u8, s: int, e: int, x: nat)
    requires
        0 <= s <= e <= 8,
    ensures
        set_bits_nat(b, s, e, x) < 256,
        set_bits(b, s, e, x) as nat == set_bits_nat(b, s, e, x),
{
    let ps = pow2(s as nat);
    let pw = pow2((e - s) as nat);
    let pe = pow2(e as nat);
    let p8e = pow2((8 - e) as nat);
    let h = (b as nat) / pe;
    let y = x % pw;
    let l = (b as nat) % ps;
    vstd::arithmetic::power2::lemma_pow2_adds((e - s) as nat, s as nat);
    vstd::arithmetic::power2::lemma_pow2_adds((8 - e) as nat, e as nat);
    vstd::arithmetic::power2::lemma2_to64();
    vstd::arithmetic::power2::lemma_pow2_pos(s as nat);
    vstd::arithmetic::power2::lemma_pow2_pos((e - s) as nat);
    vstd::arithmetic::power2::lemma_pow2_pos(e as nat);
    vstd::arithmetic::power2::lemma_pow2_pos((8 - e) as nat);
    assert((b as int) < (pe as int) * (p8e as int)) by (nonlinear_arith)
        requires
            (b as nat) < 256,
            256 == p8e * pe,
    ;
    vstd::arithmetic::div_mod::lemma_multiply_divide_lt(b as int, pe as int, p8e as int);
    vstd::arithmetic::div_mod::lemma_mod_division_less_than_divisor(x as int, pw as int);
    vstd::arithmetic::div_mod::lemma_mod_division_less_than_divisor(b as int, ps as int);
    assert(h * pe + y * ps + l < 256) by (nonlinear_arith)
        requires
            h < p8e,
            y < pw,
            l < ps,
            pe == pw * ps,
            256 == p8e * pe,
            ps >= 1,
            pw >= 1,
            pe >= 1,
            p8e >= 1,
    ;
}

/// Reading back the range that `set_bits` stored yields the stored bits.
proof fn lemma_frag_of_set_bits(b: u8, s: int, e: int, x: nat)
    requires
        0 <= s <= e <= 8,
    ensures
        frag_val(set_bits(b, s, e, x), s, e) == x % pow2((e - s) as nat),
{
    let ps = pow2(s as nat);
    let pw = pow2((e - s) as nat);
    let pe = pow2(e as nat);
    let h = (b as nat) / pe;
    let y = x % pw;
    let l = (b as nat) % ps;
    let n = set_bits_nat(b, s, e, x);
    lemma_set_bits_fits(b, s, e, x);
    vstd::arithmetic::power2::lemma_pow2_adds((e - s) as nat, s as nat);
    vstd::arithmetic::power2::lemma_pow2_pos(s as nat);
    vstd::arithmetic::power2::lemma_pow2_pos((e - s) as nat);
    vstd::arithmetic::power2::lemma_pow2_pos(e as nat);
    vstd::arithmetic::div_mod::lemma_mod_division_less_than_divisor(b as int, ps as int);
    vstd::arithmetic::div_mod::lemma_mod_division_less_than_divisor(x as int, pw as int);
    assert(n == (h * pw + y) * ps + l) by (nonlinear_arith)
        requires
            n == h * pe + y * ps + l,
            pe == pw * ps,
    ;
    vstd::arithmetic::div_mod::lemma_fundamental_div_mod_converse_div(
        n as int,
        ps as int,
        (h * pw + y) as int,
        l as int,
    );
    assert(n / ps == h * pw + y);
    vstd::arithmetic::div_mod::lemma_mod_multiples_vanish(h as int, y as int, pw as int);
    assert((pw * h + y) % pw == y % pw);
    assert(h * pw == pw * h) by (nonlinear_arith);
    vstd::arithmetic::div_mod::lemma_small_mod(y, pw);
    vstd::arithmetic::div_mod::lemma_mod_twice(x as int, pw as int);
}

/// `set_bits` leaves the bits below the stored range as they were.
proof fn lemma_set_bits_keeps_low(b: u8, s: int, e: int, x: nat, k: int)
    requires
        0 <= k < s <= e <= 8,
    ensures
        byte_bit(set_bits(b, s, e, x), k) == byte_bit(b, k),
{
    let ps = pow2(s as nat);
    let pw = pow2((e - s) as nat);
    let pe = pow2(e as nat);
    let pk = pow2(k as nat);
    let psk = pow2((s - k) as nat);
    let h = (b as nat) / pe;
    let y = x % pw;
    let l = (b as nat) % ps;
    let n = set_bits_nat(b, s, e, x);
    lemma_set_bits_fits(b, s, e, x);
    vstd::arithmetic::power2::lemma_pow2_adds((e - s) as nat, s as nat);
    vstd::arithmetic::power2::lemma_pow2_adds((s - k) as nat, k as nat);
    vstd::arithmetic::power2::lemma_pow2_pos(s as nat);
    vstd::arithmetic::power2::lemma_pow2_pos((e - s) as nat);
    vstd::arithmetic::power2::lemma_pow2_pos(e as nat);
    vstd::arithmetic::power2::lemma_pow2_pos(k as nat);
    vstd::arithmetic::power2::lemma_pow2_pos((s - k) as nat);
    vstd::arithmetic::div_mod::lemma_mod_division_less_than_divisor(b as int, ps as int);
    vstd::arithmetic::power2::lemma_pow2_unfold((s - k) as nat);
    let psk2 = pow2((s - k - 1) as nat);
    // Both `n` and `b` split as (even multiple of `pk`) + `l`; the bit at
    // `k < s` is then determined by `l` alone.
    let m_n = (h * pw + y) * psk2;
    assert(n == 2 * m_n * pk + l) by (nonlinear_arith)
        requires
            n == h * pe + y * ps + l,
            pe == pw * ps,
            ps == psk * pk,
            psk == 2 * psk2,
            m_n == (h * pw + y) * psk2,
    ;
    let m_b = ((b as nat) / ps) * psk2;
    vstd::arithmetic::div_mod::lemma_fundamental_div_mod(b as int, ps as int);
    assert((b as nat) == 2 * m_b * pk + l) by (nonlinear_arith)
        requires
            (b as nat) == ps * ((b as nat) / ps) + l,
            ps == psk * pk,
            psk == 2 * psk2,
            m_b == ((b as nat) / ps) * psk2,
    ;
    lemma_low_bit_from_parts(n, m_n, l, pk);
    lemma_low_bit_from_parts(b as nat, m_b, l, pk);
}

/// For `z == 2 * m * pk + l`: the bit of `z` at the position where `pk` is
/// the place value is the bit of `l` there, since `2 * m * pk` contributes
/// only above that position.
proof fn lemma_low_bit_from_parts(z: nat, m: nat, l: nat, pk: nat)
    requires
        pk >= 1,
        z == 2 * m * pk + l,
    ensures
        (z / pk) % 2 == (l / pk) % 2,
{
    vstd::arithmetic::div_mod::lemma_fundamental_div_mod(l as int, pk as int);
    vstd::arithmetic::div_mod::lemma_mod_division_less_than_divisor(l as int, pk as int);
    assert(z == (2 * m + l / pk) * pk + (l % pk)) by (nonlinear_arith)
        requires
            z == 2 * m * pk + l,
            l == pk * (l / pk) + (l % pk),
    ;
    vstd::arithmetic::div_mod::lemma_fundamental_div_mod_converse_div(
        z as int,
        pk as int,
        (2 * m + l / pk) as int,
        (l % pk) as int,
    );
    assert(z / pk == 2 * m + l / pk);
    vstd::arithmetic::div_mod::lemma_mod_multiples_vanish(m as int, (l / pk) as int, 2);
    assert((2 * m + l / pk) % 2 == (l / pk) % 2);
}

/// `set_bits` leaves the bits above the stored range as they were.
proof fn lemma_set_bits_keeps_high(b: u8, s: int, e: int, x: nat, k: int)
    requires
        0 <= s <= e <= k < 8,
    ensures
        byte_bit(set_bits(b, s, e, x), k) == byte_bit(b, k),
{
    let ps = pow2(s as nat);
    let pw = pow2((e - s) as nat);
    let pe = pow2(e as nat);
    let pk = pow2(k as nat);
    let pke = pow2((k - e) as nat);
    let h = (b as nat) / pe;
    let y = x % pw;
    let l = (b as nat) % ps;
    let n = set_bits_nat(b, s, e, x);
    lemma_set_bits_fits(b, s, e, x);
    vstd::arithmetic::power2::lemma_pow2_adds((e - s) as nat, s as nat);
    vstd::arithmetic::power2::lemma_pow2_adds((k - e) as nat, e as nat);
    vstd::arithmetic::power2::lemma_pow2_pos(s as nat);
    vstd::arithmetic::power2::lemma_pow2_pos((e - s) as nat);
    vstd::arithmetic::power2::lemma_pow2_pos(e as nat);
    vstd::arithmetic::power2::lemma_pow2_pos(k as nat);
    vstd::arithmetic::power2::lemma_pow2_pos((k - e) as nat);
    vstd::arithmetic::div_mod::lemma_mod_division_less_than_divisor(b as int, ps as int);
    vstd::arithmetic::div_mod::lemma_mod_division_less_than_divisor(x as int, pw as int);
    // The bits of `n` and of `b` from `e` upward are exactly `h`.
    assert(y * ps + l < pe) by (nonlinear_arith)
        requires
            y < pw,
            l < ps,
            pe == pw * ps,
            ps >= 1,
            pw >= 1,
    ;
    vstd::arithmetic::div_mod::lemma_fundamental_div_mod_converse_div(
        n as int,
        pe as int,
        h as int,
        (y * ps + l) as int,
    );
    assert(n / pe == h);
    vstd::arithmetic::div_mod::lemma_div_denominator(n as int, pe as int, pke as int);
    vstd::arithmetic::div_mod::lemma_div_denominator(b as int, pe as int, pke as int);
    assert(pe * pke == pk) by (nonlinear_arith)
        requires
            pk == pke * pe,
    ;
    assert(n / pk == (n / pe) / pke);
    assert((b as nat) / pk == ((b as nat) / pe) / pke);
}

/// A decoded field value fits in its bit width.
pub proof fn lemma_decode_bound(bytes: Seq<u8>, lo: int, hi: int)
    requires
        0 <= lo <= hi,
    ensures
        decode_bits(bytes, lo, hi) < pow2((hi - lo) as nat),
    decreases hi - lo,
{
    if lo >= hi {
        vstd::arithmetic::power2::lemma2_to64();
    } else {
        let j = lo / 8;
        let e = if hi < 8 * j + 8 { hi } else { 8 * j + 8 };
        let f = frag_val(bytes[j], lo - 8 * j, e - 8 * j);
        let rest = decode_bits(bytes, e, hi);
        lemma_decode_bound(bytes, e, hi);
        vstd::arithmetic::power2::lemma_pow2_pos((e - lo) as nat);
        vstd::arithmetic::power2::lemma_pow2_pos((hi - e) as nat);
        vstd::arithmetic::power2::lemma_pow2_adds((e - lo) as nat, (hi - e) as nat);
        vstd::arithmetic::div_mod::lemma_mod_division_less_than_divisor(
            ((bytes[j] as nat) / pow2((lo - 8 * j) as nat)) as int,
            pow2((e - lo) as nat) as int,
        );
        assert(f * pow2((hi - e) as nat) + rest < pow2((hi - lo) as nat)) by (nonlinear_arith)
            requires
                f < pow2((e - lo) as nat),
                rest < pow2((hi - e) as nat),
                pow2((hi - lo) as nat) == pow2((e - lo) as nat) * pow2((hi - e) as nat),
                pow2((hi - e) as nat) >= 1,
        ;
    }
}

/// Splitting a range at a byte boundary splits its decoded value: the part
/// before the cut carries the high bits.
proof fn lemma_decode_split(bytes: Seq<u8>, lo: int, m: int, hi: int)
    requires
        0 <= lo <= m <= hi,
        m == lo || m % 8 == 0,
    ensures
        decode_bits(bytes, lo, hi) == decode_bits(bytes, lo, m) * pow2((hi - m) as nat)
            + decode_bits(bytes, m, hi),
    decreases m - lo,
{
    if lo >= m {
        vstd::arithmetic::power2::lemma2_to64();
        assert(decode_bits(bytes, lo, m) == 0);
        assert(decode_bits(bytes, lo, hi) == decode_bits(bytes, lo, m) * pow2((hi - m) as nat)
            + decode_bits(bytes, m, hi));
    } else {
        let j = lo / 8;
        let e = if hi < 8 * j + 8 { hi } else { 8 * j + 8 };
        assert(8 * j + 8 <= m);
        let f = frag_val(bytes[j], lo - 8 * j, e - 8 * j);
        lemma_decode_split(bytes, e, m, hi);
        vstd::arithmetic::power2::lemma_pow2_adds((m - e) as nat, (hi - m) as nat);
        let dem = decode_bits(bytes, e, m);
        let dmh = decode_bits(bytes, m, hi);
        assert(decode_bits(bytes, lo, hi) == f * pow2((hi - e) as nat) + decode_bits(bytes, e, hi));
        assert(decode_bits(bytes, lo, m) == f * pow2((m - e) as nat) + dem);
        assert(f * pow2((hi - e) as nat) + (dem * pow2((hi - m) as nat) + dmh) == (f * pow2(
            (m - e) as nat,
        ) + dem) * pow2((hi - m) as nat) + dmh) by (nonlinear_arith)
            requires
                pow2((hi - e) as nat) == pow2((m - e) as nat) * pow2((hi - m) as nat),
        ;
        assert(decode_bits(bytes, lo, hi) == (f * pow2((m - e) as nat) + dem) * pow2(
            (hi - m) as nat,
        ) + dmh);
        assert(decode_bits(bytes, lo, m) * pow2((hi - m) as nat) == (f * pow2((m - e) as nat)
            + dem) * pow2((hi - m) as nat));
    }
}

/// Encoding keeps the buffer's length, and touches no byte before the one
/// where its range begins.
proof fn lemma_encode_len(bytes: Seq<u8>, lo: int, hi: int, v: nat)
    requires
        0 <= lo <= hi <= 8 * bytes.len(),
    ensures
        encode_bits(bytes, lo, hi, v).len() == bytes.len(),
        forall|k: int| 0 <= k < lo / 8 ==> encode_bits(bytes, lo, hi, v)[k] == bytes[k],
    decreases hi - lo,
{
    if lo < hi {
        let j = lo / 8;
        let e = if hi < 8 * j + 8 { hi } else { 8 * j + 8 };
        let x = (v / pow2((hi - e) as nat)) % pow2((e - lo) as nat);
        let bytes1 = bytes.update(j, set_bits(bytes[j], lo - 8 * j, e - 8 * j, x));
        lemma_encode_len(bytes1, e, hi, v);
        assert forall|k: int| 0 <= k < lo / 8 implies encode_bits(bytes, lo, hi, v)[k]
            == bytes[k] by {
            assert(encode_bits(bytes1, e, hi, v)[k] == bytes1[k]);
        }
    }
}

/// Round trip: decoding the range an encode stored yields the value that was
/// stored, truncated to the range's bit width.
pub proof fn lemma_decode_of_encode(bytes: Seq<u8>, lo: int, hi: int, v: nat)
    requires
        0 <= lo <= hi <= 8 * bytes.len(),
    ensures
        decode_bits(encode_bits(bytes, lo, hi, v), lo, hi) == v % pow2((hi - lo) as nat),
    decreases hi - lo,
{
    vstd::arithmetic::power2::lemma2_to64();
    if lo >= hi {
    } else {
        let j = lo / 8;
        let e = if hi < 8 * j + 8 { hi } else { 8 * j + 8 };
        let s = lo - 8 * j;
        let e_in = e - 8 * j;
        let phe = pow2((hi - e) as nat);
        let pel = pow2((e - lo) as nat);
        let x = (v / phe) % pel;
        let bytes1 = bytes.update(j, set_bits(bytes[j], s, e_in, x));
        let result = encode_bits(bytes1, e, hi, v);
        assert(encode_bits(bytes, lo, hi, v) == result);
        lemma_encode_len(bytes1, e, hi, v);
        assert(result[j] == bytes1[j]);
        lemma_frag_of_set_bits(bytes[j], s, e_in, x);
        vstd::arithmetic::power2::lemma_pow2_pos((e - lo) as nat);
        vstd::arithmetic::power2::lemma_pow2_pos((hi - e) as nat);
        vstd::arithmetic::div_mod::lemma_mod_division_less_than_divisor(
            ((v / phe) as nat) as int,
            pel as int,
        );
        vstd::arithmetic::div_mod::lemma_mod_twice((v / phe) as int, pel as int);
        assert(frag_val(result[j], s, e_in) == x);
        lemma_decode_of_encode(bytes1, e, hi, v);
        assert(decode_bits(result, e, hi) == v % phe);
        vstd::arithmetic::div_mod::lemma_breakdown(v as int, phe as int, pel as int);
        vstd::arithmetic::power2::lemma_pow2_adds((hi - e) as nat, (e - lo) as nat);
        assert(decode_bits(result, lo, hi) == frag_val(result[j], s, e_in) * phe + decode_bits(
            result,
            e,
            hi,
        ));
        assert(x * phe + v % phe == v % pow2((hi - lo) as nat)) by (nonlinear_arith)
            requires
                x == (v / phe) % pel,
                phe >= 1,
                pel >= 1,
                pow2((hi - lo) as nat) == phe * pel,
                (v as int) % ((phe * pel) as int) == phe * ((v / phe) % pel) + (v as int) % (
                phe as int),
        ;
    }
}

/// Framing: an encode changes nothing outside its bit range.
pub proof fn lemma_encode_frame(bytes: Seq<u8>, lo: int, hi: int, v: nat)
    requires
        0 <= lo <= hi <= 8 * bytes.len(),
    ensures
        encode_bits(bytes, lo, hi, v).len() == bytes.len(),
        forall|i: int|
            0 <= i < 8 * bytes.len() && !(lo <= i < hi) ==> bit_of(encode_bits(bytes, lo, hi, v), i)
                == bit_of(bytes, i),
    decreases hi - lo,
{
    if lo < hi {
        let j = lo / 8;
        let e = if hi < 8 * j + 8 { hi } else { 8 * j + 8 };
        let s = lo - 8 * j;
        let e_in = e - 8 * j;
        let x = (v / pow2((hi - e) as nat)) % pow2((e - lo) as nat);
        let bytes1 = bytes.update(j, set_bits(bytes[j], s, e_in, x));
        lemma_encode_len(bytes1, e, hi, v);
        lemma_encode_frame(bytes1, e, hi, v);
        assert forall|i: int| 0 <= i < 8 * bytes.len() && !(lo <= i < hi) implies bit_of(
            encode_bits(bytes, lo, hi, v),
            i,
        ) == bit_of(bytes, i) by {
            assert(bit_of(encode_bits(bytes1, e, hi, v), i) == bit_of(bytes1, i));
            let k = i / 8;
            let r = i % 8;
            if k == j {
                if r < s {
                    lemma_set_bits_keeps_low(bytes[j], s, e_in, x, r);
                } else {
                    assert(i >= hi);
                    lemma_set_bits_keeps_high(bytes[j], s, e_in, x, r);
                }
            }
        }
    }
}

/// One more bit extends a fragment at its most significant end.
proof fn lemma_frag_unfold(b: u8, s: int, e: int)
    requires
        0 <= s < e <= 8,
    ensures
        frag_val(b, s, e) == frag_val(b, s, e - 1) + byte_bit(b, e - 1) * pow2((e - 1 - s) as nat),
{
    let xq = (b as nat) / pow2(s as nat);
    let pd = pow2((e - 1 - s) as nat);
    vstd::arithmetic::power2::lemma_pow2_pos(s as nat);
    vstd::arithmetic::power2::lemma_pow2_pos((e - 1 - s) as nat);
    vstd::arithmetic::power2::lemma_pow2_unfold((e - s) as nat);
    vstd::arithmetic::div_mod::lemma_breakdown(xq as int, pd as int, 2);
    assert(xq % (pd * 2) == pd * ((xq / pd) % 2) + xq % pd);
    assert(pow2((e - s) as nat) == pd * 2) by (nonlinear_arith)
        requires
            pow2((e - s) as nat) == 2 * pd,
    ;
    vstd::arithmetic::power2::lemma_pow2_adds((e - 1 - s) as nat, s as nat);
    vstd::arithmetic::div_mod::lemma_div_denominator(b as int, pow2(s as nat) as int, pd as int);
    assert(pow2(s as nat) * pd == pow2((e - 1) as nat)) by (nonlinear_arith)
        requires
            pow2((e - 1) as nat) == pd * pow2(s as nat),
    ;
    assert(xq / pd == (b as nat) / pow2((e - 1) as nat));
    assert(pd * ((xq / pd) % 2) == ((xq / pd) % 2) * pd) by (nonlinear_arith);
    assert(frag_val(b, s, e) == xq % (pd * 2));
    assert(frag_val(b, s, e - 1) == xq % pd);
}

/// A fragment's value is a function of its bits alone.
proof fn lemma_frag_from_bits(b1: u8, b2: u8, s: int, e: int)
    requires
        0 <= s <= e <= 8,
        forall|k: int| s <= k < e ==> byte_bit(b1, k) == byte_bit(b2, k),
    ensures
        frag_val(b1, s, e) == frag_val(b2, s, e),
    decreases e - s,
{
    if s >= e {
        vstd::arithmetic::power2::lemma2_to64();
        assert(frag_val(b1, s, e) == ((b1 as nat) / pow2(s as nat)) % 1);
        assert(frag_val(b2, s, e) == ((b2 as nat) / pow2(s as nat)) % 1);
    } else {
        lemma_frag_unfold(b1, s, e);
        lemma_frag_unfold(b2, s, e);
        lemma_frag_from_bits(b1, b2, s, e - 1);
        assert(byte_bit(b1, e - 1) == byte_bit(b2, e - 1));
    }
}

/// A decoded value is a function of the bits in its range alone.
pub proof fn lemma_decode_from_bits(b1: Seq<u8>, b2: Seq<u8>, lo: int, hi: int)
    requires
        0 <= lo <= hi,
        b1.len() == b2.len(),
        forall|i: int| lo <= i < hi ==> bit_of(b1, i) == bit_of(b2, i),
    ensures
        decode_bits(b1, lo, hi) == decode_bits(b2, lo, hi),
    decreases hi - lo,
{
    if lo < hi {
        let j = lo / 8;
        let e = if hi < 8 * j + 8 { hi } else { 8 * j + 8 };
        let s = lo - 8 * j;
        let e_in = e - 8 * j;
        assert forall|k: int| s <= k < e_in implies byte_bit(b1[j], k) == byte_bit(b2[j], k) by {
            let i = 8 * j + k;
            assert(bit_of(b1, i) == bit_of(b2, i));
            assert(i / 8 == j && i % 8 == k);
        }
        lemma_frag_from_bits(b1[j], b2[j], s, e_in);
        lemma_decode_from_bits(b1, b2, e, hi);
    }
}

/// Storing one field never disturbs what a disjoint field decodes to.
pub proof fn lemma_encode_keeps_disjoint(
    bytes: Seq<u8>,
    lo: int,
    hi: int,
    v: nat,
    lo2: int,
    hi2: int,
)
    requires
        0 <= lo <= hi <= 8 * bytes.len(),
        0 <= lo2 <= hi2 <= 8 * bytes.len(),
        hi2 <= lo || hi <= lo2,
    ensures
        decode_bits(encode_bits(bytes, lo, hi, v), lo2, hi2) == decode_bits(bytes, lo2, hi2),
{
    lemma_encode_frame(bytes, lo, hi, v);
    lemma_decode_from_bits(encode_bits(bytes, lo, hi, v), bytes, lo2, hi2);
}

/// 2 to the power `k`, as a machine word.
fn pow2_u64(k: usize) -> (r: u64)
    requires
        k < 64,
    ensures
        r == pow2(k as nat),
{
    proof {
        vstd::arithmetic::power2::lemma2_to64();
        vstd::arithmetic::power2::lemma2_to64_rest();
    }
    let mut r: u64 = 1;
    let mut i: usize = 0;
    while i < k
        invariant
            i <= k,
            k < 64,
            r == pow2(i as nat),
        decreases k - i,
    {
        proof {
            vstd::arithmetic::power2::lemma_pow2_strictly_increases(i as nat + 1, 64);
            vstd::arithmetic::power2::lemma_pow2_unfold(i as nat + 1);
            vstd::arithmetic::power2::lemma2_to64_rest();
        }
        r = r * 2;
        i = i + 1;
    }
    r
}

/// `pow2` never shrinks as the exponent grows.
proof fn lemma_pow2_le(a: nat, b: nat)
    requires
        a <= b,
    ensures
        pow2(a) <= pow2(b),
{
    if a < b {
        vstd::arithmetic::power2::lemma_pow2_strictly_increases(a, b);
    }
}

/// Reads the field held in bits `[lo, hi)` of `bytes`.
pub fn decode_field(bytes: &Vec<u8>, lo: usize, hi: usize) -> (v: u64)
    requires
        lo <= hi,
        hi <= bytes@.len() * 8,
        hi - lo <= 64,
    ensures
        v == decode_bits(bytes@, lo as int, hi as int),
{
    proof {
        vstd::arithmetic::power2::lemma2_to64();
        vstd::arithmetic::power2::lemma2_to64_rest();
    }
    let mut acc: u64 = 0;
    let mut pos: usize = lo;
    while pos < hi
        invariant
            lo <= pos <= hi,
            hi <= bytes@.len() * 8,
            hi - lo <= 64,
            pos == lo || pos % 8 == 0 || pos == hi,
            acc == decode_bits(bytes@, lo as int, pos as int),
        decreases hi - pos,
    {
        let j = pos / 8;
        assert(8 * j <= pos);
        let e = if hi - 8 * j < 8 {
            hi
        } else {
            8 * j + 8
        };
        assert(e == if hi < 8 * j + 8 { hi as int } else { 8 * j + 8 });
        let s = pos - 8 * j;
        let w = e - pos;
        assert(j < bytes@.len());
        let b = bytes[j];
        let ps = pow2_u64(s);
        let pw = pow2_u64(w);
        assert(ps >= 1 && pw >= 1) by {
            vstd::arithmetic::power2::lemma_pow2_pos(s as nat);
            vstd::arithmetic::power2::lemma_pow2_pos(w as nat);
        }
        let frag = ((b as u64) / ps) % pw;
        proof {
            vstd::arithmetic::power2::lemma2_to64();
            vstd::arithmetic::power2::lemma2_to64_rest();
            assert(frag == frag_val(b, s as int, (e - 8 * j) as int));
            assert(decode_bits(bytes@, pos as int, e as int) == frag_val(
                b,
                (pos - 8 * j) as int,
                (e - 8 * j) as int,
            ) * pow2(0) + decode_bits(bytes@, e as int, e as int));
            assert(pos == lo || pos % 8 == 0);
            lemma_decode_split(bytes@, lo as int, pos as int, e as int);
            lemma_decode_bound(bytes@, lo as int, pos as int);
            vstd::arithmetic::power2::lemma_pow2_adds((pos - lo) as nat, w as nat);
            lemma_pow2_le((e - lo) as nat, 64);
            vstd::arithmetic::div_mod::lemma_mod_division_less_than_divisor(
                ((b as nat) / (ps as nat)) as int,
                pw as int,
            );
            assert((acc as nat) * (pw as nat) + (frag as nat) < pow2(64)) by (nonlinear_arith)
                requires
                    (acc as nat) < pow2((pos - lo) as nat),
                    (frag as nat) < (pw as nat),
                    pow2((e - lo) as nat) == pow2((pos - lo) as nat) * (pw as nat),
                    pow2((e - lo) as nat) <= pow2(64),
                    (pw as nat) >= 1,
            ;
        }
        acc = acc * pw + frag;
        pos = e;
    }
    acc
}

/// Stores the low `hi - lo` bits of `v` into bits `[lo, hi)` of `bytes`,
/// leaving every other bit of the buffer as it was.
pub fn encode_field(bytes: &mut Vec<u8>, lo: usize, hi: usize, v: u64)
    requires
        lo <= hi,
        hi <= old(bytes)@.len() * 8,
        hi - lo <= 64,
    ensures
        final(bytes)@ == encode_bits(old(bytes)@, lo as int, hi as int, v as nat),
        final(bytes)@.len() == old(bytes)@.len(),
{
    proof {
        vstd::arithmetic::power2::lemma2_to64();
        vstd::arithmetic::power2::lemma2_to64_rest();
    }
    let ghost orig = bytes@;
    let mut pos: usize = lo;
    while pos < hi
        invariant
            lo <= pos <= hi,
            hi <= orig.len() * 8,
            hi - lo <= 64,
            bytes@.len() == orig.len(),
            encode_bits(orig, lo as int, hi as int, v as nat) == encode_bits(
                bytes@,
                pos as int,
                hi as int,
                v as nat,
            ),
        decreases hi - pos,
    {
        let ghost prev = bytes@;
        let j = pos / 8;
        assert(8 * j <= pos);
        let e = if hi - 8 * j < 8 {
            hi
        } else {
            8 * j + 8
        };
        assert(e == if hi < 8 * j + 8 { hi as int } else { 8 * j + 8 });
        let s = pos - 8 * j;
        let e_in = e - 8 * j;
        assert(j < bytes@.len());
        let b = bytes[j];
        let phe = pow2_u64(hi - e);
        let pel = pow2_u64(e - pos);
        let pe_in = pow2_u64(e_in);
        let ps_in = pow2_u64(s);
        let pw_in = pow2_u64(e_in - s);
        proof {
            vstd::arithmetic::power2::lemma_pow2_pos((hi - e) as nat);
            vstd::arithmetic::power2::lemma_pow2_pos((e - pos) as nat);
            vstd::arithmetic::power2::lemma_pow2_pos(e_in as nat);
            vstd::arithmetic::power2::lemma_pow2_pos(s as nat);
            vstd::arithmetic::power2::lemma_pow2_pos((e_in - s) as nat);
            lemma_pow2_le(e_in as nat, 8);
        }
        let x = (v / phe) % pel;
        assert(x < 256) by {
            vstd::arithmetic::power2::lemma2_to64();
            vstd::arithmetic::div_mod::lemma_mod_division_less_than_divisor(
                ((v as nat) / (phe as nat)) as int,
                pel as int,
            );
            lemma_pow2_le((e - pos) as nat, 8);
        }
        proof {
            vstd::arithmetic::div_mod::lemma_mod_division_less_than_divisor(
                ((v as nat) / (phe as nat)) as int,
                pel as int,
            );
            vstd::arithmetic::div_mod::lemma_mod_division_less_than_divisor(
                ((x as nat) as int),
                pw_in as int,
            );
            vstd::arithmetic::power2::lemma2_to64();
            vstd::arithmetic::div_mod::lemma_div_nonincreasing(b as int, pe_in as int);
            vstd::arithmetic::div_mod::lemma_mod_division_less_than_divisor(b as int, ps_in as int);
            assert((pe_in as nat) * ((b as nat) / (pe_in as nat)) <= (b as nat)) by {
                vstd::arithmetic::div_mod::lemma_fundamental_div_mod(b as int, pe_in as int);
                vstd::arithmetic::div_mod::lemma_mod_division_less_than_divisor(
                    b as int,
                    pe_in as int,
                );
            }
            assert(((b as u64) / pe_in) * pe_in <= b) by (nonlinear_arith)
                requires
                    pe_in >= 1,
                    ((b as u64) / pe_in) as nat == (b as nat) / (pe_in as nat),
                    (pe_in as nat) * ((b as nat) / (pe_in as nat)) <= (b as nat),
            ;
            vstd::arithmetic::power2::lemma_pow2_adds((e_in - s) as nat, s as nat);
            assert((x % pw_in) * ps_in < 256) by (nonlinear_arith)
                requires
                    ((x % pw_in) as nat) < (pw_in as nat),
                    (pw_in as nat) * (ps_in as nat) == pow2(e_in as nat),
                    pow2(e_in as nat) <= 256,
                    ps_in >= 1,
            ;
        }
        let nb64 = ((b as u64) / pe_in) * pe_in + (x % pw_in) * ps_in + (b as u64) % ps_in;
        proof {
            lemma_set_bits_fits(b, s as int, e_in as int, x as nat);
            assert(nb64 == set_bits_nat(b, s as int, e_in as int, x as nat));
        }
        let nb = nb64 as u8;
        bytes.set(j, nb);
        proof {
            assert(nb == set_bits(prev[j as int], s as int, e_in as int, x as nat));
            assert(bytes@ == prev.update(j as int, set_bits(prev[j as int], s as int, e_in as int, (
            (v as nat) / pow2((hi - e) as nat)) % pow2((e - pos) as nat))));
            assert(encode_bits(prev, pos as int, hi as int, v as nat) == encode_bits(
                bytes@,
                e as int,
                hi as int,
                v as nat,
            ));
        }
        pos = e;
    }
    assert(encode_bits(bytes@, pos as int, hi as int, v as nat) == bytes@);
}

} // verus!
