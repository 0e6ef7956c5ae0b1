//! The laws the codec obeys, stated over whole fields.

use vstd::prelude::*;
use vstd::arithmetic::power2::pow2;
use crate::codec::{bit_of, decode_bits, encode_bits, lemma_decode_bound, lemma_decode_from_bits,
    lemma_decode_of_encode, lemma_encode_frame, lemma_encode_keeps_disjoint};
use crate::schema::FieldSchema;

verus! {

/// Round trip with truncation: decoding the range an encode stored yields the
/// stored value reduced modulo the field's width — and the value itself
/// whenever it fits the field.
pub proof fn lemma_field_round_trip(bytes: Seq<u8>, field: FieldSchema, v: u64)
    requires
        field.wf(bytes.len()),
    ensures
        decode_bits(
            encode_bits(bytes, field.lo as int, field.hi as int, v as nat),
            field.lo as int,
            field.hi as int,
        ) == (v as nat) % pow2(field.width()),
        (v as nat) < pow2(field.width()) ==> decode_bits(
            encode_bits(bytes, field.lo as int, field.hi as int, v as nat),
            field.lo as int,
            field.hi as int,
        ) == v,
{
    lemma_decode_of_encode(bytes, field.lo as int, field.hi as int, v as nat);
    vstd::arithmetic::power2::lemma_pow2_pos(field.width());
    if (v as nat) < pow2(field.width()) {
        vstd::arithmetic::div_mod::lemma_small_mod(v as nat, pow2(field.width()));
    }
}

/// Framing: storing a field never alters a bit outside the field's range.
pub proof fn lemma_field_frame(bytes: Seq<u8>, field: FieldSchema, v: u64)
    requires
        field.wf(bytes.len()),
    ensures
        encode_bits(bytes, field.lo as int, field.hi as int, v as nat).len() == bytes.len(),
        forall|i: int|
            0 <= i < 8 * bytes.len() && !(field.lo <= i < field.hi) ==> bit_of(
                encode_bits(bytes, field.lo as int, field.hi as int, v as nat),
                i,
            ) == bit_of(bytes, i),
{
    lemma_encode_frame(bytes, field.lo as int, field.hi as int, v as nat);
}

/// A field's decoded value depends only on the bits in its range: two
/// buffers that agree there decode the field alike.
pub proof fn lemma_field_from_bits(b1: Seq<u8>, b2: Seq<u8>, field: FieldSchema)
    requires
        field.wf(b1.len()),
        b1.len() == b2.len(),
        forall|i: int| field.lo <= i < field.hi ==> bit_of(b1, i) == bit_of(b2, i),
    ensures
        decode_bits(b1, field.lo as int, field.hi as int) == decode_bits(
            b2,
            field.lo as int,
            field.hi as int,
        ),
{
    lemma_decode_from_bits(b1, b2, field.lo as int, field.hi as int);
}

/// A field's decoded value always fits the field's bit width.
pub proof fn lemma_field_value_fits(bytes: Seq<u8>, field: FieldSchema)
    requires
        field.wf(bytes.len()),
    ensures
        decode_bits(bytes, field.lo as int, field.hi as int) < pow2(field.width()),
{
    lemma_decode_bound(bytes, field.lo as int, field.hi as int);
}

/// Every field of an all-zero buffer decodes to zero — the state a write
/// buffer starts from.
pub proof fn lemma_zero_buffer_decodes_zero(bytes: Seq<u8>, lo: int, hi: int)
    requires
        0 <= lo <= hi,
        forall|k: int| 0 <= k < bytes.len() ==> bytes[k] == 0u8,
        hi <= 8 * bytes.len(),
    ensures
        decode_bits(bytes, lo, hi) == 0,
    decreases hi - lo,
{
    if lo < hi {
        let j = lo / 8;
        let e = if hi < 8 * j + 8 {
            hi
        } else {
            8 * j + 8
        };
        assert(bytes[j] == 0u8);
        vstd::arithmetic::power2::lemma_pow2_pos((lo - 8 * j) as nat);
        vstd::arithmetic::power2::lemma_pow2_pos((e - lo) as nat);
        vstd::arithmetic::div_mod::lemma_div_of0(pow2((lo - 8 * j) as nat) as int);
        vstd::arithmetic::div_mod::lemma_small_mod(0, pow2((e - lo) as nat));
        assert(crate::codec::frag_val(0u8, lo - 8 * j, e - 8 * j) == 0);
        lemma_zero_buffer_decodes_zero(bytes, e, hi);
        assert(decode_bits(bytes, lo, hi) == 0 * pow2((hi - e) as nat) + 0);
    }
}

/// `bytes` after a chain of field stores, applied first to last — the shape
/// of a write or modify transform built from chained setters.
pub open spec fn apply_fields(bytes: Seq<u8>, updates: Seq<(FieldSchema, u64)>) -> Seq<u8>
    decreases updates.len(),
{
    if updates.len() == 0 {
        bytes
    } else {
        apply_fields(
            encode_bits(bytes, updates[0].0.lo as int, updates[0].0.hi as int, updates[0].1 as nat),
            updates.drop_first(),
        )
    }
}

/// Untouched fields survive a modify: when a write buffer is seeded with the
/// bytes a read returned and the transform only stores fields disjoint from
/// `field`, the buffer that goes back to the hardware still decodes `field`
/// to the value that was read.
pub proof fn lemma_untouched_field_survives(
    bytes: Seq<u8>,
    updates: Seq<(FieldSchema, u64)>,
    field: FieldSchema,
)
    requires
        field.wf(bytes.len()),
        forall|k: int|
            0 <= k < updates.len() ==> (#[trigger] updates[k].0).wf(bytes.len())
                && updates[k].0.disjoint(field),
    ensures
        apply_fields(bytes, updates).len() == bytes.len(),
        decode_bits(apply_fields(bytes, updates), field.lo as int, field.hi as int) == decode_bits(
            bytes,
            field.lo as int,
            field.hi as int,
        ),
    decreases updates.len(),
{
    if updates.len() > 0 {
        let g = updates[0].0;
        let v = updates[0].1;
        let once = encode_bits(bytes, g.lo as int, g.hi as int, v as nat);
        lemma_encode_frame(bytes, g.lo as int, g.hi as int, v as nat);
        lemma_encode_keeps_disjoint(
            bytes,
            g.lo as int,
            g.hi as int,
            v as nat,
            field.lo as int,
            field.hi as int,
        );
        assert(forall|k: int|
            0 <= k < updates.drop_first().len() ==> (#[trigger] updates.drop_first()[k].0).wf(
                once.len(),
            ) && updates.drop_first()[k].0.disjoint(field));
        lemma_untouched_field_survives(once, updates.drop_first(), field);
    }
}

} // verus!
