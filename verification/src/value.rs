//! The two directional views of a register's byte buffer: what was read and
//! what will be written.

use vstd::prelude::*;
use crate::codec::{decode_bits, decode_field, encode_bits, encode_field};
use crate::schema::FieldSchema;

verus! {

/// An all-zero byte buffer of length `n`.
pub open spec fn zero_seq(n: nat) -> Seq<u8> {
    Seq::new(n, |i: int| 0u8)
}

/// A zero-filled byte vector of length `n`.
pub fn zeroed_bytes(n: usize) -> (r: Vec<u8>)
    ensures
        r@ == zero_seq(n as nat),
{
    let mut r: Vec<u8> = Vec::new();
    let mut i: usize = 0;
    while i < n
        invariant
            i <= n,
            r@.len() == i,
            forall|k: int| 0 <= k < i ==> r@[k] == 0u8,
        decreases n - i,
    {
        r.push(0u8);
        i = i + 1;
    }
    proof {
        assert(r@ =~= zero_seq(n as nat));
    }
    r
}

/// A byte-for-byte copy of `src`.
fn copied_bytes(src: &Vec<u8>) -> (r: Vec<u8>)
    ensures
        r@ == src@,
{
    let mut r: Vec<u8> = Vec::new();
    let mut i: usize = 0;
    while i < src.len()
        invariant
            i <= src@.len(),
            r@.len() == i,
            forall|k: int| 0 <= k < i ==> r@[k] == src@[k],
        decreases src@.len() - i,
    {
        r.push(src[i]);
        i = i + 1;
    }
    proof {
        assert(r@ =~= src@);
    }
    r
}

/// What a successful hardware read returned: an immutable buffer exposing one
/// getter per readable field.
pub struct ReadValue {
    bytes: Vec<u8>,
}

impl View for ReadValue {
    type V = Seq<u8>;

    closed spec fn view(&self) -> Seq<u8> {
        self.bytes@
    }
}

impl ReadValue {
    /// Wraps the bytes a hardware read produced; only register reads build
    /// these.
    pub(crate) fn from_bytes(bytes: Vec<u8>) -> (r: Self)
        ensures
            r@ == bytes@,
    {
        ReadValue { bytes }
    }

    /// The buffer's length in bytes.
    pub fn len(&self) -> (n: usize)
        ensures
            n == self@.len(),
    {
        self.bytes.len()
    }

    /// A copy of the raw bytes that were read.
    pub fn to_bytes(&self) -> (r: Vec<u8>)
        ensures
            r@ == self@,
    {
        copied_bytes(&self.bytes)
    }

    /// The value of `field` as it was read; only readable fields expose one.
    pub fn field_value(&self, field: &FieldSchema) -> (v: u64)
        requires
            field.wf(self@.len()),
            field.access.allows_read(),
        ensures
            v == decode_bits(self@, field.lo as int, field.hi as int),
    {
        decode_field(&self.bytes, field.lo, field.hi)
    }
}

/// What a hardware write will send: a buffer that starts all zero and is
/// built up through one setter per writable field.
pub struct WriteValue {
    bytes: Vec<u8>,
}

impl View for WriteValue {
    type V = Seq<u8>;

    closed spec fn view(&self) -> Seq<u8> {
        self.bytes@
    }
}

impl WriteValue {
    /// The all-zero buffer of a register `size_bytes` wide — the only public
    /// starting point for building a value to write.
    pub fn zeroed(size_bytes: usize) -> (w: Self)
        ensures
            w@ == zero_seq(size_bytes as nat),
    {
        WriteValue { bytes: zeroed_bytes(size_bytes) }
    }

    /// Seeds a buffer with already-read bytes, so that a read-modify-write
    /// carries unchanged fields back as they were; only register modifies
    /// build these.
    pub(crate) fn from_bytes(bytes: Vec<u8>) -> (w: Self)
        ensures
            w@ == bytes@,
    {
        WriteValue { bytes }
    }

    /// The buffer's length in bytes.
    pub fn len(&self) -> (n: usize)
        ensures
            n == self@.len(),
    {
        self.bytes.len()
    }

    /// Builder-style setter: stores the low bits of `value` into `field`'s
    /// range, keeps every other bit, and returns the buffer for chaining.
    /// Only writable fields expose one.
    pub fn with_field(self, field: &FieldSchema, value: u64) -> (w: Self)
        requires
            field.wf(self@.len()),
            field.access.allows_write(),
        ensures
            w@ == encode_bits(self@, field.lo as int, field.hi as int, value as nat),
            w@.len() == self@.len(),
    {
        let mut bytes = self.bytes;
        encode_field(&mut bytes, field.lo, field.hi, value);
        WriteValue { bytes }
    }

    /// Borrows the bytes that will be written.
    pub(crate) fn bytes_ref(&self) -> (r: &Vec<u8>)
        ensures
            r@ == self@,
    {
        &self.bytes
    }
}

} // verus!
