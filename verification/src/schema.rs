//! Declarative descriptions of registers and their bit fields.

use vstd::prelude::*;
use crate::access::Access;

verus! {

/// One bit field inside a register: a contiguous bit range with its own
/// access mode.  Bit indices count as in `crate::codec`.
#[derive(Clone, Copy, PartialEq, Eq, Structural)]
pub struct FieldSchema {
    /// First bit index of the field's range.
    pub lo: usize,
    /// One past the field's last bit index.
    pub hi: usize,
    /// What may be done with the field.
    pub access: Access,
}

impl FieldSchema {
    /// The field's width in bits.
    pub open spec fn width(self) -> nat {
        (self.hi - self.lo) as nat
    }

    /// Well-formed inside a register of `size_bytes` bytes: a non-empty range
    /// that lies within the register's bits and fits a 64-bit value.
    pub open spec fn wf(self, size_bytes: nat) -> bool {
        &&& self.lo < self.hi
        &&& self.hi <= size_bytes * 8
        &&& self.hi - self.lo <= 64
    }

    /// Whether two fields occupy disjoint bit ranges.
    pub open spec fn disjoint(self, other: FieldSchema) -> bool {
        self.hi <= other.lo || other.hi <= self.lo
    }

    /// Runtime test for `wf`.
    pub fn is_wf(&self, size_bytes: usize) -> (r: bool)
        ensures
            r == self.wf(size_bytes as nat),
    {
        self.lo < self.hi && self.hi - self.lo <= 64 && (self.hi / 8 < size_bytes || (self.hi % 8
            == 0 && self.hi / 8 <= size_bytes))
    }
}

/// The build-time description of one register: where it lives, how wide it
/// is, what may be done with it, and which fields it carries.  A schema is
/// fixed when the device support is written and never mutated.
pub struct RegisterSchema<A> {
    /// Where the register lives; only the transport interprets this.
    pub address: A,
    /// The register's width in bytes.
    pub size_bytes: usize,
    /// What operations the register supports.
    pub access: Access,
    /// The register's fields, in declaration order.
    pub fields: Vec<FieldSchema>,
}

impl<A> RegisterSchema<A> {
    /// Well-formed: a non-empty buffer, every field inside it, and no field
    /// claiming a capability its register does not grant.
    pub open spec fn wf(self) -> bool {
        &&& self.size_bytes > 0
        &&& forall|i: int|
            0 <= i < self.fields@.len() ==> (#[trigger] self.fields@[i]).wf(self.size_bytes as nat)
                && self.access.admits_field(self.fields@[i].access)
    }

    /// Runtime test for `wf`.
    pub fn is_wf(&self) -> (r: bool)
        ensures
            r == self.wf(),
    {
        if self.size_bytes == 0 {
            return false;
        }
        let mut i: usize = 0;
        while i < self.fields.len()
            invariant
                i <= self.fields@.len(),
                forall|k: int|
                    0 <= k < i ==> (#[trigger] self.fields@[k]).wf(self.size_bytes as nat)
                        && self.access.admits_field(self.fields@[k].access),
            decreases self.fields@.len() - i,
        {
            let field = &self.fields[i];
            if !(field.is_wf(self.size_bytes) && self.access.admits(&field.access)) {
                return false;
            }
            i = i + 1;
        }
        true
    }
}

/// The register map of one device: the schemas of all its registers, grouped
/// so that exactly one register at a time can be driven over one interface.
pub struct RegisterSet<A> {
    registers: Vec<RegisterSchema<A>>,
}

impl<A> View for RegisterSet<A> {
    type V = Seq<RegisterSchema<A>>;

    closed spec fn view(&self) -> Seq<RegisterSchema<A>> {
        self.registers@
    }
}

impl<A> RegisterSet<A> {
    /// Well-formed: every register schema in the set is.
    pub open spec fn wf(self) -> bool {
        forall|i: int| 0 <= i < self@.len() ==> (#[trigger] self@[i]).wf()
    }

    /// An empty register map.
    pub fn new() -> (r: Self)
        ensures
            r@ == Seq::<RegisterSchema<A>>::empty(),
    {
        RegisterSet { registers: Vec::new() }
    }

    /// Appends one register's schema to the map.
    pub fn add_register(&mut self, schema: RegisterSchema<A>)
        requires
            schema.wf(),
        ensures
            final(self)@ == old(self)@.push(schema),
    {
        self.registers.push(schema);
    }

    /// How many registers the map holds.
    pub fn register_count(&self) -> (n: usize)
        ensures
            n == self@.len(),
    {
        self.registers.len()
    }

    /// Runtime test for `wf`.
    pub fn is_wf(&self) -> (r: bool)
        ensures
            r == self.wf(),
    {
        let mut i: usize = 0;
        while i < self.registers.len()
            invariant
                i <= self@.len(),
                forall|k: int| 0 <= k < i ==> (#[trigger] self@[k]).wf(),
            decreases self@.len() - i,
        {
            if !self.registers[i].is_wf() {
                return false;
            }
            i = i + 1;
        }
        true
    }

    /// The register at `index`, in the order registers were added.
    pub fn register_at(&self, index: usize) -> (r: &RegisterSchema<A>)
        requires
            index < self@.len(),
        ensures
            *r == self@[index as int],
    {
        &self.registers[index]
    }
}

} // verus!
