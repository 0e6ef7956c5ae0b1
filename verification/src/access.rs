//! Access modes for registers and for the fields inside them.

use vstd::prelude::*;

verus! {

/// What a register or a field may be used for: reading, writing, or both.
///
/// A register's mode bounds what its fields may do: a read-only register can
/// only hold read-only fields, a write-only register only write-only ones,
/// while a read-write register may mix all three modes.
#[derive(Clone, Copy, Debug, PartialEq, Eq, Structural)]
pub enum Access {
    ReadOnly,
    WriteOnly,
    ReadWrite,
}

impl Access {
    /// Whether this mode permits reading.
    pub open spec fn allows_read(self) -> bool {
        self is ReadOnly || self is ReadWrite
    }

    /// Whether this mode permits writing.
    pub open spec fn allows_write(self) -> bool {
        self is WriteOnly || self is ReadWrite
    }

    /// Whether a field of mode `field` may live in a register of mode `self`:
    /// the register's mode must grant every capability the field claims.
    pub open spec fn admits_field(self, field: Access) -> bool {
        &&& (field.allows_read() ==> self.allows_read())
        &&& (field.allows_write() ==> self.allows_write())
    }

    /// Runtime test for `allows_read`.
    pub fn is_readable(&self) -> (r: bool)
        ensures
            r == self.allows_read(),
    {
        match self {
            Access::ReadOnly => true,
            Access::ReadWrite => true,
            Access::WriteOnly => false,
        }
    }

    /// Runtime test for `allows_write`.
    pub fn is_writable(&self) -> (r: bool)
        ensures
            r == self.allows_write(),
    {
        match self {
            Access::ReadOnly => false,
            Access::ReadWrite => true,
            Access::WriteOnly => true,
        }
    }

    /// Runtime test for `admits_field`.
    pub fn admits(&self, field: &Access) -> (r: bool)
        ensures
            r == self.admits_field(*field),
    {
        let field_reads = field.is_readable();
        let field_writes = field.is_writable();
        (!field_reads || self.is_readable()) && (!field_writes || self.is_writable())
    }
}

} // verus!
