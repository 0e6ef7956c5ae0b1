//! The capability a bus transport must provide.

use vstd::prelude::*;

verus! {

/// Byte-addressed access to a device's registers.
///
/// A transport (an I2C or SPI driver, a memory-mapped window) implements this
/// trait; the register operations in this crate are written against it and
/// against nothing else.  Both operations are synchronous and perform no
/// retries: any fault is returned as the transport's own error.  The one
/// obligation an implementation carries is that a read fills the caller's
/// buffer in place, without changing its length.
pub trait RegisterInterface {
    /// How the transport names a register's location.
    type Address;

    /// The transport's own error type.
    type InterfaceError;

    /// Fills `value` with the bytes currently held at `address`, or fails
    /// with the transport's error.
    fn read_register(&mut self, address: Self::Address, value: &mut Vec<u8>) -> (r: Result<
        (),
        Self::InterfaceError,
    >)
        ensures
            final(value)@.len() == old(value)@.len(),
    ;

    /// Writes exactly `value`'s bytes to `address`, or fails with the
    /// transport's error.
    fn write_register(&mut self, address: Self::Address, value: &Vec<u8>) -> (r: Result<
        (),
        Self::InterfaceError,
    >);
}

} // verus!
