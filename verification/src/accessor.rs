//! The per-register operation surface: `read`, `write` and `modify`, each
//! available only where the register's access mode grants it.
//!
//! The mode gate is a verification-time one: every operation carries a
//! `requires` on the register's access mode, so a caller holding a read-only
//! register simply cannot call `write` or `modify` — the disallowed surface
//! is unreachable rather than checked at run time.  The interface is borrowed
//! exclusively for the duration of each operation, so two operations can
//! never interleave on one transport.

use vstd::prelude::*;
use crate::error::RegisterError;
use crate::interface::RegisterInterface;
use crate::schema::RegisterSchema;
use crate::value::{zero_seq, zeroed_bytes, ReadValue, WriteValue};

verus! {

impl<A: Copy> RegisterSchema<A> {
    /// Reads the register: a zeroed buffer is filled by the transport and
    /// returned as a `ReadValue` of the register's size.  Only readable
    /// registers expose this.  Any transport fault is returned unchanged as
    /// `HardwareError`.
    pub fn read<I>(&self, interface: &mut I) -> (r: Result<
        ReadValue,
        RegisterError<I::InterfaceError>,
    >) where I: RegisterInterface<Address = A>
        requires
            self.wf(),
            self.access.allows_read(),
        ensures
            r matches Ok(rv) ==> rv@.len() == self.size_bytes,
            r matches Err(e) ==> e is HardwareError,
    {
        let mut buffer = zeroed_bytes(self.size_bytes);
        match interface.read_register(self.address, &mut buffer) {
            Ok(()) => Ok(ReadValue::from_bytes(buffer)),
            Err(e) => Err(RegisterError::from(e)),
        }
    }

    /// Writes the register: the caller's transform builds the outgoing value
    /// from an all-zero buffer, and the result's bytes go to the transport.
    /// Only writable registers expose this.  Any transport fault is returned
    /// unchanged as `HardwareError`.
    pub fn write<I, F>(&self, interface: &mut I, f: F) -> (r: Result<
        (),
        RegisterError<I::InterfaceError>,
    >) where I: RegisterInterface<Address = A>, F: FnOnce(WriteValue) -> WriteValue
        requires
            self.wf(),
            self.access.allows_write(),
            forall|w0: WriteValue| w0@ == zero_seq(self.size_bytes as nat) ==> call_requires(
                f,
                (w0,),
            ),
            forall|w0: WriteValue, w1: WriteValue| #[trigger]
                call_ensures(f, (w0,), w1) ==> w1@.len() == w0@.len(),
        ensures
            r matches Ok(()) ==> exists|w0: WriteValue, w1: WriteValue|
                w0@ == zero_seq(self.size_bytes as nat) && #[trigger] call_ensures(f, (w0,), w1),
            r matches Err(e) ==> e is HardwareError,
    {
        let w0 = WriteValue::zeroed(self.size_bytes);
        let ghost gw0 = w0;
        let w1 = f(w0);
        match interface.write_register(self.address, w1.bytes_ref()) {
            Ok(()) => {
                proof {
                    assert(call_ensures(f, (gw0,), w1));
                }
                Ok(())
            },
            Err(e) => Err(RegisterError::from(e)),
        }
    }

    /// Read-modify-write: reads the register, hands the caller's transform
    /// both the read value and a write buffer seeded byte for byte with the
    /// just-read bytes — so every field the transform leaves alone is written
    /// back exactly as it was read — and writes the transform's result.  Only
    /// read-write registers expose this.  A fault in the read step aborts the
    /// operation before anything is written; either fault is returned as
    /// `HardwareError`.  The read/write pair is not transactional: after a
    /// failed write the register's true state is unknown.
    pub fn modify<I, F>(&self, interface: &mut I, f: F) -> (r: Result<
        (),
        RegisterError<I::InterfaceError>,
    >) where I: RegisterInterface<Address = A>, F: FnOnce(ReadValue, WriteValue) -> WriteValue
        requires
            self.wf(),
            self.access is ReadWrite,
            forall|rv: ReadValue, w0: WriteValue|
                rv@.len() == self.size_bytes && w0@ == rv@ ==> call_requires(f, (rv, w0)),
            forall|rv: ReadValue, w0: WriteValue, w1: WriteValue| #[trigger]
                call_ensures(f, (rv, w0), w1) ==> w1@.len() == w0@.len(),
        ensures
            r matches Ok(()) ==> exists|rv: ReadValue, w0: WriteValue, w1: WriteValue|
                rv@.len() == self.size_bytes && w0@ == rv@ && #[trigger] call_ensures(
                    f,
                    (rv, w0),
                    w1,
                ),
            r matches Err(e) ==> e is HardwareError,
    {
        let rv = match self.read(interface) {
            Ok(rv) => rv,
            Err(e) => {
                return Err(e);
            },
        };
        let seed = WriteValue::from_bytes(rv.to_bytes());
        let ghost grv = rv;
        let ghost gw0 = seed;
        let w1 = f(rv, seed);
        match interface.write_register(self.address, w1.bytes_ref()) {
            Ok(()) => {
                proof {
                    assert(call_ensures(f, (grv, gw0), w1));
                }
                Ok(())
            },
            Err(e) => Err(RegisterError::from(e)),
        }
    }
}

} // verus!
