use std::cell::Cell;

use device_driver::access::Access;
use device_driver::error::RegisterError;
use device_driver::interface::RegisterInterface;
use device_driver::schema::{FieldSchema, RegisterSchema, RegisterSet};
use device_driver::value::WriteValue;

/// A transport simulating one register's backing memory at any address,
/// with switchable faults and call counting.
struct MockBus {
    mem: Vec<u8>,
    fail_read: bool,
    fail_write: bool,
    reads: usize,
    writes: usize,
}

impl MockBus {
    fn new(mem: Vec<u8>) -> Self {
        MockBus { mem, fail_read: false, fail_write: false, reads: 0, writes: 0 }
    }
}

impl RegisterInterface for MockBus {
    type Address = u8;
    type InterfaceError = u8;

    fn read_register(&mut self, _address: u8, value: &mut Vec<u8>) -> Result<(), u8> {
        self.reads += 1;
        if self.fail_read {
            return Err(7);
        }
        for i in 0..value.len() {
            value[i] = self.mem[i];
        }
        Ok(())
    }

    fn write_register(&mut self, _address: u8, value: &Vec<u8>) -> Result<(), u8> {
        self.writes += 1;
        if self.fail_write {
            return Err(9);
        }
        self.mem = value.clone();
        Ok(())
    }
}

fn flag_field() -> FieldSchema {
    FieldSchema { lo: 0, hi: 1, access: Access::ReadWrite }
}

fn count_field() -> FieldSchema {
    FieldSchema { lo: 1, hi: 5, access: Access::ReadWrite }
}

fn status_register() -> RegisterSchema<u8> {
    RegisterSchema {
        address: 0x10,
        size_bytes: 1,
        access: Access::ReadWrite,
        fields: vec![flag_field(), count_field()],
    }
}

#[test]
fn write_two_fields_packs_big_endian_in_range() {
    let reg = status_register();
    let mut bus = MockBus::new(vec![0u8]);
    let count = count_field();
    let flag = flag_field();
    let r = reg.write(&mut bus, |w| w.with_field(&count, 9).with_field(&flag, 1));
    assert!(r.is_ok());
    assert_eq!(bus.mem, vec![0b0001_0011u8]);
}

#[test]
fn read_back_two_fields() {
    let reg = status_register();
    let mut bus = MockBus::new(vec![0b0001_0011u8]);
    let rv = reg.read(&mut bus).ok().expect("read should succeed");
    assert_eq!(rv.field_value(&flag_field()), 1);
    assert_eq!(rv.field_value(&count_field()), 9);
}

#[test]
fn encode_truncates_to_field_width() {
    // 0b1111_1001 does not fit four bits; only its low four bits remain.
    let reg = status_register();
    let mut bus = MockBus::new(vec![0u8]);
    let count = count_field();
    reg.write(&mut bus, |w| w.with_field(&count, 0b1111_1001)).ok().expect("write");
    let rv = reg.read(&mut bus).ok().expect("read");
    assert_eq!(rv.field_value(&count), 0b1001);
}

#[test]
fn encode_keeps_value_that_fits() {
    let reg = status_register();
    let mut bus = MockBus::new(vec![0u8]);
    let count = count_field();
    for v in 0..16u64 {
        reg.write(&mut bus, |w| w.with_field(&count, v)).ok().expect("write");
        let rv = reg.read(&mut bus).ok().expect("read");
        assert_eq!(rv.field_value(&count), v);
    }
}

fn wide_register() -> RegisterSchema<u8> {
    RegisterSchema {
        address: 0x20,
        size_bytes: 2,
        access: Access::ReadWrite,
        fields: vec![FieldSchema { lo: 4, hi: 12, access: Access::ReadWrite }],
    }
}

#[test]
fn field_crossing_byte_boundary_packs_first_byte_most_significant() {
    let reg = wide_register();
    let mut bus = MockBus::new(vec![0u8, 0u8]);
    let mid = FieldSchema { lo: 4, hi: 12, access: Access::ReadWrite };
    reg.write(&mut bus, |w| w.with_field(&mid, 0xAB)).ok().expect("write");
    // High nibble 0xA lands in the first byte's upper bits, low nibble 0xB in
    // the second byte's lower bits.
    assert_eq!(bus.mem, vec![0xA0u8, 0x0Bu8]);
    let rv = reg.read(&mut bus).ok().expect("read");
    assert_eq!(rv.field_value(&mid), 0xAB);
}

#[test]
fn encode_alters_nothing_outside_the_range() {
    let reg = wide_register();
    let mut bus = MockBus::new(vec![0xFFu8, 0xFFu8]);
    let mid = FieldSchema { lo: 4, hi: 12, access: Access::ReadWrite };
    reg.modify(&mut bus, |_r, w| w.with_field(&mid, 0)).ok().expect("modify");
    assert_eq!(bus.mem, vec![0x0Fu8, 0xF0u8]);
}

#[test]
fn whole_word_field_round_trips() {
    let reg = RegisterSchema {
        address: 0x30,
        size_bytes: 8,
        access: Access::ReadWrite,
        fields: vec![FieldSchema { lo: 0, hi: 64, access: Access::ReadWrite }],
    };
    let word = FieldSchema { lo: 0, hi: 64, access: Access::ReadWrite };
    let mut bus = MockBus::new(vec![0u8; 8]);
    reg.write(&mut bus, |w| w.with_field(&word, u64::MAX)).ok().expect("write");
    let rv = reg.read(&mut bus).ok().expect("read");
    assert_eq!(rv.field_value(&word), u64::MAX);
}

#[test]
fn two_full_bytes_read_big_endian() {
    let reg = RegisterSchema {
        address: 0x40,
        size_bytes: 2,
        access: Access::ReadOnly,
        fields: vec![FieldSchema { lo: 0, hi: 16, access: Access::ReadOnly }],
    };
    let word = FieldSchema { lo: 0, hi: 16, access: Access::ReadOnly };
    let mut bus = MockBus::new(vec![0xABu8, 0xCDu8]);
    let rv = reg.read(&mut bus).ok().expect("read");
    assert_eq!(rv.field_value(&word), 0xABCD);
}

#[test]
fn modify_preserves_untouched_fields() {
    let reg = status_register();
    let mut bus = MockBus::new(vec![0b0001_0011u8]);
    let flag = flag_field();
    reg.modify(&mut bus, |_r, w| w.with_field(&flag, 0)).ok().expect("modify");
    let rv = reg.read(&mut bus).ok().expect("read");
    assert_eq!(rv.field_value(&flag_field()), 0);
    // The count field was never set by the transform, yet survives.
    assert_eq!(rv.field_value(&count_field()), 9);
}

#[test]
fn modify_transform_sees_read_values() {
    let reg = status_register();
    let mut bus = MockBus::new(vec![0b0001_0011u8]);
    let count = count_field();
    let seen = Cell::new(0u64);
    reg.modify(&mut bus, |r, w| {
        seen.set(r.field_value(&count));
        let next = r.field_value(&count) + 1;
        w.with_field(&count, next)
    })
    .ok()
    .expect("modify");
    assert_eq!(seen.get(), 9);
    let rv = reg.read(&mut bus).ok().expect("read");
    assert_eq!(rv.field_value(&count), 10);
}

#[test]
fn write_failure_surfaces_as_hardware_error() {
    let reg = RegisterSchema {
        address: 0x50,
        size_bytes: 1,
        access: Access::WriteOnly,
        fields: vec![FieldSchema { lo: 0, hi: 8, access: Access::WriteOnly }],
    };
    let raw = FieldSchema { lo: 0, hi: 8, access: Access::WriteOnly };
    let mut bus = MockBus::new(vec![0u8]);
    bus.fail_write = true;
    let r = reg.write(&mut bus, |w| w.with_field(&raw, 0x5A));
    assert!(matches!(r, Err(RegisterError::HardwareError(9))));
    // The backing memory was never replaced.
    assert_eq!(bus.mem, vec![0u8]);
}

#[test]
fn read_failure_surfaces_as_hardware_error() {
    let reg = status_register();
    let mut bus = MockBus::new(vec![0u8]);
    bus.fail_read = true;
    let r = reg.read(&mut bus);
    assert!(matches!(r, Err(RegisterError::HardwareError(7))));
}

#[test]
fn modify_with_failing_read_skips_transform_and_write() {
    let reg = status_register();
    let mut bus = MockBus::new(vec![0u8]);
    bus.fail_read = true;
    let invoked = Cell::new(false);
    let r = reg.modify(&mut bus, |_r, w| {
        invoked.set(true);
        w
    });
    assert!(matches!(r, Err(RegisterError::HardwareError(7))));
    assert!(!invoked.get());
    assert_eq!(bus.writes, 0);
}

#[test]
fn modify_with_failing_write_propagates_the_write_error() {
    let reg = status_register();
    let mut bus = MockBus::new(vec![0b0001_0011u8]);
    bus.fail_write = true;
    let flag = flag_field();
    let r = reg.modify(&mut bus, |_r, w| w.with_field(&flag, 0));
    assert!(matches!(r, Err(RegisterError::HardwareError(9))));
    assert_eq!(bus.reads, 1);
    assert_eq!(bus.writes, 1);
}

#[test]
fn interface_error_converts_to_hardware_error() {
    let e: RegisterError<u8> = RegisterError::from(5u8);
    assert!(matches!(e, RegisterError::HardwareError(5)));
}

#[test]
fn access_modes_grant_expected_capabilities() {
    assert!(Access::ReadOnly.is_readable());
    assert!(!Access::ReadOnly.is_writable());
    assert!(!Access::WriteOnly.is_readable());
    assert!(Access::WriteOnly.is_writable());
    assert!(Access::ReadWrite.is_readable());
    assert!(Access::ReadWrite.is_writable());
}

#[test]
fn register_mode_bounds_field_modes() {
    assert!(Access::ReadWrite.admits(&Access::ReadOnly));
    assert!(Access::ReadWrite.admits(&Access::WriteOnly));
    assert!(Access::ReadWrite.admits(&Access::ReadWrite));
    assert!(Access::ReadOnly.admits(&Access::ReadOnly));
    assert!(!Access::ReadOnly.admits(&Access::WriteOnly));
    assert!(!Access::ReadOnly.admits(&Access::ReadWrite));
    assert!(Access::WriteOnly.admits(&Access::WriteOnly));
    assert!(!Access::WriteOnly.admits(&Access::ReadOnly));
    assert!(!Access::WriteOnly.admits(&Access::ReadWrite));
}

#[test]
fn schema_validity_checks() {
    assert!(status_register().is_wf());
    // A field overrunning the register's bits.
    let beyond = RegisterSchema {
        address: 0u8,
        size_bytes: 1,
        access: Access::ReadWrite,
        fields: vec![FieldSchema { lo: 4, hi: 9, access: Access::ReadWrite }],
    };
    assert!(!beyond.is_wf());
    // An empty bit range.
    let empty = RegisterSchema {
        address: 0u8,
        size_bytes: 1,
        access: Access::ReadWrite,
        fields: vec![FieldSchema { lo: 3, hi: 3, access: Access::ReadWrite }],
    };
    assert!(!empty.is_wf());
    // A field claiming more than its register grants.
    let too_able = RegisterSchema {
        address: 0u8,
        size_bytes: 1,
        access: Access::ReadOnly,
        fields: vec![FieldSchema { lo: 0, hi: 8, access: Access::ReadWrite }],
    };
    assert!(!too_able.is_wf());
    // Wider than one value can carry.
    let too_wide = RegisterSchema {
        address: 0u8,
        size_bytes: 9,
        access: Access::ReadWrite,
        fields: vec![FieldSchema { lo: 0, hi: 72, access: Access::ReadWrite }],
    };
    assert!(!too_wide.is_wf());
    // A zero-sized register.
    let no_bytes = RegisterSchema {
        address: 0u8,
        size_bytes: 0,
        access: Access::ReadWrite,
        fields: vec![],
    };
    assert!(!no_bytes.is_wf());
}

#[test]
fn field_exactly_filling_the_register_is_valid() {
    let full = FieldSchema { lo: 0, hi: 8, access: Access::ReadWrite };
    assert!(full.is_wf(1));
    assert!(!full.is_wf(0));
}

#[test]
fn register_set_keeps_registers_in_order() {
    let mut set = RegisterSet::new();
    assert_eq!(set.register_count(), 0);
    set.add_register(status_register());
    set.add_register(wide_register());
    assert_eq!(set.register_count(), 2);
    assert_eq!(set.register_at(0).address, 0x10);
    assert_eq!(set.register_at(1).address, 0x20);
    let mut bus = MockBus::new(vec![0b0001_0011u8]);
    let rv = set.register_at(0).read(&mut bus).ok().expect("read");
    assert_eq!(rv.field_value(&count_field()), 9);
}

#[test]
fn register_set_validity_follows_its_registers() {
    let mut set = RegisterSet::new();
    assert!(set.is_wf());
    set.add_register(status_register());
    set.add_register(wide_register());
    assert!(set.is_wf());
}

#[test]
fn write_value_starts_all_zero() {
    let w = WriteValue::zeroed(3);
    assert_eq!(w.len(), 3);
    let reg = RegisterSchema {
        address: 0u8,
        size_bytes: 3,
        access: Access::WriteOnly,
        fields: vec![],
    };
    let mut bus = MockBus::new(vec![0xFFu8, 0xFFu8, 0xFFu8]);
    reg.write(&mut bus, |w| w).ok().expect("write");
    assert_eq!(bus.mem, vec![0u8, 0u8, 0u8]);
}

#[test]
fn read_value_exposes_raw_bytes() {
    let reg = wide_register();
    let mut bus = MockBus::new(vec![0x12u8, 0x34u8]);
    let rv = reg.read(&mut bus).ok().expect("read");
    assert_eq!(rv.len(), 2);
    assert_eq!(rv.to_bytes(), vec![0x12u8, 0x34u8]);
}
