//! A block device's major/minor pair and its two packed encodings.
//!
//! The composite encoding is the platform's 64-bit `dev_t`: minor bits 0-7,
//! major bits 0-11 at 8-19, minor bits 8-31 at 20-43, major bits 12-31 at
//! 44-63. The legacy encoding is the kernel's 32-bit `kdev_t`: minor bits 0-7,
//! major bits 0-11 at 8-19, minor bits 8-19 at 20-31.
use vstd::prelude::*;

use crate::decimal::{decimal, push_decimal};

verus! {

/// A device's major and minor numbers.
#[derive(Debug, PartialEq, Eq, Structural, Clone, Copy, Hash)]
pub struct Device {
    /// Device major number
    pub major: u32,
    /// Device minor number
    pub minor: u32,
}

/// Largest major number that the legacy encoding holds.
pub const LEGACY_MAJOR_MAX: u32 = 0xfff;

/// Largest minor number that the legacy encoding holds.
pub const LEGACY_MINOR_MAX: u32 = 0xf_ffff;

/// Major number held in a composite device number.
pub open spec fn composite_major(v: u64) -> u32 {
    (((v & 0x0000_0000_000f_ff00u64) >> 8u64) | ((v & 0xffff_f000_0000_0000u64) >> 32u64)) as u32
}

/// Minor number held in a composite device number.
pub open spec fn composite_minor(v: u64) -> u32 {
    ((v & 0x0000_0000_0000_00ffu64) | ((v & 0x0000_0fff_fff0_0000u64) >> 12u64)) as u32
}

/// Composite device number of a major/minor pair.
pub open spec fn composite_pack(major: u32, minor: u32) -> u64 {
    ((major as u64 & 0x0000_0fffu64) << 8u64) | ((major as u64 & 0xffff_f000u64) << 32u64)
        | (minor as u64 & 0x0000_00ffu64) | ((minor as u64 & 0xffff_ff00u64) << 12u64)
}

/// Major number held in a legacy device number.
pub open spec fn legacy_major(v: u32) -> u32 {
    (v & 0xf_ff00u32) >> 8u32
}

/// Minor number held in a legacy device number.
pub open spec fn legacy_minor(v: u32) -> u32 {
    (v & 0xffu32) | ((v >> 12u32) & 0xf_ff00u32)
}

/// Whether the legacy encoding can hold a major/minor pair.
pub open spec fn legacy_representable(major: u32, minor: u32) -> bool {
    major <= 0xfff && minor <= 0xf_ffff
}

/// Legacy device number of a representable major/minor pair.
pub open spec fn legacy_pack(major: u32, minor: u32) -> u32 {
    (minor & 0xffu32) | (major << 8u32) | ((minor & !0xffu32) << 12u32)
}

/// Relies on libc::major: bits 8-19 and 44-63 of a `dev_t`, as its source
/// writes them for Linux.
#[verifier::external_body]
fn dev_major(v: u64) -> (r: u32)
    ensures
        r == composite_major(v),
{
    libc::major(v)
}

/// Relies on libc::minor: bits 0-7 and 20-43 of a `dev_t`, as its source
/// writes them for Linux.
#[verifier::external_body]
fn dev_minor(v: u64) -> (r: u32)
    ensures
        r == composite_minor(v),
{
    libc::minor(v)
}

/// Relies on libc::makedev: packs major and minor into a `dev_t` as its
/// source writes it for Linux.
#[verifier::external_body]
fn dev_make(major: u32, minor: u32) -> (r: u64)
    ensures
        r == composite_pack(major, minor),
{
    libc::makedev(major, minor)
}

impl Device {
    /// Decodes a composite (64-bit) device number.
    pub fn from_dev_t(val: u64) -> (r: Device)
        ensures
            r.major == composite_major(val),
            r.minor == composite_minor(val),
    {
        Device { major: dev_major(val), minor: dev_minor(val) }
    }

    /// Encodes as a composite (64-bit) device number; every pair fits.
    pub fn to_dev_t(&self) -> (r: u64)
        ensures
            r == composite_pack(self.major, self.minor),
    {
        dev_make(self.major, self.minor)
    }

    /// Make a Device from a kdev_t.
    pub fn from_kdev_t(val: u32) -> (r: Device)
        ensures
            r.major == legacy_major(val),
            r.minor == legacy_minor(val),
    {
        Device { major: (val & 0xf_ff00) >> 8, minor: (val & 0xff) | ((val >> 12) & 0xf_ff00) }
    }

    /// Convert to a kdev_t. Return None if values are not expressible as a
    /// kdev_t.
    pub fn to_kdev_t(&self) -> (r: Option<u32>)
        ensures
            r == (if legacy_representable(self.major, self.minor) {
                Some(legacy_pack(self.major, self.minor))
            } else {
                None::<u32>
            }),
    {
        if self.major > LEGACY_MAJOR_MAX || self.minor > LEGACY_MINOR_MAX {
            return None;
        }
        Some((self.minor & 0xff) | (self.major << 8) | ((self.minor & !0xff) << 12))
    }

    /// The device number as `"<major>:<minor>"`, both in decimal.
    pub fn format(&self) -> (r: String)
        ensures
            r@ == decimal(self.major as nat) + seq![':'] + decimal(self.minor as nat),
    {
        let mut s = String::new();
        push_decimal(&mut s, self.major);
        proof {
            reveal_strlit(":");
        }
        s.append(":");
        push_decimal(&mut s, self.minor);
        s
    }
}

impl From<u64> for Device {
    fn from(val: u64) -> (r: Device) {
        Device::from_dev_t(val)
    }
}

impl vstd::std_specs::convert::FromSpecImpl<u64> for Device {
    open spec fn obeys_from_spec() -> bool {
        true
    }

    open spec fn from_spec(val: u64) -> Device {
        Device { major: composite_major(val), minor: composite_minor(val) }
    }
}

impl From<Device> for u64 {
    fn from(dev: Device) -> (r: u64) {
        dev.to_dev_t()
    }
}

impl vstd::std_specs::convert::FromSpecImpl<Device> for u64 {
    open spec fn obeys_from_spec() -> bool {
        true
    }

    open spec fn from_spec(dev: Device) -> u64 {
        composite_pack(dev.major, dev.minor)
    }
}

/// Decoding a composite device number and encoding the result gives back the
/// number unchanged.
pub proof fn lemma_composite_round_trip(v: u64)
    ensures
        composite_pack(composite_major(v), composite_minor(v)) == v,
{
    let hi: u64 = (v & 0xffff_f000_0000_0000u64) >> 32u64;
    let lo: u64 = (v & 0x0000_0000_000f_ff00u64) >> 8u64;
    let ma: u64 = (lo | hi) as u32 as u64;
    assert(ma == lo | hi) by (bit_vector)
        requires
            hi == (v & 0xffff_f000_0000_0000u64) >> 32u64,
            lo == (v & 0x0000_0000_000f_ff00u64) >> 8u64,
            ma == (lo | hi) as u32 as u64,
    ;
    let mhi: u64 = (v & 0x0000_0fff_fff0_0000u64) >> 12u64;
    let mlo: u64 = v & 0x0000_0000_0000_00ffu64;
    let mi: u64 = (mlo | mhi) as u32 as u64;
    assert(mi == mlo | mhi) by (bit_vector)
        requires
            mhi == (v & 0x0000_0fff_fff0_0000u64) >> 12u64,
            mlo == v & 0x0000_0000_0000_00ffu64,
            mi == (mlo | mhi) as u32 as u64,
    ;
    assert(((ma & 0x0000_0fffu64) << 8u64) | ((ma & 0xffff_f000u64) << 32u64) | (mi
        & 0x0000_00ffu64) | ((mi & 0xffff_ff00u64) << 12u64) == v) by (bit_vector)
        requires
            ma == ((v & 0x0000_0000_000f_ff00u64) >> 8u64) | ((v & 0xffff_f000_0000_0000u64)
                >> 32u64),
            mi == (v & 0x0000_0000_0000_00ffu64) | ((v & 0x0000_0fff_fff0_0000u64) >> 12u64),
    ;
}

/// Encoding a major/minor pair as a composite device number and decoding it
/// gives back the pair.
pub proof fn lemma_composite_decode_pack(major: u32, minor: u32)
    ensures
        composite_major(composite_pack(major, minor)) == major,
        composite_minor(composite_pack(major, minor)) == minor,
{
    let ma: u64 = major as u64;
    let mi: u64 = minor as u64;
    let p: u64 = composite_pack(major, minor);
    assert(((p & 0x0000_0000_000f_ff00u64) >> 8u64) | ((p & 0xffff_f000_0000_0000u64) >> 32u64)
        == ma) by (bit_vector)
        requires
            ma <= 0xffff_ffffu64,
            mi <= 0xffff_ffffu64,
            p == ((ma & 0x0000_0fffu64) << 8u64) | ((ma & 0xffff_f000u64) << 32u64) | (mi
                & 0x0000_00ffu64) | ((mi & 0xffff_ff00u64) << 12u64),
    ;
    assert((p & 0x0000_0000_0000_00ffu64) | ((p & 0x0000_0fff_fff0_0000u64) >> 12u64) == mi)
        by (bit_vector)
        requires
            ma <= 0xffff_ffffu64,
            mi <= 0xffff_ffffu64,
            p == ((ma & 0x0000_0fffu64) << 8u64) | ((ma & 0xffff_f000u64) << 32u64) | (mi
                & 0x0000_00ffu64) | ((mi & 0xffff_ff00u64) << 12u64),
    ;
}

/// Decoding a legacy device number and encoding the result gives back the
/// number: every legacy number decodes to a representable pair.
pub proof fn lemma_legacy_round_trip(v: u32)
    ensures
        legacy_representable(legacy_major(v), legacy_minor(v)),
        legacy_pack(legacy_major(v), legacy_minor(v)) == v,
{
    let ma: u32 = legacy_major(v);
    let mi: u32 = legacy_minor(v);
    assert(ma <= 0xfff && mi <= 0xf_ffff && (mi & 0xffu32) | (ma << 8u32) | ((mi & !0xffu32)
        << 12u32) == v) by (bit_vector)
        requires
            ma == (v & 0xf_ff00u32) >> 8u32,
            mi == (v & 0xffu32) | ((v >> 12u32) & 0xf_ff00u32),
    ;
}

/// Encoding a representable pair in the legacy form and decoding it gives
/// back the pair.
pub proof fn lemma_legacy_decode_pack(major: u32, minor: u32)
    requires
        legacy_representable(major, minor),
    ensures
        legacy_major(legacy_pack(major, minor)) == major,
        legacy_minor(legacy_pack(major, minor)) == minor,
{
    let p: u32 = legacy_pack(major, minor);
    assert((p & 0xf_ff00u32) >> 8u32 == major && (p & 0xffu32) | ((p >> 12u32) & 0xf_ff00u32)
        == minor) by (bit_vector)
        requires
            major <= 0xfff,
            minor <= 0xf_ffff,
            p == (minor & 0xffu32) | (major << 8u32) | ((minor & !0xffu32) << 12u32),
    ;
}

} // verus!
