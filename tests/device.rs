use devicemapper::device::Device;
use libc::dev_t;

#[test]
/// Verify conversion is correct both ways
pub fn test_dev_t_conversion() {
    let test_devt_1: dev_t = 0xabcdef1234567890;

    let dev1 = Device::from(test_devt_1);
    // Default glibc dev_t encoding is MMMM Mmmm mmmM MMmm.
    assert_eq!(dev1.major, 0xabcde678);
    assert_eq!(dev1.minor, 0xf1234590);

    let test_devt_2: dev_t = dev_t::from(dev1);
    assert_eq!(test_devt_1, test_devt_2);
}

#[test]
/// Verify conversion is correct both ways
pub fn test_kdev_t_conversion() {
    let test_devt_1: u32 = 0x12345678;

    let dev1 = Device::from_kdev_t(test_devt_1);
    // Default kernel kdev_t "huge" encoding is mmmM MMmm.
    assert_eq!(dev1.major, 0x456);
    assert_eq!(dev1.minor, 0x12378);

    let test_devt_2: u32 = dev1.to_kdev_t().unwrap();
    assert_eq!(test_devt_1, test_devt_2);

    // a Device inexpressible as a kdev_t
    let dev2 = Device::from(0xabcdef1234567890);
    assert_eq!(dev2.to_kdev_t(), None);
}

#[test]
fn format_is_major_colon_minor() {
    assert_eq!(Device { major: 2, minor: 5 }.format(), "2:5");
    assert_eq!(Device { major: 0, minor: 0 }.format(), "0:0");
    assert_eq!(Device { major: 253, minor: 10 }.format(), "253:10");
    assert_eq!(Device { major: u32::MAX, minor: 4096 }.format(), "4294967295:4096");
}

#[test]
fn composite_round_trip_on_samples() {
    let samples: [u64; 6] = [0, 1, u64::MAX, 0xabcdef1234567890, 0x0000_0fff_fff0_0000, 0x8000_0000_0000_0001];
    for v in samples {
        let d = Device::from_dev_t(v);
        assert_eq!(d.to_dev_t(), v);
        assert_eq!(u64::from(d), v);
    }
}

#[test]
fn composite_decode_of_packed_pair() {
    let d = Device { major: 0x1234_5678, minor: 0x9abc_def0 };
    let v = d.to_dev_t();
    assert_eq!(Device::from_dev_t(v), d);
    assert_eq!(Device { major: 8, minor: 1 }.to_dev_t(), 0x801);
}

#[test]
fn legacy_round_trip_on_samples() {
    let samples: [u32; 5] = [0, 1, u32::MAX, 0x12345678, 0xfff0_0000];
    for v in samples {
        assert_eq!(Device::from_kdev_t(v).to_kdev_t(), Some(v));
    }
}

#[test]
fn legacy_boundary() {
    assert_eq!(Device { major: 0xfff, minor: 0xf_ffff }.to_kdev_t(), Some(0xffff_ffff));
    assert_eq!(Device { major: 0x1000, minor: 0 }.to_kdev_t(), None);
    assert_eq!(Device { major: 0, minor: 0x10_0000 }.to_kdev_t(), None);
    assert_eq!(Device { major: 8, minor: 0x123 }.to_kdev_t(), Some(0x0010_0823));
}

#[test]
fn composite_device_has_no_legacy_form() {
    let d = Device::from(0xabcdef1234567890u64);
    assert_eq!(d.major, 0xabcde678);
    assert_eq!(d.to_kdev_t(), None);
}
