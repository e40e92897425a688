use subnet_scan::AddressSpace;
use subnet_scan::NetworkDescriptor;

fn addr(a: u32, b: u32, c: u32, d: u32) -> u32 {
    (a << 24) | (b << 16) | (c << 8) | d
}

fn space(base: u32, prefix: u8) -> AddressSpace {
    AddressSpace::new(NetworkDescriptor { base_address: base, prefix_length: prefix })
}

#[test]
fn mask_values() {
    assert_eq!(space(0, 0).subnet_mask, 0);
    assert_eq!(space(0, 8).subnet_mask, 0xFF00_0000);
    assert_eq!(space(0, 24).subnet_mask, 0xFFFF_FF00);
    assert_eq!(space(0, 32).subnet_mask, 0xFFFF_FFFF);
}

#[test]
fn count_is_power_of_two_of_free_bits() {
    assert_eq!(space(0, 32).count(), 1);
    assert_eq!(space(0, 30).count(), 4);
    assert_eq!(space(0, 24).count(), 256);
    assert_eq!(space(0, 0).count(), 1u64 << 32);
}

#[test]
fn full_prefix_yields_exactly_the_base() {
    let s = space(addr(10, 1, 2, 3), 32);
    let v = s.enumerate();
    assert_eq!(v, vec![addr(10, 1, 2, 3)]);
}

#[test]
fn slash_30_enumerates_inclusively() {
    let s = space(addr(192, 168, 1, 0), 30);
    let v = s.enumerate();
    assert_eq!(
        v,
        vec![
            addr(192, 168, 1, 0),
            addr(192, 168, 1, 1),
            addr(192, 168, 1, 2),
            addr(192, 168, 1, 3),
        ]
    );
}

#[test]
fn base_host_bits_are_cleared() {
    let s = space(addr(192, 168, 1, 77), 30);
    let v = s.enumerate();
    assert_eq!(
        v,
        vec![
            addr(192, 168, 1, 76),
            addr(192, 168, 1, 77),
            addr(192, 168, 1, 78),
            addr(192, 168, 1, 79),
        ]
    );
}

#[test]
fn enumeration_is_distinct_and_in_subnet() {
    let s = space(addr(10, 20, 30, 40), 24);
    let v = s.enumerate();
    assert_eq!(v.len(), 256);
    for (i, a) in v.iter().enumerate() {
        assert_eq!(a & s.subnet_mask, addr(10, 20, 30, 40) & s.subnet_mask);
        assert_eq!(*a, addr(10, 20, 30, 0) + i as u32);
    }
    let mut w = v.clone();
    w.sort();
    w.dedup();
    assert_eq!(w.len(), 256);
}

#[test]
fn enumeration_is_restartable_and_deterministic() {
    let s = space(addr(172, 16, 5, 0), 28);
    assert_eq!(s.enumerate(), s.enumerate());
}
