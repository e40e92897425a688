use subnet_scan::validate_ip_address;
use subnet_scan::validate_ip_cidr;
use subnet_scan::NetworkDescriptor;
use subnet_scan::ValidationError;

fn addr(a: u32, b: u32, c: u32, d: u32) -> u32 {
    (a << 24) | (b << 16) | (c << 8) | d
}

#[test]
fn accepts_ordinary_cidr() {
    let r = validate_ip_cidr("192.168.1.0/24").unwrap();
    assert_eq!(r.base_address, addr(192, 168, 1, 0));
    assert_eq!(r.prefix_length, 24);
}

#[test]
fn accepts_edge_prefixes() {
    let r = validate_ip_cidr("0.0.0.0/0").unwrap();
    assert_eq!(r.base_address, 0);
    assert_eq!(r.prefix_length, 0);
    let r = validate_ip_cidr("255.255.255.255/32").unwrap();
    assert_eq!(r.base_address, 0xFFFF_FFFF);
    assert_eq!(r.prefix_length, 32);
}

#[test]
fn rejects_missing_slash() {
    assert_eq!(validate_ip_cidr("10.0.0.1"), Err(ValidationError::MalformedInput));
}

#[test]
fn rejects_double_slash() {
    assert_eq!(validate_ip_cidr("10.0.0.1/24/8"), Err(ValidationError::MalformedInput));
}

#[test]
fn rejects_prefix_over_32() {
    assert_eq!(validate_ip_cidr("10.0.0.1/33"), Err(ValidationError::InvalidPrefix));
}

#[test]
fn rejects_unparsable_prefix() {
    assert_eq!(validate_ip_cidr("10.0.0.1/abc"), Err(ValidationError::InvalidPrefix));
    assert_eq!(validate_ip_cidr("10.0.0.1/"), Err(ValidationError::InvalidPrefix));
}

#[test]
fn rejects_octet_over_255() {
    assert_eq!(validate_ip_cidr("10.0.0.256/24"), Err(ValidationError::InvalidAddress));
}

#[test]
fn rejects_three_octets() {
    assert_eq!(validate_ip_cidr("10.0.0/24"), Err(ValidationError::InvalidAddress));
}

#[test]
fn rejects_five_octets() {
    assert_eq!(validate_ip_cidr("10.0.0.1.2/24"), Err(ValidationError::InvalidAddress));
}

#[test]
fn rejects_non_numeric_octet() {
    assert_eq!(validate_ip_cidr("10.a.0.1/24"), Err(ValidationError::InvalidAddress));
    assert_eq!(validate_ip_cidr("10..0.1/24"), Err(ValidationError::InvalidAddress));
    assert_eq!(validate_ip_cidr("-1.0.0.1/24"), Err(ValidationError::InvalidAddress));
}

#[test]
fn address_check_alone() {
    assert!(validate_ip_address("1.2.3.4"));
    assert!(validate_ip_address("0.0.0.0"));
    assert!(validate_ip_address("255.255.255.255"));
    assert!(!validate_ip_address("1.2.3"));
    assert!(!validate_ip_address("1.2.3.4.5"));
    assert!(!validate_ip_address("256.1.1.1"));
    assert!(!validate_ip_address("a.b.c.d"));
    assert!(!validate_ip_address(""));
}

#[test]
fn decimal_parsing() {
    assert_eq!(subnet_scan::parse_decimal("0", 255), Some(0));
    assert_eq!(subnet_scan::parse_decimal("255", 255), Some(255));
    assert_eq!(subnet_scan::parse_decimal("007", 255), Some(7));
    assert_eq!(subnet_scan::parse_decimal("256", 255), None);
    assert_eq!(subnet_scan::parse_decimal("", 255), None);
    assert_eq!(subnet_scan::parse_decimal("+5", 255), None);
    assert_eq!(subnet_scan::parse_decimal(" 5", 255), None);
    assert_eq!(subnet_scan::parse_decimal("33", 32), None);
    assert_eq!(subnet_scan::parse_decimal("32", 32), Some(32));
}

#[test]
fn round_trip_ordinary() {
    let d = NetworkDescriptor { base_address: addr(10, 0, 0, 1), prefix_length: 24 };
    let s = subnet_scan::to_cidr_string(&d);
    assert_eq!(s, "10.0.0.1/24");
    assert_eq!(validate_ip_cidr(&s), Ok(d));
}

#[test]
fn round_trip_edges() {
    let lo = NetworkDescriptor { base_address: 0, prefix_length: 0 };
    assert_eq!(subnet_scan::to_cidr_string(&lo), "0.0.0.0/0");
    assert_eq!(validate_ip_cidr(&subnet_scan::to_cidr_string(&lo)), Ok(lo));
    let hi = NetworkDescriptor { base_address: 0xFFFF_FFFF, prefix_length: 32 };
    assert_eq!(subnet_scan::to_cidr_string(&hi), "255.255.255.255/32");
    assert_eq!(validate_ip_cidr(&subnet_scan::to_cidr_string(&hi)), Ok(hi));
}
