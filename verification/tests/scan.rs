use subnet_scan::classify_probe;
use subnet_scan::ProbeConfig;
use subnet_scan::ProbeOutcome;
use subnet_scan::ScanError;
use subnet_scan::ScanResult;
use subnet_scan::Scanner;
use subnet_scan::ValidationError;

fn addr(a: u32, b: u32, c: u32, d: u32) -> u32 {
    (a << 24) | (b << 16) | (c << 8) | d
}

/// Drives a whole scan with a deterministic reachability stub.
fn run_scan(input: &str, reachable_stub: &dyn Fn(u32) -> bool) -> Result<ScanResult, ScanError> {
    let mut scanner = Scanner::new(input)?;
    while let Some(address) = scanner.next_to_probe() {
        scanner.record_outcome(ProbeOutcome { address, reachable: reachable_stub(address) });
    }
    Ok(scanner.finish())
}

#[test]
fn scan_slash_30_with_two_reachable() {
    let up1 = addr(192, 168, 1, 1);
    let up2 = addr(192, 168, 1, 2);
    let r = run_scan("192.168.1.0/30", &|a| a == up1 || a == up2).unwrap();
    assert_eq!(r.total_probed, 4);
    assert_eq!(r.reachable_addresses, vec![up1, up2]);
    assert_eq!(r.unreachable_count, 2);
}

#[test]
fn scan_with_nothing_reachable() {
    let r = run_scan("10.0.0.0/29", &|_| false).unwrap();
    assert_eq!(r.total_probed, 8);
    assert_eq!(r.reachable_addresses, Vec::<u32>::new());
    assert_eq!(r.unreachable_count, 8);
}

#[test]
fn scan_with_everything_reachable() {
    let r = run_scan("10.0.0.0/29", &|_| true).unwrap();
    assert_eq!(r.total_probed, 8);
    assert_eq!(r.reachable_addresses.len(), 8);
    assert_eq!(r.unreachable_count, 0);
}

#[test]
fn scan_propagates_validation_errors_without_probing() {
    assert!(matches!(
        run_scan("10.0.0.1", &|_| true),
        Err(ScanError::Validation(ValidationError::MalformedInput))
    ));
    assert!(matches!(
        run_scan("10.0.0.1/33", &|_| true),
        Err(ScanError::Validation(ValidationError::InvalidPrefix))
    ));
    assert!(matches!(
        run_scan("10.0.0.256/24", &|_| true),
        Err(ScanError::Validation(ValidationError::InvalidAddress))
    ));
}

#[test]
fn scan_twice_is_bit_identical() {
    let stub = |a: u32| a % 3 == 0;
    let r1 = run_scan("172.16.0.0/26", &stub).unwrap();
    let r2 = run_scan("172.16.0.0/26", &stub).unwrap();
    assert_eq!(r1.total_probed, r2.total_probed);
    assert_eq!(r1.reachable_addresses, r2.reachable_addresses);
    assert_eq!(r1.unreachable_count, r2.unreachable_count);
}

#[test]
fn unordered_completion_rebuilds_the_sequential_result() {
    let stub = |a: u32| a % 2 == 1;
    let sequential = run_scan("192.168.7.0/28", &stub).unwrap();

    // A concurrent pool completes in some arbitrary order; collect the
    // reachable addresses in that order, then reassemble.
    let mut scanner = Scanner::new("192.168.7.0/28").unwrap();
    let mut collected = Vec::new();
    let mut total = 0u64;
    while let Some(address) = scanner.next_to_probe() {
        scanner.record_outcome(ProbeOutcome { address, reachable: stub(address) });
        if stub(address) {
            collected.push(address);
        }
        total += 1;
    }
    collected.reverse();
    let rebuilt = subnet_scan::scanner::assemble_result(total, &collected);
    assert_eq!(rebuilt.total_probed, sequential.total_probed);
    assert_eq!(rebuilt.reachable_addresses, sequential.reachable_addresses);
    assert_eq!(rebuilt.unreachable_count, sequential.unreachable_count);
}

#[test]
fn sort_addresses_orders_ascending() {
    let v = vec![9, 3, 3, 7, 0, 0xFFFF_FFFF, 1];
    let sorted = subnet_scan::scanner::sort_addresses(&v);
    assert_eq!(sorted, vec![0, 1, 3, 3, 7, 9, 0xFFFF_FFFF]);
}

#[test]
fn classification_matches_expected_reply_count() {
    let config = ProbeConfig::default();
    assert_eq!(config.probe_count, 1);
    let up = classify_probe(addr(10, 0, 0, 1), 1, config);
    assert_eq!(up.address, addr(10, 0, 0, 1));
    assert!(up.reachable);
    let down = classify_probe(addr(10, 0, 0, 2), 0, config);
    assert!(!down.reachable);
    let config3 = ProbeConfig { probe_count: 3 };
    assert!(!classify_probe(addr(10, 0, 0, 3), 1, config3).reachable);
    assert!(classify_probe(addr(10, 0, 0, 3), 3, config3).reachable);
}

#[test]
fn scanner_reports_progress_in_enumeration_order() {
    let mut scanner = Scanner::new("10.1.2.0/30").unwrap();
    let mut seen = Vec::new();
    while let Some(address) = scanner.next_to_probe() {
        seen.push(address);
        scanner.record_outcome(ProbeOutcome { address, reachable: false });
    }
    assert!(scanner.is_done());
    assert_eq!(
        seen,
        vec![addr(10, 1, 2, 0), addr(10, 1, 2, 1), addr(10, 1, 2, 2), addr(10, 1, 2, 3)]
    );
}
