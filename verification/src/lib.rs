//! IPv4 subnet host discovery core.
//!
//! Parses and validates `A.B.C.D/N` input, enumerates every address the
//! prefix covers, and aggregates per-address reachability outcomes into a
//! scan result. Probing itself (an external echo request) is performed by
//! the caller, which drives the [`scanner::Scanner`] state machine.

pub mod descriptor;
pub mod scanner;
pub mod space;
pub mod text;
pub mod validator;

pub use descriptor::NetworkDescriptor;
pub use descriptor::ScanError;
pub use descriptor::ValidationError;
pub use scanner::assemble_result;
pub use scanner::classify_probe;
pub use scanner::sort_addresses;
pub use scanner::ProbeConfig;
pub use scanner::ProbeOutcome;
pub use scanner::ScanResult;
pub use scanner::Scanner;
pub use space::AddressSpace;
pub use validator::parse_decimal;
pub use validator::parse_ipv4;
pub use validator::to_cidr_string;
pub use validator::validate_ip_address;
pub use validator::validate_ip_cidr;
