//! Parsing and validation of raw `A.B.C.D/N` input into a
//! [`NetworkDescriptor`], with the spec-level meaning of validity.

use vstd::prelude::*;
use vstd::string::StrSliceExecFns;
use vstd::string::StringExecFns;

use crate::descriptor::NetworkDescriptor;
use crate::descriptor::ValidationError;
use crate::text::digit_val;
use crate::text::digits_val;
use crate::text::has_char;
use crate::text::is_digit;
use crate::text::is_digit_str;
use crate::text::lemma_digits_val_prefix_le;
use crate::text::lemma_split_on_found;
use crate::text::lemma_split_on_has_sep;
use crate::text::lemma_split_on_no_sep;
use crate::text::split_on;

verus! {

/// A single dot-separated part of an address: digits denoting at most 255.
pub open spec fn valid_octet(s: Seq<char>) -> bool {
    is_digit_str(s) && digits_val(s) <= 255
}

/// Four dot-separated octets.
pub open spec fn valid_ip_str(s: Seq<char>) -> bool {
    let parts = split_on(s, '.');
    &&& parts.len() == 4
    &&& valid_octet(parts[0])
    &&& valid_octet(parts[1])
    &&& valid_octet(parts[2])
    &&& valid_octet(parts[3])
}

/// The 32-bit value a dotted address denotes, most significant octet first.
pub open spec fn ip_value(s: Seq<char>) -> int {
    let parts = split_on(s, '.');
    ((digits_val(parts[0]) * 256 + digits_val(parts[1])) * 256 + digits_val(parts[2])) * 256
        + digits_val(parts[3])
}

/// A prefix part: digits denoting at most 32.
pub open spec fn valid_prefix_str(s: Seq<char>) -> bool {
    is_digit_str(s) && digits_val(s) <= 32
}

/// What validation returns for any raw input: the descriptor, or the first
/// error in the order malformed input, bad address, bad prefix.
pub open spec fn spec_validate(s: Seq<char>) -> Result<NetworkDescriptor, ValidationError> {
    let parts = split_on(s, '/');
    if parts.len() != 2 {
        Err(ValidationError::MalformedInput)
    } else if !valid_ip_str(parts[0]) {
        Err(ValidationError::InvalidAddress)
    } else if !valid_prefix_str(parts[1]) {
        Err(ValidationError::InvalidPrefix)
    } else {
        Ok(
            NetworkDescriptor {
                base_address: ip_value(parts[0]) as u32,
                prefix_length: digits_val(parts[1]) as u8,
            },
        )
    }
}

/// Cuts `s` at the first occurrence of `sep`: the part before it (free of
/// `sep`) and everything after it; `None` when `sep` does not occur.
fn split_first<'a>(s: &'a str, sep: char) -> (r: Option<(&'a str, &'a str)>)
    ensures
        r is None ==> !has_char(s@, sep),
        r matches Some((a, b)) ==> s@ == a@ + seq![sep] + b@ && !has_char(a@, sep),
{
    let n = s.unicode_len();
    let mut i: usize = 0;
    while i < n
        invariant
            i <= n,
            n == s@.len(),
            forall|j: int| 0 <= j < i ==> s@[j] != sep,
        decreases n - i,
    {
        if s.get_char(i) == sep {
            let a = s.substring_char(0, i);
            let b = s.substring_char(i + 1, n);
            proof {
                assert(s@ =~= a@ + seq![sep] + b@);
            }
            return Some((a, b));
        }
        i += 1;
    }
    None
}

/// Parses `s` as a decimal number of at most `cap`; `None` when `s` is not
/// a non-empty digit run or denotes more than `cap`.
pub fn parse_decimal(s: &str, cap: u32) -> (r: Option<u32>)
    ensures
        r is Some <==> is_digit_str(s@) && digits_val(s@) <= cap,
        r matches Some(v) ==> v as int == digits_val(s@) && v <= cap,
{
    let n = s.unicode_len();
    if n == 0 {
        return None;
    }
    let mut acc: u64 = 0;
    let mut i: usize = 0;
    while i < n
        invariant
            i <= n,
            n == s@.len(),
            forall|j: int| 0 <= j < i ==> is_digit(#[trigger] s@[j]),
            acc as int == digits_val(s@.take(i as int)),
            acc <= cap,
        decreases n - i,
    {
        let c = s.get_char(i);
        if c < '0' || c > '9' {
            return None;
        }
        let d: u32 = (c as u32) - ('0' as u32);
        proof {
            assert(s@.take(i + 1).drop_last() =~= s@.take(i as int));
            assert(s@.take(i + 1).last() == s@[i as int]);
        }
        let next: u64 = acc * 10 + (d as u64);
        if next > cap as u64 {
            proof {
                if is_digit_str(s@) && digits_val(s@) <= cap {
                    lemma_digits_val_prefix_le(s@, i + 1);
                }
            }
            return None;
        }
        acc = next;
        i += 1;
    }
    proof {
        assert(s@.take(n as int) =~= s@);
    }
    Some(acc as u32)
}

/// Parses `s` as a dotted-quad IPv4 address; `None` exactly when `s` is not
/// four dot-separated octets in 0..=255.
pub fn parse_ipv4(s: &str) -> (r: Option<u32>)
    ensures
        r is Some <==> valid_ip_str(s@),
        r matches Some(v) ==> v as int == ip_value(s@),
{
    let (p0, r1) = match split_first(s, '.') {
        Some(x) => x,
        None => {
            proof {
                lemma_split_on_no_sep(s@, '.');
            }
            return None;
        },
    };
    proof {
        lemma_split_on_found(p0@, r1@, '.');
    }
    let (p1, r2) = match split_first(r1, '.') {
        Some(x) => x,
        None => {
            proof {
                lemma_split_on_no_sep(r1@, '.');
            }
            return None;
        },
    };
    proof {
        lemma_split_on_found(p1@, r2@, '.');
    }
    let (p2, p3) = match split_first(r2, '.') {
        Some(x) => x,
        None => {
            proof {
                lemma_split_on_no_sep(r2@, '.');
            }
            return None;
        },
    };
    proof {
        lemma_split_on_found(p2@, p3@, '.');
    }
    match split_first(p3, '.') {
        Some(x) => {
            proof {
                let (a, b) = x;
                assert(p3@[a@.len() as int] == '.');
                lemma_split_on_has_sep(p3@, '.');
            }
            return None;
        },
        None => {},
    }
    proof {
        lemma_split_on_no_sep(p3@, '.');
        assert(split_on(s@, '.') =~~= seq![p0@, p1@, p2@, p3@]);
    }
    let o0 = match parse_decimal(p0, 255) {
        Some(v) => v,
        None => {
            return None;
        },
    };
    let o1 = match parse_decimal(p1, 255) {
        Some(v) => v,
        None => {
            return None;
        },
    };
    let o2 = match parse_decimal(p2, 255) {
        Some(v) => v,
        None => {
            return None;
        },
    };
    let o3 = match parse_decimal(p3, 255) {
        Some(v) => v,
        None => {
            return None;
        },
    };
    Some(((o0 * 256 + o1) * 256 + o2) * 256 + o3)
}

/// Validates the length and octet values of a dotted IPv4 address.
pub fn validate_ip_address(ip_address: &str) -> (r: bool)
    ensures
        r == valid_ip_str(ip_address@),
{
    parse_ipv4(ip_address).is_some()
}

/// Validates a raw `A.B.C.D/N` string into a network descriptor, or reports
/// the first reason it is rejected.
pub fn validate_ip_cidr(input: &str) -> (r: Result<NetworkDescriptor, ValidationError>)
    ensures
        r == spec_validate(input@),
        r matches Ok(d) ==> d.valid(),
{
    let (ip_part, prefix_part) = match split_first(input, '/') {
        Some(x) => x,
        None => {
            proof {
                lemma_split_on_no_sep(input@, '/');
            }
            return Err(ValidationError::MalformedInput);
        },
    };
    proof {
        lemma_split_on_found(ip_part@, prefix_part@, '/');
    }
    match split_first(prefix_part, '/') {
        Some(x) => {
            proof {
                let (a, b) = x;
                assert(prefix_part@[a@.len() as int] == '/');
                lemma_split_on_has_sep(prefix_part@, '/');
            }
            return Err(ValidationError::MalformedInput);
        },
        None => {},
    }
    proof {
        lemma_split_on_no_sep(prefix_part@, '/');
        assert(split_on(input@, '/') =~~= seq![ip_part@, prefix_part@]);
    }
    let base = match parse_ipv4(ip_part) {
        Some(b) => b,
        None => {
            return Err(ValidationError::InvalidAddress);
        },
    };
    let prefix = match parse_decimal(prefix_part, 32) {
        Some(p) => p,
        None => {
            return Err(ValidationError::InvalidPrefix);
        },
    };
    Ok(NetworkDescriptor { base_address: base, prefix_length: prefix as u8 })
}

fn digit_str(d: u8) -> (s: &'static str)
    requires
        d <= 9,
    ensures
        s@.len() == 1,
        is_digit(s@[0]),
        digit_val(s@[0]) == d,
{
    proof {
        reveal_strlit("0");
        reveal_strlit("1");
        reveal_strlit("2");
        reveal_strlit("3");
        reveal_strlit("4");
        reveal_strlit("5");
        reveal_strlit("6");
        reveal_strlit("7");
        reveal_strlit("8");
        reveal_strlit("9");
    }
    match d {
        0 => "0",
        1 => "1",
        2 => "2",
        3 => "3",
        4 => "4",
        5 => "5",
        6 => "6",
        7 => "7",
        8 => "8",
        _ => "9",
    }
}

/// The canonical decimal rendering of `v`: one to three digits, no
/// leading zero except for zero itself.
fn decimal_str(v: u8) -> (s: String)
    ensures
        is_digit_str(s@),
        digits_val(s@) == v,
{
    proof {
        vstd::arithmetic::div_mod::lemma_fundamental_div_mod(v as int, 100);
        vstd::arithmetic::div_mod::lemma_fundamental_div_mod((v % 100) as int, 10);
    }
    let d100: u8 = v / 100;
    let rem: u8 = v % 100;
    let d10: u8 = rem / 10;
    let d1: u8 = rem % 10;
    let g1 = digit_str(d1);
    let mut s = String::new();
    if v >= 100 {
        let g100 = digit_str(d100);
        let g10 = digit_str(d10);
        s.append(g100);
        s.append(g10);
        s.append(g1);
        proof {
            let t = seq![g100@[0], g10@[0], g1@[0]];
            assert(s@ =~= t);
            assert(seq![g100@[0]].drop_last() =~= Seq::<char>::empty());
            assert(t.drop_last() =~= seq![g100@[0], g10@[0]]);
            assert(seq![g100@[0], g10@[0]].drop_last() =~= seq![g100@[0]]);
            assert(digits_val(Seq::<char>::empty()) == 0);
            assert(digits_val(seq![g100@[0]]) == d100);
            assert(digits_val(seq![g100@[0], g10@[0]]) == 10 * d100 + d10);
            assert(digits_val(t) == 100 * d100 + 10 * d10 + d1);
        }
    } else if v >= 10 {
        let g10 = digit_str(d10);
        s.append(g10);
        s.append(g1);
        proof {
            let t = seq![g10@[0], g1@[0]];
            assert(s@ =~= t);
            assert(seq![g10@[0]].drop_last() =~= Seq::<char>::empty());
            assert(t.drop_last() =~= seq![g10@[0]]);
            assert(digits_val(Seq::<char>::empty()) == 0);
            assert(digits_val(seq![g10@[0]]) == d10);
            assert(digits_val(t) == 10 * d10 + d1);
        }
    } else {
        s.append(g1);
        proof {
            let t = seq![g1@[0]];
            assert(s@ =~= t);
            assert(t.drop_last() =~= Seq::<char>::empty());
            assert(digits_val(Seq::<char>::empty()) == 0);
            assert(digits_val(t) == d1);
        }
    }
    s
}

/// Serializes a descriptor to its `A.B.C.D/N` form; validating the
/// rendered string yields the descriptor back (the validator round trip).
pub fn to_cidr_string(descriptor: &NetworkDescriptor) -> (s: String)
    requires
        descriptor.valid(),
    ensures
        spec_validate(s@) == Ok::<NetworkDescriptor, ValidationError>(*descriptor),
{
    let b = descriptor.base_address;
    proof {
        assert(b / 0x100_0000 < 256);
        assert((b / 0x1_0000) % 256 < 256);
        assert((b / 256) % 256 < 256);
        assert(b % 256 < 256);
    }
    let o0: u8 = (b / 0x100_0000) as u8;
    let o1: u8 = ((b / 0x1_0000) % 256) as u8;
    let o2: u8 = ((b / 256) % 256) as u8;
    let o3: u8 = (b % 256) as u8;
    let mut s = decimal_str(o0);
    let ghost a0 = s@;
    s.append(".");
    let part1 = decimal_str(o1);
    let ghost a1 = part1@;
    s.append(part1.as_str());
    s.append(".");
    let part2 = decimal_str(o2);
    let ghost a2 = part2@;
    s.append(part2.as_str());
    s.append(".");
    let part3 = decimal_str(o3);
    let ghost a3 = part3@;
    s.append(part3.as_str());
    s.append("/");
    let part_p = decimal_str(descriptor.prefix_length);
    let ghost ap = part_p@;
    s.append(part_p.as_str());
    proof {
        reveal_strlit(".");
        reveal_strlit("/");
        let dot = seq!['.'];
        let slash = seq!['/'];
        assert("."@ =~= dot);
        assert("/"@ =~= slash);
        let ip = a0 + dot + a1 + dot + a2 + dot + a3;
        assert(s@ =~= ip + slash + ap);

        assert(!has_char(a0, '.') && !has_char(a0, '/'));
        assert(!has_char(a1, '.') && !has_char(a1, '/'));
        assert(!has_char(a2, '.') && !has_char(a2, '/'));
        assert(!has_char(a3, '.') && !has_char(a3, '/'));
        assert(!has_char(ap, '/'));
        assert(!has_char(ip, '/')) by {
            assert forall|i: int| 0 <= i < ip.len() implies ip[i] != '/' by {
                let l0 = a0.len() as int;
                let l1 = a1.len() as int;
                let l2 = a2.len() as int;
                if i < l0 {
                    assert(ip[i] == a0[i]);
                } else if i == l0 {
                    assert(ip[i] == '.');
                } else if i < l0 + 1 + l1 {
                    assert(ip[i] == a1[i - l0 - 1]);
                } else if i == l0 + 1 + l1 {
                    assert(ip[i] == '.');
                } else if i < l0 + 1 + l1 + 1 + l2 {
                    assert(ip[i] == a2[i - l0 - 1 - l1 - 1]);
                } else if i == l0 + 1 + l1 + 1 + l2 {
                    assert(ip[i] == '.');
                } else {
                    assert(ip[i] == a3[i - l0 - 1 - l1 - 1 - l2 - 1]);
                }
            }
        }
        lemma_split_on_no_sep(ap, '/');
        lemma_split_on_found(ip, ap, '/');
        assert(split_on(s@, '/') =~~= seq![ip, ap]);

        assert(ip =~= a0 + dot + (a1 + dot + a2 + dot + a3));
        lemma_split_on_found(a0, a1 + dot + a2 + dot + a3, '.');
        assert(a1 + dot + a2 + dot + a3 =~= a1 + dot + (a2 + dot + a3));
        lemma_split_on_found(a1, a2 + dot + a3, '.');
        lemma_split_on_found(a2, a3, '.');
        lemma_split_on_no_sep(a3, '.');
        assert(split_on(ip, '.') =~~= seq![a0, a1, a2, a3]);
        assert(valid_ip_str(ip));

        vstd::arithmetic::div_mod::lemma_div_denominator(b as int, 256, 256);
        vstd::arithmetic::div_mod::lemma_div_denominator(b as int, 65536, 256);
        vstd::arithmetic::div_mod::lemma_fundamental_div_mod(b as int, 256);
        vstd::arithmetic::div_mod::lemma_fundamental_div_mod(b as int / 256, 256);
        vstd::arithmetic::div_mod::lemma_fundamental_div_mod(b as int / 65536, 256);
        assert(ip_value(ip) == b);
        assert(valid_prefix_str(ap));
        assert(digits_val(ap) == descriptor.prefix_length);
    }
    s
}

} // verus!
