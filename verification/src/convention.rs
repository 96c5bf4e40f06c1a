//! The address convention of the homelab network: a guest with VMID `<subnet><host>`
//! (the host part being the last three digits) lives at `10.0.<subnet>.<host>`, e.g.
//! VMID 50210 at 10.0.50.210.
//!
//! This rule is an assumption of this library, inferred from the addresses the domain tools
//! use (VMID 50118 for Vaultwarden, relays and hosts on 10.0.50.x); no network
//! configuration is read to confirm it.

use vstd::prelude::*;

use crate::text::{
    all_digits, decimal, digits_value, parse_u64, parse_u64_str, push_decimal, unsigned_part,
    chars_of,
};

verus! {

/// The canonical address of the guest `vmid`, when `vmid` is a decimal VMID whose subnet
/// and host parts are both at most 255.
pub open spec fn canonical_ip_of(vmid: Seq<char>) -> Option<Seq<char>> {
    let n = digits_value(vmid);
    if vmid.len() > 0 && all_digits(vmid) && n / 1000 <= 255 && n % 1000 <= 255 {
        Some("10.0."@ + decimal(n / 1000) + "."@ + decimal(n % 1000))
    } else {
        None
    }
}

/// A VMID that does not map to an address.
#[derive(Debug, Clone)]
pub enum ConventionError {
    NotAVmid { vmid: String },
}

/// The canonical address of the guest `vmid`.
pub fn canonical_ip(vmid: &str) -> (r: Result<String, ConventionError>)
    ensures
        match canonical_ip_of(vmid@) {
            Some(ip) => r matches Ok(s) && s@ == ip,
            None => r matches Err(ConventionError::NotAVmid { vmid: v }) && v@ == vmid@,
        },
{
    let cs = chars_of(vmid);
    let signed = cs.len() > 0 && cs[0] == '+';
    if signed {
        assert(!all_digits(vmid@)) by {
            assert(!crate::text::is_digit(vmid@[0]));
        }
        return Err(ConventionError::NotAVmid { vmid: String::from_str(vmid) });
    }
    assert(unsigned_part(vmid@) == vmid@);
    match parse_u64_str(vmid) {
        None => {
            proof {
                if vmid@.len() > 0 && all_digits(vmid@) {
                    assert(digits_value(vmid@) > u64::MAX);
                    assert(digits_value(vmid@) / 1000 > 255) by (nonlinear_arith)
                        requires
                            digits_value(vmid@) > u64::MAX,
                    ;
                }
            }
            Err(ConventionError::NotAVmid { vmid: String::from_str(vmid) })
        },
        Some(n) => {
            let subnet = n / 1000;
            let host = n % 1000;
            if subnet > 255 || host > 255 {
                return Err(ConventionError::NotAVmid { vmid: String::from_str(vmid) });
            }
            let mut s = String::from_str("10.0.");
            push_decimal(&mut s, subnet);
            s.append(".");
            push_decimal(&mut s, host);
            Ok(s)
        },
    }
}

} // verus!
