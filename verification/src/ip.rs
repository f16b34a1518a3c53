//! IP addresses and networks as plain values, with network parsing from the
//! `ipnet` crate and containment as that crate defines it.

use vstd::prelude::*;
use vstd::arithmetic::power2::pow2;
use vstd::bits::lemma_u128_shr_is_div;
use ipnet::IpNet;
use std::str::FromStr;

verus! {

/// An IPv4 address (in the low 32 bits) or an IPv6 address.
#[derive(Clone, Copy, Debug, PartialEq, Eq, Structural)]
pub struct IpValue {
    pub v6: bool,
    pub bits: u128,
}

/// A network: an address and the length of its prefix.
#[derive(Clone, Copy, Debug, PartialEq, Eq, Structural)]
pub struct IpNetValue {
    pub addr: IpValue,
    pub prefix_len: u8,
}

/// The number of bits of an address of the family of `a`.
pub open spec fn ip_width(a: IpValue) -> nat {
    if a.v6 {
        128
    } else {
        32
    }
}

/// An address whose bits fit its family.
pub open spec fn ip_wf(a: IpValue) -> bool {
    a.v6 || a.bits < 0x1_0000_0000
}

/// A network whose address fits its family and whose prefix is no longer
/// than the address.
pub open spec fn ip_net_wf(n: IpNetValue) -> bool {
    ip_wf(n.addr) && n.prefix_len <= ip_width(n.addr)
}

/// What `IpNet::from_str` gives for the text `s`: the family (true for IPv6),
/// the address bits and the prefix length, or `None` when the text is no
/// network in `address/prefix` form.
pub uninterp spec fn ip_net_parse(s: Seq<char>) -> Option<(bool, u128, u8)>;

/// The network value of a parse result.
pub open spec fn net_of(p: (bool, u128, u8)) -> IpNetValue {
    IpNetValue { addr: IpValue { v6: p.0, bits: p.1 }, prefix_len: p.2 }
}

/// The network that contains `a` alone.
pub open spec fn host_net(a: IpValue) -> IpNetValue {
    IpNetValue { addr: a, prefix_len: ip_width(a) as u8 }
}

/// The network `0.0.0.0/0`.
pub open spec fn any_v4_net() -> IpNetValue {
    IpNetValue { addr: IpValue { v6: false, bits: 0 }, prefix_len: 0 }
}

/// A network contains an address of its own family whose first `prefix_len`
/// bits equal those of the network's address (it lies between the network's
/// first and last address).
pub open spec fn net_contains(n: IpNetValue, a: IpValue) -> bool {
    let shift = (ip_width(n.addr) - n.prefix_len) as nat;
    n.addr.v6 == a.v6 && n.addr.bits as nat / pow2(shift) == a.bits as nat / pow2(shift)
}

/// Parses a network in `address/prefix` form (`IpNet::from_str`). The
/// contract claims the result is the named parse of the text, and, as the
/// crate's parser accepts no prefix longer than the address, that the network
/// is well formed.
#[verifier::external_body]
pub(crate) fn parse_ip_net(s: &str) -> (r: Option<IpNetValue>)
    ensures
        match r {
            Some(n) => ip_net_parse(s@) == Some((n.addr.v6, n.addr.bits, n.prefix_len))
                && ip_net_wf(n),
            None => ip_net_parse(s@) is None,
        },
{
    match IpNet::from_str(s) {
        Ok(IpNet::V4(n)) => Some(
            IpNetValue {
                addr: IpValue { v6: false, bits: u32::from(n.addr()) as u128 },
                prefix_len: n.prefix_len(),
            },
        ),
        Ok(IpNet::V6(n)) => Some(
            IpNetValue {
                addr: IpValue { v6: true, bits: u128::from(n.addr()) },
                prefix_len: n.prefix_len(),
            },
        ),
        Err(_) => None,
    }
}

/// Whether the network contains the address (see [`net_contains`]).
pub fn ip_net_contains(n: IpNetValue, a: IpValue) -> (r: bool)
    requires
        n.prefix_len <= ip_width(n.addr),
    ensures
        r == net_contains(n, a),
{
    if n.addr.v6 != a.v6 {
        return false;
    }
    let width: u8 = if n.addr.v6 { 128 } else { 32 };
    let shift: u8 = width - n.prefix_len;
    if shift == 128 {
        proof {
            vstd::arithmetic::power2::lemma2_to64();
            vstd::arithmetic::power2::lemma_pow2_adds(64, 64);
            assert(pow2(128) == 0x1_0000_0000_0000_0000 * 0x1_0000_0000_0000_0000);
            vstd::arithmetic::div_mod::lemma_basic_div(
                n.addr.bits as int,
                pow2(128) as int,
            );
            vstd::arithmetic::div_mod::lemma_basic_div(a.bits as int, pow2(128) as int);
        }
        return true;
    }
    proof {
        lemma_u128_shr_is_div(n.addr.bits, shift as u128);
        lemma_u128_shr_is_div(a.bits, shift as u128);
    }
    (n.addr.bits >> (shift as u128)) == (a.bits >> (shift as u128))
}

/// The network that contains `a` alone (`IpNet::from(IpAddr)`).
pub fn host_network(a: IpValue) -> (r: IpNetValue)
    requires
        ip_wf(a),
    ensures
        r == host_net(a),
        ip_net_wf(r),
{
    IpNetValue { addr: a, prefix_len: if a.v6 { 128 } else { 32 } }
}

} // verus!
