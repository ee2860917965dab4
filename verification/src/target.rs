//! The endpoint chosen for one hop: address, port, family, and the full
//! candidate list the resolver returned.
use vstd::prelude::*;
use crate::strutil::{dec_str, hex_str, u64_to_dec, u64_to_hex};

verus! {

#[derive(Debug, Clone, Copy, PartialEq, Eq, Structural)]
pub enum IpFamily {
    IPv4,
    IPv6,
}

impl IpFamily {
    pub open spec fn label_spec(self) -> Seq<char> {
        match self {
            IpFamily::IPv4 => "ipv4"@,
            IpFamily::IPv6 => "ipv6"@,
        }
    }

    /// Short label of the family, as printed in reports.
    pub fn label(&self) -> (r: &'static str)
        ensures
            r@ == self.label_spec(),
    {
        match self {
            IpFamily::IPv4 => "ipv4",
            IpFamily::IPv6 => "ipv6",
        }
    }
}

/// An IP address as a plain integer: 32 bits for v4, 128 for v6, both in
/// network order (most significant first).
#[derive(Debug, Clone, Copy, PartialEq, Eq, Structural)]
pub enum IpAddress {
    V4(u32),
    V6(u128),
}

/// The divisor that brings the `i`-th 16-bit group of a v6 address to
/// the low bits, most significant group first.
pub open spec fn v6_shift(i: int) -> int {
    if i == 0 { 0x10000000000000000000000000000 }
    else if i == 1 { 0x1000000000000000000000000 }
    else if i == 2 { 0x100000000000000000000 }
    else if i == 3 { 0x10000000000000000 }
    else if i == 4 { 0x1000000000000 }
    else if i == 5 { 0x100000000 }
    else if i == 6 { 0x10000 }
    else { 0x1 }
}

/// The eight 16-bit groups of a v6 address, most significant first.
pub open spec fn v6_group(n: u128, i: int) -> int {
    (n as int) / v6_shift(i) % 0x10000
}

/// Dotted-decimal form of a v4 address.
pub open spec fn v4_chars(n: u32) -> Seq<char> {
    dec_str(n as int / 0x1000000) + "."@
        + dec_str(n as int / 0x10000 % 0x100) + "."@
        + dec_str(n as int / 0x100 % 0x100) + "."@
        + dec_str(n as int % 0x100)
}

/// Colon-separated lowercase-hex groups of a v6 address, uncompressed.
pub open spec fn v6_chars(n: u128) -> Seq<char> {
    hex_str(v6_group(n, 0)) + ":"@ + hex_str(v6_group(n, 1)) + ":"@
        + hex_str(v6_group(n, 2)) + ":"@ + hex_str(v6_group(n, 3)) + ":"@
        + hex_str(v6_group(n, 4)) + ":"@ + hex_str(v6_group(n, 5)) + ":"@
        + hex_str(v6_group(n, 6)) + ":"@ + hex_str(v6_group(n, 7))
}

/// Textual form of an address, without port or brackets.
pub open spec fn ip_chars(ip: IpAddress) -> Seq<char> {
    match ip {
        IpAddress::V4(n) => v4_chars(n),
        IpAddress::V6(n) => v6_chars(n),
    }
}

pub open spec fn family_of(ip: IpAddress) -> IpFamily {
    match ip {
        IpAddress::V4(_) => IpFamily::IPv4,
        IpAddress::V6(_) => IpFamily::IPv6,
    }
}

/// Renders an address without port or brackets.
pub fn format_ip(ip: &IpAddress) -> (r: String)
    ensures
        r@ == ip_chars(*ip),
{
    match ip {
        IpAddress::V4(n) => {
            let n64: u64 = *n as u64;
            let mut out = u64_to_dec(n64 / 0x1000000);
            out.append(".");
            let o2 = u64_to_dec(n64 / 0x10000 % 0x100);
            out.append(o2.as_str());
            out.append(".");
            let o3 = u64_to_dec(n64 / 0x100 % 0x100);
            out.append(o3.as_str());
            out.append(".");
            let o4 = u64_to_dec(n64 % 0x100);
            out.append(o4.as_str());
            proof {
                assert(out@ =~= v4_chars(*n));
            }
            out
        },
        IpAddress::V6(n) => {
            let mut out = String::new();
            let mut i: usize = 0;
            let mut chunk: u128 = *n;
            // Emit the groups most significant first by repeated division.
            let g0 = group_of(*n, 0);
            out = u64_to_hex(g0);
            let mut k: usize = 1;
            while k < 8
                invariant
                    1 <= k <= 8,
                    out@ == v6_prefix(*n, k as int),
                decreases 8 - k,
            {
                out.append(":");
                let g = group_of(*n, k);
                let gs = u64_to_hex(g);
                out.append(gs.as_str());
                proof {
                    assert(out@ =~= v6_prefix(*n, k as int + 1));
                }
                k += 1;
            }
            proof {
                reveal_with_fuel(v6_prefix, 9);
                assert(v6_prefix(*n, 8) =~= v6_chars(*n));
            }
            out
        },
    }
}

/// The first `k` groups of the v6 text form, colon separated.
pub open spec fn v6_prefix(n: u128, k: int) -> Seq<char>
    decreases k,
{
    if k <= 1 {
        hex_str(v6_group(n, 0))
    } else {
        v6_prefix(n, k - 1) + ":"@ + hex_str(v6_group(n, k - 1))
    }
}

/// The `i`-th 16-bit group of `n`, most significant first.
fn group_of(n: u128, i: usize) -> (r: u64)
    requires
        i < 8,
    ensures
        r == v6_group(n, i as int),
        r < 0x10000,
{
    let shift: u128 = match i {
        0 => 0x10000000000000000000000000000,
        1 => 0x1000000000000000000000000,
        2 => 0x100000000000000000000,
        3 => 0x10000000000000000,
        4 => 0x1000000000000,
        5 => 0x100000000,
        6 => 0x10000,
        _ => 0x1,
    };
    proof {
        assert(shift == v6_shift(i as int));
    }
    ((n / shift) % 0x10000) as u64
}

/// One resolved endpoint: the chosen address, the port, the family of
/// the chosen address, and every address the resolver returned.
#[derive(Debug, Clone)]
pub struct ResolvedTarget {
    pub ip: IpAddress,
    pub port: u16,
    pub family: IpFamily,
    pub all_ips: Vec<IpAddress>,
}

impl ResolvedTarget {
    /// Derives the family from the chosen address.
    pub fn new(ip: IpAddress, port: u16, all_ips: Vec<IpAddress>) -> (r: Self)
        ensures
            r.ip == ip,
            r.port == port,
            r.family == family_of(ip),
            r.all_ips == all_ips,
    {
        let family = match ip {
            IpAddress::V4(_) => IpFamily::IPv4,
            IpAddress::V6(_) => IpFamily::IPv6,
        };
        ResolvedTarget { ip, port, family, all_ips }
    }

    pub open spec fn socket_chars(self) -> Seq<char> {
        match self.ip {
            IpAddress::V4(n) => v4_chars(n) + ":"@ + dec_str(self.port as int),
            IpAddress::V6(n) => "["@ + v6_chars(n) + "]:"@ + dec_str(self.port as int),
        }
    }

    /// `address:port`, with the address bracketed for v6.
    pub fn as_socket_str(&self) -> (r: String)
        ensures
            r@ == self.socket_chars(),
    {
        let ip_s = format_ip(&self.ip);
        let port_s = u64_to_dec(self.port as u64);
        let mut out = String::new();
        match self.ip {
            IpAddress::V4(_) => {
                out.append(ip_s.as_str());
                out.append(":");
                out.append(port_s.as_str());
            },
            IpAddress::V6(_) => {
                out.append("[");
                out.append(ip_s.as_str());
                out.append("]:");
                out.append(port_s.as_str());
            },
        }
        proof {
            assert(out@ =~= self.socket_chars());
        }
        out
    }

    pub open spec fn ips_short_spec(self) -> Seq<char> {
        if self.all_ips.len() <= 1 {
            ip_chars(self.ip)
        } else {
            ip_chars(self.ip) + " (+"@ + dec_str(self.all_ips.len() - 1) + ")"@
        }
    }

    /// The chosen address, with a `(+N)` suffix when the resolver
    /// returned more candidates.
    pub fn ips_short(&self) -> (r: String)
        ensures
            r@ == self.ips_short_spec(),
    {
        let mut out = format_ip(&self.ip);
        if self.all_ips.len() > 1 {
            out.append(" (+");
            let extra = u64_to_dec((self.all_ips.len() - 1) as u64);
            out.append(extra.as_str());
            out.append(")");
            proof {
                assert(out@ =~= self.ips_short_spec());
            }
        }
        out
    }
}

} // verus!
