//! IP addresses and networks as plain integers.
//!
//! An address is its family and its value as an integer (most significant
//! octet first); a network is an address and a prefix length. Parsing is done
//! by `std` and `ipnet`, through trusted wrappers that hand back these plain
//! values; membership and rendering are verified here.
use vstd::prelude::*;
use vstd::arithmetic::power2::pow2;
use vstd::bits::lemma_u128_shr_is_div;
use crate::text::{decimal_spec, decimal_chars, push_all, string_from_chars, chars_of};

verus! {

/// An IPv4 or IPv6 address: `v6` gives the family, `bits` the address.
#[derive(Clone, Copy, Debug, PartialEq, Eq, Structural)]
pub struct IpAddress {
    pub v6: bool,
    pub bits: u128,
}

/// An IP network: an address of either family and a prefix length, as
/// `ipnet::IpNet` holds it (the address keeps its host bits).
#[derive(Clone, Copy, Debug, PartialEq, Eq, Structural)]
pub struct IpNetwork {
    pub v6: bool,
    pub addr: u128,
    pub prefix_len: u8,
}

/// A socket address: an IP address and a port; an IPv6 one also carries
/// its flow label and scope id, as `core::net::SocketAddrV6` does (both 0
/// for IPv4).
#[derive(Clone, Copy, Debug, PartialEq, Eq, Structural)]
pub struct SocketAddress {
    pub ip: IpAddress,
    pub port: u16,
    pub flowinfo: u32,
    pub scope_id: u32,
}

/// The number of bits in an address of the family.
pub open spec fn family_width(v6: bool) -> nat {
    if v6 {
        128
    } else {
        32
    }
}

impl IpAddress {
    /// A well-formed address: an IPv4 value fits in 32 bits.
    pub open spec fn wf(self) -> bool {
        !self.v6 ==> self.bits < 0x1_0000_0000
    }
}

impl IpNetwork {
    /// A well-formed network, as `ipnet` constructs them: the prefix is no
    /// longer than the address and an IPv4 value fits in 32 bits.
    pub open spec fn wf(self) -> bool {
        &&& self.prefix_len <= family_width(self.v6)
        &&& !self.v6 ==> self.addr < 0x1_0000_0000
    }

    /// The number of host bits below the prefix.
    pub open spec fn host_bits(self) -> nat {
        if self.prefix_len >= family_width(self.v6) {
            0
        } else {
            (family_width(self.v6) - self.prefix_len) as nat
        }
    }

    /// The network holds the address: same family, and either the prefix is
    /// empty or the address agrees with the network on every prefix bit.
    pub open spec fn spec_contains(self, ip: IpAddress) -> bool {
        &&& self.v6 == ip.v6
        &&& (self.prefix_len == 0 || ip.bits as nat / pow2(self.host_bits()) == self.addr as nat
            / pow2(self.host_bits()))
    }

    /// The single-host network of an address (`IpNet::from(IpAddr)`).
    pub open spec fn single_host(ip: IpAddress) -> IpNetwork {
        IpNetwork { v6: ip.v6, addr: ip.bits, prefix_len: family_width(ip.v6) as u8 }
    }

    /// Membership, as `IpNet::contains(&IpAddr)` decides it.
    pub fn contains(&self, ip: &IpAddress) -> (r: bool)
        ensures
            r == self.spec_contains(*ip),
    {
        if self.v6 != ip.v6 {
            return false;
        }
        if self.prefix_len == 0 {
            return true;
        }
        let width: u8 = if self.v6 {
            128
        } else {
            32
        };
        let host: u8 = if self.prefix_len >= width {
            0
        } else {
            width - self.prefix_len
        };
        let shift = host as u128;
        proof {
            lemma_u128_shr_is_div(ip.bits, shift);
            lemma_u128_shr_is_div(self.addr, shift);
        }
        (ip.bits >> shift) == (self.addr >> shift)
    }

    /// The single-host network of `ip`.
    pub fn from_address(ip: IpAddress) -> (r: IpNetwork)
        ensures
            r == IpNetwork::single_host(ip),
    {
        IpNetwork { v6: ip.v6, addr: ip.bits, prefix_len: if ip.v6 {
            128
        } else {
            32
        } }
    }
}

/// A bare address used as a rule is a single-host network: it holds that
/// address and no other.
pub proof fn law_single_host_network(ip: IpAddress, other: IpAddress)
    requires
        ip.wf(),
        other.wf(),
    ensures
        IpNetwork::single_host(ip).spec_contains(other) <==> ip == other,
{
    let n = IpNetwork::single_host(ip);
    assert(n.host_bits() == 0);
    assert(pow2(0) == 1) by {
        vstd::arithmetic::power2::lemma2_to64();
    }
}

// ── names for what std and ipnet compute ───────────────────────────────

/// What `"...".parse::<core::net::IpAddr>()` yields for a string, as
/// `(is_v6, value)`.
pub uninterp spec fn ip_addr_parse(s: Seq<char>) -> Option<(bool, u128)>;

/// What `"...".parse::<ipnet::IpNet>()` yields for a string, as
/// `(is_v6, address, prefix_len)`.
pub uninterp spec fn ipnet_parse(s: Seq<char>) -> Option<(bool, u128, u8)>;

/// How `std` renders an IPv6 address (`Ipv6Addr`'s `Display`).
pub uninterp spec fn ipv6_text(bits: u128) -> Seq<char>;

/// What `"...".parse::<core::net::SocketAddr>()` yields for a string, as
/// `(is_v6, address, port, flowinfo, scope_id)`.
pub uninterp spec fn socket_addr_parse(s: Seq<char>) -> Option<(bool, u128, u16, u32, u32)>;

/// The address a parse result describes.
pub open spec fn address_of(t: (bool, u128)) -> IpAddress {
    IpAddress { v6: t.0, bits: t.1 }
}

/// The network a parse result describes.
pub open spec fn network_of(t: (bool, u128, u8)) -> IpNetwork {
    IpNetwork { v6: t.0, addr: t.1, prefix_len: t.2 }
}

/// `<core::net::IpAddr as FromStr>::from_str`, converted to plain values. The
/// result is named (`ip_addr_parse`); an IPv4 result fits in 32 bits because
/// it comes from a `u32`.
#[verifier::external_body]
pub(crate) fn parse_ip_address(s: &str) -> (r: Option<IpAddress>)
    ensures
        r matches Some(a) ==> ip_addr_parse(s@) == Some((a.v6, a.bits)) && a.wf(),
        r is None ==> ip_addr_parse(s@) is None,
{
    match s.parse::<core::net::IpAddr>() {
        Ok(core::net::IpAddr::V4(a)) => Some(IpAddress { v6: false, bits: u32::from(a) as u128 }),
        Ok(core::net::IpAddr::V6(a)) => Some(IpAddress { v6: true, bits: u128::from(a) }),
        Err(_) => None,
    }
}

/// `<ipnet::IpNet as FromStr>::from_str`, converted to plain values. The
/// result is named (`ipnet_parse`); `ipnet` only builds networks whose prefix
/// is no longer than the address, and an IPv4 address comes from a `u32`.
#[verifier::external_body]
pub(crate) fn parse_ip_network(s: &str) -> (r: Option<IpNetwork>)
    ensures
        r matches Some(n) ==> ipnet_parse(s@) == Some((n.v6, n.addr, n.prefix_len)) && n.wf(),
        r is None ==> ipnet_parse(s@) is None,
{
    match s.parse::<ipnet::IpNet>() {
        Ok(ipnet::IpNet::V4(n)) => Some(
            IpNetwork { v6: false, addr: u32::from(n.addr()) as u128, prefix_len: n.prefix_len() },
        ),
        Ok(ipnet::IpNet::V6(n)) => Some(
            IpNetwork { v6: true, addr: u128::from(n.addr()), prefix_len: n.prefix_len() },
        ),
        Err(_) => None,
    }
}

/// The socket address a parse result describes.
pub open spec fn socket_address_of(t: (bool, u128, u16, u32, u32)) -> SocketAddress {
    SocketAddress { ip: IpAddress { v6: t.0, bits: t.1 }, port: t.2, flowinfo: t.3, scope_id: t.4 }
}

/// `<core::net::SocketAddr as FromStr>::from_str`, converted to plain values.
/// The result is named (`socket_addr_parse`); an IPv4 address comes from a
/// `u32`, and its flow label and scope id are 0.
#[verifier::external_body]
pub(crate) fn parse_socket_address(s: &str) -> (r: Option<SocketAddress>)
    ensures
        r matches Some(a) ==> socket_addr_parse(s@) == Some(
            (a.ip.v6, a.ip.bits, a.port, a.flowinfo, a.scope_id),
        ) && a.ip.wf(),
        r is None ==> socket_addr_parse(s@) is None,
{
    match s.parse::<core::net::SocketAddr>() {
        Ok(core::net::SocketAddr::V4(a)) => Some(SocketAddress {
            ip: IpAddress { v6: false, bits: u32::from(*a.ip()) as u128 },
            port: a.port(), flowinfo: 0, scope_id: 0,
        }),
        Ok(core::net::SocketAddr::V6(a)) => Some(SocketAddress {
            ip: IpAddress { v6: true, bits: u128::from(*a.ip()) },
            port: a.port(), flowinfo: a.flowinfo(), scope_id: a.scope_id(),
        }),
        Err(_) => None,
    }
}

/// `Ipv6Addr`'s `Display`: the rendering is named (`ipv6_text`).
#[verifier::external_body]
fn render_ipv6(bits: u128) -> (r: String)
    ensures
        r@ == ipv6_text(bits),
{
    core::net::Ipv6Addr::from(bits).to_string()
}

// ── rendering ──────────────────────────────────────────────────────────

/// Dotted-decimal rendering of an IPv4 value, as `Ipv4Addr`'s `Display`
/// documents it (`a.b.c.d`).
pub open spec fn dotted_quad(bits: u128) -> Seq<char> {
    decimal_spec(((bits / 0x1000000) % 256) as nat) + seq!['.'] + decimal_spec(
        ((bits / 0x10000) % 256) as nat,
    ) + seq!['.'] + decimal_spec(((bits / 0x100) % 256) as nat) + seq!['.'] + decimal_spec(
        (bits % 256) as nat,
    )
}

/// The text of an address, as `IpAddr::to_string` gives it.
pub open spec fn address_text(ip: IpAddress) -> Seq<char> {
    if ip.v6 {
        ipv6_text(ip.bits)
    } else {
        dotted_quad(ip.bits)
    }
}

/// The text of a network, as `IpNet`'s `Display` gives it: the address, a
/// `/`, and the prefix length.
pub open spec fn network_text(n: IpNetwork) -> Seq<char> {
    address_text(IpAddress { v6: n.v6, bits: n.addr }) + seq!['/'] + decimal_spec(
        n.prefix_len as nat,
    )
}

/// Renders an address (`IpAddr::to_string`).
pub fn address_to_string(ip: &IpAddress) -> (r: String)
    ensures
        r@ == address_text(*ip),
{
    if ip.v6 {
        render_ipv6(ip.bits)
    } else {
        let v = address_chars(ip);
        string_from_chars(v.as_slice())
    }
}

fn address_chars(ip: &IpAddress) -> (r: Vec<char>)
    ensures
        r@ == address_text(*ip),
{
    if ip.v6 {
        let s = render_ipv6(ip.bits);
        chars_of(s.as_str())
    } else {
        let b = ip.bits;
        let mut out = decimal_chars(((b / 0x1000000) % 256) as u64);
        out.push('.');
        let d2 = decimal_chars(((b / 0x10000) % 256) as u64);
        push_all(&mut out, &d2);
        out.push('.');
        let d3 = decimal_chars(((b / 0x100) % 256) as u64);
        push_all(&mut out, &d3);
        out.push('.');
        let d4 = decimal_chars((b % 256) as u64);
        push_all(&mut out, &d4);
        assert(out@ =~= dotted_quad(b));
        out
    }
}

/// Renders a network (`IpNet::to_string`).
pub fn network_to_string(n: &IpNetwork) -> (r: String)
    ensures
        r@ == network_text(*n),
{
    let mut out = address_chars(&IpAddress { v6: n.v6, bits: n.addr });
    out.push('/');
    let d = decimal_chars(n.prefix_len as u64);
    push_all(&mut out, &d);
    string_from_chars(out.as_slice())
}

} // verus!
