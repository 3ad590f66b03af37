//! Socket addresses as the kernel has them.

use crate::addr::SocketAddr;
use vstd::prelude::*;

verus! {

/// The family of IPv4 addresses.
pub const AF_INET: i32 = 2;

/// The family of IPv6 addresses.
pub const AF_INET6: i32 = 10;

/// The size of an IPv4 socket address.
pub const SOCKADDR_IN_LEN: u32 = 16;

/// The size of an IPv6 socket address.
pub const SOCKADDR_IN6_LEN: u32 = 28;

/// A socket address in the kernel's fields. The port and the addresses are in network order:
/// the port as its two bytes, each address as the number that its bytes spell.
#[derive(Clone, Copy, Debug, PartialEq, Eq, Structural)]
pub struct RawSockAddr {
    pub family: i32,
    pub port_high: u8,
    pub port_low: u8,
    pub v4: u32,
    pub v6: u128,
    pub flowinfo: u32,
    pub scope_id: u32,
    pub len: u32,
}

/// An address in the kernel's fields.
pub open spec fn raw_form(addr: SocketAddr) -> RawSockAddr {
    match addr {
        SocketAddr::V4 { ip, port } => RawSockAddr {
            family: AF_INET,
            port_high: (port / 256) as u8,
            port_low: (port % 256) as u8,
            v4: ip,
            v6: 0,
            flowinfo: 0,
            scope_id: 0,
            len: SOCKADDR_IN_LEN,
        },
        SocketAddr::V6 { ip, port, flowinfo, scope_id } => RawSockAddr {
            family: AF_INET6,
            port_high: (port / 256) as u8,
            port_low: (port % 256) as u8,
            v4: 0,
            v6: ip,
            flowinfo,
            scope_id,
            len: SOCKADDR_IN6_LEN,
        },
    }
}

/// An address in the kernel's fields.
pub fn to_sockaddr(addr: &SocketAddr) -> (r: RawSockAddr)
    ensures
        r == raw_form(*addr),
{
    match *addr {
        SocketAddr::V4 { ip, port } => RawSockAddr {
            family: AF_INET,
            port_high: (port / 256) as u8,
            port_low: (port % 256) as u8,
            v4: ip,
            v6: 0,
            flowinfo: 0,
            scope_id: 0,
            len: SOCKADDR_IN_LEN,
        },
        SocketAddr::V6 { ip, port, flowinfo, scope_id } => RawSockAddr {
            family: AF_INET6,
            port_high: (port / 256) as u8,
            port_low: (port % 256) as u8,
            v4: 0,
            v6: ip,
            flowinfo,
            scope_id,
            len: SOCKADDR_IN6_LEN,
        },
    }
}

/// The port that the two bytes stand for.
pub open spec fn port_of(raw: RawSockAddr) -> u16 {
    (raw.port_high * 256 + raw.port_low) as u16
}

/// The address that the kernel's fields stand for; nothing for other families.
pub open spec fn read_back(raw: RawSockAddr) -> Option<SocketAddr> {
    if raw.family == AF_INET {
        Some(SocketAddr::V4 { ip: raw.v4, port: port_of(raw) })
    } else if raw.family == AF_INET6 {
        Some(
            SocketAddr::V6 {
                ip: raw.v6,
                port: port_of(raw),
                flowinfo: raw.flowinfo,
                scope_id: raw.scope_id,
            },
        )
    } else {
        None
    }
}

/// The address that the kernel's fields stand for.
pub fn from_sockaddr(raw: &RawSockAddr) -> (r: Option<SocketAddr>)
    ensures
        r == read_back(*raw),
{
    let port: u16 = raw.port_high as u16 * 256 + raw.port_low as u16;
    if raw.family == AF_INET {
        Some(SocketAddr::V4 { ip: raw.v4, port })
    } else if raw.family == AF_INET6 {
        Some(
            SocketAddr::V6 {
                ip: raw.v6,
                port,
                flowinfo: raw.flowinfo,
                scope_id: raw.scope_id,
            },
        )
    } else {
        None
    }
}

/// The family of a socket for the address.
pub fn socket_family(addr: &SocketAddr) -> (r: i32)
    ensures
        r == raw_form(*addr).family,
{
    match addr {
        SocketAddr::V4 { .. } => AF_INET,
        SocketAddr::V6 { .. } => AF_INET6,
    }
}

/// An address comes back from the kernel's fields as it went in.
pub proof fn addresses_survive_the_kernel(addr: SocketAddr)
    ensures
        read_back(raw_form(addr)) == Some(addr),
{
}

/// The kernel's form of an address: its family and size, the port with its high byte first, and
/// the address as it is.
pub proof fn addresses_have_the_kernels_form(ip: u32, wide: u128, port: u16, flow: u32, scope: u32)
    ensures
        ({
            let raw = raw_form(SocketAddr::V4 { ip, port });
            raw.family == 2 && raw.len == 16 && raw.v4 == ip && raw.port_high * 256 + raw.port_low
                == port
        }),
        ({
            let raw = raw_form(
                SocketAddr::V6 { ip: wide, port, flowinfo: flow, scope_id: scope },
            );
            raw.family == 10 && raw.len == 28 && raw.v6 == wide && raw.flowinfo == flow
                && raw.scope_id == scope && raw.port_high * 256 + raw.port_low == port
        }),
{
}

/// An address of another family is none.
pub proof fn other_families_are_no_address(raw: RawSockAddr)
    ensures
        read_back(raw) is Some <==> raw.family == 2 || raw.family == 10,
        raw.family == 2 ==> read_back(raw) == Some(
            SocketAddr::V4 { ip: raw.v4, port: (raw.port_high * 256 + raw.port_low) as u16 },
        ),
{
}

/// An address is handed to the kernel in its form, by which its family is known.
pub proof fn addresses_are_handed_over(addr: SocketAddr, raw: RawSockAddr, family: i32)
    requires
        call_ensures(to_sockaddr, (&addr,), raw),
        call_ensures(socket_family, (&addr,), family),
    ensures
        family == raw.family,
        addr matches SocketAddr::V4 { ip, port } ==> raw.family == 2 && raw.v4 == ip
            && raw.port_high * 256 + raw.port_low == port,
        addr matches SocketAddr::V6 { ip, port, .. } ==> raw.family == 10 && raw.v6 == ip
            && raw.port_high * 256 + raw.port_low == port,
{
    match addr {
        SocketAddr::V4 { ip, port } => addresses_have_the_kernels_form(ip, 0, port, 0, 0),
        SocketAddr::V6 { ip, port, flowinfo, scope_id } => addresses_have_the_kernels_form(
            0,
            ip,
            port,
            flowinfo,
            scope_id,
        ),
    }
}

} // verus!
