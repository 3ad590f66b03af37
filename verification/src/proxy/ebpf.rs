//! The fast path for QUIC: interfaces, hardware addresses and the routes given to the kernel.

use crate::addr::{IpAddr, SocketAddr};
use crate::text::{
    digit_value, has_prefix, is_space, lemma_numeral, lemma_pieces_head, numeral,
    numeral_reads_back, parse_number, parsed_number, pieces, split_at_char, split_words,
    starts_with, str_eq, texts, trim, trimmed, trimming_takes_off_padding, words,
};
use vstd::prelude::*;
use vstd::string::*;

verus! {

/// Where the kernel sends the packets of a connection. The numbers are in network order.
#[derive(Clone, Copy, Debug, PartialEq, Eq)]
pub struct QuicRoute {
    pub dst_ip: [u8; 4],
    pub dst_port: [u8; 2],
    pub dst_mac: [u8; 6],
    pub src_mac: [u8; 6],
}

// ----------------------------------------------------------------- interfaces

/// Whether traffic may be steered on an interface of this name.
pub open spec fn eligible(name: Seq<char>) -> bool {
    name != "lo"@ && !has_prefix(name, "veth"@) && !has_prefix(name, "br-"@)
}

/// The interface for an address, given those of the machine: the loopback interface for a
/// loopback address, else the first that is eligible, else `eth0`.
pub open spec fn interface_for(ip: IpAddr, names: Seq<Seq<char>>) -> Seq<char>
    decreases names.len(),
{
    if is_loopback(ip) {
        "lo"@
    } else if names.len() == 0 {
        "eth0"@
    } else if eligible(names[0]) {
        names[0]
    } else {
        interface_for(ip, names.skip(1))
    }
}

/// Whether the address is `127.0.0.0/8` or `::1`.
pub open spec fn is_loopback(ip: IpAddr) -> bool {
    match ip {
        IpAddr::V4(bits) => bits / 0x100_0000 == 127,
        IpAddr::V6(bits) => bits == 1,
    }
}

/// The interface for an address, given the names of those of the machine.
pub fn detect_interface(bind_ip: IpAddr, names: &Vec<String>) -> (r: String)
    ensures
        r@ == interface_for(bind_ip, crate::text::strings(names@)),
{
    if bind_ip.is_loopback() {
        return "lo".to_owned();
    }
    let ghost all = crate::text::strings(names@);
    let mut i: usize = 0;
    proof {
        assert(all.skip(0) =~= all);
    }
    while i < names.len()
        invariant
            i <= names.len(),
            all == crate::text::strings(names@),
            !is_loopback(bind_ip),
            interface_for(bind_ip, all) == interface_for(bind_ip, all.skip(i as int)),
        decreases names.len() - i,
    {
        let name = names[i].as_str();
        proof {
            assert(all.skip(i as int)[0] == names@[i as int]@);
            assert(all.skip(i as int).skip(1) =~= all.skip(i + 1));
        }
        if !str_eq(name, "lo") && !starts_with(name, "veth") && !starts_with(name, "br-") {
            return name.to_owned();
        }
        i = i + 1;
    }
    "eth0".to_owned()
}

// --------------------------------------------------------- hardware addresses

/// The hardware address that a text stands for: six hexadecimal numbers below 256 with colons
/// between them.
pub open spec fn mac_in(content: Seq<char>) -> Option<Seq<u8>> {
    let parts = pieces(trimmed(content), ':');
    if parts.len() == 6 && forall|i: int|
        0 <= i < 6 ==> (#[trigger] parsed_number(parts[i], 16, 255)).is_some() {
        Some(Seq::new(6, |i: int| parsed_number(parts[i], 16, 255)->0 as u8))
    } else {
        None
    }
}

/// The view of an optional hardware address.
pub open spec fn opt_mac(m: Option<[u8; 6]>) -> Option<Seq<u8>> {
    match m {
        Some(a) => Some(a@),
        None => None,
    }
}

/// Reads a hardware address.
pub fn parse_mac_address(content: &str) -> (r: Option<[u8; 6]>)
    ensures
        opt_mac(r) == mac_in(content@),
{
    let parts = split_at_char(trim(content), ':');
    let ghost ps = pieces(trimmed(content@), ':');
    proof {
        assert(texts(parts@).len() == parts@.len());
    }
    if parts.len() != 6 {
        return None;
    }
    let mut mac: [u8; 6] = [0, 0, 0, 0, 0, 0];
    let mut i: usize = 0;
    while i < 6
        invariant
            i <= 6,
            parts@.len() == 6,
            texts(parts@) == ps,
            ps == pieces(trimmed(content@), ':'),
            ps.len() == 6,
            forall|k: int|
                0 <= k < i ==> (#[trigger] parsed_number(ps[k], 16, 255)) == Some(mac@[k] as nat),
        decreases 6 - i,
    {
        proof {
            assert(texts(parts@)[i as int] == parts@[i as int]@);
        }
        match parse_number(parts[i], 16, 255) {
            Some(n) => {
                proof {
                    assert(n <= 255);
                }
                mac[i] = n as u8;
            },
            None => {
                proof {
                    assert(parsed_number(ps[i as int], 16, 255).is_none());
                }
                return None;
            },
        }
        i = i + 1;
    }
    proof {
        assert(mac@ =~= mac_in(content@)->0);
    }
    Some(mac)
}

/// The hardware address that one line of the table gives for the address.
pub open spec fn mac_in_line(line: Seq<char>, ip: Seq<char>) -> Option<Seq<u8>> {
    let fs = words(line);
    if fs.len() >= 4 && fs[0] == ip {
        mac_in(fs[3])
    } else {
        None
    }
}

/// The hardware address that the lines from `i` on give for the address: that of the first
/// line that has one.
pub open spec fn mac_from(lines: Seq<Seq<char>>, ip: Seq<char>, i: int) -> Option<Seq<u8>>
    decreases lines.len() - i,
{
    if i >= lines.len() {
        None
    } else if mac_in_line(lines[i], ip).is_some() {
        mac_in_line(lines[i], ip)
    } else {
        mac_from(lines, ip, i + 1)
    }
}

/// The hardware address of `ip` in the table of the kernel, whose first line is a heading.
pub fn parse_arp_table(content: &str, ip: IpAddr) -> (r: Option<[u8; 6]>)
    ensures
        opt_mac(r) == mac_from(pieces(content@, '\n'), ip.text(), 1),
{
    let ip_text = ip.to_text();
    let lines = split_at_char(content, '\n');
    let ghost ls = pieces(content@, '\n');
    proof {
        assert(texts(lines@).len() == lines@.len());
        assert(ls.len() > 0);
    }
    let mut i: usize = 1;
    while i < lines.len()
        invariant
            1 <= i <= lines.len(),
            texts(lines@) == ls,
            ls == pieces(content@, '\n'),
            lines@.len() == ls.len(),
            ip_text@ == ip.text(),
            mac_from(ls, ip.text(), 1) == mac_from(ls, ip.text(), i as int),
        decreases lines.len() - i,
    {
        let fields = split_words(lines[i]);
        proof {
            assert(texts(lines@)[i as int] == lines@[i as int]@);
            assert(texts(fields@).len() == fields@.len());
            if fields@.len() >= 4 {
                assert(texts(fields@)[0] == fields@[0]@);
                assert(texts(fields@)[3] == fields@[3]@);
            }
        }
        if fields.len() >= 4 && str_eq(fields[0], ip_text.as_str()) {
            let mac = parse_mac_address(fields[3]);
            if mac.is_some() {
                return mac;
            }
        }
        i = i + 1;
    }
    None
}

/// The hardware address of an interface, given the text that the kernel keeps of it; the
/// loopback interface has none.
pub fn get_interface_mac(iface: &str, content: Option<&str>) -> (r: Option<[u8; 6]>)
    ensures
        opt_mac(r) == match content {
            Some(c) => if iface@ == "lo"@ {
                None
            } else {
                mac_in(c@)
            },
            None => None,
        },
{
    if str_eq(iface, "lo") {
        return None;
    }
    match content {
        Some(c) => parse_mac_address(c),
        None => None,
    }
}

/// The hardware address of `ip`, given the table of the kernel; a loopback address has none.
pub fn get_arp_mac(ip: IpAddr, content: Option<&str>) -> (r: Option<[u8; 6]>)
    ensures
        opt_mac(r) == match content {
            Some(c) => if is_loopback(ip) {
                None
            } else {
                mac_from(pieces(c@, '\n'), ip.text(), 1)
            },
            None => None,
        },
{
    if ip.is_loopback() {
        return None;
    }
    match content {
        Some(c) => parse_arp_table(c, ip),
        None => None,
    }
}

// --------------------------------------------------------------------- routes

/// The key of a connection: the first eight bytes of its id, filled up with zeros.
pub open spec fn key_of(cid: Seq<u8>) -> Seq<u8> {
    Seq::new(
        8,
        |i: int|
            if i < cid.len() {
                cid[i]
            } else {
                0u8
            },
    )
}

/// The key of a connection.
pub fn cid_key(cid: &[u8]) -> (r: [u8; 8])
    ensures
        r@ == key_of(cid@),
{
    let mut key: [u8; 8] = [0, 0, 0, 0, 0, 0, 0, 0];
    let mut i: usize = 0;
    while i < 8 && i < cid.len()
        invariant
            i <= 8,
            i <= cid.len(),
            forall|k: int| 0 <= k < i ==> key@[k] == cid@[k],
            forall|k: int| i <= k < 8 ==> key@[k] == 0,
        decreases 8 - i,
    {
        key[i] = cid[i];
        i = i + 1;
    }
    proof {
        assert(key@ =~= key_of(cid@));
    }
    key
}

/// Whether a route leads to the address between these hardware addresses.
pub open spec fn leads_to(r: QuicRoute, ip: u32, port: u16, dst: Seq<u8>, src: Seq<u8>) -> bool {
    &&& r.dst_ip@ == seq![
        (ip / 0x100_0000) as u8,
        (ip / 0x1_0000 % 0x100) as u8,
        (ip / 0x100 % 0x100) as u8,
        (ip % 0x100) as u8,
    ]
    &&& r.dst_port@ == seq![(port / 0x100) as u8, (port % 0x100) as u8]
    &&& r.dst_mac@ == dst
    &&& r.src_mac@ == src
}

/// The route to an upstream: there is one for an IPv4 address where both hardware addresses
/// are known.
pub fn quic_route(
    resolved: Option<SocketAddr>,
    dst_mac: Option<[u8; 6]>,
    src_mac: Option<[u8; 6]>,
) -> (r: Option<QuicRoute>)
    ensures
        r.is_some() <==> (resolved matches Some(SocketAddr::V4 { .. })) && dst_mac is Some
            && src_mac is Some,
        r matches Some(route) ==> (resolved matches Some(SocketAddr::V4 { ip, port }) && leads_to(
            route,
            ip,
            port,
            dst_mac->0@,
            src_mac->0@,
        )),
{
    match (resolved, dst_mac, src_mac) {
        (Some(SocketAddr::V4 { ip, port }), Some(dst), Some(src)) => {
            let dst_ip: [u8; 4] = [
                (ip / 0x100_0000) as u8,
                (ip / 0x1_0000 % 0x100) as u8,
                (ip / 0x100 % 0x100) as u8,
                (ip % 0x100) as u8,
            ];
            let dst_port: [u8; 2] = [(port / 0x100) as u8, (port % 0x100) as u8];
            let route = QuicRoute { dst_ip, dst_port, dst_mac: dst, src_mac: src };
            proof {
                assert(route.dst_ip@ =~= seq![
                    (ip / 0x100_0000) as u8,
                    (ip / 0x1_0000 % 0x100) as u8,
                    (ip / 0x100 % 0x100) as u8,
                    (ip % 0x100) as u8,
                ]);
                assert(route.dst_port@ =~= seq![(port / 0x100) as u8, (port % 0x100) as u8]);
            }
            Some(route)
        },
        _ => None,
    }
}

/// Two connections whose ids differ within the first eight bytes have different keys.
pub proof fn keys_tell_connections_apart(a: Seq<u8>, b: Seq<u8>, i: int)
    requires
        0 <= i < 8,
        i < a.len(),
        i < b.len(),
        a[i] != b[i],
    ensures
        key_of(a) != key_of(b),
{
    assert(key_of(a)[i] == a[i]);
    assert(key_of(b)[i] == b[i]);
}

proof fn lemma_hex_part(n: nat)
    requires
        n <= 255,
    ensures
        !numeral(n, 16).contains(':'),
        parsed_number(numeral(n, 16), 16, 255) == Some(n),
        numeral(n, 16).len() > 0,
        !is_space(numeral(n, 16)[0]),
        !is_space(numeral(n, 16).last()),
{
    let s = numeral(n, 16);
    lemma_numeral(n, 16);
    numeral_reads_back(n, 16, 255);
    if s.contains(':') {
        let k = choose|k: int| 0 <= k < s.len() && s[k] == ':';
        assert(digit_value(s[k]) < 16);
    }
    assert(digit_value(s[0]) < 16);
    assert(digit_value(s[s.len() - 1]) < 16);
}

/// Six hexadecimal numbers with colons between them, and white space around them, are the
/// hardware address of those six bytes.
pub proof fn hardware_addresses_read_back(m: Seq<u8>, before: Seq<char>, after: Seq<char>)
    requires
        m.len() == 6,
        forall|i: int| 0 <= i < before.len() ==> is_space(#[trigger] before[i]),
        forall|i: int| 0 <= i < after.len() ==> is_space(#[trigger] after[i]),
    ensures
        mac_in(
            before + (numeral(m[0] as nat, 16) + seq![':'] + (numeral(m[1] as nat, 16) + seq![':']
                + (numeral(m[2] as nat, 16) + seq![':'] + (numeral(m[3] as nat, 16) + seq![':'] + (
            numeral(m[4] as nat, 16) + seq![':'] + numeral(m[5] as nat, 16)))))) + after,
        ) == Some(m),
{
    let (a, b, c) = (numeral(m[0] as nat, 16), numeral(m[1] as nat, 16), numeral(m[2] as nat, 16));
    let (d, e, f) = (numeral(m[3] as nat, 16), numeral(m[4] as nat, 16), numeral(m[5] as nat, 16));
    lemma_hex_part(m[0] as nat);
    lemma_hex_part(m[1] as nat);
    lemma_hex_part(m[2] as nat);
    lemma_hex_part(m[3] as nat);
    lemma_hex_part(m[4] as nat);
    lemma_hex_part(m[5] as nat);
    let t4 = e + seq![':'] + f;
    let t3 = d + seq![':'] + t4;
    let t2 = c + seq![':'] + t3;
    let t1 = b + seq![':'] + t2;
    let t0 = a + seq![':'] + t1;
    lemma_pieces_head(a, ':', t1);
    lemma_pieces_head(b, ':', t2);
    lemma_pieces_head(c, ':', t3);
    lemma_pieces_head(d, ':', t4);
    lemma_pieces_head(e, ':', f);
    lemma_pieces_head(f, ':', f);
    assert(t0[0] == a[0]);
    assert(t0.last() == f.last());
    trimming_takes_off_padding(before, t0, after);
    let parts = pieces(t0, ':');
    assert(parts =~= seq![a, b, c, d, e, f]);
    assert(mac_in(before + t0 + after)->0 =~= m);
}

/// A loopback address is steered on `lo`; any other on the first interface that is neither `lo`
/// nor a `veth` nor a `br-`, and on `eth0` where there is none.
pub proof fn the_first_real_interface_is_taken(ip: IpAddr, names: Seq<Seq<char>>, i: int)
    requires
        0 <= i <= names.len(),
        forall|j: int|
            0 <= j < i ==> (#[trigger] names[j]) == "lo"@ || has_prefix(names[j], "veth"@)
                || has_prefix(names[j], "br-"@),
        i < names.len() ==> names[i] != "lo"@ && !has_prefix(names[i], "veth"@) && !has_prefix(
            names[i],
            "br-"@,
        ),
    ensures
        interface_for(ip, names) == if is_loopback(ip) {
            "lo"@
        } else if i < names.len() {
            names[i]
        } else {
            "eth0"@
        },
    decreases i,
{
    if i > 0 {
        assert(names[0] == "lo"@ || has_prefix(names[0], "veth"@) || has_prefix(names[0], "br-"@));
        let t = names.skip(1);
        assert forall|j: int| 0 <= j < i - 1 implies (#[trigger] t[j]) == "lo"@ || has_prefix(
            t[j],
            "veth"@,
        ) || has_prefix(t[j], "br-"@) by {
            assert(t[j] == names[j + 1]);
        }
        the_first_real_interface_is_taken(ip, t, i - 1);
    }
}

/// The loopback addresses are those from `127.0.0.0` to `127.255.255.255`, and `::1`.
pub proof fn loopback_addresses(bits: u32, wide: u128)
    ensures
        is_loopback(IpAddr::V4(bits)) <==> 2130706432 <= bits <= 2147483647,
        is_loopback(IpAddr::V6(wide)) <==> wide == 1,
{
}

/// A line of the kernel's table gives the hardware address in its fourth word to the address in
/// its first, and to no other.
pub proof fn table_lines_name_their_address(
    ip: Seq<char>,
    mac: Seq<char>,
    other: Seq<char>,
    line: Seq<char>,
)
    requires
        words(line).len() >= 4,
        words(line)[0] == ip,
        words(line)[3] == mac,
        other != ip,
    ensures
        mac_in_line(line, ip) == mac_in(mac),
        mac_in_line(line, other) is None,
{
}

/// The first line behind the heading that names an address decides.
pub proof fn the_first_line_decides(lines: Seq<Seq<char>>, ip: Seq<char>, i: int)
    requires
        1 <= i <= lines.len(),
        forall|j: int| 1 <= j < i ==> mac_in_line(#[trigger] lines[j], ip) is None,
        i < lines.len() ==> mac_in_line(lines[i], ip) is Some,
    ensures
        mac_from(lines, ip, 1) == if i < lines.len() {
            mac_in_line(lines[i], ip)
        } else {
            None
        },
{
    lemma_mac_from(lines, ip, 1, i);
}

proof fn lemma_mac_from(lines: Seq<Seq<char>>, ip: Seq<char>, from: int, i: int)
    requires
        0 <= from <= i <= lines.len(),
        forall|j: int| from <= j < i ==> mac_in_line(#[trigger] lines[j], ip) is None,
        i < lines.len() ==> mac_in_line(lines[i], ip) is Some,
    ensures
        mac_from(lines, ip, from) == if i < lines.len() {
            mac_in_line(lines[i], ip)
        } else {
            None
        },
    decreases i - from,
{
    if from < i {
        assert(mac_in_line(lines[from], ip) is None);
        lemma_mac_from(lines, ip, from + 1, i);
    }
}

/// The key of a connection is the first eight bytes of its id, with zeros behind a shorter one.
pub proof fn keys_hold_the_first_eight_bytes(cid: Seq<u8>, i: int)
    requires
        0 <= i < 8,
    ensures
        key_of(cid).len() == 8,
        i < cid.len() ==> key_of(cid)[i] == cid[i],
        i >= cid.len() ==> key_of(cid)[i] == 0,
{
}

/// A route spells its address and port in network order: the most significant byte first.
pub proof fn routes_are_in_network_order(
    r: QuicRoute,
    ip: u32,
    port: u16,
    dst: Seq<u8>,
    src: Seq<u8>,
)
    requires
        leads_to(r, ip, port, dst, src),
    ensures
        r.dst_ip@[0] * 16777216 + r.dst_ip@[1] * 65536 + r.dst_ip@[2] * 256 + r.dst_ip@[3] == ip,
        r.dst_port@[0] * 256 + r.dst_port@[1] == port,
        r.dst_mac@ == dst,
        r.src_mac@ == src,
{
}

/// The loopback interface and loopback addresses have no hardware address.
pub proof fn loopback_has_no_hardware_address(
    content: Option<&str>,
    ip: IpAddr,
    r: Option<[u8; 6]>,
)
    requires
        is_loopback(ip),
        call_ensures(get_arp_mac, (ip, content), r),
    ensures
        r is None,
{
}

/// The loopback device serves loopback addresses, and no hardware address is read for it.
pub proof fn interfaces_are_detected(
    ip: IpAddr,
    names: &Vec<String>,
    r: String,
    iface: &str,
    content: Option<&str>,
    mac: Option<[u8; 6]>,
    i: int,
)
    requires
        call_ensures(detect_interface, (ip, names), r),
        call_ensures(get_interface_mac, (iface, content), mac),
        0 <= i < names@.len(),
        names@[i]@ != "lo"@ && !has_prefix(names@[i]@, "veth"@) && !has_prefix(
            names@[i]@,
            "br-"@,
        ),
        forall|j: int|
            0 <= j < i ==> (#[trigger] names@[j])@ == "lo"@ || has_prefix(names@[j]@, "veth"@)
                || has_prefix(names@[j]@, "br-"@),
    ensures
        is_loopback(ip) ==> r@ == "lo"@,
        !is_loopback(ip) ==> r@ == names@[i]@,
        iface@ == "lo"@ || content is None ==> mac is None,
        iface@ != "lo"@ && content is Some ==> opt_mac(mac) == mac_in(content->0@),
{
    let all = crate::text::strings(names@);
    assert forall|j: int| 0 <= j < i implies (#[trigger] all[j]) == "lo"@ || has_prefix(
        all[j],
        "veth"@,
    ) || has_prefix(all[j], "br-"@) by {
        assert(all[j] == names@[j]@);
    }
    assert(all[i] == names@[i]@);
    the_first_real_interface_is_taken(ip, all, i);
}

/// A route needs an address in four octets and both hardware addresses, and holds them.
pub proof fn routes_need_all_addresses(
    resolved: Option<SocketAddr>,
    dst: Option<[u8; 6]>,
    src: Option<[u8; 6]>,
    r: Option<QuicRoute>,
    cid: &[u8],
    key: [u8; 8],
    i: int,
)
    requires
        call_ensures(quic_route, (resolved, dst, src), r),
        call_ensures(cid_key, (cid,), key),
        0 <= i < 8,
    ensures
        r is Some ==> dst is Some && src is Some && (resolved matches Some(a) && a is V4),
        dst is Some && src is Some && (resolved matches Some(a) && a is V4) ==> r is Some,
        r matches Some(route) ==> route.dst_mac@ == dst->0@ && route.src_mac@ == src->0@ && (
        resolved matches Some(SocketAddr::V4 { ip, port }) && route.dst_ip@[0] * 16777216
            + route.dst_ip@[1] * 65536 + route.dst_ip@[2] * 256 + route.dst_ip@[3] == ip
            && route.dst_port@[0] * 256 + route.dst_port@[1] == port),
        key@[i] == if i < cid@.len() {
            cid@[i]
        } else {
            0
        },
{
    keys_hold_the_first_eight_bytes(cid@, i);
    if let Some(route) = r {
        if let Some(SocketAddr::V4 { ip, port }) = resolved {
            routes_are_in_network_order(route, ip, port, dst->0@, src->0@);
        }
    }
}

} // verus!
