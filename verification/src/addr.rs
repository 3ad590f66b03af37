//! IP and socket addresses, with the texts that `std` gives them.

use crate::text::{
    all_digits, chars_of, digit_value, digits_value, joined_with, lemma_no_leading_zero, lemma_numeral,
    lemma_pieces_head, numeral, parse_number, pieces, push_numeral, split_at_char, texts,
};
use vstd::prelude::*;
use vstd::string::*;

verus! {

/// An IP address: the bits in network order.
#[derive(Clone, Copy, Debug, PartialEq, Eq, Hash, Structural)]
pub enum IpAddr {
    V4(u32),
    V6(u128),
}

/// An IP address with a port; for IPv6 also flow information and scope.
#[derive(Clone, Copy, Debug, PartialEq, Eq, Hash, Structural)]
#[allow(inconsistent_fields)]
pub enum SocketAddr {
    V4 { ip: u32, port: u16 },
    V6 { ip: u128, port: u16, flowinfo: u32, scope_id: u32 },
}

/// Four decimal numbers with dots between them.
pub open spec fn v4_text(bits: u32) -> Seq<char> {
    numeral((bits / 0x100_0000) as nat, 10) + "."@ + numeral((bits / 0x1_0000 % 0x100) as nat, 10)
        + "."@ + numeral((bits / 0x100 % 0x100) as nat, 10) + "."@ + numeral(
        (bits % 0x100) as nat,
        10,
    )
}

/// The eight 16-bit groups of an IPv6 address.
pub open spec fn v6_groups(bits: u128) -> Seq<u16> {
    seq![
        (bits / 0x1_0000_0000_0000_0000_0000_0000_0000 % 0x1_0000) as u16,
        (bits / 0x1_0000_0000_0000_0000_0000_0000 % 0x1_0000) as u16,
        (bits / 0x1_0000_0000_0000_0000_0000 % 0x1_0000) as u16,
        (bits / 0x1_0000_0000_0000_0000 % 0x1_0000) as u16,
        (bits / 0x1_0000_0000_0000 % 0x1_0000) as u16,
        (bits / 0x1_0000_0000 % 0x1_0000) as u16,
        (bits / 0x1_0000 % 0x1_0000) as u16,
        (bits % 0x1_0000) as u16,
    ]
}

/// How many zeros stand in `s` from position `i` on without a gap.
pub open spec fn zeros_from(s: Seq<u16>, i: int) -> int
    decreases s.len() - i,
{
    if 0 <= i < s.len() && s[i] == 0 {
        1 + zeros_from(s, i + 1)
    } else {
        0
    }
}

/// Start and length of the longest run of zeros from position `i` on; the leftmost of several.
pub open spec fn longest_zeros(s: Seq<u16>, i: int) -> (int, int)
    decreases s.len() - i,
{
    if i >= s.len() {
        (i, 0)
    } else {
        let later = longest_zeros(s, i + 1);
        if zeros_from(s, i) >= later.1 {
            (i, zeros_from(s, i))
        } else {
            later
        }
    }
}

/// Groups in hexadecimal with colons between them.
pub open spec fn groups_text(s: Seq<u16>) -> Seq<char>
    decreases s.len(),
{
    if s.len() == 0 {
        Seq::empty()
    } else if s.len() == 1 {
        numeral(s[0] as nat, 16)
    } else {
        groups_text(s.drop_last()) + ":"@ + numeral(s.last() as nat, 16)
    }
}

/// The canonical text of an IPv6 address: an embedded IPv4 address in decimal, and the
/// leftmost longest run of two or more zero groups as `::`.
pub open spec fn v6_text(bits: u128) -> Seq<char> {
    let s = v6_groups(bits);
    let (start, len) = longest_zeros(s, 0);
    if bits / 0x1_0000_0000 == 0xffff {
        "::ffff:"@ + v4_text((bits % 0x1_0000_0000) as u32)
    } else if len > 1 {
        groups_text(s.take(start)) + "::"@ + groups_text(s.skip(start + len))
    } else {
        groups_text(s)
    }
}

fn push_v4(out: &mut String, bits: u32)
    ensures
        final(out)@ == old(out)@ + v4_text(bits),
{
    let ghost before = out@;
    push_numeral(out, (bits / 0x100_0000) as u64, 10);
    out.append(".");
    push_numeral(out, (bits / 0x1_0000 % 0x100) as u64, 10);
    out.append(".");
    push_numeral(out, (bits / 0x100 % 0x100) as u64, 10);
    out.append(".");
    push_numeral(out, (bits % 0x100) as u64, 10);
    proof {
        assert(out@ =~= before + v4_text(bits));
    }
}

fn groups_of(bits: u128) -> (v: Vec<u16>)
    ensures
        v@ == v6_groups(bits),
{
    let mut v: Vec<u16> = Vec::new();
    v.push((bits / 0x1_0000_0000_0000_0000_0000_0000_0000 % 0x1_0000) as u16);
    v.push((bits / 0x1_0000_0000_0000_0000_0000_0000 % 0x1_0000) as u16);
    v.push((bits / 0x1_0000_0000_0000_0000_0000 % 0x1_0000) as u16);
    v.push((bits / 0x1_0000_0000_0000_0000 % 0x1_0000) as u16);
    v.push((bits / 0x1_0000_0000_0000 % 0x1_0000) as u16);
    v.push((bits / 0x1_0000_0000 % 0x1_0000) as u16);
    v.push((bits / 0x1_0000 % 0x1_0000) as u16);
    v.push((bits % 0x1_0000) as u16);
    proof {
        assert(v@ =~= v6_groups(bits));
    }
    v
}

proof fn lemma_longest_zeros(s: Seq<u16>, i: int)
    requires
        0 <= i <= s.len(),
    ensures
        0 <= zeros_from(s, i) <= s.len() - i,
        i <= longest_zeros(s, i).0,
        0 <= longest_zeros(s, i).1,
        longest_zeros(s, i).0 + longest_zeros(s, i).1 <= s.len(),
    decreases s.len() - i,
{
    if i < s.len() {
        lemma_longest_zeros(s, i + 1);
    }
}

fn find_longest_zeros(v: &[u16]) -> (r: (usize, usize))
    ensures
        (r.0 as int, r.1 as int) == longest_zeros(v@, 0),
        r.0 + r.1 <= v.len(),
{
    let n: usize = v.len();
    let mut i: usize = n;
    let mut run: usize = 0;
    let mut best: (usize, usize) = (n, 0);
    while i > 0
        invariant
            i <= n == v.len(),
            run == zeros_from(v@, i as int),
            run <= n - i,
            (best.0 as int, best.1 as int) == longest_zeros(v@, i as int),
        decreases i,
    {
        i = i - 1;
        if v[i] == 0 {
            run = run + 1;
        } else {
            run = 0;
        }
        if run >= best.1 {
            best = (i, run);
        }
    }
    proof {
        lemma_longest_zeros(v@, 0);
    }
    best
}

fn push_groups(out: &mut String, v: &[u16], from: usize, to: usize)
    requires
        from <= to <= v.len(),
    ensures
        final(out)@ == old(out)@ + groups_text(v@.subrange(from as int, to as int)),
{
    let ghost before = out@;
    let mut i: usize = from;
    proof {
        assert(before + Seq::<char>::empty() =~= before);
    }
    while i < to
        invariant
            from <= i <= to <= v.len(),
            out@ == before + groups_text(v@.subrange(from as int, i as int)),
        decreases to - i,
    {
        if i > from {
            out.append(":");
        }
        push_numeral(out, v[i] as u64, 16);
        i = i + 1;
        proof {
            let s = v@.subrange(from as int, i as int);
            assert(s.drop_last() =~= v@.subrange(from as int, i - 1));
            assert(out@ =~= before + groups_text(s));
        }
    }
}

fn push_v6(out: &mut String, bits: u128)
    ensures
        final(out)@ == old(out)@ + v6_text(bits),
{
    let ghost before = out@;
    if bits / 0x1_0000_0000 == 0xffff {
        out.append("::ffff:");
        push_v4(out, (bits % 0x1_0000_0000) as u32);
        proof {
            assert(out@ =~= before + v6_text(bits));
        }
        return;
    }
    let v = groups_of(bits);
    let (start, len) = find_longest_zeros(&v);
    if len > 1 {
        push_groups(out, &v, 0, start);
        out.append("::");
        push_groups(out, &v, start + len, v.len());
        proof {
            assert(v@.subrange(0, start as int) =~= v@.take(start as int));
            assert(v@.subrange(start + len, v.len() as int) =~= v@.skip(start + len));
            assert(out@ =~= before + v6_text(bits));
        }
    } else {
        push_groups(out, &v, 0, v.len());
        proof {
            assert(v@.subrange(0, v.len() as int) =~= v@);
            assert(out@ =~= before + v6_text(bits));
        }
    }
}

impl IpAddr {
    /// The address `a.b.c.d`.
    pub fn v4(a: u8, b: u8, c: u8, d: u8) -> (r: IpAddr)
        ensures
            r == IpAddr::V4(
                (a as nat * 0x100_0000 + b as nat * 0x1_0000 + c as nat * 0x100 + d as nat) as u32,
            ),
    {
        IpAddr::V4(a as u32 * 0x100_0000 + b as u32 * 0x1_0000 + c as u32 * 0x100 + d as u32)
    }

    /// The canonical text of the address.
    pub open spec fn text(self) -> Seq<char> {
        match self {
            IpAddr::V4(bits) => v4_text(bits),
            IpAddr::V6(bits) => v6_text(bits),
        }
    }

    /// The canonical text of the address.
    pub fn to_text(&self) -> (s: String)
        ensures
            s@ == self.text(),
    {
        let mut s = String::new();
        match *self {
            IpAddr::V4(bits) => push_v4(&mut s, bits),
            IpAddr::V6(bits) => push_v6(&mut s, bits),
        }
        proof {
            assert(s@ =~= self.text());
        }
        s
    }

    /// Whether this is `127.0.0.0/8` or `::1`.
    pub fn is_loopback(&self) -> (r: bool)
        ensures
            r == match *self {
                IpAddr::V4(bits) => bits / 0x100_0000 == 127,
                IpAddr::V6(bits) => bits == 1,
            },
    {
        match *self {
            IpAddr::V4(bits) => bits / 0x100_0000 == 127,
            IpAddr::V6(bits) => bits == 1,
        }
    }

    /// Whether this is an IPv4 address.
    pub fn is_ipv4(&self) -> (r: bool)
        ensures
            r == (self is V4),
    {
        matches!(*self, IpAddr::V4(_))
    }
}

impl SocketAddr {
    /// `ip` with `port`, without flow information or scope.
    pub fn new(ip: IpAddr, port: u16) -> (r: SocketAddr)
        ensures
            r.spec_ip() == ip,
            r.spec_port() == port,
            r matches SocketAddr::V6 { flowinfo, scope_id, .. } ==> flowinfo == 0 && scope_id == 0,
    {
        match ip {
            IpAddr::V4(bits) => SocketAddr::V4 { ip: bits, port },
            IpAddr::V6(bits) => SocketAddr::V6 { ip: bits, port, flowinfo: 0, scope_id: 0 },
        }
    }

    pub open spec fn spec_ip(self) -> IpAddr {
        match self {
            SocketAddr::V4 { ip, .. } => IpAddr::V4(ip),
            SocketAddr::V6 { ip, .. } => IpAddr::V6(ip),
        }
    }

    pub open spec fn spec_port(self) -> u16 {
        match self {
            SocketAddr::V4 { port, .. } => port,
            SocketAddr::V6 { port, .. } => port,
        }
    }

    /// The IP address.
    pub fn ip(&self) -> (r: IpAddr)
        ensures
            r == self.spec_ip(),
    {
        match *self {
            SocketAddr::V4 { ip, .. } => IpAddr::V4(ip),
            SocketAddr::V6 { ip, .. } => IpAddr::V6(ip),
        }
    }

    /// The port.
    pub fn port(&self) -> (r: u16)
        ensures
            r == self.spec_port(),
    {
        match *self {
            SocketAddr::V4 { port, .. } => port,
            SocketAddr::V6 { port, .. } => port,
        }
    }

    /// `ip:port`, an IPv6 address in brackets and with its scope where it has one.
    pub open spec fn text(self) -> Seq<char> {
        match self {
            SocketAddr::V4 { ip, port } => v4_text(ip) + ":"@ + numeral(port as nat, 10),
            SocketAddr::V6 { ip, port, scope_id, .. } => "["@ + v6_text(ip) + (if scope_id == 0 {
                Seq::empty()
            } else {
                "%"@ + numeral(scope_id as nat, 10)
            }) + "]:"@ + numeral(port as nat, 10),
        }
    }

    /// `ip:port`, an IPv6 address in brackets and with its scope where it has one.
    pub fn to_text(&self) -> (s: String)
        ensures
            s@ == self.text(),
    {
        let mut s = String::new();
        match *self {
            SocketAddr::V4 { ip, port } => {
                push_v4(&mut s, ip);
                s.append(":");
                push_numeral(&mut s, port as u64, 10);
            },
            SocketAddr::V6 { ip, port, scope_id, .. } => {
                s.append("[");
                push_v6(&mut s, ip);
                if scope_id != 0 {
                    s.append("%");
                    push_numeral(&mut s, scope_id as u64, 10);
                }
                s.append("]:");
                push_numeral(&mut s, port as u64, 10);
            },
        }
        proof {
            assert(s@ =~= self.text());
        }
        s
    }
}

// -------------------------------------------------------------------- reading

/// The number below 256 that a text stands for: decimal digits without a leading zero.
pub open spec fn octet_in(s: Seq<char>) -> Option<nat> {
    if s.len() > 0 && all_digits(s, 10) && (s.len() == 1 || s[0] != '0') && digits_value(s, 10)
        <= 255 {
        Some(digits_value(s, 10))
    } else {
        None
    }
}

/// The IPv4 address that a text stands for: four numbers below 256 with dots between them.
pub open spec fn v4_in(s: Seq<char>) -> Option<u32> {
    let parts = pieces(s, '.');
    if parts.len() == 4 && octet_in(parts[0]).is_some() && octet_in(parts[1]).is_some()
        && octet_in(parts[2]).is_some() && octet_in(parts[3]).is_some() {
        Some(
            (octet_in(parts[0])->0 * 0x100_0000 + octet_in(parts[1])->0 * 0x1_0000 + octet_in(
                parts[2],
            )->0 * 0x100 + octet_in(parts[3])->0) as u32,
        )
    } else {
        None
    }
}

fn parse_octet(s: &str) -> (r: Option<u32>)
    ensures
        (match r {
            Some(n) => Some(n as nat),
            None => None::<nat>,
        }) == octet_in(s@),
{
    let v = chars_of(s);
    if v.len() == 0 || v[0] == '+' || (v.len() > 1 && v[0] == '0') {
        proof {
            if v@.len() > 0 && v@[0] == '+' {
                assert(digit_value(s@[0]) == 16);
            }
        }
        return None;
    }
    match parse_number(s, 10, 255) {
        Some(n) => Some(n as u32),
        None => None,
    }
}

/// Reads an IPv4 address.
pub fn parse_ipv4(s: &str) -> (r: Option<u32>)
    ensures
        r == v4_in(s@),
{
    let parts = split_at_char(s, '.');
    proof {
        assert(texts(parts@).len() == parts@.len());
    }
    if parts.len() != 4 {
        return None;
    }
    proof {
        assert(texts(parts@)[0] == parts@[0]@);
        assert(texts(parts@)[1] == parts@[1]@);
        assert(texts(parts@)[2] == parts@[2]@);
        assert(texts(parts@)[3] == parts@[3]@);
    }
    match (parse_octet(parts[0]), parse_octet(parts[1]), parse_octet(parts[2]), parse_octet(parts[3])) {
        (Some(a), Some(b), Some(c), Some(d)) => Some(
            a * 0x100_0000 + b * 0x1_0000 + c * 0x100 + d,
        ),
        _ => None,
    }
}

proof fn lemma_octet(n: nat)
    requires
        n <= 255,
    ensures
        octet_in(numeral(n, 10)) == Some(n),
        !numeral(n, 10).contains('.'),
{
    lemma_numeral(n, 10);
    lemma_no_leading_zero(n);
    let s = numeral(n, 10);
    if s.contains('.') {
        let k = choose|k: int| 0 <= k < s.len() && s[k] == '.';
        assert(digit_value(s[k]) < 10);
    }
}

proof fn lemma_octets(bits: u32)
    ensures
        bits == (bits / 0x100_0000) * 0x100_0000 + (bits / 0x1_0000 % 0x100) * 0x1_0000 + (bits
            / 0x100 % 0x100) * 0x100 + bits % 0x100,
        bits / 0x100_0000 <= 255,
{
    assert(bits / 0x1_0000 == (bits / 0x100) / 0x100);
    assert(bits / 0x100_0000 == (bits / 0x1_0000) / 0x100);
}

/// Reading the text of an IPv4 address gives the address back.
pub proof fn v4_text_reads_back(bits: u32)
    ensures
        v4_in(v4_text(bits)) == Some(bits),
{
    reveal_strlit(".");
    let a = numeral((bits / 0x100_0000) as nat, 10);
    let b = numeral((bits / 0x1_0000 % 0x100) as nat, 10);
    let c = numeral((bits / 0x100 % 0x100) as nat, 10);
    let d = numeral((bits % 0x100) as nat, 10);
    lemma_octet((bits / 0x100_0000) as nat);
    lemma_octet((bits / 0x1_0000 % 0x100) as nat);
    lemma_octet((bits / 0x100 % 0x100) as nat);
    lemma_octet((bits % 0x100) as nat);
    let dot = seq!['.'];
    assert("."@ =~= dot);
    let t3 = c + dot + d;
    let t2 = b + dot + t3;
    let t1 = a + dot + t2;
    assert(v4_text(bits) =~= t1);
    lemma_pieces_head(a, '.', t2);
    lemma_pieces_head(b, '.', t3);
    lemma_pieces_head(c, '.', d);
    lemma_pieces_head(d, '.', d);
    assert(pieces(t1, '.') =~= seq![a, b, c, d]);
    assert(v4_in(t1) == v4_in(v4_text(bits)));
    lemma_octets(bits);
}

/// The groups of an IPv6 address are its sixteen-bit words, the most significant first.
pub proof fn groups_spell_the_address(bits: u128)
    ensures
        v6_groups(bits).len() == 8,
        ({
            let g = v6_groups(bits);
            let high = g[0] as int * 0x1_0000_0000_0000 + g[1] as int * 0x1_0000_0000 + g[2] as int
                * 0x1_0000 + g[3] as int;
            let low = g[4] as int * 0x1_0000_0000_0000 + g[5] as int * 0x1_0000_0000 + g[6] as int
                * 0x1_0000 + g[7] as int;
            bits == high * 0x1_0000_0000_0000_0000 + low
        }),
{
    let b = bits as int;
    let x1 = lemma_word_off(b, 1, 0x1_0000);
    let x2 = lemma_word_off(b, 0x1_0000, 0x1_0000_0000);
    let x3 = lemma_word_off(b, 0x1_0000_0000, 0x1_0000_0000_0000);
    let x4 = lemma_word_off(b, 0x1_0000_0000_0000, 0x1_0000_0000_0000_0000);
    let x5 = lemma_word_off(b, 0x1_0000_0000_0000_0000, 0x1_0000_0000_0000_0000_0000);
    let x6 = lemma_word_off(
        b,
        0x1_0000_0000_0000_0000_0000,
        0x1_0000_0000_0000_0000_0000_0000,
    );
    let x7 = lemma_word_off(
        b,
        0x1_0000_0000_0000_0000_0000_0000,
        0x1_0000_0000_0000_0000_0000_0000_0000,
    );
    assert(x7 < 0x1_0000);
    let g = v6_groups(bits);
    assert(g[0] == x7);
    assert(x6 == x7 * 0x1_0000 + g[1]);
    assert(x5 == x6 * 0x1_0000 + g[2]);
    assert(x4 == x5 * 0x1_0000 + g[3]);
    assert(x3 == x4 * 0x1_0000 + g[4]);
    assert(x2 == x3 * 0x1_0000 + g[5]);
    assert(x1 == x2 * 0x1_0000 + g[6]);
    assert(b == x1 * 0x1_0000 + g[7]);
}

proof fn lemma_word_off(b: int, p: int, q: int) -> (r: int)
    requires
        b >= 0,
        p > 0,
        q == p * 0x1_0000,
    ensures
        r == b / q,
        b / p == r * 0x1_0000 + b / p % 0x1_0000,
{
    vstd::arithmetic::div_mod::lemma_div_denominator(b, p, 0x1_0000);
    vstd::arithmetic::div_mod::lemma_fundamental_div_mod(b / p, 0x1_0000);
    b / q
}

/// The run of zeros that is shortened is the longest, and the first of those as long.
pub proof fn the_longest_run_is_shortened(s: Seq<u16>, from: int, i: int)
    requires
        0 <= from <= i < s.len(),
    ensures
        ({
            let (start, len) = longest_zeros(s, from);
            &&& zeros_from(s, i) <= len
            &&& i < start ==> zeros_from(s, i) < len
            &&& len > 0 ==> len == zeros_from(s, start)
            &&& from <= start
        }),
    decreases s.len() - from,
{
    lemma_longest_zeros(s, from);
    lemma_longest_zeros(s, from + 1);
    if i > from {
        the_longest_run_is_shortened(s, from + 1, i);
    } else if from + 1 < s.len() {
        the_longest_run_is_shortened(s, from + 1, from + 1);
    }
}

/// A run of zeros holds zeros only, and ends at another group or at the end.
pub proof fn runs_hold_zeros(s: Seq<u16>, i: int, k: int)
    requires
        0 <= i <= s.len(),
    ensures
        i <= k < i + zeros_from(s, i) ==> k < s.len() && s[k] == 0,
        i + zeros_from(s, i) < s.len() ==> s[i + zeros_from(s, i)] != 0,
    decreases s.len() - i,
{
    if i < s.len() && s[i] == 0 {
        runs_hold_zeros(s, i + 1, k);
    }
}

/// Groups are written in hexadecimal, with colons between them.
pub proof fn groups_are_written_in_hexadecimal(s: Seq<u16>)
    ensures
        groups_text(s) == joined_with(s.map_values(|g: u16| numeral(g as nat, 16)), seq![':']),
    decreases s.len(),
{
    reveal_strlit(":");
    assert(":"@ =~= seq![':']);
    let parts = s.map_values(|g: u16| numeral(g as nat, 16));
    if s.len() > 1 {
        groups_are_written_in_hexadecimal(s.drop_last());
        assert(parts.drop_last() =~= s.drop_last().map_values(|g: u16| numeral(g as nat, 16)));
        assert(parts.last() == numeral(s.last() as nat, 16));
    }
}

/// How addresses are written: an IPv6 address that holds an IPv4 one ends with that; one with a
/// run of two zeros or more has `::` in its place; a socket address has its port behind it, and
/// brackets around IPv6.
pub proof fn addresses_are_written_as_usual(bits: u128, ip: u32, port: u16)
    ensures
        v6_text((0xffff_0000_0000 + ip) as u128) == "::ffff:"@ + v4_text(ip),
        bits / 0x1_0000_0000 != 0xffff && longest_zeros(v6_groups(bits), 0).1 <= 1 ==> v6_text(bits)
            == groups_text(v6_groups(bits)),
        bits / 0x1_0000_0000 != 0xffff && longest_zeros(v6_groups(bits), 0).1 >= 2 ==> v6_text(bits)
            == groups_text(v6_groups(bits).take(longest_zeros(v6_groups(bits), 0).0)) + "::"@
            + groups_text(
            v6_groups(bits).skip(
                longest_zeros(v6_groups(bits), 0).0 + longest_zeros(v6_groups(bits), 0).1,
            ),
        ),
        (SocketAddr::V4 { ip, port }).text() == v4_text(ip) + ":"@ + numeral(port as nat, 10),
        (SocketAddr::V6 { ip: bits, port, flowinfo: 0, scope_id: 0 }).text() == "["@ + v6_text(bits)
            + "]:"@ + numeral(port as nat, 10),
        (SocketAddr::V4 { ip, port }).spec_ip() == IpAddr::V4(ip),
        (SocketAddr::V4 { ip, port }).spec_port() == port,
        (SocketAddr::V6 { ip: bits, port, flowinfo: 0, scope_id: 0 }).spec_ip() == IpAddr::V6(bits),
        (SocketAddr::V6 { ip: bits, port, flowinfo: 0, scope_id: 0 }).spec_port() == port,
{
    assert("["@ + v6_text(bits) + Seq::<char>::empty() =~= "["@ + v6_text(bits));
}

/// Only a text that an IPv4 address is written as reads as one: four numbers up to 255 without
/// leading zeros.
pub proof fn only_four_octets_are_an_address(s: Seq<char>)
    ensures
        v4_in(s) matches Some(bits) ==> pieces(s, '.').len() == 4,
        forall|k: int|
            0 <= k < 4 && v4_in(s) is Some ==> (octet_in(#[trigger] pieces(s, '.')[k]) matches Some(
                n,
            ) && n <= 255),
{
}

/// The four octets of an address are its bytes, the first on top.
pub proof fn octets_make_the_address(a: u8, b: u8, c: u8, d: u8, r: IpAddr)
    requires
        call_ensures(IpAddr::v4, (a, b, c, d), r),
    ensures
        r matches IpAddr::V4(n) && n == a * 16777216 + b * 65536 + c * 256 + d,
{
}

/// The scope of an address stands behind it, in decimal, where it has one.
pub proof fn scopes_are_written_behind(ip: u128, port: u16, flowinfo: u32, scope_id: u32)
    requires
        scope_id > 0,
    ensures
        (SocketAddr::V6 { ip, port, flowinfo, scope_id }).text() == "["@ + v6_text(ip) + ("%"@
            + numeral(scope_id as nat, 10)) + "]:"@ + numeral(port as nat, 10),
        IpAddr::V6(ip).text() == v6_text(ip),
{
}

/// An address is written as its text says.
pub proof fn addresses_are_shown(a: IpAddr, b: SocketAddr, r: String, s: String)
    requires
        call_ensures(IpAddr::to_text, (&a,), r),
        call_ensures(SocketAddr::to_text, (&b,), s),
    ensures
        a matches IpAddr::V4(n) ==> r@ == v4_text(n),
        b matches SocketAddr::V4 { ip, port } ==> s@ == v4_text(ip) + ":"@ + numeral(
            port as nat,
            10,
        ),
{
}

/// An octet is a decimal number up to 255 without a zero in front.
pub proof fn octets_are_decimal(s: Seq<char>, i: int)
    requires
        octet_in(s) is Some,
        0 <= i < s.len(),
    ensures
        '0' <= s[i] <= '9',
        s.len() > 1 ==> s[0] != '0',
        octet_in(s)->0 <= 255,
{
    assert(digit_value(s[i]) < 10);
}

} // verus!
