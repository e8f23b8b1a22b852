//! Report rendering: the delimited-text table and the structured rows of a
//! window's flows, the report file names, and reading structured rows back.
use vstd::prelude::*;
use vstd::string::*;

use crate::net::IpAddress;
use crate::num::{
    decimal, decimal_text, hex, hex_value, i32_value, lemma_decimal_no_dot, lemma_decimal_value, lemma_hex_value,
    parse_hex_u16, parse_i32, push_decimal, push_hex, read_u64, u64_value, is_digit,
};
use crate::packet::Packet;
use crate::report::{
    bytes_of, first_of, header_of, is_flow_table, last_of, lemma_indices, Report, ReportHeader, MAX_WINDOW_PACKETS,
};
use crate::text::{
    join, joined, lemma_joined_lacks, lemma_split_concat, lemma_split_joined, lemma_split_single, push_char, split_on, split_text, text_eq, views,
};

verus! {

/// The four octets of an IPv4 address in decimal.
pub open spec fn octet_texts(b0: u8, b1: u8, b2: u8, b3: u8) -> Seq<Seq<char>> {
    seq![decimal(b0 as nat), decimal(b1 as nat), decimal(b2 as nat), decimal(b3 as nat)]
}

/// The eight groups of an IPv6 address, in order.
pub open spec fn groups_of(g0: u16, g1: u16, g2: u16, g3: u16, g4: u16, g5: u16, g6: u16, g7: u16) -> Seq<u16> {
    seq![g0, g1, g2, g3, g4, g5, g6, g7]
}

/// Groups in hexadecimal.
pub open spec fn hex_groups(gs: Seq<u16>) -> Seq<Seq<char>> {
    gs.map_values(|x: u16| hex(x as nat))
}

/// Length of the run of zero groups that ends just before index `n`.
pub open spec fn zeros_ending(g: Seq<u16>, n: nat) -> nat
    decreases n,
{
    if n == 0 || g[n - 1] != 0 {
        0
    } else {
        zeros_ending(g, (n - 1) as nat) + 1
    }
}

/// The first longest run of zero groups among the first `n`: its start and
/// its length.
pub open spec fn longest_zeros(g: Seq<u16>, n: nat) -> (int, nat)
    decreases n,
{
    if n == 0 {
        (0, 0)
    } else {
        let prev = longest_zeros(g, (n - 1) as nat);
        let c = zeros_ending(g, n);
        if c > prev.1 {
            (n - c, c)
        } else {
            prev
        }
    }
}

/// The text of eight IPv6 groups that are not an IPv4-mapped address: the
/// groups in hexadecimal separated by colons, with the first longest run of
/// two or more zero groups written as `::`.
pub open spec fn ipv6_text(gs: Seq<u16>) -> Seq<char> {
    let h = hex_groups(gs);
    let run = longest_zeros(gs, 8);
    if run.1 > 1 {
        joined(h.subrange(0, run.0), seq![':']) + seq![':', ':'] + joined(
            h.subrange(run.0 + run.1, 8),
            seq![':'],
        )
    } else {
        joined(h, seq![':'])
    }
}

/// Whether IPv6 groups are an IPv4-mapped address, `::ffff:a.b.c.d`.
pub open spec fn is_v4_mapped(g0: u16, g1: u16, g2: u16, g3: u16, g4: u16, g5: u16) -> bool {
    g0 == 0 && g1 == 0 && g2 == 0 && g3 == 0 && g4 == 0 && g5 == 0xffff
}

/// The IPv4 address held in the last two groups of an IPv4-mapped address.
pub open spec fn mapped_v4(g6: u16, g7: u16) -> IpAddress {
    IpAddress::V4((g6 / 256) as u8, (g6 % 256) as u8, (g7 / 256) as u8, (g7 % 256) as u8)
}

/// An IP address as text, in the standard form: dotted decimal for IPv4;
/// for IPv6, `::ffff:` and dotted decimal for an IPv4-mapped address, and
/// otherwise lowercase hexadecimal groups with the first longest run of two
/// or more zero groups shortened to `::`.
pub open spec fn address_text(a: IpAddress) -> Seq<char> {
    match a {
        IpAddress::V4(b0, b1, b2, b3) => joined(octet_texts(b0, b1, b2, b3), seq!['.']),
        IpAddress::V6(g0, g1, g2, g3, g4, g5, g6, g7) => if is_v4_mapped(g0, g1, g2, g3, g4, g5) {
            seq![':', ':', 'f', 'f', 'f', 'f', ':'] + ipv4_text_of(mapped_v4(g6, g7))
        } else {
            ipv6_text(groups_of(g0, g1, g2, g3, g4, g5, g6, g7))
        },
    }
}

/// The dotted decimal text of an IPv4 address.
pub open spec fn ipv4_text_of(a: IpAddress) -> Seq<char> {
    match a {
        IpAddress::V4(b0, b1, b2, b3) => joined(octet_texts(b0, b1, b2, b3), seq!['.']),
        _ => Seq::empty(),
    }
}

/// `n` in hexadecimal.
fn hex_text(n: u64) -> (r: String)
    ensures
        r@ == hex(n as nat),
{
    let mut r = String::new();
    push_hex(&mut r, n);
    assert(r@ =~= hex(n as nat));
    r
}

/// The groups from `from` to `to` in hexadecimal.
fn hex_range(gs: &Vec<u16>, from: usize, to: usize) -> (r: Vec<String>)
    requires
        from <= to <= gs@.len(),
    ensures
        views(r@) == hex_groups(gs@).subrange(from as int, to as int),
{
    let mut r: Vec<String> = Vec::new();
    let mut k: usize = from;
    while k < to
        invariant
            from <= k <= to <= gs@.len(),
            views(r@) == hex_groups(gs@).subrange(from as int, k as int),
        decreases to - k,
    {
        let t = hex_text(gs[k] as u64);
        let ghost before = r@;
        let ghost tv = t@;
        r.push(t);
        assert(views(r@) =~= views(before).push(tv));
        assert(views(r@) =~= hex_groups(gs@).subrange(from as int, k + 1));
        k = k + 1;
    }
    r
}

/// The first longest zero run is a run of zeros within the first `n` groups.
proof fn lemma_longest_zeros(g: Seq<u16>, n: nat)
    requires
        n <= g.len(),
    ensures
        0 <= longest_zeros(g, n).0,
        longest_zeros(g, n).0 + longest_zeros(g, n).1 <= n,
        forall|k: int|
            longest_zeros(g, n).0 <= k < longest_zeros(g, n).0 + longest_zeros(g, n).1 ==> g[k] == 0,
    decreases n,
{
    if n > 0 {
        lemma_longest_zeros(g, (n - 1) as nat);
        lemma_zeros_ending(g, n);
    }
}

/// The zero run ending at `n` lies within the first `n` groups.
proof fn lemma_zeros_ending(g: Seq<u16>, n: nat)
    requires
        n <= g.len(),
    ensures
        zeros_ending(g, n) <= n,
        forall|k: int| n - zeros_ending(g, n) <= k < n ==> g[k] == 0,
    decreases n,
{
    if n > 0 && g[n - 1] == 0 {
        lemma_zeros_ending(g, (n - 1) as nat);
    }
}

/// The text of eight IPv6 groups that are not an IPv4-mapped address.
fn ipv6_groups_text(gs: &Vec<u16>) -> (r: String)
    requires
        gs@.len() == 8,
    ensures
        r@ == ipv6_text(gs@),
{
    let mut cur: usize = 0;
    let mut best_start: usize = 0;
    let mut best_len: usize = 0;
    let mut i: usize = 0;
    while i < 8
        invariant
            gs@.len() == 8,
            i <= 8,
            cur == zeros_ending(gs@, i as nat),
            best_start as int == longest_zeros(gs@, i as nat).0,
            best_len == longest_zeros(gs@, i as nat).1,
            cur <= i,
            best_start + best_len <= i,
        decreases 8 - i,
    {
        proof {
            lemma_longest_zeros(gs@, i as nat);
        }
        if gs[i] == 0 {
            cur = cur + 1;
            if cur > best_len {
                best_start = i + 1 - cur;
                best_len = cur;
            }
        } else {
            cur = 0;
        }
        i = i + 1;
    }
    proof {
        reveal_strlit(":");
        reveal_strlit("::");
    }
    assert(":"@ =~= seq![':']);
    assert("::"@ =~= seq![':', ':']);
    if best_len > 1 {
        let left = hex_range(gs, 0, best_start);
        let right = hex_range(gs, best_start + best_len, 8);
        let mut out = join(&left, ":");
        out.append("::");
        let tail = join(&right, ":");
        out.append(tail.as_str());
        out
    } else {
        let all = hex_range(gs, 0, 8);
        assert(hex_groups(gs@).subrange(0, 8) =~= hex_groups(gs@));
        join(&all, ":")
    }
}

impl IpAddress {
    /// The address as text, in the standard form.
    pub fn to_text(&self) -> (r: String)
        ensures
            r@ == address_text(*self),
    {
        proof {
            reveal_strlit(".");
            reveal_strlit("::ffff:");
        }
        match *self {
            IpAddress::V4(b0, b1, b2, b3) => ipv4_text(b0, b1, b2, b3),
            IpAddress::V6(g0, g1, g2, g3, g4, g5, g6, g7) => {
                if g0 == 0 && g1 == 0 && g2 == 0 && g3 == 0 && g4 == 0 && g5 == 0xffff {
                    let mut out = "::ffff:".to_string();
                    let v4 = ipv4_text((g6 / 256) as u8, (g6 % 256) as u8, (g7 / 256) as u8, (g7 % 256) as u8);
                    out.append(v4.as_str());
                    assert("::ffff:"@ =~= seq![':', ':', 'f', 'f', 'f', 'f', ':']);
                    out
                } else {
                    let gs = vec![g0, g1, g2, g3, g4, g5, g6, g7];
                    assert(gs@ =~= groups_of(g0, g1, g2, g3, g4, g5, g6, g7));
                    ipv6_groups_text(&gs)
                }
            },
        }
    }
}

/// The dotted decimal text of four octets.
fn ipv4_text(b0: u8, b1: u8, b2: u8, b3: u8) -> (r: String)
    ensures
        r@ == joined(octet_texts(b0, b1, b2, b3), seq!['.']),
{
    proof {
        reveal_strlit(".");
    }
    let parts = vec![decimal_text(b0 as u64), decimal_text(b1 as u64), decimal_text(b2 as u64), decimal_text(b3 as u64)];
    assert(views(parts@) =~= octet_texts(b0, b1, b2, b3));
    assert("."@ =~= seq!['.']);
    join(&parts, ".")
}

/// A port as a structured-row field: its number, or nothing.
pub open spec fn port_field(p: Option<u16>) -> Seq<char> {
    match p {
        Some(v) => decimal(v as nat),
        None => Seq::empty(),
    }
}

/// The structured-row fields of a flow record, in header order.
pub open spec fn row_fields(r: Report) -> Seq<Seq<char>> {
    seq![
        r.packet.interface@,
        address_text(r.packet.src_addr),
        address_text(r.packet.dest_addr),
        r.packet.res_name@,
        port_field(r.packet.src_port),
        port_field(r.packet.dest_port),
        r.packet.transport@,
        r.packet.application@,
        decimal(r.total_bytes as nat),
        r.start_time@,
        r.stop_time@,
    ]
}

/// The names of the structured-row fields.
pub open spec fn header_row() -> Seq<Seq<char>> {
    seq![
        "interface"@,
        "src_addr"@,
        "dest_addr"@,
        "res_name"@,
        "src_port"@,
        "dest_port"@,
        "transport"@,
        "application"@,
        "tot_bytes"@,
        "start_time"@,
        "stop_time"@,
    ]
}

/// The names of the structured-row fields.
pub fn header_fields() -> (r: Vec<String>)
    ensures
        views(r@) == header_row(),
{
    let r = vec![
        "interface".to_string(),
        "src_addr".to_string(),
        "dest_addr".to_string(),
        "res_name".to_string(),
        "src_port".to_string(),
        "dest_port".to_string(),
        "transport".to_string(),
        "application".to_string(),
        "tot_bytes".to_string(),
        "start_time".to_string(),
        "stop_time".to_string(),
    ];
    assert(views(r@) =~= header_row());
    r
}

/// A port as a structured-row field.
fn port_text(p: Option<u16>) -> (r: String)
    ensures
        r@ == port_field(p),
{
    match p {
        Some(v) => decimal_text(v as u64),
        None => String::new(),
    }
}

impl Report {
    /// The record's structured-row fields, in header order.
    pub fn fields(&self) -> (r: Vec<String>)
        ensures
            views(r@) == row_fields(*self),
    {
        let r = vec![
            self.packet.interface.clone(),
            self.packet.src_addr.to_text(),
            self.packet.dest_addr.to_text(),
            self.packet.res_name.clone(),
            port_text(self.packet.src_port),
            port_text(self.packet.dest_port),
            self.packet.transport.clone(),
            self.packet.application.clone(),
            decimal_text(self.total_bytes),
            self.start_time.clone(),
            self.stop_time.clone(),
        ];
        assert(views(r@) =~= row_fields(*self));
        r
    }
}

/// What a flow record comes to once read back: its key, byte total, and
/// first and last timestamps.
pub struct FlowSummary {
    pub key: ReportHeader,
    pub total_bytes: u64,
    pub start_time: String,
    pub stop_time: String,
}

impl FlowSummary {
    pub open spec fn view(&self) -> (ReportHeader, u64, Seq<char>, Seq<char>) {
        (self.key, self.total_bytes, self.start_time@, self.stop_time@)
    }
}

/// The key, byte total and timestamps of a flow record.
pub open spec fn summary_of(r: Report) -> (ReportHeader, u64, Seq<char>, Seq<char>) {
    (header_of(r.packet), r.total_bytes, r.start_time@, r.stop_time@)
}

/// An IPv4 octet read back from text.
pub open spec fn octet_value(p: Seq<char>) -> Option<u8> {
    match i32_value(p) {
        Some(v) => if 0 <= v <= 255 {
            Some(v as u8)
        } else {
            None
        },
        None => None,
    }
}

/// An IPv6 group read back from text.
pub open spec fn group_value(p: Seq<char>) -> Option<u16> {
    match hex_value(p) {
        Some(v) => if v <= 0xffff {
            Some(v as u16)
        } else {
            None
        },
        None => None,
    }
}

/// The IPv4 address spelled by four pieces, if each is an octet.
pub open spec fn ipv4_value(o: Seq<Seq<char>>) -> Option<IpAddress> {
    if o.len() == 4 && octet_value(o[0]) is Some && octet_value(o[1]) is Some && octet_value(o[2]) is Some
        && octet_value(o[3]) is Some {
        Some(IpAddress::V4(octet_value(o[0])->0, octet_value(o[1])->0, octet_value(o[2])->0, octet_value(o[3])->0))
    } else {
        None
    }
}

/// The groups spelled by pieces, if each piece is a group.
pub open spec fn groups_value(p: Seq<Seq<char>>) -> Option<Seq<u16>>
    decreases p.len(),
{
    if p.len() == 0 {
        Some(Seq::empty())
    } else {
        match (groups_value(p.drop_last()), group_value(p.last())) {
            (Some(a), Some(b)) => Some(a.push(b)),
            _ => None,
        }
    }
}

/// The IPv6 address with eight given groups.
pub open spec fn v6_of(g: Seq<u16>) -> IpAddress {
    IpAddress::V6(g[0], g[1], g[2], g[3], g[4], g[5], g[6], g[7])
}

/// `e` is the index of the first empty piece.
pub open spec fn is_first_empty(p: Seq<Seq<char>>, e: int) -> bool {
    0 <= e < p.len() && p[e].len() == 0 && forall|j: int| 0 <= j < e ==> (#[trigger] p[j]).len() > 0
}

/// The IPv6 address spelled by the colon-separated pieces of a text: eight
/// groups, or groups on either side of one `::` standing for as many zero
/// groups as make eight, at least two.
pub open spec fn ipv6_value(p: Seq<Seq<char>>) -> Option<IpAddress> {
    if forall|i: int| 0 <= i < p.len() ==> (#[trigger] p[i]).len() > 0 {
        if p.len() == 8 && groups_value(p) is Some {
            Some(v6_of(groups_value(p)->0))
        } else {
            None
        }
    } else {
        let e = choose|e: int| is_first_empty(p, e);
        if e == 0 && !(p.len() >= 2 && p[1].len() == 0) {
            None
        } else {
            let skip: int = if e == 0 { 2 } else { 1 };
            let rest = p.subrange(e + skip, p.len() as int);
            let right = if rest == seq![Seq::<char>::empty()] { Seq::empty() } else { rest };
            match (groups_value(p.subrange(0, e)), groups_value(right)) {
                (Some(a), Some(b)) => if a.len() + b.len() <= 6 {
                    Some(v6_of(a + Seq::new((8 - a.len() - b.len()) as nat, |_i: int| 0u16) + b))
                } else {
                    None
                },
                _ => None,
            }
        }
    }
}

/// The IPv4-mapped IPv6 address of an IPv4 address.
pub open spec fn mapped_of(a: IpAddress) -> IpAddress {
    match a {
        IpAddress::V4(b0, b1, b2, b3) => IpAddress::V6(
            0,
            0,
            0,
            0,
            0,
            0xffff,
            (b0 as int * 256 + b1 as int) as u16,
            (b2 as int * 256 + b3 as int) as u16,
        ),
        _ => a,
    }
}

/// Whether a text starts with `::ffff:` and goes on with an IPv4 address.
pub open spec fn is_mapped_text(t: Seq<char>) -> bool {
    t.len() >= 7 && t.subrange(0, 7) == seq![':', ':', 'f', 'f', 'f', 'f', ':'] && ipv4_value(
        split_on(t.subrange(7, t.len() as int), '.'),
    ) is Some
}

/// The address that a text spells: an IPv4-mapped IPv6 address, four
/// dot-separated octets, or IPv6 groups.
pub open spec fn address_value(t: Seq<char>) -> Option<IpAddress> {
    if is_mapped_text(t) {
        Some(mapped_of(ipv4_value(split_on(t.subrange(7, t.len() as int), '.'))->0))
    } else if split_on(t, ':').len() == 1 {
        ipv4_value(split_on(t, '.'))
    } else {
        ipv6_value(split_on(t, ':'))
    }
}

/// A port field read back: `Some(None)` for an empty field.
pub open spec fn port_value(t: Seq<char>) -> Option<Option<u16>> {
    if t.len() == 0 {
        Some(None)
    } else {
        match i32_value(t) {
            Some(v) => if 0 <= v <= 0xffff {
                Some(Some(v as u16))
            } else {
                None
            },
            None => None,
        }
    }
}

/// The key, byte total and timestamps that a structured row gives back.
pub open spec fn read_fields(f: Seq<Seq<char>>) -> Option<(ReportHeader, u64, Seq<char>, Seq<char>)> {
    if f.len() == 11 && address_value(f[1]) is Some && address_value(f[2]) is Some && port_value(f[4]) is Some
        && port_value(f[5]) is Some && u64_value(f[8]) is Some {
        Some(
            (
                ReportHeader {
                    src_addr: address_value(f[1])->0,
                    dest_addr: address_value(f[2])->0,
                    src_port: port_value(f[4])->0,
                    dest_port: port_value(f[5])->0,
                },
                u64_value(f[8])->0,
                f[9],
                f[10],
            ),
        )
    } else {
        None
    }
}

/// Reads an octet back.
fn read_octet(p: &str) -> (r: Option<u8>)
    ensures
        r == octet_value(p@),
{
    match parse_i32(p) {
        Some(v) => if 0 <= v && v <= 255 {
            Some(v as u8)
        } else {
            None
        },
        None => None,
    }
}

/// Reads a group back.
fn read_group(p: &str) -> (r: Option<u16>)
    ensures
        r == group_value(p@),
{
    parse_hex_u16(p)
}

/// Reads a dotted IPv4 address back.
fn read_ipv4(t: &str) -> (r: Option<IpAddress>)
    ensures
        r == ipv4_value(split_on(t@, '.')),
{
    let o = split_text(t, '.');
    if o.len() == 4 {
        assert(views(o@)[0] == o@[0]@ && views(o@)[1] == o@[1]@ && views(o@)[2] == o@[2]@ && views(o@)[3] == o@[3]@);
        match (read_octet(o[0].as_str()), read_octet(o[1].as_str()), read_octet(o[2].as_str()), read_octet(o[3].as_str())) {
            (Some(b0), Some(b1), Some(b2), Some(b3)) => Some(IpAddress::V4(b0, b1, b2, b3)),
            _ => None,
        }
    } else {
        None
    }
}

/// A piece that is not a group makes every run holding it fail.
proof fn lemma_groups_fail(p: Seq<Seq<char>>, k: int)
    requires
        0 <= k < p.len(),
        group_value(p[k]) is None,
    ensures
        groups_value(p) is None,
    decreases p.len(),
{
    if k < p.len() - 1 {
        assert(p.drop_last()[k] == p[k]);
        lemma_groups_fail(p.drop_last(), k);
    }
}

/// Pieces that read back as groups give one group each.
proof fn lemma_groups_len(p: Seq<Seq<char>>)
    ensures
        groups_value(p) is Some ==> groups_value(p)->0.len() == p.len(),
    decreases p.len(),
{
    if p.len() > 0 {
        lemma_groups_len(p.drop_last());
    }
}

/// Reads the pieces from `from` to `to` back as groups.
fn read_groups(p: &Vec<String>, from: usize, to: usize) -> (r: Option<Vec<u16>>)
    requires
        from <= to <= p@.len(),
    ensures
        match r {
            Some(v) => groups_value(views(p@).subrange(from as int, to as int)) == Some(v@),
            None => groups_value(views(p@).subrange(from as int, to as int)) is None,
        },
{
    let ghost ps = views(p@);
    let mut out: Vec<u16> = Vec::new();
    let mut k: usize = from;
    assert(ps.subrange(from as int, from as int) =~= Seq::<Seq<char>>::empty());
    while k < to
        invariant
            from <= k <= to <= p@.len(),
            ps == views(p@),
            groups_value(ps.subrange(from as int, k as int)) == Some(out@),
        decreases to - k,
    {
        let ghost next = ps.subrange(from as int, k + 1);
        assert(next.drop_last() =~= ps.subrange(from as int, k as int));
        assert(next.last() == p@[k as int]@);
        match read_group(p[k].as_str()) {
            Some(g) => {
                out.push(g);
            },
            None => {
                proof {
                    let whole = ps.subrange(from as int, to as int);
                    assert(whole[k - from] == p@[k as int]@);
                    lemma_groups_fail(whole, k - from);
                }
                return None;
            },
        }
        k = k + 1;
    }
    Some(out)
}

/// Only one index is the first empty piece.
proof fn lemma_first_empty_unique(p: Seq<Seq<char>>, e1: int, e2: int)
    requires
        is_first_empty(p, e1),
        is_first_empty(p, e2),
    ensures
        e1 == e2,
{
    if e1 < e2 {
        assert(p[e1].len() > 0);
    } else if e2 < e1 {
        assert(p[e2].len() > 0);
    }
}

/// The IPv6 address with the eight groups of `g`.
fn v6_from(g: &Vec<u16>) -> (r: IpAddress)
    requires
        g@.len() == 8,
    ensures
        r == v6_of(g@),
{
    IpAddress::V6(g[0], g[1], g[2], g[3], g[4], g[5], g[6], g[7])
}

/// The groups of `a`, then zero groups, then those of `b`, eight in all.
fn fill_zeros(a: Vec<u16>, b: &Vec<u16>) -> (r: Vec<u16>)
    requires
        a@.len() + b@.len() <= 8,
    ensures
        r@ == a@ + Seq::new((8 - a@.len() - b@.len()) as nat, |_i: int| 0u16) + b@,
        r@.len() == 8,
{
    let mut full: Vec<u16> = a;
    let zeros = 8 - full.len() - b.len();
    let ghost av = full@;
    let mut z: usize = 0;
    while z < zeros
        invariant
            z <= zeros,
            full@ == av + Seq::new(z as nat, |_i: int| 0u16),
        decreases zeros - z,
    {
        full.push(0);
        z = z + 1;
        assert(full@ =~= av + Seq::new(z as nat, |_i: int| 0u16));
    }
    let mut k: usize = 0;
    let ghost mid = full@;
    while k < b.len()
        invariant
            k <= b@.len(),
            full@ == mid + b@.subrange(0, k as int),
        decreases b@.len() - k,
    {
        full.push(b[k]);
        k = k + 1;
        assert(full@ =~= mid + b@.subrange(0, k as int));
    }
    assert(b@.subrange(0, b@.len() as int) =~= b@);
    full
}

/// Reads the colon-separated pieces of a text back as an IPv6 address.
#[verifier::rlimit(50)]
fn read_ipv6(p: &Vec<String>) -> (r: Option<IpAddress>)
    ensures
        r == ipv6_value(views(p@)),
{
    let ghost ps = views(p@);
    let n = p.len();
    let mut e: usize = 0;
    while e < n && p[e].as_str().unicode_len() > 0
        invariant
            n == p@.len(),
            ps == views(p@),
            e <= n,
            forall|j: int| 0 <= j < e ==> (#[trigger] ps[j]).len() > 0,
        decreases n - e,
    {
        assert(ps[e as int] == p@[e as int]@);
        e = e + 1;
    }
    if e == n {
        if n == 8 {
            match read_groups(p, 0, 8) {
                Some(g) => {
                    assert(ps.subrange(0, 8) =~= ps);
                    proof {
                        lemma_groups_len(ps);
                    }
                    return Some(v6_from(&g));
                },
                None => {
                    assert(ps.subrange(0, 8) =~= ps);
                    return None;
                },
            }
        }
        return None;
    }
    assert(ps[e as int] == p@[e as int]@);
    assert(is_first_empty(ps, e as int));
    proof {
        let c = choose|c: int| is_first_empty(ps, c);
        lemma_first_empty_unique(ps, c, e as int);
    }
    if e == 0 && !(n >= 2 && p[1].as_str().unicode_len() == 0) {
        proof {
            if n >= 2 {
                assert(ps[1] == p@[1]@);
            }
        }
        return None;
    }
    proof {
        if n >= 2 {
            assert(ps[1] == p@[1]@);
        }
    }
    let skip: usize = if e == 0 { 2 } else { 1 };
    let start = e + skip;
    let ghost rest = ps.subrange(start as int, n as int);
    let single_empty = n - start == 1 && p[start].as_str().unicode_len() == 0;
    proof {
        if n - start == 1 {
            assert(ps[start as int] == p@[start as int]@);
            assert(rest[0] == ps[start as int]);
            if single_empty {
                assert(rest[0] =~= Seq::<char>::empty());
                assert(rest =~= seq![Seq::<char>::empty()]);
            } else {
                assert(rest[0] != Seq::<char>::empty());
            }
        }
    }
    let left = read_groups(p, 0, e);
    let right = if single_empty {
        assert(ps.subrange(n as int, n as int) =~= Seq::<Seq<char>>::empty());
        read_groups(p, n, n)
    } else {
        read_groups(p, start, n)
    };
    proof {
        lemma_groups_len(ps.subrange(0, e as int));
        lemma_groups_len(ps.subrange(start as int, n as int));
        lemma_groups_len(ps.subrange(n as int, n as int));
    }
    match (left, right) {
        (Some(a), Some(b)) => {
            if a.len() + b.len() <= 6 {
                let full = fill_zeros(a, &b);
                Some(v6_from(&full))
            } else {
                None
            }
        },
        _ => None,
    }
}

/// Reads an address back from its text.
pub fn parse_address(t: &str) -> (r: Option<IpAddress>)
    ensures
        r == address_value(t@),
{
    proof {
        reveal_strlit("::ffff:");
    }
    assert("::ffff:"@ =~= seq![':', ':', 'f', 'f', 'f', 'f', ':']);
    let n = t.unicode_len();
    if n >= 7 {
        let head = t.substring_char(0, 7);
        if text_eq(head, "::ffff:") {
            let rest = t.substring_char(7, n);
            match read_ipv4(rest) {
                Some(IpAddress::V4(b0, b1, b2, b3)) => {
                    return Some(
                        IpAddress::V6(0, 0, 0, 0, 0, 0xffff, (b0 as u16) * 256 + (b1 as u16), (b2 as u16) * 256 + (b3 as u16)),
                    );
                },
                _ => {},
            }
        } else {
            assert(head@ != seq![':', ':', 'f', 'f', 'f', 'f', ':']);
        }
    }
    let g = split_text(t, ':');
    if g.len() == 1 {
        read_ipv4(t)
    } else {
        read_ipv6(&g)
    }
}

/// Reads a port field back.
fn read_port(t: &str) -> (r: Option<Option<u16>>)
    ensures
        r == port_value(t@),
{
    if t.unicode_len() == 0 {
        Some(None)
    } else {
        match parse_i32(t) {
            Some(v) => if 0 <= v && v <= 0xffff {
                Some(Some(v as u16))
            } else {
                None
            },
            None => None,
        }
    }
}

/// Reads a structured row back into the flow's key, byte total and
/// timestamps.
pub fn read_row(fields: &Vec<String>) -> (r: Option<FlowSummary>)
    ensures
        match r {
            Some(s) => read_fields(views(fields@)) == Some(s.view()),
            None => read_fields(views(fields@)) is None,
        },
{
    if fields.len() != 11 {
        return None;
    }
    let ghost f = views(fields@);
    assert(f[1] == fields@[1]@ && f[2] == fields@[2]@ && f[4] == fields@[4]@ && f[5] == fields@[5]@);
    assert(f[8] == fields@[8]@ && f[9] == fields@[9]@ && f[10] == fields@[10]@);
    match (
        parse_address(fields[1].as_str()),
        parse_address(fields[2].as_str()),
        read_port(fields[4].as_str()),
        read_port(fields[5].as_str()),
        read_u64(fields[8].as_str()),
    ) {
        (Some(src), Some(dst), Some(sport), Some(dport), Some(total)) => Some(
            FlowSummary {
                key: ReportHeader { src_addr: src, dest_addr: dst, src_port: sport, dest_port: dport },
                total_bytes: total,
                start_time: fields[9].clone(),
                stop_time: fields[10].clone(),
            },
        ),
        _ => None,
    }
}

/// Decimal text holds no colon.
proof fn lemma_decimal_no_colon(n: nat)
    ensures
        !decimal(n).contains(':'),
{
    lemma_decimal_value(n);
    if decimal(n).contains(':') {
        let i = choose|i: int| 0 <= i < decimal(n).len() && decimal(n)[i] == ':';
        assert(is_digit(decimal(n)[i]));
    }
}

/// A decimal octet reads back as itself.
proof fn lemma_octet_round_trip(b: u8)
    ensures
        octet_value(decimal(b as nat)) == Some(b),
{
    lemma_decimal_value(b as nat);
}

/// A hexadecimal group reads back as itself.
proof fn lemma_group_round_trip(g: u16)
    ensures
        group_value(hex(g as nat)) == Some(g),
{
    lemma_hex_value(g as nat);
}

/// Dotted decimal text reads back as the IPv4 address, and holds neither
/// a colon nor the IPv4-mapped prefix.
proof fn lemma_ipv4_round_trip(b0: u8, b1: u8, b2: u8, b3: u8)
    ensures
        ipv4_value(split_on(joined(octet_texts(b0, b1, b2, b3), seq!['.']), '.')) == Some(IpAddress::V4(b0, b1, b2, b3)),
        address_value(address_text(IpAddress::V4(b0, b1, b2, b3))) == Some(IpAddress::V4(b0, b1, b2, b3)),
{
    let parts = octet_texts(b0, b1, b2, b3);
    let t = address_text(IpAddress::V4(b0, b1, b2, b3));
    lemma_decimal_no_dot(b0 as nat);
    lemma_decimal_no_dot(b1 as nat);
    lemma_decimal_no_dot(b2 as nat);
    lemma_decimal_no_dot(b3 as nat);
    lemma_decimal_no_colon(b0 as nat);
    lemma_decimal_no_colon(b1 as nat);
    lemma_decimal_no_colon(b2 as nat);
    lemma_decimal_no_colon(b3 as nat);
    assert(!seq!['.'].contains(':')) by {
        if seq!['.'].contains(':') {
            let i = choose|i: int| 0 <= i < seq!['.'].len() && seq!['.'][i] == ':';
            assert(seq!['.'][0] == '.');
        }
    }
    lemma_joined_lacks(parts, seq!['.'], ':');
    if t.len() >= 7 && t.subrange(0, 7) == seq![':', ':', 'f', 'f', 'f', 'f', ':'] {
        assert(t[0] == t.subrange(0, 7)[0]);
        assert(t.contains(':'));
    }
    lemma_split_single(t, ':');
    lemma_split_joined(parts, '.');
    lemma_octet_round_trip(b0);
    lemma_octet_round_trip(b1);
    lemma_octet_round_trip(b2);
    lemma_octet_round_trip(b3);
}

/// Hexadecimal groups read back as the groups; each is a non-empty text
/// without colon or dot.
proof fn lemma_hex_groups(g: Seq<u16>)
    ensures
        groups_value(hex_groups(g)) == Some(g),
        forall|i: int|
            0 <= i < g.len() ==> (#[trigger] hex_groups(g)[i]).len() > 0 && !hex_groups(g)[i].contains(':')
                && !hex_groups(g)[i].contains('.'),
    decreases g.len(),
{
    if g.len() > 0 {
        lemma_hex_groups(g.drop_last());
        assert(hex_groups(g).drop_last() =~= hex_groups(g.drop_last()));
        lemma_group_round_trip(g.last());
        assert(hex_groups(g).last() == hex(g.last() as nat));
        assert(g.drop_last().push(g.last()) =~= g);
    }
    assert forall|i: int| 0 <= i < g.len() implies (#[trigger] hex_groups(g)[i]).len() > 0 && !hex_groups(g)[i].contains(
        ':',
    ) && !hex_groups(g)[i].contains('.') by {
        lemma_hex_value(g[i] as nat);
    }
}

/// A colon does not hold a dot.
proof fn lemma_colons_no_dot()
    ensures
        !seq![':'].contains('.'),
        !seq![':', ':'].contains('.'),
{
    if seq![':'].contains('.') {
        let i = choose|i: int| 0 <= i < seq![':'].len() && seq![':'][i] == '.';
        assert(seq![':'][0] == ':');
    }
    if seq![':', ':'].contains('.') {
        let i = choose|i: int| 0 <= i < seq![':', ':'].len() && seq![':', ':'][i] == '.';
        assert(seq![':', ':'][0] == ':' && seq![':', ':'][1] == ':');
    }
}

/// Texts joined around `::`: the pieces are those of the left text (one
/// empty piece if there is none), an empty piece, and those of the right
/// text (again one empty piece if there is none); and the whole holds no dot.
proof fn lemma_compressed_split(lp: Seq<Seq<char>>, rp: Seq<Seq<char>>)
    requires
        forall|i: int| 0 <= i < lp.len() ==> !(#[trigger] lp[i]).contains(':') && !lp[i].contains('.'),
        forall|i: int| 0 <= i < rp.len() ==> !(#[trigger] rp[i]).contains(':') && !rp[i].contains('.'),
    ensures
        split_on(joined(lp, seq![':']) + seq![':', ':'] + joined(rp, seq![':']), ':') == (if lp.len() > 0 {
            lp
        } else {
            seq![Seq::<char>::empty()]
        }) + seq![Seq::<char>::empty()] + (if rp.len() > 0 {
            rp
        } else {
            seq![Seq::<char>::empty()]
        }),
        !(joined(lp, seq![':']) + seq![':', ':'] + joined(rp, seq![':'])).contains('.'),
{
    let tl = joined(lp, seq![':']);
    let tr = joined(rp, seq![':']);
    let e = Seq::<char>::empty();
    let t = tl + seq![':', ':'] + tr;
    assert(t =~= tl + seq![':'] + (e + seq![':'] + tr));
    lemma_split_concat(tl, ':', e + seq![':'] + tr);
    lemma_split_concat(e, ':', tr);
    assert(split_on(e, ':') == seq![e]);
    if lp.len() > 0 {
        lemma_split_joined(lp, ':');
    } else {
        assert(tl == e);
    }
    if rp.len() > 0 {
        lemma_split_joined(rp, ':');
    } else {
        assert(tr == e);
    }
    lemma_colons_no_dot();
    lemma_joined_lacks(lp, seq![':'], '.');
    lemma_joined_lacks(rp, seq![':'], '.');
    let two = seq![tl, tr];
    assert(two.drop_last() =~= seq![tl]);
    assert(seq![tl][0] == tl);
    assert(joined(seq![tl], seq![':', ':']) == tl);
    assert(two.last() == tr);
    assert(joined(two, seq![':', ':']) == t);
    assert forall|i: int| 0 <= i < two.len() implies !(#[trigger] two[i]).contains('.') by {
        if i == 0 {
            assert(two[i] == tl);
        } else {
            assert(two[i] == tr);
        }
    }
    lemma_joined_lacks(two, seq![':', ':'], '.');
}

/// The pieces of a compressed text read back as the groups on either side
/// with zero groups between them.
proof fn lemma_compressed_value(lp: Seq<Seq<char>>, rp: Seq<Seq<char>>, a: Seq<u16>, b: Seq<u16>)
    requires
        forall|i: int| 0 <= i < lp.len() ==> (#[trigger] lp[i]).len() > 0,
        forall|i: int| 0 <= i < rp.len() ==> (#[trigger] rp[i]).len() > 0,
        groups_value(lp) == Some(a),
        groups_value(rp) == Some(b),
        lp.len() + rp.len() <= 6,
    ensures
        ipv6_value(
            (if lp.len() > 0 {
                lp
            } else {
                seq![Seq::<char>::empty()]
            }) + seq![Seq::<char>::empty()] + (if rp.len() > 0 {
                rp
            } else {
                seq![Seq::<char>::empty()]
            }),
        ) == Some(v6_of(a + Seq::new((8 - a.len() - b.len()) as nat, |_i: int| 0u16) + b)),
{
    let e = Seq::<char>::empty();
    let sl = if lp.len() > 0 { lp } else { seq![e] };
    let sr = if rp.len() > 0 { rp } else { seq![e] };
    let pcs = sl + seq![e] + sr;
    lemma_groups_len(lp);
    lemma_groups_len(rp);
    let fe: int = lp.len() as int;
    assert(pcs[fe] == e);
    assert forall|j: int| 0 <= j < fe implies (#[trigger] pcs[j]).len() > 0 by {
        assert(pcs[j] == lp[j]);
    }
    assert(is_first_empty(pcs, fe));
    let c = choose|c: int| is_first_empty(pcs, c);
    lemma_first_empty_unique(pcs, c, fe);
    assert(!(forall|i: int| 0 <= i < pcs.len() ==> (#[trigger] pcs[i]).len() > 0));
    let skip: int = if fe == 0 { 2 } else { 1 };
    if fe == 0 {
        assert(pcs[1] == e);
    }
    let rest = pcs.subrange(fe + skip, pcs.len() as int);
    assert(rest =~= sr);
    if rp.len() > 0 {
        if rest == seq![e] {
            assert(rp[0] == rest[0]);
        }
    }
    let right = if rest == seq![e] { Seq::<Seq<char>>::empty() } else { rest };
    assert(right =~= rp);
    assert(pcs.subrange(0, fe) =~= lp);
}

/// The text of eight groups holds no dot, splits at colons into at least
/// two pieces, and those pieces read back as the address.
#[verifier::rlimit(50)]
proof fn lemma_ipv6_text_round_trip(gs: Seq<u16>)
    requires
        gs.len() == 8,
    ensures
        !ipv6_text(gs).contains('.'),
        split_on(ipv6_text(gs), ':').len() >= 2,
        ipv6_value(split_on(ipv6_text(gs), ':')) == Some(v6_of(gs)),
{
    let h = hex_groups(gs);
    let run = longest_zeros(gs, 8);
    let s = run.0;
    let l = run.1;
    lemma_hex_groups(gs);
    lemma_longest_zeros(gs, 8);
    lemma_colons_no_dot();
    assert(h.len() == 8);
    if l <= 1 {
        lemma_split_joined(h, ':');
        lemma_joined_lacks(h, seq![':'], '.');
        assert(forall|i: int| 0 <= i < h.len() ==> (#[trigger] h[i]).len() > 0);
    } else {
        let av = gs.subrange(0, s);
        let bv = gs.subrange(s + l, 8);
        let lp = h.subrange(0, s);
        let rp = h.subrange(s + l, 8);
        assert(lp =~= hex_groups(av));
        assert(rp =~= hex_groups(bv));
        lemma_hex_groups(av);
        lemma_hex_groups(bv);
        lemma_compressed_split(lp, rp);
        lemma_compressed_value(lp, rp, av, bv);
        assert(av + Seq::new((8 - av.len() - bv.len()) as nat, |_i: int| 0u16) + bv =~= gs);
    }
}

/// An address's text reads back as the address.
pub proof fn lemma_address_round_trip(a: IpAddress)
    ensures
        address_value(address_text(a)) == Some(a),
{
    match a {
        IpAddress::V4(b0, b1, b2, b3) => lemma_ipv4_round_trip(b0, b1, b2, b3),
        IpAddress::V6(g0, g1, g2, g3, g4, g5, g6, g7) => {
            if is_v4_mapped(g0, g1, g2, g3, g4, g5) {
                let v = mapped_v4(g6, g7);
                let o0 = (g6 / 256) as u8;
                let o1 = (g6 % 256) as u8;
                let o2 = (g7 / 256) as u8;
                let o3 = (g7 % 256) as u8;
                lemma_ipv4_round_trip(o0, o1, o2, o3);
                let vt = joined(octet_texts(o0, o1, o2, o3), seq!['.']);
                let t = address_text(a);
                assert(t == seq![':', ':', 'f', 'f', 'f', 'f', ':'] + vt);
                assert(t.subrange(0, 7) =~= seq![':', ':', 'f', 'f', 'f', 'f', ':']);
                assert(t.subrange(7, t.len() as int) =~= vt);
                assert(mapped_of(IpAddress::V4(o0, o1, o2, o3)) == a);
            } else {
                let gs = groups_of(g0, g1, g2, g3, g4, g5, g6, g7);
                let t = address_text(a);
                lemma_ipv6_text_round_trip(gs);
                assert(t == ipv6_text(gs));
                if t.len() >= 7 {
                    let rest = t.subrange(7, t.len() as int);
                    assert(!rest.contains('.')) by {
                        if rest.contains('.') {
                            let i = choose|i: int| 0 <= i < rest.len() && rest[i] == '.';
                            assert(t[i + 7] == '.');
                        }
                    }
                    lemma_split_single(rest, '.');
                }
                assert(v6_of(gs) == a);
            }
        },
    }
}

/// A port field reads back as the port.
proof fn lemma_port_round_trip(p: Option<u16>)
    ensures
        port_value(port_field(p)) == Some(p),
{
    if let Some(v) = p {
        lemma_decimal_value(v as nat);
    }
}

/// Writing a flow record as a structured row and reading the row back gives
/// the record's key, byte total, and first and last timestamps.
pub proof fn lemma_row_round_trip(r: Report)
    ensures
        read_fields(row_fields(r)) == Some(summary_of(r)),
{
    lemma_address_round_trip(r.packet.src_addr);
    lemma_address_round_trip(r.packet.dest_addr);
    lemma_port_round_trip(r.packet.src_port);
    lemma_port_round_trip(r.packet.dest_port);
    lemma_decimal_value(r.total_bytes as nat);
}

/// `n` spaces.
pub open spec fn spaces(n: nat) -> Seq<char> {
    Seq::new(n, |_i: int| ' ')
}

/// `s` padded with spaces on the right to at least `w` characters.
pub open spec fn pad(s: Seq<char>, w: nat) -> Seq<char> {
    if s.len() < w {
        s + spaces((w - s.len()) as nat)
    } else {
        s
    }
}

/// A port as a text-table cell: its number, or 0.
pub open spec fn port_cell(p: Option<u16>) -> Seq<char> {
    match p {
        Some(v) => decimal(v as nat),
        None => decimal(0),
    }
}

/// The pieces of a flow's line in the text table, in order.
pub open spec fn line_pieces(r: Report) -> Seq<Seq<char>> {
    seq![
        "| "@,
        pad(r.packet.interface@, 1),
        "\t| "@,
        pad(address_text(r.packet.src_addr), 20),
        "\t| "@,
        pad(port_cell(r.packet.src_port), 5),
        "\t| "@,
        pad(address_text(r.packet.dest_addr), 25),
        " ("@,
        r.packet.res_name@,
        ") \t| "@,
        pad(port_cell(r.packet.dest_port), 5),
        "\t| "@,
        pad(decimal(r.total_bytes as nat), 3),
        "\t| "@,
        pad(r.packet.transport@, 4),
        " \t| "@,
        pad(r.packet.application@, 4),
        "\t| "@,
        pad(r.start_time@, 15),
        "\t| "@,
        pad(r.stop_time@, 15),
    ]
}

/// A flow's line in the text table.
pub open spec fn text_line(r: Report) -> Seq<char> {
    joined(line_pieces(r), Seq::empty())
}

/// `s` padded with spaces on the right to at least `w` characters.
fn pad_text(s: &str, w: usize) -> (r: String)
    ensures
        r@ == pad(s@, w as nat),
{
    let mut out = s.to_string();
    let n = s.unicode_len();
    if n < w {
        let mut k: usize = n;
        while k < w
            invariant
                n <= k <= w,
                n == s@.len(),
                out@ == s@ + spaces((k - n) as nat),
            decreases w - k,
        {
            push_char(&mut out, ' ');
            k = k + 1;
            assert(out@ =~= s@ + spaces((k - n) as nat));
        }
    } else {
        assert(out@ =~= pad(s@, w as nat));
    }
    out
}

/// A port as a text-table cell.
fn port_cell_text(p: Option<u16>) -> (r: String)
    ensures
        r@ == port_cell(p),
{
    match p {
        Some(v) => decimal_text(v as u64),
        None => decimal_text(0),
    }
}

/// The header line of the text table.
pub open spec fn text_header_line() -> Seq<char> {
    "| Interface\t| Source IP address\t| Source Port\t| Dest IP address \t| Dest Port\t| Tot Bytes\t| Transport \t| Application \t| First Timestamp \t| Last Timestamp \n"@
}

/// The header line of the text table.
pub fn text_header() -> (r: String)
    ensures
        r@ == text_header_line(),
{
    "| Interface\t| Source IP address\t| Source Port\t| Dest IP address \t| Dest Port\t| Tot Bytes\t| Transport \t| Application \t| First Timestamp \t| Last Timestamp \n".to_string()
}

impl Report {
    /// The record's line in the text table.
    pub fn text_record(&self) -> (r: String)
        ensures
            r@ == text_line(*self),
    {
        proof {
            reveal_strlit("");
        }
        let src = self.packet.src_addr.to_text();
        let dst = self.packet.dest_addr.to_text();
        let sport = port_cell_text(self.packet.src_port);
        let dport = port_cell_text(self.packet.dest_port);
        let total = decimal_text(self.total_bytes);
        let pieces = vec![
            "| ".to_string(),
            pad_text(self.packet.interface.as_str(), 1),
            "\t| ".to_string(),
            pad_text(src.as_str(), 20),
            "\t| ".to_string(),
            pad_text(sport.as_str(), 5),
            "\t| ".to_string(),
            pad_text(dst.as_str(), 25),
            " (".to_string(),
            self.packet.res_name.clone(),
            ") \t| ".to_string(),
            pad_text(dport.as_str(), 5),
            "\t| ".to_string(),
            pad_text(total.as_str(), 3),
            "\t| ".to_string(),
            pad_text(self.packet.transport.as_str(), 4),
            " \t| ".to_string(),
            pad_text(self.packet.application.as_str(), 4),
            "\t| ".to_string(),
            pad_text(self.start_time.as_str(), 15),
            "\t| ".to_string(),
            pad_text(self.stop_time.as_str(), 15),
        ];
        assert(views(pieces@) =~= line_pieces(*self));
        assert(""@ =~= Seq::<char>::empty());
        join(&pieces, "")
    }
}

/// The bytes that the `csv` crate writes for one record of the given
/// fields, quoting them where needed and ending the line.
pub uninterp spec fn csv_record(fields: Seq<Seq<char>>) -> Seq<u8>;

/// Relies on `csv::Writer::write_record` over an in-memory buffer: the
/// bytes depend on the fields alone. Writing to a `Vec` cannot fail.
#[verifier::external_body]
fn csv_encode(fields: &Vec<String>) -> (r: Vec<u8>)
    ensures
        r@ == csv_record(views(fields@)),
{
    let mut w = csv::WriterBuilder::new().has_headers(false).from_writer(Vec::new());
    match w.write_record(fields) {
        Ok(()) => w.into_inner().unwrap_or_default(),
        Err(_) => Vec::new(),
    }
}

/// The header row of the structured-row format.
pub fn csv_header_bytes() -> (r: Vec<u8>)
    ensures
        r@ == csv_record(header_row()),
{
    csv_encode(&header_fields())
}

impl Report {
    /// The record's row in the structured-row format.
    pub fn csv_bytes(&self) -> (r: Vec<u8>)
        ensures
            r@ == csv_record(row_fields(*self)),
    {
        csv_encode(&self.fields())
    }
}

/// The views of rows of strings.
pub open spec fn rows_views(v: Seq<Vec<String>>) -> Seq<Seq<Seq<char>>> {
    v.map_values(|r: Vec<String>| views(r@))
}

/// The rows of fields that the `csv` crate reads from bytes, or `None`
/// where they are not valid CSV.
pub uninterp spec fn csv_rows(bytes: Seq<u8>) -> Option<Seq<Seq<Seq<char>>>>;

/// Relies on `csv::Reader::records`: the rows of fields read from bytes,
/// which depend on the bytes alone.
#[verifier::external_body]
fn csv_decode(bytes: &[u8]) -> (r: Option<Vec<Vec<String>>>)
    ensures
        match r {
            Some(rows) => csv_rows(bytes@) == Some(rows_views(rows@)),
            None => csv_rows(bytes@) is None,
        },
{
    let mut reader = csv::ReaderBuilder::new().has_headers(false).flexible(true).from_reader(bytes);
    reader.records().map(|rec| rec.ok().map(|rec| rec.iter().map(|f| f.to_string()).collect())).collect()
}

/// What rows of fields read back as, row by row; `None` if any row does not.
pub open spec fn read_rows(rows: Seq<Seq<Seq<char>>>) -> Option<Seq<(ReportHeader, u64, Seq<char>, Seq<char>)>>
    decreases rows.len(),
{
    if rows.len() == 0 {
        Some(Seq::empty())
    } else {
        match (read_rows(rows.drop_last()), read_fields(rows.last())) {
            (Some(a), Some(b)) => Some(a.push(b)),
            _ => None,
        }
    }
}

/// What a structured-row report reads back as: a header row, then one row
/// per flow.
pub open spec fn read_table(rows: Seq<Seq<Seq<char>>>) -> Option<Seq<(ReportHeader, u64, Seq<char>, Seq<char>)>> {
    if rows.len() >= 1 && rows[0] == header_row() {
        read_rows(rows.drop_first())
    } else {
        None
    }
}

/// The views of read-back summaries.
pub open spec fn summaries_view(v: Seq<FlowSummary>) -> Seq<(ReportHeader, u64, Seq<char>, Seq<char>)> {
    v.map_values(|s: FlowSummary| s.view())
}

/// Reads back the rows of a structured-row report, after its header row.
pub fn read_table_rows(rows: &Vec<Vec<String>>) -> (r: Option<Vec<FlowSummary>>)
    ensures
        match r {
            Some(v) => read_table(rows_views(rows@)) == Some(summaries_view(v@)),
            None => read_table(rows_views(rows@)) is None,
        },
{
    if rows.len() == 0 {
        return None;
    }
    let header = header_fields();
    let first = &rows[0];
    let mut same = first.len() == header.len();
    let mut j: usize = 0;
    while same && j < first.len()
        invariant
            same ==> first@.len() == header@.len(),
            j <= first@.len(),
            same == (first@.len() == header@.len() && forall|k: int| 0 <= k < j ==> first@[k]@ == header@[k]@),
        decreases first@.len() - j,
    {
        same = text_eq(first[j].as_str(), header[j].as_str());
        j = j + 1;
    }
    proof {
        assert(rows_views(rows@)[0] == views(first@));
        if same {
            assert(views(first@) =~= views(header@));
        } else if first@.len() == header@.len() {
            let k = choose|k: int| 0 <= k < j && first@[k]@ != header@[k]@;
            assert(views(first@)[k] != views(header@)[k]);
        }
    }
    if !same {
        return None;
    }
    let ghost body = rows_views(rows@).drop_first();
    let mut out: Vec<FlowSummary> = Vec::new();
    let mut i: usize = 1;
    while i < rows.len()
        invariant
            1 <= i <= rows@.len(),
            body == rows_views(rows@).drop_first(),
            read_rows(body.subrange(0, i - 1)) == Some(summaries_view(out@)),
        decreases rows@.len() - i,
    {
        let ghost pre = body.subrange(0, i - 1);
        let ghost next = body.subrange(0, i as int);
        assert(next.drop_last() =~= pre);
        assert(next.last() == views(rows@[i as int]@));
        match read_row(&rows[i]) {
            Some(s) => {
                let ghost before = out@;
                out.push(s);
                assert(summaries_view(out@) =~= summaries_view(before).push(s.view()));
            },
            None => {
                proof {
                    lemma_read_rows_fails(body, i - 1);
                }
                return None;
            },
        }
        i = i + 1;
    }
    assert(body.subrange(0, i - 1) =~= body);
    Some(out)
}

/// A row that does not read back makes every longer run fail.
proof fn lemma_read_rows_fails(rows: Seq<Seq<Seq<char>>>, k: int)
    requires
        0 <= k < rows.len(),
        read_fields(rows[k]) is None,
    ensures
        read_rows(rows) is None,
    decreases rows.len(),
{
    if k < rows.len() - 1 {
        assert(rows.drop_last()[k] == rows[k]);
        lemma_read_rows_fails(rows.drop_last(), k);
    }
}

/// Reads a structured-row report back from its bytes.
pub fn read_report(bytes: &[u8]) -> (r: Option<Vec<FlowSummary>>)
    ensures
        match csv_rows(bytes@) {
            Some(rows) => match r {
                Some(v) => read_table(rows) == Some(summaries_view(v@)),
                None => read_table(rows) is None,
            },
            None => r is None,
        },
{
    match csv_decode(bytes) {
        Some(rows) => read_table_rows(&rows),
        None => None,
    }
}

/// Each record of a run, written as a structured row, reads back as its
/// summary.
#[verifier::rlimit(50)]
pub proof fn lemma_rows_round_trip(rs: Seq<Report>)
    ensures
        read_rows(rs.map_values(|r: Report| row_fields(r))) == Some(rs.map_values(|r: Report| summary_of(r))),
    decreases rs.len(),
{
    if rs.len() > 0 {
        let rows = rs.map_values(|r: Report| row_fields(r));
        lemma_rows_round_trip(rs.drop_last());
        assert(rows.drop_last() =~= rs.drop_last().map_values(|r: Report| row_fields(r)));
        lemma_row_round_trip(rs.last());
        assert(rs.drop_last().map_values(|r: Report| summary_of(r)).push(summary_of(rs.last())) =~= rs.map_values(
            |r: Report| summary_of(r),
        ));
    }
}

/// Writing a window's flow table as structured rows and reading them back
/// gives, for every flow and whatever the order of the rows, the flow's key,
/// the sum of the lengths of its packets, and the timestamps of its first
/// and last packets; the rows read back in the order they were written.
pub proof fn lemma_table_round_trip(t: Seq<(ReportHeader, Report)>, ps: Seq<Packet>)
    requires
        is_flow_table(t, ps),
        ps.len() <= MAX_WINDOW_PACKETS,
    ensures
        forall|i: int|
            0 <= i < t.len() ==> read_fields(row_fields(#[trigger] t[i].1)) == Some(
                (
                    t[i].0,
                    bytes_of(ps, t[i].0) as u64,
                    ps[first_of(ps, t[i].0)].timestamp@,
                    ps[last_of(ps, t[i].0)].timestamp@,
                ),
            ),
        read_rows(t.map_values(|e: (ReportHeader, Report)| row_fields(e.1))) == Some(
            t.map_values(|e: (ReportHeader, Report)| summary_of(e.1)),
        ),
{
    assert forall|i: int| 0 <= i < t.len() implies read_fields(row_fields(#[trigger] t[i].1)) == Some(
        (
            t[i].0,
            bytes_of(ps, t[i].0) as u64,
            ps[first_of(ps, t[i].0)].timestamp@,
            ps[last_of(ps, t[i].0)].timestamp@,
        ),
    ) by {
        lemma_indices(ps, t[i].0);
        lemma_row_round_trip(t[i].1);
    }
    let rs = t.map_values(|e: (ReportHeader, Report)| e.1);
    lemma_rows_round_trip(rs);
    assert(rs.map_values(|r: Report| row_fields(r)) =~= t.map_values(|e: (ReportHeader, Report)| row_fields(e.1)));
    assert(rs.map_values(|r: Report| summary_of(r)) =~= t.map_values(|e: (ReportHeader, Report)| summary_of(e.1)));
}

/// What a run of records reads back as once written as structured rows.
pub open spec fn read_back(rs: Seq<Report>) -> Option<Seq<(ReportHeader, u64, Seq<char>, Seq<char>)>> {
    read_rows(rs.map_values(|r: Report| row_fields(r)))
}

/// Two reports that hold the same flow records, written in any two orders,
/// both read back, and they read back the same set of (key, byte total,
/// first timestamp, last timestamp) tuples.
pub proof fn lemma_write_order(rs1: Seq<Report>, rs2: Seq<Report>)
    requires
        forall|r: Report| rs1.contains(r) <==> rs2.contains(r),
    ensures
        read_back(rs1) is Some,
        read_back(rs2) is Some,
        forall|x: (ReportHeader, u64, Seq<char>, Seq<char>)|
            (#[trigger] read_back(rs1)->0.contains(x)) <==> read_back(rs2)->0.contains(x),
{
    lemma_rows_round_trip(rs1);
    lemma_rows_round_trip(rs2);
    let out1 = rs1.map_values(|r: Report| summary_of(r));
    let out2 = rs2.map_values(|r: Report| summary_of(r));
    assert forall|x: (ReportHeader, u64, Seq<char>, Seq<char>)| #[trigger] out1.contains(x) implies out2.contains(x) by {
        let i = choose|i: int| 0 <= i < out1.len() && out1[i] == x;
        assert(rs1.contains(rs1[i]));
        let j = choose|j: int| 0 <= j < rs2.len() && rs2[j] == rs1[i];
        assert(out2[j] == x);
    }
    assert forall|x: (ReportHeader, u64, Seq<char>, Seq<char>)| #[trigger] out2.contains(x) implies out1.contains(x) by {
        let i = choose|i: int| 0 <= i < out2.len() && out2[i] == x;
        assert(rs2.contains(rs2[i]));
        let j = choose|j: int| 0 <= j < rs1.len() && rs1[j] == rs2[i];
        assert(out1[j] == x);
    }
}

/// The path of a window's report file: `<folder>/<filename>-<index>.<ext>`,
/// with `csv` or `txt` as the extension.
pub open spec fn report_path_text(folder: Seq<char>, filename: Seq<char>, index: nat, csv_mode: bool) -> Seq<char> {
    folder + "/"@ + filename + "-"@ + decimal(index) + if csv_mode {
        ".csv"@
    } else {
        ".txt"@
    }
}

/// The path of a window's report file.
pub fn report_path(folder: &str, filename: &str, index: u64, csv_mode: bool) -> (r: String)
    ensures
        r@ == report_path_text(folder@, filename@, index as nat, csv_mode),
{
    let mut out = folder.to_string();
    out.append("/");
    out.append(filename);
    out.append("-");
    push_decimal(&mut out, index);
    if csv_mode {
        out.append(".csv");
    } else {
        out.append(".txt");
    }
    out
}

/// A session directory name's characters: spaces and colons become
/// underscores, dashes are dropped.
pub open spec fn dir_chars(s: Seq<char>) -> Seq<char>
    decreases s.len(),
{
    if s.len() == 0 {
        Seq::empty()
    } else {
        let prev = dir_chars(s.drop_last());
        let c = s.last();
        if c == ' ' || c == ':' {
            prev.push('_')
        } else if c == '-' {
            prev
        } else {
            prev.push(c)
        }
    }
}

/// The name of a session's directory: the base filename and the start
/// time joined by `_`, without the last ten characters (the fraction of a
/// second), with spaces and colons as underscores and without dashes.
pub open spec fn session_dir_text(filename: Seq<char>, now: Seq<char>) -> Seq<char> {
    let s = filename + "_"@ + now;
    dir_chars(
        if s.len() >= 10 {
            s.subrange(0, s.len() - 10)
        } else {
            Seq::empty()
        },
    )
}

/// The name of a session's directory, given the base filename and the
/// session's start time as text.
pub fn session_dir_name(filename: &str, now: &str) -> (r: String)
    ensures
        r@ == session_dir_text(filename@, now@),
{
    proof {
        reveal_strlit("_");
    }
    let mut whole = filename.to_string();
    whole.append("_");
    whole.append(now);
    let n = whole.as_str().unicode_len();
    let keep: usize = if n >= 10 {
        n - 10
    } else {
        0
    };
    let ghost cut = if whole@.len() >= 10 {
        whole@.subrange(0, whole@.len() - 10)
    } else {
        Seq::<char>::empty()
    };
    let mut out = String::new();
    let mut i: usize = 0;
    while i < keep
        invariant
            keep == cut.len(),
            keep <= n,
            n == whole@.len(),
            cut == whole@.subrange(0, keep as int),
            i <= keep,
            out@ == dir_chars(cut.subrange(0, i as int)),
        decreases keep - i,
    {
        let c = whole.as_str().get_char(i);
        assert(cut[i as int] == whole@[i as int]);
        let ghost next = cut.subrange(0, i + 1);
        assert(next.drop_last() =~= cut.subrange(0, i as int));
        assert(next.last() == c);
        if c == ' ' || c == ':' {
            push_char(&mut out, '_');
        } else if c != '-' {
            push_char(&mut out, c);
        }
        i = i + 1;
    }
    assert(cut.subrange(0, keep as int) =~= cut);
    out
}

} // verus!
