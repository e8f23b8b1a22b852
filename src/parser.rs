//! Decoding of captured frames into packets, layer by layer. The header
//! layouts are read by `pktparse` and DNS questions by `dns-parser`.
use vstd::prelude::*;

use pktparse::ethernet::EtherType;
use pktparse::icmp::IcmpCode;
use pktparse::ip::IPProtocol;

use crate::net::{be16, ipv4_at, ipv4_from_octets, ipv6_at, ipv6_from_octets, IpAddress};
use crate::packet::{Error, Failure, Packet, PacketView};
use crate::text::{join, joined, views};
use crate::utils::{tcp_l7, tcp_label, udp_l7, udp_label, unknown_label};

verus! {

/// The EtherTypes that the decoder tells apart.
pub enum EtherKind {
    IPv4,
    IPv6,
    ARP,
    Other,
}

/// The EtherType kind of a raw EtherType value.
pub open spec fn ether_kind(v: u16) -> EtherKind {
    if v == 0x0800 {
        EtherKind::IPv4
    } else if v == 0x86DD {
        EtherKind::IPv6
    } else if v == 0x0806 {
        EtherKind::ARP
    } else {
        EtherKind::Other
    }
}

/// The transport protocols that the decoder tells apart.
pub enum IpProto {
    Udp,
    Tcp,
    Icmp,
    Other,
}

/// The transport protocol of a raw IP protocol number.
pub open spec fn ip_proto(v: u8) -> IpProto {
    if v == 17 {
        IpProto::Udp
    } else if v == 6 {
        IpProto::Tcp
    } else if v == 1 {
        IpProto::Icmp
    } else {
        IpProto::Other
    }
}

/// The ICMP messages that the decoder tells apart.
pub enum IcmpKind {
    EchoReply,
    EchoRequest,
    Other,
}

/// The ICMP message kind of a raw ICMP type.
pub open spec fn icmp_kind_of(t: u8) -> IcmpKind {
    if t == 0 {
        IcmpKind::EchoReply
    } else if t == 8 {
        IcmpKind::EchoRequest
    } else {
        IcmpKind::Other
    }
}

/// ICMP messages of these type and code carry an IPv4 header and eight
/// bytes of the offending datagram after the first eight bytes.
pub open spec fn icmp_has_data(t: u8, c: u8) -> bool {
    (t == 3 && c <= 15) || (t == 5 && c <= 3) || (t == 11 && c <= 1)
}

/// Whether an ICMP header can be read from `p`.
pub open spec fn icmp_ok(p: Seq<u8>) -> bool {
    p.len() >= 4 && (!icmp_has_data(p[0], p[1]) || p.len() >= 36)
}

/// Whether a TCP header, with the options its data offset announces, can
/// be read from `p`.
pub open spec fn tcp_ok(p: Seq<u8>) -> bool {
    p.len() >= 20 && (p[12] / 16 <= 5 || (p[12] / 16 - 5) * 4 <= p.len() - 20)
}

/// The question names of a DNS message, or `None` where `p` is not one, as
/// `dns-parser` reads them.
pub uninterp spec fn dns_names(p: Seq<u8>) -> Option<Seq<Seq<char>>>;

/// The message that decoding gives for a failure at a layer.
pub open spec fn failure_message(f: Failure) -> Seq<char> {
    match f {
        Failure::Parsing => Seq::empty(),
        Failure::Unknown => "Unknown packet"@,
        Failure::Arp => "[err]: Couldn't parse arp packet"@,
        Failure::Ipv6 => "[err]: Couldn't parse IPv6 packet"@,
        Failure::Ipv4 => "[err]: Couldn't parse IPv4 packet"@,
        Failure::Icmp => "[err]: Couldn't parse ICMP packet"@,
        Failure::Tcp => "[err]: Couldn't parse TCP packet"@,
        Failure::Udp => "[err]: Couldn't parse UDP packet"@,
        Failure::Ethernet => "[err]: Couldn't parse ethernet packet"@,
    }
}

/// `r` is the outcome that `m` describes: the same packet, or an error for
/// the same layer with that layer's message.
pub open spec fn decoded_as(r: Result<Packet, Error>, m: Result<PacketView, Failure>) -> bool {
    match r {
        Ok(p) => m == Ok::<PacketView, Failure>(p@),
        Err(e) => m == Err::<PacketView, Failure>(e.failure()) && e.message() == failure_message(e.failure()),
    }
}

/// The views of an optional list of strings.
pub open spec fn opt_views(v: Option<Vec<String>>) -> Option<Seq<Seq<char>>> {
    match v {
        Some(v) => Some(views(v@)),
        None => None,
    }
}

/// The packet of a UDP datagram given its header fields and the question
/// names of its payload, if the payload is a DNS message.
pub open spec fn udp_view(
    interface: Seq<char>,
    src: IpAddress,
    dst: IpAddress,
    sport: u16,
    dport: u16,
    length: u16,
    names: Option<Seq<Seq<char>>>,
    ts: Seq<char>,
) -> PacketView {
    PacketView {
        interface,
        src_addr: src,
        dest_addr: dst,
        res_name: match names {
            Some(n) => joined(n, ", "@),
            None => "none"@,
        },
        src_port: Some(sport),
        dest_port: Some(dport),
        length,
        transport: "UDP"@,
        application: match names {
            Some(_) => udp_label(dport),
            None => unknown_label(),
        },
        timestamp: ts,
    }
}

/// The packet that a UDP datagram `p` gives.
pub open spec fn udp_model(interface: Seq<char>, src: IpAddress, dst: IpAddress, p: Seq<u8>, ts: Seq<char>) -> Result<
    PacketView,
    Failure,
> {
    if p.len() >= 8 {
        Ok(udp_view(interface, src, dst, be16(p, 0), be16(p, 2), be16(p, 4), dns_names(p.subrange(8, p.len() as int)), ts))
    } else {
        Err(Failure::Udp)
    }
}

/// The packet that a TCP segment `p` gives.
pub open spec fn tcp_model(interface: Seq<char>, src: IpAddress, dst: IpAddress, p: Seq<u8>, ts: Seq<char>) -> Result<
    PacketView,
    Failure,
> {
    if tcp_ok(p) {
        Ok(
            PacketView {
                interface,
                src_addr: src,
                dest_addr: dst,
                res_name: "none"@,
                src_port: Some(be16(p, 0)),
                dest_port: Some(be16(p, 2)),
                length: p.len() as u16,
                transport: "TCP"@,
                application: tcp_label(be16(p, 2)),
                timestamp: ts,
            },
        )
    } else {
        Err(Failure::Tcp)
    }
}

/// The transport label of an ICMP message kind.
pub open spec fn icmp_label(k: IcmpKind) -> Seq<char> {
    match k {
        IcmpKind::EchoReply => "ICMP echo reply"@,
        IcmpKind::EchoRequest => "ICMP echo request"@,
        IcmpKind::Other => "ICMP packet"@,
    }
}

/// The packet that an ICMP message `p` gives; its length is the message's byte count.
pub open spec fn icmp_model(interface: Seq<char>, src: IpAddress, dst: IpAddress, p: Seq<u8>, ts: Seq<char>) -> Result<
    PacketView,
    Failure,
> {
    if icmp_ok(p) {
        Ok(
            PacketView {
                interface,
                src_addr: src,
                dest_addr: dst,
                res_name: "none"@,
                src_port: None,
                dest_port: None,
                length: p.len() as u16,
                transport: icmp_label(icmp_kind_of(p[0])),
                application: unknown_label(),
                timestamp: ts,
            },
        )
    } else {
        Err(Failure::Icmp)
    }
}

/// The packet that an IP payload `p` of the given protocol gives.
pub open spec fn transport_model(
    interface: Seq<char>,
    src: IpAddress,
    dst: IpAddress,
    proto: IpProto,
    p: Seq<u8>,
    ts: Seq<char>,
) -> Result<PacketView, Failure> {
    match proto {
        IpProto::Udp => udp_model(interface, src, dst, p, ts),
        IpProto::Tcp => tcp_model(interface, src, dst, p, ts),
        IpProto::Icmp => icmp_model(interface, src, dst, p, ts),
        IpProto::Other => Err(Failure::Unknown),
    }
}

/// The packet that an IPv4 datagram `p` gives.
pub open spec fn ipv4_model(interface: Seq<char>, p: Seq<u8>, ts: Seq<char>) -> Result<PacketView, Failure> {
    if p.len() >= 20 {
        transport_model(interface, ipv4_at(p, 12), ipv4_at(p, 16), ip_proto(p[9]), p.subrange(20, p.len() as int), ts)
    } else {
        Err(Failure::Ipv4)
    }
}

/// The packet that an IPv6 datagram `p` gives.
pub open spec fn ipv6_model(interface: Seq<char>, p: Seq<u8>, ts: Seq<char>) -> Result<PacketView, Failure> {
    if p.len() >= 40 {
        transport_model(interface, ipv6_at(p, 8), ipv6_at(p, 24), ip_proto(p[6]), p.subrange(40, p.len() as int), ts)
    } else {
        Err(Failure::Ipv6)
    }
}

/// The packet that an ARP body `p` gives; its length is the body's byte count.
pub open spec fn arp_model(interface: Seq<char>, p: Seq<u8>, ts: Seq<char>) -> Result<PacketView, Failure> {
    if p.len() >= 28 {
        Ok(
            PacketView {
                interface,
                src_addr: ipv4_at(p, 14),
                dest_addr: ipv4_at(p, 24),
                res_name: "none"@,
                src_port: None,
                dest_port: None,
                length: p.len() as u16,
                transport: "ARP"@,
                application: unknown_label(),
                timestamp: ts,
            },
        )
    } else {
        Err(Failure::Arp)
    }
}

/// The packet that an Ethernet frame `f` captured on `interface` at time
/// `ts` gives, or the layer at which decoding stops.
pub open spec fn frame_model(interface: Seq<char>, f: Seq<u8>, ts: Seq<char>) -> Result<PacketView, Failure> {
    if f.len() >= 14 {
        let payload = f.subrange(14, f.len() as int);
        match ether_kind(be16(f, 12)) {
            EtherKind::IPv4 => ipv4_model(interface, payload, ts),
            EtherKind::IPv6 => ipv6_model(interface, payload, ts),
            EtherKind::ARP => arp_model(interface, payload, ts),
            EtherKind::Other => Err(Failure::Unknown),
        }
    } else {
        Err(Failure::Ethernet)
    }
}

// ---------------------------------------------------------------------
// Calls into pktparse and dns-parser.

/// Relies on `pktparse::ethernet::parse_ethernet_frame`: two MAC addresses
/// and a big-endian EtherType, fourteen bytes, then the payload.
#[verifier::external_body]
fn ethernet_header(frame: &[u8]) -> (r: Option<(EtherKind, &[u8])>)
    ensures
        r is Some <==> frame@.len() >= 14,
        match r {
            Some((kind, payload)) => kind == ether_kind(be16(frame@, 12)) && payload@ == frame@.subrange(
                14,
                frame@.len() as int,
            ),
            None => true,
        },
{
    let (payload, header) = pktparse::ethernet::parse_ethernet_frame(frame).ok()?;
    let kind = match header.ethertype {
        EtherType::IPv4 => EtherKind::IPv4,
        EtherType::IPv6 => EtherKind::IPv6,
        EtherType::ARP => EtherKind::ARP,
        _ => EtherKind::Other,
    };
    Some((kind, payload))
}

/// Relies on `pktparse::ipv4::parse_ipv4_header`: a fixed twenty-byte
/// header with the protocol at byte 9 and the addresses at bytes 12 and 16,
/// then the payload.
#[verifier::external_body]
fn ipv4_header(packet: &[u8]) -> (r: Option<([u8; 4], [u8; 4], IpProto, &[u8])>)
    ensures
        r is Some <==> packet@.len() >= 20,
        match r {
            Some((src, dst, proto, payload)) => src@ == packet@.subrange(12, 16) && dst@ == packet@.subrange(16, 20)
                && proto == ip_proto(packet@[9]) && payload@ == packet@.subrange(20, packet@.len() as int),
            None => true,
        },
{
    let (payload, h) = pktparse::ipv4::parse_ipv4_header(packet).ok()?;
    let proto = match h.protocol {
        IPProtocol::UDP => IpProto::Udp,
        IPProtocol::TCP => IpProto::Tcp,
        IPProtocol::ICMP => IpProto::Icmp,
        _ => IpProto::Other,
    };
    Some((h.source_addr.octets(), h.dest_addr.octets(), proto, payload))
}

/// Relies on `pktparse::ipv6::parse_ipv6_header`: a forty-byte header with
/// the next header at byte 6 and the addresses at bytes 8 and 24, then the
/// payload.
#[verifier::external_body]
fn ipv6_header(packet: &[u8]) -> (r: Option<([u8; 16], [u8; 16], IpProto, &[u8])>)
    ensures
        r is Some <==> packet@.len() >= 40,
        match r {
            Some((src, dst, proto, payload)) => src@ == packet@.subrange(8, 24) && dst@ == packet@.subrange(24, 40)
                && proto == ip_proto(packet@[6]) && payload@ == packet@.subrange(40, packet@.len() as int),
            None => true,
        },
{
    let (payload, h) = pktparse::ipv6::parse_ipv6_header(packet).ok()?;
    let proto = match h.next_header {
        IPProtocol::UDP => IpProto::Udp,
        IPProtocol::TCP => IpProto::Tcp,
        IPProtocol::ICMP => IpProto::Icmp,
        _ => IpProto::Other,
    };
    Some((h.source_addr.octets(), h.dest_addr.octets(), proto, payload))
}

/// Relies on `pktparse::arp::parse_arp_pkt`: a twenty-eight-byte ARP body
/// with the sender's IPv4 address at byte 14 and the target's at byte 24.
#[verifier::external_body]
fn arp_addresses(packet: &[u8]) -> (r: Option<([u8; 4], [u8; 4])>)
    ensures
        r is Some <==> packet@.len() >= 28,
        match r {
            Some((src, dst)) => src@ == packet@.subrange(14, 18) && dst@ == packet@.subrange(24, 28),
            None => true,
        },
{
    let (_, h) = pktparse::arp::parse_arp_pkt(packet).ok()?;
    Some((h.src_addr.octets(), h.dest_addr.octets()))
}

/// Relies on `pktparse::udp::parse_udp_header`: source port, destination
/// port and length, big-endian, in the first six of eight bytes, then the
/// payload.
#[verifier::external_body]
fn udp_header(packet: &[u8]) -> (r: Option<(u16, u16, u16, &[u8])>)
    ensures
        r is Some <==> packet@.len() >= 8,
        match r {
            Some((sport, dport, len, payload)) => sport == be16(packet@, 0) && dport == be16(packet@, 2) && len
                == be16(packet@, 4) && payload@ == packet@.subrange(8, packet@.len() as int),
            None => true,
        },
{
    let (payload, h) = pktparse::udp::parse_udp_header(packet).ok()?;
    Some((h.source_port, h.dest_port, h.length, payload))
}

/// Relies on `pktparse::tcp::parse_tcp_header`: the ports, big-endian, in
/// the first four bytes of a twenty-byte header whose announced options
/// must be present.
#[verifier::external_body]
fn tcp_ports(packet: &[u8]) -> (r: Option<(u16, u16)>)
    ensures
        r is Some <==> tcp_ok(packet@),
        match r {
            Some((sport, dport)) => sport == be16(packet@, 0) && dport == be16(packet@, 2),
            None => true,
        },
{
    let (_, h) = pktparse::tcp::parse_tcp_header(packet).ok()?;
    Some((h.source_port, h.dest_port))
}

/// Relies on `pktparse::icmp::parse_icmp_header`: type and code in the
/// first two bytes, and the data that error messages carry.
#[verifier::external_body]
fn icmp_header(packet: &[u8]) -> (r: Option<IcmpKind>)
    ensures
        r is Some <==> icmp_ok(packet@),
        r is Some ==> r->0 == icmp_kind_of(packet@[0]),
{
    let (_, h) = pktparse::icmp::parse_icmp_header(packet).ok()?;
    Some(match h.code {
        IcmpCode::EchoReply => IcmpKind::EchoReply,
        IcmpCode::EchoRequest => IcmpKind::EchoRequest,
        _ => IcmpKind::Other,
    })
}

/// Relies on `dns_parser::Packet::parse`: the names of the questions of a
/// DNS message, which depend on its bytes alone.
#[verifier::external_body]
fn dns_questions(payload: &[u8]) -> (r: Option<Vec<String>>)
    ensures
        match r {
            Some(v) => dns_names(payload@) == Some(views(v@)),
            None => dns_names(payload@) is None,
        },
{
    let message = dns_parser::Packet::parse(payload).ok()?;
    Some(message.questions.iter().map(|q| q.qname.to_string()).collect())
}

/// Relies on `chrono::Local::now`: the local time as text. It depends on the
/// clock, so nothing is stated of it.
#[verifier::external_body]
pub(crate) fn now_timestamp() -> (r: String) {
    chrono::offset::Local::now().to_string()
}

// ---------------------------------------------------------------------
// Decoding, layer by layer.

/// The literal "unknown" is the label of unrecognised applications.
proof fn lemma_unknown_text()
    ensures
        "unknown"@ == unknown_label(),
{
    reveal_strlit("unknown");
    assert("unknown"@ =~= unknown_label());
}

/// The error for a failure at a layer, with that layer's message.
fn layer_error(f: Failure) -> (r: Error)
    ensures
        r.failure() == f,
        r.message() == failure_message(f),
{
    proof {
        reveal_strlit("Unknown packet");
        reveal_strlit("[err]: Couldn't parse arp packet");
        reveal_strlit("[err]: Couldn't parse IPv6 packet");
        reveal_strlit("[err]: Couldn't parse IPv4 packet");
        reveal_strlit("[err]: Couldn't parse ICMP packet");
        reveal_strlit("[err]: Couldn't parse TCP packet");
        reveal_strlit("[err]: Couldn't parse UDP packet");
        reveal_strlit("[err]: Couldn't parse ethernet packet");
    }
    match f {
        Failure::Parsing => Error::ParsingError(String::new()),
        Failure::Unknown => Error::UnknownPacket("Unknown packet".to_string()),
        Failure::Arp => Error::ARPParsingError("[err]: Couldn't parse arp packet".to_string()),
        Failure::Ipv6 => Error::IPv6ParsingError("[err]: Couldn't parse IPv6 packet".to_string()),
        Failure::Ipv4 => Error::IPv4ParsingError("[err]: Couldn't parse IPv4 packet".to_string()),
        Failure::Icmp => Error::ICMPParsingError("[err]: Couldn't parse ICMP packet".to_string()),
        Failure::Tcp => Error::TCPParsingError("[err]: Couldn't parse TCP packet".to_string()),
        Failure::Udp => Error::UDPParsingError("[err]: Couldn't parse UDP packet".to_string()),
        Failure::Ethernet => Error::EthernetParsingError("[err]: Couldn't parse ethernet packet".to_string()),
    }
}

/// The packet of a UDP datagram, given its header fields and the question
/// names of its payload where the payload is a DNS message.
pub fn udp_packet(
    interface_name: &str,
    source: IpAddress,
    destination: IpAddress,
    source_port: u16,
    dest_port: u16,
    length: u16,
    names: Option<Vec<String>>,
    timestamp: &str,
) -> (r: Packet)
    ensures
        r@ == udp_view(
            interface_name@,
            source,
            destination,
            source_port,
            dest_port,
            length,
            opt_views(names),
            timestamp@,
        ),
{
    proof {
        reveal_strlit(", ");
        reveal_strlit("none");
        reveal_strlit("UDP");
        reveal_strlit("unknown");
    }
    proof {
        lemma_unknown_text();
    }
    let (res_name, application) = match names {
        Some(n) => (join(&n, ", "), udp_l7(dest_port)),
        None => ("none".to_string(), "unknown".to_string()),
    };
    Packet::new(
        interface_name.to_string(),
        source,
        destination,
        res_name,
        Some(source_port),
        Some(dest_port),
        length,
        "UDP".to_string(),
        application,
        timestamp.to_string(),
    )
}

/// Decodes a UDP datagram.
fn handle_udp_packet(
    interface_name: &str,
    source: IpAddress,
    destination: IpAddress,
    packet: &[u8],
    timestamp: &str,
) -> (r: Result<Packet, Error>)
    ensures
        decoded_as(r, udp_model(interface_name@, source, destination, packet@, timestamp@)),
{
    match udp_header(packet) {
        Some((source_port, dest_port, length, payload)) => {
            let names = dns_questions(payload);
            Ok(udp_packet(interface_name, source, destination, source_port, dest_port, length, names, timestamp))
        },
        None => Err(layer_error(Failure::Udp)),
    }
}

/// Decodes an ICMP message.
fn handle_icmp_packet(
    interface_name: &str,
    source: IpAddress,
    destination: IpAddress,
    packet: &[u8],
    timestamp: &str,
) -> (r: Result<Packet, Error>)
    ensures
        decoded_as(r, icmp_model(interface_name@, source, destination, packet@, timestamp@)),
{
    proof {
        reveal_strlit("none");
        reveal_strlit("unknown");
        reveal_strlit("ICMP echo reply");
        reveal_strlit("ICMP echo request");
        reveal_strlit("ICMP packet");
    }
    match icmp_header(packet) {
        Some(kind) => {
            let transport = match kind {
                IcmpKind::EchoReply => "ICMP echo reply",
                IcmpKind::EchoRequest => "ICMP echo request",
                IcmpKind::Other => "ICMP packet",
            };
            proof {
                lemma_unknown_text();
                assert(transport@ == icmp_label(kind));
            }
            Ok(
                Packet::new(
                    interface_name.to_string(),
                    source,
                    destination,
                    "none".to_string(),
                    None,
                    None,
                    packet.len() as u16,
                    transport.to_string(),
                    "unknown".to_string(),
                    timestamp.to_string(),
                ),
            )
        },
        None => Err(layer_error(Failure::Icmp)),
    }
}

/// Decodes a TCP segment; its length is the segment's byte count.
fn handle_tcp_packet(
    interface_name: &str,
    source: IpAddress,
    destination: IpAddress,
    packet: &[u8],
    timestamp: &str,
) -> (r: Result<Packet, Error>)
    ensures
        decoded_as(r, tcp_model(interface_name@, source, destination, packet@, timestamp@)),
{
    proof {
        reveal_strlit("none");
        reveal_strlit("TCP");
    }
    match tcp_ports(packet) {
        Some((source_port, dest_port)) => {
            let app_layer = tcp_l7(dest_port);
            Ok(
                Packet::new(
                    interface_name.to_string(),
                    source,
                    destination,
                    "none".to_string(),
                    Some(source_port),
                    Some(dest_port),
                    packet.len() as u16,
                    "TCP".to_string(),
                    app_layer,
                    timestamp.to_string(),
                ),
            )
        },
        None => Err(layer_error(Failure::Tcp)),
    }
}

/// Decodes an IP payload according to its transport protocol.
pub fn handle_transport_protocol(
    interface_name: &str,
    source: IpAddress,
    destination: IpAddress,
    protocol: IpProto,
    packet: &[u8],
    timestamp: &str,
) -> (r: Result<Packet, Error>)
    ensures
        decoded_as(r, transport_model(interface_name@, source, destination, protocol, packet@, timestamp@)),
{
    match protocol {
        IpProto::Udp => handle_udp_packet(interface_name, source, destination, packet, timestamp),
        IpProto::Tcp => handle_tcp_packet(interface_name, source, destination, packet, timestamp),
        IpProto::Icmp => handle_icmp_packet(interface_name, source, destination, packet, timestamp),
        IpProto::Other => Err(layer_error(Failure::Unknown)),
    }
}

/// Decodes an IPv4 datagram.
fn handle_ipv4_packet(interface_name: &str, packet: &[u8], timestamp: &str) -> (r: Result<Packet, Error>)
    ensures
        decoded_as(r, ipv4_model(interface_name@, packet@, timestamp@)),
{
    match ipv4_header(packet) {
        Some((src, dst, proto, payload)) => {
            let source = ipv4_from_octets(src);
            let destination = ipv4_from_octets(dst);
            assert(source == ipv4_at(packet@, 12));
            assert(destination == ipv4_at(packet@, 16));
            handle_transport_protocol(interface_name, source, destination, proto, payload, timestamp)
        },
        None => Err(layer_error(Failure::Ipv4)),
    }
}

/// Decodes an IPv6 datagram.
fn handle_ipv6_packet(interface_name: &str, packet: &[u8], timestamp: &str) -> (r: Result<Packet, Error>)
    ensures
        decoded_as(r, ipv6_model(interface_name@, packet@, timestamp@)),
{
    match ipv6_header(packet) {
        Some((src, dst, proto, payload)) => {
            let source = ipv6_from_octets(src);
            let destination = ipv6_from_octets(dst);
            assert(source == ipv6_at(packet@, 8));
            assert(destination == ipv6_at(packet@, 24));
            handle_transport_protocol(interface_name, source, destination, proto, payload, timestamp)
        },
        None => Err(layer_error(Failure::Ipv6)),
    }
}

/// Decodes an ARP body.
fn handle_arp_packet(interface_name: &str, packet: &[u8], timestamp: &str) -> (r: Result<Packet, Error>)
    ensures
        decoded_as(r, arp_model(interface_name@, packet@, timestamp@)),
{
    proof {
        reveal_strlit("none");
        reveal_strlit("ARP");
        reveal_strlit("unknown");
    }
    match arp_addresses(packet) {
        Some((src, dst)) => {
            let source = ipv4_from_octets(src);
            let destination = ipv4_from_octets(dst);
            assert(source == ipv4_at(packet@, 14));
            assert(destination == ipv4_at(packet@, 24));
            proof {
                lemma_unknown_text();
            }
            Ok(
                Packet::new(
                    interface_name.to_string(),
                    source,
                    destination,
                    "none".to_string(),
                    None,
                    None,
                    packet.len() as u16,
                    "ARP".to_string(),
                    "unknown".to_string(),
                    timestamp.to_string(),
                ),
            )
        },
        None => Err(layer_error(Failure::Arp)),
    }
}

/// Decodes a frame captured on `interface_name` at time `timestamp`.
pub fn decode_frame(interface_name: &str, ethernet: &[u8], timestamp: &str) -> (r: Result<Packet, Error>)
    ensures
        decoded_as(r, frame_model(interface_name@, ethernet@, timestamp@)),
{
    match ethernet_header(ethernet) {
        Some((kind, payload)) => match kind {
            EtherKind::IPv4 => handle_ipv4_packet(interface_name, payload, timestamp),
            EtherKind::IPv6 => handle_ipv6_packet(interface_name, payload, timestamp),
            EtherKind::ARP => handle_arp_packet(interface_name, payload, timestamp),
            EtherKind::Other => Err(layer_error(Failure::Unknown)),
        },
        None => Err(layer_error(Failure::Ethernet)),
    }
}

/// Decodes a frame captured on `interface_name`, stamped with the local
/// time at which it is decoded.
pub fn handle_ethernet_frame(interface_name: &str, ethernet: &[u8]) -> (r: Result<Packet, Error>)
    ensures
        exists|ts: Seq<char>| decoded_as(r, frame_model(interface_name@, ethernet@, ts)),
{
    let timestamp = now_timestamp();
    decode_frame(interface_name, ethernet, timestamp.as_str())
}

} // verus!
