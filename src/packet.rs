//! A decoded packet and the ways decoding can fail.
use vstd::prelude::*;

use crate::net::IpAddress;

verus! {

/// One successfully decoded frame.
#[derive(Debug)]
pub struct Packet {
    pub interface: String,
    pub src_addr: IpAddress,
    pub dest_addr: IpAddress,
    pub res_name: String,
    pub src_port: Option<u16>,
    pub dest_port: Option<u16>,
    pub length: u16,
    pub transport: String,
    pub application: String,
    pub timestamp: String,
}

/// Why a frame could not be decoded, by the layer that failed.
#[derive(Debug)]
pub enum Error {
    ParsingError(String),
    UnknownPacket(String),
    ARPParsingError(String),
    IPv6ParsingError(String),
    IPv4ParsingError(String),
    ICMPParsingError(String),
    TCPParsingError(String),
    UDPParsingError(String),
    EthernetParsingError(String),
}

/// A decoded packet as plain values.
pub struct PacketView {
    pub interface: Seq<char>,
    pub src_addr: IpAddress,
    pub dest_addr: IpAddress,
    pub res_name: Seq<char>,
    pub src_port: Option<u16>,
    pub dest_port: Option<u16>,
    pub length: u16,
    pub transport: Seq<char>,
    pub application: Seq<char>,
    pub timestamp: Seq<char>,
}

impl View for Packet {
    type V = PacketView;

    open spec fn view(&self) -> PacketView {
        PacketView {
            interface: self.interface@,
            src_addr: self.src_addr,
            dest_addr: self.dest_addr,
            res_name: self.res_name@,
            src_port: self.src_port,
            dest_port: self.dest_port,
            length: self.length,
            transport: self.transport@,
            application: self.application@,
            timestamp: self.timestamp@,
        }
    }
}

/// The layer at which decoding stopped.
pub enum Failure {
    Parsing,
    Unknown,
    Arp,
    Ipv6,
    Ipv4,
    Icmp,
    Tcp,
    Udp,
    Ethernet,
}

impl Error {
    /// The layer this error reports.
    pub open spec fn failure(&self) -> Failure {
        match self {
            Error::ParsingError(_) => Failure::Parsing,
            Error::UnknownPacket(_) => Failure::Unknown,
            Error::ARPParsingError(_) => Failure::Arp,
            Error::IPv6ParsingError(_) => Failure::Ipv6,
            Error::IPv4ParsingError(_) => Failure::Ipv4,
            Error::ICMPParsingError(_) => Failure::Icmp,
            Error::TCPParsingError(_) => Failure::Tcp,
            Error::UDPParsingError(_) => Failure::Udp,
            Error::EthernetParsingError(_) => Failure::Ethernet,
        }
    }

    /// The error's message.
    pub open spec fn message(&self) -> Seq<char> {
        match self {
            Error::ParsingError(m) => m@,
            Error::UnknownPacket(m) => m@,
            Error::ARPParsingError(m) => m@,
            Error::IPv6ParsingError(m) => m@,
            Error::IPv4ParsingError(m) => m@,
            Error::ICMPParsingError(m) => m@,
            Error::TCPParsingError(m) => m@,
            Error::UDPParsingError(m) => m@,
            Error::EthernetParsingError(m) => m@,
        }
    }

    /// The error's message, for display.
    pub fn to_string(&self) -> (r: String)
        ensures
            r@ == self.message(),
    {
        match self {
            Error::ParsingError(m) => m.clone(),
            Error::UnknownPacket(m) => m.clone(),
            Error::ARPParsingError(m) => m.clone(),
            Error::IPv6ParsingError(m) => m.clone(),
            Error::IPv4ParsingError(m) => m.clone(),
            Error::ICMPParsingError(m) => m.clone(),
            Error::TCPParsingError(m) => m.clone(),
            Error::UDPParsingError(m) => m.clone(),
            Error::EthernetParsingError(m) => m.clone(),
        }
    }
}

impl Packet {
    /// Builds a packet from its fields.
    pub fn new(
        interface: String,
        src_addr: IpAddress,
        dest_addr: IpAddress,
        res_name: String,
        src_port: Option<u16>,
        dest_port: Option<u16>,
        length: u16,
        transport: String,
        application: String,
        timestamp: String,
    ) -> (r: Packet)
        ensures
            r == (Packet {
                interface,
                src_addr,
                dest_addr,
                res_name,
                src_port,
                dest_port,
                length,
                transport,
                application,
                timestamp,
            }),
    {
        Packet {
            interface,
            src_addr,
            dest_addr,
            res_name,
            src_port,
            dest_port,
            length,
            transport,
            application,
            timestamp,
        }
    }

    /// A field-by-field copy of this packet.
    pub fn duplicate(&self) -> (r: Packet)
        ensures
            r == *self,
    {
        Packet {
            interface: self.interface.clone(),
            src_addr: self.src_addr,
            dest_addr: self.dest_addr,
            res_name: self.res_name.clone(),
            src_port: self.src_port,
            dest_port: self.dest_port,
            length: self.length,
            transport: self.transport.clone(),
            application: self.application.clone(),
            timestamp: self.timestamp.clone(),
        }
    }
}

} // verus!
