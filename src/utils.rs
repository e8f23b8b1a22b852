//! Application-layer labels guessed from well-known ports.
use vstd::prelude::*;

use crate::num::{hex, push_hex};
use crate::text::{join, joined, views};

verus! {

/// Label of the application protocol behind a TCP destination port.
pub open spec fn tcp_label(port: u16) -> Seq<char> {
    if port == 80 {
        seq!['h', 't', 't', 'p']
    } else if port == 443 {
        seq!['h', 't', 't', 'p', 's']
    } else if port == 21 {
        seq!['s', 's', 'h']
    } else if port == 23 {
        seq!['t', 'e', 'l', 'n', 'e', 't']
    } else if port == 25 {
        seq!['s', 'm', 't', 'p']
    } else if port == 110 {
        seq!['P', 'O', 'P', '3']
    } else if port == 143 {
        seq!['I', 'M', 'A', 'P']
    } else if port == 194 {
        seq!['I', 'R', 'C']
    } else {
        unknown_label()
    }
}

/// Label of the application protocol behind a UDP destination port.
pub open spec fn udp_label(port: u16) -> Seq<char> {
    if port == 53 {
        seq!['D', 'N', 'S']
    } else if 67 <= port <= 68 {
        seq!['D', 'H', 'C', 'P']
    } else if port == 69 {
        seq!['T', 'F', 'T', 'P']
    } else if 161 <= port <= 162 {
        seq!['S', 'N', 'M', 'P']
    } else {
        unknown_label()
    }
}

/// The label used when no application protocol is recognised.
pub open spec fn unknown_label() -> Seq<char> {
    seq!['u', 'n', 'k', 'n', 'o', 'w', 'n']
}

/// Application label for a TCP destination port.
pub fn tcp_l7(port: u16) -> (r: String)
    ensures
        r@ == tcp_label(port),
{
    proof {
        reveal_strlit("http");
        reveal_strlit("https");
        reveal_strlit("ssh");
        reveal_strlit("telnet");
        reveal_strlit("smtp");
        reveal_strlit("POP3");
        reveal_strlit("IMAP");
        reveal_strlit("IRC");
        reveal_strlit("unknown");
    }
    let label = match port {
        80 => "http",
        443 => "https",
        21 => "ssh",
        23 => "telnet",
        25 => "smtp",
        110 => "POP3",
        143 => "IMAP",
        194 => "IRC",
        _ => "unknown",
    };
    label.to_string()
}

/// Application label for a UDP destination port.
pub fn udp_l7(port: u16) -> (r: String)
    ensures
        r@ == udp_label(port),
{
    proof {
        reveal_strlit("DNS");
        reveal_strlit("DHCP");
        reveal_strlit("TFTP");
        reveal_strlit("SNMP");
        reveal_strlit("unknown");
    }
    let label = match port {
        53 => "DNS",
        67..=68 => "DHCP",
        69 => "TFTP",
        161..=162 => "SNMP",
        _ => "unknown",
    };
    label.to_string()
}

/// A MAC address as text: its six bytes in lowercase hexadecimal without
/// leading zeros, separated by colons.
pub open spec fn mac_text(addr: Seq<u8>) -> Seq<char> {
    joined(
        seq![hex(addr[0] as nat), hex(addr[1] as nat), hex(addr[2] as nat), hex(addr[3] as nat), hex(addr[4] as nat), hex(addr[5] as nat)],
        seq![':'],
    )
}

/// A MAC address as text.
pub fn mac_to_str(addr: [u8; 6]) -> (r: String)
    ensures
        r@ == mac_text(addr@),
{
    let mut parts: Vec<String> = Vec::new();
    let mut i: usize = 0;
    while i < 6
        invariant
            i <= 6,
            views(parts@) == Seq::new(i as nat, |j: int| hex(addr@[j] as nat)),
        decreases 6 - i,
    {
        let mut s = String::new();
        push_hex(&mut s, addr[i] as u64);
        assert(s@ =~= hex(addr@[i as int] as nat));
        let ghost before = parts@;
        let ghost sv = s@;
        parts.push(s);
        assert(views(parts@) =~= views(before).push(sv));
        assert(views(parts@) =~= Seq::new((i + 1) as nat, |j: int| hex(addr@[j] as nat)));
        i = i + 1;
    }
    proof {
        reveal_strlit(":");
    }
    assert(views(parts@) =~= seq![hex(addr@[0] as nat), hex(addr@[1] as nat), hex(addr@[2] as nat), hex(addr@[3] as nat), hex(addr@[4] as nat), hex(addr@[5] as nat)]);
    assert(":"@ =~= seq![':']);
    join(&parts, ":")
}

} // verus!
