//! Session settings and the capture-filter expressions built from what the
//! user enters: the checks on each entry and the text of the filter.
use vstd::prelude::*;
use vstd::string::*;

use crate::num::{i32_value, i64_value, parse_i32, parse_i64};
use crate::text::{join, joined, split_on, split_text, text_eq, trim, trimmed, views};

verus! {

/// The command-line options.
pub struct Args {
    /// Report period, in seconds.
    pub timeout: i64,
    /// Base name of the report files.
    pub filename: String,
    /// Name of the interface to capture on.
    pub interface: String,
    /// Whether to put the interface in promiscuous mode.
    pub promisc: bool,
    /// Whether to list the interfaces instead of capturing.
    pub list: bool,
    /// Whether to write reports as CSV rather than text.
    pub csv: bool,
}

/// The capture-filter terms chosen for each field, each already joined
/// with `or` across the values entered for it.
#[derive(Debug)]
pub struct Filter {
    pub ip_source: String,
    pub ip_dest: String,
    pub port_source: String,
    pub port_dest: String,
    pub transport_protocol: String,
}

/// What the menu settles before capture starts.
#[derive(Debug)]
pub struct Settings {
    pub filters: String,
    pub csv: Option<bool>,
    pub timeout: Option<i64>,
    pub filename: Option<String>,
}

/// The five terms of a filter, in order.
pub open spec fn filter_terms(f: Filter) -> Seq<Seq<char>> {
    seq![f.ip_source@, f.ip_dest@, f.port_source@, f.port_dest@, f.transport_protocol@]
}

/// The non-empty texts of `s`, in order.
pub open spec fn nonempty(s: Seq<Seq<char>>) -> Seq<Seq<char>>
    decreases s.len(),
{
    if s.len() == 0 {
        Seq::empty()
    } else if s.last().len() > 0 {
        nonempty(s.drop_last()).push(s.last())
    } else {
        nonempty(s.drop_last())
    }
}

impl Filter {
    /// A filter with no term.
    pub fn new() -> (r: Filter)
        ensures
            filter_terms(r) == seq![Seq::<char>::empty(), Seq::<char>::empty(), Seq::<char>::empty(), Seq::<char>::empty(), Seq::<char>::empty()],
    {
        Filter {
            ip_source: String::new(),
            ip_dest: String::new(),
            port_source: String::new(),
            port_dest: String::new(),
            transport_protocol: String::new(),
        }
    }

    /// A filter with the given terms.
    pub fn with_args(
        ip_source: String,
        ip_dest: String,
        port_source: String,
        port_dest: String,
        transport_protocol: String,
    ) -> (r: Filter)
        ensures
            r == (Filter { ip_source, ip_dest, port_source, port_dest, transport_protocol }),
    {
        Filter { ip_source, ip_dest, port_source, port_dest, transport_protocol }
    }

    /// The five terms, in order.
    pub fn as_array(&self) -> (r: [String; 5])
        ensures
            views(r@) == filter_terms(*self),
    {
        let r = [
            self.ip_source.clone(),
            self.ip_dest.clone(),
            self.port_source.clone(),
            self.port_dest.clone(),
            self.transport_protocol.clone(),
        ];
        assert(views(r@) =~= filter_terms(*self));
        r
    }
}

impl Settings {
    /// Settings with no filter and nothing chosen.
    pub fn new() -> (r: Settings)
        ensures
            r.filters@ == Seq::<char>::empty(),
            r.csv is None,
            r.timeout is None,
            r.filename is None,
    {
        Settings { filters: String::new(), csv: None, timeout: None, filename: None }
    }
}

/// The capture-filter expression of a filter: its non-empty terms joined
/// with `or`.
pub fn parse_filter(filter: Filter) -> (r: String)
    ensures
        r@ == joined(nonempty(filter_terms(filter)), " or "@),
{
    let terms = filter.as_array();
    let mut kept: Vec<String> = Vec::new();
    let mut i: usize = 0;
    while i < 5
        invariant
            i <= 5,
            views(terms@) == filter_terms(filter),
            views(kept@) == nonempty(views(terms@).subrange(0, i as int)),
        decreases 5 - i,
    {
        let ghost prefix = views(terms@).subrange(0, i + 1);
        assert(prefix.drop_last() =~= views(terms@).subrange(0, i as int));
        assert(prefix.last() == terms@[i as int]@);
        let t = terms[i].clone();
        if t.as_str().unicode_len() > 0 {
            let ghost before = kept@;
            kept.push(t);
            assert(views(kept@) =~= views(before).push(t@));
        }
        i = i + 1;
    }
    assert(views(terms@).subrange(0, 5) =~= views(terms@));
    join(&kept, " or ")
}

/// The transport protocols that a filter may name, each as a line read
/// from the console with its newline.
pub open spec fn protocol_line(s: Seq<char>) -> bool {
    s == "icmp\n"@ || s == "icmp6\n"@ || s == "igmp\n"@ || s == "igrp\n"@ || s == "pim\n"@ || s == "ah\n"@
        || s == "esp\n"@ || s == "vrrp\n"@ || s == "udp\n"@ || s == "tcp\n"@
}

/// Whether a console line names a transport protocol a filter accepts.
pub fn check_transport_protocol(string: &String) -> (r: bool)
    ensures
        r == protocol_line(string@),
{
    let s = string.as_str();
    text_eq(s, "icmp\n") || text_eq(s, "icmp6\n") || text_eq(s, "igmp\n") || text_eq(s, "igrp\n") || text_eq(
        s,
        "pim\n",
    ) || text_eq(s, "ah\n") || text_eq(s, "esp\n") || text_eq(s, "vrrp\n") || text_eq(s, "udp\n") || text_eq(
        s,
        "tcp\n",
    )
}

/// Whether `p` reads as an `i32` from 0 to 255.
pub open spec fn octet_ok(p: Seq<char>) -> bool {
    match i32_value(p) {
        Some(v) => 0 <= v <= 255,
        None => false,
    }
}

/// Whether `t` is a dotted IPv4 address: four pieces between dots, each an
/// integer from 0 to 255.
pub open spec fn ip_text_ok(t: Seq<char>) -> bool {
    split_on(t, '.').len() == 4 && forall|i: int| 0 <= i < 4 ==> octet_ok(#[trigger] split_on(t, '.')[i])
}

/// Whether `t` is a dotted IPv4 address.
pub fn is_ip_text(t: &str) -> (r: bool)
    ensures
        r == ip_text_ok(t@),
{
    let parts = split_text(t, '.');
    let mut ok = true;
    let mut i: usize = 0;
    while i < parts.len()
        invariant
            views(parts@) == split_on(t@, '.'),
            i <= parts@.len(),
            ok == forall|j: int| 0 <= j < i ==> octet_ok(#[trigger] split_on(t@, '.')[j]),
        decreases parts@.len() - i,
    {
        assert(split_on(t@, '.')[i as int] == parts@[i as int]@);
        let v = parse_i32(parts[i].as_str());
        let good = match v {
            Some(n) => 0 <= n && n <= 255,
            None => false,
        };
        ok = ok && good;
        i = i + 1;
    }
    parts.len() == 4 && ok
}

/// Whether a console line, once trimmed, is a dotted IPv4 address.
pub fn check_ip_address(string: &String) -> (r: bool)
    ensures
        r == ip_text_ok(trimmed(string@)),
{
    is_ip_text(trim(string.as_str()))
}

/// Whether `t` reads as an `i32` strictly between 0 and 65535.
pub open spec fn port_text_ok(t: Seq<char>) -> bool {
    match i32_value(t) {
        Some(v) => 0 < v < 65535,
        None => false,
    }
}

/// Whether `t` is a port number a filter accepts.
pub fn is_port_text(t: &str) -> (r: bool)
    ensures
        r == port_text_ok(t@),
{
    match parse_i32(t) {
        Some(n) => 0 < n && n < 65535,
        None => false,
    }
}

/// Whether a console line, once trimmed, is a port number a filter accepts.
pub fn check_port_number(string: &String) -> (r: bool)
    ensures
        r == port_text_ok(trimmed(string@)),
{
    is_port_text(trim(string.as_str()))
}

/// The report period, in seconds, that a text gives: an `i64` of at least 1.
pub open spec fn timeout_value(t: Seq<char>) -> Option<i64> {
    match i64_value(t) {
        Some(v) => if v >= 1 {
            Some(v)
        } else {
            None
        },
        None => None,
    }
}

/// The report period a console line gives, once trimmed, if it reads as an
/// `i64` of at least 1; `None` asks for another line.
pub fn parse_timeout(line: &str) -> (r: Option<i64>)
    ensures
        r == timeout_value(trimmed(line@)),
{
    match parse_i64(trim(line)) {
        Some(v) => if v >= 1 {
            Some(v)
        } else {
            None
        },
        None => None,
    }
}

/// The fields a capture filter can constrain.
pub enum FilterField {
    IpSource,
    IpDest,
    PortSource,
    PortDest,
    TransportProtocol,
}

/// The words that introduce a term on a field.
pub open spec fn term_prefix(f: FilterField) -> Seq<char> {
    match f {
        FilterField::IpSource => "src host "@,
        FilterField::IpDest => "dst host "@,
        FilterField::PortSource => "src port "@,
        FilterField::PortDest => "dst port "@,
        FilterField::TransportProtocol => "ip proto "@,
    }
}

/// Whether a console line is an acceptable value for a field.
pub open spec fn entry_ok(f: FilterField, line: Seq<char>) -> bool {
    match f {
        FilterField::IpSource | FilterField::IpDest => ip_text_ok(trimmed(line)),
        FilterField::PortSource | FilterField::PortDest => port_text_ok(trimmed(line)),
        FilterField::TransportProtocol => protocol_line(line),
    }
}

/// Protocol names that are also filter keywords are escaped with a backslash.
pub open spec fn escaped(line: Seq<char>) -> Seq<char> {
    if line == "tcp\n"@ || line == "udp\n"@ || line == "icmp\n"@ {
        "\\"@ + line
    } else {
        line
    }
}

/// The filter term for a value entered on a field.
pub open spec fn term_text(f: FilterField, line: Seq<char>) -> Seq<char> {
    match f {
        FilterField::TransportProtocol => term_prefix(f) + trimmed(escaped(line)),
        _ => term_prefix(f) + trimmed(line),
    }
}

/// Whether a console line is an acceptable value for a field.
pub fn check_entry(f: &FilterField, line: &String) -> (r: bool)
    ensures
        r == entry_ok(*f, line@),
{
    match f {
        FilterField::IpSource | FilterField::IpDest => check_ip_address(line),
        FilterField::PortSource | FilterField::PortDest => check_port_number(line),
        FilterField::TransportProtocol => check_transport_protocol(line),
    }
}

/// The filter term for a value entered on a field.
pub fn filter_term(f: &FilterField, line: &String) -> (r: String)
    ensures
        r@ == term_text(*f, line@),
{
    proof {
        reveal_strlit("src host ");
        reveal_strlit("dst host ");
        reveal_strlit("src port ");
        reveal_strlit("dst port ");
        reveal_strlit("ip proto ");
    }
    let prefix = match f {
        FilterField::IpSource => "src host ",
        FilterField::IpDest => "dst host ",
        FilterField::PortSource => "src port ",
        FilterField::PortDest => "dst port ",
        FilterField::TransportProtocol => "ip proto ",
    };
    let mut out = prefix.to_string();
    match f {
        FilterField::TransportProtocol => {
            let s = line.as_str();
            if text_eq(s, "tcp\n") || text_eq(s, "udp\n") || text_eq(s, "icmp\n") {
                let escaped_line = "\\".to_string().concat(s);
                out.append(trim(escaped_line.as_str()));
            } else {
                out.append(trim(s));
            }
        },
        _ => {
            out.append(trim(line.as_str()));
        },
    }
    out
}

/// The filter made of the values entered on each field, the values of a
/// field joined with `or`.
pub fn build_filter(
    ip_source: &Vec<String>,
    ip_dest: &Vec<String>,
    port_source: &Vec<String>,
    port_dest: &Vec<String>,
    transport_protocol: &Vec<String>,
) -> (r: Filter)
    ensures
        r.ip_source@ == joined(views(ip_source@), " or "@),
        r.ip_dest@ == joined(views(ip_dest@), " or "@),
        r.port_source@ == joined(views(port_source@), " or "@),
        r.port_dest@ == joined(views(port_dest@), " or "@),
        r.transport_protocol@ == joined(views(transport_protocol@), " or "@),
{
    Filter::with_args(
        join(ip_source, " or "),
        join(ip_dest, " or "),
        join(port_source, " or "),
        join(port_dest, " or "),
        join(transport_protocol, " or "),
    )
}

/// What a menu entry leads to.
pub enum MenuAction {
    StartSniffing,
    SetFilters,
    SetTimeout,
    SetFilename,
    ShowInterfaces,
    CsvMode,
    Nothing,
    Wrong,
}

/// The optional menu entries, given the options from the command line:
/// only those still at their defaults are offered.
pub open spec fn entries_for(args: Args) -> Seq<Seq<char>> {
    let a = if args.timeout == 10 { seq!["Set Timeout"@] } else { Seq::empty() };
    let b = if args.filename@ == "report"@ { seq!["Set Filename"@] } else { Seq::empty() };
    let c = if !args.list { seq!["Show Interfaces"@] } else { Seq::empty() };
    let d = if !args.csv { seq!["CSV Mode"@] } else { Seq::empty() };
    a + b + c + d
}

/// The optional menu entries offered for the command-line options.
pub fn menu_entries(args: &Args) -> (r: Vec<String>)
    ensures
        views(r@) == entries_for(*args),
{
    let mut r: Vec<String> = Vec::new();
    if args.timeout == 10 {
        r.push("Set Timeout".to_string());
    }
    if text_eq(args.filename.as_str(), "report") {
        r.push("Set Filename".to_string());
    }
    if !args.list {
        r.push("Show Interfaces".to_string());
    }
    if !args.csv {
        r.push("CSV Mode".to_string());
    }
    assert(views(r@) =~= entries_for(*args));
    r
}

/// The action behind an optional entry's name.
pub open spec fn entry_action(name: Seq<char>) -> MenuAction {
    if name == "Set Timeout"@ {
        MenuAction::SetTimeout
    } else if name == "Set Filename"@ {
        MenuAction::SetFilename
    } else if name == "Show Interfaces"@ {
        MenuAction::ShowInterfaces
    } else if name == "CSV Mode"@ {
        MenuAction::CsvMode
    } else {
        MenuAction::Nothing
    }
}

/// The action a trimmed menu choice selects, given the optional entries:
/// "1" starts, "2" sets filters, "3" to "5" pick the optional entry in
/// that slot, "6" asks for CSV mode.
pub open spec fn choice_action(t: Seq<char>, entries: Seq<Seq<char>>) -> MenuAction {
    if t == "1"@ {
        MenuAction::StartSniffing
    } else if t == "2"@ {
        MenuAction::SetFilters
    } else if t == "3"@ || t == "4"@ || t == "5"@ {
        let slot: int = if t == "3"@ { 0 } else if t == "4"@ { 1 } else { 2 };
        if slot < entries.len() {
            entry_action(entries[slot])
        } else {
            MenuAction::Nothing
        }
    } else if t == "6"@ {
        MenuAction::CsvMode
    } else {
        MenuAction::Wrong
    }
}

/// The action of a trimmed menu choice.
pub fn menu_choice(t: &str, entries: &Vec<String>) -> (r: MenuAction)
    ensures
        r == choice_action(t@, views(entries@)),
{
    if text_eq(t, "1") {
        MenuAction::StartSniffing
    } else if text_eq(t, "2") {
        MenuAction::SetFilters
    } else if text_eq(t, "3") || text_eq(t, "4") || text_eq(t, "5") {
        let slot: usize = if text_eq(t, "3") {
            0
        } else if text_eq(t, "4") {
            1
        } else {
            2
        };
        if slot < entries.len() {
            let name = entries[slot].as_str();
            assert(views(entries@)[slot as int] == name@);
            if text_eq(name, "Set Timeout") {
                MenuAction::SetTimeout
            } else if text_eq(name, "Set Filename") {
                MenuAction::SetFilename
            } else if text_eq(name, "Show Interfaces") {
                MenuAction::ShowInterfaces
            } else if text_eq(name, "CSV Mode") {
                MenuAction::CsvMode
            } else {
                MenuAction::Nothing
            }
        } else {
            MenuAction::Nothing
        }
    } else if text_eq(t, "6") {
        MenuAction::CsvMode
    } else {
        MenuAction::Wrong
    }
}

/// The action of a menu choice as typed on the console.
pub fn menu_line(line: &str, entries: &Vec<String>) -> (r: MenuAction)
    ensures
        r == choice_action(trimmed(line@), views(entries@)),
{
    menu_choice(trim(line), entries)
}

/// Whether the answer to "CSV mode? (Y/N)", once trimmed, is yes.
pub fn csv_answer(line: &str) -> (r: bool)
    ensures
        r == (trimmed(line@) == "Y"@),
{
    text_eq(trim(line), "Y")
}

/// What a choice in the filter menu leads to.
pub enum FilterMenuAction {
    Field(FilterField),
    Back,
    Other,
}

/// The action of a trimmed filter-menu choice: "1" to "5" pick a field,
/// "0" goes back.
pub open spec fn filter_choice_action(t: Seq<char>) -> FilterMenuAction {
    if t == "1"@ {
        FilterMenuAction::Field(FilterField::IpSource)
    } else if t == "2"@ {
        FilterMenuAction::Field(FilterField::IpDest)
    } else if t == "3"@ {
        FilterMenuAction::Field(FilterField::PortSource)
    } else if t == "4"@ {
        FilterMenuAction::Field(FilterField::PortDest)
    } else if t == "5"@ {
        FilterMenuAction::Field(FilterField::TransportProtocol)
    } else if t == "0"@ {
        FilterMenuAction::Back
    } else {
        FilterMenuAction::Other
    }
}

/// The action of a filter-menu choice as typed on the console.
pub fn filter_menu_choice(line: &str) -> (r: FilterMenuAction)
    ensures
        r == filter_choice_action(trimmed(line@)),
{
    let t = trim(line);
    if text_eq(t, "1") {
        FilterMenuAction::Field(FilterField::IpSource)
    } else if text_eq(t, "2") {
        FilterMenuAction::Field(FilterField::IpDest)
    } else if text_eq(t, "3") {
        FilterMenuAction::Field(FilterField::PortSource)
    } else if text_eq(t, "4") {
        FilterMenuAction::Field(FilterField::PortDest)
    } else if text_eq(t, "5") {
        FilterMenuAction::Field(FilterField::TransportProtocol)
    } else if text_eq(t, "0") {
        FilterMenuAction::Back
    } else {
        FilterMenuAction::Other
    }
}

/// The report filename entered on the console, trimmed.
pub fn entered_name(line: &str) -> (r: String)
    ensures
        r@ == trimmed(line@),
{
    trim(line).to_string()
}

} // verus!
