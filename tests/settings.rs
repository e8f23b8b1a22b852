use packet_swiffer::menu::{
    build_filter, check_entry, check_ip_address, check_port_number, check_transport_protocol, csv_answer, filter_term,
    is_ip_text, is_port_text, menu_choice, menu_entries, menu_line, parse_filter, parse_timeout, Args, Filter,
    FilterField, MenuAction, Settings,
};
use packet_swiffer::num::{parse_i32, parse_i64, read_u64};
use packet_swiffer::pipeline::is_pause_key;

fn s(x: &str) -> String {
    x.to_string()
}

#[test]
fn ip_addresses_are_checked() {
    assert!(check_ip_address(&s("192.168.1.1\n")));
    assert!(check_ip_address(&s("  10.0.0.255  ")));
    assert!(!check_ip_address(&s("256.1.1.1\n")));
    assert!(!check_ip_address(&s("1.2.3\n")));
    assert!(!check_ip_address(&s("1.2.3.4.5\n")));
    assert!(!check_ip_address(&s("1.2.x.4\n")));
    assert!(!check_ip_address(&s("1..3.4\n")));
    assert!(is_ip_text("0.0.0.0"));
    assert!(!is_ip_text(" 1.2.3.4"));
}

#[test]
fn port_numbers_are_checked() {
    assert!(check_port_number(&s("80\n")));
    assert!(check_port_number(&s("  65534 \n")));
    assert!(!check_port_number(&s("0\n")));
    assert!(!check_port_number(&s("65535\n")));
    assert!(!check_port_number(&s("-1\n")));
    assert!(!check_port_number(&s("http\n")));
    assert!(is_port_text("+22"));
    assert!(!is_port_text(" 22"));
}

#[test]
fn transport_protocols_are_checked() {
    for p in ["icmp\n", "icmp6\n", "igmp\n", "igrp\n", "pim\n", "ah\n", "esp\n", "vrrp\n", "udp\n", "tcp\n"] {
        assert!(check_transport_protocol(&s(p)));
    }
    assert!(!check_transport_protocol(&s("tcp")));
    assert!(!check_transport_protocol(&s("sctp\n")));
}

#[test]
fn filter_terms_carry_their_keywords() {
    assert_eq!(filter_term(&FilterField::IpSource, &s("10.0.0.1\n")), "src host 10.0.0.1");
    assert_eq!(filter_term(&FilterField::IpDest, &s("10.0.0.2\n")), "dst host 10.0.0.2");
    assert_eq!(filter_term(&FilterField::PortSource, &s("22\n")), "src port 22");
    assert_eq!(filter_term(&FilterField::PortDest, &s("443\n")), "dst port 443");
    assert_eq!(filter_term(&FilterField::TransportProtocol, &s("tcp\n")), "ip proto \\tcp");
    assert_eq!(filter_term(&FilterField::TransportProtocol, &s("esp\n")), "ip proto esp");
    assert!(check_entry(&FilterField::IpSource, &s("1.2.3.4\n")));
    assert!(!check_entry(&FilterField::PortDest, &s("70000\n")));
    assert!(check_entry(&FilterField::TransportProtocol, &s("udp\n")));
}

#[test]
fn filter_expression_joins_nonempty_terms() {
    let f = Filter::with_args(s("src host 1.1.1.1"), String::new(), s("src port 22"), String::new(), s("ip proto \\udp"));
    assert_eq!(f.as_array(), [s("src host 1.1.1.1"), s(""), s("src port 22"), s(""), s("ip proto \\udp")]);
    assert_eq!(parse_filter(f), "src host 1.1.1.1 or src port 22 or ip proto \\udp");
    assert_eq!(parse_filter(Filter::new()), "");
}

#[test]
fn build_filter_joins_values_per_field() {
    let f = build_filter(
        &vec![s("src host 1.1.1.1"), s("src host 2.2.2.2")],
        &vec![],
        &vec![s("src port 80")],
        &vec![],
        &vec![],
    );
    assert_eq!(f.ip_source, "src host 1.1.1.1 or src host 2.2.2.2");
    assert_eq!(f.ip_dest, "");
    assert_eq!(f.port_source, "src port 80");
}

#[test]
fn settings_start_empty() {
    let st = Settings::new();
    assert_eq!(st.filters, "");
    assert!(st.csv.is_none() && st.timeout.is_none() && st.filename.is_none());
}

#[test]
fn menu_offers_entries_still_at_defaults() {
    let args = Args { timeout: 10, filename: s("report"), interface: s("eth0"), promisc: false, list: false, csv: false };
    let e = menu_entries(&args);
    assert_eq!(e, vec![s("Set Timeout"), s("Set Filename"), s("Show Interfaces"), s("CSV Mode")]);
    assert!(matches!(menu_choice("3", &e), MenuAction::SetTimeout));
    assert!(matches!(menu_choice("4", &e), MenuAction::SetFilename));
    assert!(matches!(menu_choice("5", &e), MenuAction::ShowInterfaces));
    assert!(matches!(menu_choice("6", &e), MenuAction::CsvMode));
    assert!(matches!(menu_line(" 1\n", &e), MenuAction::StartSniffing));
    assert!(matches!(menu_line("2\n", &e), MenuAction::SetFilters));
    assert!(matches!(menu_line("9\n", &e), MenuAction::Wrong));
    let args = Args { timeout: 5, filename: s("x"), interface: s("eth0"), promisc: true, list: true, csv: false };
    let e = menu_entries(&args);
    assert_eq!(e, vec![s("CSV Mode")]);
    assert!(matches!(menu_choice("3", &e), MenuAction::CsvMode));
    assert!(matches!(menu_choice("4", &e), MenuAction::Nothing));
    let args = Args { timeout: 5, filename: s("report"), interface: s("eth0"), promisc: false, list: false, csv: true };
    let e = menu_entries(&args);
    assert_eq!(e, vec![s("Set Filename"), s("Show Interfaces")]);
    assert!(matches!(menu_choice("3", &e), MenuAction::SetFilename));
    assert!(matches!(menu_choice("4", &e), MenuAction::ShowInterfaces));
    assert!(matches!(menu_choice("5", &e), MenuAction::Nothing));
}

#[test]
fn console_answers_are_read_trimmed() {
    assert!(csv_answer("Y\n"));
    assert!(!csv_answer("N\n"));
    assert_eq!(parse_timeout(" 30\n"), Some(30));
    assert_eq!(parse_timeout("ten\n"), None);
    assert_eq!(parse_timeout("0\n"), None);
    assert_eq!(parse_timeout("-5\n"), None);
    assert_eq!(parse_timeout("1\n"), Some(1));
    assert!(is_pause_key("P"));
    assert!(!is_pause_key("p"));
}

#[test]
fn integers_read_as_rust_reads_them() {
    assert_eq!(parse_i32("-2147483648"), Some(i32::MIN));
    assert_eq!(parse_i32("2147483648"), None);
    assert_eq!(parse_i32("+7"), Some(7));
    assert_eq!(parse_i32("-"), None);
    assert_eq!(parse_i32(""), None);
    assert_eq!(parse_i64("-9223372036854775808"), Some(i64::MIN));
    assert_eq!(parse_i64("9223372036854775807"), Some(i64::MAX));
    assert_eq!(parse_i64("9223372036854775808"), None);
    assert_eq!(read_u64("18446744073709551615"), Some(u64::MAX));
    assert_eq!(read_u64("18446744073709551616"), None);
    assert_eq!(read_u64("+1"), None);
}
