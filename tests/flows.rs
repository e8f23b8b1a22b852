use packet_swiffer::net::IpAddress;
use packet_swiffer::packet::Packet;
use packet_swiffer::pipeline::{forward_frame, observed_after_cut, timer_tick, toggle_pause, Aggregator};
use packet_swiffer::report::{produce_hashmap, FlowTable, Report, ReportHeader};

fn packet(src: [u8; 4], dst: [u8; 4], sport: u16, dport: u16, length: u16, ts: &str) -> Packet {
    Packet::new(
        "eth0".to_string(),
        IpAddress::V4(src[0], src[1], src[2], src[3]),
        IpAddress::V4(dst[0], dst[1], dst[2], dst[3]),
        "none".to_string(),
        Some(sport),
        Some(dport),
        length,
        "TCP".to_string(),
        "http".to_string(),
        ts.to_string(),
    )
}

fn find<'a>(flows: &'a [(ReportHeader, Report)], sport: u16) -> &'a Report {
    &flows.iter().find(|(k, _)| k.src_port == Some(sport)).unwrap().1
}

#[test]
fn same_key_packets_merge_into_one_flow() {
    let a = packet([10, 0, 0, 1], [10, 0, 0, 2], 1234, 80, 100, "t1");
    let b = packet([10, 0, 0, 1], [10, 0, 0, 2], 1234, 80, 150, "t2");
    let flows = produce_hashmap(vec![a, b]);
    assert_eq!(flows.len(), 1);
    let (key, rec) = &flows[0];
    assert_eq!(key.src_addr, IpAddress::V4(10, 0, 0, 1));
    assert_eq!(key.dest_addr, IpAddress::V4(10, 0, 0, 2));
    assert_eq!(key.src_port, Some(1234));
    assert_eq!(key.dest_port, Some(80));
    assert_eq!(rec.total_bytes, 250);
    assert_eq!(rec.start_time, "t1");
    assert_eq!(rec.stop_time, "t2");
    assert_eq!(rec.packet.length, 100);
}

#[test]
fn byte_totals_are_grouped_by_key() {
    let ps = vec![
        packet([1, 1, 1, 1], [2, 2, 2, 2], 1, 80, 10, "a"),
        packet([1, 1, 1, 1], [2, 2, 2, 2], 2, 80, 20, "b"),
        packet([1, 1, 1, 1], [2, 2, 2, 2], 1, 80, 30, "c"),
        packet([1, 1, 1, 1], [2, 2, 2, 2], 3, 80, 40, "d"),
        packet([1, 1, 1, 1], [2, 2, 2, 2], 1, 80, 50, "e"),
    ];
    let flows = produce_hashmap(ps);
    assert_eq!(flows.len(), 3);
    assert_eq!(find(&flows, 1).total_bytes, 90);
    assert_eq!(find(&flows, 1).start_time, "a");
    assert_eq!(find(&flows, 1).stop_time, "e");
    assert_eq!(find(&flows, 2).total_bytes, 20);
    assert_eq!(find(&flows, 3).total_bytes, 40);
    let sum: u64 = flows.iter().map(|(_, r)| r.total_bytes).sum();
    assert_eq!(sum, 150);
}

#[test]
fn transport_is_not_part_of_the_key() {
    let mut a = packet([1, 1, 1, 1], [2, 2, 2, 2], 53, 53, 10, "a");
    a.transport = "UDP".to_string();
    let b = packet([1, 1, 1, 1], [2, 2, 2, 2], 53, 53, 5, "b");
    let flows = produce_hashmap(vec![a, b]);
    assert_eq!(flows.len(), 1);
    assert_eq!(flows[0].1.packet.transport, "UDP");
    assert_eq!(flows[0].1.total_bytes, 15);
}

#[test]
fn empty_window_gives_empty_table() {
    assert!(produce_hashmap(Vec::new()).is_empty());
    let t = FlowTable::new();
    assert!(t.is_empty());
    assert_eq!(t.len(), 0);
    assert!(t.into_entries().is_empty());
}

#[test]
fn flow_table_counts_folded_packets() {
    let mut t = FlowTable::new();
    t.fold(packet([1, 1, 1, 1], [2, 2, 2, 2], 1, 80, 10, "a"));
    t.fold(packet([1, 1, 1, 1], [2, 2, 2, 2], 1, 80, 10, "b"));
    assert_eq!(t.len(), 2);
    let e = t.into_entries();
    assert_eq!(e.len(), 1);
    assert_eq!(e[0].1.total_bytes, 20);
}

#[test]
fn window_indices_are_consecutive() {
    let mut agg = Aggregator::new();
    let mut indices = Vec::new();
    for (i, cut) in [false, true, true, false, false, true].iter().enumerate() {
        let p = packet([1, 1, 1, 1], [2, 2, 2, 2], i as u16, 80, 1, "t");
        if let Some(w) = agg.on_packet(p, *cut) {
            indices.push(w.index);
        }
    }
    assert_eq!(indices, vec![0, 1, 2]);
    assert_eq!(agg.window_index(), 3);
    assert!(agg.finish().is_none());
}

#[test]
fn cut_closes_window_with_its_packets() {
    let mut agg = Aggregator::new();
    assert!(agg.on_packet(packet([1, 1, 1, 1], [2, 2, 2, 2], 1, 80, 7, "a"), false).is_none());
    assert_eq!(agg.pending(), 1);
    let w = agg.on_packet(packet([1, 1, 1, 1], [2, 2, 2, 2], 1, 80, 8, "b"), true).unwrap();
    assert_eq!(w.index, 0);
    assert_eq!(w.flows.len(), 1);
    assert_eq!(w.flows[0].1.total_bytes, 15);
    assert_eq!(agg.pending(), 0);
    assert_eq!(agg.window_index(), 1);
}

#[test]
fn idle_session_writes_nothing_at_the_end() {
    let agg = Aggregator::new();
    assert!(agg.finish().is_none());
}

#[test]
fn last_partial_window_is_flushed_at_the_end() {
    let mut agg = Aggregator::new();
    agg.on_packet(packet([1, 1, 1, 1], [2, 2, 2, 2], 1, 80, 3, "a"), true);
    agg.on_packet(packet([1, 1, 1, 1], [2, 2, 2, 2], 2, 80, 4, "b"), false);
    let w = agg.finish().unwrap();
    assert_eq!(w.index, 1);
    assert_eq!(w.flows.len(), 1);
    assert_eq!(w.flows[0].1.total_bytes, 4);
}

#[test]
fn timer_tick_without_traffic_does_not_cut() {
    assert!(!timer_tick(false, false));
    assert!(!timer_tick(true, false));
    assert!(!timer_tick(true, true));
    assert!(timer_tick(false, true));
}

#[test]
fn idle_period_then_traffic_produces_one_flush() {
    // A ten-second period with no packet: the tick raises nothing, so no window closes.
    let mut observed = false;
    let mut cut = timer_tick(false, observed);
    assert!(!cut);
    let mut agg = Aggregator::new();
    // The first packet after idling re-arms the observed flag.
    observed = true;
    assert!(agg.on_packet(packet([1, 1, 1, 1], [2, 2, 2, 2], 1, 80, 5, "a"), cut).is_none());
    // The next tick cuts, and the next fold hands the window over.
    cut = timer_tick(false, observed);
    assert!(cut);
    observed = observed_after_cut(observed, cut);
    assert!(!observed);
    let w = agg.on_packet(packet([1, 1, 1, 1], [2, 2, 2, 2], 1, 80, 6, "b"), cut).unwrap();
    assert_eq!(w.index, 0);
    assert_eq!(w.flows[0].1.total_bytes, 11);
    // With no traffic since the cut, the following tick raises nothing.
    assert!(!timer_tick(false, observed));
}

#[test]
fn paused_interval_is_absent_from_the_window() {
    let mut paused = false;
    let mut agg = Aggregator::new();
    let arrivals: Vec<(u16, bool)> = vec![(1, false), (2, false), (3, true), (4, false), (5, false), (6, true), (7, false)];
    for (port, toggle) in arrivals {
        if toggle {
            paused = toggle_pause(paused);
        }
        let p = packet([1, 1, 1, 1], [2, 2, 2, 2], port, 80, port, "t");
        if forward_frame(paused) {
            assert!(agg.on_packet(p, false).is_none());
        }
    }
    let w = agg.finish().unwrap();
    let mut ports: Vec<u16> = w.flows.iter().map(|(k, _)| k.src_port.unwrap()).collect();
    ports.sort();
    assert_eq!(ports, vec![1, 2, 6, 7]);
}

#[test]
fn forward_frame_drops_while_paused() {
    assert!(forward_frame(false));
    assert!(!forward_frame(true));
    assert!(toggle_pause(false));
    assert!(!toggle_pause(true));
}
