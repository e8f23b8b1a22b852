//! Flow aggregation: the packets of one report window folded into one record
//! per flow key.
use vstd::prelude::*;

use crate::net::IpAddress;
use crate::packet::Packet;

verus! {

/// The key that groups packets into flows. The transport protocol is not
/// part of it: a TCP and a UDP exchange on the same addresses and ports
/// share one record, labelled after the first packet seen.
#[derive(Clone, Copy, Debug, PartialEq, Eq, Hash, Structural)]
pub struct ReportHeader {
    pub src_addr: IpAddress,
    pub dest_addr: IpAddress,
    pub src_port: Option<u16>,
    pub dest_port: Option<u16>,
}

/// The aggregate of one flow within one window: the first packet's
/// descriptive fields, the byte total, and the first and last timestamps.
#[derive(Debug)]
pub struct Report {
    pub packet: Packet,
    pub total_bytes: u64,
    pub start_time: String,
    pub stop_time: String,
}

/// Most packets that one window may fold: the byte totals then fit in `u64`.
pub const MAX_WINDOW_PACKETS: u64 = 0x1_0000_0000_0000;

/// The flow key of a packet.
pub open spec fn header_of(p: Packet) -> ReportHeader {
    ReportHeader {
        src_addr: p.src_addr,
        dest_addr: p.dest_addr,
        src_port: p.src_port,
        dest_port: p.dest_port,
    }
}

/// Sum of the lengths of the packets of `ps` whose key is `k`.
pub open spec fn bytes_of(ps: Seq<Packet>, k: ReportHeader) -> nat
    decreases ps.len(),
{
    if ps.len() == 0 {
        0
    } else {
        bytes_of(ps.drop_last(), k) + if header_of(ps.last()) == k {
            ps.last().length as nat
        } else {
            0
        }
    }
}

/// Index of the first packet of `ps` with key `k`, or -1 if there is none.
pub open spec fn first_of(ps: Seq<Packet>, k: ReportHeader) -> int
    decreases ps.len(),
{
    if ps.len() == 0 {
        -1
    } else if first_of(ps.drop_last(), k) >= 0 {
        first_of(ps.drop_last(), k)
    } else if header_of(ps.last()) == k {
        ps.len() - 1
    } else {
        -1
    }
}

/// Index of the last packet of `ps` with key `k`, or -1 if there is none.
pub open spec fn last_of(ps: Seq<Packet>, k: ReportHeader) -> int
    decreases ps.len(),
{
    if ps.len() == 0 {
        -1
    } else if header_of(ps.last()) == k {
        ps.len() - 1
    } else {
        last_of(ps.drop_last(), k)
    }
}

/// The record that the packets `ps` of a window give for the key `k`.
pub open spec fn flow_of(ps: Seq<Packet>, k: ReportHeader) -> Report {
    Report {
        packet: ps[first_of(ps, k)],
        total_bytes: bytes_of(ps, k) as u64,
        start_time: ps[first_of(ps, k)].timestamp,
        stop_time: ps[last_of(ps, k)].timestamp,
    }
}

/// Whether `k` is the key of an entry of `t`.
pub open spec fn has_entry(t: Seq<(ReportHeader, Report)>, k: ReportHeader) -> bool {
    exists|i: int| 0 <= i < t.len() && #[trigger] t[i].0 == k
}

/// `t` is the flow table of the packets `ps`: one entry per key that occurs
/// in `ps`, and each entry is the record that `ps` gives for its key.
pub open spec fn is_flow_table(t: Seq<(ReportHeader, Report)>, ps: Seq<Packet>) -> bool {
    &&& forall|i: int, j: int| 0 <= i < j < t.len() ==> t[i].0 != t[j].0
    &&& forall|i: int|
        0 <= i < t.len() ==> first_of(ps, #[trigger] t[i].0) >= 0 && t[i].1 == flow_of(ps, t[i].0)
    &&& forall|k: ReportHeader| first_of(ps, k) >= 0 ==> #[trigger] has_entry(t, k)
}

/// What appending one packet does to the per-key sums and indices.
proof fn lemma_push(ps: Seq<Packet>, p: Packet, k: ReportHeader)
    ensures
        bytes_of(ps.push(p), k) == bytes_of(ps, k) + if header_of(p) == k {
            p.length as nat
        } else {
            0
        },
        first_of(ps.push(p), k) == if first_of(ps, k) >= 0 {
            first_of(ps, k)
        } else if header_of(p) == k {
            ps.len() as int
        } else {
            -1
        },
        last_of(ps.push(p), k) == if header_of(p) == k {
            ps.len() as int
        } else {
            last_of(ps, k)
        },
{
    assert(ps.push(p).drop_last() =~= ps);
}

/// The indices of a key lie within the sequence and point at that key.
pub proof fn lemma_indices(ps: Seq<Packet>, k: ReportHeader)
    ensures
        -1 <= first_of(ps, k) < ps.len(),
        -1 <= last_of(ps, k) < ps.len(),
        first_of(ps, k) >= 0 ==> header_of(ps[first_of(ps, k)]) == k,
        last_of(ps, k) >= 0 ==> header_of(ps[last_of(ps, k)]) == k,
        (first_of(ps, k) >= 0) == (last_of(ps, k) >= 0),
        first_of(ps, k) < 0 ==> bytes_of(ps, k) == 0,
    decreases ps.len(),
{
    if ps.len() > 0 {
        lemma_indices(ps.drop_last(), k);
    }
}

/// A key's byte sum is at most the largest length times the packet count.
proof fn lemma_bytes_bound(ps: Seq<Packet>, k: ReportHeader)
    ensures
        bytes_of(ps, k) <= ps.len() * 65535,
    decreases ps.len(),
{
    if ps.len() > 0 {
        lemma_bytes_bound(ps.drop_last(), k);
    }
}

/// The flow table of the packets folded so far in one window.
pub struct FlowTable {
    entries: Vec<(ReportHeader, Report)>,
    count: u64,
    folded: Ghost<Seq<Packet>>,
}

impl FlowTable {
    /// The packets folded into this table, in arrival order.
    pub closed spec fn packets(&self) -> Seq<Packet> {
        self.folded@
    }

    /// The table's entries.
    pub closed spec fn entries(&self) -> Seq<(ReportHeader, Report)> {
        self.entries@
    }

    /// The table holds exactly the flows of the packets folded into it.
    pub closed spec fn wf(&self) -> bool {
        &&& is_flow_table(self.entries@, self.folded@)
        &&& self.count == self.folded@.len()
        &&& self.count <= MAX_WINDOW_PACKETS
    }

    /// An empty table, for a window that has folded nothing yet.
    pub fn new() -> (r: FlowTable)
        ensures
            r.wf(),
            r.packets() == Seq::<Packet>::empty(),
            r.entries() == Seq::<(ReportHeader, Report)>::empty(),
    {
        FlowTable { entries: Vec::new(), count: 0, folded: Ghost(Seq::empty()) }
    }

    /// Number of packets folded into this table.
    pub fn len(&self) -> (r: u64)
        requires
            self.wf(),
        ensures
            r == self.packets().len(),
    {
        self.count
    }

    /// Whether no packet has been folded into this table.
    pub fn is_empty(&self) -> (r: bool)
        requires
            self.wf(),
        ensures
            r == (self.packets().len() == 0),
    {
        self.count == 0
    }

    /// Index of the entry with key `k`, if there is one.
    fn find(&self, k: &ReportHeader) -> (r: Option<usize>)
        requires
            self.wf(),
        ensures
            match r {
                Some(i) => i < self.entries().len() && self.entries()[i as int].0 == *k,
                None => !has_entry(self.entries(), *k),
            },
    {
        let mut i: usize = 0;
        while i < self.entries.len()
            invariant
                i <= self.entries@.len(),
                forall|j: int| 0 <= j < i ==> self.entries@[j].0 != *k,
            decreases self.entries@.len() - i,
        {
            if self.entries[i].0 == *k {
                return Some(i);
            }
            i = i + 1;
        }
        None
    }

    /// Folds one packet into the table: a new entry on the first packet of
    /// its key, otherwise its length added to that key's total and its
    /// timestamp taken as the flow's stop time.
    pub fn fold(&mut self, p: Packet)
        requires
            old(self).wf(),
            old(self).packets().len() < MAX_WINDOW_PACKETS,
        ensures
            final(self).wf(),
            final(self).packets() == old(self).packets().push(p),
    {
        let ghost ps = self.folded@;
        let ghost old_entries = self.entries@;
        let k = ReportHeader {
            src_addr: p.src_addr,
            dest_addr: p.dest_addr,
            src_port: p.src_port,
            dest_port: p.dest_port,
        };
        assert(k == header_of(p));
        proof {
            lemma_push(ps, p, k);
            lemma_indices(ps, k);
            lemma_bytes_bound(ps.push(p), k);
        }
        match self.find(&k) {
            Some(i) => {
                let total = self.entries[i].1.total_bytes + p.length as u64;
                self.entries[i].1.total_bytes = total;
                self.entries[i].1.stop_time = p.timestamp;
            },
            None => {
                let len = p.length as u64;
                let start = p.timestamp.clone();
                let stop = p.timestamp.clone();
                self.entries.push((k, Report { packet: p, total_bytes: len, start_time: start, stop_time: stop }));
            },
        }
        self.count = self.count + 1;
        self.folded = Ghost(ps.push(p));
        proof {
            let nps = ps.push(p);
            assert forall|j: int| 0 <= j < self.entries@.len() implies first_of(nps, #[trigger] self.entries@[j].0) >= 0
                && self.entries@[j].1 == flow_of(nps, self.entries@[j].0) by {
                let kj = self.entries@[j].0;
                lemma_push(ps, p, kj);
                lemma_indices(ps, kj);
                lemma_bytes_bound(nps, kj);
            }
            assert forall|kk: ReportHeader| first_of(nps, kk) >= 0 implies #[trigger] has_entry(self.entries@, kk) by {
                lemma_push(ps, p, kk);
                if kk != k {
                    assert(has_entry(old_entries, kk));
                    let w = choose|w: int| 0 <= w < old_entries.len() && #[trigger] old_entries[w].0 == kk;
                    assert(self.entries@[w].0 == kk);
                } else {
                    if has_entry(old_entries, k) {
                        let w = choose|w: int| 0 <= w < old_entries.len() && #[trigger] old_entries[w].0 == kk;
                        assert(self.entries@[w].0 == kk);
                    } else {
                        assert(self.entries@[old_entries.len() as int].0 == kk);
                    }
                }
            }
        }
    }

    /// Hands over the table's contents and leaves this table empty.
    pub fn take(&mut self) -> (r: FlowTable)
        requires
            old(self).wf(),
        ensures
            r.wf(),
            r.packets() == old(self).packets(),
            r.entries() == old(self).entries(),
            final(self).wf(),
            final(self).packets() == Seq::<Packet>::empty(),
            final(self).entries() == Seq::<(ReportHeader, Report)>::empty(),
    {
        let entries = self.entries.split_off(0);
        let r = FlowTable { entries, count: self.count, folded: Ghost(self.folded@) };
        self.count = 0;
        self.folded = Ghost(Seq::empty());
        proof {
            assert(self.entries@ =~= Seq::<(ReportHeader, Report)>::empty());
            assert(r.entries@ =~= old(self).entries@);
        }
        r
    }

    /// The table's entries, consuming the table.
    pub fn into_entries(self) -> (r: Vec<(ReportHeader, Report)>)
        requires
            self.wf(),
        ensures
            r@ == self.entries(),
            is_flow_table(r@, self.packets()),
    {
        self.entries
    }
}

/// Folds the packets of one window into their flow table.
pub fn produce_hashmap(buffer: Vec<Packet>) -> (r: Vec<(ReportHeader, Report)>)
    requires
        buffer@.len() <= MAX_WINDOW_PACKETS,
    ensures
        is_flow_table(r@, buffer@),
{
    let mut table = FlowTable::new();
    let mut i: usize = 0;
    while i < buffer.len()
        invariant
            i <= buffer@.len() <= MAX_WINDOW_PACKETS,
            table.wf(),
            table.packets() == buffer@.subrange(0, i as int),
        decreases buffer@.len() - i,
    {
        let p = buffer[i].duplicate();
        table.fold(p);
        assert(buffer@.subrange(0, i + 1) =~= buffer@.subrange(0, i as int).push(buffer@[i as int]));
        i = i + 1;
    }
    assert(buffer@.subrange(0, i as int) =~= buffer@);
    table.into_entries()
}

/// Folding a window's packets gives each flow the sum of the lengths of the
/// packets with its key, and every key that carried bytes has a flow.
pub proof fn lemma_flow_bytes(ps: Seq<Packet>, t: Seq<(ReportHeader, Report)>)
    requires
        is_flow_table(t, ps),
        ps.len() <= MAX_WINDOW_PACKETS,
    ensures
        forall|i: int| 0 <= i < t.len() ==> #[trigger] t[i].1.total_bytes == bytes_of(ps, t[i].0),
        forall|k: ReportHeader| !has_entry(t, k) ==> #[trigger] bytes_of(ps, k) == 0,
{
    assert forall|i: int| 0 <= i < t.len() implies #[trigger] t[i].1.total_bytes == bytes_of(ps, t[i].0) by {
        lemma_bytes_bound(ps, t[i].0);
    }
    assert forall|k: ReportHeader| !has_entry(t, k) implies #[trigger] bytes_of(ps, k) == 0 by {
        lemma_indices(ps, k);
    }
}

} // verus!
