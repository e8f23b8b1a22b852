//! The decisions of the capture pipeline: whether a captured frame goes on,
//! whether a timer tick cuts the report window, and how the aggregation
//! stage folds packets into windows and hands closed windows to the writer.
use vstd::prelude::*;

use crate::packet::Packet;
use crate::report::{is_flow_table, FlowTable, Report, ReportHeader, MAX_WINDOW_PACKETS};
use crate::text::{trim, trimmed};

verus! {

/// Whether the capture stage forwards a frame it has just pulled: frames
/// pulled while capture is paused are dropped, not buffered.
pub fn forward_frame(paused: bool) -> (r: bool)
    ensures
        r == !paused,
{
    !paused
}

/// The pause state after a pause/resume command.
pub fn toggle_pause(paused: bool) -> (r: bool)
    ensures
        r == !paused,
{
    !paused
}

/// Whether a report-timer tick raises the cut-window flag: only when
/// capture is not paused and a packet has been observed since the last cut.
pub fn timer_tick(paused: bool, packet_observed: bool) -> (r: bool)
    ensures
        r == (!paused && packet_observed),
{
    !paused && packet_observed
}

/// The packet-observed flag once the aggregation stage has read the cut
/// flag: a cut clears it, so the next tick cuts only after new traffic.
pub fn observed_after_cut(observed: bool, cut: bool) -> (r: bool)
    ensures
        r == (observed && !cut),
{
    observed && !cut
}

/// Whether a line typed on the console, once trimmed, is the pause/resume key.
pub fn is_pause_key(text: &str) -> (r: bool)
    ensures
        r == (text@ == seq!['P']),
{
    proof {
        reveal_strlit("P");
    }
    let l = text.unicode_len();
    if l != 1 {
        return false;
    }
    let c = text.get_char(0);
    proof {
        if c == 'P' {
            assert(text@ =~= seq!['P']);
        }
    }
    c == 'P'
}

/// Whether a line typed on the console is the pause/resume command.
pub fn pause_command(line: &str) -> (r: bool)
    ensures
        r == (trimmed(line@) == seq!['P']),
{
    is_pause_key(trim(line))
}

/// The aggregation stage as plain values: the index of the window being
/// collected and the packets folded into it so far.
pub struct AggregatorView {
    pub index: nat,
    pub packets: Seq<Packet>,
}

/// A closed window as plain values: its index and its packets.
pub struct WindowView {
    pub index: nat,
    pub packets: Seq<Packet>,
}

/// One step of the aggregation stage: fold the packet, then, if the cut
/// flag was raised, close the window and start the next one.
pub open spec fn aggregate_step(s: AggregatorView, p: Packet, cut: bool) -> (AggregatorView, Option<WindowView>) {
    if cut {
        (
            AggregatorView { index: s.index + 1, packets: Seq::empty() },
            Some(WindowView { index: s.index, packets: s.packets.push(p) }),
        )
    } else {
        (AggregatorView { index: s.index, packets: s.packets.push(p) }, None)
    }
}

/// The end of the stream: the last window is handed over only if it holds
/// at least one packet.
pub open spec fn aggregate_finish(s: AggregatorView) -> Option<WindowView> {
    if s.packets.len() > 0 {
        Some(WindowView { index: s.index, packets: s.packets })
    } else {
        None
    }
}

/// A closed window, ready for the report writer.
pub struct Window {
    pub index: u64,
    pub flows: Vec<(ReportHeader, Report)>,
    pub packets: Ghost<Seq<Packet>>,
}

impl Window {
    pub open spec fn view(&self) -> WindowView {
        WindowView { index: self.index as nat, packets: self.packets@ }
    }

    /// The flows are the flow table of the window's packets.
    pub open spec fn wf(&self) -> bool {
        is_flow_table(self.flows@, self.packets@)
    }
}

/// The aggregation and report stage of one session.
pub struct Aggregator {
    table: FlowTable,
    index: u64,
}

impl Aggregator {
    pub closed spec fn view(&self) -> AggregatorView {
        AggregatorView { index: self.index as nat, packets: self.table.packets() }
    }

    pub closed spec fn wf(&self) -> bool {
        self.table.wf()
    }

    /// A session at window index 0 with nothing collected.
    pub fn new() -> (r: Aggregator)
        ensures
            r.wf(),
            r.view().index == 0,
            r.view().packets == Seq::<Packet>::empty(),
    {
        Aggregator { table: FlowTable::new(), index: 0 }
    }

    /// Index of the window being collected.
    pub fn window_index(&self) -> (r: u64)
        ensures
            r == self.view().index,
    {
        self.index
    }

    /// Number of packets collected in the current window.
    pub fn pending(&self) -> (r: u64)
        requires
            self.wf(),
        ensures
            r == self.view().packets.len(),
    {
        self.table.len()
    }

    /// Folds a decoded packet into the current window; if the cut flag is
    /// raised, closes the window and returns it, and the next window starts
    /// empty under the next index.
    pub fn on_packet(&mut self, p: Packet, cut: bool) -> (r: Option<Window>)
        requires
            old(self).wf(),
            old(self).view().packets.len() < MAX_WINDOW_PACKETS,
            cut ==> old(self).view().index < u64::MAX,
        ensures
            final(self).wf(),
            final(self).view() == aggregate_step(old(self).view(), p, cut).0,
            match r {
                Some(w) => w.wf() && aggregate_step(old(self).view(), p, cut).1 == Some(w.view()),
                None => aggregate_step(old(self).view(), p, cut).1 is None,
            },
    {
        self.table.fold(p);
        if cut {
            let table = self.table.take();
            let ghost packets = table.packets();
            let w = Window { index: self.index, flows: table.into_entries(), packets: Ghost(packets) };
            self.index = self.index + 1;
            Some(w)
        } else {
            None
        }
    }

    /// Ends the session: returns the last window if it holds any packet.
    pub fn finish(self) -> (r: Option<Window>)
        requires
            self.wf(),
        ensures
            match r {
                Some(w) => w.wf() && aggregate_finish(self.view()) == Some(w.view()),
                None => aggregate_finish(self.view()) is None,
            },
    {
        if self.table.is_empty() {
            None
        } else {
            let ghost packets = self.table.packets();
            Some(Window { index: self.index, flows: self.table.into_entries(), packets: Ghost(packets) })
        }
    }
}

/// One captured frame as the aggregation stage comes to see it: the decoded
/// packet (`None` where decoding failed), whether capture was paused when
/// the frame was pulled, and whether the cut flag was up when it was folded.
pub struct Arrival {
    pub packet: Option<Packet>,
    pub paused: bool,
    pub cut: bool,
}

/// Whether an arrival reaches the aggregation stage: it was pulled while
/// capture ran, and it decoded.
pub open spec fn reaches_aggregation(a: Arrival) -> bool {
    !a.paused && a.packet is Some
}

/// The pipeline over a run of arrivals: frames pulled while paused are
/// dropped by the capture stage, frames that fail to decode are dropped by
/// the decode stage, and the rest go through `aggregate_step` in order.
/// Gives the final aggregation state and the windows closed on the way.
pub open spec fn run(s: AggregatorView, arrivals: Seq<Arrival>) -> (AggregatorView, Seq<WindowView>)
    decreases arrivals.len(),
{
    if arrivals.len() == 0 {
        (s, Seq::empty())
    } else {
        let prev = run(s, arrivals.drop_last());
        let a = arrivals.last();
        if reaches_aggregation(a) {
            let step = aggregate_step(prev.0, a.packet->0, a.cut);
            match step.1 {
                Some(w) => (step.0, prev.1.push(w)),
                None => (step.0, prev.1),
            }
        } else {
            prev
        }
    }
}

/// The decoded packets of the arrivals that reach the aggregation stage.
pub open spec fn forwarded(arrivals: Seq<Arrival>) -> Seq<Packet>
    decreases arrivals.len(),
{
    if arrivals.len() == 0 {
        Seq::empty()
    } else if reaches_aggregation(arrivals.last()) {
        forwarded(arrivals.drop_last()).push(arrivals.last().packet->0)
    } else {
        forwarded(arrivals.drop_last())
    }
}

/// The packets of a run of windows, one window after the other.
pub open spec fn windows_packets(ws: Seq<WindowView>) -> Seq<Packet>
    decreases ws.len(),
{
    if ws.len() == 0 {
        Seq::empty()
    } else {
        windows_packets(ws.drop_last()) + ws.last().packets
    }
}

/// Over any run of the pipeline: the closed windows and the window still
/// being collected hold exactly the packets that were neither pulled while
/// paused nor failed to decode, in arrival order, so nothing pulled while
/// paused appears in any window; no closed window is empty; and the closed
/// windows carry consecutive indices from the starting index, with the
/// window still being collected next in line.
pub proof fn lemma_run(s: AggregatorView, arrivals: Seq<Arrival>)
    ensures
        windows_packets(run(s, arrivals).1) + run(s, arrivals).0.packets == s.packets + forwarded(arrivals),
        forall|i: int| 0 <= i < run(s, arrivals).1.len() ==> #[trigger] run(s, arrivals).1[i].index == s.index + i,
        forall|i: int| 0 <= i < run(s, arrivals).1.len() ==> #[trigger] run(s, arrivals).1[i].packets.len() > 0,
        run(s, arrivals).0.index == s.index + run(s, arrivals).1.len(),
    decreases arrivals.len(),
{
    if arrivals.len() > 0 {
        lemma_run(s, arrivals.drop_last());
        let prev = run(s, arrivals.drop_last());
        let a = arrivals.last();
        if reaches_aggregation(a) {
            let p = a.packet->0;
            let step = aggregate_step(prev.0, p, a.cut);
            match step.1 {
                Some(w) => {
                    assert(prev.1.push(w).drop_last() =~= prev.1);
                    assert(forwarded(arrivals) == forwarded(arrivals.drop_last()).push(p));
                    assert(windows_packets(prev.1.push(w)) == windows_packets(prev.1) + prev.0.packets.push(p));
                    assert(windows_packets(prev.1) + prev.0.packets.push(p) =~= (windows_packets(prev.1)
                        + prev.0.packets).push(p));
                    assert((s.packets + forwarded(arrivals.drop_last())).push(p) =~= s.packets + forwarded(
                        arrivals,
                    ));
                    assert(step.0.packets =~= Seq::<Packet>::empty());
                    assert(windows_packets(prev.1.push(w)) + step.0.packets =~= windows_packets(prev.1.push(w)));
                },
                None => {
                    assert(forwarded(arrivals) == forwarded(arrivals.drop_last()).push(p));
                    assert(windows_packets(prev.1) + prev.0.packets.push(p) =~= (windows_packets(prev.1)
                        + prev.0.packets).push(p));
                    assert((s.packets + forwarded(arrivals.drop_last())).push(p) =~= s.packets + forwarded(
                        arrivals,
                    ));
                },
            }
        }
    }
}

/// A packet in a closed window of a run was held before the run began or
/// arrived in it while capture was not paused.
pub proof fn lemma_paused_never_reported(s: AggregatorView, arrivals: Seq<Arrival>, i: int, j: int)
    requires
        0 <= i < run(s, arrivals).1.len(),
        0 <= j < run(s, arrivals).1[i].packets.len(),
    ensures
        s.packets.contains(run(s, arrivals).1[i].packets[j])
            || exists|n: int| 0 <= n < arrivals.len() && !(#[trigger] arrivals[n]).paused
            && arrivals[n].packet == Some(run(s, arrivals).1[i].packets[j]),
{
    let ws = run(s, arrivals).1;
    let q = ws[i].packets[j];
    lemma_run(s, arrivals);
    let idx = lemma_window_in_all(ws, i, j);
    let all = windows_packets(ws) + run(s, arrivals).0.packets;
    assert(all[idx] == q);
    assert(all.len() == (s.packets + forwarded(arrivals)).len());
    if idx < s.packets.len() {
        assert((s.packets + forwarded(arrivals))[idx] == s.packets[idx]);
    } else {
        assert((s.packets + forwarded(arrivals))[idx] == forwarded(arrivals)[idx - s.packets.len()]);
        lemma_forwarded_source(arrivals, idx - s.packets.len());
    }
}

/// Where a packet of one window stands among the packets of all windows.
proof fn lemma_window_in_all(ws: Seq<WindowView>, i: int, j: int) -> (idx: int)
    requires
        0 <= i < ws.len(),
        0 <= j < ws[i].packets.len(),
    ensures
        0 <= idx < windows_packets(ws).len(),
        windows_packets(ws)[idx] == ws[i].packets[j],
    decreases ws.len(),
{
    let rest = ws.drop_last();
    if i == ws.len() - 1 {
        windows_packets(rest).len() + j
    } else {
        let k = lemma_window_in_all(rest, i, j);
        assert(rest[i] == ws[i]);
        k
    }
}

/// Each packet of `forwarded` comes from an arrival pulled while not paused.
proof fn lemma_forwarded_source(arrivals: Seq<Arrival>, k: int)
    ensures
        0 <= k < forwarded(arrivals).len() ==> exists|n: int|
            0 <= n < arrivals.len() && !(#[trigger] arrivals[n]).paused && arrivals[n].packet == Some(
                forwarded(arrivals)[k],
            ),
    decreases arrivals.len(),
{
    if arrivals.len() > 0 && 0 <= k < forwarded(arrivals).len() {
        let rest = arrivals.drop_last();
        if k < forwarded(rest).len() {
            lemma_forwarded_source(rest, k);
            let n = choose|n: int| 0 <= n < rest.len() && !(#[trigger] rest[n]).paused && rest[n].packet == Some(
                forwarded(rest)[k],
            );
            assert(arrivals[n] == rest[n]);
        } else {
            assert(arrivals[arrivals.len() - 1] == arrivals.last());
        }
    }
}

/// The arrivals that reach aggregation from two runs, one after the other.
proof fn lemma_forwarded_concat(x: Seq<Arrival>, y: Seq<Arrival>)
    ensures
        forwarded(x + y) == forwarded(x) + forwarded(y),
    decreases y.len(),
{
    if y.len() == 0 {
        assert(x + y =~= x);
        assert(forwarded(x) + forwarded(y) =~= forwarded(x));
    } else {
        lemma_forwarded_concat(x, y.drop_last());
        assert((x + y).drop_last() =~= x + y.drop_last());
        assert((x + y).last() == y.last());
        if reaches_aggregation(y.last()) {
            assert(forwarded(x) + forwarded(y.drop_last()).push(y.last().packet->0) =~= (forwarded(x) + forwarded(
                y.drop_last(),
            )).push(y.last().packet->0));
        }
    }
}

/// Nothing pulled while paused reaches aggregation.
proof fn lemma_forwarded_paused(q: Seq<Arrival>)
    requires
        forall|i: int| 0 <= i < q.len() ==> (#[trigger] q[i]).paused,
    ensures
        forwarded(q) == Seq::<Packet>::empty(),
    decreases q.len(),
{
    if q.len() > 0 {
        assert(q.last() == q[q.len() - 1]);
        assert forall|i: int| 0 <= i < q.drop_last().len() implies (#[trigger] q.drop_last()[i]).paused by {
            assert(q.drop_last()[i] == q[i]);
        }
        lemma_forwarded_paused(q.drop_last());
    }
}

/// Pausing, then resuming: of arrivals before the pause, during it and
/// after the resume, the windows and the window being collected hold the
/// packets of those before and those after, in order, and none pulled
/// while paused.
pub proof fn lemma_pause_then_resume(s: AggregatorView, before: Seq<Arrival>, paused: Seq<Arrival>, after: Seq<Arrival>)
    requires
        forall|i: int| 0 <= i < paused.len() ==> (#[trigger] paused[i]).paused,
    ensures
        windows_packets(run(s, before + paused + after).1) + run(s, before + paused + after).0.packets == s.packets
            + forwarded(before) + forwarded(after),
{
    lemma_run(s, before + paused + after);
    lemma_forwarded_concat(before + paused, after);
    lemma_forwarded_concat(before, paused);
    lemma_forwarded_paused(paused);
    assert(forwarded(before) + Seq::<Packet>::empty() =~= forwarded(before));
    assert(s.packets + (forwarded(before) + forwarded(after)) =~= s.packets + forwarded(before) + forwarded(after));
}

} // verus!
