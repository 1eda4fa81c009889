use vstd::prelude::*;
use crate::codec::{encode, wire};
use crate::constants::{
    KcpProbeFlags, IKCP_CMD_ACK, IKCP_CMD_PUSH, IKCP_CMD_WASK, IKCP_CMD_WINS, IKCP_PROBE_INIT,
    IKCP_PROBE_LIMIT, IKCP_RTO_MAX, IKCP_THRESH_MIN,
};
use crate::kcp::{KcpCallBack, KcpControl};
use crate::rtt::{capped, time_diff, time_diff_spec};
use crate::segment::{all_wf, segs, sn_within, sorted_sn, Segment, SegmentView};

verus! {

/// The datagrams of a list, as byte sequences.
pub open spec fn datagrams(out: Seq<Vec<u8>>) -> Seq<Seq<u8>> {
    out.map_values(|v: Vec<u8>| v@)
}

/// A segment without payload, as acknowledgements, window probes and
/// window reports are.
pub open spec fn control_view(conv: u32, cmd: u32, wnd: u32, una: u32, sn: u32, ts: u32) -> SegmentView {
    SegmentView {
        conv,
        cmd,
        frg: 0,
        wnd,
        ts,
        sn,
        una,
        len: 0,
        resendts: 0,
        rto: 0,
        fastack: 0,
        xmit: 0,
        data: Seq::empty(),
    }
}

/// The acknowledgements for a list of pending records, one datagram per
/// record, each with the sequence number and the timestamp of its record.
pub open spec fn ack_wires(acklist: Seq<u32>, conv: u32, wnd: u32, una: u32) -> Seq<Seq<u8>> {
    Seq::new(
        acklist.len() / 2,
        |i: int| wire(control_view(conv, IKCP_CMD_ACK, wnd, una, acklist[2 * i], acklist[2 * i + 1])),
    )
}

/// The time `delay` after `now` on the 32-bit clock, which wraps around.
pub open spec fn clock_add(now: u32, delay: u32) -> u32 {
    ((now + delay) % 0x1_0000_0000) as u32
}

/// The wait before the next window probe, the time of that probe, and
/// whether a probe is due now. While the remote window is closed the wait
/// starts at `IKCP_PROBE_INIT` and doubles with every probe, up to
/// `IKCP_PROBE_LIMIT`; once the window is open both are reset.
pub open spec fn probe_plan(rmt_wnd: u32, probe_wait: u32, ts_probe: u32, current: u32) -> (u32, u32, bool) {
    if rmt_wnd != 0 {
        (0, 0, false)
    } else if probe_wait == 0 {
        (IKCP_PROBE_INIT, clock_add(current, IKCP_PROBE_INIT), false)
    } else if time_diff_spec(current, ts_probe) >= 0 {
        let base = if probe_wait < IKCP_PROBE_INIT {
            IKCP_PROBE_INIT
        } else {
            probe_wait
        };
        let wait = if 2 * base > IKCP_PROBE_LIMIT {
            IKCP_PROBE_LIMIT
        } else {
            (2 * base) as u32
        };
        (wait, clock_add(current, wait), true)
    } else {
        (probe_wait, ts_probe, false)
    }
}

/// The window probe and the window report that the probe flags ask for.
pub open spec fn probe_wires(bits: u32, conv: u32, wnd: u32, una: u32) -> Seq<Seq<u8>> {
    let ask = if bits & KcpProbeFlags::ASK_SEND == KcpProbeFlags::ASK_SEND {
        seq![wire(control_view(conv, IKCP_CMD_WASK, wnd, una, 0, 0))]
    } else {
        Seq::empty()
    };
    let tell = if bits & KcpProbeFlags::ASK_TELL == KcpProbeFlags::ASK_TELL {
        seq![wire(control_view(conv, IKCP_CMD_WINS, wnd, una, 0, 0))]
    } else {
        Seq::empty()
    };
    ask + tell
}

/// How many segments move from the send queue to the send buffer: as many
/// as are queued, as the window `limit` leaves room for beyond what is in
/// flight, and as there are sequence numbers left.
pub open spec fn fill_count(queued: nat, snd_una: u32, snd_nxt: u32, limit: u32) -> nat {
    let top = if snd_una + limit > u32::MAX {
        u32::MAX as int
    } else {
        snd_una + limit
    };
    let room = if top > snd_nxt {
        (top - snd_nxt) as nat
    } else {
        0
    };
    if queued < room {
        queued
    } else {
        room
    }
}

/// A queued segment as it enters the send buffer: a data segment of this
/// conversation with its sequence number, not yet transmitted.
pub open spec fn stamped(
    s: SegmentView,
    conv: u32,
    wnd: u32,
    current: u32,
    sn: u32,
    una: u32,
    rto: u32,
) -> SegmentView {
    SegmentView {
        conv,
        cmd: IKCP_CMD_PUSH,
        wnd,
        ts: current,
        sn,
        una,
        resendts: current,
        rto,
        fastack: 0,
        xmit: 0,
        ..s
    }
}

/// What a flush does with a segment in flight.
#[derive(Debug, Clone, Copy, PartialEq, Eq, Structural)]
pub enum Resend {
    /// Nothing: the segment waits.
    Keep,
    /// The segment is transmitted for the first time.
    First,
    /// The retransmission timeout of the segment has passed.
    Timeout,
    /// Enough later segments were acknowledged before this one.
    Fast,
}

/// What a flush needs to know of the control block to treat the segments in
/// flight.
pub struct Tick {
    pub current: u32,
    pub rx_rto: u32,
    pub nodelay: u32,
    pub fastresend: i32,
    pub fastlimit: u32,
    pub wnd: u32,
    pub una: u32,
    pub dead_link: u32,
}

/// What a flush does with the segment `s` in flight.
pub open spec fn resend_kind(s: SegmentView, t: Tick) -> Resend {
    if s.xmit == 0 {
        Resend::First
    } else if time_diff_spec(t.current, s.resendts) >= 0 {
        Resend::Timeout
    } else if t.fastresend > 0 && s.fastack >= t.fastresend && (s.xmit <= t.fastlimit
        || t.fastlimit == 0) {
        Resend::Fast
    } else {
        Resend::Keep
    }
}

/// The timeout of a segment after it timed out: doubled, or one and a half
/// times as long in no-delay mode, and at most `IKCP_RTO_MAX`.
pub open spec fn backed_off(rto: u32, nodelay: u32) -> u32 {
    let r = if nodelay == 0 {
        2 * rto
    } else {
        rto + rto / 2
    };
    if r > IKCP_RTO_MAX {
        IKCP_RTO_MAX
    } else {
        r as u32
    }
}

/// One more transmission, counted up to `u32::MAX`.
pub open spec fn one_more(xmit: u32) -> u32 {
    if xmit < u32::MAX {
        (xmit + 1) as u32
    } else {
        xmit
    }
}

/// The segment `s` after a flush treated it: a segment that is transmitted
/// carries the current time, window and cumulative acknowledgement, counts
/// one more transmission and has its next retransmission one timeout ahead.
pub open spec fn resent(s: SegmentView, t: Tick) -> SegmentView {
    match resend_kind(s, t) {
        Resend::Keep => s,
        Resend::First => SegmentView {
            xmit: 1,
            rto: t.rx_rto,
            resendts: clock_add(t.current, t.rx_rto),
            ts: t.current,
            wnd: t.wnd,
            una: t.una,
            ..s
        },
        Resend::Timeout => SegmentView {
            xmit: one_more(s.xmit),
            rto: backed_off(s.rto, t.nodelay),
            resendts: clock_add(t.current, backed_off(s.rto, t.nodelay)),
            ts: t.current,
            wnd: t.wnd,
            una: t.una,
            ..s
        },
        Resend::Fast => SegmentView {
            xmit: one_more(s.xmit),
            fastack: 0,
            resendts: clock_add(t.current, s.rto),
            ts: t.current,
            wnd: t.wnd,
            una: t.una,
            ..s
        },
    }
}

/// The send buffer after a flush treated each of its segments.
pub open spec fn resent_all(b: Seq<SegmentView>, t: Tick) -> Seq<SegmentView> {
    Seq::new(b.len(), |i: int| resent(b[i], t))
}

/// The datagrams of the segments that a flush transmits, in the order of
/// the send buffer.
pub open spec fn data_wires(b: Seq<SegmentView>, t: Tick) -> Seq<Seq<u8>>
    decreases b.len(),
{
    if b.len() == 0 {
        Seq::empty()
    } else if resend_kind(b.last(), t) == Resend::Keep {
        data_wires(b.drop_last(), t)
    } else {
        data_wires(b.drop_last(), t).push(wire(resent(b.last(), t)))
    }
}

/// How many segments of the send buffer a flush treats in the given way.
pub open spec fn count_kind(b: Seq<SegmentView>, t: Tick, kind: Resend) -> nat
    decreases b.len(),
{
    if b.len() == 0 {
        0
    } else if resend_kind(b.last(), t) == kind {
        count_kind(b.drop_last(), t, kind) + 1
    } else {
        count_kind(b.drop_last(), t, kind)
    }
}

/// Whether a segment that a flush transmits has reached the number of
/// transmissions at which the link counts as dead.
pub open spec fn any_dead(b: Seq<SegmentView>, t: Tick) -> bool {
    exists|i: int|
        0 <= i < b.len() && resend_kind(#[trigger] b[i], t) != Resend::Keep && resent(b[i], t).xmit
            >= t.dead_link
}

/// The congestion window, the slow-start threshold and the byte count of
/// the window after a flush. A fast retransmission halves the window; a
/// timeout halves the threshold, down to `IKCP_THRESH_MIN` at least, and
/// takes the window back to one segment; the window is never below one.
pub open spec fn cwnd_after(cwnd: u32, ssthresh: u32, incr: u32, mss: u32, lost: bool, fast: bool) -> (
    u32,
    u32,
    u32,
) {
    let c1 = if fast {
        cwnd / 2
    } else {
        cwnd
    };
    let i1 = if fast {
        capped((cwnd / 2) * mss)
    } else {
        incr
    };
    let half = if ssthresh / 2 < IKCP_THRESH_MIN {
        IKCP_THRESH_MIN
    } else {
        ssthresh / 2
    };
    let c2 = if lost {
        1
    } else {
        c1
    };
    let s2 = if lost {
        half
    } else {
        ssthresh
    };
    let i2 = if lost {
        mss
    } else {
        i1
    };
    if c2 < 1 {
        (1, s2, mss)
    } else {
        (c2, s2, i2)
    }
}

/// Treats one segment in flight as a flush does, and says how.
pub fn resend(seg: &mut Segment, t: &Tick) -> (kind: Resend)
    ensures
        kind == resend_kind(old(seg)@, *t),
        final(seg)@ == resent(old(seg)@, *t),
{
    let kind = if seg.xmit == 0 {
        seg.xmit = 1;
        seg.rto = t.rx_rto;
        seg.resendts = t.current.wrapping_add(t.rx_rto);
        Resend::First
    } else if time_diff(t.current, seg.resendts) >= 0 {
        if seg.xmit < u32::MAX {
            seg.xmit = seg.xmit + 1;
        }
        let r: u64 = if t.nodelay == 0 {
            2 * (seg.rto as u64)
        } else {
            seg.rto as u64 + (seg.rto / 2) as u64
        };
        seg.rto = if r > IKCP_RTO_MAX as u64 {
            IKCP_RTO_MAX
        } else {
            r as u32
        };
        seg.resendts = t.current.wrapping_add(seg.rto);
        Resend::Timeout
    } else if t.fastresend > 0 && seg.fastack as u64 >= t.fastresend as u64 && (seg.xmit
        <= t.fastlimit || t.fastlimit == 0) {
        if seg.xmit < u32::MAX {
            seg.xmit = seg.xmit + 1;
        }
        seg.fastack = 0;
        seg.resendts = t.current.wrapping_add(seg.rto);
        Resend::Fast
    } else {
        return Resend::Keep;
    };
    seg.ts = t.current;
    seg.wnd = t.wnd;
    seg.una = t.una;
    kind
}

/// Transmitting segments changes neither order, bounds nor payloads.
pub proof fn lemma_resent_keeps(b: Seq<SegmentView>, t: Tick, lo: u32, hi: u32)
    ensures
        sorted_sn(b) ==> sorted_sn(resent_all(b, t)),
        all_wf(b) ==> all_wf(resent_all(b, t)),
        sn_within(b, lo, hi) ==> sn_within(resent_all(b, t), lo, hi),
{
    let r = resent_all(b, t);
    assert forall|i: int| 0 <= i < r.len() implies (#[trigger] r[i]).sn == b[i].sn && r[i].len
        == b[i].len && r[i].data == b[i].data by {}
    if sorted_sn(b) {
        assert forall|i: int, j: int| 0 <= i < j < r.len() implies (#[trigger] r[i]).sn < (
        #[trigger] r[j]).sn by {
            assert(b[i].sn < b[j].sn);
        }
    }
    if all_wf(b) {
        assert forall|i: int| 0 <= i < r.len() implies (#[trigger] r[i]).wf() by {
            assert(b[i].wf());
        }
    }
    if sn_within(b, lo, hi) {
        assert forall|i: int| 0 <= i < r.len() implies lo <= (#[trigger] r[i]).sn < hi by {
            assert(lo <= b[i].sn < hi);
        }
    }
}

/// An ordered run of `n` segments within `lo..hi` fits in that range.
pub proof fn lemma_sorted_fits(q: Seq<SegmentView>, lo: u32, hi: u32)
    requires
        sorted_sn(q),
        sn_within(q, lo, hi),
        lo <= hi,
    ensures
        q.len() <= hi - lo,
    decreases q.len(),
{
    if q.len() > 0 {
        let r = q.drop_last();
        let top = q.last().sn;
        assert forall|i: int, j: int| 0 <= i < j < r.len() implies (#[trigger] r[i]).sn < (
        #[trigger] r[j]).sn by {
            assert(r[i] == q[i] && r[j] == q[j]);
        }
        assert forall|i: int| 0 <= i < r.len() implies lo <= (#[trigger] r[i]).sn < top by {
            assert(r[i] == q[i]);
            assert(q[i].sn < q[q.len() - 1].sn);
        }
        assert(lo <= q[q.len() - 1].sn < hi);
        lemma_sorted_fits(r, lo, top);
    }
}

impl<U, C: KcpCallBack<U>> KcpControl<U, C> {
    /// The room left in the receive queue, which is the window advertised
    /// to the peer.
    pub open spec fn wnd_unused_spec(&self) -> u32 {
        if self.rcv_queue@.len() < self.recv_window {
            (self.recv_window - self.rcv_queue@.len()) as u32
        } else {
            0
        }
    }

    /// The room left in the receive queue.
    pub fn wnd_unused(&self) -> (r: u32)
        ensures
            r == self.wnd_unused_spec(),
    {
        let n = self.rcv_queue.len();
        if n < self.recv_window as usize {
            self.recv_window - n as u32
        } else {
            0
        }
    }

    /// The number of segments that may be in flight: the smaller of the
    /// send window and the remote window, and under congestion control of
    /// the congestion window too, which counts as one segment at least.
    pub open spec fn send_limit_spec(&self) -> u32 {
        let w = if self.send_window < self.rmt_wnd {
            self.send_window
        } else {
            self.rmt_wnd
        };
        let c = if self.cwnd < 1 {
            1
        } else {
            self.cwnd
        };
        if !self.nocwnd && c < w {
            c
        } else {
            w
        }
    }

    /// The number of segments that may be in flight.
    pub fn send_limit(&self) -> (r: u32)
        ensures
            r == self.send_limit_spec(),
    {
        let w = if self.send_window < self.rmt_wnd {
            self.send_window
        } else {
            self.rmt_wnd
        };
        let c = if self.cwnd < 1 {
            1
        } else {
            self.cwnd
        };
        if !self.nocwnd && c < w {
            c
        } else {
            w
        }
    }

    /// Encodes a segment, hands the datagram to the output sink if one is
    /// set, and appends it to `out`.
    fn emit(&self, out: &mut Vec<Vec<u8>>, seg: &Segment)
        ensures
            datagrams(final(out)@) == datagrams(old(out)@).push(wire(seg@)),
    {
        let bytes = encode(seg);
        match &self.callback {
            Some(callback) => {
                callback.output(bytes.as_slice(), self, self.sealed.user_data());
            },
            None => {},
        }
        out.push(bytes);
        assert(datagrams(out@) =~= datagrams(old(out)@).push(wire(seg@)));
    }

    /// A segment without payload, from this control block.
    fn control_segment(&self, cmd: u32, sn: u32, ts: u32) -> (seg: Segment)
        ensures
            seg@ == control_view(
                self.sealed.conv(),
                cmd,
                self.wnd_unused_spec(),
                self.rcv_nxt,
                sn,
                ts,
            ),
    {
        let seg = Segment {
            conv: self.sealed.conversation_id(),
            cmd,
            frg: 0,
            wnd: self.wnd_unused(),
            ts,
            sn,
            una: self.rcv_nxt,
            len: 0,
            resendts: 0,
            rto: 0,
            fastack: 0,
            xmit: 0,
            data: Vec::new(),
        };
        assert(seg@.data =~= Seq::<u8>::empty());
        seg
    }

    /// Emits one acknowledgement per pending record and forgets the records.
    pub fn flush_acks(&mut self, out: &mut Vec<Vec<u8>>)
        requires
            old(self).acklist@.len() % 2 == 0,
        ensures
            *final(self) == (KcpControl { acklist: final(self).acklist, ..*old(self) }),
            final(self).acklist@.len() == 0,
            datagrams(final(out)@) == datagrams(old(out)@) + ack_wires(
                old(self).acklist@,
                old(self).sealed.conv(),
                old(self).wnd_unused_spec(),
                old(self).rcv_nxt,
            ),
    {
        let len = self.acklist.len();
        let n = len / 2;
        let mut i: usize = 0;
        let ghost all = ack_wires(
            self.acklist@,
            self.sealed.conv(),
            self.wnd_unused_spec(),
            self.rcv_nxt,
        );
        assert(datagrams(out@) =~= datagrams(old(out)@) + all.take(0));
        while i < n
            invariant
                i <= n,
                len == self.acklist@.len(),
                2 * n == len,
                self.acklist@.len() % 2 == 0,
                *self == *old(self),
                all == ack_wires(
                    self.acklist@,
                    self.sealed.conv(),
                    self.wnd_unused_spec(),
                    self.rcv_nxt,
                ),
                datagrams(out@) == datagrams(old(out)@) + all.take(i as int),
            decreases n - i,
        {
            let seg = self.control_segment(IKCP_CMD_ACK, self.acklist[2 * i], self.acklist[2 * i + 1]);
            self.emit(out, &seg);
            assert(all.take(i + 1) =~= all.take(i as int).push(all[i as int]));
            assert(datagrams(out@) =~= datagrams(old(out)@) + all.take(i + 1));
            i = i + 1;
        }
        assert(all.take(n as int) =~= all);
        self.acklist.clear();
    }

    /// Decides whether the closed remote window has to be probed, and when
    /// next.
    pub fn probe_window(&mut self)
        ensures
            *final(self) == (KcpControl {
                probe_wait: probe_plan(
                    old(self).rmt_wnd,
                    old(self).probe_wait,
                    old(self).ts_probe,
                    old(self).current,
                ).0,
                ts_probe: probe_plan(
                    old(self).rmt_wnd,
                    old(self).probe_wait,
                    old(self).ts_probe,
                    old(self).current,
                ).1,
                probe: final(self).probe,
                ..*old(self)
            }),
            final(self).probe.bits == if probe_plan(
                old(self).rmt_wnd,
                old(self).probe_wait,
                old(self).ts_probe,
                old(self).current,
            ).2 {
                old(self).probe.bits | KcpProbeFlags::ASK_SEND
            } else {
                old(self).probe.bits
            },
    {
        if self.rmt_wnd != 0 {
            self.ts_probe = 0;
            self.probe_wait = 0;
        } else if self.probe_wait == 0 {
            self.probe_wait = IKCP_PROBE_INIT;
            self.ts_probe = self.current.wrapping_add(self.probe_wait);
        } else if time_diff(self.current, self.ts_probe) >= 0 {
            let base: u64 = if self.probe_wait < IKCP_PROBE_INIT {
                IKCP_PROBE_INIT as u64
            } else {
                self.probe_wait as u64
            };
            self.probe_wait = if 2 * base > IKCP_PROBE_LIMIT as u64 {
                IKCP_PROBE_LIMIT
            } else {
                (2 * base) as u32
            };
            self.ts_probe = self.current.wrapping_add(self.probe_wait);
            self.probe.insert(KcpProbeFlags::ASK_SEND);
        }
    }

    /// Emits the window probe and the window report that are pending and
    /// clears the probe flags.
    pub fn flush_probes(&mut self, out: &mut Vec<Vec<u8>>)
        ensures
            *final(self) == (KcpControl { probe: KcpProbeFlags { bits: 0 }, ..*old(self) }),
            datagrams(final(out)@) == datagrams(old(out)@) + probe_wires(
                old(self).probe.bits,
                old(self).sealed.conv(),
                old(self).wnd_unused_spec(),
                old(self).rcv_nxt,
            ),
    {
        if self.probe.contains(KcpProbeFlags::ASK_SEND) {
            let seg = self.control_segment(IKCP_CMD_WASK, 0, 0);
            self.emit(out, &seg);
        }
        if self.probe.contains(KcpProbeFlags::ASK_TELL) {
            let seg = self.control_segment(IKCP_CMD_WINS, 0, 0);
            self.emit(out, &seg);
        }
        self.probe.clear();
        assert(datagrams(out@) =~= datagrams(old(out)@) + probe_wires(
            old(self).probe.bits,
            old(self).sealed.conv(),
            old(self).wnd_unused_spec(),
            old(self).rcv_nxt,
        ));
    }

    /// The send buffer after segments moved in from the send queue.
    pub open spec fn filled_buf(&self) -> Seq<SegmentView> {
        let k = fill_count(
            self.snd_queue@.len(),
            self.snd_una,
            self.snd_nxt,
            self.send_limit_spec(),
        );
        segs(self.snd_buf@) + Seq::new(
            k,
            |i: int|
                stamped(
                    segs(self.snd_queue@)[i],
                    self.sealed.conv(),
                    self.wnd_unused_spec(),
                    self.current,
                    (self.snd_nxt + i) as u32,
                    self.rcv_nxt,
                    self.rx_rto,
                ),
        )
    }

    /// Moves segments from the send queue to the send buffer while the
    /// window has room, and gives each the next sequence number.
    pub fn fill_send_buffer(&mut self) -> (k: usize)
        requires
            old(self).wf(),
        ensures
            final(self).wf(),
            *final(self) == (KcpControl {
                snd_queue: final(self).snd_queue,
                snd_buf: final(self).snd_buf,
                snd_nxt: final(self).snd_nxt,
                ..*old(self)
            }),
            k as nat == fill_count(
                old(self).snd_queue@.len(),
                old(self).snd_una,
                old(self).snd_nxt,
                old(self).send_limit_spec(),
            ),
            final(self).snd_queue@ == old(self).snd_queue@.skip(k as int),
            final(self).snd_nxt == old(self).snd_nxt + k,
            segs(final(self).snd_buf@) == old(self).filled_buf(),
    {
        let limit = self.send_limit();
        let wnd = self.wnd_unused();
        let top: u64 = if self.snd_una as u64 + limit as u64 > u32::MAX as u64 {
            u32::MAX as u64
        } else {
            self.snd_una as u64 + limit as u64
        };
        let ghost queue0 = old(self).snd_queue@;
        let ghost target = old(self).filled_buf();
        let ghost total = fill_count(queue0.len(), self.snd_una, self.snd_nxt, limit);
        let mut k: usize = 0;
        assert(queue0.skip(0) =~= queue0);
        assert(segs(self.snd_buf@) =~= target.take(old(self).snd_buf@.len() as int));
        while self.snd_queue.len() > 0 && (self.snd_nxt as u64) < top
            invariant
                self.wf(),
                *self == (KcpControl {
                    snd_queue: self.snd_queue,
                    snd_buf: self.snd_buf,
                    snd_nxt: self.snd_nxt,
                    ..*old(self)
                }),
                top <= u32::MAX,
                top == if old(self).snd_una + limit > u32::MAX {
                    u32::MAX as int
                } else {
                    old(self).snd_una + limit
                },
                limit == old(self).send_limit_spec(),
                wnd == old(self).wnd_unused_spec(),
                queue0 == old(self).snd_queue@,
                all_wf(segs(queue0)),
                target == old(self).filled_buf(),
                total == fill_count(queue0.len(), old(self).snd_una, old(self).snd_nxt, limit),
                k <= total,
                k <= queue0.len(),
                self.snd_queue@ == queue0.skip(k as int),
                self.snd_nxt == old(self).snd_nxt + k,
                segs(self.snd_buf@) == target.take(old(self).snd_buf@.len() + k),
                k < total <==> (queue0.len() - k > 0 && self.snd_nxt < top),
            decreases self.snd_queue@.len(),
        {
            let ghost buf_before = segs(self.snd_buf@);
            let mut seg = self.snd_queue.remove(0);
            assert(self.snd_queue@ =~= queue0.skip(k + 1));
            assert(seg@ == segs(queue0)[k as int]);
            seg.conv = self.sealed.conversation_id();
            seg.cmd = IKCP_CMD_PUSH;
            seg.wnd = wnd;
            seg.ts = self.current;
            seg.sn = self.snd_nxt;
            seg.una = self.rcv_nxt;
            seg.resendts = self.current;
            seg.rto = self.rx_rto;
            seg.fastack = 0;
            seg.xmit = 0;
            let ghost sv = seg@;
            assert(sv == target[old(self).snd_buf@.len() + k]);
            self.snd_buf.push(seg);
            self.snd_nxt = self.snd_nxt + 1;
            k = k + 1;
            proof {
                let b = segs(self.snd_buf@);
                assert(b =~= buf_before.push(sv));
                assert(b =~= target.take(old(self).snd_buf@.len() + k));
                assert(sv.wf()) by {
                    assert(segs(queue0)[k - 1].wf());
                }
                assert forall|i: int| 0 <= i < b.len() implies (#[trigger] b[i]).wf() by {
                    if i < buf_before.len() {
                        assert(b[i] == buf_before[i]);
                    }
                }
                assert forall|i: int| 0 <= i < b.len() implies self.snd_una <= (#[trigger] b[i]).sn
                    < self.snd_nxt by {
                    if i < buf_before.len() {
                        assert(b[i] == buf_before[i]);
                    }
                }
                assert forall|i: int, j: int| 0 <= i < j < b.len() implies (#[trigger] b[i]).sn < (
                #[trigger] b[j]).sn by {
                    assert(b[i] == buf_before[i]);
                    if j < buf_before.len() {
                        assert(b[j] == buf_before[j]);
                    }
                }
                let q = segs(self.snd_queue@);
                assert forall|i: int| 0 <= i < q.len() implies (#[trigger] q[i]).wf() by {
                    assert(q[i] == segs(queue0)[i + k]);
                }
            }
        }
        assert(target.take(old(self).snd_buf@.len() + k) =~= target);
        k
    }
    /// What a flush of this control block uses to treat the segments in flight.
    pub open spec fn tick_spec(&self) -> Tick {
        Tick {
            current: self.current,
            rx_rto: self.rx_rto,
            nodelay: self.nodelay,
            fastresend: self.fastresend,
            fastlimit: self.fastlimit,
            wnd: self.wnd_unused_spec(),
            una: self.rcv_nxt,
            dead_link: self.dead_link,
        }
    }

    /// Transmits the segments in flight that are new, timed out or skipped
    /// often enough, and says whether one timed out and whether one was
    /// retransmitted fast.
    pub fn flush_data(&mut self, out: &mut Vec<Vec<u8>>) -> (r: (bool, bool))
        requires
            old(self).wf(),
        ensures
            final(self).wf(),
            *final(self) == (KcpControl {
                snd_buf: final(self).snd_buf,
                xmit: final(self).xmit,
                state: final(self).state,
                ..*old(self)
            }),
            segs(final(self).snd_buf@) == resent_all(segs(old(self).snd_buf@), old(self).tick_spec()),
            datagrams(final(out)@) == datagrams(old(out)@) + data_wires(
                segs(old(self).snd_buf@),
                old(self).tick_spec(),
            ),
            r.0 == (count_kind(segs(old(self).snd_buf@), old(self).tick_spec(), Resend::Timeout) > 0),
            r.1 == (count_kind(segs(old(self).snd_buf@), old(self).tick_spec(), Resend::Fast) > 0),
            final(self).xmit == capped(
                old(self).xmit + count_kind(
                    segs(old(self).snd_buf@),
                    old(self).tick_spec(),
                    Resend::Timeout,
                ),
            ),
            final(self).state == if any_dead(segs(old(self).snd_buf@), old(self).tick_spec()) {
                u32::MAX
            } else {
                old(self).state
            },
    {
        let t = Tick {
            current: self.current,
            rx_rto: self.rx_rto,
            nodelay: self.nodelay,
            fastresend: self.fastresend,
            fastlimit: self.fastlimit,
            wnd: self.wnd_unused(),
            una: self.rcv_nxt,
            dead_link: self.dead_link,
        };
        let ghost b = segs(self.snd_buf@);
        let n = self.snd_buf.len();
        let mut i: usize = 0;
        let mut lost = false;
        let mut fast = false;
        let mut dead = false;
        let mut timeouts: usize = 0;
        assert(b.take(0) =~= Seq::<SegmentView>::empty());
        assert(datagrams(out@) =~= datagrams(old(out)@) + data_wires(b.take(0), t));
        while i < n
            invariant
                i <= n,
                n == self.snd_buf@.len(),
                n == b.len(),
                b == segs(old(self).snd_buf@),
                t == old(self).tick_spec(),
                *self == (KcpControl { snd_buf: self.snd_buf, ..*old(self) }),
                forall|j: int| 0 <= j < i ==> (#[trigger] self.snd_buf@[j])@ == resent(b[j], t),
                forall|j: int| i <= j < n ==> (#[trigger] self.snd_buf@[j])@ == b[j],
                datagrams(out@) == datagrams(old(out)@) + data_wires(b.take(i as int), t),
                timeouts as nat == count_kind(b.take(i as int), t, Resend::Timeout),
                timeouts <= i,
                lost == (count_kind(b.take(i as int), t, Resend::Timeout) > 0),
                fast == (count_kind(b.take(i as int), t, Resend::Fast) > 0),
                dead == any_dead(b.take(i as int), t),
            decreases n - i,
        {
            let kind = resend(&mut self.snd_buf[i], &t);
            proof {
                assert(b.take(i + 1).drop_last() =~= b.take(i as int));
                assert(b.take(i + 1).last() == b[i as int]);
            }
            let ghost was_dead = dead;
            match kind {
                Resend::Keep => {},
                Resend::First => {
                    self.emit(out, &self.snd_buf[i]);
                    if self.snd_buf[i].xmit >= t.dead_link {
                        dead = true;
                    }
                },
                Resend::Timeout => {
                    self.emit(out, &self.snd_buf[i]);
                    if self.snd_buf[i].xmit >= t.dead_link {
                        dead = true;
                    }
                    lost = true;
                    timeouts = timeouts + 1;
                },
                Resend::Fast => {
                    self.emit(out, &self.snd_buf[i]);
                    if self.snd_buf[i].xmit >= t.dead_link {
                        dead = true;
                    }
                    fast = true;
                },
            }
            proof {
                assert(datagrams(out@) =~= datagrams(old(out)@) + data_wires(b.take(i + 1), t));
                let now = b.take(i + 1);
                let prev = b.take(i as int);
                if any_dead(now, t) {
                    let w = choose|w: int|
                        0 <= w < now.len() && resend_kind(#[trigger] now[w], t) != Resend::Keep
                            && resent(now[w], t).xmit >= t.dead_link;
                    if w < i {
                        assert(prev[w] == now[w]);
                    }
                }
                if was_dead {
                    let w = choose|w: int|
                        0 <= w < prev.len() && resend_kind(#[trigger] prev[w], t) != Resend::Keep
                            && resent(prev[w], t).xmit >= t.dead_link;
                    assert(now[w] == prev[w]);
                }
                if dead && !was_dead {
                    assert(now[i as int] == b[i as int]);
                }
            }
            i = i + 1;
        }
        assert(b.take(n as int) =~= b);
        assert(segs(self.snd_buf@) =~= resent_all(b, t));
        proof {
            lemma_resent_keeps(b, t, self.snd_una, self.snd_nxt);
        }
        let total: u128 = self.xmit as u128 + timeouts as u128;
        self.xmit = if total > u32::MAX as u128 {
            u32::MAX
        } else {
            total as u32
        };
        if dead {
            self.state = u32::MAX;
        }
        (lost, fast)
    }

    /// Adjusts the congestion window after the segments in flight were
    /// treated.
    pub fn settle_cwnd(&mut self, lost: bool, fast: bool)
        ensures
            *final(self) == (KcpControl {
                cwnd: cwnd_after(
                    old(self).cwnd,
                    old(self).ssthresh,
                    old(self).incr,
                    old(self).mss,
                    lost,
                    fast,
                ).0,
                ssthresh: cwnd_after(
                    old(self).cwnd,
                    old(self).ssthresh,
                    old(self).incr,
                    old(self).mss,
                    lost,
                    fast,
                ).1,
                incr: cwnd_after(
                    old(self).cwnd,
                    old(self).ssthresh,
                    old(self).incr,
                    old(self).mss,
                    lost,
                    fast,
                ).2,
                ..*old(self)
            }),
            !lost && !fast ==> final(self).cwnd >= old(self).cwnd,
    {
        if fast {
            self.cwnd = self.cwnd / 2;
            let c: u64 = self.cwnd as u64;
            let m: u64 = self.mss as u64;
            assert(c * m <= 0xffff_ffff * 0xffff_ffff) by (nonlinear_arith)
                requires
                    c <= 0xffff_ffff,
                    m <= 0xffff_ffff,
            ;
            let bytes: u64 = c * m;
            self.incr = if bytes > u32::MAX as u64 {
                u32::MAX
            } else {
                bytes as u32
            };
        }
        if lost {
            self.ssthresh = if self.ssthresh / 2 < IKCP_THRESH_MIN {
                IKCP_THRESH_MIN
            } else {
                self.ssthresh / 2
            };
            self.cwnd = 1;
            self.incr = self.mss;
        }
        if self.cwnd < 1 {
            self.cwnd = 1;
            self.incr = self.mss;
        }
    }

    /// The state and the datagrams after a flush of `prev`.
    pub open spec fn flushed(&self, prev: &Self, out: Seq<Seq<u8>>) -> bool {
        let wnd = prev.wnd_unused_spec();
        let plan = probe_plan(prev.rmt_wnd, prev.probe_wait, prev.ts_probe, prev.current);
        let bits = if plan.2 {
            prev.probe.bits | KcpProbeFlags::ASK_SEND
        } else {
            prev.probe.bits
        };
        let k = fill_count(
            prev.snd_queue@.len(),
            prev.snd_una,
            prev.snd_nxt,
            prev.send_limit_spec(),
        );
        let b = prev.filled_buf();
        let t = prev.tick_spec();
        let lost = count_kind(b, t, Resend::Timeout) > 0;
        let fast = count_kind(b, t, Resend::Fast) > 0;
        let c = cwnd_after(prev.cwnd, prev.ssthresh, prev.incr, prev.mss, lost, fast);
        &&& *self == (KcpControl {
            acklist: self.acklist,
            probe_wait: plan.0,
            ts_probe: plan.1,
            probe: KcpProbeFlags { bits: 0 },
            snd_queue: self.snd_queue,
            snd_buf: self.snd_buf,
            snd_nxt: self.snd_nxt,
            xmit: capped(prev.xmit + count_kind(b, t, Resend::Timeout)),
            state: if any_dead(b, t) {
                u32::MAX
            } else {
                prev.state
            },
            cwnd: c.0,
            ssthresh: c.1,
            incr: c.2,
            ..*prev
        })
        &&& self.acklist@.len() == 0
        &&& self.snd_queue@ == prev.snd_queue@.skip(k as int)
        &&& self.snd_nxt == prev.snd_nxt + k
        &&& segs(self.snd_buf@) == resent_all(b, t)
        &&& out == ack_wires(prev.acklist@, prev.sealed.conv(), wnd, prev.rcv_nxt) + probe_wires(
            bits,
            prev.sealed.conv(),
            wnd,
            prev.rcv_nxt,
        ) + data_wires(b, t)
    }

    /// One flush: emits the pending acknowledgements, probes the remote
    /// window where it is closed, emits the pending window probe and window
    /// report, moves queued segments into the send buffer as far as the
    /// window allows, transmits what is new, timed out or skipped often
    /// enough, and adjusts the congestion window. Every datagram goes to
    /// the output sink, if one is set, and into the result, in the order
    /// of emission.
    ///
    /// What is in flight afterwards is no more than before or than the
    /// window allowed, whichever is larger; so where the window had not
    /// been overrun and has not shrunk in this flush, the send buffer holds
    /// no more segments than the window allows.
    pub fn flush(&mut self) -> (out: Vec<Vec<u8>>)
        requires
            old(self).wf(),
        ensures
            final(self).wf(),
            final(self).flushed(old(self), datagrams(out@)),
            final(self).snd_una == old(self).snd_una,
            final(self).rcv_nxt == old(self).rcv_nxt,
            final(self).cwnd >= 1,
            final(self).snd_buf@.len() <= final(self).snd_nxt - final(self).snd_una,
            final(self).snd_nxt - final(self).snd_una <= old(self).snd_nxt - old(self).snd_una
                || final(self).snd_nxt - final(self).snd_una <= old(self).send_limit_spec(),
            old(self).snd_nxt - old(self).snd_una <= old(self).send_limit_spec()
                && final(self).send_limit_spec() >= old(self).send_limit_spec()
                ==> final(self).snd_buf@.len() <= final(self).send_limit_spec(),
    {
        let mut out: Vec<Vec<u8>> = Vec::new();
        assert(datagrams(out@) =~= Seq::<Seq<u8>>::empty());
        self.flush_acks(&mut out);
        self.probe_window();
        self.flush_probes(&mut out);
        let _ = self.fill_send_buffer();
        let r = self.flush_data(&mut out);
        self.settle_cwnd(r.0, r.1);
        proof {
            lemma_sorted_fits(segs(self.snd_buf@), self.snd_una, self.snd_nxt);
        }
        out
    }

    /// Whether a tick at time `current` is due for a flush, and the time of
    /// the flush after it. The first tick flushes at once; a clock that
    /// jumped by ten seconds or more, either way, starts the schedule anew.
    pub open spec fn update_plan(&self, current: u32) -> (bool, u32) {
        let base = if self.updated == 0 {
            current
        } else {
            self.ts_flush
        };
        let slap = time_diff_spec(current, base);
        let start = if slap >= 10000 || slap < -10000 {
            current
        } else {
            base
        };
        if time_diff_spec(current, start) >= 0 {
            let next = clock_add(start, self.interval);
            (
                true,
                if time_diff_spec(current, next) >= 0 {
                    clock_add(current, self.interval)
                } else {
                    next
                },
            )
        } else {
            (false, start)
        }
    }

    /// The control block after the clock was set to `current` and the next
    /// flush was scheduled.
    pub open spec fn ticked(&self, current: u32) -> Self {
        KcpControl { current, updated: 1, ts_flush: self.update_plan(current).1, ..*self }
    }

    /// Sets the clock, schedules the next flush, and says whether a flush
    /// is due now.
    pub fn tick(&mut self, current: u32) -> (due: bool)
        ensures
            due == old(self).update_plan(current).0,
            *final(self) == old(self).ticked(current),
    {
        let base = if self.updated == 0 {
            current
        } else {
            self.ts_flush
        };
        let slap = time_diff(current, base);
        let start = if slap >= 10000 || slap < -10000 {
            current
        } else {
            base
        };
        let due = time_diff(current, start) >= 0;
        let mut next = start;
        if due {
            next = start.wrapping_add(self.interval);
            if time_diff(current, next) >= 0 {
                next = current.wrapping_add(self.interval);
            }
        }
        self.current = current;
        self.updated = 1;
        self.ts_flush = next;
        due
    }

    /// The tick of the clock: takes the time from the caller and flushes
    /// where a flush is due. Returns the datagrams of that flush.
    pub fn update(&mut self, current: u32) -> (out: Vec<Vec<u8>>)
        requires
            old(self).wf(),
        ensures
            final(self).wf(),
            final(self).snd_una == old(self).snd_una,
            final(self).rcv_nxt == old(self).rcv_nxt,
            if old(self).update_plan(current).0 {
                final(self).flushed(&old(self).ticked(current), datagrams(out@))
            } else {
                out@.len() == 0 && *final(self) == old(self).ticked(current)
            },
    {
        if self.tick(current) {
            self.flush()
        } else {
            Vec::new()
        }
    }
}

} // verus!
