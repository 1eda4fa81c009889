use vstd::prelude::*;
use crate::codec::{decode, decode_spec};
use crate::constants::{
    Command, KcpProbeFlags, IKCP_CMD_ACK, IKCP_CMD_PUSH, IKCP_CMD_WASK,
};
use crate::kcp::{KcpCallBack, KcpControl};
use crate::recv::admit_count;
use crate::rtt::{
    cwnd_grown, grow_cwnd, rto_of, rtt_sample, rttval_next, srtt_next, time_diff, time_diff_spec,
};
use crate::segment::{
    all_wf, count_below, drop_front, holds_sn, lemma_count_below, lemma_insert_keeps,
    lemma_join_wf, lemma_remove_keeps, lemma_segs_parts, lemma_skip_keeps, lower_bound, segs,
    sn_within, sorted_sn, Segment, SegmentView,
};

verus! {

/// The sequence number at the head of a send buffer, or `nxt` where the
/// buffer is empty.
pub open spec fn head_sn(buf: Seq<SegmentView>, nxt: u32) -> u32 {
    if buf.len() > 0 {
        buf[0].sn
    } else {
        nxt
    }
}

/// A segment after an acknowledgement of `sn` arrived: where its own
/// sequence number is lower, it was skipped once more.
pub open spec fn bump(s: SegmentView, sn: u32) -> SegmentView {
    if s.sn < sn && s.fastack < u32::MAX {
        SegmentView { fastack: (s.fastack + 1) as u32, ..s }
    } else {
        s
    }
}

/// A send buffer after an acknowledgement of `sn` arrived.
pub open spec fn bumped(buf: Seq<SegmentView>, sn: u32) -> Seq<SegmentView> {
    Seq::new(buf.len(), |i: int| bump(buf[i], sn))
}

/// Counting skips changes neither order, bounds nor payloads.
pub proof fn lemma_bumped_keeps(buf: Seq<SegmentView>, sn: u32, lo: u32, hi: u32)
    ensures
        sorted_sn(buf) ==> sorted_sn(bumped(buf, sn)),
        all_wf(buf) ==> all_wf(bumped(buf, sn)),
        sn_within(buf, lo, hi) ==> sn_within(bumped(buf, sn), lo, hi),
        head_sn(bumped(buf, sn), hi) == head_sn(buf, hi),
{
    let r = bumped(buf, sn);
    assert forall|i: int| 0 <= i < r.len() implies (#[trigger] r[i]).sn == buf[i].sn && r[i].len
        == buf[i].len && r[i].data == buf[i].data by {}
    if sorted_sn(buf) {
        assert forall|i: int, j: int| 0 <= i < j < r.len() implies (#[trigger] r[i]).sn < (
        #[trigger] r[j]).sn by {
            assert(buf[i].sn < buf[j].sn);
        }
    }
    if all_wf(buf) {
        assert forall|i: int| 0 <= i < r.len() implies (#[trigger] r[i]).wf() by {
            assert(buf[i].wf());
        }
    }
    if sn_within(buf, lo, hi) {
        assert forall|i: int| 0 <= i < r.len() implies lo <= (#[trigger] r[i]).sn < hi by {
            assert(lo <= buf[i].sn < hi);
        }
    }
}

/// The segments that move from the receive buffer to the receive queue
/// carry consecutive sequence numbers, starting at the expected one.
pub proof fn lemma_admit_run(queue_len: nat, buf: Seq<SegmentView>, nxt: u32, wnd: nat)
    ensures
        admit_count(queue_len, buf, nxt, wnd) <= buf.len(),
        nxt + admit_count(queue_len, buf, nxt, wnd) <= u32::MAX,
        forall|j: int|
            0 <= j < admit_count(queue_len, buf, nxt, wnd) ==> (#[trigger] buf[j]).sn == nxt + j,
    decreases buf.len(),
{
    if buf.len() > 0 && queue_len < wnd && buf[0].sn == nxt && nxt < u32::MAX {
        let r = buf.skip(1);
        lemma_admit_run(queue_len + 1, r, (nxt + 1) as u32, wnd);
        let m = admit_count(queue_len, buf, nxt, wnd);
        assert forall|j: int| 0 <= j < m implies (#[trigger] buf[j]).sn == nxt + j by {
            if j > 0 {
                assert(buf[j] == r[j - 1]);
            }
        }
    }
}

impl<U, C: KcpCallBack<U>> KcpControl<U, C> {
    /// Drops from the send buffer every segment below the cumulative
    /// acknowledgement `una`.
    pub fn parse_una(&mut self, una: u32)
        requires
            old(self).wf(),
        ensures
            final(self).wf(),
            *final(self) == (KcpControl { snd_buf: final(self).snd_buf, ..*old(self) }),
            final(self).snd_buf@ == old(self).snd_buf@.skip(
                count_below(segs(old(self).snd_buf@), una) as int,
            ),
    {
        let k = lower_bound(&self.snd_buf, una);
        drop_front(&mut self.snd_buf, k);
        proof {
            lemma_segs_parts(old(self).snd_buf@, old(self).snd_buf@, k as int);
            lemma_skip_keeps(segs(old(self).snd_buf@), k as int, self.snd_una, self.snd_nxt);
        }
    }

    /// Moves the oldest unacknowledged sequence number to the head of the
    /// send buffer, or to the next unassigned one where nothing is in flight.
    pub fn shrink_buf(&mut self)
        requires
            old(self).wf(),
        ensures
            final(self).wf(),
            *final(self) == (KcpControl {
                snd_una: head_sn(segs(old(self).snd_buf@), old(self).snd_nxt),
                ..*old(self)
            }),
            final(self).snd_una >= old(self).snd_una,
    {
        let ghost b = segs(self.snd_buf@);
        if self.snd_buf.len() > 0 {
            assert(b[0] == self.snd_buf@[0]@);
            self.snd_una = self.snd_buf[0].sn;
            assert forall|i: int| 0 <= i < b.len() implies self.snd_una <= (#[trigger] b[i]).sn
                < self.snd_nxt by {
                if i > 0 {
                    assert(b[0].sn < b[i].sn);
                }
            }
        } else {
            self.snd_una = self.snd_nxt;
        }
    }

    /// Takes the segment with sequence number `sn` out of the send buffer,
    /// and says whether it was there.
    pub fn parse_ack(&mut self, sn: u32) -> (found: bool)
        requires
            old(self).wf(),
        ensures
            final(self).wf(),
            found == holds_sn(segs(old(self).snd_buf@), sn),
            *final(self) == (KcpControl { snd_buf: final(self).snd_buf, ..*old(self) }),
            found ==> count_below(segs(old(self).snd_buf@), sn) < old(self).snd_buf@.len()
                && final(self).snd_buf@ == old(self).snd_buf@.remove(
                count_below(segs(old(self).snd_buf@), sn) as int,
            ),
            !found ==> final(self).snd_buf@ == old(self).snd_buf@,
    {
        let ghost b = segs(self.snd_buf@);
        proof {
            lemma_count_below(b, sn);
        }
        if sn < self.snd_una || sn >= self.snd_nxt {
            return false;
        }
        let i = lower_bound(&self.snd_buf, sn);
        if i < self.snd_buf.len() && self.snd_buf[i].sn == sn {
            assert(b[i as int] == self.snd_buf@[i as int]@);
            let _ = self.snd_buf.remove(i);
            proof {
                assert(segs(self.snd_buf@) =~= b.remove(i as int));
                lemma_remove_keeps(b, i as int, self.snd_una, self.snd_nxt);
            }
            true
        } else {
            if i < self.snd_buf.len() {
                assert(b[i as int] == self.snd_buf@[i as int]@);
            }
            false
        }
    }

    /// Counts, for every segment in flight below `sn`, that a later segment
    /// was acknowledged before it.
    pub fn parse_fastack(&mut self, sn: u32)
        requires
            old(self).wf(),
        ensures
            final(self).wf(),
            *final(self) == (KcpControl { snd_buf: final(self).snd_buf, ..*old(self) }),
            segs(final(self).snd_buf@) == bumped(segs(old(self).snd_buf@), sn),
    {
        let ghost b = segs(self.snd_buf@);
        let n = self.snd_buf.len();
        let mut i: usize = 0;
        while i < n
            invariant
                i <= n,
                n == self.snd_buf@.len(),
                n == b.len(),
                b == segs(old(self).snd_buf@),
                *self == (KcpControl { snd_buf: self.snd_buf, ..*old(self) }),
                forall|j: int| 0 <= j < i ==> (#[trigger] self.snd_buf@[j])@ == bump(b[j], sn),
                forall|j: int| i <= j < n ==> (#[trigger] self.snd_buf@[j])@ == b[j],
            decreases n - i,
        {
            let seg = &mut self.snd_buf[i];
            if seg.sn < sn && seg.fastack < u32::MAX {
                seg.fastack = seg.fastack + 1;
            }
            i = i + 1;
        }
        assert(segs(self.snd_buf@) =~= bumped(b, sn));
        proof {
            lemma_bumped_keeps(b, sn, self.snd_una, self.snd_nxt);
        }
    }

    /// Feeds a round-trip sample into the estimates and the timeout.
    pub fn update_ack(&mut self, rtt: i32)
        requires
            old(self).wf(),
            rtt >= 0,
        ensures
            final(self).wf(),
            *final(self) == (KcpControl {
                rx_srtt: final(self).rx_srtt,
                rx_rttval: final(self).rx_rttval,
                rx_rto: final(self).rx_rto,
                ..*old(self)
            }),
            final(self).rx_srtt == srtt_next(old(self).rx_srtt as int, rtt as int),
            final(self).rx_rttval == rttval_next(
                old(self).rx_srtt as int,
                old(self).rx_rttval as int,
                rtt as int,
            ),
            final(self).rx_rto == rto_of(
                final(self).rx_srtt as int,
                final(self).rx_rttval as int,
                old(self).interval,
                old(self).rx_minrto,
            ),
    {
        let r = rtt_sample(self.rx_srtt, self.rx_rttval, rtt, self.interval, self.rx_minrto);
        self.rx_srtt = r.0;
        self.rx_rttval = r.1;
        self.rx_rto = r.2;
    }

    /// Notes that the segment `sn`, stamped `ts` by its sender, has to be
    /// acknowledged with the next flush.
    pub fn ack_push(&mut self, sn: u32, ts: u32)
        ensures
            *final(self) == (KcpControl { acklist: final(self).acklist, ..*old(self) }),
            final(self).acklist@ == old(self).acklist@.push(sn).push(ts),
    {
        self.acklist.push(sn);
        self.acklist.push(ts);
    }

    /// Whether a data segment is taken into the receive buffer: its
    /// sequence number is expected or ahead, inside the receive window, and
    /// not buffered yet.
    pub open spec fn takes(&self, s: SegmentView) -> bool {
        &&& self.rcv_nxt <= s.sn
        &&& s.sn < self.rcv_nxt + self.recv_window
        &&& !holds_sn(segs(self.rcv_buf@), s.sn)
    }

    /// The state after `prev` took the data segment `seg`: the segment went
    /// into the receive buffer in the order of sequence numbers, and what
    /// was next in sequence moved on to the receive queue.
    pub open spec fn took(&self, prev: &Self, seg: Segment) -> bool {
        let held = prev.rcv_buf@.insert(count_below(segs(prev.rcv_buf@), seg.sn) as int, seg);
        let m = admit_count(
            prev.rcv_queue@.len(),
            segs(held),
            prev.rcv_nxt,
            prev.recv_window as nat,
        );
        &&& count_below(segs(prev.rcv_buf@), seg.sn) <= prev.rcv_buf@.len()
        &&& m <= held.len()
        &&& self.rcv_queue@ == prev.rcv_queue@ + held.take(m as int)
        &&& self.rcv_buf@ == held.skip(m as int)
        &&& self.rcv_nxt == prev.rcv_nxt + m
    }

    /// Takes a data segment into the receive buffer, unless it is behind the
    /// expected sequence number, beyond the receive window or buffered
    /// already, and then moves what is next in sequence to the receive queue.
    pub fn parse_data(&mut self, seg: Segment) -> (taken: bool)
        requires
            old(self).wf(),
            seg@.wf(),
        ensures
            final(self).wf(),
            taken == old(self).takes(seg@),
            !taken ==> *final(self) == *old(self),
            taken ==> final(self).took(old(self), seg),
            *final(self) == (KcpControl {
                rcv_queue: final(self).rcv_queue,
                rcv_buf: final(self).rcv_buf,
                rcv_nxt: final(self).rcv_nxt,
                ..*old(self)
            }),
            final(self).rcv_nxt >= old(self).rcv_nxt,
    {
        let sn = seg.sn;
        let ghost b = segs(self.rcv_buf@);
        proof {
            lemma_count_below(b, sn);
        }
        if sn < self.rcv_nxt || sn as u64 >= self.rcv_nxt as u64 + self.recv_window as u64 {
            return false;
        }
        let i = lower_bound(&self.rcv_buf, sn);
        if i < self.rcv_buf.len() {
            assert(b[i as int] == self.rcv_buf@[i as int]@);
            if self.rcv_buf[i].sn == sn {
                return false;
            }
        }
        self.rcv_buf.insert(i, seg);
        let ghost held = self.rcv_buf@;
        proof {
            assert(segs(held) =~= b.insert(i as int, seg@));
            lemma_insert_keeps(b, seg@);
        }
        let m = self.admit_in_order();
        proof {
            lemma_segs_parts(held, held, m as int);
            lemma_segs_parts(old(self).rcv_queue@, held.take(m as int), 0);
            lemma_skip_keeps(segs(held), m as int, 0, 0);
            lemma_join_wf(segs(old(self).rcv_queue@), segs(held).take(m as int));
        }
        true
    }

    /// Whether an inbound segment is for this control block: it carries the
    /// conversation id of the block and one of the four commands.
    pub open spec fn accepts(&self, s: SegmentView) -> bool {
        s.conv == self.sealed.conv() && Command::of_tag(s.cmd).is_some()
    }

    /// The send buffer after the inbound segment `s` was processed:
    /// everything below its cumulative acknowledgement is gone; where it is
    /// an acknowledgement, the segment it names is gone too and the
    /// segments below it were skipped once more.
    pub open spec fn snd_buf_after(buf: Seq<SegmentView>, s: SegmentView) -> Seq<SegmentView> {
        let b1 = buf.skip(count_below(buf, s.una) as int);
        if s.cmd == IKCP_CMD_ACK {
            let b2 = if holds_sn(b1, s.sn) {
                b1.remove(count_below(b1, s.sn) as int)
            } else {
                b1
            };
            bumped(b2, s.sn)
        } else {
            b1
        }
    }

    /// Whether the inbound segment `s` gives a round-trip sample: it
    /// acknowledges a segment that is in flight when it arrives, and its
    /// timestamp is not ahead of the clock.
    pub open spec fn samples(&self, s: SegmentView) -> bool {
        s.cmd == IKCP_CMD_ACK && holds_sn(segs(self.snd_buf@), s.sn) && time_diff_spec(
            self.current,
            s.ts,
        ) >= 0
    }

    /// Whether the segment with sequence number `sn` is in flight.
    pub fn in_flight(&self, sn: u32) -> (r: bool)
        requires
            self.wf(),
        ensures
            r == holds_sn(segs(self.snd_buf@), sn),
    {
        proof {
            lemma_count_below(segs(self.snd_buf@), sn);
        }
        let i = lower_bound(&self.snd_buf, sn);
        if i < self.snd_buf.len() {
            assert(segs(self.snd_buf@)[i as int] == self.snd_buf@[i as int]@);
            self.snd_buf[i].sn == sn
        } else {
            false
        }
    }

    /// The state after `prev` processed the accepted inbound segment `seg`.
    pub open spec fn after_segment(&self, prev: &Self, seg: Segment) -> bool {
        let s = seg@;
        let b = Self::snd_buf_after(segs(prev.snd_buf@), s);
        let una = head_sn(b, prev.snd_nxt);
        let rtt = time_diff_spec(prev.current, s.ts);
        let acks = s.cmd == IKCP_CMD_PUSH && s.sn < prev.rcv_nxt + prev.recv_window;
        &&& *self == (KcpControl {
            rmt_wnd: self.rmt_wnd,
            snd_buf: self.snd_buf,
            snd_una: self.snd_una,
            rx_srtt: self.rx_srtt,
            rx_rttval: self.rx_rttval,
            rx_rto: self.rx_rto,
            cwnd: self.cwnd,
            incr: self.incr,
            probe: self.probe,
            acklist: self.acklist,
            rcv_queue: self.rcv_queue,
            rcv_buf: self.rcv_buf,
            rcv_nxt: self.rcv_nxt,
            ..*prev
        })
        &&& self.rmt_wnd == s.wnd
        &&& segs(self.snd_buf@) == b
        &&& self.snd_una == una
        &&& if prev.samples(s) {
            &&& self.rx_srtt == srtt_next(prev.rx_srtt as int, rtt)
            &&& self.rx_rttval == rttval_next(prev.rx_srtt as int, prev.rx_rttval as int, rtt)
            &&& self.rx_rto == rto_of(
                self.rx_srtt as int,
                self.rx_rttval as int,
                prev.interval,
                prev.rx_minrto,
            )
        } else {
            self.rx_srtt == prev.rx_srtt && self.rx_rttval == prev.rx_rttval && self.rx_rto
                == prev.rx_rto
        }
        &&& (self.cwnd, self.incr) == if una > prev.snd_una {
            cwnd_grown(prev.cwnd, prev.incr, prev.ssthresh, s.wnd, prev.mss)
        } else {
            (prev.cwnd, prev.incr)
        }
        &&& self.probe.bits == if s.cmd == IKCP_CMD_WASK {
            prev.probe.bits | KcpProbeFlags::ASK_TELL
        } else {
            prev.probe.bits
        }
        &&& self.acklist@ == if acks {
            prev.acklist@.push(s.sn).push(s.ts)
        } else {
            prev.acklist@
        }
        &&& if s.cmd == IKCP_CMD_PUSH && prev.takes(s) {
            self.took(prev, seg)
        } else {
            self.rcv_queue@ == prev.rcv_queue@ && self.rcv_buf@ == prev.rcv_buf@ && self.rcv_nxt
                == prev.rcv_nxt
        }
    }

    /// Processes one decoded inbound segment.
    ///
    /// A segment of another conversation or with an unknown command is
    /// dropped and nothing changes. Otherwise the remote window is taken
    /// from the segment, its cumulative acknowledgement purges the send
    /// buffer, and the command decides the rest: an acknowledgement takes
    /// its segment out of the send buffer, feeds the round-trip estimate
    /// where that segment was in flight, and counts a skip for the segments
    /// below it; data inside the receive window is noted for
    /// acknowledgement and taken unless it is old or a repeat; a window
    /// probe schedules a window report. Where the oldest unacknowledged
    /// sequence number moved, the congestion window grows.
    pub fn input_segment(&mut self, seg: Segment) -> (accepted: bool)
        requires
            old(self).wf(),
            seg@.wf(),
        ensures
            final(self).wf(),
            accepted == old(self).accepts(seg@),
            !accepted ==> *final(self) == *old(self),
            accepted ==> final(self).after_segment(old(self), seg),
            final(self).snd_una >= old(self).snd_una,
            final(self).rcv_nxt >= old(self).rcv_nxt,
            final(self).snd_nxt == old(self).snd_nxt,
            final(self).sealed.conv() == old(self).sealed.conv(),
    {
        if seg.conv != self.sealed.conversation_id() || Command::try_from(seg.cmd).is_err() {
            return false;
        }
        let prev_una = self.snd_una;
        let cmd = seg.cmd;
        let sn = seg.sn;
        let ts = seg.ts;
        let sampled = cmd == IKCP_CMD_ACK && self.in_flight(sn);
        self.rmt_wnd = seg.wnd;
        self.parse_una(seg.una);
        self.shrink_buf();
        proof {
            lemma_count_below(segs(old(self).snd_buf@), seg.una);
            lemma_segs_parts(
                old(self).snd_buf@,
                old(self).snd_buf@,
                count_below(segs(old(self).snd_buf@), seg.una) as int,
            );
        }
        if cmd == IKCP_CMD_ACK {
            let ghost b1 = segs(self.snd_buf@);
            let found = self.parse_ack(sn);
            if found {
                assert(segs(self.snd_buf@) =~= b1.remove(count_below(b1, sn) as int));
            }
            if sampled {
                let rtt = time_diff(self.current, ts);
                if rtt >= 0 {
                    self.update_ack(rtt);
                }
            }
            self.shrink_buf();
            let ghost b2 = segs(self.snd_buf@);
            self.parse_fastack(sn);
            proof {
                lemma_bumped_keeps(b2, sn, self.snd_una, self.snd_nxt);
            }
        } else if cmd == IKCP_CMD_PUSH {
            if (sn as u64) < self.rcv_nxt as u64 + self.recv_window as u64 {
                self.ack_push(sn, ts);
                let _ = self.parse_data(seg);
            }
        } else if cmd == IKCP_CMD_WASK {
            self.probe.insert(KcpProbeFlags::ASK_TELL);
        }
        if self.snd_una > prev_una {
            let g = grow_cwnd(self.cwnd, self.incr, self.ssthresh, self.rmt_wnd, self.mss);
            self.cwnd = g.0;
            self.incr = g.1;
        }
        true
    }

    /// Whether `fin` is the state after `prev` processed the segments at the
    /// start of `bytes`, `n` of them: one after the other, up to the first
    /// that does not decode or is not for this control block.
    pub open spec fn input_run(prev: Self, bytes: Seq<u8>, fin: Self, n: nat) -> bool
        decreases bytes.len(),
    {
        match decode_spec(bytes) {
            None => n == 0 && fin == prev,
            Some(s) => if !prev.accepts(s) {
                n == 0 && fin == prev
            } else {
                n >= 1 && exists|mid: Self, seg: Segment|
                    seg@ == s && #[trigger] mid.after_segment(&prev, seg) && Self::input_run(
                        mid,
                        bytes.skip(24 + s.len),
                        fin,
                        (n - 1) as nat,
                    )
            },
        }
    }

    /// Processes a datagram from the carrier: decodes its segments one
    /// after the other and processes each, up to the first that does not
    /// decode or is not for this control block; what follows is dropped.
    /// Returns how many segments were processed.
    pub fn input(&mut self, packet: &[u8]) -> (count: usize)
        requires
            old(self).wf(),
        ensures
            final(self).wf(),
            final(self).snd_una >= old(self).snd_una,
            final(self).rcv_nxt >= old(self).rcv_nxt,
            final(self).snd_nxt == old(self).snd_nxt,
            final(self).sealed.conv() == old(self).sealed.conv(),
            Self::input_run(*old(self), packet@, *final(self), count as nat),
    {
        let n = packet.len();
        let mut off: usize = 0;
        let mut count: usize = 0;
        let mut going = true;
        assert(packet@.skip(0) =~= packet@);
        while going
            invariant
                n == packet@.len(),
                off <= n,
                count <= off,
                self.wf(),
                self.snd_una >= old(self).snd_una,
                self.rcv_nxt >= old(self).rcv_nxt,
                self.snd_nxt == old(self).snd_nxt,
                self.sealed.conv() == old(self).sealed.conv(),
                going ==> forall|fin: Self, m: nat| #[trigger]
                    Self::input_run(*self, packet@.skip(off as int), fin, m) ==> Self::input_run(
                        *old(self),
                        packet@,
                        fin,
                        (count + m) as nat,
                    ),
                !going ==> Self::input_run(*old(self), packet@, *self, count as nat),
            decreases n - off + if going { 1int } else { 0int },
        {
            let ghost bytes = packet@.skip(off as int);
            let ghost cur = *self;
            match decode(packet, off) {
                None => {
                    assert(Self::input_run(cur, bytes, cur, 0));
                    going = false;
                },
                Some(seg) => {
                    let ghost head = seg;
                    assert(bytes.len() == n - off && 24 + head.len <= bytes.len());
                    let step = 24 + seg.len as usize;
                    if self.input_segment(seg) {
                        let ghost next = *self;
                        let ghost rest = packet@.skip(off + step);
                        assert(bytes.skip(24 + head.len) =~= rest);
                        assert forall|fin: Self, m: nat| #[trigger]
                            Self::input_run(next, rest, fin, m) implies Self::input_run(
                            *old(self),
                            packet@,
                            fin,
                            (count + 1 + m) as nat,
                        ) by {
                            assert(next.after_segment(&cur, head));
                            assert(Self::input_run(cur, bytes, fin, (m + 1) as nat));
                        }
                        off = off + step;
                        count = count + 1;
                    } else {
                        assert(Self::input_run(cur, bytes, cur, 0));
                        going = false;
                    }
                },
            }
        }
        count
    }
}

/// A data segment that was taken is not taken again: afterwards it is
/// either behind the expected sequence number or in the receive buffer, so
/// a second delivery changes nothing.
pub proof fn lemma_redelivery_changes_nothing<U, C: KcpCallBack<U>>(
    before: KcpControl<U, C>,
    after: KcpControl<U, C>,
    seg: Segment,
)
    requires
        before.wf(),
        before.takes(seg@),
        after.took(&before, seg),
        after.recv_window == before.recv_window,
    ensures
        !after.takes(seg@),
{
    let b = segs(before.rcv_buf@);
    lemma_count_below(b, seg.sn);
    lemma_insert_keeps(b, seg@);
    let pos = count_below(b, seg.sn) as int;
    let held = before.rcv_buf@.insert(pos, seg);
    assert(segs(held) =~= b.insert(pos, seg@));
    let m = admit_count(
        before.rcv_queue@.len(),
        segs(held),
        before.rcv_nxt,
        before.recv_window as nat,
    );
    lemma_admit_run(before.rcv_queue@.len(), segs(held), before.rcv_nxt, before.recv_window as nat);
    if pos < m {
        assert(segs(held)[pos].sn == before.rcv_nxt + pos);
        assert(after.rcv_nxt > seg.sn);
    } else {
        let rest = segs(after.rcv_buf@);
        assert(rest[pos - m] == held[pos]@);
        assert(rest[pos - m].sn == seg.sn);
        assert(holds_sn(rest, seg.sn));
    }
}

/// Delivering a data segment a second time changes nothing on the receive
/// side: the receive queue, the receive buffer and the expected sequence
/// number stay as the first delivery left them.
pub proof fn lemma_duplicate_input_changes_nothing<U, C: KcpCallBack<U>>(
    before: KcpControl<U, C>,
    after: KcpControl<U, C>,
    again: KcpControl<U, C>,
    seg: Segment,
    dup: Segment,
)
    requires
        before.wf(),
        seg.cmd == IKCP_CMD_PUSH,
        dup@ == seg@,
        after.after_segment(&before, seg),
        again.after_segment(&after, dup),
    ensures
        again.rcv_queue@ == after.rcv_queue@,
        again.rcv_buf@ == after.rcv_buf@,
        again.rcv_nxt == after.rcv_nxt,
{
    if before.takes(seg@) {
        lemma_redelivery_changes_nothing(before, after, seg);
    } else {
        assert(segs(after.rcv_buf@) == segs(before.rcv_buf@));
    }
}

} // verus!
