use vstd::prelude::*;
use vstd::slice::slice_subrange;
use crate::constants::{
    KcpError, KcpLogFlags, KcpProbeFlags, IKCP_DEADLINK, IKCP_FASTACK_LIMIT, IKCP_INTERVAL,
    IKCP_MTU_DEF, IKCP_OVERHEAD, IKCP_RTO_DEF, IKCP_RTO_MIN, IKCP_RTO_NDL, IKCP_THRESH_INIT,
    IKCP_WND_RCV,
    IKCP_WND_SND,
};
use crate::sealed::Sealed;
pub use crate::segment::Segment;
use crate::segment::{all_wf, segs, sn_within, sorted_sn, SegmentView};

verus! {

/// The sinks of a control block: one for encoded datagrams, one for
/// diagnostic lines. Both are called synchronously and must not block. Each
/// gets the control block to read; the block is in the middle of an
/// operation then, so a sink cannot change it.
pub trait KcpCallBack<U>: Send + Sync + Sized {
    /// Called with each encoded datagram that has to go to the carrier, the
    /// control block that emits it, and the user payload of that block.
    fn output(&self, buf: &[u8], kcp: &KcpControl<U, Self>, user: Option<&U>) {
    }

    /// Called with each diagnostic line, the control block that writes it,
    /// and the user payload of that block.
    fn writelog(&self, log: &str, kcp: &KcpControl<U, Self>, user: Option<&U>) {
    }
}

/// A sink that drops what it is given: for a control block whose datagrams
/// are taken from what `flush` and `update` return.
#[derive(Debug, Clone, Copy)]
pub struct NoSink;

impl<U> KcpCallBack<U> for NoSink {

}

/// The per-connection protocol state.
pub struct KcpControl<U, C: KcpCallBack<U>> {
    /// The conversation id, the user payload and the logging settings.
    pub sealed: Sealed<U>,
    pub mtu: u32,
    pub mss: u32,
    pub state: u32,
    pub snd_una: u32,
    pub snd_nxt: u32,
    pub rcv_nxt: u32,
    pub ts_recent: u32,
    pub ts_lastack: u32,
    /// slow start threshold
    pub ssthresh: u32,
    pub rx_rttval: i32,
    pub rx_srtt: i32,
    /// Retransmission timeout (ms)
    pub rx_rto: u32,
    /// Minimum retransmission timeout (ms)
    pub rx_minrto: u32,
    pub send_window: u32,
    pub recv_window: u32,
    pub rmt_wnd: u32,
    pub cwnd: u32,
    pub probe: KcpProbeFlags,
    pub current: u32,
    /// Interval between update ticks (ms)
    pub interval: u32,
    pub ts_flush: u32,
    pub xmit: u32,
    pub nsnd_buf: u32,
    pub nodelay: u32,
    pub updated: u32,
    pub ts_probe: u32,
    pub probe_wait: u32,
    /// Transmissions of one segment after which the link is reported dead
    pub dead_link: u32,
    pub incr: u32,
    pub snd_queue: Vec<Segment>,
    pub rcv_queue: Vec<Segment>,
    pub snd_buf: Vec<Segment>,
    pub rcv_buf: Vec<Segment>,
    /// Pending acknowledgements: sequence number, then timestamp, per record
    pub acklist: Vec<u32>,
    pub ackcount: u32,
    pub ackblock: u32,
    pub fastresend: i32,
    /// Largest number of fast retransmissions of one segment
    pub fastlimit: u32,
    /// Switches congestion control off
    pub nocwnd: bool,
    pub streaming_mode: bool,
    pub callback: Option<C>,
}

impl<U, C: KcpCallBack<U>> Default for KcpControl<U, C> {
    fn default() -> (r: Self)
        ensures
            r.is_zeroed(),
    {
        KcpControl {
            sealed: Sealed::new(),
            mtu: 0,
            mss: 0,
            state: 0,
            snd_una: 0,
            snd_nxt: 0,
            rcv_nxt: 0,
            ts_recent: 0,
            ts_lastack: 0,
            ssthresh: 0,
            rx_rttval: 0,
            rx_srtt: 0,
            rx_rto: 0,
            rx_minrto: 0,
            send_window: 0,
            recv_window: 0,
            rmt_wnd: 0,
            cwnd: 0,
            probe: KcpProbeFlags { bits: 0 },
            current: 0,
            interval: 0,
            ts_flush: 0,
            xmit: 0,
            nsnd_buf: 0,
            nodelay: 0,
            updated: 0,
            ts_probe: 0,
            probe_wait: 0,
            dead_link: 0,
            incr: 0,
            snd_queue: Vec::new(),
            rcv_queue: Vec::new(),
            snd_buf: Vec::new(),
            rcv_buf: Vec::new(),
            acklist: Vec::new(),
            ackcount: 0,
            ackblock: 0,
            fastresend: 0,
            fastlimit: 0,
            nocwnd: false,
            streaming_mode: false,
            callback: None,
        }
    }
}

/// Number of segments that `len` bytes take at `mss` bytes each; an empty
/// payload still takes one.
pub open spec fn seg_count(len: nat, mss: nat) -> nat {
    if len <= mss {
        1
    } else if len % mss == 0 {
        len / mss
    } else {
        len / mss + 1
    }
}

/// The `i`-th of the `count` segments that `data` is cut into.
pub open spec fn chunk(data: Seq<u8>, mss: nat, count: nat, i: int, streaming: bool) -> SegmentView {
    let lo = i * mss;
    let hi = if lo + mss < data.len() {
        lo + mss
    } else {
        data.len() as int
    };
    SegmentView::blank(
        if streaming {
            0
        } else {
            (count - i - 1) as u32
        },
        data.subrange(lo, hi),
    )
}

/// The segments that `data` is cut into: `mss` bytes each but the last, with
/// fragment indices counting down to 0 in packet mode and all 0 in streaming
/// mode.
pub open spec fn chunks(data: Seq<u8>, mss: nat, streaming: bool) -> Seq<SegmentView> {
    let count = seg_count(data.len(), mss);
    Seq::new(count, |i: int| chunk(data, mss, count, i, streaming))
}

/// Whether a send in streaming mode first tops off the last queued segment.
pub open spec fn tops_off(prev: Seq<SegmentView>, mss: nat, streaming: bool) -> bool {
    streaming && prev.len() > 0 && (prev.last().len as nat) < mss
}

/// How many of `n` new bytes go into the last queued segment.
pub open spec fn top_off_len(prev: Seq<SegmentView>, n: nat, mss: nat, streaming: bool) -> nat {
    if tops_off(prev, mss, streaming) {
        let room = (mss - prev.last().len) as nat;
        if n < room {
            n
        } else {
            room
        }
    } else {
        0
    }
}

/// The send queue after the last segment took the first bytes of `data`.
pub open spec fn topped_off(prev: Seq<SegmentView>, data: Seq<u8>, mss: nat, streaming: bool) -> Seq<
    SegmentView,
> {
    if tops_off(prev, mss, streaming) {
        let ext = top_off_len(prev, data.len(), mss, streaming);
        let last = prev.last();
        prev.update(
            prev.len() - 1,
            SegmentView {
                frg: 0,
                len: (last.len + ext) as u32,
                data: last.data + data.take(ext as int),
                ..last
            },
        )
    } else {
        prev
    }
}

/// Whether a send is turned down: the bytes that are left after topping off
/// would take `wnd` segments or more, and nothing was topped off.
pub open spec fn send_refused(prev: Seq<SegmentView>, data: Seq<u8>, mss: nat, wnd: nat, streaming: bool) -> bool {
    let ext = top_off_len(prev, data.len(), mss, streaming);
    let rest = (data.len() - ext) as nat;
    &&& !(streaming && rest == 0)
    &&& seg_count(rest, mss) >= wnd
    &&& !(streaming && ext > 0)
}

/// How many bytes a send accepts.
pub open spec fn send_accepts(prev: Seq<SegmentView>, data: Seq<u8>, mss: nat, wnd: nat, streaming: bool) -> nat {
    let ext = top_off_len(prev, data.len(), mss, streaming);
    let rest = (data.len() - ext) as nat;
    if (streaming && rest == 0) || seg_count(rest, mss) >= wnd {
        ext
    } else {
        data.len()
    }
}

/// The send queue after a send.
pub open spec fn send_queue_after(prev: Seq<SegmentView>, data: Seq<u8>, mss: nat, wnd: nat, streaming: bool) -> Seq<
    SegmentView,
> {
    let ext = top_off_len(prev, data.len(), mss, streaming);
    let rest = data.skip(ext as int);
    let topped = topped_off(prev, data, mss, streaming);
    if (streaming && rest.len() == 0) || seg_count(rest.len(), mss) >= wnd {
        topped
    } else {
        topped + chunks(rest, mss, streaming)
    }
}

/// A payload takes at least one segment, and no more segments than it has
/// bytes once it is longer than one segment.
pub proof fn lemma_seg_count_bounds(total: nat, mss: nat)
    requires
        mss > 0,
    ensures
        seg_count(total, mss) >= 1,
        total > mss ==> seg_count(total, mss) <= total,
        total > mss && total % mss != 0 ==> total / mss < total,
{
    let q = total / mss;
    let r = total % mss;
    assert(total == mss * q + r && 0 <= r < mss) by (nonlinear_arith)
        requires
            mss > 0,
            q == total / mss,
            r == total % mss,
    ;
    if total > mss {
        assert(q >= 1 && q <= total && (r != 0 ==> q < total)) by (nonlinear_arith)
            requires
                total == mss * q + r,
                0 <= r < mss,
                total > mss,
                q >= 0,
        ;
    }
}

/// Where the chunks of a payload begin and end.
pub proof fn lemma_chunk_bounds(total: nat, mss: nat, i: nat)
    requires
        mss > 0,
        i < seg_count(total, mss),
    ensures
        (i + 1) * mss == i * mss + mss,
        i * mss <= total,
        i + 1 < seg_count(total, mss) ==> (i + 1) * mss < total,
        i + 1 == seg_count(total, mss) ==> total <= (i + 1) * mss,
{
    let q = total / mss;
    let r = total % mss;
    assert(total == mss * q + r && 0 <= r < mss) by (nonlinear_arith)
        requires
            mss > 0,
            q == total / mss,
            r == total % mss,
    ;
    assert((i + 1) * mss == i * mss + mss) by (nonlinear_arith);
    if total <= mss {
        assert(i == 0);
        assert(i * mss == 0) by (nonlinear_arith)
            requires
                i == 0,
        ;
    } else {
        let c = seg_count(total, mss);
        assert(i * mss <= (c - 1) * mss) by (nonlinear_arith)
            requires
                i <= c - 1,
                mss > 0,
        ;
        assert((c - 1) * mss < total && total <= c * mss) by (nonlinear_arith)
            requires
                total == mss * q + r,
                0 <= r < mss,
                c == if r == 0 {
                    q
                } else {
                    q + 1
                },
                total > mss,
        ;
        if i + 1 < c {
            assert((i + 1) * mss <= (c - 1) * mss) by (nonlinear_arith)
                requires
                    i + 1 <= c - 1,
                    mss > 0,
            ;
        }
    }
}

impl<U, C: KcpCallBack<U>> KcpControl<U, C> {
    /// The segment size follows from the transmission unit; every queued
    /// segment has a payload of the length it states; the send buffer and
    /// the receive buffer are ordered by sequence number, without repeats;
    /// what is in flight lies between the oldest unacknowledged and the next
    /// unassigned sequence number; the round-trip estimates are not negative;
    /// the pending acknowledgements come in pairs.
    pub open spec fn wf(&self) -> bool {
        &&& self.mtu > IKCP_OVERHEAD
        &&& self.mss == self.mtu - IKCP_OVERHEAD
        &&& all_wf(segs(self.snd_queue@))
        &&& all_wf(segs(self.snd_buf@))
        &&& all_wf(segs(self.rcv_queue@))
        &&& all_wf(segs(self.rcv_buf@))
        &&& self.snd_una <= self.snd_nxt
        &&& sorted_sn(segs(self.snd_buf@))
        &&& sn_within(segs(self.snd_buf@), self.snd_una, self.snd_nxt)
        &&& sorted_sn(segs(self.rcv_buf@))
        &&& self.rx_srtt >= 0
        &&& self.rx_rttval >= 0
        &&& self.acklist@.len() % 2 == 0
    }

    /// Every counter zero, every queue empty, no sink and no user payload.
    pub open spec fn is_zeroed(&self) -> bool {
        &&& self.sealed.conv() == 0 && self.mtu == 0 && self.mss == 0 && self.state == 0
        &&& self.snd_una == 0 && self.snd_nxt == 0 && self.rcv_nxt == 0
        &&& self.ts_recent == 0 && self.ts_lastack == 0 && self.ssthresh == 0
        &&& self.rx_rttval == 0 && self.rx_srtt == 0 && self.rx_rto == 0 && self.rx_minrto == 0
        &&& self.send_window == 0 && self.recv_window == 0 && self.rmt_wnd == 0 && self.cwnd == 0
        &&& self.probe.bits == 0 && self.current == 0 && self.interval == 0 && self.ts_flush == 0
        &&& self.xmit == 0 && self.nsnd_buf == 0 && self.nodelay == 0 && self.updated == 0
        &&& self.ts_probe == 0 && self.probe_wait == 0 && self.dead_link == 0 && self.incr == 0
        &&& self.snd_queue@.len() == 0 && self.rcv_queue@.len() == 0
        &&& self.snd_buf@.len() == 0 && self.rcv_buf@.len() == 0
        &&& self.acklist@.len() == 0 && self.ackcount == 0 && self.ackblock == 0
        &&& self.fastresend == 0 && !self.sealed.logs() && self.sealed.mask().bits == 0
        &&& self.fastlimit == 0 && !self.nocwnd && !self.streaming_mode
        &&& self.callback.is_none() && self.sealed.user().is_none()
    }

    /// The state that `init` makes of `prev`: the defaults of the protocol,
    /// the given conversation id and user payload, and the rest as it was.
    pub open spec fn initialised_from(&self, prev: &Self, conversation_id: u32, user_data: Option<U>) -> bool {
        &&& self.sealed.conv() == conversation_id
        &&& self.sealed.user() == user_data
        &&& self.sealed.logs() == prev.sealed.logs()
        &&& self.sealed.mask() == prev.sealed.mask()
        &&& *self == (KcpControl {
            sealed: self.sealed,
            send_window: IKCP_WND_SND,
            recv_window: IKCP_WND_RCV,
            rmt_wnd: IKCP_WND_RCV,
            mtu: IKCP_MTU_DEF,
            mss: (IKCP_MTU_DEF - IKCP_OVERHEAD) as u32,
            rx_rto: IKCP_RTO_DEF,
            rx_minrto: IKCP_RTO_MIN,
            interval: IKCP_INTERVAL,
            ssthresh: IKCP_THRESH_INIT,
            fastlimit: IKCP_FASTACK_LIMIT,
            dead_link: IKCP_DEADLINK,
            ..*prev
        })
    }

    /// A control block as it is right after construction.
    pub open spec fn is_fresh(&self, conversation_id: u32, user_data: Option<U>) -> bool {
        exists|zero: Self| zero.is_zeroed() && #[trigger] self.initialised_from(&zero, conversation_id, user_data)
    }

    /// A fresh control block has the default sizes, empty queues and is well formed.
    pub proof fn lemma_fresh(&self, conversation_id: u32, user_data: Option<U>)
        requires
            self.is_fresh(conversation_id, user_data),
        ensures
            self.wf(),
            self.sealed.conv() == conversation_id,
            self.sealed.user() == user_data,
            self.mtu == 1400 && self.mss == 1376,
            self.send_window == 32 && self.recv_window == 128 && self.rmt_wnd == 128,
            self.rx_rto == 200 && self.rx_minrto == 100 && self.interval == 100,
            self.ssthresh == 2 && self.fastlimit == 5 && self.dead_link == 20,
            self.snd_una == 0 && self.snd_nxt == 0 && self.rcv_nxt == 0 && self.cwnd == 0,
            self.snd_queue@.len() == 0 && self.snd_buf@.len() == 0,
            self.rcv_queue@.len() == 0 && self.rcv_buf@.len() == 0,
            self.acklist@.len() == 0,
            !self.streaming_mode && !self.nocwnd && !self.sealed.logs(),
            self.callback.is_none(),
    {
    }

    /// A new control block on the heap, with the defaults of the protocol.
    pub fn new_alloc(conversation_id: u32, user_data: Option<U>) -> (r: Box<Self>)
        ensures
            r.is_fresh(conversation_id, user_data),
            r.wf(),
    {
        let mut x = Box::new(Self::default());
        let ghost zero = *x;
        x.init(conversation_id, user_data);
        assert(x.initialised_from(&zero, conversation_id, user_data));
        x
    }

    /// A new control block, with the defaults of the protocol.
    pub fn new_on_stack(conversation_id: u32, user_data: Option<U>) -> (r: Self)
        ensures
            r.is_fresh(conversation_id, user_data),
            r.wf(),
    {
        let mut x = Self::default();
        let ghost zero = x;
        x.init(conversation_id, user_data);
        assert(x.initialised_from(&zero, conversation_id, user_data));
        x
    }

    /// The conversation id that was given at construction.
    pub fn conversation_id(&self) -> (r: u32)
        ensures
            r == self.sealed.conv(),
    {
        self.sealed.conversation_id()
    }

    /// The user payload that was given at construction.
    pub fn user_data(&self) -> (r: Option<&U>)
        ensures
            r.is_some() == self.sealed.user().is_some(),
            r.is_some() ==> *r.unwrap() == self.sealed.user().unwrap(),
    {
        self.sealed.user_data()
    }

    /// Sets the conversation id, the user payload and the defaults of the protocol.
    fn init(&mut self, conversation_id: u32, user_data: Option<U>)
        ensures
            final(self).initialised_from(old(self), conversation_id, user_data),
    {
        self.sealed.identify(conversation_id, user_data);
        self.send_window = IKCP_WND_SND;
        self.recv_window = IKCP_WND_RCV;
        self.rmt_wnd = IKCP_WND_RCV;
        self.mtu = IKCP_MTU_DEF;
        self.update_mss();
        self.rx_rto = IKCP_RTO_DEF;
        self.rx_minrto = IKCP_RTO_MIN;
        self.interval = IKCP_INTERVAL;
        self.ssthresh = IKCP_THRESH_INIT;
        self.fastlimit = IKCP_FASTACK_LIMIT;
        self.dead_link = IKCP_DEADLINK;
    }

    /// Derives the segment size from the transmission unit.
    fn update_mss(&mut self)
        requires
            old(self).mtu > IKCP_OVERHEAD,
        ensures
            *final(self) == (KcpControl { mss: (old(self).mtu - IKCP_OVERHEAD) as u32, ..*old(self) }),
    {
        self.mss = self.mtu - IKCP_OVERHEAD;
    }

    /// Changes the transmission unit and derives the segment size from it.
    /// A unit that leaves no room for payload is turned down, and nothing
    /// changes.
    pub fn set_mtu(&mut self, mtu: u32) -> (accepted: bool)
        ensures
            accepted == (mtu > IKCP_OVERHEAD),
            accepted ==> *final(self) == (KcpControl {
                mtu,
                mss: (mtu - IKCP_OVERHEAD) as u32,
                ..*old(self)
            }),
            !accepted ==> *final(self) == *old(self),
            old(self).wf() ==> final(self).wf(),
    {
        if mtu <= IKCP_OVERHEAD {
            return false;
        }
        self.mtu = mtu;
        self.update_mss();
        true
    }

    /// Sets the send and the receive window, in segments. A send window of
    /// 0 leaves the send window as it is; a receive window of 0 leaves the
    /// receive window as it is, and a smaller one than `IKCP_WND_RCV` is
    /// raised to it.
    pub fn set_window_size(&mut self, send_window: u32, recv_window: u32)
        ensures
            *final(self) == (KcpControl {
                send_window: if send_window > 0 {
                    send_window
                } else {
                    old(self).send_window
                },
                recv_window: if recv_window == 0 {
                    old(self).recv_window
                } else if recv_window < IKCP_WND_RCV {
                    IKCP_WND_RCV
                } else {
                    recv_window
                },
                ..*old(self)
            }),
            old(self).wf() ==> final(self).wf(),
    {
        if send_window > 0 {
            self.send_window = send_window;
        }
        if recv_window > 0 {
            self.recv_window = if recv_window < IKCP_WND_RCV {
                IKCP_WND_RCV
            } else {
                recv_window
            };
        }
    }

    /// Sets the no-delay mode, the tick interval, the fast-resend threshold
    /// and whether congestion control is off. In no-delay mode the minimum
    /// retransmission timeout is `IKCP_RTO_NDL`, else `IKCP_RTO_MIN`. The
    /// interval is kept between 10 and 5000 ms.
    pub fn set_nodelay(&mut self, nodelay: u32, interval: u32, fastresend: i32, nocwnd: bool)
        ensures
            *final(self) == (KcpControl {
                nodelay,
                rx_minrto: if nodelay != 0 {
                    IKCP_RTO_NDL
                } else {
                    IKCP_RTO_MIN
                },
                interval: if interval > 5000 {
                    5000
                } else if interval < 10 {
                    10
                } else {
                    interval
                },
                fastresend,
                nocwnd,
                ..*old(self)
            }),
            old(self).wf() ==> final(self).wf(),
    {
        self.nodelay = nodelay;
        self.rx_minrto = if nodelay != 0 {
            IKCP_RTO_NDL
        } else {
            IKCP_RTO_MIN
        };
        self.interval = if interval > 5000 {
            5000
        } else if interval < 10 {
            10
        } else {
            interval
        };
        self.fastresend = fastresend;
        self.nocwnd = nocwnd;
    }

    /// Sets the sink for datagrams and diagnostic lines.
    pub fn set_callback(&mut self, callback: C)
        ensures
            *final(self) == (KcpControl { callback: Some(callback), ..*old(self) }),
    {
        self.callback = Some(callback);
    }

    /// Switches logging on or off.
    pub fn set_logging(&mut self, enable: bool)
        ensures
            *final(self) == (KcpControl { sealed: final(self).sealed, ..*old(self) }),
            final(self).sealed.logs() == enable,
            final(self).sealed.mask() == old(self).sealed.mask(),
            final(self).sealed.conv() == old(self).sealed.conv(),
            final(self).sealed.user() == old(self).sealed.user(),
    {
        self.sealed.set_logging(enable);
    }

    /// Chooses the categories of events that are logged.
    pub fn set_log_mask(&mut self, mask: KcpLogFlags)
        ensures
            *final(self) == (KcpControl { sealed: final(self).sealed, ..*old(self) }),
            final(self).sealed.mask() == mask,
            final(self).sealed.logs() == old(self).sealed.logs(),
            final(self).sealed.conv() == old(self).sealed.conv(),
            final(self).sealed.user() == old(self).sealed.user(),
    {
        self.sealed.set_log_mask(mask);
    }

    /// The categories of events that are logged.
    pub fn log_mask(&self) -> (r: &KcpLogFlags)
        ensures
            *r == self.sealed.mask(),
    {
        self.sealed.log_mask()
    }

    /// Whether logging is on.
    pub fn write_log(&self) -> (r: bool)
        ensures
            r == self.sealed.logs(),
    {
        self.sealed.write_log()
    }

    /// Accepts application bytes for sending and returns how many it took.
    ///
    /// In streaming mode the last queued segment is first filled up to the
    /// segment size. What is left is cut into segments of the segment size;
    /// in packet mode their fragment indices count down to 0. When what is
    /// left would take as many segments as the receive window holds, or
    /// more, nothing more is queued: the call reports the bytes that were
    /// topped off, or `WindowFull` when there were none.
    pub fn send(&mut self, data: &[u8]) -> (r: Result<usize, KcpError>)
        requires
            old(self).wf(),
        ensures
            final(self).wf(),
            *final(self) == (KcpControl { snd_queue: final(self).snd_queue, ..*old(self) }),
            final(self).snd_una == old(self).snd_una,
            final(self).rcv_nxt == old(self).rcv_nxt,
            r == (if send_refused(
                segs(old(self).snd_queue@),
                data@,
                old(self).mss as nat,
                old(self).recv_window as nat,
                old(self).streaming_mode,
            ) {
                Err::<usize, KcpError>(KcpError::WindowFull)
            } else {
                Ok::<usize, KcpError>(
                    send_accepts(
                        segs(old(self).snd_queue@),
                        data@,
                        old(self).mss as nat,
                        old(self).recv_window as nat,
                        old(self).streaming_mode,
                    ) as usize,
                )
            }),
            segs(final(self).snd_queue@) == send_queue_after(
                segs(old(self).snd_queue@),
                data@,
                old(self).mss as nat,
                old(self).recv_window as nat,
                old(self).streaming_mode,
            ),
    {
        let ghost prev = segs(self.snd_queue@);
        let mss = self.mss;
        let streaming = self.streaming_mode;
        let mut sent: usize = 0;

        if streaming {
            let n = self.snd_queue.len();
            if n > 0 {
                let seg = &mut self.snd_queue[n - 1];
                if seg.len < mss {
                    let capacity = (mss - seg.len) as usize;
                    let extend = if data.len() < capacity {
                        data.len()
                    } else {
                        capacity
                    };
                    seg.data.extend_from_slice(slice_subrange(data, 0, extend));
                    seg.len = seg.len + extend as u32;
                    seg.frg = 0;
                    sent = extend;
                    assert(seg.data@ =~= prev.last().data + data@.take(extend as int));
                }
            }
            assert(segs(self.snd_queue@) =~= topped_off(prev, data@, mss as nat, streaming));
            if sent == data.len() {
                return Ok(sent);
            }
        }
        let ghost topped = segs(self.snd_queue@);
        assert(topped == topped_off(prev, data@, mss as nat, streaming));
        assert(sent as nat == top_off_len(prev, data@.len(), mss as nat, streaming));
        let rest = slice_subrange(data, sent, data.len());
        assert(rest@ =~= data@.skip(sent as int));
        let total = rest.len();
        let mss_u = mss as usize;
        proof {
            lemma_seg_count_bounds(total as nat, mss as nat);
        }
        let count: usize = if total <= mss_u {
            1
        } else if total % mss_u == 0 {
            total / mss_u
        } else {
            total / mss_u + 1
        };
        assert(count as nat == seg_count(total as nat, mss as nat));

        if count >= self.recv_window as usize {
            if streaming && sent > 0 {
                return Ok(sent);
            }
            return Err(KcpError::WindowFull);
        }
        let mut off: usize = 0;
        let mut i: usize = 0;
        while i < count
            invariant
                mss > 0,
                mss_u == mss as usize,
                total == rest@.len(),
                count as nat == seg_count(total as nat, mss as nat),
                count < self.recv_window,
                i <= count,
                i < count ==> off as nat == i as nat * mss as nat,
                i == count ==> off == total,
                off <= total,
                streaming == self.streaming_mode,
                *self == (KcpControl { snd_queue: self.snd_queue, ..*old(self) }),
                segs(self.snd_queue@) == topped + Seq::new(
                    i as nat,
                    |j: int| chunk(rest@, mss as nat, count as nat, j, streaming),
                ),
                all_wf(segs(self.snd_queue@)),
            decreases count - i,
        {
            proof {
                lemma_chunk_bounds(total as nat, mss as nat, i as nat);
            }
            let size = if total - off > mss_u {
                mss_u
            } else {
                total - off
            };
            let mut seg = Segment::new(0);
            seg.data.extend_from_slice(slice_subrange(rest, off, off + size));
            seg.len = size as u32;
            seg.frg = if !streaming {
                (count - i - 1) as u32
            } else {
                0
            };
            assert(seg.data@ =~= rest@.subrange(off as int, off + size));
            assert(seg@ == chunk(rest@, mss as nat, count as nat, i as int, streaming));
            let ghost before = segs(self.snd_queue@);
            self.snd_queue.push(seg);
            assert(segs(self.snd_queue@) =~= before.push(seg@));
            assert(segs(self.snd_queue@) =~= topped + Seq::new(
                (i + 1) as nat,
                |j: int| chunk(rest@, mss as nat, count as nat, j, streaming),
            ));
            off = off + size;
            i = i + 1;
        }
        assert(segs(self.snd_queue@) =~= topped + chunks(rest@, mss as nat, streaming));
        Ok(sent + total)
    }
}

} // verus!
