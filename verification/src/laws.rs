use vstd::prelude::*;
use crate::codec::{carried, decode_spec, lemma_decode_wire, lemma_header_len, wire};
use crate::constants::{KcpError, IKCP_CMD_PUSH};
use crate::flush::{
    ack_wires, count_kind, data_wires, fill_count, lemma_sorted_fits, probe_plan, probe_wires,
    resend_kind, resent, resent_all, stamped, Resend, Tick,
};
use crate::kcp::{
    chunk, chunks, lemma_chunk_bounds, lemma_seg_count_bounds, seg_count, send_queue_after,
    KcpCallBack, KcpControl,
};
use crate::recv::{admit_count, message_bytes, message_count, message_len, peek_spec, receive_spec};
use crate::input::{lemma_admit_run, lemma_bumped_keeps};
use crate::segment::{
    all_wf, count_below, holds_sn, lemma_count_below, lemma_insert_keeps, lemma_remove_keeps,
    lemma_segs_parts, lemma_skip_keeps, segs, Segment, SegmentView,
};

verus! {

/// The fragments of a payload from the `i`-th on carry the payload from
/// byte `i * mss` on, and end at the last fragment.
proof fn lemma_fragments_from(data: Seq<u8>, mss: nat, i: nat)
    requires
        mss > 0,
        mss <= u32::MAX,
        seg_count(data.len(), mss) <= 0x1_0000_0000,
        i < seg_count(data.len(), mss),
    ensures
        i * mss <= data.len(),
        message_bytes(chunks(data, mss, false).skip(i as int)) == data.skip((i * mss) as int),
        message_len(chunks(data, mss, false).skip(i as int)) == data.len() - i * mss,
        message_count(chunks(data, mss, false).skip(i as int)) == seg_count(data.len(), mss) - i,
    decreases seg_count(data.len(), mss) - i,
{
    let count = seg_count(data.len(), mss);
    let c = chunks(data, mss, false);
    let rest = c.skip(i as int);
    lemma_chunk_bounds(data.len(), mss, i);
    assert(rest[0] == chunk(data, mss, count, i as int, false));
    if i + 1 == count {
        assert(rest[0].frg == 0);
        assert(rest[0].data =~= data.skip((i * mss) as int));
    } else {
        assert(rest[0].frg == count - i - 1);
        assert(rest[0].frg != 0);
        lemma_fragments_from(data, mss, i + 1);
        assert(rest.skip(1) =~= c.skip(i as int + 1));
        assert(rest[0].data =~= data.subrange((i * mss) as int, (i * mss + mss) as int));
        assert(rest[0].data + data.skip(((i + 1) * mss) as int) =~= data.skip((i * mss) as int));
    }
}

/// Cutting a payload into fragments and joining the fragments again gives
/// the payload back: the fragments that packet mode makes of a payload form
/// one message, whose bytes are the payload; and as long as only some of
/// its leading fragments are in the receive queue, the message counts as
/// incomplete.
pub proof fn lemma_fragments_reassemble(data: Seq<u8>, mss: nat)
    requires
        mss > 0,
        mss <= u32::MAX,
        seg_count(data.len(), mss) <= 0x1_0000_0000,
    ensures
        all_wf(chunks(data, mss, false)),
        message_count(chunks(data, mss, false)) == chunks(data, mss, false).len(),
        message_bytes(chunks(data, mss, false)) == data,
        message_len(chunks(data, mss, false)) == data.len(),
        data.len() <= usize::MAX ==> peek_spec(chunks(data, mss, false)) == Ok::<usize, KcpError>(
            data.len() as usize,
        ),
        forall|k: int|
            1 <= k < chunks(data, mss, false).len() ==> peek_spec(
                #[trigger] chunks(data, mss, false).take(k),
            ) == Err::<usize, KcpError>(KcpError::IncompleteMessage),
{
    let count = seg_count(data.len(), mss);
    let c = chunks(data, mss, false);
    lemma_seg_count_bounds(data.len(), mss);
    lemma_fragments_from(data, mss, 0);
    assert(c.skip(0) =~= c);
    assert(0 * mss == 0) by (nonlinear_arith);
    assert(data.skip(0) =~= data);
    assert forall|i: int| 0 <= i < c.len() implies (#[trigger] c[i]).wf() by {
        lemma_chunk_bounds(data.len(), mss, i as nat);
    }
    assert(c[0].frg == count - 1);
    assert forall|k: int| 1 <= k < c.len() implies peek_spec(#[trigger] c.take(k)) == Err::<
        usize,
        KcpError,
    >(KcpError::IncompleteMessage) by {
        assert(c.take(k)[0] == c[0]);
    }
}

/// Whether two segments carry the same part of a message.
pub open spec fn same_payload(a: SegmentView, b: SegmentView) -> bool {
    a.frg == b.frg && a.len == b.len && a.data == b.data
}

/// Whether the segments `f` are the fragments of `data`, numbered from
/// `base` on in the order of the payload.
pub open spec fn carries(f: Seq<SegmentView>, base: u32, data: Seq<u8>, mss: nat) -> bool {
    let c = chunks(data, mss, false);
    &&& f.len() == c.len()
    &&& base + f.len() <= u32::MAX
    &&& forall|i: int|
        0 <= i < f.len() ==> (#[trigger] f[i]).sn == base + i && same_payload(f[i], c[i])
}

/// The message at the head of a queue depends on fragment indices, lengths
/// and payloads alone.
pub proof fn lemma_message_of_payloads(a: Seq<SegmentView>, b: Seq<SegmentView>)
    requires
        a.len() == b.len(),
        forall|i: int| 0 <= i < a.len() ==> same_payload(#[trigger] a[i], b[i]),
    ensures
        message_bytes(a) == message_bytes(b),
        message_len(a) == message_len(b),
        message_count(a) == message_count(b),
    decreases a.len(),
{
    if a.len() > 0 {
        assert(same_payload(a[0], b[0]));
        let a1 = a.skip(1);
        let b1 = b.skip(1);
        assert forall|i: int| 0 <= i < a1.len() implies same_payload(#[trigger] a1[i], b1[i]) by {
            assert(same_payload(a[i + 1], b[i + 1]));
        }
        lemma_message_of_payloads(a1, b1);
    }
}

/// Where the move from the receive buffer to the receive queue stops: at
/// the end of the buffer, at a full queue, at a gap in the sequence or at
/// the last sequence number.
pub proof fn lemma_admit_stop(queue_len: nat, buf: Seq<SegmentView>, nxt: u32, wnd: nat)
    ensures
        ({
            let m = admit_count(queue_len, buf, nxt, wnd);
            m <= buf.len() && (m == buf.len() || queue_len + m >= wnd || buf[m as int].sn != nxt + m
                || nxt + m >= u32::MAX)
        }),
    decreases buf.len(),
{
    if buf.len() > 0 && queue_len < wnd && buf[0].sn == nxt && nxt < u32::MAX {
        let r = buf.skip(1);
        lemma_admit_stop(queue_len + 1, r, (nxt + 1) as u32, wnd);
        let m1 = admit_count(queue_len + 1, r, (nxt + 1) as u32, wnd);
        if m1 < r.len() {
            assert(r[m1 as int] == buf[m1 as int + 1]);
        }
    }
}

impl<U, C: KcpCallBack<U>> KcpControl<U, C> {
    /// The receive side while the fragments `f`, numbered from `base` on,
    /// come in: the receive queue holds the fragments up to the expected
    /// sequence number, in order, and the receive buffer holds later ones.
    pub open spec fn reassembling(&self, f: Seq<SegmentView>, base: u32) -> bool {
        &&& base <= self.rcv_nxt <= base + f.len()
        &&& f.len() <= self.recv_window
        &&& segs(self.rcv_queue@) == f.take(self.rcv_nxt - base)
        &&& forall|k: int|
            0 <= k < self.rcv_buf@.len() ==> {
                let x = #[trigger] segs(self.rcv_buf@)[k];
                x.sn > self.rcv_nxt && x.sn < base + f.len() && x == f[x.sn - base]
            }
    }

    /// Whether the fragment `i` has come in: it is in the receive queue or
    /// in the receive buffer.
    pub open spec fn arrived(&self, base: u32, i: int) -> bool {
        base + i < self.rcv_nxt || holds_sn(segs(self.rcv_buf@), (base + i) as u32)
    }
}

/// Fragments may come in in any order, and more than once: each delivery
/// keeps the receive side in order, marks its fragment as arrived, and
/// forgets no fragment that had arrived.
pub proof fn lemma_delivery_keeps_order<U, C: KcpCallBack<U>>(
    r: KcpControl<U, C>,
    r2: KcpControl<U, C>,
    seg: Segment,
    f: Seq<SegmentView>,
    base: u32,
    j: int,
)
    requires
        r.wf(),
        r.reassembling(f, base),
        base + f.len() <= u32::MAX,
        forall|i: int| 0 <= i < f.len() ==> (#[trigger] f[i]).sn == base + i,
        0 <= j < f.len(),
        seg@ == f[j],
        r2.recv_window == r.recv_window,
        if r.takes(seg@) {
            r2.took(&r, seg)
        } else {
            r2.rcv_queue@ == r.rcv_queue@ && r2.rcv_buf@ == r.rcv_buf@ && r2.rcv_nxt == r.rcv_nxt
        },
    ensures
        r2.reassembling(f, base),
        r2.arrived(base, j),
        forall|i: int| 0 <= i < f.len() && r.arrived(base, i) ==> r2.arrived(base, i),
{
    let buf = segs(r.rcv_buf@);
    let p = r.rcv_nxt - base;
    lemma_count_below(buf, seg.sn);
    if !r.takes(seg@) {
        assert(segs(r2.rcv_buf@) == buf);
        assert(segs(r2.rcv_queue@) == segs(r.rcv_queue@));
    } else {
        lemma_insert_keeps(buf, seg@);
        let pos = count_below(buf, seg.sn) as int;
        let held = r.rcv_buf@.insert(pos, seg);
        let hv = segs(held);
        assert(hv =~= buf.insert(pos, seg@));
        let wnd = r.recv_window as nat;
        let qlen = r.rcv_queue@.len();
        assert(qlen == segs(r.rcv_queue@).len());
        assert(qlen == p);
        let m = admit_count(qlen, hv, r.rcv_nxt, wnd);
        lemma_admit_run(qlen, hv, r.rcv_nxt, wnd);
        lemma_admit_stop(qlen, hv, r.rcv_nxt, wnd);
        lemma_segs_parts(held, held, m as int);
        lemma_segs_parts(r.rcv_queue@, held.take(m as int), 0);
        assert forall|k: int| 0 <= k < hv.len() implies (#[trigger] hv[k]).sn >= r.rcv_nxt
            && hv[k].sn < base + f.len() && hv[k] == f[hv[k].sn - base] by {
            if k < pos {
                assert(hv[k] == buf[k]);
            } else if k > pos {
                assert(hv[k] == buf[k - 1]);
            }
        }
        let q2 = segs(r2.rcv_queue@);
        let b2 = segs(r2.rcv_buf@);
        assert(q2 =~= f.take(p) + hv.take(m as int));
        assert(b2 =~= hv.skip(m as int));
        assert forall|k: int| 0 <= k < m implies hv[k] == f[p + k] by {
            assert(hv[k].sn == r.rcv_nxt + k);
        }
        assert(p + m <= f.len()) by {
            if m > 0 {
                assert(hv[m - 1].sn == r.rcv_nxt + (m - 1));
            }
        }
        assert(q2 =~= f.take(p + m));
        assert forall|k: int| 0 <= k < b2.len() implies ({
            let x = #[trigger] b2[k];
            x.sn > r2.rcv_nxt && x.sn < base + f.len() && x == f[x.sn - base]
        }) by {
            assert(b2[k] == hv[k + m]);
            if m > 0 {
                assert(hv[m - 1].sn < hv[k + m].sn);
            } else {
                assert(hv[0].sn != r.rcv_nxt) by {
                    assert(m == 0);
                }
                if k > 0 {
                    assert(hv[0].sn < hv[k].sn);
                }
            }
            if k > 0 {
                assert(hv[m as int].sn < hv[k + m].sn);
            }
        }
        if pos < m {
            assert(hv[pos].sn == r.rcv_nxt + pos);
        } else {
            assert(b2[pos - m] == hv[pos]);
            assert(holds_sn(b2, seg.sn));
        }
        assert forall|i: int| 0 <= i < f.len() && r.arrived(base, i) implies r2.arrived(
            base,
            i,
        ) by {
            if base + i >= r.rcv_nxt {
                let sn = (base + i) as u32;
                let w = choose|w: int| 0 <= w < buf.len() && (#[trigger] buf[w]).sn == sn;
                let w2 = if w < pos {
                    w
                } else {
                    w + 1
                };
                assert(hv[w2] == buf[w]);
                if w2 < m {
                    assert(hv[w2].sn == r.rcv_nxt + w2);
                } else {
                    assert(b2[w2 - m] == hv[w2]);
                    assert(holds_sn(b2, sn));
                }
            }
        }
    }
}

/// Once every fragment of a payload has come in, in whatever order, the
/// receive queue holds the payload as one complete message: `receive`
/// answers its length and hands out its bytes. Until then, a queue that
/// holds some leading fragments counts as an incomplete message.
pub proof fn lemma_fragments_arrive<U, C: KcpCallBack<U>>(
    r: KcpControl<U, C>,
    f: Seq<SegmentView>,
    base: u32,
    data: Seq<u8>,
    mss: nat,
    room: nat,
)
    requires
        mss > 0,
        mss <= u32::MAX,
        carries(f, base, data, mss),
        r.wf(),
        r.reassembling(f, base),
        data.len() <= room,
        room <= usize::MAX,
    ensures
        (forall|i: int| 0 <= i < f.len() ==> r.arrived(base, i)) ==> {
            &&& segs(r.rcv_queue@) == f
            &&& message_bytes(segs(r.rcv_queue@)) == data
            &&& receive_spec(segs(r.rcv_queue@), Some(room)) == Ok::<usize, KcpError>(
                data.len() as usize,
            )
        },
        base < r.rcv_nxt < base + f.len() ==> peek_spec(segs(r.rcv_queue@)) == Err::<
            usize,
            KcpError,
        >(KcpError::IncompleteMessage),
        r.rcv_nxt == base ==> peek_spec(segs(r.rcv_queue@)) == Err::<usize, KcpError>(
            KcpError::QueueEmpty,
        ),
{
    let c = chunks(data, mss, false);
    let p = r.rcv_nxt - base;
    lemma_seg_count_bounds(data.len(), mss);
    lemma_fragments_reassemble(data, mss);
    lemma_message_of_payloads(f, c);
    if forall|i: int| 0 <= i < f.len() ==> r.arrived(base, i) {
        if p < f.len() {
            assert(r.arrived(base, p));
            let sn = (base + p) as u32;
            let w = choose|w: int|
                0 <= w < segs(r.rcv_buf@).len() && (#[trigger] segs(r.rcv_buf@)[w]).sn == sn;
            assert(segs(r.rcv_buf@)[w].sn > r.rcv_nxt);
        }
        assert(f.take(p) =~= f);
    }
    if base < r.rcv_nxt < base + f.len() {
        let q = f.take(p);
        let cq = c.take(p);
        assert(same_payload(f[0], c[0]));
        assert(q[0] == f[0]);
        assert(cq[0] == c[0]);
        assert(peek_spec(cq) == Err::<usize, KcpError>(KcpError::IncompleteMessage));
    }
    if r.rcv_nxt == base {
        assert(f.take(0).len() == 0);
    }
}

/// Where every segment of the send buffer is new, a flush transmits each,
/// in the order of the buffer.
pub proof fn lemma_new_segments_go_out(b: Seq<SegmentView>, t: Tick)
    requires
        forall|i: int| 0 <= i < b.len() ==> (#[trigger] b[i]).xmit == 0,
    ensures
        data_wires(b, t) == Seq::new(b.len(), |i: int| wire(resent(b[i], t))),
        count_kind(b, t, Resend::Timeout) == 0,
        count_kind(b, t, Resend::Fast) == 0,
    decreases b.len(),
{
    if b.len() > 0 {
        let r = b.drop_last();
        assert forall|i: int| 0 <= i < r.len() implies (#[trigger] r[i]).xmit == 0 by {
            assert(r[i] == b[i]);
        }
        lemma_new_segments_go_out(r, t);
        assert(b.last() == b[b.len() - 1]);
        assert(resend_kind(b.last(), t) == Resend::First);
        assert(data_wires(b, t) =~= Seq::new(b.len(), |i: int| wire(resent(b[i], t))));
    } else {
        assert(data_wires(b, t) =~= Seq::new(b.len(), |i: int| wire(resent(b[i], t))));
    }
}

/// The segments that a list of datagrams starts with, one per datagram.
pub open spec fn first_segments(out: Seq<Seq<u8>>) -> Seq<SegmentView> {
    Seq::new(out.len(), |i: int| decode_spec(out[i]).unwrap())
}

/// The fragments of a payload leave the sender in order. The sender is in
/// packet mode, has nothing queued, in flight or pending, and its windows
/// let the whole payload go at once; it sends the payload and flushes once.
/// The flush emits one datagram per fragment; each decodes to a data
/// segment of the conversation, and together they are the fragments of the
/// payload, numbered from the sender's next sequence number on.
pub proof fn lemma_flush_sends_fragments<U, C: KcpCallBack<U>>(
    s0: KcpControl<U, C>,
    s1: KcpControl<U, C>,
    s2: KcpControl<U, C>,
    out: Seq<Seq<u8>>,
    payload: Seq<u8>,
)
    requires
        s0.wf(),
        !s0.streaming_mode,
        s0.snd_queue@.len() == 0 && s0.snd_buf@.len() == 0 && s0.acklist@.len() == 0,
        s0.probe.bits == 0,
        s0.snd_una == s0.snd_nxt,
        s0.rmt_wnd > 0,
        s0.wnd_unused_spec() < 65536,
        seg_count(payload.len(), s0.mss as nat) < s0.recv_window,
        seg_count(payload.len(), s0.mss as nat) <= 256,
        seg_count(payload.len(), s0.mss as nat) <= s0.send_limit_spec(),
        s0.snd_nxt + seg_count(payload.len(), s0.mss as nat) <= u32::MAX,
        s1 == (KcpControl { snd_queue: s1.snd_queue, ..s0 }),
        segs(s1.snd_queue@) == send_queue_after(
            segs(s0.snd_queue@),
            payload,
            s0.mss as nat,
            s0.recv_window as nat,
            s0.streaming_mode,
        ),
        s2.flushed(&s1, out),
    ensures
        out.len() == seg_count(payload.len(), s0.mss as nat),
        carries(first_segments(out), s0.snd_nxt, payload, s0.mss as nat),
        forall|i: int|
            0 <= i < out.len() ==> {
                &&& decode_spec(#[trigger] out[i]).is_some()
                &&& decode_spec(out[i]).unwrap().conv == s0.sealed.conv()
                &&& decode_spec(out[i]).unwrap().cmd == IKCP_CMD_PUSH
                &&& decode_spec(out[i]).unwrap().wf()
            },
{
    let mss = s0.mss as nat;
    let n = seg_count(payload.len(), mss);
    let c = chunks(payload, mss, false);
    lemma_fragments_reassemble(payload, mss);
    let queued = segs(s1.snd_queue@);
    assert(segs(s0.snd_queue@) =~= Seq::<SegmentView>::empty());
    assert(payload.skip(0) =~= payload);
    assert(queued =~= c);
    assert(s1.snd_queue@.len() == queued.len());
    let k = fill_count(s1.snd_queue@.len(), s1.snd_una, s1.snd_nxt, s1.send_limit_spec());
    assert(k == n);
    let b = s1.filled_buf();
    let t = s1.tick_spec();
    assert(segs(s1.snd_buf@) =~= Seq::<SegmentView>::empty());
    assert(b.len() == n);
    assert forall|i: int| 0 <= i < b.len() implies (#[trigger] b[i]).xmit == 0 by {}
    lemma_new_segments_go_out(b, t);
    let plan = probe_plan(s1.rmt_wnd, s1.probe_wait, s1.ts_probe, s1.current);
    assert(!plan.2);
    assert(0u32 & 1u32 != 1u32 && 0u32 & 2u32 != 2u32) by (bit_vector);
    assert(probe_wires(0, s1.sealed.conv(), s1.wnd_unused_spec(), s1.rcv_nxt)
        =~= Seq::<Seq<u8>>::empty());
    assert(ack_wires(s1.acklist@, s1.sealed.conv(), s1.wnd_unused_spec(), s1.rcv_nxt)
        =~= Seq::<Seq<u8>>::empty());
    assert(out =~= data_wires(b, t));
    let f = first_segments(out);
    assert forall|i: int| 0 <= i < out.len() implies {
        &&& decode_spec(#[trigger] out[i]) == Some(carried(resent(b[i], t)))
        &&& b[i].sn == s0.snd_nxt + i
        &&& same_payload(b[i], c[i])
    } by {
        let y = resent(b[i], t);
        assert(c[i].wf());
        assert(b[i] == stamped(
            queued[i],
            s1.sealed.conv(),
            s1.wnd_unused_spec(),
            s1.current,
            (s1.snd_nxt + i) as u32,
            s1.rcv_nxt,
            s1.rx_rto,
        ));
        assert(c[i] == chunk(payload, mss, n, i, false));
        assert(y.frg < 256);
        lemma_decode_wire(y, Seq::empty());
        assert(wire(y) + Seq::<u8>::empty() =~= wire(y));
        assert(out[i] == wire(y));
    }
    assert forall|i: int| 0 <= i < f.len() implies (#[trigger] f[i]).sn == s0.snd_nxt + i
        && same_payload(f[i], c[i]) by {
        assert(decode_spec(out[i]) == Some(carried(resent(b[i], t))));
    }
    assert forall|i: int| 0 <= i < out.len() implies {
        &&& decode_spec(#[trigger] out[i]).is_some()
        &&& decode_spec(out[i]).unwrap().conv == s0.sealed.conv()
        &&& decode_spec(out[i]).unwrap().cmd == IKCP_CMD_PUSH
        &&& decode_spec(out[i]).unwrap().wf()
    } by {
        assert(decode_spec(out[i]) == Some(carried(resent(b[i], t))));
        assert(c[i].wf());
    }
}

/// Nothing in flight is forgotten by a flush: every segment of the send
/// buffer stays there, and every segment that is new, timed out or skipped
/// often enough goes out in a datagram of its own. A segment that goes out
/// again counts one transmission more than before.
pub proof fn lemma_due_segments_go_out(b: Seq<SegmentView>, t: Tick, i: int)
    requires
        0 <= i < b.len(),
        resend_kind(b[i], t) != Resend::Keep,
    ensures
        resent_all(b, t).len() == b.len(),
        resent_all(b, t)[i].sn == b[i].sn,
        b[i].xmit < u32::MAX ==> resent_all(b, t)[i].xmit == b[i].xmit + 1,
        exists|j: int|
            0 <= j < data_wires(b, t).len() && #[trigger] data_wires(b, t)[j] == wire(
                resent(b[i], t),
            ),
    decreases b.len(),
{
    let r = b.drop_last();
    if i == b.len() - 1 {
        let w = data_wires(b, t);
        assert(w[w.len() - 1] == wire(resent(b[i], t)));
    } else {
        assert(r[i] == b[i]);
        lemma_due_segments_go_out(r, t, i);
        let j = choose|j: int|
            0 <= j < data_wires(r, t).len() && #[trigger] data_wires(r, t)[j] == wire(
                resent(r[i], t),
            );
        assert(data_wires(b, t)[j] == data_wires(r, t)[j]);
    }
}

/// After a flush the send buffer holds no more segments than the window
/// allows, which is the smallest of the send window, the remote window and,
/// under congestion control, the congestion window. This holds of a flush
/// that finds no more in flight than the window allows and in which no
/// segment times out or is retransmitted fast; such a retransmission
/// narrows the congestion window below what is in flight.
pub proof fn lemma_window_safety<U, C: KcpCallBack<U>>(
    prev: KcpControl<U, C>,
    next: KcpControl<U, C>,
    out: Seq<Seq<u8>>,
)
    requires
        prev.wf(),
        next.flushed(&prev, out),
        prev.snd_nxt - prev.snd_una <= prev.send_limit_spec(),
        count_kind(prev.filled_buf(), prev.tick_spec(), Resend::Timeout) == 0,
        count_kind(prev.filled_buf(), prev.tick_spec(), Resend::Fast) == 0,
    ensures
        next.cwnd >= 1,
        next.snd_buf@.len() <= next.send_window,
        next.snd_buf@.len() <= next.rmt_wnd,
        !next.nocwnd ==> next.snd_buf@.len() <= next.cwnd,
        next.snd_buf@.len() <= next.send_limit_spec(),
{
    lemma_sorted_fits(segs(prev.snd_buf@), prev.snd_una, prev.snd_nxt);
    assert(segs(next.snd_buf@).len() == next.snd_buf@.len());
    assert(segs(prev.snd_buf@).len() == prev.snd_buf@.len());
    assert(resent_all(prev.filled_buf(), prev.tick_spec()).len() == prev.filled_buf().len());
}

/// The oldest unacknowledged and the next expected sequence number never
/// go back: not when an inbound segment is processed, not in a flush, and
/// not when a message is handed to the application.
pub proof fn lemma_sequence_numbers_never_go_back<U, C: KcpCallBack<U>>(
    prev: KcpControl<U, C>,
    next: KcpControl<U, C>,
    seg: Segment,
    out: Seq<Seq<u8>>,
    k: nat,
)
    requires
        prev.wf(),
        next.after_segment(&prev, seg) || next.flushed(&prev, out) || next.received_from(&prev, k),
    ensures
        next.snd_una >= prev.snd_una,
        next.rcv_nxt >= prev.rcv_nxt,
{
    if next.after_segment(&prev, seg) {
        let s = seg@;
        let b0 = segs(prev.snd_buf@);
        lemma_count_below(b0, s.una);
        let k1 = count_below(b0, s.una) as int;
        lemma_skip_keeps(b0, k1, prev.snd_una, prev.snd_nxt);
        let b1 = b0.skip(k1);
        lemma_count_below(b1, s.sn);
        if holds_sn(b1, s.sn) {
            lemma_remove_keeps(b1, count_below(b1, s.sn) as int, prev.snd_una, prev.snd_nxt);
        }
        let b2 = if holds_sn(b1, s.sn) {
            b1.remove(count_below(b1, s.sn) as int)
        } else {
            b1
        };
        lemma_bumped_keeps(b2, s.sn, prev.snd_una, prev.snd_nxt);
        let b = KcpControl::<U, C>::snd_buf_after(b0, s);
        if b.len() > 0 {
            assert(prev.snd_una <= b[0].sn);
        }
    }
}

/// A payload that fits one segment arrives as it was sent. The sender has
/// nothing queued, in flight or pending and its windows are open; it sends
/// the payload and flushes once. The flush emits exactly one datagram. A
/// receiver of the same conversation that expects the sender's sequence
/// number and holds nothing takes that datagram as input, which is one
/// segment; its next `receive`, with a buffer as long as the payload or
/// longer, then answers the length of the payload, and the message at the
/// head of its receive queue is the payload. Where that `receive` is no
/// peek, it leaves the receive queue empty.
pub proof fn lemma_small_payload_arrives<U, C: KcpCallBack<U>, V, D: KcpCallBack<V>>(
    s0: KcpControl<U, C>,
    s1: KcpControl<U, C>,
    s2: KcpControl<U, C>,
    out: Seq<Seq<u8>>,
    r0: KcpControl<V, D>,
    r1: KcpControl<V, D>,
    r2: KcpControl<V, D>,
    n: nat,
    payload: Seq<u8>,
    room: nat,
)
    requires
        s0.wf(),
        r0.wf(),
        payload.len() <= s0.mss,
        payload.len() > 0 || !s0.streaming_mode,
        s0.snd_queue@.len() == 0 && s0.snd_buf@.len() == 0 && s0.acklist@.len() == 0,
        s0.probe.bits == 0,
        s0.snd_una == s0.snd_nxt && s0.snd_nxt < u32::MAX,
        s0.rmt_wnd > 0 && s0.send_window > 0 && s0.recv_window > 1,
        s0.wnd_unused_spec() < 65536,
        s1 == (KcpControl { snd_queue: s1.snd_queue, ..s0 }),
        segs(s1.snd_queue@) == send_queue_after(
            segs(s0.snd_queue@),
            payload,
            s0.mss as nat,
            s0.recv_window as nat,
            s0.streaming_mode,
        ),
        s2.flushed(&s1, out),
        r0.sealed.conv() == s0.sealed.conv(),
        r0.rcv_nxt == s0.snd_nxt,
        r0.rcv_queue@.len() == 0 && r0.rcv_buf@.len() == 0 && r0.recv_window > 0,
        out.len() > 0 ==> KcpControl::input_run(r0, out[0], r1, n),
        payload.len() <= room,
        r2.received_from(&r1, message_count(segs(r1.rcv_queue@))),
    ensures
        out.len() == 1,
        n == 1,
        r2.rcv_queue@.len() == 0,
        r2.rcv_buf@.len() == 0,
        r2.rcv_nxt == r1.rcv_nxt,
        receive_spec(segs(r1.rcv_queue@), Some(room)) == Ok::<usize, KcpError>(
            payload.len() as usize,
        ),
        message_bytes(segs(r1.rcv_queue@)) == payload,
{
    let mss = s0.mss as nat;
    lemma_chunk_bounds(payload.len(), mss, 0);
    assert(0 * mss == 0) by (nonlinear_arith);
    let queued = segs(s1.snd_queue@);
    assert(segs(s0.snd_queue@) =~= Seq::<SegmentView>::empty());
    assert(payload.skip(0) =~= payload);
    assert(payload.subrange(0, payload.len() as int) =~= payload);
    let c = chunks(payload, mss, s0.streaming_mode);
    assert(c.len() == 1);
    assert(c[0] == SegmentView::blank(0, payload));
    assert(queued =~= seq![SegmentView::blank(0, payload)]);
    assert(queued.len() == 1);
    assert(s1.snd_queue@.len() == queued.len());

    let k = fill_count(
        s1.snd_queue@.len(),
        s1.snd_una,
        s1.snd_nxt,
        s1.send_limit_spec(),
    );
    assert(k == 1);
    let b = s1.filled_buf();
    let t = s1.tick_spec();
    let x = stamped(
        queued[0],
        s1.sealed.conv(),
        s1.wnd_unused_spec(),
        s1.current,
        s1.snd_nxt,
        s1.rcv_nxt,
        s1.rx_rto,
    );
    assert(segs(s1.snd_buf@) =~= Seq::<SegmentView>::empty());
    assert(b =~= seq![x]);
    assert(resend_kind(x, t) == Resend::First);
    let y = resent(x, t);
    assert(b.drop_last() =~= Seq::<SegmentView>::empty());
    assert(b.last() == x);
    assert(data_wires(b.drop_last(), t) =~= Seq::<Seq<u8>>::empty());
    assert(data_wires(b, t) =~= seq![wire(y)]);
    let plan = probe_plan(s1.rmt_wnd, s1.probe_wait, s1.ts_probe, s1.current);
    assert(!plan.2);
    assert(0u32 & 1u32 != 1u32 && 0u32 & 2u32 != 2u32) by (bit_vector);
    assert(probe_wires(0, s1.sealed.conv(), s1.wnd_unused_spec(), s1.rcv_nxt)
        =~= Seq::<Seq<u8>>::empty());
    assert(ack_wires(s1.acklist@, s1.sealed.conv(), s1.wnd_unused_spec(), s1.rcv_nxt)
        =~= Seq::<Seq<u8>>::empty());
    assert(out =~= seq![wire(y)]);

    assert(y.wf());
    lemma_decode_wire(y, Seq::empty());
    lemma_header_len(y);
    assert(wire(y) + Seq::<u8>::empty() =~= wire(y));
    let s = carried(y);
    assert(decode_spec(out[0]) == Some(s));
    assert(r0.accepts(s));
    let rest = out[0].skip(24 + s.len);
    assert(rest.len() == 0);
    let (mid, seg) = choose|mid: KcpControl<V, D>, seg: Segment|
        seg@ == s && #[trigger] mid.after_segment(&r0, seg) && KcpControl::input_run(
            mid,
            rest,
            r1,
            (n - 1) as nat,
        );
    assert(decode_spec(rest).is_none());
    assert(r1 == mid && n == 1);
    assert(seg@.cmd == IKCP_CMD_PUSH);
    assert(seg@.data == payload);
    assert(r0.accepts(seg@));
    assert(segs(r0.rcv_buf@) =~= Seq::<SegmentView>::empty());
    assert(!holds_sn(segs(r0.rcv_buf@), seg.sn));
    assert(r0.takes(seg@));
    assert(r1.took(&r0, seg));
    let held = r0.rcv_buf@.insert(0, seg);
    assert(held =~= seq![seg]);
    assert(segs(held) =~= seq![seg@]);
    assert(segs(held).skip(1) =~= Seq::<SegmentView>::empty());
    assert(admit_count(1, segs(held).skip(1), (r0.rcv_nxt + 1) as u32, r0.recv_window as nat) == 0);
    assert(admit_count(0, segs(held), r0.rcv_nxt, r0.recv_window as nat) == 1);
    assert(held.take(1) =~= held);
    assert(r1.rcv_queue@ =~= seq![seg]);
    assert(segs(r1.rcv_queue@) =~= seq![seg@]);
    assert(r1.rcv_buf@ =~= Seq::<Segment>::empty());
    assert(segs(r1.rcv_buf@) =~= Seq::<SegmentView>::empty());
    assert(message_count(segs(r1.rcv_queue@)) == 1);
    assert(r1.rcv_queue@.skip(1) =~= Seq::<Segment>::empty());
    assert(admit_count(0, segs(r1.rcv_buf@), r1.rcv_nxt, r1.recv_window as nat) == 0);
}

} // verus!
