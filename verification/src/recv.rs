use vstd::prelude::*;
use crate::constants::{KcpError, KcpLogFlags, KcpProbeFlags};
use crate::kcp::{KcpCallBack, KcpControl};
use crate::segment::{
    all_wf, drop_front, lemma_join_wf, lemma_segs_parts, lemma_skip_keeps, segs, SegmentView,
};

verus! {

/// Number of segments of the message at the head of a receive queue: up to
/// and including the first segment with fragment index 0, or all of them
/// where there is none.
pub open spec fn message_count(q: Seq<SegmentView>) -> nat
    decreases q.len(),
{
    if q.len() == 0 {
        0
    } else if q[0].frg == 0 {
        1
    } else {
        1 + message_count(q.skip(1))
    }
}

/// Sum of the length fields of the segments of the message at the head.
pub open spec fn message_len(q: Seq<SegmentView>) -> nat
    decreases q.len(),
{
    if q.len() == 0 {
        0
    } else if q[0].frg == 0 {
        q[0].len as nat
    } else {
        q[0].len as nat + message_len(q.skip(1))
    }
}

/// The payloads of the segments of the message at the head, joined in order.
pub open spec fn message_bytes(q: Seq<SegmentView>) -> Seq<u8>
    decreases q.len(),
{
    if q.len() == 0 {
        Seq::empty()
    } else if q[0].frg == 0 {
        q[0].data
    } else {
        q[0].data + message_bytes(q.skip(1))
    }
}

/// What `peek_size` answers on a receive queue.
pub open spec fn peek_spec(q: Seq<SegmentView>) -> Result<usize, KcpError> {
    if q.len() == 0 {
        Err(KcpError::QueueEmpty)
    } else if q[0].frg != 0 && q.len() < q[0].frg + 1 {
        Err(KcpError::IncompleteMessage)
    } else if message_len(q) > usize::MAX {
        Err(KcpError::BufferTooSmall)
    } else {
        Ok(message_len(q) as usize)
    }
}

/// What `receive` answers on a receive queue, given the size of the
/// caller's buffer where there is one.
pub open spec fn receive_spec(q: Seq<SegmentView>, room: Option<nat>) -> Result<usize, KcpError> {
    match peek_spec(q) {
        Err(e) => Err(e),
        Ok(n) => if room.is_some() && n > room.unwrap() {
            Err(KcpError::BufferTooSmall)
        } else {
            Ok(n)
        },
    }
}

/// How many segments at the head of the receive buffer move to the receive
/// queue: each must carry the next expected sequence number, and the queue
/// must have room below the receive window.
pub open spec fn admit_count(queue_len: nat, buf: Seq<SegmentView>, nxt: u32, wnd: nat) -> nat
    decreases buf.len(),
{
    if buf.len() > 0 && queue_len < wnd && buf[0].sn == nxt && nxt < u32::MAX {
        1 + admit_count(queue_len + 1, buf.skip(1), (nxt + 1) as u32, wnd)
    } else {
        0
    }
}

/// The message at the head has as many payload bytes as its length fields say.
pub proof fn lemma_message_bytes_len(q: Seq<SegmentView>)
    requires
        all_wf(q),
    ensures
        message_bytes(q).len() == message_len(q),
        message_count(q) <= q.len(),
        q.len() > 0 ==> message_count(q) >= 1,
    decreases q.len(),
{
    if q.len() > 0 && q[0].frg != 0 {
        assert(q[0].wf());
        lemma_message_bytes_len(q.skip(1));
    } else if q.len() > 0 {
        assert(q[0].wf());
    }
}

/// The text of the diagnostic line for a segment handed to the application.
/// Calls `format!`; nothing is stated of the text.
#[verifier::external_body]
fn recv_log_line(sn: u32) -> String {
    format!("recv sn={}", sn)
}

/// Writes `src` into `buf` from offset `off` on.
fn copy_at(buf: &mut [u8], off: usize, src: &Vec<u8>)
    requires
        off + src@.len() <= old(buf)@.len(),
    ensures
        final(buf)@ == old(buf)@.take(off as int) + src@ + old(buf)@.skip(off + src@.len()),
{
    let n = src.len();
    let room = buf.len();
    let mut j: usize = 0;
    while j < n
        invariant
            n == src@.len(),
            room == buf@.len(),
            j <= n,
            off + n <= buf@.len(),
            buf@.len() == old(buf)@.len(),
            buf@ == old(buf)@.take(off as int) + src@.take(j as int) + old(buf)@.skip(off + j),
        decreases n - j,
    {
        buf[off + j] = src[j];
        assert(buf@ =~= old(buf)@.take(off as int) + src@.take(j + 1) + old(buf)@.skip(
            off + j + 1,
        ));
        j = j + 1;
    }
    assert(src@.take(n as int) =~= src@);
}

impl<U, C: KcpCallBack<U>> KcpControl<U, C> {
    /// Hands a diagnostic line to the logging sink, if there is one.
    fn __log(&self, s: String) {
        match &self.callback {
            Some(callback) => {
                callback.writelog(s.as_str(), self, self.sealed.user_data());
            },
            None => {},
        }
    }

    /// Whether a line of one of the categories in `mask` is to be logged:
    /// logging is on, the mask of this block shares a category with `mask`,
    /// and a sink is set.
    fn canlog(&self, mask: KcpLogFlags) -> (r: bool)
        ensures
            r == (self.sealed.mask().bits & mask.bits != 0 && self.sealed.logs()
                && self.callback.is_some()),
    {
        self.sealed.log_mask().intersects(mask) && self.sealed.write_log() && self.callback.is_some()
    }

    /// The size of the next complete message in the receive queue, which
    /// stays where it is.
    ///
    /// A message is the run of segments up to the first with fragment index
    /// 0. It is complete when that first segment has index 0 itself, or when
    /// the queue holds at least one segment more than the index of its head.
    /// A message longer than `usize::MAX` fits no buffer.
    pub fn peek_size(&self) -> (r: Result<usize, KcpError>)
        ensures
            r == peek_spec(segs(self.rcv_queue@)),
    {
        let ghost q = segs(self.rcv_queue@);
        if self.rcv_queue.is_empty() {
            return Err(KcpError::QueueEmpty);
        }
        let first_seg = &self.rcv_queue[0];
        assert(q[0] == first_seg@);
        if first_seg.frg == 0 {
            return Ok(first_seg.len as usize);
        }
        let n = self.rcv_queue.len();
        if (n as u64) < first_seg.frg as u64 + 1 {
            return Err(KcpError::IncompleteMessage);
        }
        let mut total: u128 = 0;
        let mut i: usize = 0;
        let mut done = false;
        assert(q.skip(0) =~= q);
        while i < n && !done
            invariant
                n == self.rcv_queue@.len(),
                q == segs(self.rcv_queue@),
                i <= n,
                total <= i * 0xffff_ffff,
                message_len(q) == total + if done {
                    0
                } else {
                    message_len(q.skip(i as int))
                },
            decreases n - i + if done { 0int } else { 1int },
        {
            let seg = &self.rcv_queue[i];
            assert(q.skip(i as int)[0] == seg@);
            assert(q.skip(i as int).skip(1) =~= q.skip(i + 1));
            total = total + seg.len as u128;
            if seg.frg == 0 {
                done = true;
            }
            i = i + 1;
        }
        if total > usize::MAX as u128 {
            return Err(KcpError::BufferTooSmall);
        }
        Ok(total as usize)
    }

    /// Copies the message at the head of the receive queue into `buf`.
    fn copy_message(&self, buf: &mut [u8])
        requires
            all_wf(segs(self.rcv_queue@)),
            message_len(segs(self.rcv_queue@)) <= old(buf)@.len(),
        ensures
            final(buf)@ == message_bytes(segs(self.rcv_queue@)) + old(buf)@.skip(
                message_len(segs(self.rcv_queue@)) as int,
            ),
    {
        let ghost q = segs(self.rcv_queue@);
        let n = self.rcv_queue.len();
        let room = buf.len();
        let mut off: usize = 0;
        let mut i: usize = 0;
        let mut done = false;
        assert(q.skip(0) =~= q);
        assert(message_bytes(q) =~= buf@.take(0) + message_bytes(q));
        while i < n && !done
            invariant
                n == self.rcv_queue@.len(),
                q == segs(self.rcv_queue@),
                all_wf(q),
                i <= n,
                buf@.len() == old(buf)@.len(),
                room == buf@.len(),
                message_len(q) <= buf@.len(),
                message_len(q) == off + if done {
                    0
                } else {
                    message_len(q.skip(i as int))
                },
                message_bytes(q) == buf@.take(off as int) + if done {
                    Seq::<u8>::empty()
                } else {
                    message_bytes(q.skip(i as int))
                },
                forall|k: int| off <= k < buf@.len() ==> buf@[k] == old(buf)@[k],
            decreases n - i + if done { 0int } else { 1int },
        {
            let seg = &self.rcv_queue[i];
            assert(q[i as int].wf());
            assert(q.skip(i as int)[0] == seg@);
            assert(q.skip(i as int).skip(1) =~= q.skip(i + 1));
            let ghost before = buf@;
            assert(message_len(q.skip(i as int)) >= seg.len);
            copy_at(buf, off, &seg.data);
            let ghost next = off + seg.data@.len();
            assert(buf@.take(next as int) =~= before.take(off as int) + seg.data@);
            assert(message_len(q.skip(i as int)) >= seg.len);
            if seg.frg == 0 {
                done = true;
            }
            off = off + seg.data.len();
            i = i + 1;
        }
        assert(buf@ =~= buf@.take(off as int) + old(buf)@.skip(off as int));
    }

    /// Moves segments from the head of the receive buffer to the receive
    /// queue while they carry the next expected sequence number and the
    /// queue has room, and advances the expected number by one for each.
    pub fn admit_in_order(&mut self) -> (m: usize)
        ensures
            *final(self) == (KcpControl {
                rcv_queue: final(self).rcv_queue,
                rcv_buf: final(self).rcv_buf,
                rcv_nxt: final(self).rcv_nxt,
                ..*old(self)
            }),
            m as nat == admit_count(
                old(self).rcv_queue@.len(),
                segs(old(self).rcv_buf@),
                old(self).rcv_nxt,
                old(self).recv_window as nat,
            ),
            m <= old(self).rcv_buf@.len(),
            final(self).rcv_queue@ == old(self).rcv_queue@ + old(self).rcv_buf@.take(m as int),
            final(self).rcv_buf@ == old(self).rcv_buf@.skip(m as int),
            final(self).rcv_nxt == old(self).rcv_nxt + m,
    {
        let mut m: usize = 0;
        let mut going = true;
        let ghost buf0 = old(self).rcv_buf@;
        assert(buf0.skip(0) =~= buf0);
        assert(self.rcv_queue@ =~= old(self).rcv_queue@ + buf0.take(0));
        while going
            invariant
                *self == (KcpControl {
                    rcv_queue: self.rcv_queue,
                    rcv_buf: self.rcv_buf,
                    rcv_nxt: self.rcv_nxt,
                    ..*old(self)
                }),
                buf0 == old(self).rcv_buf@,
                m <= buf0.len(),
                self.rcv_queue@ == old(self).rcv_queue@ + buf0.take(m as int),
                self.rcv_buf@ == buf0.skip(m as int),
                self.rcv_nxt == old(self).rcv_nxt + m,
                admit_count(
                    old(self).rcv_queue@.len(),
                    segs(buf0),
                    old(self).rcv_nxt,
                    old(self).recv_window as nat,
                ) == m + if going {
                    admit_count(
                        self.rcv_queue@.len(),
                        segs(self.rcv_buf@),
                        self.rcv_nxt,
                        self.recv_window as nat,
                    )
                } else {
                    0
                },
            decreases buf0.len() - m + if going { 1int } else { 0int },
        {
            if !self.rcv_buf.is_empty() && self.rcv_queue.len() < self.recv_window as usize
                && self.rcv_buf[0].sn == self.rcv_nxt && self.rcv_nxt < u32::MAX {
                let ghost before = self.rcv_buf@;
                assert(segs(before)[0] == before[0]@);
                let seg = self.rcv_buf.remove(0);
                assert(self.rcv_buf@ =~= before.skip(1));
                assert(segs(before).skip(1) =~= segs(self.rcv_buf@));
                self.rcv_queue.push(seg);
                self.rcv_nxt = self.rcv_nxt + 1;
                m = m + 1;
                assert(self.rcv_buf@ =~= buf0.skip(m as int));
                assert(self.rcv_queue@ =~= old(self).rcv_queue@ + buf0.take(m as int));
            } else {
                going = false;
            }
        }
        m
    }

    /// Hands the next complete message to the application.
    ///
    /// Fails as `peek_size` does, and with `BufferTooSmall` when `data` is
    /// there and shorter than the message; nothing changes then. Otherwise
    /// the payloads of the message's segments are written to the start of
    /// `data`, in order, and the message length is returned. Unless
    /// `is_peek` is set, those segments leave the receive queue. In either
    /// case segments that are next in sequence then move in from the
    /// receive buffer, and where the queue was full before and has room
    /// now, a window report is scheduled.
    pub fn receive(&mut self, data: Option<&mut [u8]>, is_peek: bool) -> (r: Result<
        usize,
        KcpError,
    >)
        requires
            old(self).wf(),
        ensures
            final(self).wf(),
            r == receive_spec(
                segs(old(self).rcv_queue@),
                match data {
                    Some(buf) => Some(buf@.len()),
                    None => None,
                },
            ),
            match data {
                Some(buf) => if r.is_ok() {
                    final(buf)@ == message_bytes(segs(old(self).rcv_queue@)) + buf@.skip(
                        r.unwrap() as int,
                    )
                } else {
                    final(buf)@ == buf@
                },
                None => true,
            },
            r.is_err() ==> *final(self) == *old(self),
            final(self).snd_una == old(self).snd_una,
            final(self).rcv_nxt >= old(self).rcv_nxt,
            r.is_ok() ==> final(self).received_from(
                old(self),
                if is_peek {
                    0
                } else {
                    message_count(segs(old(self).rcv_queue@))
                },
            ),
    {
        let ghost q = segs(self.rcv_queue@);
        let peeksize = match self.peek_size() {
            Ok(n) => n,
            Err(e) => {
                return Err(e);
            },
        };
        proof {
            lemma_message_bytes_len(q);
        }
        match data {
            Some(buf) => {
                if peeksize > buf.len() {
                    return Err(KcpError::BufferTooSmall);
                }
                self.copy_message(buf);
            },
            None => {},
        }
        let recover = self.rcv_queue.len() >= self.recv_window as usize;
        let n = self.rcv_queue.len();
        let mut i: usize = 0;
        let mut done = false;
        assert(q.skip(0) =~= q);
        while i < n && !done
            invariant
                n == self.rcv_queue@.len(),
                q == segs(self.rcv_queue@),
                *self == *old(self),
                i <= n,
                message_count(q) == i + if done {
                    0
                } else {
                    message_count(q.skip(i as int))
                },
            decreases n - i + if done { 0int } else { 1int },
        {
            let seg = &self.rcv_queue[i];
            assert(q.skip(i as int)[0] == seg@);
            assert(q.skip(i as int).skip(1) =~= q.skip(i + 1));
            if seg.frg == 0 {
                done = true;
            }
            if self.canlog(KcpLogFlags { bits: KcpLogFlags::DATA_RECV }) {
                let s = recv_log_line(seg.sn);
                self.__log(s);
            }
            i = i + 1;
        }
        let k: usize = if is_peek {
            0
        } else {
            i
        };
        drop_front(&mut self.rcv_queue, k);
        let m = self.admit_in_order();
        if self.rcv_queue.len() < self.recv_window as usize && recover {
            self.probe.insert(KcpProbeFlags::ASK_TELL);
        }
        proof {
            let buf0 = old(self).rcv_buf@;
            let que0 = old(self).rcv_queue@;
            lemma_segs_parts(buf0, buf0, m as int);
            lemma_segs_parts(que0, que0, k as int);
            lemma_segs_parts(que0.skip(k as int), buf0.take(m as int), 0);
            lemma_skip_keeps(segs(buf0), m as int, 0, 0);
            lemma_skip_keeps(segs(que0), k as int, 0, 0);
            lemma_join_wf(segs(que0).skip(k as int), segs(buf0).take(m as int));
        }
        Ok(peeksize)
    }

    /// The state after `k` segments were taken from the head of the receive
    /// queue of `prev`; a peek takes none.
    pub open spec fn received_from(&self, prev: &Self, k: nat) -> bool {
        let left = prev.rcv_queue@.skip(k as int);
        let m = admit_count(left.len(), segs(prev.rcv_buf@), prev.rcv_nxt, prev.recv_window as nat);
        let was_full = prev.rcv_queue@.len() >= prev.recv_window;
        &&& *self == (KcpControl {
            rcv_queue: self.rcv_queue,
            rcv_buf: self.rcv_buf,
            rcv_nxt: self.rcv_nxt,
            probe: self.probe,
            ..*prev
        })
        &&& self.rcv_queue@ == left + prev.rcv_buf@.take(m as int)
        &&& self.rcv_buf@ == prev.rcv_buf@.skip(m as int)
        &&& self.rcv_nxt == prev.rcv_nxt + m
        &&& self.probe.bits == if was_full && self.rcv_queue@.len() < prev.recv_window {
            prev.probe.bits | KcpProbeFlags::ASK_TELL
        } else {
            prev.probe.bits
        }
    }
}

} // verus!
