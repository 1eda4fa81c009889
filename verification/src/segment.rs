use vstd::prelude::*;

verus! {

/// What a segment is, as plain values.
pub struct SegmentView {
    pub conv: u32,
    pub cmd: u32,
    pub frg: u32,
    pub wnd: u32,
    pub ts: u32,
    pub sn: u32,
    pub una: u32,
    pub len: u32,
    pub resendts: u32,
    pub rto: u32,
    pub fastack: u32,
    pub xmit: u32,
    pub data: Seq<u8>,
}

/// The unit of wire data and of retransmission bookkeeping.
#[derive(Clone, Debug)]
pub struct Segment {
    /// conversation id
    pub conv: u32,
    /// command tag
    pub cmd: u32,
    /// fragment index, counting down to 0 at the last fragment of a message
    pub frg: u32,
    /// receive window advertised by the sender of the segment
    pub wnd: u32,
    /// send timestamp
    pub ts: u32,
    /// sequence number
    pub sn: u32,
    /// every sequence number below this one is acknowledged
    pub una: u32,
    /// payload length
    pub len: u32,
    /// time of the next retransmission
    pub resendts: u32,
    /// retransmission timeout of this segment
    pub rto: u32,
    /// how often a later segment was acknowledged before this one
    pub fastack: u32,
    /// how often the segment was transmitted
    pub xmit: u32,
    /// payload
    pub data: Vec<u8>,
}

impl View for Segment {
    type V = SegmentView;

    open spec fn view(&self) -> SegmentView {
        SegmentView {
            conv: self.conv,
            cmd: self.cmd,
            frg: self.frg,
            wnd: self.wnd,
            ts: self.ts,
            sn: self.sn,
            una: self.una,
            len: self.len,
            resendts: self.resendts,
            rto: self.rto,
            fastack: self.fastack,
            xmit: self.xmit,
            data: self.data@,
        }
    }
}

impl SegmentView {
    /// The payload length field agrees with the payload.
    pub open spec fn wf(self) -> bool {
        self.len as nat == self.data.len()
    }

    /// A segment with every header field zero but the fragment index.
    pub open spec fn blank(frg: u32, data: Seq<u8>) -> SegmentView {
        SegmentView {
            conv: 0,
            cmd: 0,
            frg,
            wnd: 0,
            ts: 0,
            sn: 0,
            una: 0,
            len: data.len() as u32,
            resendts: 0,
            rto: 0,
            fastack: 0,
            xmit: 0,
            data,
        }
    }
}

/// The views of a run of segments, in order.
pub open spec fn segs(q: Seq<Segment>) -> Seq<SegmentView> {
    q.map_values(|s: Segment| s@)
}

/// Every segment of the run has a payload of the length it states.
pub open spec fn all_wf(q: Seq<SegmentView>) -> bool {
    forall|i: int| 0 <= i < q.len() ==> (#[trigger] q[i]).wf()
}

/// The sequence numbers of the run increase strictly.
pub open spec fn sorted_sn(q: Seq<SegmentView>) -> bool {
    forall|i: int, j: int| 0 <= i < j < q.len() ==> (#[trigger] q[i]).sn < (#[trigger] q[j]).sn
}

/// Every sequence number of the run is at least `lo` and below `hi`.
pub open spec fn sn_within(q: Seq<SegmentView>, lo: u32, hi: u32) -> bool {
    forall|i: int| 0 <= i < q.len() ==> lo <= (#[trigger] q[i]).sn < hi
}

/// Number of segments at the head of the run whose sequence number is below `sn`.
pub open spec fn count_below(q: Seq<SegmentView>, sn: u32) -> nat
    decreases q.len(),
{
    if q.len() > 0 && q[0].sn < sn {
        1 + count_below(q.skip(1), sn)
    } else {
        0
    }
}

/// Whether a segment of the run carries the sequence number `sn`.
pub open spec fn holds_sn(q: Seq<SegmentView>, sn: u32) -> bool {
    exists|i: int| 0 <= i < q.len() && (#[trigger] q[i]).sn == sn
}

/// In a run with increasing sequence numbers, the segments below `sn` are
/// exactly the first `count_below` ones, and `sn` itself can only sit right
/// after them.
pub proof fn lemma_count_below(q: Seq<SegmentView>, sn: u32)
    requires
        sorted_sn(q),
    ensures
        count_below(q, sn) <= q.len(),
        forall|i: int| 0 <= i < count_below(q, sn) ==> (#[trigger] q[i]).sn < sn,
        forall|i: int| count_below(q, sn) <= i < q.len() ==> (#[trigger] q[i]).sn >= sn,
        holds_sn(q, sn) <==> (count_below(q, sn) < q.len() && q[count_below(q, sn) as int].sn == sn),
    decreases q.len(),
{
    if q.len() > 0 && q[0].sn < sn {
        let r = q.skip(1);
        assert forall|i: int, j: int| 0 <= i < j < r.len() implies (#[trigger] r[i]).sn < (
        #[trigger] r[j]).sn by {
            assert(r[i] == q[i + 1] && r[j] == q[j + 1]);
        }
        lemma_count_below(r, sn);
        let k = count_below(q, sn);
        assert forall|i: int| 0 <= i < k implies (#[trigger] q[i]).sn < sn by {
            if i > 0 {
                assert(q[i] == r[i - 1]);
            }
        }
        assert forall|i: int| k <= i < q.len() implies (#[trigger] q[i]).sn >= sn by {
            assert(q[i] == r[i - 1]);
        }
        if holds_sn(q, sn) {
            let w = choose|i: int| 0 <= i < q.len() && (#[trigger] q[i]).sn == sn;
            assert(w >= k);
            if w > k {
                assert(q[k as int].sn < q[w].sn);
            }
        }
    } else {
        if holds_sn(q, sn) {
            let w = choose|i: int| 0 <= i < q.len() && (#[trigger] q[i]).sn == sn;
            if w > 0 {
                assert(q[0].sn < q[w].sn);
            }
        }
    }
}

/// Views commute with dropping, keeping and joining segments.
pub proof fn lemma_segs_parts(q: Seq<Segment>, r: Seq<Segment>, k: int)
    requires
        0 <= k <= q.len(),
    ensures
        segs(q.skip(k)) == segs(q).skip(k),
        segs(q.take(k)) == segs(q).take(k),
        segs(q + r) == segs(q) + segs(r),
{
    assert(segs(q.skip(k)) =~= segs(q).skip(k));
    assert(segs(q.take(k)) =~= segs(q).take(k));
    assert(segs(q + r) =~= segs(q) + segs(r));
}

/// A run that loses segments at its head stays ordered, within its bounds
/// and with payloads of the stated lengths.
pub proof fn lemma_skip_keeps(q: Seq<SegmentView>, k: int, lo: u32, hi: u32)
    requires
        0 <= k <= q.len(),
    ensures
        sorted_sn(q) ==> sorted_sn(q.skip(k)),
        all_wf(q) ==> all_wf(q.skip(k)),
        all_wf(q) ==> all_wf(q.take(k)),
        sn_within(q, lo, hi) ==> sn_within(q.skip(k), lo, hi),
{
    let r = q.skip(k);
    if sorted_sn(q) {
        assert forall|i: int, j: int| 0 <= i < j < r.len() implies (#[trigger] r[i]).sn < (
        #[trigger] r[j]).sn by {
            assert(r[i] == q[i + k] && r[j] == q[j + k]);
        }
    }
    if all_wf(q) {
        assert forall|i: int| 0 <= i < r.len() implies (#[trigger] r[i]).wf() by {
            assert(r[i] == q[i + k]);
        }
        let t = q.take(k);
        assert forall|i: int| 0 <= i < t.len() implies (#[trigger] t[i]).wf() by {
            assert(t[i] == q[i]);
        }
    }
    if sn_within(q, lo, hi) {
        assert forall|i: int| 0 <= i < r.len() implies lo <= (#[trigger] r[i]).sn < hi by {
            assert(r[i] == q[i + k]);
        }
    }
}

/// Two runs of segments with payloads of the stated lengths join into one.
pub proof fn lemma_join_wf(a: Seq<SegmentView>, b: Seq<SegmentView>)
    requires
        all_wf(a),
        all_wf(b),
    ensures
        all_wf(a + b),
{
    let c = a + b;
    assert forall|i: int| 0 <= i < c.len() implies (#[trigger] c[i]).wf() by {
        if i < a.len() {
            assert(c[i] == a[i]);
        } else {
            assert(c[i] == b[i - a.len()]);
        }
    }
}

/// A run that loses one segment stays ordered, within its bounds and with
/// payloads of the stated lengths.
pub proof fn lemma_remove_keeps(q: Seq<SegmentView>, k: int, lo: u32, hi: u32)
    requires
        0 <= k < q.len(),
    ensures
        sorted_sn(q) ==> sorted_sn(q.remove(k)),
        all_wf(q) ==> all_wf(q.remove(k)),
        sn_within(q, lo, hi) ==> sn_within(q.remove(k), lo, hi),
{
    let r = q.remove(k);
    assert forall|i: int| 0 <= i < r.len() implies #[trigger] r[i] == q[if i < k {
        i
    } else {
        i + 1
    }] by {}
    if sorted_sn(q) {
        assert forall|i: int, j: int| 0 <= i < j < r.len() implies (#[trigger] r[i]).sn < (
        #[trigger] r[j]).sn by {
            let a = if i < k { i } else { i + 1 };
            let b = if j < k { j } else { j + 1 };
            assert(r[i] == q[a] && r[j] == q[b]);
        }
    }
    if all_wf(q) {
        assert forall|i: int| 0 <= i < r.len() implies (#[trigger] r[i]).wf() by {
            let a = if i < k { i } else { i + 1 };
            assert(r[i] == q[a]);
        }
    }
    if sn_within(q, lo, hi) {
        assert forall|i: int| 0 <= i < r.len() implies lo <= (#[trigger] r[i]).sn < hi by {
            let a = if i < k { i } else { i + 1 };
            assert(r[i] == q[a]);
        }
    }
}

/// A segment that goes in right after the segments below it, into an
/// ordered run that does not hold its sequence number, leaves the run
/// ordered.
pub proof fn lemma_insert_keeps(q: Seq<SegmentView>, s: SegmentView)
    requires
        sorted_sn(q),
        !holds_sn(q, s.sn),
    ensures
        count_below(q, s.sn) <= q.len(),
        sorted_sn(q.insert(count_below(q, s.sn) as int, s)),
        all_wf(q) && s.wf() ==> all_wf(q.insert(count_below(q, s.sn) as int, s)),
        holds_sn(q.insert(count_below(q, s.sn) as int, s), s.sn),
{
    lemma_count_below(q, s.sn);
    let k = count_below(q, s.sn) as int;
    let r = q.insert(k, s);
    assert forall|i: int| 0 <= i < r.len() implies #[trigger] r[i] == (if i < k {
        q[i]
    } else if i == k {
        s
    } else {
        q[i - 1]
    }) by {}
    assert forall|i: int, j: int| 0 <= i < j < r.len() implies (#[trigger] r[i]).sn < (
    #[trigger] r[j]).sn by {
        if i < k {
            assert(r[i] == q[i]);
        } else if i > k {
            assert(r[i] == q[i - 1]);
        }
        if j < k {
            assert(r[j] == q[j]);
        } else if j > k {
            assert(r[j] == q[j - 1]);
            assert(q[j - 1].sn >= s.sn);
            assert(q[j - 1].sn != s.sn);
        }
    }
    if all_wf(q) && s.wf() {
        assert forall|i: int| 0 <= i < r.len() implies (#[trigger] r[i]).wf() by {
            if i < k {
                assert(r[i] == q[i]);
            } else if i > k {
                assert(r[i] == q[i - 1]);
            }
        }
    }
    assert(r[k].sn == s.sn);
}

/// The index of the first segment of `q` whose sequence number is not below `sn`.
pub fn lower_bound(q: &Vec<Segment>, sn: u32) -> (i: usize)
    ensures
        i as nat == count_below(segs(q@), sn),
        i <= q@.len(),
{
    let ghost v = segs(q@);
    let n = q.len();
    let mut i: usize = 0;
    let mut going = true;
    assert(v.skip(0) =~= v);
    while going
        invariant
            n == q@.len(),
            v == segs(q@),
            i <= n,
            count_below(v, sn) == i + if going {
                count_below(v.skip(i as int), sn)
            } else {
                0
            },
        decreases n - i + if going { 1int } else { 0int },
    {
        if i < n && q[i].sn < sn {
            assert(v.skip(i as int)[0] == q@[i as int]@);
            assert(v.skip(i as int).skip(1) =~= v.skip(i + 1));
            i = i + 1;
        } else {
            if i < n {
                assert(v.skip(i as int)[0] == q@[i as int]@);
            }
            going = false;
        }
    }
    i
}

/// Removes the first `k` segments of `q`.
pub fn drop_front(q: &mut Vec<Segment>, k: usize)
    requires
        k <= old(q)@.len(),
    ensures
        final(q)@ == old(q)@.skip(k as int),
{
    let mut i: usize = 0;
    assert(q@.skip(0) =~= q@);
    while i < k
        invariant
            i <= k,
            k <= old(q)@.len(),
            q@ == old(q)@.skip(i as int),
        decreases k - i,
    {
        let _ = q.remove(0);
        assert(q@ =~= old(q)@.skip(i + 1));
        i = i + 1;
    }
}

impl Segment {
    /// A segment with `data_size` zero bytes of payload, a length field
    /// that says so, and every other header field zero.
    pub fn new(data_size: usize) -> (s: Self)
        requires
            data_size <= u32::MAX,
        ensures
            s@ == SegmentView::blank(0, Seq::new(data_size as nat, |i: int| 0u8)),
            s@.wf(),
    {
        let mut data: Vec<u8> = Vec::new();
        data.resize(data_size, 0);
        let s = Segment {
            conv: 0,
            cmd: 0,
            frg: 0,
            wnd: 0,
            ts: 0,
            sn: 0,
            una: 0,
            len: data_size as u32,
            resendts: 0,
            rto: 0,
            fastack: 0,
            xmit: 0,
            data,
        };
        assert(s@.data =~= Seq::new(data_size as nat, |i: int| 0u8));
        s
    }
}

impl Default for Segment {
    /// A segment without payload and with a zero header.
    fn default() -> (s: Self)
        ensures
            s@ == SegmentView::blank(0, Seq::empty()),
            s@.wf(),
    {
        let s = Segment {
            conv: 0,
            cmd: 0,
            frg: 0,
            wnd: 0,
            ts: 0,
            sn: 0,
            una: 0,
            len: 0,
            resendts: 0,
            rto: 0,
            fastack: 0,
            xmit: 0,
            data: Vec::new(),
        };
        assert(s@.data =~= Seq::<u8>::empty());
        s
    }
}

} // verus!
