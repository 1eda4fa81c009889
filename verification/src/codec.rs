use vstd::prelude::*;
use vstd::bytes::{
    lemma_auto_spec_u16_to_from_le_bytes, lemma_auto_spec_u32_to_from_le_bytes,
    spec_u16_from_le_bytes, spec_u16_to_le_bytes, spec_u32_from_le_bytes, spec_u32_to_le_bytes,
    u16_from_le_bytes, u16_to_le_bytes, u32_from_le_bytes, u32_to_le_bytes,
};
use vstd::slice::slice_subrange;
use crate::constants::Command;
use crate::segment::{Segment, SegmentView};

verus! {

/// The header of a segment on the wire: conversation id (4 bytes), command
/// (1), fragment index (1), window (2), timestamp (4), sequence number (4),
/// cumulative acknowledgement (4) and payload length (4), little-endian.
pub open spec fn header(s: SegmentView) -> Seq<u8> {
    spec_u32_to_le_bytes(s.conv) + seq![s.cmd as u8, s.frg as u8] + spec_u16_to_le_bytes(
        s.wnd as u16,
    ) + spec_u32_to_le_bytes(s.ts) + spec_u32_to_le_bytes(s.sn) + spec_u32_to_le_bytes(s.una)
        + spec_u32_to_le_bytes(s.len)
}

/// A segment on the wire: its header, then its payload.
pub open spec fn wire(s: SegmentView) -> Seq<u8> {
    header(s) + s.data
}

/// What of a segment travels: the header fields and the payload, with the
/// retransmission bookkeeping zero.
pub open spec fn carried(s: SegmentView) -> SegmentView {
    SegmentView { resendts: 0, rto: 0, fastack: 0, xmit: 0, ..s }
}

/// The segment at the start of `b`, if `b` starts with one: at least a
/// header, a known command, and as many payload bytes as the header says.
pub open spec fn decode_spec(b: Seq<u8>) -> Option<SegmentView> {
    if b.len() < 24 {
        None
    } else {
        let len = spec_u32_from_le_bytes(b.subrange(20, 24));
        let cmd = b[4] as u32;
        if len > b.len() - 24 || Command::of_tag(cmd).is_none() {
            None
        } else {
            Some(
                SegmentView {
                    conv: spec_u32_from_le_bytes(b.subrange(0, 4)),
                    cmd,
                    frg: b[5] as u32,
                    wnd: spec_u16_from_le_bytes(b.subrange(6, 8)) as u32,
                    ts: spec_u32_from_le_bytes(b.subrange(8, 12)),
                    sn: spec_u32_from_le_bytes(b.subrange(12, 16)),
                    una: spec_u32_from_le_bytes(b.subrange(16, 20)),
                    len,
                    resendts: 0,
                    rto: 0,
                    fastack: 0,
                    xmit: 0,
                    data: b.subrange(24, 24 + len),
                },
            )
        }
    }
}

/// A header is 24 bytes long.
pub proof fn lemma_header_len(s: SegmentView)
    ensures
        header(s).len() == 24,
        wire(s).len() == 24 + s.data.len(),
{
    lemma_auto_spec_u16_to_from_le_bytes();
    lemma_auto_spec_u32_to_from_le_bytes();
}

/// Decoding what was encoded gives the segment back, whatever follows it in
/// the datagram, as long as the command is a known one, the fragment index
/// fits one byte and the window two.
pub proof fn lemma_decode_wire(s: SegmentView, tail: Seq<u8>)
    requires
        s.wf(),
        Command::of_tag(s.cmd).is_some(),
        s.frg < 256,
        s.wnd < 65536,
    ensures
        decode_spec(wire(s) + tail) == Some(carried(s)),
{
    lemma_auto_spec_u16_to_from_le_bytes();
    lemma_auto_spec_u32_to_from_le_bytes();
    let b = wire(s) + tail;
    assert(b.subrange(0, 4) =~= spec_u32_to_le_bytes(s.conv));
    assert(b.subrange(6, 8) =~= spec_u16_to_le_bytes(s.wnd as u16));
    assert(b.subrange(8, 12) =~= spec_u32_to_le_bytes(s.ts));
    assert(b.subrange(12, 16) =~= spec_u32_to_le_bytes(s.sn));
    assert(b.subrange(16, 20) =~= spec_u32_to_le_bytes(s.una));
    assert(b.subrange(20, 24) =~= spec_u32_to_le_bytes(s.len));
    assert(b[4] == s.cmd as u8);
    assert(b[5] == s.frg as u8);
    assert(b.subrange(24, 24 + s.len) =~= s.data);
}

/// The wire form of a segment.
pub fn encode(seg: &Segment) -> (out: Vec<u8>)
    ensures
        out@ == wire(seg@),
{
    let mut out = u32_to_le_bytes(seg.conv);
    out.push(#[verifier::truncate] (seg.cmd as u8));
    out.push(#[verifier::truncate] (seg.frg as u8));
    let mut wnd = u16_to_le_bytes(#[verifier::truncate] (seg.wnd as u16));
    out.append(&mut wnd);
    let mut ts = u32_to_le_bytes(seg.ts);
    out.append(&mut ts);
    let mut sn = u32_to_le_bytes(seg.sn);
    out.append(&mut sn);
    let mut una = u32_to_le_bytes(seg.una);
    out.append(&mut una);
    let mut len = u32_to_le_bytes(seg.len);
    out.append(&mut len);
    assert(out@ =~= header(seg@));
    out.extend_from_slice(seg.data.as_slice());
    assert(out@ =~= wire(seg@));
    out
}

/// Reads the segment that starts at offset `off` of a datagram. `None`
/// means that the rest of the datagram has to be dropped.
pub fn decode(packet: &[u8], off: usize) -> (r: Option<Segment>)
    requires
        off <= packet@.len(),
    ensures
        match r {
            Some(s) => decode_spec(packet@.skip(off as int)) == Some(s@),
            None => decode_spec(packet@.skip(off as int)).is_none(),
        },
{
    let ghost b = packet@.skip(off as int);
    let n = packet.len();
    if n - off < 24 {
        return None;
    }
    assert(b.subrange(0, 4) =~= packet@.subrange(off as int, off + 4));
    assert(b.subrange(6, 8) =~= packet@.subrange(off + 6, off + 8));
    assert(b.subrange(8, 12) =~= packet@.subrange(off + 8, off + 12));
    assert(b.subrange(12, 16) =~= packet@.subrange(off + 12, off + 16));
    assert(b.subrange(16, 20) =~= packet@.subrange(off + 16, off + 20));
    assert(b.subrange(20, 24) =~= packet@.subrange(off + 20, off + 24));
    let conv = u32_from_le_bytes(slice_subrange(packet, off, off + 4));
    let cmd = packet[off + 4] as u32;
    let frg = packet[off + 5] as u32;
    let wnd = u16_from_le_bytes(slice_subrange(packet, off + 6, off + 8)) as u32;
    let ts = u32_from_le_bytes(slice_subrange(packet, off + 8, off + 12));
    let sn = u32_from_le_bytes(slice_subrange(packet, off + 12, off + 16));
    let una = u32_from_le_bytes(slice_subrange(packet, off + 16, off + 20));
    let len = u32_from_le_bytes(slice_subrange(packet, off + 20, off + 24));
    if len as u64 > (n - off - 24) as u64 {
        return None;
    }
    if Command::try_from(cmd).is_err() {
        return None;
    }
    let start = off + 24;
    let mut data: Vec<u8> = Vec::new();
    data.extend_from_slice(slice_subrange(packet, start, start + len as usize));
    assert(data@ =~= b.subrange(24, 24 + len));
    Some(
        Segment {
            conv,
            cmd,
            frg,
            wnd,
            ts,
            sn,
            una,
            len,
            resendts: 0,
            rto: 0,
            fastack: 0,
            xmit: 0,
            data,
        },
    )
}

} // verus!
