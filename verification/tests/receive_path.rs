use std::sync::Mutex;
use ultra_kcp_core::constants::{KcpError, KcpLogFlags, KcpProbeFlags};
use ultra_kcp_core::kcp::{KcpCallBack, KcpControl};
use ultra_kcp_core::segment::Segment;

struct Lines {
    seen: Mutex<Vec<String>>,
}

impl KcpCallBack<u8> for Lines {
    fn writelog(&self, log: &str, kcp: &KcpControl<u8, Lines>, user: Option<&u8>) {
        let line = format!("{} conv={} user={:?}", log, kcp.conversation_id(), user);
        self.seen.lock().unwrap().push(line);
    }
}

fn block() -> KcpControl<u8, Lines> {
    KcpControl::new_on_stack(1, None)
}

fn seg(sn: u32, frg: u32, data: &[u8]) -> Segment {
    let mut s = Segment::new(0);
    s.sn = sn;
    s.frg = frg;
    s.len = data.len() as u32;
    s.data = data.to_vec();
    s
}

#[test]
fn peek_on_empty_queue_fails() {
    let k = block();
    assert_eq!(k.peek_size(), Err(KcpError::QueueEmpty));
}

#[test]
fn receive_on_empty_queue_fails() {
    let mut k = block();
    let mut buf = [0u8; 8];
    assert_eq!(k.receive(Some(&mut buf), false), Err(KcpError::QueueEmpty));
    assert_eq!(k.receive(None, true), Err(KcpError::QueueEmpty));
}

#[test]
fn peek_sizes_a_single_segment() {
    let mut k = block();
    k.rcv_queue.push(seg(0, 0, b"hello"));
    k.rcv_queue.push(seg(1, 0, b"more"));
    assert_eq!(k.peek_size(), Ok(5));
}

#[test]
fn peek_needs_every_fragment() {
    let mut k = block();
    k.rcv_queue.push(seg(0, 2, b"ab"));
    assert_eq!(k.peek_size(), Err(KcpError::IncompleteMessage));
    k.rcv_queue.push(seg(1, 1, b"cd"));
    assert_eq!(k.peek_size(), Err(KcpError::IncompleteMessage));
    let mut buf = [0u8; 8];
    assert_eq!(k.receive(Some(&mut buf), false), Err(KcpError::IncompleteMessage));
    k.rcv_queue.push(seg(2, 0, b"e"));
    assert_eq!(k.peek_size(), Ok(5));
}

#[test]
fn receive_joins_fragments_in_order() {
    let mut k = block();
    k.rcv_queue.push(seg(0, 2, b"ab"));
    k.rcv_queue.push(seg(1, 1, b"cd"));
    k.rcv_queue.push(seg(2, 0, b"e"));
    k.rcv_queue.push(seg(3, 0, b"next"));
    let mut buf = [9u8; 7];
    assert_eq!(k.receive(Some(&mut buf), false), Ok(5));
    assert_eq!(&buf, b"abcde\x09\x09");
    assert_eq!(k.rcv_queue.len(), 1);
    assert_eq!(k.rcv_queue[0].data, b"next".to_vec());
}

#[test]
fn receive_rejects_a_short_buffer() {
    let mut k = block();
    k.rcv_queue.push(seg(0, 0, b"hello"));
    let mut buf = [0u8; 4];
    assert_eq!(k.receive(Some(&mut buf), false), Err(KcpError::BufferTooSmall));
    assert_eq!(buf, [0u8; 4]);
    assert_eq!(k.rcv_queue.len(), 1);
    let mut buf = [0u8; 5];
    assert_eq!(k.receive(Some(&mut buf), false), Ok(5));
    assert_eq!(&buf, b"hello");
    assert!(k.rcv_queue.is_empty());
}

#[test]
fn peeking_keeps_the_message_and_admits_what_is_next() {
    let mut k = block();
    k.rcv_queue.push(seg(0, 1, b"ab"));
    k.rcv_queue.push(seg(1, 0, b"c"));
    k.rcv_buf.push(seg(0, 0, b"zz"));
    k.rcv_buf.push(seg(2, 0, b"yy"));
    let mut buf = [0u8; 3];
    assert_eq!(k.receive(Some(&mut buf), true), Ok(3));
    assert_eq!(&buf, b"abc");
    assert_eq!(k.rcv_queue.len(), 3);
    assert_eq!(k.rcv_queue[0].data, b"ab".to_vec());
    assert_eq!(k.rcv_queue[2].data, b"zz".to_vec());
    assert_eq!(k.rcv_buf.len(), 1);
    assert_eq!(k.rcv_buf[0].sn, 2);
    assert_eq!(k.rcv_nxt, 1);
    assert_eq!(k.probe.bits(), 0);
    assert_eq!(k.receive(Some(&mut buf), true), Ok(3));
    assert_eq!(k.rcv_queue.len(), 3);
    assert_eq!(k.rcv_nxt, 1);
}

#[test]
fn peeking_without_buffered_segments_changes_nothing() {
    let mut k = block();
    k.rcv_queue.push(seg(0, 0, b"ab"));
    assert_eq!(k.receive(None, true), Ok(2));
    assert_eq!(k.rcv_queue.len(), 1);
    assert_eq!(k.rcv_nxt, 0);
    assert!(k.rcv_buf.is_empty());
}

#[test]
fn peeking_after_the_window_grew_admits_from_the_buffer() {
    let mut k = block();
    k.rcv_nxt = 128;
    for i in 0u32..128 {
        k.rcv_queue.push(seg(i, 0, b"q"));
    }
    k.rcv_buf.push(seg(128, 0, b"b"));
    let mut buf = [0u8; 1];
    assert_eq!(k.receive(Some(&mut buf), true), Ok(1));
    assert_eq!(k.rcv_queue.len(), 128);
    assert_eq!(k.rcv_buf.len(), 1);
    k.set_window_size(0, 256);
    assert_eq!(k.receive(Some(&mut buf), true), Ok(1));
    assert_eq!(k.rcv_queue.len(), 129);
    assert!(k.rcv_buf.is_empty());
    assert_eq!(k.rcv_nxt, 129);
    assert_eq!(k.probe.bits(), 0);
}

#[test]
fn receive_without_buffer_discards_the_message() {
    let mut k = block();
    k.rcv_queue.push(seg(0, 1, b"ab"));
    k.rcv_queue.push(seg(1, 0, b"c"));
    assert_eq!(k.receive(None, false), Ok(3));
    assert!(k.rcv_queue.is_empty());
}

#[test]
fn receive_admits_buffered_segments_in_sequence() {
    let mut k = block();
    k.rcv_nxt = 1;
    k.rcv_queue.push(seg(0, 0, b"a"));
    k.rcv_buf.push(seg(1, 0, b"b"));
    k.rcv_buf.push(seg(2, 0, b"c"));
    k.rcv_buf.push(seg(4, 0, b"e"));
    let mut buf = [0u8; 1];
    assert_eq!(k.receive(Some(&mut buf), false), Ok(1));
    assert_eq!(k.rcv_queue.len(), 2);
    assert_eq!(k.rcv_queue[0].sn, 1);
    assert_eq!(k.rcv_queue[1].sn, 2);
    assert_eq!(k.rcv_buf.len(), 1);
    assert_eq!(k.rcv_buf[0].sn, 4);
    assert_eq!(k.rcv_nxt, 3);
    assert_eq!(k.probe.bits(), 0);
}

#[test]
fn receive_from_a_full_queue_schedules_a_window_report() {
    let mut k = block();
    k.recv_window = 2;
    k.rcv_nxt = 2;
    k.rcv_queue.push(seg(0, 0, b"a"));
    k.rcv_queue.push(seg(1, 0, b"b"));
    let mut buf = [0u8; 1];
    assert_eq!(k.receive(Some(&mut buf), false), Ok(1));
    assert!(k.probe.contains(KcpProbeFlags::ASK_TELL));
    assert!(!k.probe.contains(KcpProbeFlags::ASK_SEND));
}

#[test]
fn receive_that_refills_a_full_queue_schedules_nothing() {
    let mut k = block();
    k.recv_window = 2;
    k.rcv_nxt = 2;
    k.rcv_queue.push(seg(0, 0, b"a"));
    k.rcv_queue.push(seg(1, 0, b"b"));
    k.rcv_buf.push(seg(2, 0, b"c"));
    let mut buf = [0u8; 1];
    assert_eq!(k.receive(Some(&mut buf), false), Ok(1));
    assert_eq!(k.rcv_queue.len(), 2);
    assert_eq!(k.rcv_nxt, 3);
    assert_eq!(k.probe.bits(), 0);
}

#[test]
fn last_sequence_number_is_not_admitted() {
    let mut k = block();
    k.rcv_nxt = u32::MAX;
    k.rcv_buf.push(seg(u32::MAX, 0, b"x"));
    assert_eq!(k.admit_in_order(), 0);
    assert_eq!(k.rcv_nxt, u32::MAX);
    assert_eq!(k.rcv_buf.len(), 1);
}

#[test]
fn receive_logs_each_segment_when_enabled() {
    let mut k = block();
    k.set_callback(Lines { seen: Mutex::new(Vec::new()) });
    k.set_logging(true);
    k.set_log_mask(KcpLogFlags::from_bits_truncate(KcpLogFlags::DATA_RECV));
    k.rcv_queue.push(seg(5, 1, b"ab"));
    k.rcv_queue.push(seg(6, 0, b"c"));
    assert_eq!(k.receive(None, false), Ok(3));
    let seen = k.callback.as_ref().unwrap().seen.lock().unwrap().clone();
    assert_eq!(
        seen,
        vec![
            "recv sn=5 conv=1 user=None".to_string(),
            "recv sn=6 conv=1 user=None".to_string()
        ]
    );
}

#[test]
fn receive_logs_nothing_when_masked() {
    let mut k = block();
    k.set_callback(Lines { seen: Mutex::new(Vec::new()) });
    k.set_logging(true);
    k.set_log_mask(KcpLogFlags::from_bits_truncate(KcpLogFlags::OUTPUT));
    k.rcv_queue.push(seg(5, 0, b"ab"));
    assert_eq!(k.receive(None, false), Ok(2));
    assert!(k.callback.as_ref().unwrap().seen.lock().unwrap().is_empty());
}

#[test]
fn logging_sink_gets_the_block_and_the_user_payload() {
    let mut k: KcpControl<u8, Lines> = KcpControl::new_on_stack(77, Some(9));
    k.set_callback(Lines { seen: Mutex::new(Vec::new()) });
    k.set_logging(true);
    k.set_log_mask(KcpLogFlags::from_bits_truncate(KcpLogFlags::DATA_RECV));
    k.rcv_queue.push(seg(3, 0, b"ab"));
    assert_eq!(k.receive(None, true), Ok(2));
    let seen = k.callback.as_ref().unwrap().seen.lock().unwrap().clone();
    assert_eq!(seen, vec!["recv sn=3 conv=77 user=Some(9)".to_string()]);
}
