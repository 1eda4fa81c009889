use ultra_kcp_core::constants::{Command, KcpError, KcpLogFlags, KcpProbeFlags};
use ultra_kcp_core::kcp::{KcpCallBack, KcpControl};
use ultra_kcp_core::segment::Segment;

struct Quiet;

impl KcpCallBack<u8> for Quiet {}

fn block() -> KcpControl<u8, Quiet> {
    KcpControl::new_on_stack(7, None)
}

#[test]
fn construction_sets_the_defaults() {
    let k = block();
    assert_eq!(k.conversation_id(), 7);
    assert_eq!(k.mtu, 1400);
    assert_eq!(k.mss, 1376);
    assert_eq!(k.send_window, 32);
    assert_eq!(k.recv_window, 128);
    assert_eq!(k.rmt_wnd, 128);
    assert_eq!(k.rx_rto, 200);
    assert_eq!(k.rx_minrto, 100);
    assert_eq!(k.interval, 100);
    assert_eq!(k.ssthresh, 2);
    assert_eq!(k.fastlimit, 5);
    assert_eq!(k.dead_link, 20);
    assert!(k.snd_queue.is_empty());
    assert!(k.rcv_queue.is_empty());
    assert!(!k.write_log());
    assert_eq!(k.log_mask().bits(), 0);
}

#[test]
fn construction_on_the_heap_matches() {
    let k: Box<KcpControl<u8, Quiet>> = KcpControl::new_alloc(9, Some(3));
    assert_eq!(k.conversation_id(), 9);
    assert_eq!(k.user_data(), Some(&3));
    assert_eq!(k.mss, 1376);
}

#[test]
fn command_tags_round_trip() {
    assert_eq!(Command::try_from(81), Ok(Command::Push));
    assert_eq!(Command::try_from(82), Ok(Command::Ack));
    assert_eq!(Command::try_from(83), Ok(Command::Wask));
    assert_eq!(Command::try_from(84), Ok(Command::Wins));
    assert_eq!(Command::try_from(80), Err("Invalid command value"));
    assert_eq!(Command::try_from(85), Err("Invalid command value"));
    assert_eq!(u32::from(Command::Push), 81);
    assert_eq!(u32::from(Command::Wins), 84);
}

#[test]
fn flag_sets_combine_by_bits() {
    let mut p = KcpProbeFlags::empty();
    assert!(!p.contains(KcpProbeFlags::ASK_TELL));
    p.insert(KcpProbeFlags::ASK_TELL);
    assert!(p.contains(KcpProbeFlags::ASK_TELL));
    assert!(!p.contains(KcpProbeFlags::ASK_SEND));
    assert_eq!(p.bits(), 2);
    p.clear();
    assert_eq!(p.bits(), 0);
    assert_eq!(KcpProbeFlags::from_bits_truncate(7).bits(), 3);
    let l = KcpLogFlags::from_bits_truncate(KcpLogFlags::DATA_RECV | KcpLogFlags::IN_ACK);
    assert!(l.intersects(KcpLogFlags::from_bits_truncate(KcpLogFlags::DATA_RECV)));
    assert!(!l.intersects(KcpLogFlags::from_bits_truncate(KcpLogFlags::OUTPUT)));
    assert_eq!(KcpLogFlags::from_bits_truncate(0xffff).bits(), 0xfff);
}

#[test]
fn new_segment_has_zeroed_payload() {
    let s = Segment::new(4);
    assert_eq!(s.data, vec![0u8; 4]);
    assert_eq!(s.len, 4);
    assert_eq!(s.frg, 0);
    assert_eq!(s.sn, 0);
    let e = Segment::new(0);
    assert!(e.data.is_empty());
    assert_eq!(e.len, 0);
}

#[test]
fn default_segment_is_empty() {
    let s = Segment::default();
    assert!(s.data.is_empty());
    assert_eq!(
        (s.conv, s.cmd, s.frg, s.wnd, s.ts, s.sn, s.una, s.len),
        (0, 0, 0, 0, 0, 0, 0, 0)
    );
    assert_eq!((s.resendts, s.rto, s.fastack, s.xmit), (0, 0, 0, 0));
}

#[test]
fn small_send_queues_one_segment() {
    let mut k = block();
    assert_eq!(k.send(b"hello"), Ok(5));
    assert_eq!(k.snd_queue.len(), 1);
    assert_eq!(k.snd_queue[0].frg, 0);
    assert_eq!(k.snd_queue[0].len, 5);
    assert_eq!(k.snd_queue[0].data, b"hello".to_vec());
}

#[test]
fn empty_send_in_packet_mode_queues_an_empty_segment() {
    let mut k = block();
    assert_eq!(k.send(b""), Ok(0));
    assert_eq!(k.snd_queue.len(), 1);
    assert_eq!(k.snd_queue[0].len, 0);
}

#[test]
fn empty_send_in_streaming_mode_queues_nothing() {
    let mut k = block();
    k.streaming_mode = true;
    assert_eq!(k.send(b""), Ok(0));
    assert_eq!(k.snd_queue.len(), 0);
}

#[test]
fn packet_mode_fragments_count_down() {
    let mut k = block();
    assert!(k.set_mtu(34));
    assert_eq!(k.mss, 10);
    let data: Vec<u8> = (0u8..25).collect();
    assert_eq!(k.send(&data), Ok(25));
    assert_eq!(k.snd_queue.len(), 3);
    assert_eq!(k.snd_queue[0].frg, 2);
    assert_eq!(k.snd_queue[1].frg, 1);
    assert_eq!(k.snd_queue[2].frg, 0);
    assert_eq!(k.snd_queue[0].data, data[0..10].to_vec());
    assert_eq!(k.snd_queue[1].data, data[10..20].to_vec());
    assert_eq!(k.snd_queue[2].data, data[20..25].to_vec());
    assert_eq!(k.snd_queue[2].len, 5);
}

#[test]
fn exact_multiple_takes_no_extra_segment() {
    let mut k = block();
    assert!(k.set_mtu(34));
    let data = vec![1u8; 20];
    assert_eq!(k.send(&data), Ok(20));
    assert_eq!(k.snd_queue.len(), 2);
    assert_eq!(k.snd_queue[0].frg, 1);
    assert_eq!(k.snd_queue[1].frg, 0);
    assert_eq!(k.snd_queue[1].len, 10);
}

#[test]
fn streaming_sends_coalesce() {
    let mut k = block();
    k.streaming_mode = true;
    assert_eq!(k.send(b"a"), Ok(1));
    assert_eq!(k.send(b"b"), Ok(1));
    assert_eq!(k.send(b"c"), Ok(1));
    assert_eq!(k.snd_queue.len(), 1);
    assert_eq!(k.snd_queue[0].data, b"abc".to_vec());
    assert_eq!(k.snd_queue[0].len, 3);
    assert_eq!(k.snd_queue[0].frg, 0);
}

#[test]
fn streaming_send_tops_off_then_chunks() {
    let mut k = block();
    k.streaming_mode = true;
    assert!(k.set_mtu(34));
    assert_eq!(k.send(&[1u8; 7]), Ok(7));
    assert_eq!(k.send(&[2u8; 15]), Ok(15));
    assert_eq!(k.snd_queue.len(), 3);
    assert_eq!(k.snd_queue[0].data, vec![1, 1, 1, 1, 1, 1, 1, 2, 2, 2]);
    assert_eq!(k.snd_queue[1].data, vec![2u8; 10]);
    assert_eq!(k.snd_queue[2].data, vec![2u8; 2]);
    assert_eq!(k.snd_queue[1].frg, 0);
    assert_eq!(k.snd_queue[2].frg, 0);
}

#[test]
fn send_over_the_window_is_refused() {
    let mut k = block();
    assert!(k.set_mtu(34));
    k.recv_window = 4;
    assert_eq!(k.send(&[0u8; 40]), Err(KcpError::WindowFull));
    assert!(k.snd_queue.is_empty());
    assert_eq!(k.send(&[0u8; 31]), Err(KcpError::WindowFull));
    assert_eq!(k.send(&[0u8; 30]), Ok(30));
    assert_eq!(k.snd_queue.len(), 3);
}

#[test]
fn streaming_send_over_the_window_keeps_the_top_off() {
    let mut k = block();
    k.streaming_mode = true;
    assert!(k.set_mtu(34));
    k.recv_window = 2;
    assert_eq!(k.send(&[1u8; 4]), Ok(4));
    assert_eq!(k.send(&[2u8; 40]), Ok(6));
    assert_eq!(k.snd_queue.len(), 1);
    assert_eq!(k.snd_queue[0].len, 10);
    assert_eq!(k.send(&[3u8; 40]), Err(KcpError::WindowFull));
    assert_eq!(k.snd_queue.len(), 1);
}

#[test]
fn mtu_without_room_for_payload_is_refused() {
    let mut k = block();
    assert!(!k.set_mtu(24));
    assert!(!k.set_mtu(0));
    assert_eq!(k.mtu, 1400);
    assert_eq!(k.mss, 1376);
    assert!(k.set_mtu(25));
    assert_eq!(k.mss, 1);
}

#[test]
fn window_sizes_keep_the_receive_floor() {
    let mut k = block();
    k.set_window_size(64, 256);
    assert_eq!((k.send_window, k.recv_window), (64, 256));
    k.set_window_size(0, 0);
    assert_eq!((k.send_window, k.recv_window), (64, 256));
    k.set_window_size(1, 5);
    assert_eq!((k.send_window, k.recv_window), (1, 128));
}

#[test]
fn nodelay_mode_lowers_the_minimum_timeout() {
    let mut k = block();
    k.set_nodelay(1, 20, 2, true);
    assert_eq!(k.nodelay, 1);
    assert_eq!(k.rx_minrto, 30);
    assert_eq!(k.interval, 20);
    assert_eq!(k.fastresend, 2);
    assert!(k.nocwnd);
    k.set_nodelay(0, 3, 0, false);
    assert_eq!(k.rx_minrto, 100);
    assert_eq!(k.interval, 10);
    assert!(!k.nocwnd);
    k.set_nodelay(0, 9000, 0, false);
    assert_eq!(k.interval, 5000);
}
