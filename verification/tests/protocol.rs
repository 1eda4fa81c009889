use std::sync::Mutex;
use ultra_kcp_core::codec::{decode, encode};
use ultra_kcp_core::constants::{KcpError, KcpProbeFlags};
use ultra_kcp_core::flush::{resend, Resend, Tick};
use ultra_kcp_core::kcp::{KcpCallBack, KcpControl, NoSink};
use ultra_kcp_core::rtt::{grow_cwnd, rtt_sample, time_diff};
use ultra_kcp_core::segment::{drop_front, lower_bound, Segment};

struct Wire {
    sent: Mutex<Vec<Vec<u8>>>,
}

impl KcpCallBack<u32> for Wire {
    fn output(&self, buf: &[u8], kcp: &KcpControl<u32, Wire>, user: Option<&u32>) {
        assert_eq!(kcp.conversation_id(), 11);
        assert_eq!(user, kcp.user_data());
        self.sent.lock().unwrap().push(buf.to_vec());
    }
}

fn endpoint(conv: u32) -> KcpControl<u32, Wire> {
    KcpControl::new_on_stack(conv, None)
}

fn segment(cmd: u32, sn: u32, frg: u32, data: &[u8]) -> Segment {
    let mut s = Segment::new(0);
    s.conv = 11;
    s.cmd = cmd;
    s.frg = frg;
    s.wnd = 128;
    s.ts = 1000;
    s.sn = sn;
    s.una = 0;
    s.len = data.len() as u32;
    s.data = data.to_vec();
    s
}

#[test]
fn hello_travels_from_one_end_to_the_other() {
    let mut a = endpoint(11);
    let mut b = endpoint(11);
    assert_eq!(a.mtu, 1400);
    assert_eq!(a.send_window, 32);
    assert_eq!(a.recv_window, 128);
    assert_eq!(a.send(b"hello"), Ok(5));
    let out = a.flush();
    assert_eq!(out.len(), 1);
    let seg = decode(&out[0], 0).unwrap();
    assert_eq!(seg.cmd, 81);
    assert_eq!(seg.frg, 0);
    assert_eq!(seg.len, 5);
    assert_eq!(seg.conv, 11);
    assert_eq!(seg.sn, 0);
    assert_eq!(b.input(&out[0]), 1);
    let mut buf = [0u8; 5];
    assert_eq!(b.receive(Some(&mut buf), false), Ok(5));
    assert_eq!(&buf, b"hello");
    assert_eq!(b.rcv_nxt, 1);
}

#[test]
fn acknowledgement_clears_the_send_buffer() {
    let mut a = endpoint(11);
    let mut b = endpoint(11);
    assert_eq!(a.send(b"hello"), Ok(5));
    let out = a.update(0);
    assert_eq!(out.len(), 1);
    assert_eq!(a.snd_buf.len(), 1);
    assert_eq!(a.snd_nxt, 1);
    assert_eq!(b.input(&out[0]), 1);
    assert_eq!(b.acklist, vec![0, 0]);
    let acks = b.update(0);
    assert_eq!(acks.len(), 1);
    assert!(b.acklist.is_empty());
    let ack = decode(&acks[0], 0).unwrap();
    assert_eq!(ack.cmd, 82);
    assert_eq!(ack.sn, 0);
    assert_eq!(ack.una, 1);
    assert_eq!(ack.wnd, 127);
    a.current = 40;
    assert_eq!(a.input(&acks[0]), 1);
    assert!(a.snd_buf.is_empty());
    assert_eq!(a.snd_una, 1);
    assert_eq!(a.rx_srtt, 40);
    assert_eq!(a.rx_rttval, 20);
    assert_eq!(a.rx_rto, 140);
    assert_eq!(a.rmt_wnd, 127);
    assert_eq!(a.cwnd, 2);
}

#[test]
fn fragments_reassemble_when_delivered_out_of_order() {
    let mut a = endpoint(11);
    let mut b = endpoint(11);
    assert!(a.set_mtu(34));
    a.nocwnd = true;
    let payload: Vec<u8> = (0u8..35).collect();
    assert_eq!(a.send(&payload), Ok(35));
    let out = a.flush();
    assert_eq!(out.len(), 4);
    assert_eq!(b.input(&out[3]), 1);
    assert_eq!(b.peek_size(), Err(KcpError::QueueEmpty));
    assert_eq!(b.input(&out[1]), 1);
    assert_eq!(b.input(&out[0]), 1);
    assert_eq!(b.rcv_queue.len(), 2);
    assert_eq!(b.rcv_buf.len(), 1);
    assert_eq!(b.peek_size(), Err(KcpError::IncompleteMessage));
    assert_eq!(b.input(&out[2]), 1);
    assert_eq!(b.rcv_queue.len(), 4);
    assert_eq!(b.peek_size(), Ok(35));
    let mut buf = vec![0u8; 35];
    assert_eq!(b.receive(Some(&mut buf), false), Ok(35));
    assert_eq!(buf, payload);
    assert!(b.rcv_queue.is_empty());
}

#[test]
fn duplicate_segment_is_taken_once() {
    let mut a = endpoint(11);
    let mut b = endpoint(11);
    a.nocwnd = true;
    assert_eq!(a.send(b"one"), Ok(3));
    assert_eq!(a.send(b"two"), Ok(3));
    let out = a.flush();
    assert_eq!(out.len(), 2);
    assert_eq!(b.input(&out[1]), 1);
    assert_eq!(b.input(&out[1]), 1);
    assert_eq!(b.rcv_buf.len(), 1);
    assert_eq!(b.rcv_nxt, 0);
    assert_eq!(b.input(&out[0]), 1);
    assert_eq!(b.rcv_queue.len(), 2);
    assert_eq!(b.rcv_nxt, 2);
    assert_eq!(b.input(&out[0]), 1);
    assert_eq!(b.input(&out[1]), 1);
    assert_eq!(b.rcv_queue.len(), 2);
    assert!(b.rcv_buf.is_empty());
    assert_eq!(b.rcv_nxt, 2);
    let mut buf = [0u8; 3];
    assert_eq!(b.receive(Some(&mut buf), false), Ok(3));
    assert_eq!(&buf, b"one");
    assert_eq!(b.receive(Some(&mut buf), false), Ok(3));
    assert_eq!(&buf, b"two");
    assert_eq!(b.receive(Some(&mut buf), false), Err(KcpError::QueueEmpty));
}

#[test]
fn delivery_survives_the_loss_of_every_other_datagram() {
    let mut a = endpoint(11);
    let mut b = endpoint(11);
    let messages: Vec<Vec<u8>> = (0u8..10).map(|i| vec![i; 3 + i as usize]).collect();
    for m in &messages {
        assert_eq!(a.send(m), Ok(m.len()));
    }
    let mut got: Vec<Vec<u8>> = Vec::new();
    let mut sent = 0usize;
    let mut now = 0u32;
    let mut last_una = 0u32;
    let mut last_nxt = 0u32;
    for _ in 0..3000 {
        let out = a.update(now);
        for pkt in &out {
            sent += 1;
            if sent % 2 == 1 {
                continue;
            }
            assert!(b.input(pkt) >= 1);
        }
        for ack in b.update(now) {
            assert!(a.input(&ack) >= 1);
        }
        assert!(a.snd_una >= last_una);
        assert!(b.rcv_nxt >= last_nxt);
        last_una = a.snd_una;
        last_nxt = b.rcv_nxt;
        let mut buf = [0u8; 64];
        while let Ok(n) = b.receive(Some(&mut buf), false) {
            got.push(buf[..n].to_vec());
        }
        if got.len() == messages.len() && a.snd_buf.is_empty() {
            break;
        }
        now += 100;
    }
    assert_eq!(got, messages);
    assert!(a.snd_buf.is_empty());
    assert!(a.snd_queue.is_empty());
    assert_eq!(a.snd_una, 10);
    assert_eq!(b.rcv_nxt, 10);
    assert!(a.xmit > 0);
    assert!(sent > 10);
}

#[test]
fn send_buffer_stays_within_the_window_after_a_flush() {
    let mut a = endpoint(11);
    a.cwnd = 3;
    for i in 0u8..8 {
        assert_eq!(a.send(&[i]), Ok(1));
    }
    let out = a.flush();
    assert_eq!(out.len(), 3);
    assert_eq!(a.snd_buf.len(), 3);
    assert_eq!(a.snd_queue.len(), 5);
    assert_eq!(a.snd_nxt, 3);
    a.nocwnd = true;
    a.rmt_wnd = 5;
    let out = a.flush();
    assert_eq!(out.len(), 2);
    assert_eq!(a.snd_buf.len(), 5);
}

#[test]
fn encoding_follows_the_wire_layout() {
    let mut s = segment(81, 0x0102_0304, 2, b"xyz");
    s.conv = 0x0a0b_0c0d;
    s.wnd = 0x1234;
    s.ts = 5;
    s.una = 6;
    let bytes = encode(&s);
    assert_eq!(
        bytes,
        vec![
            0x0d, 0x0c, 0x0b, 0x0a, 81, 2, 0x34, 0x12, 5, 0, 0, 0, 4, 3, 2, 1, 6, 0, 0, 0, 3, 0, 0,
            0, b'x', b'y', b'z'
        ]
    );
    let back = decode(&bytes, 0).unwrap();
    assert_eq!(back.conv, 0x0a0b_0c0d);
    assert_eq!(back.cmd, 81);
    assert_eq!(back.frg, 2);
    assert_eq!(back.wnd, 0x1234);
    assert_eq!(back.ts, 5);
    assert_eq!(back.sn, 0x0102_0304);
    assert_eq!(back.una, 6);
    assert_eq!(back.len, 3);
    assert_eq!(back.data, b"xyz".to_vec());
}

#[test]
fn decoding_rejects_malformed_datagrams() {
    let good = encode(&segment(81, 0, 0, b"abc"));
    assert!(decode(&good[..23], 0).is_none());
    assert!(decode(&good[..26], 0).is_none());
    assert!(decode(&good, 1).is_none());
    let mut bad_cmd = good.clone();
    bad_cmd[4] = 85;
    assert!(decode(&bad_cmd, 0).is_none());
    bad_cmd[4] = 80;
    assert!(decode(&bad_cmd, 0).is_none());
    assert!(decode(&good, 0).is_some());
    assert!(decode(&good, good.len()).is_none());
}

#[test]
fn input_drops_foreign_and_malformed_datagrams() {
    let mut b = endpoint(12);
    let pkt = encode(&segment(81, 0, 0, b"abc"));
    assert_eq!(b.input(&pkt), 0);
    assert!(b.rcv_queue.is_empty());
    assert_eq!(b.rmt_wnd, 128);
    let mut c = endpoint(11);
    assert_eq!(c.input(&pkt[..20]), 0);
    assert_eq!(c.input(&pkt), 1);
    assert_eq!(c.rcv_queue.len(), 1);
}

#[test]
fn input_reads_every_segment_of_a_datagram() {
    let mut b = endpoint(11);
    let mut pkt = encode(&segment(81, 0, 0, b"abc"));
    pkt.extend(encode(&segment(81, 1, 0, b"de")));
    pkt.extend(encode(&segment(83, 0, 0, b"")));
    pkt.extend(vec![1, 2, 3]);
    assert_eq!(b.input(&pkt), 3);
    assert_eq!(b.rcv_queue.len(), 2);
    assert_eq!(b.rcv_nxt, 2);
    assert!(b.probe.contains(KcpProbeFlags::ASK_TELL));
    assert_eq!(b.acklist, vec![0, 1000, 1, 1000]);
}

#[test]
fn data_beyond_the_window_is_dropped() {
    let mut b = endpoint(11);
    b.recv_window = 4;
    assert_eq!(b.input(&encode(&segment(81, 4, 0, b"x"))), 1);
    assert!(b.rcv_buf.is_empty());
    assert!(b.acklist.is_empty());
    assert_eq!(b.input(&encode(&segment(81, 3, 0, b"x"))), 1);
    assert_eq!(b.rcv_buf.len(), 1);
    assert_eq!(b.acklist, vec![3, 1000]);
}

#[test]
fn window_probe_is_answered_with_a_report() {
    let mut b = endpoint(11);
    assert_eq!(b.input(&encode(&segment(83, 0, 0, b""))), 1);
    assert!(b.probe.contains(KcpProbeFlags::ASK_TELL));
    let out = b.flush();
    assert_eq!(out.len(), 1);
    let s = decode(&out[0], 0).unwrap();
    assert_eq!(s.cmd, 84);
    assert_eq!(s.wnd, 128);
    assert_eq!(b.probe.bits(), 0);
}

#[test]
fn closed_remote_window_is_probed_with_growing_waits() {
    let mut a = endpoint(11);
    a.rmt_wnd = 0;
    a.current = 100;
    assert!(a.flush().is_empty());
    assert_eq!(a.probe_wait, 7000);
    assert_eq!(a.ts_probe, 7100);
    a.current = 7099;
    assert!(a.flush().is_empty());
    a.current = 7100;
    let out = a.flush();
    assert_eq!(out.len(), 1);
    assert_eq!(decode(&out[0], 0).unwrap().cmd, 83);
    assert_eq!(a.probe_wait, 14000);
    assert_eq!(a.ts_probe, 21100);
    a.probe_wait = 100000;
    a.current = 21100;
    assert_eq!(a.flush().len(), 1);
    assert_eq!(a.probe_wait, 120000);
    a.rmt_wnd = 1;
    assert!(a.flush().is_empty());
    assert_eq!(a.probe_wait, 0);
    assert_eq!(a.ts_probe, 0);
}

#[test]
fn cumulative_acknowledgement_purges_the_send_buffer() {
    let mut a = endpoint(11);
    a.nocwnd = true;
    for i in 0u8..4 {
        assert_eq!(a.send(&[i]), Ok(1));
    }
    assert_eq!(a.flush().len(), 4);
    let mut wins = segment(84, 0, 0, b"");
    wins.una = 3;
    wins.wnd = 64;
    assert_eq!(a.input(&encode(&wins)), 1);
    assert_eq!(a.snd_buf.len(), 1);
    assert_eq!(a.snd_buf[0].sn, 3);
    assert_eq!(a.snd_una, 3);
    assert_eq!(a.rmt_wnd, 64);
}

#[test]
fn acknowledgement_out_of_order_counts_skips() {
    let mut a = endpoint(11);
    a.nocwnd = true;
    for i in 0u8..3 {
        assert_eq!(a.send(&[i]), Ok(1));
    }
    assert_eq!(a.flush().len(), 3);
    let ack = segment(82, 2, 0, b"");
    assert_eq!(a.input(&encode(&ack)), 1);
    assert_eq!(a.snd_buf.len(), 2);
    assert_eq!(a.snd_buf[0].fastack, 1);
    assert_eq!(a.snd_buf[1].fastack, 1);
    assert_eq!(a.snd_una, 0);
    assert_eq!(a.input(&encode(&ack)), 1);
    assert_eq!(a.snd_buf.len(), 2);
    assert_eq!(a.snd_buf[0].fastack, 2);
}

#[test]
fn timed_out_segment_is_sent_again_and_closes_the_window() {
    let mut a = endpoint(11);
    a.cwnd = 8;
    a.ssthresh = 10;
    assert_eq!(a.send(b"x"), Ok(1));
    assert_eq!(a.flush().len(), 1);
    assert_eq!(a.snd_buf[0].xmit, 1);
    assert_eq!(a.snd_buf[0].rto, 200);
    assert_eq!(a.snd_buf[0].resendts, 200);
    a.current = 199;
    assert!(a.flush().is_empty());
    assert_eq!(a.cwnd, 8);
    a.current = 200;
    let out = a.flush();
    assert_eq!(out.len(), 1);
    assert_eq!(a.snd_buf[0].xmit, 2);
    assert_eq!(a.snd_buf[0].rto, 400);
    assert_eq!(a.snd_buf[0].resendts, 600);
    assert_eq!(a.xmit, 1);
    assert_eq!(a.cwnd, 1);
    assert_eq!(a.ssthresh, 5);
    assert_eq!(a.incr, 1376);
    assert_eq!(a.state, 0);
}

#[test]
fn fast_retransmission_halves_the_window() {
    let mut a = endpoint(11);
    a.cwnd = 8;
    a.ssthresh = 10;
    a.fastresend = 2;
    assert_eq!(a.send(b"x"), Ok(1));
    assert_eq!(a.flush().len(), 1);
    a.snd_buf[0].fastack = 2;
    a.current = 10;
    let out = a.flush();
    assert_eq!(out.len(), 1);
    assert_eq!(a.snd_buf[0].xmit, 2);
    assert_eq!(a.snd_buf[0].fastack, 0);
    assert_eq!(a.snd_buf[0].resendts, 210);
    assert_eq!(a.cwnd, 4);
    assert_eq!(a.ssthresh, 10);
    assert_eq!(a.incr, 4 * 1376);
}

#[test]
fn dead_link_is_reported_in_the_state() {
    let mut a = endpoint(11);
    a.dead_link = 2;
    assert_eq!(a.send(b"x"), Ok(1));
    assert_eq!(a.flush().len(), 1);
    assert_eq!(a.state, 0);
    a.current = 200;
    assert_eq!(a.flush().len(), 1);
    assert_eq!(a.state, u32::MAX);
}

#[test]
fn resend_decides_by_count_clock_and_skips() {
    let t = Tick {
        current: 500,
        rx_rto: 200,
        nodelay: 1,
        fastresend: 3,
        fastlimit: 5,
        wnd: 9,
        una: 4,
        dead_link: 20,
    };
    let mut s = segment(81, 0, 0, b"x");
    assert_eq!(resend(&mut s, &t), Resend::First);
    assert_eq!((s.xmit, s.rto, s.resendts, s.ts, s.wnd, s.una), (1, 200, 700, 500, 9, 4));
    assert_eq!(resend(&mut s, &t), Resend::Keep);
    s.resendts = 500;
    assert_eq!(resend(&mut s, &t), Resend::Timeout);
    assert_eq!((s.xmit, s.rto, s.resendts), (2, 300, 800));
    s.fastack = 3;
    assert_eq!(resend(&mut s, &t), Resend::Fast);
    assert_eq!((s.xmit, s.fastack, s.resendts), (3, 0, 800));
    s.fastack = 3;
    s.xmit = 6;
    assert_eq!(resend(&mut s, &t), Resend::Keep);
    s.rto = 50000;
    s.resendts = 400;
    assert_eq!(resend(&mut s, &t), Resend::Timeout);
    assert_eq!(s.rto, 60000);
}

#[test]
fn round_trip_estimate_follows_the_samples() {
    assert_eq!(rtt_sample(0, 0, 100, 100, 100), (100, 50, 300));
    assert_eq!(rtt_sample(100, 50, 20, 100, 100), (90, 57, 318));
    assert_eq!(rtt_sample(100, 50, 180, 10, 100), (110, 57, 338));
    assert_eq!(rtt_sample(100, 4, 100, 100, 100), (100, 3, 200));
    assert_eq!(rtt_sample(10, 1, 10, 20, 100), (10, 1, 100));
    assert_eq!(rtt_sample(50000, 50000, 50000, 100, 30), (50000, 37500, 60000));
    assert_eq!(rtt_sample(0, 0, 0, 100, 30), (0, 1, 100));
}

#[test]
fn congestion_window_grows_with_acknowledgements() {
    assert_eq!(grow_cwnd(1, 0, 2, 128, 1376), (2, 1376));
    assert_eq!(grow_cwnd(5, 0, 2, 5, 1376), (5, 0));
    assert_eq!(grow_cwnd(2, 2752, 2, 128, 1376), (2, 2752 + 688 + 86));
    assert_eq!(grow_cwnd(2, 4000, 2, 128, 1376), (3, 4000 + 473 + 86));
    assert_eq!(grow_cwnd(2, 100, 2, 128, 1000), (2, 1000 + 1000 + 62));
    assert_eq!(grow_cwnd(1, u32::MAX, 2, 128, 1376), (2, u32::MAX));
}

#[test]
fn clock_distance_wraps_around() {
    assert_eq!(time_diff(5, 0xffff_fffe), 7);
    assert_eq!(time_diff(0xffff_fffe, 5), -7);
    assert_eq!(time_diff(10, 10), 0);
    assert_eq!(time_diff(0x8000_0000, 0), i32::MIN);
    assert_eq!(time_diff(0x7fff_ffff, 0), i32::MAX);
}

#[test]
fn update_flushes_on_schedule() {
    let mut a = endpoint(11);
    assert_eq!(a.send(b"x"), Ok(1));
    assert!(a.tick(1000));
    assert_eq!(a.ts_flush, 1100);
    assert_eq!(a.current, 1000);
    assert_eq!(a.updated, 1);
    assert!(!a.tick(1050));
    assert_eq!(a.ts_flush, 1100);
    assert!(a.update(1050).is_empty());
    assert_eq!(a.snd_queue.len(), 1);
    assert_eq!(a.update(1100).len(), 1);
    assert_eq!(a.ts_flush, 1200);
    assert!(a.tick(1350));
    assert_eq!(a.ts_flush, 1450);
    assert!(a.tick(20000));
    assert_eq!(a.ts_flush, 20100);
}

#[test]
fn output_sink_sees_every_datagram() {
    let mut a = endpoint(11);
    a.set_callback(Wire { sent: Mutex::new(Vec::new()) });
    a.nocwnd = true;
    assert_eq!(a.send(b"one"), Ok(3));
    assert_eq!(a.send(b"two"), Ok(3));
    a.ack_push(7, 8);
    let out = a.flush();
    assert_eq!(out.len(), 3);
    assert_eq!(decode(&out[0], 0).unwrap().cmd, 82);
    assert_eq!(decode(&out[0], 0).unwrap().sn, 7);
    assert_eq!(decode(&out[0], 0).unwrap().ts, 8);
    assert_eq!(decode(&out[1], 0).unwrap().data, b"one".to_vec());
    let seen = a.callback.as_ref().unwrap().sent.lock().unwrap().clone();
    assert_eq!(seen, out);
}

#[test]
fn sequence_helpers_find_and_drop() {
    let mut q = vec![segment(81, 2, 0, b""), segment(81, 5, 0, b""), segment(81, 9, 0, b"")];
    assert_eq!(lower_bound(&q, 0), 0);
    assert_eq!(lower_bound(&q, 2), 0);
    assert_eq!(lower_bound(&q, 3), 1);
    assert_eq!(lower_bound(&q, 9), 2);
    assert_eq!(lower_bound(&q, 10), 3);
    drop_front(&mut q, 2);
    assert_eq!(q.len(), 1);
    assert_eq!(q[0].sn, 9);
}

#[test]
fn sequence_numbers_never_go_back() {
    let mut a = endpoint(11);
    let mut b = endpoint(11);
    a.nocwnd = true;
    for i in 0u8..5 {
        assert_eq!(a.send(&[i]), Ok(1));
    }
    let out = a.flush();
    let order = [4usize, 0, 2, 0, 1, 3, 4];
    let mut seen = 0u32;
    for i in order {
        assert_eq!(b.input(&out[i]), 1);
        assert!(b.rcv_nxt >= seen);
        seen = b.rcv_nxt;
    }
    assert_eq!(b.rcv_nxt, 5);
    let mut una = 0u32;
    for ack in b.flush().iter().rev() {
        assert_eq!(a.input(ack), 1);
        assert!(a.snd_una >= una);
        una = a.snd_una;
    }
    assert_eq!(a.snd_una, 5);
}

#[test]
fn block_without_sink_returns_its_datagrams() {
    let mut a: KcpControl<(), NoSink> = KcpControl::new_on_stack(5, None);
    let mut b: KcpControl<(), NoSink> = KcpControl::new_on_stack(5, None);
    a.set_callback(NoSink);
    assert_eq!(a.send(b"ping"), Ok(4));
    let out = a.flush();
    assert_eq!(out.len(), 1);
    assert_eq!(b.input(&out[0]), 1);
    let mut buf = [0u8; 4];
    assert_eq!(b.receive(Some(&mut buf), true), Ok(4));
    assert_eq!(b.rcv_queue.len(), 1);
    assert_eq!(b.receive(Some(&mut buf), false), Ok(4));
    assert_eq!(&buf, b"ping");
    assert!(b.rcv_queue.is_empty());
}
