use pingrs::probe::{next_sequence, Gate, NextStep, PollStep, RecvOutcome, Runner};

/// An Echo Reply datagram (no IP header) answering `ident`/`seq_no`.
fn reply_bytes(ident: u16, seq_no: u16) -> Vec<u8> {
    let mut v = vec![0u8, 0, 0, 0];
    v.extend_from_slice(&ident.to_be_bytes());
    v.extend_from_slice(&seq_no.to_be_bytes());
    v
}

/// Drives one full probe that is answered immediately.
fn probe_with_immediate_reply(r: &mut Runner, elapsed_ms: u64) {
    let ident = r.ident;
    let seq_no = r.seq_no;
    let pkt = r.next_action(false).expect("the run goes on");
    assert_eq!(pkt[0], 8);
    assert!(r.on_send_result(true));
    assert_eq!(r.poll_gate(0, false), Gate::Proceed);
    let buf = reply_bytes(ident, seq_no);
    let len = buf.len();
    match r.on_recv(&RecvOutcome::Data { buf, len }, elapsed_ms) {
        PollStep::Matched { reply } => {
            assert_eq!(reply.seq_no, seq_no);
            assert_eq!(reply.byte_len, 8);
        }
        other => panic!("expected a match, got {:?}", other),
    }
}

#[test]
fn sequence_numbering_never_emits_zero() {
    assert_eq!(next_sequence(1), 2);
    assert_eq!(next_sequence(0xFFFE), 0xFFFF);
    assert_eq!(next_sequence(0xFFFF), 1);
    let mut s: u16 = 1;
    for _ in 0..70_000u32 {
        s = next_sequence(s);
        assert_ne!(s, 0);
    }
}

#[test]
fn count_limited_run_with_replies_loses_nothing() {
    let mut r = Runner::new(0x1234, b"abc".to_vec(), Some(3), 2000, 1000);
    for k in 0..3u64 {
        probe_with_immediate_reply(&mut r, 5 + k);
        let step = r.finish_probe(false);
        if k < 2 {
            assert_eq!(step, NextStep::Sleep(1000));
        } else {
            assert_eq!(step, NextStep::Immediate);
        }
    }
    assert!(r.next_action(false).is_none());
    assert_eq!(r.stats.transmitted, 3);
    assert_eq!(r.stats.received, 3);
    assert_eq!(r.stats.loss_percent(), 0);
    let s = r.stats.summary().expect("replies were received");
    assert!(s.min_ms <= s.avg_ms && s.avg_ms <= s.max_ms);
    assert_eq!(s.min_ms, 5);
    assert_eq!(s.avg_ms, 6);
    assert_eq!(s.max_ms, 7);
}

#[test]
fn failed_second_send_gives_fifty_percent_loss() {
    let mut r = Runner::new(7, Vec::new(), Some(2), 2000, 1000);
    probe_with_immediate_reply(&mut r, 3);
    assert_eq!(r.finish_probe(false), NextStep::Sleep(1000));
    let _pkt = r.next_action(false).expect("second attempt");
    assert!(!r.on_send_result(false));
    assert_eq!(r.finish_probe(false), NextStep::Immediate);
    assert!(r.next_action(false).is_none());
    assert_eq!(r.stats.transmitted, 2);
    assert_eq!(r.stats.received, 1);
    assert_eq!(r.stats.loss_percent(), 50);
}

#[test]
fn cancellation_before_first_probe_leaves_empty_statistics() {
    let mut r = Runner::new(9, vec![1, 2], None, 2000, 1000);
    assert!(r.next_action(true).is_none());
    assert_eq!(r.stats.transmitted, 0);
    assert_eq!(r.stats.received, 0);
    assert_eq!(r.stats.loss_percent(), 0);
    assert!(r.stats.summary().is_none());
}

#[test]
fn deadline_expiry_loses_the_probe_but_not_the_run() {
    let mut r = Runner::new(11, Vec::new(), Some(1), 2000, 1000);
    let _pkt = r.next_action(false).expect("first attempt");
    assert!(r.on_send_result(true));
    assert_eq!(r.poll_gate(1999, false), Gate::Proceed);
    assert_eq!(r.poll_gate(2000, false), Gate::Expired);
    assert_eq!(r.finish_probe(false), NextStep::Immediate);
    assert!(r.next_action(false).is_none());
    assert_eq!(r.stats.transmitted, 1);
    assert_eq!(r.stats.received, 0);
    assert_eq!(r.stats.loss_percent(), 100);
    assert!(r.stats.summary().is_none());
}

#[test]
fn cancellation_during_polling_stops_the_whole_run() {
    let mut r = Runner::new(12, Vec::new(), None, 2000, 1000);
    let _pkt = r.next_action(false).expect("first attempt");
    assert!(r.on_send_result(true));
    assert_eq!(r.poll_gate(10, true), Gate::Cancelled);
    assert_eq!(r.stats.transmitted, 1);
    assert_eq!(r.stats.received, 0);
}

#[test]
fn noise_and_timeouts_keep_the_poll_going() {
    let mut r = Runner::new(0x0101, Vec::new(), None, 2000, 1000);
    let _pkt = r.next_action(false).expect("first attempt");
    assert!(r.on_send_result(true));
    // A read timeout is not a reply.
    assert_eq!(r.on_recv(&RecvOutcome::TimedOut, 1), PollStep::KeepPolling);
    // A reply to a stale sequence number is discarded silently.
    let stale = reply_bytes(0x0101, 0xFFFF);
    let len = stale.len();
    assert_eq!(
        r.on_recv(&RecvOutcome::Data { buf: stale, len }, 2),
        PollStep::KeepPolling
    );
    // A buffer too short for an ICMP header is discarded silently.
    assert_eq!(
        r.on_recv(&RecvOutcome::Data { buf: vec![0u8; 4], len: 4 }, 3),
        PollStep::KeepPolling
    );
    assert_eq!(r.stats.received, 0);
    // The matching reply still closes the probe.
    let good = reply_bytes(0x0101, 1);
    let len = good.len();
    assert!(matches!(
        r.on_recv(&RecvOutcome::Data { buf: good, len }, 4),
        PollStep::Matched { .. }
    ));
    assert_eq!(r.stats.received, 1);
    assert_eq!(r.stats.rtts, vec![4]);
}

#[test]
fn hard_receive_error_loses_the_probe_but_not_the_run() {
    let mut r = Runner::new(13, Vec::new(), None, 2000, 1000);
    let _pkt = r.next_action(false).expect("first attempt");
    assert!(r.on_send_result(true));
    assert_eq!(r.on_recv(&RecvOutcome::HardError, 1), PollStep::Failed);
    // An unbounded run sleeps after every attempt.
    assert_eq!(r.finish_probe(false), NextStep::Sleep(1000));
    let pkt2 = r.next_action(false);
    assert!(pkt2.is_some());
    assert_eq!(r.stats.transmitted, 2);
}

#[test]
fn cancellation_after_a_probe_stops_before_the_sleep() {
    let mut r = Runner::new(14, Vec::new(), None, 2000, 1000);
    probe_with_immediate_reply(&mut r, 8);
    assert_eq!(r.finish_probe(true), NextStep::Stop);
    assert_eq!(r.stats.transmitted, 1);
    assert_eq!(r.stats.received, 1);
}

#[test]
fn sequence_advances_and_wraps_across_probes() {
    let mut r = Runner::new(15, Vec::new(), None, 2000, 1000);
    assert_eq!(r.seq_no, 1);
    probe_with_immediate_reply(&mut r, 1);
    r.finish_probe(false);
    assert_eq!(r.seq_no, 2);
    // Force the wrap point: the next advance skips 0.
    r.seq_no = 0xFFFF;
    probe_with_immediate_reply(&mut r, 1);
    r.finish_probe(false);
    assert_eq!(r.seq_no, 1);
}
