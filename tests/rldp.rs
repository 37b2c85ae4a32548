use adnl_rldp::ids::incoming_transfer_id;
use adnl_rldp::rldp::{
    answer_data, build_query, is_transfer_complete, wave_len, PollOutcome, RldpAnswer, RldpMessage, RldpNodeError,
    TransferProgress,
};

#[test]
fn transfer_id_pairing() {
    let mut t = [0u8; 32];
    for (i, b) in t.iter_mut().enumerate() {
        *b = (i as u8) * 9;
    }
    let r = incoming_transfer_id(&t);
    for i in 0..32 {
        assert_eq!(t[i] ^ r[i], 0xff);
    }
    assert_eq!(incoming_transfer_id(&r), t);
}

#[test]
fn query_happy_path() {
    let q = build_query(&b"request".to_vec(), None, 1000);
    assert_eq!(q.max_answer_size, 128 * 1024);
    assert_eq!(q.timeout, 1010);
    assert_eq!(q.data, b"request".to_vec());
    let reply = RldpMessage::Answer(RldpAnswer { query_id: q.query_id, data: b"R".to_vec() });
    assert_eq!(answer_data(&q.query_id, reply), Ok(b"R".to_vec()));
}

#[test]
fn query_id_mismatch() {
    let q = build_query(&vec![1, 2, 3], Some(64), 0);
    assert_eq!(q.max_answer_size, 64);
    let mut other = q.query_id;
    other[0] ^= 1;
    let reply = RldpMessage::Answer(RldpAnswer { query_id: other, data: vec![] });
    assert_eq!(answer_data(&q.query_id, reply), Err(RldpNodeError::QueryIdMismatch));
}

#[test]
fn query_unexpected_answer() {
    let q = build_query(&vec![], None, 5);
    let reply = RldpMessage::Query(q.clone());
    assert_eq!(answer_data(&q.query_id, reply), Err(RldpNodeError::UnexpectedAnswer));
}

#[test]
fn wave_is_capped() {
    assert_eq!(wave_len(0), 0);
    assert_eq!(wave_len(3), 3);
    assert_eq!(wave_len(10), 10);
    assert_eq!(wave_len(1000), 10);
}

#[test]
fn transfer_completion() {
    assert!(!is_transfer_complete(None, 0));
    assert!(!is_transfer_complete(Some(10), 9));
    assert!(is_transfer_complete(Some(10), 10));
}

#[test]
fn send_progress_and_stall() {
    let mut p = TransferProgress::for_send(None);
    assert_eq!(p.timeout, 10000);
    assert_eq!(p.roundtrip, 0);
    p.start_part();
    assert_eq!(p.observe(0, 5000), PollOutcome::Waiting);
    assert_eq!(p.observe(2, 200), PollOutcome::Progress);
    assert_eq!(p.roundtrip, 200);
    assert_eq!(p.timeout, 500);
    assert_eq!(p.seen, 2);
    assert_eq!(p.observe(2, 509), PollOutcome::Waiting);
    assert_eq!(p.observe(2, 511), PollOutcome::Stalled);
    assert_eq!(p.stalled_roundtrip(), 400);
    p.finish_part(1000);
    assert_eq!(p.roundtrip, 700);
    assert_eq!(p.timeout, 700);
}

#[test]
fn reply_wait_progress() {
    let mut p = TransferProgress::for_reply(1200, 3);
    assert_eq!(p.timeout, 1200);
    assert_eq!(p.observe(3, 1236), PollOutcome::Waiting);
    assert_eq!(p.observe(3, 1237), PollOutcome::Stalled);
    assert_eq!(p.observe(4, 100), PollOutcome::Progress);
    assert_eq!(p.roundtrip, 1250);
}
