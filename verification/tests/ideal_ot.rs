use mpz::correlated::Block;
use mpz::ot::ideal_cot::IdealCOT;
use mpz::ot::ideal_rcot::{IdealRCOT, IdealRCOTErrorKind};
use mpz::ot::rcot::{RCOTReceiver, RCOTReceiverOutput, RCOTSender, RCOTSenderOutput};
use mpz::ot::{COTReceiverOutput, COTSenderOutput, TransferId};
use rand::{Rng, SeedableRng};
use rand_chacha::ChaCha8Rng;

/// Asserts the correlation of COTs: each received message is the sender's
/// message, XORed with delta when the choice is set.
fn assert_cot(delta: Block, choices: &[bool], msgs: &[Block], received: &[Block]) {
    assert_eq!(choices.len(), msgs.len());
    assert_eq!(msgs.len(), received.len());
    for ((choice, msg), received) in choices.iter().zip(msgs).zip(received) {
        let expected = if *choice { msg.xor(&delta) } else { *msg };
        assert_eq!(*received, expected);
    }
}

#[test]
fn cot_test_ideal_rcot() {
    let mut ideal = IdealCOT::default();

    let (
        RCOTSenderOutput { keys: msgs, .. },
        RCOTReceiverOutput {
            choices,
            msgs: received,
            ..
        },
    ) = ideal.random_correlated(100);

    assert_cot(ideal.delta(), &choices, &msgs, &received)
}

#[test]
fn test_ideal_cot() {
    let mut ideal = IdealCOT::default();

    let mut rng = ChaCha8Rng::seed_from_u64(0);
    let msgs: Vec<Block> = (0..100).map(|_| Block::new(rng.gen())).collect();
    let mut choices = vec![false; 100];
    rng.fill(&mut choices[..]);

    let (COTSenderOutput { msgs, .. }, COTReceiverOutput { msgs: received, .. }) =
        ideal.correlated(msgs, choices.clone());

    assert_cot(ideal.delta(), &choices, &msgs, &received)
}

#[test]
fn rcot_test_ideal_rcot() {
    let mut ideal = IdealRCOT::default();

    ideal.alloc_both(100);
    ideal.flush().unwrap();

    let (
        RCOTSenderOutput { keys: msgs, .. },
        RCOTReceiverOutput {
            choices,
            msgs: received,
            ..
        },
    ) = ideal.transfer(100).unwrap();

    assert_cot(RCOTSender::delta(&ideal), &choices, &msgs, &received)
}

#[test]
fn ideal_cot_transfer_ids_count_up() {
    let mut ideal = IdealCOT::new(Block::new(1), Block::new(2));
    let (a, b) = ideal.random_correlated(3);
    let (c, d) = ideal.correlated(vec![Block::new(5)], vec![true]);
    assert_eq!(a.id.as_u64(), 0);
    assert_eq!(b.id.as_u64(), 0);
    assert_eq!(c.id.as_u64(), 1);
    assert_eq!(d.id.as_u64(), 1);
    assert_eq!(d.msgs[0], Block::new(7));
}

#[test]
fn ideal_rcot_insufficient_preprocessed() {
    let mut ideal = IdealRCOT::default();
    let err = ideal.try_send_rcot(1).unwrap_err();
    assert!(matches!(
        err.kind(),
        IdealRCOTErrorKind::InsufficientPreprocessed { wanted: 1, got: 0 }
    ));
    let err = ideal.try_recv_rcot(2).unwrap_err();
    assert!(matches!(
        err.kind(),
        IdealRCOTErrorKind::InsufficientPreprocessed { wanted: 2, got: 0 }
    ));
}

#[test]
fn ideal_rcot_flush_serves_queued_transfers() {
    // Flush deals the allocated RCOTs and then answers the queued transfers.
    let mut ideal = IdealRCOT::default();
    let mut fs = ideal.queue_send_rcot(5).unwrap();
    let mut fr = ideal.queue_recv_rcot(5).unwrap();
    assert!(fs.try_recv().unwrap().is_none());
    ideal.flush().unwrap();
    let s = fs.try_recv().unwrap().unwrap();
    let r = fr.try_recv().unwrap().unwrap();
    assert_eq!(s.keys.len(), 5);
    assert_eq!(r.choices.len(), 5);
    assert_eq!(r.msgs.len(), 5);
    assert_cot(RCOTSender::delta(&ideal), &r.choices, &s.keys, &r.msgs);
}

#[test]
fn ideal_rcot_queued_transfer_is_answered() {
    let mut ideal = IdealRCOT::default();
    ideal.alloc_both(8);
    ideal.flush().unwrap();
    let mut sent = ideal.queue_send_rcot(3).unwrap();
    let mut received = ideal.queue_recv_rcot(3).unwrap();
    let s = sent.try_recv().unwrap().unwrap();
    let r = received.try_recv().unwrap().unwrap();
    assert_eq!(s.keys.len(), 3);
    assert_eq!(RCOTSender::available(&ideal), 5);
    assert_eq!(RCOTReceiver::available(&ideal), 5);
    assert_cot(RCOTSender::delta(&ideal), &r.choices, &s.keys, &r.msgs);
}

#[test]
fn ideal_rcot_count_mismatch() {
    let mut ideal = IdealRCOT::default();
    ideal.alloc_both(10);
    ideal.flush().unwrap();
    // Both counts of the same transfer are compared.
    ideal.try_recv_rcot(2).unwrap();
    let err = ideal.try_send_rcot(3).unwrap_err();
    match err.kind() {
        IdealRCOTErrorKind::CountMismatch { id, sender, receiver } => {
            assert_eq!(id.as_u64(), 0);
            assert_eq!(sender, 3);
            assert_eq!(receiver, 2);
        }
        _ => panic!("expected a count mismatch"),
    }
}

#[test]
fn ideal_rcot_sends_ahead_of_the_receiver() {
    let mut ideal = IdealRCOT::default();
    ideal.alloc_both(5);
    ideal.flush().unwrap();
    let s1 = ideal.try_send_rcot(2).unwrap();
    let _s2 = ideal.try_send_rcot(3).unwrap();
    let o = ideal.try_recv_rcot(2).unwrap();
    assert_eq!(o.id, s1.id);
    assert_eq!(o.choices.len(), 2);
    assert_cot(RCOTSender::delta(&ideal), &o.choices, &s1.keys, &o.msgs);
}

#[test]
fn transfer_id_next_counts_up() {
    let mut id = TransferId::default();
    assert_eq!(id.next().as_u64(), 0);
    assert_eq!(id.next().as_u64(), 1);
    assert_eq!(id.as_u64(), 2);
}

#[test]
fn ideal_rcot_jth_send_pairs_with_jth_receive() {
    let mut ideal = IdealRCOT::default();
    ideal.alloc_both(9);
    ideal.flush().unwrap();
    let s1 = ideal.try_send_rcot(2).unwrap();
    let s2 = ideal.try_send_rcot(3).unwrap();
    let o1 = ideal.try_recv_rcot(2).unwrap();
    let s3 = ideal.try_send_rcot(4).unwrap();
    let o2 = ideal.try_recv_rcot(3).unwrap();
    let o3 = ideal.try_recv_rcot(4).unwrap();
    let delta = RCOTSender::delta(&ideal);
    for (s, o) in [(&s1, &o1), (&s2, &o2), (&s3, &o3)] {
        assert_eq!(s.id, o.id);
        assert_cot(delta, &o.choices, &s.keys, &o.msgs);
    }
}

#[test]
fn ideal_rcot_second_flush_adds_nothing() {
    let mut ideal = IdealRCOT::default();
    ideal.alloc_both(4);
    ideal.flush().unwrap();
    assert_eq!(RCOTSender::available(&ideal), 4);
    assert_eq!(RCOTReceiver::available(&ideal), 4);
    ideal.flush().unwrap();
    assert_eq!(RCOTSender::available(&ideal), 4);
    assert_eq!(RCOTReceiver::available(&ideal), 4);
}
