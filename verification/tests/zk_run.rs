use mpz::circuit::{Circuit, Gate};
use mpz::correlated::{Block, Delta, Key, Mac};
use mpz::zk::checking::Verifier;
use mpz::zk::consistency::{block_from_le_bytes, check_uv, check_w, pack_bits, verify};
use mpz::zk::proving::{adjust_chunks, Prover};
use mpz::zk::split_counts;

/// out = [a & b, a ^ (a & b), !(a ^ (a & b))]
fn small_circuit() -> Circuit {
    Circuit::new(
        vec![vec![0], vec![1]],
        vec![vec![2, 3, 4]],
        vec![
            Gate::And { x: 0, y: 1, z: 2 },
            Gate::Xor { x: 0, y: 2, z: 3 },
            Gate::Inv { x: 3, z: 4 },
        ],
        5,
    )
    .unwrap()
}

fn delta() -> Delta {
    Delta::new(Block::new(0x5a5a_1234_0000_ffff_0f0f_abcd_9876_5433))
}

/// Keys with the pointer bit clear, so a MAC's pointer bit is its bit.
fn key(seed: u128) -> Key {
    Key::new(Block::new(seed << 1))
}

/// The MAC that agrees with `key` on every bit but the lowest, which is `bit`.
fn consistent(mac: &Mac, key: &Key, bit: bool, delta: &Delta) -> bool {
    let expected = key.auth(bit, delta).as_block().to_u128();
    let mac = mac.as_block().to_u128();
    mac >> 1 == expected >> 1 && mac.pointer_bit() == bit
}

trait PointerBit {
    fn pointer_bit(&self) -> bool;
}

impl PointerBit for u128 {
    fn pointer_bit(&self) -> bool {
        self & 1 == 1
    }
}

fn run(a: bool, b: bool, mask: bool) -> (Vec<Mac>, Vec<Key>, Vec<bool>) {
    let circ = small_circuit();
    let delta = delta();
    let keys = vec![key(0x1111), key(0x2222)];
    let macs = vec![keys[0].auth(a, &delta), keys[1].auth(b, &delta)];
    let gate_key = key(0x7777_0000);
    let gate_mac = gate_key.auth(mask, &delta);

    let masks = [mask];
    let gate_macs = [gate_mac];
    let gate_keys = [gate_key];
    let mut prover = Prover::default();
    let mut it = prover.execute(&circ, &macs, &masks, &gate_macs).unwrap();
    let mut adjusts = Vec::new();
    while let Some(adjust) = it.next() {
        adjusts.push(adjust);
    }
    let out_macs = it.finish().unwrap();

    let mut verifier = Verifier::new(delta);
    let mut consumer = verifier.execute(&circ, &keys, &gate_keys).unwrap();
    for adjust in &adjusts {
        consumer.next(*adjust);
    }
    let out_keys = consumer.finish().unwrap();
    (out_macs, out_keys, adjusts)
}

#[test]
fn zk_outputs_are_consistent_for_every_input() {
    let delta = delta();
    for a in [false, true] {
        for b in [false, true] {
            for mask in [false, true] {
                let (macs, keys, adjusts) = run(a, b, mask);
                assert_eq!(adjusts.len(), 1);
                assert_eq!(adjusts[0], mask ^ (a & b));
                let and = a & b;
                let xor = a ^ and;
                let bits = [and, xor, !xor];
                assert_eq!(macs.len(), 3);
                assert_eq!(keys.len(), 3);
                for j in 0..3 {
                    assert!(consistent(&macs[j], &keys[j], bits[j], &delta));
                    assert_eq!(macs[j].pointer(), bits[j]);
                }
            }
        }
    }
}

#[test]
fn zk_parties_start_with_matching_lengths() {
    let circ = small_circuit();
    let mac = Mac::new(Block::new(0));
    let (input_macs, masks, gate_macs) = ([mac, mac], [false], [mac]);
    let mut prover = Prover::default();
    let it = prover.execute(&circ, &input_macs, &masks, &gate_macs).unwrap();
    assert!(it.has_gates());

    let key = Key::new(Block::new(0));
    let (input_keys, gate_keys) = ([key, key], [key]);
    let mut verifier = Verifier::new(delta());
    let consumer = verifier.execute(&circ, &input_keys, &gate_keys).unwrap();
    assert!(consumer.wants_gates());
}

#[test]
fn zk_free_circuit_needs_no_adjust() {
    // out = !(a ^ b)
    let circ = Circuit::new(
        vec![vec![0], vec![1]],
        vec![vec![3]],
        vec![Gate::Xor { x: 0, y: 1, z: 2 }, Gate::Inv { x: 2, z: 3 }],
        4,
    )
    .unwrap();
    let delta = delta();
    let keys = vec![key(3), key(5)];
    let macs = vec![keys[0].auth(true, &delta), keys[1].auth(false, &delta)];
    let mut prover = Prover::default();
    let (masks, gate_macs): ([bool; 0], [Mac; 0]) = ([], []);
    let mut it = prover.execute(&circ, &macs, &masks, &gate_macs).unwrap();
    assert!(!it.has_gates());
    assert_eq!(it.next(), None);
    let out_macs = it.finish().unwrap();
    assert!(!prover.wants_check());

    let mut verifier = Verifier::new(delta);
    let gate_keys: [Key; 0] = [];
    let consumer = verifier.execute(&circ, &keys, &gate_keys).unwrap();
    let out_keys = consumer.finish().unwrap();
    assert!(consistent(&out_macs[0], &out_keys[0], false, &delta));
    assert!(!verifier.wants_check());
}

#[test]
fn zk_and_gates_are_recorded_for_the_check() {
    let circ = small_circuit();
    let mac = Mac::new(Block::new(0));
    let mut prover = Prover::default();
    assert!(!prover.wants_check());
    let (input_macs, masks, gate_macs) = ([mac, mac], [true], [mac]);
    let mut it = prover.execute(&circ, &input_macs, &masks, &gate_macs).unwrap();
    assert_eq!(it.next(), Some(true));
    assert_eq!(it.next(), None);
    let _ = it.finish().unwrap();
    assert!(prover.wants_check());
}

#[test]
fn gfmul_multiplies_in_the_field() {
    let one = Block::new(1);
    let a = Block::new(0x0123_4567_89ab_cdef_fedc_ba98_7654_3210);
    assert_eq!(a.gfmul(&one), a);
    assert_eq!(one.gfmul(&a), a);
    // x^127 * x = x^128 = x^7 + x^2 + x + 1
    assert_eq!(Block::new(1 << 127).gfmul(&Block::new(2)).to_u128(), 0x87);
    assert_eq!(Block::new(0).gfmul(&a).to_u128(), 0);
    let b = Block::new(0xdead_beef_0000_1111_2222_3333_4444_5555);
    assert_eq!(a.gfmul(&b), b.gfmul(&a));
}

#[test]
fn adjust_bits_are_packed_lsb_first() {
    assert_eq!(pack_bits(&[]), Vec::<u8>::new());
    assert_eq!(pack_bits(&[true, false, true]), vec![5]);
    let bits = [true, true, false, false, false, false, false, true, false, true];
    assert_eq!(pack_bits(&bits), vec![0x83, 0x02]);
}

#[test]
fn challenge_is_read_little_endian() {
    let mut bytes = [0u8; 32];
    bytes[0] = 1;
    bytes[15] = 0x80;
    bytes[16] = 0xff;
    assert_eq!(block_from_le_bytes(&bytes).to_u128(), (0x80u128 << 120) | 1);
}

#[test]
fn check_of_no_gates_returns_the_masks() {
    let (mu, mv) = (Block::new(7), Block::new(9));
    let (u, v) = check_uv(&[], Block::new(3), mu, mv);
    assert_eq!((u, v), (mu, mv));
    assert_eq!(check_w(&[], Block::new(3), Block::new(5), Block::new(11)), Block::new(11));
}

#[test]
fn verify_compares_w_with_u_and_v() {
    let d = delta();
    let (u, v) = (Block::new(0x1234), Block::new(0x5678));
    let w = u.xor(&d.as_block().gfmul(&v));
    assert!(verify(w, u, v, d).is_ok());
    assert!(verify(w.xor(&Block::new(1)), u, v, d).is_err());
}

#[test]
fn honest_parties_pass_the_consistency_check() {
    // a = b = 1 with mask 1: the adjust bit is 0 and every MAC is exactly
    // the key XOR the bit times delta.
    let circ = small_circuit();
    let delta = delta();
    let keys = vec![key(0x1111), key(0x2222)];
    let macs = vec![keys[0].auth(true, &delta), keys[1].auth(true, &delta)];
    let gate_key = key(0x7777_0000);
    let gate_macs = [gate_key.auth(true, &delta)];
    let gate_keys = [gate_key];
    let masks = [true];

    let mut prover = Prover::default();
    let mut it = prover.execute(&circ, &macs, &masks, &gate_macs).unwrap();
    let adjust = it.next().unwrap();
    assert!(!adjust);
    assert_eq!(it.next(), None);
    let _ = it.finish().unwrap();

    let mut verifier = Verifier::new(delta);
    let mut consumer = verifier.execute(&circ, &keys, &gate_keys).unwrap();
    consumer.next(adjust);
    let _ = consumer.finish().unwrap();

    let (mask_u, mask_v) = (Block::new(0x99), Block::new(0x42));
    let mask_w = mask_u.xor(&delta.as_block().gfmul(&mask_v));
    let (u, v) = prover.check(mask_u, mask_v);
    assert!(!prover.wants_check());
    let w = verifier.check(mask_w);
    assert!(!verifier.wants_check());
    assert!(verifier.verify(w, u, v).is_ok());
    assert!(verifier.verify(w, u.xor(&Block::new(2)), v).is_err());
}

#[test]
fn adjust_bits_are_sent_in_chunks_of_8000() {
    assert!(adjust_chunks(&[]).is_empty());
    let bits: Vec<bool> = (0..16001).map(|i| i % 3 == 0).collect();
    let chunks = adjust_chunks(&bits);
    assert_eq!(chunks.len(), 3);
    assert_eq!(chunks[0].len(), 8000);
    assert_eq!(chunks[1].len(), 8000);
    assert_eq!(chunks[2].len(), 1);
    assert_eq!(chunks.concat(), bits);
}

#[test]
fn verifier_takes_adjust_bits_a_chunk_at_a_time() {
    let circ = small_circuit();
    let delta = delta();
    let keys = vec![key(0x1111), key(0x2222)];
    let macs = vec![keys[0].auth(true, &delta), keys[1].auth(false, &delta)];
    let gate_key = key(0x7777_0000);
    let gate_macs = [gate_key.auth(true, &delta)];
    let gate_keys = [gate_key];

    let mut prover = Prover::default();
    let mut it = prover.execute(&circ, &macs, &[true], &gate_macs).unwrap();
    let mut adjusts = Vec::new();
    while let Some(adjust) = it.next() {
        adjusts.push(adjust);
    }
    let out_macs = it.finish().unwrap();

    let mut verifier = Verifier::new(delta);
    let mut consumer = verifier.execute(&circ, &keys, &gate_keys).unwrap();
    for chunk in adjust_chunks(&adjusts) {
        // A trailing bit past the last AND gate is ignored.
        let mut message = chunk.clone();
        message.push(true);
        consumer.next_chunk(&message);
    }
    assert!(!consumer.wants_gates());
    let out_keys = consumer.finish().unwrap();
    let bits = [false, true, false];
    for j in 0..3 {
        assert!(consistent(&out_macs[j], &out_keys[j], bits[j], &delta));
    }
}

/// Runs the small circuit on a = b = 1 with mask 1, so that every MAC is
/// exactly its key XOR the bit times delta.
fn run_exact(prover: &mut Prover, verifier: &mut Verifier, seed: u128) {
    let circ = small_circuit();
    let delta = delta();
    let keys = vec![key(seed), key(seed + 1)];
    let macs = vec![keys[0].auth(true, &delta), keys[1].auth(true, &delta)];
    let gate_key = key(seed + 2);
    let gate_macs = [gate_key.auth(true, &delta)];
    let gate_keys = [gate_key];
    let mut it = prover.execute(&circ, &macs, &[true], &gate_macs).unwrap();
    let adjust = it.next().unwrap();
    let _ = it.finish().unwrap();
    let mut consumer = verifier.execute(&circ, &keys, &gate_keys).unwrap();
    consumer.next(adjust);
    let _ = consumer.finish().unwrap();
}

#[test]
fn consecutive_checks_share_the_transcript() {
    let delta = delta();
    let mut prover = Prover::default();
    let mut verifier = Verifier::new(delta);
    for round in 0..3u128 {
        run_exact(&mut prover, &mut verifier, 0x100 * (round + 1));
        let (u, v) = prover.check(Block::new(0), Block::new(0));
        let w = verifier.check(Block::new(0));
        assert!(verifier.verify(w, u, v).is_ok());
    }
}

#[test]
fn gate_material_is_shared_out_in_call_order() {
    let items = [1u8, 2, 3, 4, 5, 6];
    let pieces = split_counts(&items, &[2, 0, 4]).unwrap();
    assert_eq!(pieces, vec![vec![1, 2], vec![], vec![3, 4, 5, 6]]);
    assert!(split_counts(&items, &[2, 3]).is_none());
    assert!(split_counts(&items, &[4, 4]).is_none());
    assert_eq!(split_counts::<u8>(&[], &[]), Some(vec![]));
}
