use mpz::binary::U8;
use mpz::correlated::{Block, Delta, Key, Mac};
use mpz::garble::evaluator::{EvaluatorStore, EvaluatorStoreError};
use mpz::garble::generator::{GeneratorStore, GeneratorStoreError};
use mpz::garble::{FlushState, GeneratorFlush};
use rangeset::set::RangeSet;
use mpz::memory::{Array, Memory, MemoryExt, View, ViewExt};
use mpz::ot::ideal_cot::IdealCOT;
use mpz::ot::COTReceiverOutput;
use rand::{rngs::StdRng, Rng, SeedableRng};

fn random_delta(rng: &mut StdRng) -> Delta {
    Delta::new(Block::new(rng.gen()))
}

fn new() -> GeneratorStore {
    let mut rng = StdRng::seed_from_u64(0);
    GeneratorStore::new([0; 16], random_delta(&mut rng))
}

#[test]
fn test_store_decode() {
    let mut cot = IdealCOT::default();
    let mut rng = StdRng::seed_from_u64(0);
    let delta = random_delta(&mut rng);
    cot.set_delta(delta.into_inner());

    let mut gen = GeneratorStore::new(rng.gen(), delta);
    let mut ev = EvaluatorStore::default();

    let val_a = [0u8; 16];
    let val_b = [42u8; 16];
    let val_c = [69u8; 16];

    let ref_a_gen: Array<U8, 16> = gen.alloc_value().unwrap();
    gen.mark_public(ref_a_gen).unwrap();
    let ref_b_gen: Array<U8, 16> = gen.alloc_value().unwrap();
    gen.mark_private(ref_b_gen).unwrap();
    let ref_c_gen: Array<U8, 16> = gen.alloc_value().unwrap();
    gen.mark_blind(ref_c_gen).unwrap();

    let ref_a_ev: Array<U8, 16> = ev.alloc_value().unwrap();
    ev.mark_public(ref_a_ev).unwrap();
    let ref_b_ev: Array<U8, 16> = ev.alloc_value().unwrap();
    ev.mark_blind(ref_b_ev).unwrap();
    let ref_c_ev: Array<U8, 16> = ev.alloc_value().unwrap();
    ev.mark_private(ref_c_ev).unwrap();

    gen.assign(ref_a_gen, val_a).unwrap();
    gen.assign(ref_b_gen, val_b).unwrap();

    ev.assign(ref_a_ev, val_a).unwrap();
    ev.assign(ref_c_ev, val_c).unwrap();

    gen.commit(ref_a_gen).unwrap();
    gen.commit(ref_b_gen).unwrap();
    gen.commit(ref_c_gen).unwrap();

    ev.commit(ref_a_ev).unwrap();
    ev.commit(ref_b_ev).unwrap();
    ev.commit(ref_c_ev).unwrap();

    assert!(gen.wants_flush());
    assert!(ev.wants_flush());

    let (gen_flush, keys) = gen.flush().unwrap();
    let (ev_flush, choices) = ev.flush().unwrap();

    assert_eq!(keys.len(), choices.len());

    let (_, COTReceiverOutput { msgs: macs, .. }) =
        cot.correlated(Key::as_blocks(&keys).to_vec(), choices);

    gen.receive_flush(ev_flush).unwrap();
    ev.receive_flush(gen_flush, Mac::from_blocks(macs)).unwrap();

    let mut fut_a_gen = gen.decode(ref_a_gen).unwrap();
    let mut fut_b_gen = gen.decode(ref_b_gen).unwrap();
    let mut fut_c_gen = gen.decode(ref_c_gen).unwrap();

    let mut fut_a_ev = ev.decode(ref_a_ev).unwrap();
    let mut fut_b_ev = ev.decode(ref_b_ev).unwrap();
    let mut fut_c_ev = ev.decode(ref_c_ev).unwrap();

    assert!(gen.wants_flush());
    assert!(ev.wants_flush());

    let (gen_flush, keys) = gen.flush().unwrap();
    assert!(keys.is_empty());
    let (ev_flush, choices) = ev.flush().unwrap();
    assert!(choices.is_empty());

    gen.receive_flush(ev_flush).unwrap();
    ev.receive_flush(gen_flush, Vec::default()).unwrap();

    let (val_a_gen, val_b_gen, val_c_gen) = (
        fut_a_gen.try_recv().unwrap().unwrap(),
        fut_b_gen.try_recv().unwrap().unwrap(),
        fut_c_gen.try_recv().unwrap().unwrap(),
    );

    let (val_a_ev, val_b_ev, val_c_ev) = (
        fut_a_ev.try_recv().unwrap().unwrap(),
        fut_b_ev.try_recv().unwrap().unwrap(),
        fut_c_ev.try_recv().unwrap().unwrap(),
    );

    assert_eq!(val_a_gen, val_a_ev);
    assert_eq!(val_b_gen, val_b_ev);
    assert_eq!(val_c_gen, val_c_ev);
    assert_eq!(val_a_gen, val_a);
    assert_eq!(val_b_gen, val_b);
    assert_eq!(val_c_gen, val_c);
}

#[test]
fn test_gen_store_commit_without_visibility() {
    let mut store = new();
    let slice = store.alloc_raw(1).unwrap();
    let err = store.commit_raw(slice).unwrap_err();
    assert!(matches!(err, GeneratorStoreError::VisibilityNotSet { .. }));
}

#[test]
fn test_gen_store_commit_without_assign() {
    let mut store = new();
    let slice = store.alloc_raw(1).unwrap();
    store.mark_public_raw(slice).unwrap();
    let err = store.commit_raw(slice).unwrap_err();
    assert!(matches!(err, GeneratorStoreError::NotAssigned { .. }));

    let slice = store.alloc_raw(1).unwrap();
    store.mark_private_raw(slice).unwrap();
    let err = store.commit_raw(slice).unwrap_err();
    assert!(matches!(err, GeneratorStoreError::NotAssigned { .. }));
}

#[test]
fn test_gen_store_commit_twice_is_ok() {
    let mut store = new();
    let slice = store.alloc_raw(1).unwrap();
    store.mark_blind_raw(slice).unwrap();
    store.commit_raw(slice).unwrap();
    assert!(store.commit_raw(slice).is_ok());
}

#[test]
fn test_gen_store_visibility_already_set() {
    let mut store = new();
    let slice = store.alloc_raw(1).unwrap();
    store.mark_public_raw(slice).unwrap();
    let err = store.mark_public_raw(slice).unwrap_err();
    assert!(matches!(err, GeneratorStoreError::VisibilityAlreadySet { .. }));

    let slice = store.alloc_raw(1).unwrap();
    store.mark_private_raw(slice).unwrap();
    let err = store.mark_private_raw(slice).unwrap_err();
    assert!(matches!(err, GeneratorStoreError::VisibilityAlreadySet { .. }));

    let slice = store.alloc_raw(1).unwrap();
    store.mark_blind_raw(slice).unwrap();
    let err = store.mark_blind_raw(slice).unwrap_err();
    assert!(matches!(err, GeneratorStoreError::VisibilityAlreadySet { .. }));
}

#[test]
fn test_gen_store_nothing_to_flush() {
    let mut store = new();
    assert!(!store.wants_flush());
}

#[test]
fn test_gen_store_flush_pending_output() {
    let mut rng = StdRng::seed_from_u64(0);
    let mut store = new();
    let slice = store.alloc_output(1);
    _ = store.decode_raw(slice).unwrap();

    assert!(!store.wants_flush());

    store.set_output(slice, &[Key::new(Block::new(rng.gen()))]).unwrap();

    let (flush, _) = store.flush().unwrap();

    assert!(
        !flush.state().key_bits().is_empty(),
        "should want to flush key bits"
    );
    assert!(
        flush.state().decode().is_empty(),
        "should not be set until after marked ready"
    );

    store.mark_output(slice);

    assert!(store.wants_flush());
}

#[test]
fn ev_store_flush_index_mismatch_is_refused() {
    let mut gen = new();
    let mut ev = EvaluatorStore::default();
    let a = gen.alloc_raw(8).unwrap();
    gen.mark_public_raw(a).unwrap();
    gen.assign_raw(a, vec![true; 8]).unwrap();
    gen.commit_raw(a).unwrap();
    let (gen_flush, _) = gen.flush().unwrap();
    // The evaluator has committed nothing, so its index differs.
    let err = ev.receive_flush(gen_flush, Vec::new()).unwrap_err();
    assert!(matches!(err, EvaluatorStoreError::FlushIdx { .. }));
}

#[test]
fn test_gen_store_commit_wants_flush() {
    // Committed memory waits for a flush; the visibility is set first, as a
    // commit of memory without one is refused.
    let mut store = new();
    let slice = store.alloc_raw(1).unwrap();
    store.mark_blind_raw(slice).unwrap();
    store.commit_raw(slice).unwrap();
    assert!(store.wants_flush());
}

#[test]
fn gen_store_generator_flush_passes_validation() {
    // A flush index with both MAC and oblivious-transfer addresses, and one
    // MAC per MAC address, as the generator sends it.
    let idx = FlushState::from_sets(
        RangeSet::from(0..2),
        RangeSet::from(2..3),
        RangeSet::default(),
        RangeSet::default(),
    );
    let mac = Mac::new(Block::new(1));
    assert!(GeneratorFlush::try_from_parts(idx, vec![mac, mac], vec![]).is_ok());
    let idx = FlushState::from_sets(
        RangeSet::from(0..2),
        RangeSet::from(2..3),
        RangeSet::default(),
        RangeSet::default(),
    );
    assert!(GeneratorFlush::try_from_parts(idx, vec![mac], vec![]).is_err());
}
