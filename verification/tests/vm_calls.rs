use std::sync::Arc;

use mpz::correlated::{Block, Delta, Key, Mac};
use mpz::garble::evaluate::{check_commitment_count, ErrorKind as EvaluateErrorKind};
use mpz::garble::semihonest::{Evaluator, Generator};
use mpz::memory::{Memory, Slice, View};
use mpz::circuit::Circuit;
use mpz::vm::{Call, CallError, ErrorKind, VmError};

/// A circuit without gates whose inputs have the given lengths, over
/// consecutive nodes, and whose one output reads the first `output_len` nodes.
fn shape(inputs: Vec<usize>, output_len: usize) -> Arc<Circuit> {
    let mut next = 0;
    let mut groups = Vec::new();
    for len in inputs {
        groups.push((next..next + len).collect::<Vec<usize>>());
        next += len;
    }
    let feed_count = next.max(output_len);
    let outputs = vec![(0..output_len).collect::<Vec<usize>>()];
    Arc::new(Circuit::new(groups, outputs, vec![], feed_count).unwrap())
}

#[test]
fn call_checks_input_count() {
    let circ = shape(vec![8, 8], 8);
    let err = Call::new(circ, vec![Slice::from_range_unchecked(0..8)]).unwrap_err();
    assert_eq!(err, CallError::InputCount { expected: 2, actual: 1 });
}

#[test]
fn call_checks_input_lengths() {
    let circ = shape(vec![8, 8], 8);
    let err = Call::new(
        circ,
        vec![Slice::from_range_unchecked(0..8), Slice::from_range_unchecked(8..12)],
    )
    .unwrap_err();
    assert_eq!(err, CallError::InputLength { idx: 1, expected: 8, actual: 4 });
}

#[test]
fn call_keeps_its_parts() {
    let circ = shape(vec![2], 3);
    let inputs = vec![Slice::from_range_unchecked(4..6)];
    let call = Call::new(circ, inputs.clone()).unwrap();
    assert_eq!(call.inputs(), &inputs[..]);
    assert_eq!(call.circ().output_len(), 3);
    let (circ, parts) = call.into_parts();
    assert_eq!(circ.inputs(), &[vec![0, 1]][..]);
    assert_eq!(parts, inputs);
}

#[test]
fn vm_error_kinds() {
    let err = VmError::memory("out of memory".to_string());
    assert_eq!(err.kind(), ErrorKind::Memory);
    let err = VmError::io("closed".to_string());
    assert_eq!(err.kind(), ErrorKind::Io);
}

#[test]
fn commitment_count_is_checked() {
    assert!(check_commitment_count(128, 128).is_ok());
    let err = check_commitment_count(128, 127).unwrap_err();
    assert_eq!(err.kind(), EvaluateErrorKind::Generator);
}

#[test]
fn generator_takes_calls_whose_inputs_have_keys() {
    let delta = Delta::new(Block::new(3));
    let mut gen = Generator::new((), [0u8; 16], delta);
    let a = gen_alloc(&mut gen, 2);
    let out_a = gen
        .call_raw(Call::new(shape(vec![2], 1), vec![a]).unwrap())
        .unwrap();
    // The second call reads the first call's output, whose keys are not set.
    let out_b = gen
        .call_raw(Call::new(shape(vec![1], 1), vec![out_a]).unwrap())
        .unwrap();
    let ready = gen.take_preprocess_calls();
    assert_eq!(ready.len(), 1);
    assert_eq!(ready[0].2, out_a);
    assert_eq!(ready[0].1.len(), 2);
    // Nothing is committed, so nothing can be executed.
    assert!(gen.take_execute_calls().is_empty());
    let _ = out_b;
}

fn gen_alloc(gen: &mut Generator<()>, len: usize) -> Slice {
    gen.alloc_raw(len).unwrap()
}

#[test]
fn evaluator_takes_independent_calls_in_order() {
    let mut ev = Evaluator::new(());
    let a = ev.alloc_raw(2).unwrap();
    ev.mark_public_raw(a).unwrap();
    let out_a = ev
        .call_raw(Call::new(shape(vec![2], 2), vec![a]).unwrap())
        .unwrap();
    let out_b = ev
        .call_raw(Call::new(shape(vec![2], 2), vec![out_a]).unwrap())
        .unwrap();
    let out_c = ev
        .call_raw(Call::new(shape(vec![2], 2), vec![a]).unwrap())
        .unwrap();
    let taken = ev.take_independent_calls();
    let outputs: Vec<Slice> = taken.iter().map(|(_, out)| *out).collect();
    assert_eq!(outputs, vec![out_a, out_c]);
    let again = ev.take_independent_calls();
    assert_eq!(again.len(), 1);
    assert_eq!(again[0].1, out_b);
    // No input has MACs yet.
    let _ = Mac::from_blocks(vec![]);
    let _ = Key::from_blocks(vec![]);
}

#[test]
fn error_messages_name_the_kind_and_cause() {
    let err = VmError::memory("out of memory".to_string());
    assert_eq!(err.message(), "vm error: memory error caused by: out of memory");
    let err = check_commitment_count(128, 127).unwrap_err();
    assert!(err.message().starts_with("evaluator error: generator error caused by: "));
}

#[test]
fn evaluator_finishes_calls_and_feeds_their_outputs_onward() {
    let mut ev = Evaluator::new(());
    let a = ev.alloc_raw(2).unwrap();
    ev.mark_public_raw(a).unwrap();
    let out_a = ev
        .call_raw(Call::new(shape(vec![2], 2), vec![a]).unwrap())
        .unwrap();
    let taken = ev.take_independent_calls();
    assert_eq!(taken.len(), 1);
    let out_b = ev
        .call_raw(Call::new(shape(vec![2], 2), vec![out_a]).unwrap())
        .unwrap();
    assert!(ev.take_ready_calls().is_empty());
    let macs = Mac::from_blocks(vec![Block::new(6), Block::new(9)]);
    ev.finish_calls(vec![(out_a, macs.clone())]).unwrap();
    let ready = ev.take_ready_calls();
    assert_eq!(ready.len(), 1);
    assert_eq!(ready[0].1, macs);
    assert_eq!(ready[0].2, out_b);
}

#[test]
fn garbled_gates_are_gathered_and_padding_cut() {
    let mut batches = mpz::garble::evaluate::GateBatches::new(5);
    assert!(batches.wants_batch());
    batches.push_batch(&[1u32, 2, 3]);
    assert!(batches.wants_batch());
    batches.push_batch(&[4u32, 5, 0, 0]);
    assert!(!batches.wants_batch());
    assert_eq!(batches.finish(), vec![1, 2, 3, 4, 5]);
}
