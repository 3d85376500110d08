//! Evaluation of garbled circuits received from the generator: the errors of
//! the evaluator and the checks it makes of what the generator sent.
use vstd::prelude::*;

use crate::vm::concat_str;

verus! {

/// The kind of an [`EvaluatorError`].
#[derive(Debug, Clone, Copy, PartialEq, Eq, Structural)]
pub enum ErrorKind {
    /// Communication failed.
    Io,
    /// The evaluation itself failed.
    Core,
    /// The generator sent something invalid.
    Generator,
}

/// The message of an [`EvaluatorError`]: `evaluator error: `, the kind,
/// and the cause if there is one.
pub open spec fn evaluator_error_text(kind: ErrorKind, cause: Option<Seq<char>>) -> Seq<char> {
    "evaluator error: "@ + match kind {
        ErrorKind::Io => "io error"@,
        ErrorKind::Core => "core error"@,
        ErrorKind::Generator => "generator error"@,
    } + match cause {
        Some(c) => " caused by: "@ + c,
        None => Seq::empty(),
    }
}

/// Garbled circuit evaluator error: its kind, and a description of its cause.
#[derive(Debug)]
pub struct EvaluatorError {
    pub(crate) kind: ErrorKind,
    pub(crate) source: Option<String>,
}

impl EvaluatorError {
    /// The kind of the error.
    pub open(crate) spec fn error_kind(&self) -> ErrorKind {
        self.kind
    }

    /// The description of the cause, if there is one.
    pub open(crate) spec fn cause(&self) -> Option<Seq<char>> {
        match self.source {
            Some(s) => Some(s@),
            None => None,
        }
    }

    /// Returns the message of the error.
    pub fn message(&self) -> (r: String)
        ensures
            r@ == evaluator_error_text(self.error_kind(), self.cause()),
    {
        let kind = match self.kind {
            ErrorKind::Io => "io error",
            ErrorKind::Core => "core error",
            ErrorKind::Generator => "generator error",
        };
        let head = concat_str("evaluator error: ", kind);
        match &self.source {
            Some(src) => {
                let tail = concat_str(" caused by: ", src.as_str());
                let r = concat_str(head.as_str(), tail.as_str());
                assert(r@ =~= evaluator_error_text(self.error_kind(), self.cause()));
                r
            },
            None => {
                assert(head@ =~= evaluator_error_text(self.error_kind(), self.cause()));
                head
            },
        }
    }

    /// Creates an error caused by the generator.
    pub fn generator(err: String) -> (r: Self)
        ensures
            r.error_kind() == ErrorKind::Generator,
            r.cause() == Some(err@),
    {
        Self { kind: ErrorKind::Generator, source: Some(err) }
    }

    /// Returns the kind of the error.
    pub fn kind(&self) -> (r: ErrorKind)
        ensures
            r == self.error_kind(),
    {
        self.kind
    }
}

/// `format!`: the message for a wrong number of output commitments.
#[verifier::external_body]
fn commitment_count_message(expected: usize, actual: usize) -> String {
    format!(
        "generator sent wrong number of output commitments: expected {}, got {}",
        expected,
        actual
    )
}

/// Checks that the generator sent one output commitment per output bit of
/// the circuit.
pub fn check_commitment_count(output_len: usize, commitments: usize) -> (r: Result<
    (),
    EvaluatorError,
>)
    ensures
        r is Ok <==> commitments == output_len,
        r matches Err(e) ==> e.error_kind() == ErrorKind::Generator,
{
    if commitments != output_len {
        return Err(EvaluatorError::generator(commitment_count_message(output_len, commitments)));
    }
    Ok(())
}

/// The encrypted gates of a circuit, gathered from the batches the generator
/// sends until there is one per AND gate. The last batch may be padded; the
/// padding is cut off.
pub struct GateBatches<T> {
    gate_count: usize,
    gates: Vec<T>,
}

impl<T: Copy> GateBatches<T> {
    /// The number of gates wanted.
    pub closed spec fn wanted(&self) -> nat {
        self.gate_count as nat
    }

    /// The gates received so far, in order.
    pub closed spec fn received(&self) -> Seq<T> {
        self.gates@
    }

    /// Starts gathering the gates of a circuit with `gate_count` AND gates.
    pub fn new(gate_count: usize) -> (r: Self)
        ensures
            r.wanted() == gate_count,
            r.received() == Seq::<T>::empty(),
    {
        GateBatches { gate_count, gates: Vec::new() }
    }

    /// Returns `true` while fewer gates than wanted were received.
    pub fn wants_batch(&self) -> (r: bool)
        ensures
            r == (self.received().len() < self.wanted()),
    {
        self.gates.len() < self.gate_count
    }

    /// Adds a batch of gates.
    pub fn push_batch(&mut self, batch: &[T])
        ensures
            final(self).wanted() == old(self).wanted(),
            final(self).received() == old(self).received() + batch@,
    {
        let mut i: usize = 0;
        let ghost before = self.gates@;
        while i < batch.len()
            invariant
                i <= batch@.len(),
                self.gate_count == old(self).gate_count,
                before == old(self).gates@,
                self.gates@ == before + batch@.take(i as int),
            decreases batch@.len() - i,
        {
            self.gates.push(batch[i]);
            assert(batch@.take(i + 1) =~= batch@.take(i as int).push(batch@[i as int]));
            assert(self.gates@ =~= before + batch@.take(i + 1));
            i = i + 1;
        }
        assert(batch@.take(batch@.len() as int) =~= batch@);
    }

    /// Returns the gates, cut to the number wanted.
    pub fn finish(self) -> (r: Vec<T>)
        ensures
            r@ == if self.received().len() >= self.wanted() {
                self.received().take(self.wanted() as int)
            } else {
                self.received()
            },
    {
        let mut gates = self.gates;
        if gates.len() > self.gate_count {
            gates.truncate(self.gate_count);
        }
        gates
    }
}

} // verus!
