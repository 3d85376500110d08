//! The virtual machine interface: calls of circuits on memory, the errors of
//! a machine, and the traits a machine implements.
use vstd::prelude::*;
use vstd::view::View as _;
use std::sync::Arc;

use crate::circuit::{vec_views, Circuit};
use crate::decode::{DecodeFuture, DecodeFutureTyped};
use crate::memory::{typed_alloc, typed_decode, ClearValue, MemoryType, Repr, Slice};

verus! {

/// Error in creating a [`Call`].
#[derive(Debug, Clone, Copy, PartialEq, Eq, Structural)]
pub enum CallError {
    /// The number of inputs differs from the circuit's.
    InputCount { expected: usize, actual: usize },
    /// An input's length differs from the circuit's.
    InputLength { idx: usize, expected: usize, actual: usize },
}

/// The inputs fit the circuit: as many as it has, each as long as its input.
pub open spec fn inputs_fit(lens: Seq<usize>, inputs: Seq<Slice>) -> bool {
    &&& lens.len() == inputs.len()
    &&& forall|i: int| 0 <= i < lens.len() ==> #[trigger] lens[i] == inputs[i].size()
}

/// A call of a circuit on slices of memory.
#[derive(Debug, Clone)]
pub struct Call {
    pub(crate) circ: Arc<Circuit>,
    pub(crate) inputs: Vec<Slice>,
}

impl Call {
    /// The circuit called.
    pub open(crate) spec fn circuit(&self) -> Circuit {
        *self.circ
    }

    /// The input slices.
    pub open(crate) spec fn input_slices(&self) -> Seq<Slice> {
        self.inputs@
    }

    /// Creates a new call, checking that the inputs fit the circuit.
    pub fn new(circ: Arc<Circuit>, inputs: Vec<Slice>) -> (r: Result<Self, CallError>)
        ensures
            r is Ok <==> inputs_fit(circ.input_lens(), inputs@),
            r matches Ok(call) ==> call.circuit() == *circ && call.input_slices() == inputs@,
            circ.input_lens().len() != inputs.len() ==> r == Err::<Call, CallError>(
                CallError::InputCount {
                    expected: circ.input_lens().len() as usize,
                    actual: inputs.len(),
                },
            ),
            circ.input_lens().len() == inputs.len() ==> (r is Err ==> r matches Err(
                CallError::InputLength { .. },
            )),
            r matches Err(CallError::InputLength { idx, expected, actual }) ==> {
                &&& idx < inputs.len()
                &&& expected == circ.input_lens()[idx as int]
                &&& actual == inputs@[idx as int].size()
                &&& expected != actual
                &&& forall|j: int|
                    0 <= j < idx ==> #[trigger] circ.input_lens()[j] == inputs@[j].size()
            },
    {
        let groups = circ.inputs();
        if groups.len() != inputs.len() {
            return Err(CallError::InputCount { expected: groups.len(), actual: inputs.len() });
        }
        let mut idx: usize = 0;
        while idx < groups.len()
            invariant
                idx <= groups.len(),
                groups.len() == inputs.len(),
                vec_views(groups@) == circ.input_nodes(),
                forall|j: int| 0 <= j < idx ==> #[trigger] circ.input_lens()[j] == inputs@[j].size(),
            decreases groups.len() - idx,
        {
            let expected = groups[idx].len();
            proof {
                assert(circ.input_lens()[idx as int] == vec_views(groups@)[idx as int].len());
            }
            let actual = inputs[idx].len();
            if expected != actual {
                return Err(CallError::InputLength { idx, expected, actual });
            }
            idx = idx + 1;
        }
        Ok(Self { circ, inputs })
    }

    /// Returns the circuit.
    pub fn circ(&self) -> (r: &Circuit)
        ensures
            *r == self.circuit(),
    {
        &self.circ
    }

    /// Returns the inputs.
    pub fn inputs(&self) -> (r: &[Slice])
        ensures
            r@ == self.input_slices(),
    {
        self.inputs.as_slice()
    }

    /// Consumes the call and returns the circuit and inputs.
    pub fn into_parts(self) -> (r: (Arc<Circuit>, Vec<Slice>))
        ensures
            *r.0 == self.circuit(),
            r.1@ == self.input_slices(),
    {
        (self.circ, self.inputs)
    }
}

/// The kind of a [`VmError`].
#[derive(Debug, Clone, Copy, PartialEq, Eq, Structural)]
pub enum ErrorKind {
    /// Communication failed.
    Io,
    /// The memory refused an operation.
    Memory,
}

/// `format!("{}{}", a, b)`: the text of `a` followed by the text of `b`.
#[verifier::external_body]
pub(crate) fn concat_str(a: &str, b: &str) -> (r: String)
    ensures
        r@ == a@ + b@,
{
    format!("{}{}", a, b)
}

/// The message of a [`VmError`]: `vm error: `, the kind, and the cause if
/// there is one.
pub open spec fn vm_error_text(kind: ErrorKind, cause: Option<Seq<char>>) -> Seq<char> {
    "vm error: "@ + match kind {
        ErrorKind::Io => "io error"@,
        ErrorKind::Memory => "memory error"@,
    } + match cause {
        Some(c) => " caused by: "@ + c,
        None => Seq::empty(),
    }
}

/// Error of a virtual machine: its kind, and a description of its cause.
#[derive(Debug)]
pub struct VmError {
    pub(crate) kind: ErrorKind,
    pub(crate) source: Option<String>,
}

impl VmError {
    /// The kind of the error.
    pub open(crate) spec fn error_kind(&self) -> ErrorKind {
        self.kind
    }

    /// The description of the cause, if there is one.
    pub open(crate) spec fn cause(&self) -> Option<Seq<char>> {
        match self.source {
            Some(s) => Some(s@),
            None => None,
        }
    }

    /// Returns the message of the error.
    pub fn message(&self) -> (r: String)
        ensures
            r@ == vm_error_text(self.error_kind(), self.cause()),
    {
        let kind = match self.kind {
            ErrorKind::Io => "io error",
            ErrorKind::Memory => "memory error",
        };
        let head = concat_str("vm error: ", kind);
        match &self.source {
            Some(src) => {
                let tail = concat_str(" caused by: ", src.as_str());
                let r = concat_str(head.as_str(), tail.as_str());
                assert(r@ =~= vm_error_text(self.error_kind(), self.cause()));
                r
            },
            None => {
                assert(head@ =~= vm_error_text(self.error_kind(), self.cause()));
                head
            },
        }
    }

    /// Creates a memory error caused by `err`.
    pub fn memory(err: String) -> (r: Self)
        ensures
            r.error_kind() == ErrorKind::Memory,
            r.cause() == Some(err@),
    {
        Self { kind: ErrorKind::Memory, source: Some(err) }
    }

    /// Creates a communication error caused by `err`.
    pub fn io(err: String) -> (r: Self)
        ensures
            r.error_kind() == ErrorKind::Io,
            r.cause() == Some(err@),
    {
        Self { kind: ErrorKind::Io, source: Some(err) }
    }

    /// Returns the kind of the error.
    pub fn kind(&self) -> (r: ErrorKind)
        ensures
            r == self.error_kind(),
    {
        self.kind
    }
}

/// A machine with memory of some type.
pub trait Memory {
    /// The type of the memory.
    type MemoryType: MemoryType;
}

/// Allocation of memory.
pub trait Alloc: Memory {
    /// What allocating `size` cells does: from `old` to `new`, with result `r`.
    spec fn alloc_post(old: &Self, new: &Self, size: usize, r: Result<Slice, VmError>) -> bool;

    /// Allocates a new slice of memory.
    fn alloc_raw(&mut self, size: usize) -> (r: Result<Slice, VmError>)
        ensures
            Self::alloc_post(&*old(self), &*final(self), size, r),
    ;
}

/// Typed allocation.
pub trait AllocExt: Alloc {
    /// Allocates a new value.
    fn alloc_value<T: Repr<Self::MemoryType>>(&mut self) -> (r: Result<T, VmError>)
        ensures
            exists|s: Result<Slice, VmError>|
                #[trigger] Self::alloc_post(&*old(self), &*final(self), T::SIZE, s) && r == typed_alloc::<T, VmError>(s),
    {
        match self.alloc_raw(T::SIZE) {
            Ok(slice) => Ok(T::from_raw(slice)),
            Err(e) => Err(e),
        }
    }
}

impl<T: Alloc> AllocExt for T {

}

/// Configures the view of the memory.
pub trait View: Memory {
    /// What setting `slice` as public does.
    spec fn configure_public_post(old: &Self, new: &Self, slice: Slice, r: Result<(), VmError>) -> bool;

    /// What setting `slice` as private does.
    spec fn configure_private_post(old: &Self, new: &Self, slice: Slice, r: Result<(), VmError>) -> bool;

    /// What setting `slice` as blind does.
    spec fn configure_blind_post(old: &Self, new: &Self, slice: Slice, r: Result<(), VmError>) -> bool;

    /// Sets the slice of memory as public.
    fn configure_public_raw(&mut self, slice: Slice) -> (r: Result<(), VmError>)
        ensures
            Self::configure_public_post(&*old(self), &*final(self), slice, r),
    ;

    /// Sets the slice of memory as private.
    fn configure_private_raw(&mut self, slice: Slice) -> (r: Result<(), VmError>)
        ensures
            Self::configure_private_post(&*old(self), &*final(self), slice, r),
    ;

    /// Sets the slice of memory as blind.
    fn configure_blind_raw(&mut self, slice: Slice) -> (r: Result<(), VmError>)
        ensures
            Self::configure_blind_post(&*old(self), &*final(self), slice, r),
    ;
}

/// Typed view configuration.
pub trait ViewExt: View {
    /// Sets the value as public.
    fn configure_public<T: Repr<Self::MemoryType>>(&mut self, value: T) -> (r: Result<(), VmError>)
        ensures
            Self::configure_public_post(&*old(self), &*final(self), value.raw(), r),
    {
        self.configure_public_raw(value.to_raw())
    }

    /// Sets the value as private.
    fn configure_private<T: Repr<Self::MemoryType>>(&mut self, value: T) -> (r: Result<(), VmError>)
        ensures
            Self::configure_private_post(&*old(self), &*final(self), value.raw(), r),
    {
        self.configure_private_raw(value.to_raw())
    }

    /// Sets the value as blind.
    fn configure_blind<T: Repr<Self::MemoryType>>(&mut self, value: T) -> (r: Result<(), VmError>)
        ensures
            Self::configure_blind_post(&*old(self), &*final(self), value.raw(), r),
    {
        self.configure_blind_raw(value.to_raw())
    }
}

impl<T: View> ViewExt for T {

}

/// Assignment of values to memory.
pub trait Assign: Memory {
    /// What assigning `value` to the slice `raw` does.
    spec fn assign_post(
        old: &Self,
        new: &Self,
        raw: Slice,
        value: <Self::MemoryType as MemoryType>::Raw,
        r: Result<(), VmError>,
    ) -> bool;

    /// Assigns a raw value to the slice.
    fn assign_raw(
        &mut self,
        raw: Slice,
        value: <Self::MemoryType as MemoryType>::Raw,
    ) -> (r: Result<(), VmError>)
        ensures
            Self::assign_post(&*old(self), &*final(self), raw, value, r),
    ;
}

/// Typed assignment.
pub trait AssignExt: Assign {
    /// Assigns the clear value to the value in memory.
    fn assign<T: Repr<Self::MemoryType>>(&mut self, value: T, clear: T::Clear) -> (r: Result<
        (),
        VmError,
    >)
        ensures
            exists|raw: <Self::MemoryType as MemoryType>::Raw|
                #[trigger] Self::assign_post(&*old(self), &*final(self), value.raw(), raw, r)
                    && clear.is_clear_of(raw) && <T::Clear as ClearValue<Self::MemoryType>>::fits_raw(raw),
    {
        self.assign_raw(value.to_raw(), clear.into_clear())
    }
}

impl<T: Assign> AssignExt for T {

}

/// Commit memory.
pub trait Commit: Memory {
    /// What committing `slice` does.
    spec fn commit_post(old: &Self, new: &Self, slice: Slice, r: Result<(), VmError>) -> bool;

    /// Commits the slice of memory.
    fn commit_raw(&mut self, slice: Slice) -> (r: Result<(), VmError>)
        ensures
            Self::commit_post(&*old(self), &*final(self), slice, r),
    ;
}

/// Typed commitment.
pub trait CommitExt: Commit {
    /// Commits the value.
    fn commit<T: Repr<Self::MemoryType>>(&mut self, value: T) -> (r: Result<(), VmError>)
        ensures
            Self::commit_post(&*old(self), &*final(self), value.raw(), r),
    {
        self.commit_raw(value.to_raw())
    }
}

impl<T: Commit> CommitExt for T {

}

/// Calls of circuits.
pub trait Callable {
    /// Calls a circuit with the provided inputs, returning the output.
    fn call(&mut self, call: Call) -> Result<Slice, VmError>;
}

/// Decoding of memory.
pub trait Decode: Memory {
    /// What decoding the slice `raw` does.
    spec fn decode_post(
        old: &Self,
        new: &Self,
        raw: Slice,
        r: Result<DecodeFuture<<Self::MemoryType as MemoryType>::Raw>, VmError>,
    ) -> bool;

    /// Decodes a value from memory.
    ///
    /// Returns a future which will resolve to the value when it is ready.
    fn decode_raw(&mut self, raw: Slice) -> (r: Result<
        DecodeFuture<<Self::MemoryType as MemoryType>::Raw>,
        VmError,
    >)
        ensures
            Self::decode_post(&*old(self), &*final(self), raw, r),
    ;
}

/// Typed decoding.
pub trait DecodeExt: Decode {
    /// Decodes the value in `raw` as a `T`.
    fn decode<T: Repr<Self::MemoryType>>(&mut self, raw: Slice) -> (r: Result<
        DecodeFutureTyped<Self::MemoryType, T::Clear>,
        VmError,
    >)
        ensures
            exists|s: Result<DecodeFuture<<Self::MemoryType as MemoryType>::Raw>, VmError>|
                #[trigger] Self::decode_post(&*old(self), &*final(self), raw, s)
                    && typed_decode::<Self::MemoryType, T::Clear, VmError>(s, r),
    {
        match self.decode_raw(raw) {
            Ok(fut) => Ok(DecodeFutureTyped::new(fut)),
            Err(e) => Err(e),
        }
    }
}

impl<T: Decode> DecodeExt for T {

}

} // verus!
