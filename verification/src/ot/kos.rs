//! KOS15 oblivious transfer extension: configuration and the sender's state.
use vstd::prelude::*;

use crate::correlated::Block;
use crate::ot::TransferId;

verus! {

/// KOS15 sender configuration.
#[derive(Debug, Clone)]
pub struct SenderConfig {}

impl SenderConfig {
    /// Creates a new builder for SenderConfig.
    pub fn builder() -> (r: SenderConfigBuilder)
        ensures
            r == (SenderConfigBuilder {}),
    {
        SenderConfigBuilder {}
    }
}

impl Default for SenderConfig {
    fn default() -> (r: Self)
        ensures
            r == (SenderConfig {}),
    {
        SenderConfig {}
    }
}

/// Builder for [`SenderConfig`].
#[derive(Debug, Clone)]
pub struct SenderConfigBuilder {}

impl SenderConfigBuilder {
    /// Builds the configuration. A sender configuration has no field that
    /// must be set, so building always succeeds.
    pub fn build(&self) -> (r: Result<SenderConfig, ConfigBuilderError>)
        ensures
            r == Ok::<SenderConfig, ConfigBuilderError>(SenderConfig {}),
    {
        Ok(SenderConfig {})
    }
}

/// KOS15 receiver configuration.
#[derive(Debug, Clone)]
pub struct ReceiverConfig {}

impl ReceiverConfig {
    /// Creates a new builder for ReceiverConfig.
    pub fn builder() -> (r: ReceiverConfigBuilder)
        ensures
            r == (ReceiverConfigBuilder {}),
    {
        ReceiverConfigBuilder {}
    }
}

impl Default for ReceiverConfig {
    fn default() -> (r: Self)
        ensures
            r == (ReceiverConfig {}),
    {
        ReceiverConfig {}
    }
}

/// Builder for [`ReceiverConfig`].
#[derive(Debug, Clone)]
pub struct ReceiverConfigBuilder {}

impl ReceiverConfigBuilder {
    /// Builds the configuration. A receiver configuration has no field that
    /// must be set, so building always succeeds.
    pub fn build(&self) -> (r: Result<ReceiverConfig, ConfigBuilderError>)
        ensures
            r == Ok::<ReceiverConfig, ConfigBuilderError>(ReceiverConfig {}),
    {
        Ok(ReceiverConfig {})
    }
}

/// Error of a configuration builder: a required field was not set.
#[derive(Debug, Clone, Copy)]
pub enum ConfigBuilderError {
    /// The field with this name was not set.
    UninitializedField(&'static str),
}

/// The random OT key pairs an extended sender holds, with the id of its next
/// transfer.
pub struct ExtensionKeys {
    pub(crate) transfer_id: TransferId,
    pub(crate) keys: Vec<[Block; 2]>,
}

/// Random OT keys taken from an extended sender for one transfer.
pub struct SenderKeys {
    /// Transfer id.
    pub id: TransferId,
    /// The key pairs.
    pub keys: Vec<[Block; 2]>,
}

/// The state of a KOS sender.
pub enum SenderState {
    /// Configured, base OT setup not done.
    Initialized(SenderConfig),
    /// Set up, holding extended OT keys.
    Extension(ExtensionKeys),
    /// A protocol step failed.
    Error,
}

/// Error of a KOS sender.
#[derive(Debug, Clone, Copy, PartialEq, Eq, Structural)]
pub enum SenderError {
    /// The sender is not in the state the operation needs.
    State,
    /// Fewer keys are left than were asked for.
    InsufficientSetup { expected: usize, actual: usize },
}

/// KOS sender.
pub struct Sender<BaseOT> {
    pub(crate) state: SenderState,
    pub(crate) base: BaseOT,
    pub(crate) alloc: usize,
}

impl<BaseOT> Sender<BaseOT> {
    /// Whether the sender is set up and holds extended keys.
    pub open(crate) spec fn is_extended(&self) -> bool {
        self.state is Extension
    }

    /// The extended keys the sender holds.
    pub open(crate) spec fn key_pairs(&self) -> Seq<[Block; 2]> {
        match self.state {
            SenderState::Extension(ext) => ext.keys@,
            _ => Seq::empty(),
        }
    }

    /// The id of the sender's next transfer, when it is extended.
    pub open(crate) spec fn next_id(&self) -> nat {
        match self.state {
            SenderState::Extension(ext) => ext.transfer_id.value(),
            _ => 0,
        }
    }

    /// The sender's state.
    pub open(crate) spec fn current_state(&self) -> SenderState {
        self.state
    }

    /// The base OT.
    pub open(crate) spec fn base_ot(&self) -> BaseOT {
        self.base
    }

    /// The number of OTs allocated for the next extension.
    pub open(crate) spec fn allocated(&self) -> nat {
        self.alloc as nat
    }

    /// Creates a new Sender
    ///
    /// # Arguments
    ///
    /// * `config` - The Sender's configuration
    /// * `base` - The base OT
    pub fn new(config: SenderConfig, base: BaseOT) -> (r: Self)
        ensures
            r.current_state() == SenderState::Initialized(config),
            r.base_ot() == base,
            r.allocated() == 0,
    {
        Self { state: SenderState::Initialized(config), base, alloc: 0 }
    }

    /// The number of remaining OTs which can be consumed.
    pub fn remaining(&self) -> (r: Result<usize, SenderError>)
        ensures
            r is Ok <==> self.is_extended(),
            r matches Ok(n) ==> n == self.key_pairs().len(),
            r matches Err(e) ==> e == SenderError::State,
    {
        match &self.state {
            SenderState::Extension(ext) => Ok(ext.keys.len()),
            _ => Err(SenderError::State),
        }
    }

    /// Returns the provided number of keys: the first `count` key pairs left,
    /// under the next transfer id.
    pub fn take_keys(&mut self, count: usize) -> (r: Result<SenderKeys, SenderError>)
        requires
            old(self).is_extended() ==> old(self).next_id() < u64::MAX,
        ensures
            !old(self).is_extended() ==> r == Err::<SenderKeys, SenderError>(SenderError::State)
                && *final(self) == *old(self),
            old(self).is_extended() && count > old(self).key_pairs().len() ==> r == Err::<
                SenderKeys,
                SenderError,
            >(
                SenderError::InsufficientSetup {
                    expected: count,
                    actual: old(self).key_pairs().len() as usize,
                },
            ) && *final(self) == *old(self),
            r is Ok <==> old(self).is_extended() && count <= old(self).key_pairs().len(),
            r matches Ok(k) ==> k.id.value() == old(self).next_id() && k.keys@ == old(self).key_pairs().take(count as int),
            r is Ok ==> final(self).is_extended() && final(self).key_pairs() == old(self).key_pairs().skip(count as int) && final(self).next_id() == old(self).next_id() + 1,
            final(self).allocated() == old(self).allocated(),
            final(self).base_ot() == old(self).base_ot(),
    {
        match &mut self.state {
            SenderState::Extension(ext) => {
                if count > ext.keys.len() {
                    return Err(
                        SenderError::InsufficientSetup { expected: count, actual: ext.keys.len() },
                    );
                }
                let mut taken: Vec<[Block; 2]> = Vec::new();
                let mut rest: Vec<[Block; 2]> = Vec::new();
                let mut i: usize = 0;
                while i < ext.keys.len()
                    invariant
                        i <= ext.keys.len(),
                        count <= ext.keys.len(),
                        taken@ == ext.keys@.take(if i < count { i as int } else { count as int }),
                        rest@ == if i < count {
                            Seq::<[Block; 2]>::empty()
                        } else {
                            ext.keys@.subrange(count as int, i as int)
                        },
                    decreases ext.keys.len() - i,
                {
                    if i < count {
                        taken.push(ext.keys[i]);
                        assert(taken@ =~= ext.keys@.take(i + 1));
                    } else {
                        rest.push(ext.keys[i]);
                        assert(rest@ =~= ext.keys@.subrange(count as int, i + 1));
                    }
                    i = i + 1;
                }
                proof {
                    if count == ext.keys.len() {
                        assert(rest@ =~= ext.keys@.skip(count as int));
                    } else {
                        assert(rest@ =~= ext.keys@.skip(count as int));
                    }
                }
                let id = ext.transfer_id.next();
                ext.keys = rest;
                Ok(SenderKeys { id, keys: taken })
            },
            _ => Err(SenderError::State),
        }
    }

    /// Allocates `count` OTs for the next extension.
    pub fn allocate(&mut self, count: usize)
        requires
            old(self).allocated() + count <= usize::MAX,
        ensures
            final(self).allocated() == old(self).allocated() + count,
            final(self).current_state() == old(self).current_state(),
            final(self).base_ot() == old(self).base_ot(),
    {
        self.alloc = self.alloc + count;
    }

    /// Takes the number of OTs allocated for the next extension, leaving none
    /// allocated.
    pub fn take_allocation(&mut self) -> (r: usize)
        ensures
            r == old(self).allocated(),
            final(self).allocated() == 0,
            final(self).current_state() == old(self).current_state(),
            final(self).base_ot() == old(self).base_ot(),
    {
        let count = self.alloc;
        self.alloc = 0;
        count
    }
}

} // verus!
