//! Chou-Orlandi base oblivious transfer: the parties' configuration and
//! state before setup.
use vstd::prelude::*;

verus! {

/// Chou-Orlandi sender configuration.
#[derive(Debug, Clone)]
pub struct SenderConfig {}

impl Default for SenderConfig {
    fn default() -> (r: Self)
        ensures
            r == (SenderConfig {}),
    {
        SenderConfig {}
    }
}

/// Chou-Orlandi receiver configuration.
#[derive(Debug, Clone)]
pub struct ReceiverConfig {}

impl Default for ReceiverConfig {
    fn default() -> (r: Self)
        ensures
            r == (ReceiverConfig {}),
    {
        ReceiverConfig {}
    }
}

/// The state of a Chou-Orlandi receiver.
pub enum ReceiverState {
    /// Configured, setup not done; the RNG seed, when one was provided.
    Initialized { config: ReceiverConfig, seed: Option<[u8; 32]> },
    /// A protocol step failed.
    Error,
}

/// Chou-Orlandi receiver.
pub struct Receiver {
    pub(crate) state: ReceiverState,
}

impl Receiver {
    /// The receiver's state.
    pub open(crate) spec fn current_state(&self) -> ReceiverState {
        self.state
    }

    /// Creates a new receiver.
    ///
    /// # Arguments
    ///
    /// * `config` - The receiver's configuration
    pub fn new(config: ReceiverConfig) -> (r: Self)
        ensures
            r.current_state() == (ReceiverState::Initialized { config, seed: None }),
    {
        Self { state: ReceiverState::Initialized { config, seed: None } }
    }

    /// Creates a new receiver with the provided RNG seed.
    ///
    /// # Arguments
    ///
    /// * `config` - The receiver's configuration
    /// * `seed` - The RNG seed used to generate the receiver's keys.
    pub fn new_with_seed(config: ReceiverConfig, seed: [u8; 32]) -> (r: Self)
        ensures
            r.current_state() == (ReceiverState::Initialized { config, seed: Some(seed) }),
    {
        Self { state: ReceiverState::Initialized { config, seed: Some(seed) } }
    }
}

impl Default for Receiver {
    fn default() -> (r: Self)
        ensures
            r.current_state() == (ReceiverState::Initialized {
                config: ReceiverConfig {},
                seed: None,
            }),
    {
        Self { state: ReceiverState::Initialized { config: ReceiverConfig::default(), seed: None } }
    }
}

/// The state of a Chou-Orlandi sender.
pub enum SenderState {
    /// Configured, setup not done; the RNG seed, when one was provided.
    Initialized { config: SenderConfig, seed: Option<[u8; 32]> },
    /// A protocol step failed.
    Error,
}

/// Chou-Orlandi sender.
pub struct Sender {
    pub(crate) state: SenderState,
}

impl Sender {
    /// The sender's state.
    pub open(crate) spec fn current_state(&self) -> SenderState {
        self.state
    }

    /// Creates a new Sender
    ///
    /// # Arguments
    ///
    /// * `config` - The sender's configuration
    pub fn new(config: SenderConfig) -> (r: Self)
        ensures
            r.current_state() == (SenderState::Initialized { config, seed: None }),
    {
        Self { state: SenderState::Initialized { config, seed: None } }
    }

    /// Creates a new Sender with the provided RNG seed
    ///
    /// # Arguments
    ///
    /// * `config` - The sender's configuration
    /// * `seed` - The RNG seed used to generate the sender's keys
    pub fn new_with_seed(config: SenderConfig, seed: [u8; 32]) -> (r: Self)
        ensures
            r.current_state() == (SenderState::Initialized { config, seed: Some(seed) }),
    {
        Self { state: SenderState::Initialized { config, seed: Some(seed) } }
    }
}

impl Default for Sender {
    fn default() -> (r: Self)
        ensures
            r.current_state() == (SenderState::Initialized { config: SenderConfig {}, seed: None }),
    {
        Self { state: SenderState::Initialized { config: SenderConfig::default(), seed: None } }
    }
}

} // verus!
