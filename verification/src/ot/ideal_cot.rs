//! Ideal correlated oblivious transfer functionality.
//!
//! The functionality deals random keys to the sender and random choice bits
//! to the receiver, together with the messages that the choices select: the
//! key itself for a `0` choice, the key XOR the correlation `delta` for a `1`
//! choice.
use vstd::prelude::*;
use rand_chacha::ChaCha8Rng;

use crate::correlated::{auth_value, Block};
use crate::ot::rcot::{RCOTReceiverOutput, RCOTSenderOutput};
use crate::ot::{COTReceiverOutput, COTSenderOutput, TransferId};
use crate::rng::{rng_from_seed, rng_next_bool, rng_next_u128, rng_seed_from_u64};

verus! {

/// The values of a sequence of blocks.
pub open spec fn block_values(blocks: Seq<Block>) -> Seq<u128> {
    blocks.map_values(|b: Block| b.value())
}

/// The ideal COT functionality.
pub struct IdealCOT {
    delta: Block,
    sender_transfer_id: TransferId,
    receiver_transfer_id: TransferId,
    count_sender: usize,
    count_receiver: usize,
    prg: ChaCha8Rng,
    keys: Vec<Block>,
    msgs: Vec<Block>,
    choices: Vec<bool>,
    /// The correlation each preprocessed COT was made with.
    deltas: Ghost<Seq<u128>>,
}

impl IdealCOT {
    /// The correlation.
    pub closed spec fn delta_value(&self) -> u128 {
        self.delta.value()
    }

    /// The id of the sender's next transfer.
    pub closed spec fn sender_id(&self) -> nat {
        self.sender_transfer_id.value()
    }

    /// The id of the receiver's next transfer.
    pub closed spec fn receiver_id(&self) -> nat {
        self.receiver_transfer_id.value()
    }

    /// The number of COTs handed to the sender.
    pub closed spec fn sent(&self) -> nat {
        self.count_sender as nat
    }

    /// The number of COTs handed to the receiver.
    pub closed spec fn received(&self) -> nat {
        self.count_receiver as nat
    }

    /// The keys of the preprocessed COTs.
    pub closed spec fn key_values(&self) -> Seq<u128> {
        block_values(self.keys@)
    }

    /// The messages of the preprocessed COTs.
    pub closed spec fn msg_values(&self) -> Seq<u128> {
        block_values(self.msgs@)
    }

    /// The choices of the preprocessed COTs.
    pub closed spec fn choice_bits(&self) -> Seq<bool> {
        self.choices@
    }

    /// The correlation each preprocessed COT was made with.
    pub closed spec fn made_with(&self) -> Seq<u128> {
        self.deltas@
    }

    /// The number of preprocessed COTs.
    pub open spec fn preprocessed(&self) -> nat {
        self.key_values().len()
    }

    /// Every preprocessed COT was made with the correlation `delta`.
    pub open spec fn made_with_delta(&self, delta: u128) -> bool {
        forall|i: int| 0 <= i < self.made_with().len() ==> #[trigger] self.made_with()[i] == delta
    }

    /// Each message is its key, XORed with the correlation it was made with
    /// when its choice is set; no more COTs were handed out than preprocessed.
    pub closed spec fn wf(&self) -> bool {
        &&& self.keys.len() == self.msgs.len()
        &&& self.keys.len() == self.choices.len()
        &&& self.keys.len() == self.deltas@.len()
        &&& self.count_sender <= self.keys.len()
        &&& self.count_receiver <= self.keys.len()
        &&& forall|i: int|
            0 <= i < self.keys.len() ==> (#[trigger] self.msgs@[i]).value() == auth_value(
                self.keys@[i].value(),
                self.choices@[i],
                self.deltas@[i],
            )
    }

    /// The stored COTs satisfy the correlation they were made with.
    pub proof fn lemma_wf(&self)
        requires
            self.wf(),
        ensures
            self.msg_values().len() == self.preprocessed(),
            self.choice_bits().len() == self.preprocessed(),
            self.made_with().len() == self.preprocessed(),
            self.sent() <= self.preprocessed(),
            self.received() <= self.preprocessed(),
            forall|i: int|
                0 <= i < self.preprocessed() ==> #[trigger] self.msg_values()[i] == auth_value(
                    self.key_values()[i],
                    self.choice_bits()[i],
                    self.made_with()[i],
                ),
    {
    }

    /// Creates a new ideal OT functionality.
    ///
    /// # Arguments
    ///
    /// * `seed` - The seed for the PRG.
    /// * `delta` - The correlation.
    pub fn new(seed: Block, delta: Block) -> (r: Self)
        ensures
            r.wf(),
            r.delta_value() == delta.value(),
            r.sender_id() == 0,
            r.receiver_id() == 0,
            r.sent() == 0,
            r.received() == 0,
            r.preprocessed() == 0,
    {
        IdealCOT {
            delta,
            sender_transfer_id: TransferId::default(),
            receiver_transfer_id: TransferId::default(),
            count_sender: 0,
            count_receiver: 0,
            prg: rng_from_seed(seed.to_array()),
            keys: Vec::new(),
            msgs: Vec::new(),
            choices: Vec::new(),
            deltas: Ghost(Seq::empty()),
        }
    }

    /// Returns the correlation, delta.
    pub fn delta(&self) -> (r: Block)
        ensures
            r.value() == self.delta_value(),
    {
        self.delta
    }

    /// Sets the correlation, delta. COTs preprocessed before keep the
    /// correlation they were made with.
    pub fn set_delta(&mut self, delta: Block)
        requires
            old(self).wf(),
        ensures
            final(self).wf(),
            final(self).delta_value() == delta.value(),
            final(self).key_values() == old(self).key_values(),
            final(self).msg_values() == old(self).msg_values(),
            final(self).choice_bits() == old(self).choice_bits(),
            final(self).made_with() == old(self).made_with(),
            final(self).sender_id() == old(self).sender_id(),
            final(self).receiver_id() == old(self).receiver_id(),
            final(self).sent() == old(self).sent(),
            final(self).received() == old(self).received(),
    {
        self.delta = delta;
    }

    /// Preprocesses `count` random COTs.
    fn preprocess(&mut self, count: usize)
        requires
            old(self).wf(),
            old(self).keys.len() + count <= usize::MAX,
        ensures
            final(self).wf(),
            final(self).keys.len() == old(self).keys.len() + count,
            final(self).keys@.take(old(self).keys.len() as int) == old(self).keys@,
            final(self).msgs@.take(old(self).keys.len() as int) == old(self).msgs@,
            final(self).choices@.take(old(self).keys.len() as int) == old(self).choices@,
            final(self).deltas@ == old(self).deltas@ + Seq::new(count as nat, |i: int| old(self).delta.value()),
            final(self).delta == old(self).delta,
            final(self).sender_transfer_id == old(self).sender_transfer_id,
            final(self).receiver_transfer_id == old(self).receiver_transfer_id,
            final(self).count_sender == old(self).count_sender,
            final(self).count_receiver == old(self).count_receiver,
    {
        let start = self.keys.len();
        let ghost old_keys = self.keys@;
        let mut i: usize = 0;
        while i < count
            invariant
                i <= count,
                start + count <= usize::MAX,
                self.keys.len() == start + i,
                self.keys@.take(start as int) == old_keys,
                self.choices == old(self).choices,
                self.msgs == old(self).msgs,
                self.delta == old(self).delta,
                self.sender_transfer_id == old(self).sender_transfer_id,
                self.receiver_transfer_id == old(self).receiver_transfer_id,
                self.count_sender == old(self).count_sender,
                self.count_receiver == old(self).count_receiver,
                self.deltas == old(self).deltas,
            decreases count - i,
        {
            let key = Block::new(rng_next_u128(&mut self.prg));
            self.keys.push(key);
            assert(self.keys@.take(start as int) =~= old_keys);
            i = i + 1;
        }
        let ghost old_choices = self.choices@;
        let mut j: usize = 0;
        while j < count
            invariant
                j <= count,
                start + count <= usize::MAX,
                self.choices.len() == start + j,
                self.choices@.take(start as int) == old_choices,
                self.keys.len() == start + count,
                self.keys@.take(start as int) == old_keys,
                self.msgs == old(self).msgs,
                self.delta == old(self).delta,
                self.sender_transfer_id == old(self).sender_transfer_id,
                self.receiver_transfer_id == old(self).receiver_transfer_id,
                self.count_sender == old(self).count_sender,
                self.count_receiver == old(self).count_receiver,
                self.deltas == old(self).deltas,
            decreases count - j,
        {
            let choice = rng_next_bool(&mut self.prg);
            self.choices.push(choice);
            assert(self.choices@.take(start as int) =~= old_choices);
            j = j + 1;
        }
        let ghost old_msgs = self.msgs@;
        let mut k: usize = start;
        while k < start + count
            invariant
                start <= k <= start + count,
                start + count <= usize::MAX,
                self.keys.len() == start + count,
                self.choices.len() == start + count,
                self.msgs.len() == k,
                self.msgs@.take(start as int) == old_msgs,
                self.keys@.take(start as int) == old_keys,
                self.choices@.take(start as int) == old_choices,
                self.delta == old(self).delta,
                self.sender_transfer_id == old(self).sender_transfer_id,
                self.receiver_transfer_id == old(self).receiver_transfer_id,
                self.count_sender == old(self).count_sender,
                self.count_receiver == old(self).count_receiver,
                self.deltas == old(self).deltas,
                forall|m: int|
                    start <= m < k ==> (#[trigger] self.msgs@[m]).value() == auth_value(
                        self.keys@[m].value(),
                        self.choices@[m],
                        self.delta.value(),
                    ),
            decreases start + count - k,
        {
            let key = self.keys[k];
            let msg = if self.choices[k] { key.xor(&self.delta) } else { key };
            self.msgs.push(msg);
            assert(self.msgs@.take(start as int) =~= old_msgs);
            k = k + 1;
        }
        let ghost new_deltas = self.deltas@ + Seq::new(count as nat, |i: int| self.delta.value());
        proof {
            assert forall|m: int| 0 <= m < self.keys.len() implies (#[trigger] self.msgs@[m]).value()
                == auth_value(self.keys@[m].value(), self.choices@[m], new_deltas[m]) by {
                if m < start {
                    assert(self.msgs@[m] == old_msgs[m]);
                    assert(self.keys@[m] == old_keys[m]);
                    assert(self.choices@[m] == old_choices[m]);
                }
            }
        }
        self.deltas = Ghost(new_deltas);
    }

    /// Returns the number of preprocessed COTs available for the sender.
    fn available_sender(&self) -> (r: usize)
        requires
            self.wf(),
        ensures
            r == self.keys.len() - self.count_sender,
    {
        self.keys.len() - self.count_sender
    }

    /// Returns the number of preprocessed COTs available for the receiver.
    fn available_receiver(&self) -> (r: usize)
        requires
            self.wf(),
        ensures
            r == self.choices.len() - self.count_receiver,
    {
        self.choices.len() - self.count_receiver
    }

    /// Sends preprocessed random correlated oblivious transfers, preprocessing
    /// more when fewer than `count` are left.
    pub fn send_random_correlated(&mut self, count: usize) -> (r: RCOTSenderOutput<Block>)
        requires
            old(self).wf(),
            old(self).sent() + count <= usize::MAX,
            old(self).sender_id() < u64::MAX,
        ensures
            final(self).wf(),
            r.id.value() == old(self).sender_id(),
            final(self).sender_id() == old(self).sender_id() + 1,
            final(self).sent() == old(self).sent() + count,
            r.keys.len() == count,
            block_values(r.keys@) == final(self).key_values().subrange(
                old(self).sent() as int,
                old(self).sent() + count,
            ),
            final(self).preprocessed() == if old(self).sent() + count > old(self).preprocessed() {
                old(self).sent() + count
            } else {
                old(self).preprocessed() as int
            },
            final(self).key_values().take(old(self).preprocessed() as int) == old(self).key_values(),
            final(self).msg_values().take(old(self).preprocessed() as int) == old(self).msg_values(),
            final(self).choice_bits().take(old(self).preprocessed() as int) == old(self).choice_bits(),
            forall|i: int|
                old(self).preprocessed() <= i < final(self).preprocessed() ==> #[trigger] final(self).made_with()[i] == old(self).delta_value(),
            final(self).made_with().take(old(self).preprocessed() as int) == old(self).made_with(),
            final(self).delta_value() == old(self).delta_value(),
            final(self).receiver_id() == old(self).receiver_id(),
            final(self).received() == old(self).received(),
    {
        if count > self.available_sender() {
            let more = count - self.available_sender();
            self.preprocess(more);
        }
        let start = self.count_sender;
        let mut keys: Vec<Block> = Vec::new();
        let mut i: usize = 0;
        while i < count
            invariant
                i <= count,
                start + count <= self.keys.len(),
                keys@ == self.keys@.subrange(start as int, start + i),
            decreases count - i,
        {
            keys.push(self.keys[start + i]);
            assert(keys@ =~= self.keys@.subrange(start as int, start + i + 1));
            i = i + 1;
        }
        proof {
            assert(block_values(keys@) =~= block_values(self.keys@).subrange(
                start as int,
                start + count,
            ));
            assert(block_values(self.keys@).take(old(self).keys.len() as int) =~= block_values(
                old(self).keys@,
            ));
            assert(block_values(self.msgs@).take(old(self).keys.len() as int) =~= block_values(
                old(self).msgs@,
            ));
            assert(self.deltas@.take(old(self).keys.len() as int) =~= old(self).deltas@);
        }
        let id = self.sender_transfer_id.next();
        self.count_sender = self.count_sender + count;
        RCOTSenderOutput { id, keys }
    }

    /// Receives preprocessed random correlated oblivious transfers. At least
    /// `count` must be preprocessed and not yet received.
    pub fn receive_random_correlated(&mut self, count: usize) -> (r: RCOTReceiverOutput<
        bool,
        Block,
    >)
        requires
            old(self).wf(),
            old(self).received() + count <= old(self).preprocessed(),
            old(self).received() + count <= usize::MAX,
            old(self).receiver_id() < u64::MAX,
        ensures
            final(self).wf(),
            r.id.value() == old(self).receiver_id(),
            final(self).receiver_id() == old(self).receiver_id() + 1,
            final(self).received() == old(self).received() + count,
            r.choices.len() == count,
            r.msgs.len() == count,
            r.choices@ == final(self).choice_bits().subrange(
                old(self).received() as int,
                old(self).received() + count,
            ),
            block_values(r.msgs@) == final(self).msg_values().subrange(
                old(self).received() as int,
                old(self).received() + count,
            ),
            final(self).preprocessed() == if old(self).received() + count > old(self).preprocessed() {
                old(self).received() + count
            } else {
                old(self).preprocessed() as int
            },
            final(self).key_values().take(old(self).preprocessed() as int) == old(self).key_values(),
            final(self).msg_values().take(old(self).preprocessed() as int) == old(self).msg_values(),
            final(self).choice_bits().take(old(self).preprocessed() as int) == old(self).choice_bits(),
            forall|i: int|
                old(self).preprocessed() <= i < final(self).preprocessed() ==> #[trigger] final(self).made_with()[i] == old(self).delta_value(),
            final(self).made_with().take(old(self).preprocessed() as int) == old(self).made_with(),
            final(self).delta_value() == old(self).delta_value(),
            final(self).sender_id() == old(self).sender_id(),
            final(self).sent() == old(self).sent(),
    {
        if count > self.available_receiver() {
            let more = count - self.available_receiver();
            self.preprocess(more);
        }
        let start = self.count_receiver;
        let mut choices: Vec<bool> = Vec::new();
        let mut msgs: Vec<Block> = Vec::new();
        let mut i: usize = 0;
        while i < count
            invariant
                i <= count,
                start + count <= self.choices.len(),
                self.choices.len() == self.msgs.len(),
                choices@ == self.choices@.subrange(start as int, start + i),
                msgs@ == self.msgs@.subrange(start as int, start + i),
            decreases count - i,
        {
            choices.push(self.choices[start + i]);
            msgs.push(self.msgs[start + i]);
            assert(choices@ =~= self.choices@.subrange(start as int, start + i + 1));
            assert(msgs@ =~= self.msgs@.subrange(start as int, start + i + 1));
            i = i + 1;
        }
        proof {
            assert(block_values(msgs@) =~= block_values(self.msgs@).subrange(
                start as int,
                start + count,
            ));
            assert(block_values(self.keys@).take(old(self).keys.len() as int) =~= block_values(
                old(self).keys@,
            ));
            assert(block_values(self.msgs@).take(old(self).keys.len() as int) =~= block_values(
                old(self).msgs@,
            ));
            assert(self.deltas@.take(old(self).keys.len() as int) =~= old(self).deltas@);
        }
        let id = self.receiver_transfer_id.next();
        self.count_receiver = self.count_receiver + count;
        RCOTReceiverOutput { id, choices, msgs }
    }

    /// Executes random correlated oblivious transfers.
    ///
    /// The functionality deals random choices to the receiver, along with the
    /// corresponding messages. When both parties have consumed the same number
    /// of COTs, each message is the sender's key, XORed with the correlation
    /// the COT was made with when its choice is set.
    pub fn random_correlated(&mut self, count: usize) -> (r: (
        RCOTSenderOutput<Block>,
        RCOTReceiverOutput<bool, Block>,
    ))
        requires
            old(self).wf(),
            old(self).sent() + count <= usize::MAX,
            old(self).received() + count <= usize::MAX,
            old(self).received() <= old(self).sent() || old(self).received() + count <= old(self).preprocessed(),
            old(self).sender_id() < u64::MAX,
            old(self).receiver_id() < u64::MAX,
        ensures
            final(self).wf(),
            r.0.id.value() == old(self).sender_id(),
            r.1.id.value() == old(self).receiver_id(),
            final(self).sender_id() == old(self).sender_id() + 1,
            final(self).receiver_id() == old(self).receiver_id() + 1,
            final(self).sent() == old(self).sent() + count,
            final(self).received() == old(self).received() + count,
            r.0.keys.len() == count,
            r.1.choices.len() == count,
            r.1.msgs.len() == count,
            block_values(r.0.keys@) == final(self).key_values().subrange(
                old(self).sent() as int,
                old(self).sent() + count,
            ),
            r.1.choices@ == final(self).choice_bits().subrange(
                old(self).received() as int,
                old(self).received() + count,
            ),
            block_values(r.1.msgs@) == final(self).msg_values().subrange(
                old(self).received() as int,
                old(self).received() + count,
            ),
            old(self).sent() == old(self).received() ==> forall|i: int|
                0 <= i < count ==> #[trigger] r.1.msgs@[i].value() == auth_value(
                    r.0.keys@[i].value(),
                    r.1.choices@[i],
                    final(self).made_with()[old(self).sent() + i],
                ),
            old(self).made_with_delta(old(self).delta_value()) ==> final(self).made_with_delta(
                final(self).delta_value(),
            ),
            final(self).delta_value() == old(self).delta_value(),
    {
        let s = self.send_random_correlated(count);
        let ghost mid = *self;
        let r = self.receive_random_correlated(count);
        proof {
            self.lemma_wf();
            mid.lemma_wf();
            if old(self).sent() == old(self).received() {
                assert forall|i: int| 0 <= i < count implies #[trigger] r.msgs@[i].value()
                    == auth_value(
                    s.keys@[i].value(),
                    r.choices@[i],
                    self.made_with()[old(self).sent() + i],
                ) by {
                    let a = old(self).sent() + i;
                    assert(block_values(r.msgs@)[i] == self.msg_values()[a]);
                    assert(block_values(s.keys@)[i] == mid.key_values()[a]);
                    assert(mid.key_values()[a] == self.key_values().take(mid.preprocessed() as int)[a]);
                    assert(r.choices@[i] == self.choice_bits()[a]);
                }
            }
            if old(self).made_with_delta(old(self).delta_value()) {
                assert forall|i: int| 0 <= i < mid.made_with().len() implies #[trigger] mid.made_with()[i]
                    == mid.delta_value() by {
                    if i < old(self).preprocessed() {
                        assert(mid.made_with()[i] == mid.made_with().take(
                            old(self).preprocessed() as int,
                        )[i]);
                    }
                }
                assert forall|i: int| 0 <= i < self.made_with().len() implies #[trigger] self.made_with()[i]
                    == self.delta_value() by {
                    if i < mid.preprocessed() {
                        assert(self.made_with()[i] == self.made_with().take(
                            mid.preprocessed() as int,
                        )[i]);
                    }
                }
            }
        }
        (s, r)
    }

    /// Executes correlated oblivious transfers with choices provided by the
    /// receiver: the receiver gets each message, XORed with `delta` when its
    /// choice is set.
    pub fn correlated(&mut self, msgs: Vec<Block>, choices: Vec<bool>) -> (r: (
        COTSenderOutput<Block>,
        COTReceiverOutput<Block>,
    ))
        requires
            msgs.len() == choices.len(),
            old(self).sender_id() < u64::MAX,
            old(self).receiver_id() < u64::MAX,
        ensures
            r.0.id.value() == old(self).sender_id(),
            r.1.id.value() == old(self).receiver_id(),
            final(self).sender_id() == old(self).sender_id() + 1,
            final(self).receiver_id() == old(self).receiver_id() + 1,
            r.0.msgs@ == msgs@,
            r.1.msgs.len() == msgs.len(),
            forall|i: int|
                0 <= i < msgs.len() ==> #[trigger] r.1.msgs@[i].value() == auth_value(
                    msgs@[i].value(),
                    choices@[i],
                    old(self).delta_value(),
                ),
            old(self).wf() ==> final(self).wf(),
            final(self).delta_value() == old(self).delta_value(),
            final(self).key_values() == old(self).key_values(),
            final(self).msg_values() == old(self).msg_values(),
            final(self).choice_bits() == old(self).choice_bits(),
            final(self).made_with() == old(self).made_with(),
            final(self).sent() == old(self).sent(),
            final(self).received() == old(self).received(),
    {
        let mut received: Vec<Block> = Vec::new();
        let mut i: usize = 0;
        while i < msgs.len()
            invariant
                i <= msgs.len(),
                msgs.len() == choices.len(),
                received.len() == i,
                forall|j: int|
                    0 <= j < i ==> #[trigger] received@[j].value() == auth_value(
                        msgs@[j].value(),
                        choices@[j],
                        self.delta.value(),
                    ),
            decreases msgs.len() - i,
        {
            let msg = if choices[i] { msgs[i].xor(&self.delta) } else { msgs[i] };
            received.push(msg);
            i = i + 1;
        }
        let sender_id = self.sender_transfer_id.next();
        let receiver_id = self.receiver_transfer_id.next();
        (COTSenderOutput { id: sender_id, msgs }, COTReceiverOutput { id: receiver_id, msgs: received })
    }
}

impl Default for IdealCOT {
    fn default() -> (r: Self)
        ensures
            r.wf(),
            r.sender_id() == 0,
            r.receiver_id() == 0,
            r.sent() == 0,
            r.received() == 0,
            r.preprocessed() == 0,
    {
        let mut rng = rng_seed_from_u64(0);
        let seed = Block::new(rng_next_u128(&mut rng));
        let delta = Block::new(rng_next_u128(&mut rng));
        Self::new(seed, delta)
    }
}

} // verus!
