//! Ideal random correlated oblivious transfer functionality.
//!
//! Both parties allocate the RCOTs they will need; a flush deals them, and
//! answers the transfers that were queued while none were available. The
//! functionality checks that the parties consume the same numbers of RCOTs.
use vstd::prelude::*;
use rand_chacha::ChaCha8Rng;

use crate::correlated::{auth_value, Block};
use crate::ot::ideal_cot::block_values;
use crate::ot::rcot::{
    RCOTReceiver, RCOTReceiverOutput, RCOTRecvFuture, RCOTRecvPending, RCOTSendFuture,
    RCOTSendPending, RCOTSender, RCOTSenderOutput,
};
use crate::ot::TransferId;
use crate::rng::{rng_from_seed, rng_next_bool, rng_next_u128, rng_seed_from_u64};

verus! {

/// Error of an [`IdealRCOT`] operation.
#[derive(Debug, Clone, Copy)]
pub enum IdealRCOTErrorKind {
    /// Fewer RCOTs are available than were asked for.
    InsufficientPreprocessed { wanted: usize, got: usize },
    /// The two parties asked for different numbers of RCOTs in a transfer.
    CountMismatch { id: TransferId, sender: usize, receiver: usize },
}

/// Error for [`IdealRCOT`].
#[derive(Debug)]
pub struct IdealRCOTError(pub(crate) IdealRCOTErrorKind);

impl IdealRCOTError {
    /// What went wrong.
    pub open(crate) spec fn error_kind(&self) -> IdealRCOTErrorKind {
        self.0
    }

    /// Returns what went wrong.
    pub fn kind(&self) -> (r: IdealRCOTErrorKind)
        ensures
            r == self.error_kind(),
    {
        self.0
    }
}

/// The outcome of one transfer of `count` RCOTs by a party that has made the
/// transfers `counts` and has `available` RCOTs, the other party having made
/// the transfers `other`: the party's new counts and available RCOTs, or
/// `None` when the transfer fails.
///
/// A transfer fails when fewer RCOTs are available than it asks for, or when
/// the other party already made the same transfer with a different number.
pub open spec fn transfer_step(counts: Seq<usize>, available: nat, other: Seq<usize>, count: usize) -> Option<(Seq<usize>, nat)> {
    if count > available {
        None
    } else if other.len() > counts.len() && other[counts.len() as int] != count {
        None
    } else {
        Some((counts.push(count), (available - count) as nat))
    }
}

/// Parties that transfer in lock step never see a count mismatch: when both
/// have made the same number of transfers, a transfer of `count` RCOTs by
/// the sender, then by the receiver, fails only for want of available RCOTs.
pub proof fn lemma_lockstep_transfers_match(
    sender_counts: Seq<usize>,
    sender_available: nat,
    receiver_counts: Seq<usize>,
    receiver_available: nat,
    count: usize,
)
    requires
        sender_counts.len() == receiver_counts.len(),
    ensures
        transfer_step(sender_counts, sender_available, receiver_counts, count) is Some <==> count
            <= sender_available,
        transfer_step(receiver_counts, receiver_available, sender_counts.push(count), count) is Some
            <==> count <= receiver_available,
{
}

/// The number of RCOTs consumed by transfers of the sizes `counts`.
pub open spec fn counts_total(counts: Seq<usize>) -> nat
    decreases counts.len(),
{
    if counts.len() == 0 {
        0
    } else {
        counts_total(counts.drop_last()) + (counts.last() as nat)
    }
}

/// Adding a transfer adds its size to the total.
proof fn lemma_counts_total_push(counts: Seq<usize>, count: usize)
    ensures
        counts_total(counts.push(count)) == counts_total(counts) + count,
{
    assert(counts.push(count).drop_last() =~= counts);
}

/// What answering the sender's queued transfers `queue`, in order, hands
/// their futures: the `j`-th gets the id `id + j` and the next keys of
/// `keys`, starting at `pos`.
pub open spec fn queued_send_answers(id: nat, pos: nat, keys: Seq<u128>, queue: Seq<usize>) -> Seq<
    (nat, Seq<u128>),
>
    decreases queue.len(),
{
    if queue.len() == 0 {
        Seq::empty()
    } else {
        let start = (pos + counts_total(queue.drop_last())) as int;
        queued_send_answers(id, pos, keys, queue.drop_last()).push(
            ((id + queue.len() - 1) as nat, keys.subrange(start, start + queue.last())),
        )
    }
}

/// What answering the receiver's queued transfers `queue`, in order, hands
/// their futures: the `j`-th gets the id `id + j` and the next choices and
/// messages, starting at `pos`.
pub open spec fn queued_recv_answers(
    id: nat,
    pos: nat,
    choices: Seq<bool>,
    msgs: Seq<u128>,
    queue: Seq<usize>,
) -> Seq<(nat, Seq<bool>, Seq<u128>)>
    decreases queue.len(),
{
    if queue.len() == 0 {
        Seq::empty()
    } else {
        let start = (pos + counts_total(queue.drop_last())) as int;
        queued_recv_answers(id, pos, choices, msgs, queue.drop_last()).push(
            (
                (id + queue.len() - 1) as nat,
                choices.subrange(start, start + queue.last()),
                msgs.subrange(start, start + queue.last()),
            ),
        )
    }
}

/// A prefix of the transfers takes no more RCOTs than all of them.
proof fn lemma_counts_total_prefix(counts: Seq<usize>, k: int)
    requires
        0 <= k <= counts.len(),
    ensures
        counts_total(counts.take(k)) <= counts_total(counts),
    decreases counts.len() - k,
{
    if k < counts.len() {
        lemma_counts_total_prefix(counts, k + 1);
        assert(counts.take(k + 1).drop_last() =~= counts.take(k));
    } else {
        assert(counts.take(k) =~= counts);
    }
}

/// The outcome of the transfers `queue`, made one after the other.
pub open spec fn queue_outcome(counts: Seq<usize>, available: nat, other: Seq<usize>, queue: Seq<usize>) -> Option<(Seq<usize>, nat)>
    decreases queue.len(),
{
    if queue.len() == 0 {
        Some((counts, available))
    } else {
        match queue_outcome(counts, available, other, queue.drop_last()) {
            Some(state) => transfer_step(state.0, state.1, other, queue.last()),
            None => None,
        }
    }
}

/// The number of RCOTs each queued sender transfer wants.
pub open spec fn send_queue_counts(queue: Seq<RCOTSendPending<Block>>) -> Seq<usize> {
    queue.map_values(|p: RCOTSendPending<Block>| p.wanted())
}

/// The number of RCOTs each queued receiver transfer wants.
pub open spec fn recv_queue_counts(queue: Seq<RCOTRecvPending<bool, Block>>) -> Seq<usize> {
    queue.map_values(|p: RCOTRecvPending<bool, Block>| p.wanted())
}

/// A party's bookkeeping: RCOTs allocated for the next flush, the next
/// transfer id, the RCOTs dealt but not consumed, the position of the next
/// RCOT, the sizes of the transfers made, and the transfers waiting for a
/// flush.
struct SenderState {
    alloc: usize,
    transfer_id: TransferId,
    available: usize,
    current: usize,
    counts: Vec<usize>,
    queue: Vec<RCOTSendPending<Block>>,
}

/// The receiver's bookkeeping, as [`SenderState`] for the sender.
struct ReceiverState {
    alloc: usize,
    transfer_id: TransferId,
    available: usize,
    current: usize,
    counts: Vec<usize>,
    queue: Vec<RCOTRecvPending<bool, Block>>,
}

impl SenderState {
    fn new() -> (r: Self)
        ensures
            r.alloc == 0,
            r.transfer_id.value() == 0,
            r.available == 0,
            r.current == 0,
            r.counts@ == Seq::<usize>::empty(),
            r.queue@ == Seq::<RCOTSendPending<Block>>::empty(),
    {
        SenderState {
            alloc: 0,
            transfer_id: TransferId::default(),
            available: 0,
            current: 0,
            counts: Vec::new(),
            queue: Vec::new(),
        }
    }
}

impl ReceiverState {
    fn new() -> (r: Self)
        ensures
            r.alloc == 0,
            r.transfer_id.value() == 0,
            r.available == 0,
            r.current == 0,
            r.counts@ == Seq::<usize>::empty(),
            r.queue@ == Seq::<RCOTRecvPending<bool, Block>>::empty(),
    {
        ReceiverState {
            alloc: 0,
            transfer_id: TransferId::default(),
            available: 0,
            current: 0,
            counts: Vec::new(),
            queue: Vec::new(),
        }
    }
}

/// Ideal RCOT functionality.
pub struct IdealRCOT {
    delta: Block,
    prg: ChaCha8Rng,
    sender_state: SenderState,
    receiver_state: ReceiverState,
    keys: Vec<Block>,
    msgs: Vec<Block>,
    choices: Vec<bool>,
    aligned: Ghost<bool>,
    sender_handed: Ghost<Seq<(nat, Seq<u128>)>>,
    receiver_handed: Ghost<Seq<(nat, Seq<bool>, Seq<u128>)>>,
}

impl IdealRCOT {
    /// The global correlation.
    pub closed spec fn delta_value(&self) -> u128 {
        self.delta.value()
    }

    /// The keys of the dealt RCOTs.
    pub closed spec fn key_values(&self) -> Seq<u128> {
        block_values(self.keys@)
    }

    /// The messages of the dealt RCOTs.
    pub closed spec fn msg_values(&self) -> Seq<u128> {
        block_values(self.msgs@)
    }

    /// The choices of the dealt RCOTs.
    pub closed spec fn choice_bits(&self) -> Seq<bool> {
        self.choices@
    }

    /// What the futures of the sender's queued transfers were handed, in
    /// order: each transfer's id and keys.
    pub closed spec fn sender_answers(&self) -> Seq<(nat, Seq<u128>)> {
        self.sender_handed@
    }

    /// What the futures of the receiver's queued transfers were handed, in
    /// order: each transfer's id, choices and messages.
    pub closed spec fn receiver_answers(&self) -> Seq<(nat, Seq<bool>, Seq<u128>)> {
        self.receiver_handed@
    }

    /// No transfer has failed for a count mismatch.
    pub closed spec fn in_step(&self) -> bool {
        self.aligned@
    }

    /// The number of dealt RCOTs.
    pub open spec fn dealt(&self) -> nat {
        self.key_values().len()
    }

    /// RCOTs the sender allocated for the next flush.
    pub closed spec fn sender_alloc(&self) -> nat {
        self.sender_state.alloc as nat
    }

    /// The id of the sender's next transfer.
    pub closed spec fn sender_id(&self) -> nat {
        self.sender_state.transfer_id.value()
    }

    /// RCOTs available to the sender.
    pub closed spec fn sender_available(&self) -> nat {
        self.sender_state.available as nat
    }

    /// The position of the sender's next RCOT.
    pub closed spec fn sender_current(&self) -> nat {
        self.sender_state.current as nat
    }

    /// The sizes of the sender's transfers.
    pub closed spec fn sender_counts(&self) -> Seq<usize> {
        self.sender_state.counts@
    }

    /// The sizes of the sender's queued transfers.
    pub closed spec fn sender_queue(&self) -> Seq<usize> {
        send_queue_counts(self.sender_state.queue@)
    }

    /// RCOTs the receiver allocated for the next flush.
    pub closed spec fn receiver_alloc(&self) -> nat {
        self.receiver_state.alloc as nat
    }

    /// The id of the receiver's next transfer.
    pub closed spec fn receiver_id(&self) -> nat {
        self.receiver_state.transfer_id.value()
    }

    /// RCOTs available to the receiver.
    pub closed spec fn receiver_available(&self) -> nat {
        self.receiver_state.available as nat
    }

    /// The position of the receiver's next RCOT.
    pub closed spec fn receiver_current(&self) -> nat {
        self.receiver_state.current as nat
    }

    /// The sizes of the receiver's transfers.
    pub closed spec fn receiver_counts(&self) -> Seq<usize> {
        self.receiver_state.counts@
    }

    /// The sizes of the receiver's queued transfers.
    pub closed spec fn receiver_queue(&self) -> Seq<usize> {
        recv_queue_counts(self.receiver_state.queue@)
    }

    /// Each message is its key, XORed with delta when its choice is set, and
    /// neither party can consume more RCOTs than were dealt.
    pub closed spec fn wf(&self) -> bool {
        &&& self.aligned@ ==> self.sender_state.current == counts_total(self.sender_state.counts@)
        &&& self.aligned@ ==> self.receiver_state.current == counts_total(
            self.receiver_state.counts@,
        )
        &&& self.keys.len() == self.msgs.len()
        &&& self.keys.len() == self.choices.len()
        &&& self.sender_state.current + self.sender_state.available <= self.keys.len()
        &&& self.receiver_state.current + self.receiver_state.available <= self.keys.len()
        &&& forall|i: int|
            0 <= i < self.keys.len() ==> (#[trigger] self.msgs@[i]).value() == auth_value(
                self.keys@[i].value(),
                self.choices@[i],
                self.delta.value(),
            )
    }

    /// The dealt RCOTs satisfy the correlation, and each party's RCOTs lie
    /// among them.
    pub proof fn lemma_wf(&self)
        requires
            self.wf(),
        ensures
            self.msg_values().len() == self.dealt(),
            self.choice_bits().len() == self.dealt(),
            self.sender_current() + self.sender_available() <= self.dealt(),
            self.receiver_current() + self.receiver_available() <= self.dealt(),
            forall|i: int|
                0 <= i < self.dealt() ==> #[trigger] self.msg_values()[i] == auth_value(
                    self.key_values()[i],
                    self.choice_bits()[i],
                    self.delta_value(),
                ),
    {
    }

    /// While no transfer has failed for a count mismatch, each party's
    /// position is the number of RCOTs its transfers took.
    pub proof fn lemma_positions(&self)
        requires
            self.wf(),
            self.in_step(),
        ensures
            self.sender_current() == counts_total(self.sender_counts()),
            self.receiver_current() == counts_total(self.receiver_counts()),
    {
    }

    /// Parties that made transfers of the same sizes, with no count mismatch
    /// on the way, pair up: the receiver's next `n` messages are the
    /// sender's next `n` keys, XORed with delta where the receiver's choice
    /// is set.
    pub proof fn lemma_same_transfers_pair(&self, n: nat)
        requires
            self.wf(),
            self.in_step(),
            self.sender_counts() == self.receiver_counts(),
            self.sender_current() + n <= self.dealt(),
        ensures
            self.sender_current() == self.receiver_current(),
            forall|i: int|
                0 <= i < n ==> #[trigger] self.msg_values()[self.receiver_current() + i]
                    == auth_value(
                    self.key_values()[self.sender_current() + i],
                    self.choice_bits()[self.receiver_current() + i],
                    self.delta_value(),
                ),
    {
        self.lemma_wf();
        assert forall|i: int| 0 <= i < n implies #[trigger] self.msg_values()[self.receiver_current()
            + i] == auth_value(
            self.key_values()[self.sender_current() + i],
            self.choice_bits()[self.receiver_current() + i],
            self.delta_value(),
        ) by {
            let a = self.sender_current() + i;
            assert(self.msg_values()[a] == auth_value(
                self.key_values()[a],
                self.choice_bits()[a],
                self.delta_value(),
            ));
        }
    }

    /// With no transfer queued, a flush makes each party's allocation
    /// available and changes no transfer; with nothing allocated either, it
    /// leaves the available RCOTs as they are.
    pub proof fn lemma_flush_without_queues(&self)
        requires
            self.sender_queue() == Seq::<usize>::empty(),
            self.receiver_queue() == Seq::<usize>::empty(),
        ensures
            self.flush_outcome() == Some(
                (
                    (self.sender_counts(), self.sender_available() + self.sender_alloc()),
                    (self.receiver_counts(), self.receiver_available() + self.receiver_alloc()),
                ),
            ),
    {
    }

    /// Each party's `j`-th transfer took the RCOTs that follow those of its
    /// earlier transfers. When the parties made the same first `j + 1`
    /// transfers, with no count mismatch, their `j`-th transfers took the
    /// same RCOTs, and each message is the key, XORed with delta where the
    /// choice is set.
    pub proof fn lemma_jth_transfers_pair(&self, j: int)
        requires
            self.wf(),
            self.in_step(),
            0 <= j < self.sender_counts().len(),
            j < self.receiver_counts().len(),
            self.sender_counts().take(j + 1) == self.receiver_counts().take(j + 1),
        ensures
            ({
                let start = counts_total(self.sender_counts().take(j));
                let count = self.sender_counts()[j];
                &&& start == counts_total(self.receiver_counts().take(j))
                &&& start + count <= self.sender_current()
                &&& start + count <= self.receiver_current()
                &&& start + count <= self.dealt()
                &&& forall|i: int|
                    0 <= i < count ==> #[trigger] self.msg_values()[start + i] == auth_value(
                        self.key_values()[start + i],
                        self.choice_bits()[start + i],
                        self.delta_value(),
                    )
            }),
    {
        self.lemma_wf();
        let sc = self.sender_counts();
        let rc = self.receiver_counts();
        assert(sc.take(j) =~= sc.take(j + 1).take(j));
        assert(rc.take(j) =~= rc.take(j + 1).take(j));
        assert(sc[j] == sc.take(j + 1)[j]);
        assert(rc[j] == rc.take(j + 1)[j]);
        lemma_counts_total_prefix(sc, j + 1);
        lemma_counts_total_prefix(rc, j + 1);
        assert(sc.take(j + 1).drop_last() =~= sc.take(j));
        assert(sc.take(j + 1).last() == sc[j]);
        let start = counts_total(sc.take(j));
        assert forall|i: int| 0 <= i < sc[j] implies #[trigger] self.msg_values()[start + i]
            == auth_value(
            self.key_values()[start + i],
            self.choice_bits()[start + i],
            self.delta_value(),
        ) by {
            let a = start + i;
            assert(self.msg_values()[a] == auth_value(
                self.key_values()[a],
                self.choice_bits()[a],
                self.delta_value(),
            ));
        }
    }

    /// Creates a new ideal RCOT functionality.
    ///
    /// # Arguments
    ///
    /// * `seed` - Seed for the PRG.
    /// * `delta` - Global correlation key.
    pub fn new(seed: Block, delta: Block) -> (r: Self)
        ensures
            r.wf(),
            r.delta_value() == delta.value(),
            r.dealt() == 0,
            r.sender_alloc() == 0 && r.receiver_alloc() == 0,
            r.sender_id() == 0 && r.receiver_id() == 0,
            r.sender_available() == 0 && r.receiver_available() == 0,
            r.sender_current() == 0 && r.receiver_current() == 0,
            r.sender_counts() == Seq::<usize>::empty(),
            r.receiver_counts() == Seq::<usize>::empty(),
            r.sender_queue() == Seq::<usize>::empty(),
            r.receiver_queue() == Seq::<usize>::empty(),
            r.in_step(),
            r.sender_answers() == Seq::<(nat, Seq<u128>)>::empty(),
            r.receiver_answers() == Seq::<(nat, Seq<bool>, Seq<u128>)>::empty(),
    {
        let r = IdealRCOT {
            delta,
            prg: rng_from_seed(seed.to_array()),
            sender_state: SenderState::new(),
            receiver_state: ReceiverState::new(),
            keys: Vec::new(),
            msgs: Vec::new(),
            choices: Vec::new(),
            aligned: Ghost(true),
            sender_handed: Ghost(Seq::empty()),
            receiver_handed: Ghost(Seq::empty()),
        };
        assert(r.sender_queue() =~= Seq::<usize>::empty());
        assert(r.receiver_queue() =~= Seq::<usize>::empty());
        r
    }

    /// Allocates `count` random correlated OTs for both parties.
    pub fn alloc_both(&mut self, count: usize)
        requires
            old(self).sender_alloc() + count <= usize::MAX,
            old(self).receiver_alloc() + count <= usize::MAX,
        ensures
            final(self).sender_alloc() == old(self).sender_alloc() + count,
            final(self).receiver_alloc() == old(self).receiver_alloc() + count,
            final(self).same_but_alloc(old(self)),
            final(self).in_step() == old(self).in_step(),
            old(self).wf() ==> final(self).wf(),
    {
        self.sender_state.alloc = self.sender_state.alloc + count;
        self.receiver_state.alloc = self.receiver_state.alloc + count;
    }
}

impl IdealRCOT {
    /// Everything but the allocations is the same.
    pub open spec fn same_but_alloc(&self, other: &IdealRCOT) -> bool {
        &&& self.delta_value() == other.delta_value()
        &&& self.key_values() == other.key_values()
        &&& self.msg_values() == other.msg_values()
        &&& self.choice_bits() == other.choice_bits()
        &&& self.sender_id() == other.sender_id()
        &&& self.sender_available() == other.sender_available()
        &&& self.sender_current() == other.sender_current()
        &&& self.sender_counts() == other.sender_counts()
        &&& self.sender_queue() == other.sender_queue()
        &&& self.receiver_id() == other.receiver_id()
        &&& self.receiver_available() == other.receiver_available()
        &&& self.receiver_current() == other.receiver_current()
        &&& self.receiver_counts() == other.receiver_counts()
        &&& self.receiver_queue() == other.receiver_queue()
        &&& self.sender_answers() == other.sender_answers()
        &&& self.receiver_answers() == other.receiver_answers()
    }
}

impl IdealRCOT {
    /// The receiver's bookkeeping is the same.
    pub open spec fn same_receiver(&self, other: &IdealRCOT) -> bool {
        &&& self.receiver_alloc() == other.receiver_alloc()
        &&& self.receiver_id() == other.receiver_id()
        &&& self.receiver_available() == other.receiver_available()
        &&& self.receiver_current() == other.receiver_current()
        &&& self.receiver_counts() == other.receiver_counts()
        &&& self.receiver_queue() == other.receiver_queue()
        &&& self.receiver_answers() == other.receiver_answers()
    }

    /// The sender's bookkeeping is the same.
    pub open spec fn same_sender(&self, other: &IdealRCOT) -> bool {
        &&& self.sender_alloc() == other.sender_alloc()
        &&& self.sender_id() == other.sender_id()
        &&& self.sender_available() == other.sender_available()
        &&& self.sender_current() == other.sender_current()
        &&& self.sender_counts() == other.sender_counts()
        &&& self.sender_queue() == other.sender_queue()
        &&& self.sender_answers() == other.sender_answers()
    }

    /// The dealt RCOTs and the correlation are the same.
    pub open spec fn same_dealt(&self, other: &IdealRCOT) -> bool {
        &&& self.delta_value() == other.delta_value()
        &&& self.key_values() == other.key_values()
        &&& self.msg_values() == other.msg_values()
        &&& self.choice_bits() == other.choice_bits()
    }
}

impl RCOTSender<Block> for IdealRCOT {
    type Error = IdealRCOTError;

    open spec fn sender_wf(&self) -> bool {
        self.wf()
    }

    open spec fn sender_can_allocate(&self, count: usize) -> bool {
        self.sender_alloc() + count <= usize::MAX
    }

    open spec fn sender_can_transfer(&self) -> bool {
        self.sender_id() < u64::MAX
    }

    open spec fn sender_allocated(&self) -> nat {
        self.sender_alloc()
    }

    open spec fn same_but_sender_allocation(&self, other: &Self) -> bool {
        &&& self.sender_id() == other.sender_id()
        &&& self.sender_available() == other.sender_available()
        &&& self.sender_current() == other.sender_current()
        &&& self.sender_counts() == other.sender_counts()
        &&& self.sender_queue() == other.sender_queue()
        &&& self.sender_answers() == other.sender_answers()
        &&& self.same_receiver(other)
        &&& self.same_dealt(other)
        &&& self.in_step() == other.in_step()
    }

    fn allocate(&mut self, count: usize) -> Result<(), IdealRCOTError> {
        self.sender_state.alloc = self.sender_state.alloc + count;
        Ok(())
    }

    open spec fn sender_available_count(&self) -> nat {
        self.sender_available()
    }

    closed spec fn correlation(&self) -> Block {
        self.delta
    }

    fn available(&self) -> usize {
        self.sender_state.available
    }

    fn delta(&self) -> (r: Block)
        ensures
            r.value() == self.delta_value(),
    {
        self.delta
    }

    fn try_send_rcot(&mut self, count: usize) -> (r: Result<RCOTSenderOutput<Block>, IdealRCOTError>)
        ensures
            r is Ok <==> transfer_step(
                old(self).sender_counts(),
                old(self).sender_available(),
                old(self).receiver_counts(),
                count,
            ) is Some,
            count > old(self).sender_available() ==> (r matches Err(e) && e.error_kind() == (
            IdealRCOTErrorKind::InsufficientPreprocessed {
                wanted: count,
                got: old(self).sender_available() as usize,
            })) && *final(self) == *old(self),
            count <= old(self).sender_available() ==> final(self).sender_id() == old(self).sender_id()
                + 1 && final(self).sender_counts() == old(self).sender_counts().push(count),
            count <= old(self).sender_available() && r is Err ==> (r matches Err(e) && e.error_kind() matches IdealRCOTErrorKind::CountMismatch { id, sender, receiver } && id.value() == old(self).sender_id() && sender == count && receiver == old(self).receiver_counts()[old(self).sender_counts().len() as int]) && final(self).sender_current() == old(self).sender_current() && final(self).sender_available() == old(self).sender_available(),
            r matches Ok(out) ==> out.id.value() == old(self).sender_id() && out.keys.len() == count
                && block_values(out.keys@) == old(self).key_values().subrange(
                old(self).sender_current() as int,
                old(self).sender_current() + count,
            ) && final(self).sender_current() == old(self).sender_current() + count && final(self).sender_available() == old(self).sender_available() - count,
            final(self).sender_alloc() == old(self).sender_alloc(),
            final(self).sender_queue() == old(self).sender_queue(),
            final(self).same_receiver(old(self)),
            final(self).same_dealt(old(self)),
            r is Ok ==> final(self).in_step() == old(self).in_step(),
            final(self).sender_answers() == old(self).sender_answers(),
    {
        if count > self.sender_state.available {
            return Err(
                IdealRCOTError(
                    IdealRCOTErrorKind::InsufficientPreprocessed {
                        wanted: count,
                        got: self.sender_state.available,
                    },
                ),
            );
        }
        let id = self.sender_state.transfer_id.next();
        self.sender_state.counts.push(count);
        let n = self.sender_state.counts.len() - 1;
        if n < self.receiver_state.counts.len() {
            let receiver_count = self.receiver_state.counts[n];
            // Make sure both parties are expecting the same number of RCOTs.
            if count != receiver_count {
                self.aligned = Ghost(false);
                return Err(
                    IdealRCOTError(
                        IdealRCOTErrorKind::CountMismatch { id, sender: count, receiver: receiver_count },
                    ),
                );
            }
        }
        let start = self.sender_state.current;
        let mut keys: Vec<Block> = Vec::new();
        let mut i: usize = 0;
        while i < count
            invariant
                i <= count,
                start + count <= self.keys.len(),
                keys@ == self.keys@.subrange(start as int, start + i),
            decreases count - i,
        {
            keys.push(self.keys[start + i]);
            assert(keys@ =~= self.keys@.subrange(start as int, start + i + 1));
            i = i + 1;
        }
        assert(block_values(keys@) =~= block_values(self.keys@).subrange(
            start as int,
            start + count,
        ));
        proof {
            lemma_counts_total_push(old(self).sender_state.counts@, count);
        }
        self.sender_state.current = self.sender_state.current + count;
        self.sender_state.available = self.sender_state.available - count;
        Ok(RCOTSenderOutput { id, keys })
    }

    fn queue_send_rcot(&mut self, count: usize) -> (r: Result<RCOTSendFuture<Block>, IdealRCOTError>)
        ensures
            count <= old(self).sender_available() ==> (r is Ok <==> transfer_step(
                old(self).sender_counts(),
                old(self).sender_available(),
                old(self).receiver_counts(),
                count,
            ) is Some),
            count <= old(self).sender_available() ==> final(self).sender_id() == old(self).sender_id()
                + 1 && final(self).sender_counts() == old(self).sender_counts().push(count)
                && final(self).sender_alloc() == old(self).sender_alloc() && final(self).sender_queue()
                == old(self).sender_queue(),
            count <= old(self).sender_available() && r is Ok ==> final(self).sender_current()
                == old(self).sender_current() + count && final(self).sender_available() == old(self).sender_available() - count,
            count > old(self).sender_available() ==> r is Ok && final(self).sender_alloc() == old(self).sender_alloc() + count && final(self).sender_queue() == old(self).sender_queue().push(
                count,
            ) && final(self).sender_id() == old(self).sender_id() && final(self).sender_counts()
                == old(self).sender_counts() && final(self).sender_current() == old(self).sender_current() && final(self).sender_available() == old(self).sender_available(),
            final(self).same_receiver(old(self)),
            final(self).same_dealt(old(self)),
            r is Ok ==> final(self).in_step() == old(self).in_step(),
            count <= old(self).sender_available() && r is Ok ==> final(self).sender_answers()
                == old(self).sender_answers().push(
                (
                    old(self).sender_id(),
                    old(self).key_values().subrange(
                        old(self).sender_current() as int,
                        old(self).sender_current() + count,
                    ),
                ),
            ),
            !(count <= old(self).sender_available() && r is Ok) ==> final(self).sender_answers()
                == old(self).sender_answers(),
    {
        let (send, recv) = RCOTSendFuture::new(count);
        if self.sender_state.available >= count {
            let output = match self.try_send_rcot(count) {
                Ok(output) => output,
                Err(e) => return Err(e),
            };
            let handed = send.send(output);
            self.sender_handed = Ghost(
                self.sender_handed@.push((handed@.id.value(), block_values(handed@.keys@))),
            );
        } else {
            let _ = RCOTSender::allocate(self, count);
            let ghost before = self.sender_state.queue@;
            self.sender_state.queue.push(send);
            assert(send_queue_counts(self.sender_state.queue@) =~= send_queue_counts(before).push(
                count,
            ));
        }
        Ok(recv)
    }
}

impl RCOTReceiver<bool, Block> for IdealRCOT {
    type Error = IdealRCOTError;

    open spec fn receiver_wf(&self) -> bool {
        self.wf()
    }

    open spec fn receiver_can_allocate(&self, count: usize) -> bool {
        self.receiver_alloc() + count <= usize::MAX
    }

    open spec fn receiver_can_transfer(&self) -> bool {
        self.receiver_id() < u64::MAX
    }

    open spec fn receiver_allocated(&self) -> nat {
        self.receiver_alloc()
    }

    open spec fn same_but_receiver_allocation(&self, other: &Self) -> bool {
        &&& self.receiver_id() == other.receiver_id()
        &&& self.receiver_available() == other.receiver_available()
        &&& self.receiver_current() == other.receiver_current()
        &&& self.receiver_counts() == other.receiver_counts()
        &&& self.receiver_queue() == other.receiver_queue()
        &&& self.receiver_answers() == other.receiver_answers()
        &&& self.same_sender(other)
        &&& self.same_dealt(other)
        &&& self.in_step() == other.in_step()
    }

    fn allocate(&mut self, count: usize) -> Result<(), IdealRCOTError> {
        self.receiver_state.alloc = self.receiver_state.alloc + count;
        Ok(())
    }

    open spec fn receiver_available_count(&self) -> nat {
        self.receiver_available()
    }

    fn available(&self) -> usize {
        self.receiver_state.available
    }

    fn try_recv_rcot(&mut self, count: usize) -> (r: Result<RCOTReceiverOutput<bool, Block>, IdealRCOTError>)
        ensures
            r is Ok <==> transfer_step(
                old(self).receiver_counts(),
                old(self).receiver_available(),
                old(self).sender_counts(),
                count,
            ) is Some,
            count > old(self).receiver_available() ==> (r matches Err(e) && e.error_kind() == (
            IdealRCOTErrorKind::InsufficientPreprocessed {
                wanted: count,
                got: old(self).receiver_available() as usize,
            })) && *final(self) == *old(self),
            count <= old(self).receiver_available() ==> final(self).receiver_id() == old(self).receiver_id() + 1 && final(self).receiver_counts() == old(self).receiver_counts().push(
                count,
            ),
            count <= old(self).receiver_available() && r is Err ==> (r matches Err(e) && e.error_kind() matches IdealRCOTErrorKind::CountMismatch { id, sender, receiver } && id.value() == old(self).receiver_id() && receiver == count && sender == old(self).sender_counts()[old(self).receiver_counts().len() as int]) && final(self).receiver_current() == old(self).receiver_current() && final(self).receiver_available() == old(self).receiver_available(),
            r matches Ok(out) ==> out.id.value() == old(self).receiver_id() && out.choices.len()
                == count && out.msgs.len() == count && out.choices@ == old(self).choice_bits().subrange(
                old(self).receiver_current() as int,
                old(self).receiver_current() + count,
            ) && block_values(out.msgs@) == old(self).msg_values().subrange(
                old(self).receiver_current() as int,
                old(self).receiver_current() + count,
            ) && final(self).receiver_current() == old(self).receiver_current() + count && final(self).receiver_available() == old(self).receiver_available() - count,
            final(self).receiver_alloc() == old(self).receiver_alloc(),
            final(self).receiver_queue() == old(self).receiver_queue(),
            final(self).same_sender(old(self)),
            final(self).same_dealt(old(self)),
            r is Ok ==> final(self).in_step() == old(self).in_step(),
            final(self).receiver_answers() == old(self).receiver_answers(),
    {
        if count > self.receiver_state.available {
            return Err(
                IdealRCOTError(
                    IdealRCOTErrorKind::InsufficientPreprocessed {
                        wanted: count,
                        got: self.receiver_state.available,
                    },
                ),
            );
        }
        let id = self.receiver_state.transfer_id.next();
        self.receiver_state.counts.push(count);
        let n = self.receiver_state.counts.len() - 1;
        if n < self.sender_state.counts.len() {
            let sender_count = self.sender_state.counts[n];
            // Make sure both parties are expecting the same number of RCOTs.
            if count != sender_count {
                self.aligned = Ghost(false);
                return Err(
                    IdealRCOTError(
                        IdealRCOTErrorKind::CountMismatch { id, sender: sender_count, receiver: count },
                    ),
                );
            }
        }
        let start = self.receiver_state.current;
        let mut choices: Vec<bool> = Vec::new();
        let mut msgs: Vec<Block> = Vec::new();
        let mut i: usize = 0;
        while i < count
            invariant
                i <= count,
                start + count <= self.choices.len(),
                self.choices.len() == self.msgs.len(),
                choices@ == self.choices@.subrange(start as int, start + i),
                msgs@ == self.msgs@.subrange(start as int, start + i),
            decreases count - i,
        {
            choices.push(self.choices[start + i]);
            msgs.push(self.msgs[start + i]);
            assert(choices@ =~= self.choices@.subrange(start as int, start + i + 1));
            assert(msgs@ =~= self.msgs@.subrange(start as int, start + i + 1));
            i = i + 1;
        }
        assert(block_values(msgs@) =~= block_values(self.msgs@).subrange(
            start as int,
            start + count,
        ));
        proof {
            lemma_counts_total_push(old(self).receiver_state.counts@, count);
        }
        self.receiver_state.current = self.receiver_state.current + count;
        self.receiver_state.available = self.receiver_state.available - count;
        Ok(RCOTReceiverOutput { id, choices, msgs })
    }

    fn queue_recv_rcot(&mut self, count: usize) -> (r: Result<RCOTRecvFuture<bool, Block>, IdealRCOTError>)
        ensures
            count <= old(self).receiver_available() ==> (r is Ok <==> transfer_step(
                old(self).receiver_counts(),
                old(self).receiver_available(),
                old(self).sender_counts(),
                count,
            ) is Some),
            count <= old(self).receiver_available() ==> final(self).receiver_id() == old(self).receiver_id() + 1 && final(self).receiver_counts() == old(self).receiver_counts().push(
                count,
            ) && final(self).receiver_alloc() == old(self).receiver_alloc() && final(self).receiver_queue() == old(self).receiver_queue(),
            count <= old(self).receiver_available() && r is Ok ==> final(self).receiver_current()
                == old(self).receiver_current() + count && final(self).receiver_available() == old(self).receiver_available() - count,
            count > old(self).receiver_available() ==> r is Ok && final(self).receiver_alloc()
                == old(self).receiver_alloc() + count && final(self).receiver_queue() == old(self).receiver_queue().push(count) && final(self).receiver_id() == old(self).receiver_id()
                && final(self).receiver_counts() == old(self).receiver_counts() && final(self).receiver_current() == old(self).receiver_current() && final(self).receiver_available()
                == old(self).receiver_available(),
            final(self).same_sender(old(self)),
            final(self).same_dealt(old(self)),
            r is Ok ==> final(self).in_step() == old(self).in_step(),
            count <= old(self).receiver_available() && r is Ok ==> final(self).receiver_answers()
                == old(self).receiver_answers().push(
                (
                    old(self).receiver_id(),
                    old(self).choice_bits().subrange(
                        old(self).receiver_current() as int,
                        old(self).receiver_current() + count,
                    ),
                    old(self).msg_values().subrange(
                        old(self).receiver_current() as int,
                        old(self).receiver_current() + count,
                    ),
                ),
            ),
            !(count <= old(self).receiver_available() && r is Ok) ==> final(self).receiver_answers()
                == old(self).receiver_answers(),
    {
        let (send, recv) = RCOTRecvFuture::new(count);
        if self.receiver_state.available >= count {
            let output = match self.try_recv_rcot(count) {
                Ok(output) => output,
                Err(e) => return Err(e),
            };
            let handed = send.send(output);
            self.receiver_handed = Ghost(
                self.receiver_handed@.push(
                    (handed@.id.value(), handed@.choices@, block_values(handed@.msgs@)),
                ),
            );
        } else {
            let _ = RCOTReceiver::allocate(self, count);
            let ghost before = self.receiver_state.queue@;
            self.receiver_state.queue.push(send);
            assert(recv_queue_counts(self.receiver_state.queue@) =~= recv_queue_counts(
                before,
            ).push(count));
        }
        Ok(recv)
    }
}

/// Once a transfer of the queue fails, the queue fails.
pub proof fn lemma_queue_outcome_fails(
    counts: Seq<usize>,
    available: nat,
    other: Seq<usize>,
    queue: Seq<usize>,
    j: int,
)
    requires
        0 <= j <= queue.len(),
        queue_outcome(counts, available, other, queue.take(j)) is None,
    ensures
        queue_outcome(counts, available, other, queue) is None,
    decreases queue.len() - j,
{
    if j < queue.len() {
        assert(queue.take(j + 1).drop_last() =~= queue.take(j));
        lemma_queue_outcome_fails(counts, available, other, queue, j + 1);
    } else {
        assert(queue.take(j) =~= queue);
    }
}

impl IdealRCOT {
    /// The outcome of a flush's queued transfers: the sender's, made first,
    /// then the receiver's; `None` when one of them fails.
    pub open spec fn flush_outcome(&self) -> Option<((Seq<usize>, nat), (Seq<usize>, nat))> {
        match queue_outcome(
            self.sender_counts(),
            self.sender_available() + self.sender_alloc(),
            self.receiver_counts(),
            self.sender_queue(),
        ) {
            Some(s) => match queue_outcome(
                self.receiver_counts(),
                self.receiver_available() + self.receiver_alloc(),
                s.0,
                self.receiver_queue(),
            ) {
                Some(t) => Some((s, t)),
                None => None,
            },
            None => None,
        }
    }

    /// Transfers `count` random correlated OTs.
    ///
    /// When both parties have consumed the same number of RCOTs, each message
    /// the receiver gets is the sender's key, XORed with delta when the
    /// receiver's choice is set.
    pub fn transfer(&mut self, count: usize) -> (r: Result<
        (RCOTSenderOutput<Block>, RCOTReceiverOutput<bool, Block>),
        IdealRCOTError,
    >)
        requires
            old(self).wf(),
            old(self).sender_id() < u64::MAX,
            old(self).receiver_id() < u64::MAX,
        ensures
            final(self).wf(),
            r is Ok <==> transfer_step(
                old(self).sender_counts(),
                old(self).sender_available(),
                old(self).receiver_counts(),
                count,
            ) is Some && transfer_step(
                old(self).receiver_counts(),
                old(self).receiver_available(),
                old(self).sender_counts().push(count),
                count,
            ) is Some,
            r matches Ok(out) ==> out.0.id.value() == old(self).sender_id() && out.1.id.value()
                == old(self).receiver_id(),
            r matches Ok(out) ==> out.0.keys.len() == count && out.1.choices.len() == count
                && out.1.msgs.len() == count,
            r matches Ok(out) ==> block_values(out.0.keys@) == old(self).key_values().subrange(
                old(self).sender_current() as int,
                old(self).sender_current() + count,
            ),
            r matches Ok(out) ==> out.1.choices@ == old(self).choice_bits().subrange(
                old(self).receiver_current() as int,
                old(self).receiver_current() + count,
            ),
            r matches Ok(out) ==> old(self).sender_current() == old(self).receiver_current()
                ==> forall|i: int|
                0 <= i < count ==> #[trigger] out.1.msgs@[i].value() == auth_value(
                    out.0.keys@[i].value(),
                    out.1.choices@[i],
                    old(self).delta_value(),
                ),
            r is Ok ==> final(self).sender_current() == old(self).sender_current() + count
                && final(self).receiver_current() == old(self).receiver_current() + count
                && final(self).sender_available() == old(self).sender_available() - count
                && final(self).receiver_available() == old(self).receiver_available() - count,
            final(self).same_dealt(old(self)),
            r is Ok ==> final(self).in_step() == old(self).in_step(),
    {
        let s = match self.try_send_rcot(count) {
            Ok(s) => s,
            Err(e) => return Err(e),
        };
        let ghost mid = *self;
        let r = match self.try_recv_rcot(count) {
            Ok(r) => r,
            Err(e) => return Err(e),
        };
        proof {
            old(self).lemma_wf();
            if old(self).sender_current() == old(self).receiver_current() {
                assert forall|i: int| 0 <= i < count implies #[trigger] r.msgs@[i].value()
                    == auth_value(s.keys@[i].value(), r.choices@[i], old(self).delta_value()) by {
                    let a = old(self).sender_current() + i;
                    assert(block_values(r.msgs@)[i] == old(self).msg_values()[a]);
                    assert(block_values(s.keys@)[i] == old(self).key_values()[a]);
                }
            }
        }
        Ok((s, r))
    }

    /// Deals the allocated RCOTs: `count` random keys and choices, each
    /// message the key XORed with delta when its choice is set.
    fn deal(&mut self, count: usize)
        requires
            old(self).wf(),
            old(self).keys.len() + count <= usize::MAX,
        ensures
            final(self).wf(),
            final(self).keys.len() == old(self).keys.len() + count,
            final(self).keys@.take(old(self).keys.len() as int) == old(self).keys@,
            final(self).msgs@.take(old(self).keys.len() as int) == old(self).msgs@,
            final(self).choices@.take(old(self).keys.len() as int) == old(self).choices@,
            final(self).delta == old(self).delta,
            final(self).sender_state == old(self).sender_state,
            final(self).receiver_state == old(self).receiver_state,
            final(self).aligned == old(self).aligned,
            final(self).sender_handed == old(self).sender_handed,
            final(self).receiver_handed == old(self).receiver_handed,
    {
        let start = self.keys.len();
        let ghost old_keys = self.keys@;
        let ghost old_choices = self.choices@;
        let ghost old_msgs = self.msgs@;
        let mut i: usize = 0;
        while i < count
            invariant
                i <= count,
                start + count <= usize::MAX,
                self.keys.len() == start + i,
                self.keys@.take(start as int) == old_keys,
                self.choices == old(self).choices,
                self.msgs == old(self).msgs,
                self.delta == old(self).delta,
                self.sender_state == old(self).sender_state,
                self.receiver_state == old(self).receiver_state,
                self.aligned == old(self).aligned,
                self.sender_handed == old(self).sender_handed,
                self.receiver_handed == old(self).receiver_handed,
            decreases count - i,
        {
            let key = Block::new(rng_next_u128(&mut self.prg));
            self.keys.push(key);
            assert(self.keys@.take(start as int) =~= old_keys);
            i = i + 1;
        }
        let mut j: usize = 0;
        while j < count
            invariant
                j <= count,
                start + count <= usize::MAX,
                self.keys.len() == start + count,
                self.keys@.take(start as int) == old_keys,
                self.choices.len() == start + j,
                self.choices@.take(start as int) == old_choices,
                self.msgs == old(self).msgs,
                self.delta == old(self).delta,
                self.sender_state == old(self).sender_state,
                self.receiver_state == old(self).receiver_state,
                self.aligned == old(self).aligned,
                self.sender_handed == old(self).sender_handed,
                self.receiver_handed == old(self).receiver_handed,
            decreases count - j,
        {
            let choice = rng_next_bool(&mut self.prg);
            self.choices.push(choice);
            assert(self.choices@.take(start as int) =~= old_choices);
            j = j + 1;
        }
        let mut k: usize = start;
        while k < start + count
            invariant
                start <= k <= start + count,
                start + count <= usize::MAX,
                self.keys.len() == start + count,
                self.choices.len() == start + count,
                self.msgs.len() == k,
                self.keys@.take(start as int) == old_keys,
                self.choices@.take(start as int) == old_choices,
                self.msgs@.take(start as int) == old_msgs,
                self.delta == old(self).delta,
                self.sender_state == old(self).sender_state,
                self.receiver_state == old(self).receiver_state,
                self.aligned == old(self).aligned,
                self.sender_handed == old(self).sender_handed,
                self.receiver_handed == old(self).receiver_handed,
                forall|m: int|
                    start <= m < k ==> (#[trigger] self.msgs@[m]).value() == auth_value(
                        self.keys@[m].value(),
                        self.choices@[m],
                        self.delta.value(),
                    ),
            decreases start + count - k,
        {
            let key = self.keys[k];
            let msg = if self.choices[k] { key.xor(&self.delta) } else { key };
            self.msgs.push(msg);
            assert(self.msgs@.take(start as int) =~= old_msgs);
            k = k + 1;
        }
        proof {
            assert forall|m: int| 0 <= m < self.keys.len() implies (#[trigger] self.msgs@[m]).value()
                == auth_value(self.keys@[m].value(), self.choices@[m], self.delta.value()) by {
                if m < start {
                    assert(self.msgs@[m] == old_msgs[m]);
                    assert(self.keys@[m] == old_keys[m]);
                    assert(self.choices@[m] == old_choices[m]);
                }
            }
        }
    }

    /// Flushes pending operations: deals the allocated RCOTs, makes them
    /// available, and answers the queued transfers, the sender's first.
    pub fn flush(&mut self) -> (r: Result<(), IdealRCOTError>)
        requires
            old(self).wf(),
            old(self).sender_current() == old(self).receiver_current(),
            old(self).sender_alloc() == old(self).receiver_alloc(),
            old(self).dealt() + old(self).sender_alloc() <= usize::MAX,
            old(self).sender_available() + old(self).sender_alloc() <= usize::MAX,
            old(self).receiver_available() + old(self).receiver_alloc() <= usize::MAX,
            old(self).sender_id() + old(self).sender_queue().len() <= u64::MAX,
            old(self).receiver_id() + old(self).receiver_queue().len() <= u64::MAX,
        ensures
            final(self).wf(),
            final(self).delta_value() == old(self).delta_value(),
            final(self).dealt() == old(self).dealt() + old(self).sender_alloc(),
            final(self).key_values().take(old(self).dealt() as int) == old(self).key_values(),
            final(self).msg_values().take(old(self).dealt() as int) == old(self).msg_values(),
            final(self).choice_bits().take(old(self).dealt() as int) == old(self).choice_bits(),
            r is Ok <==> old(self).flush_outcome() is Some,
            r is Ok ==> (old(self).flush_outcome() matches Some(o) && {
                &&& final(self).sender_counts() == o.0.0
                &&& final(self).sender_available() == o.0.1
                &&& final(self).sender_current() == old(self).sender_current() + old(self).sender_available() + old(self).sender_alloc() - o.0.1
                &&& final(self).receiver_counts() == o.1.0
                &&& final(self).receiver_available() == o.1.1
                &&& final(self).receiver_current() == old(self).receiver_current() + old(self).receiver_available() + old(self).receiver_alloc() - o.1.1
            }),
            r is Ok ==> final(self).sender_alloc() == 0 && final(self).receiver_alloc() == 0
                && final(self).sender_queue() == Seq::<usize>::empty() && final(self).receiver_queue() == Seq::<usize>::empty() && final(self).sender_id() == old(self).sender_id() + old(self).sender_queue().len() && final(self).receiver_id() == old(self).receiver_id() + old(self).receiver_queue().len(),
            r is Ok ==> final(self).in_step() == old(self).in_step(),
            r is Ok ==> final(self).sender_answers() == old(self).sender_answers()
                + queued_send_answers(
                old(self).sender_id(),
                old(self).sender_current(),
                final(self).key_values(),
                old(self).sender_queue(),
            ),
            r is Ok ==> final(self).receiver_answers() == old(self).receiver_answers()
                + queued_recv_answers(
                old(self).receiver_id(),
                old(self).receiver_current(),
                final(self).choice_bits(),
                final(self).msg_values(),
                old(self).receiver_queue(),
            ),
    {
        let count = self.sender_state.alloc;
        self.deal(count);
        self.sender_state.alloc = 0;
        self.sender_state.available = self.sender_state.available + count;
        self.receiver_state.alloc = 0;
        self.receiver_state.available = self.receiver_state.available + count;
        let ghost dealt = *self;
        proof {
            assert(block_values(self.keys@).take(old(self).keys.len() as int) =~= block_values(
                old(self).keys@,
            ));
            assert(block_values(self.msgs@).take(old(self).keys.len() as int) =~= block_values(
                old(self).msgs@,
            ));
        }

        // Answer the sender's queued transfers.
        let mut queue: Vec<RCOTSendPending<Block>> = Vec::new();
        std::mem::swap(&mut queue, &mut self.sender_state.queue);
        let ghost q = old(self).sender_queue();
        let ghost n = q.len();
        proof {
            assert(send_queue_counts(queue@) =~= q);
            assert(q.take(0) =~= Seq::<usize>::empty());
        }
        while queue.len() > 0
            invariant
                self.wf(),
                self.in_step() == old(self).in_step(),
                n == q.len(),
                q == old(self).sender_queue(),
                dealt.delta_value() == old(self).delta_value(),
                dealt.dealt() == old(self).dealt() + old(self).sender_alloc(),
                dealt.key_values().take(old(self).dealt() as int) == old(self).key_values(),
                dealt.msg_values().take(old(self).dealt() as int) == old(self).msg_values(),
                dealt.choice_bits().take(old(self).dealt() as int) == old(self).choice_bits(),
                dealt.receiver_counts() == old(self).receiver_counts(),
                dealt.receiver_available() == old(self).receiver_available() + old(self).receiver_alloc(),
                dealt.receiver_current() == old(self).receiver_current(),
                dealt.receiver_id() == old(self).receiver_id(),
                dealt.receiver_alloc() == 0,
                dealt.receiver_queue() == old(self).receiver_queue(),
                queue.len() <= n,
                send_queue_counts(queue@) == q.skip(n - queue.len()),
                queue_outcome(
                    old(self).sender_counts(),
                    old(self).sender_available() + old(self).sender_alloc(),
                    old(self).receiver_counts(),
                    q.take(n - queue.len()),
                ) == Some((self.sender_counts(), self.sender_available())),
                self.sender_id() == old(self).sender_id() + (n - queue.len()),
                old(self).sender_id() + n <= u64::MAX,
                self.sender_current() + self.sender_available() == old(self).sender_current()
                    + old(self).sender_available() + old(self).sender_alloc(),
                self.sender_alloc() == 0,
                self.sender_queue() == Seq::<usize>::empty(),
                self.same_receiver(&dealt),
                self.same_dealt(&dealt),
                dealt.sender_answers() == old(self).sender_answers(),
                dealt.sender_current() == old(self).sender_current(),
                dealt.receiver_answers() == old(self).receiver_answers(),
                self.sender_current() == old(self).sender_current() + counts_total(
                    q.take(n - queue.len()),
                ),
                self.sender_answers() == old(self).sender_answers() + queued_send_answers(
                    old(self).sender_id(),
                    old(self).sender_current(),
                    dealt.key_values(),
                    q.take(n - queue.len()),
                ),
            decreases queue.len(),
        {
            let ghost k = n - queue.len();
            let ghost before = queue@;
            proof {
                assert(send_queue_counts(before)[0] == q.skip(k)[0]);
            }
            let pending = queue.remove(0);
            proof {
                assert(pending == before[0]);
                assert(send_queue_counts(before)[0] == before[0].wanted());
                assert(before.len() == q.len() - k);
                assert(q[k] == pending.wanted());
                assert forall|j: int| 0 <= j < queue@.len() implies #[trigger] send_queue_counts(queue@)[j]
                    == q.skip(k + 1)[j] by {
                    assert(queue@[j] == before[j + 1]);
                    assert(send_queue_counts(before)[j + 1] == q.skip(k)[j + 1]);
                }
                assert(send_queue_counts(queue@) =~= q.skip(k + 1));
                assert(q.take(k + 1).drop_last() =~= q.take(k));
                assert(q.take(k + 1).last() == q[k]);
            }
            let c = pending.count();
            let ghost pre = *self;
            match self.try_send_rcot(c) {
                Ok(output) => {
                    let handed = pending.send(output);
                    self.sender_handed = Ghost(
                        self.sender_handed@.push((handed@.id.value(), block_values(handed@.keys@))),
                    );
                    proof {
                        lemma_counts_total_push(q.take(k), c);
                        let t = q.take(k + 1);
                        assert(t.drop_last() =~= q.take(k));
                        assert(t.last() == c);
                        assert(self.sender_answers() =~= old(self).sender_answers()
                            + queued_send_answers(
                            old(self).sender_id(),
                            old(self).sender_current(),
                            dealt.key_values(),
                            t,
                        ));
                    }
                },
                Err(e) => {
                    proof {
                        lemma_queue_outcome_fails(
                            old(self).sender_counts(),
                            old(self).sender_available() + old(self).sender_alloc(),
                            old(self).receiver_counts(),
                            q,
                            k + 1,
                        );
                        assert(old(self).flush_outcome() is None);
                    }
                    return Err(e);
                },
            }
        }
        proof {
            assert(q.take(n as int) =~= q);
        }
        let ghost sent = *self;

        // Answer the receiver's queued transfers.
        let mut rqueue: Vec<RCOTRecvPending<bool, Block>> = Vec::new();
        std::mem::swap(&mut rqueue, &mut self.receiver_state.queue);
        let ghost p = old(self).receiver_queue();
        let ghost m = p.len();
        proof {
            assert(recv_queue_counts(rqueue@) =~= p);
            assert(p.take(0) =~= Seq::<usize>::empty());
        }
        while rqueue.len() > 0
            invariant
                self.wf(),
                self.in_step() == old(self).in_step(),
                m == p.len(),
                p == old(self).receiver_queue(),
                dealt.delta_value() == old(self).delta_value(),
                dealt.dealt() == old(self).dealt() + old(self).sender_alloc(),
                dealt.key_values().take(old(self).dealt() as int) == old(self).key_values(),
                dealt.msg_values().take(old(self).dealt() as int) == old(self).msg_values(),
                dealt.choice_bits().take(old(self).dealt() as int) == old(self).choice_bits(),
                dealt.receiver_counts() == old(self).receiver_counts(),
                dealt.receiver_available() == old(self).receiver_available() + old(self).receiver_alloc(),
                dealt.receiver_current() == old(self).receiver_current(),
                dealt.receiver_id() == old(self).receiver_id(),
                dealt.receiver_alloc() == 0,
                dealt.receiver_queue() == old(self).receiver_queue(),
                sent.sender_alloc() == 0,
                queue_outcome(
                    old(self).sender_counts(),
                    old(self).sender_available() + old(self).sender_alloc(),
                    old(self).receiver_counts(),
                    old(self).sender_queue(),
                ) == Some((sent.sender_counts(), sent.sender_available())),
                rqueue.len() <= m,
                recv_queue_counts(rqueue@) == p.skip(m - rqueue.len()),
                queue_outcome(
                    old(self).receiver_counts(),
                    old(self).receiver_available() + old(self).receiver_alloc(),
                    sent.sender_counts(),
                    p.take(m - rqueue.len()),
                ) == Some((self.receiver_counts(), self.receiver_available())),
                self.receiver_id() == old(self).receiver_id() + (m - rqueue.len()),
                old(self).receiver_id() + m <= u64::MAX,
                self.receiver_current() + self.receiver_available() == old(self).receiver_current()
                    + old(self).receiver_available() + old(self).receiver_alloc(),
                self.receiver_alloc() == 0,
                self.receiver_queue() == Seq::<usize>::empty(),
                self.same_sender(&sent),
                self.same_dealt(&dealt),
                sent.sender_answers() == old(self).sender_answers() + queued_send_answers(
                    old(self).sender_id(),
                    old(self).sender_current(),
                    dealt.key_values(),
                    old(self).sender_queue(),
                ),
                self.receiver_current() == old(self).receiver_current() + counts_total(
                    p.take(m - rqueue.len()),
                ),
                self.receiver_answers() == old(self).receiver_answers() + queued_recv_answers(
                    old(self).receiver_id(),
                    old(self).receiver_current(),
                    dealt.choice_bits(),
                    dealt.msg_values(),
                    p.take(m - rqueue.len()),
                ),
            decreases rqueue.len(),
        {
            let ghost k = m - rqueue.len();
            let ghost before = rqueue@;
            proof {
                assert(recv_queue_counts(before)[0] == p.skip(k)[0]);
            }
            let pending = rqueue.remove(0);
            proof {
                assert(pending == before[0]);
                assert(recv_queue_counts(before)[0] == before[0].wanted());
                assert(before.len() == p.len() - k);
                assert(p[k] == pending.wanted());
                assert forall|j: int| 0 <= j < rqueue@.len() implies #[trigger] recv_queue_counts(rqueue@)[j]
                    == p.skip(k + 1)[j] by {
                    assert(rqueue@[j] == before[j + 1]);
                    assert(recv_queue_counts(before)[j + 1] == p.skip(k)[j + 1]);
                }
                assert(recv_queue_counts(rqueue@) =~= p.skip(k + 1));
                assert(p.take(k + 1).drop_last() =~= p.take(k));
                assert(p.take(k + 1).last() == p[k]);
            }
            let c = pending.count();
            match self.try_recv_rcot(c) {
                Ok(output) => {
                    let handed = pending.send(output);
                    self.receiver_handed = Ghost(
                        self.receiver_handed@.push(
                            (handed@.id.value(), handed@.choices@, block_values(handed@.msgs@)),
                        ),
                    );
                    proof {
                        lemma_counts_total_push(p.take(k), c);
                        let t = p.take(k + 1);
                        assert(t.drop_last() =~= p.take(k));
                        assert(t.last() == c);
                        assert(self.receiver_answers() =~= old(self).receiver_answers()
                            + queued_recv_answers(
                            old(self).receiver_id(),
                            old(self).receiver_current(),
                            dealt.choice_bits(),
                            dealt.msg_values(),
                            t,
                        ));
                    }
                },
                Err(e) => {
                    proof {
                        lemma_queue_outcome_fails(
                            old(self).receiver_counts(),
                            old(self).receiver_available() + old(self).receiver_alloc(),
                            sent.sender_counts(),
                            p,
                            k + 1,
                        );
                        assert(old(self).flush_outcome() is None);
                    }
                    return Err(e);
                },
            }
        }
        proof {
            assert(p.take(m as int) =~= p);
        }

        Ok(())
    }
}

impl Default for IdealRCOT {
    fn default() -> (r: Self)
        ensures
            r.wf(),
            r.dealt() == 0,
            r.sender_alloc() == 0 && r.receiver_alloc() == 0,
            r.sender_id() == 0 && r.receiver_id() == 0,
            r.sender_available() == 0 && r.receiver_available() == 0,
            r.sender_current() == 0 && r.receiver_current() == 0,
            r.sender_counts() == Seq::<usize>::empty(),
            r.receiver_counts() == Seq::<usize>::empty(),
            r.sender_queue() == Seq::<usize>::empty(),
            r.receiver_queue() == Seq::<usize>::empty(),
            r.in_step(),
            r.sender_answers() == Seq::<(nat, Seq<u128>)>::empty(),
            r.receiver_answers() == Seq::<(nat, Seq<bool>, Seq<u128>)>::empty(),
    {
        let mut rng = rng_seed_from_u64(0);
        let seed = Block::new(rng_next_u128(&mut rng));
        let delta = Block::new(rng_next_u128(&mut rng));
        Self::new(seed, delta)
    }
}

} // verus!
