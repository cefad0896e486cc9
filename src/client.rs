//! The slot client: version bookkeeping for writes, and decoding and filtering
//! of what reads bring back.
use vstd::prelude::*;
use crate::message::{
    MessageSlotID, MessageView, Packet, SignerMessage, SignerMessageView, StackerDBMessage,
    decode_body, decode_signer_message, bytes_views, encodable, msg_id_of, encode_signer_message,
};
use crate::slot_cache::{SlotKey, SlotVersionCache, cache_entries};

verus! {

/// The rejection code a store gives when the written version is not newer
/// than the one it holds.
pub const VERSION_CONFLICT_CODE: u32 = 0;

/// A signer's exclusive write slot within a store instance.
#[derive(Clone, Copy, Debug, PartialEq, Eq, Structural)]
pub struct SignerSlotID(pub u32);

/// What the store reports of a slot when it refuses a write.
#[derive(Clone, Copy, Debug, PartialEq, Eq, Structural)]
pub struct SlotMetadata {
    pub slot_id: u32,
    pub slot_version: u32,
}

/// The store's answer to a write.
pub struct StackerDBChunkAckData {
    pub accepted: bool,
    pub reason: Option<String>,
    pub metadata: Option<SlotMetadata>,
    pub code: Option<u32>,
}

/// Why an operation of the client failed.
pub enum ClientError {
    /// The store refused a write for a reason other than a stale version.
    PutChunkRejected(String),
    /// A read of one slot brought back no entry at all; holds the slot id.
    UnexpectedResponseFormat(u32),
    /// A write met as many version conflicts as it was allowed; holds that
    /// number.
    TooManyConflicts(u32),
}

// ----- write path -----

/// The cache key of a category and a slot.
pub open spec fn cache_key(msg_id: MessageSlotID, slot_id: u32) -> SlotKey {
    (msg_id.spec_index(), slot_id)
}

/// `v + 1`, held at the largest `u32`.
pub open spec fn saturating_inc(v: u32) -> u32 {
    if v == u32::MAX {
        v
    } else {
        (v + 1) as u32
    }
}

/// The version a write to slot `k` uses when it starts: the cached one, or 1
/// for a slot that the cache does not know.
pub open spec fn attempt_version(m: Map<SlotKey, u32>, k: SlotKey) -> u32 {
    if m.contains_key(k) {
        m[k]
    } else {
        1
    }
}

/// The cache once a write to `k` has started: an unknown slot is seeded at 0.
pub open spec fn seeded(m: Map<SlotKey, u32>, k: SlotKey) -> Map<SlotKey, u32> {
    if m.contains_key(k) {
        m
    } else {
        m.insert(k, 0)
    }
}

/// Whether the store refused a write because its version was stale.
pub open spec fn is_version_conflict(ack: StackerDBChunkAckData) -> bool {
    !ack.accepted && ack.code == Some(VERSION_CONFLICT_CODE)
}

/// The version cached for the slot once the answer to a write with version
/// `attempted` has been handled.
pub open spec fn version_after_ack(attempted: u32, ack: StackerDBChunkAckData) -> u32 {
    if is_version_conflict(ack) && ack.metadata.is_some() {
        saturating_inc(ack.metadata.unwrap().slot_version)
    } else {
        saturating_inc(attempted)
    }
}

/// The version of the next attempt after a version conflict: the store's own,
/// where it reported one, else the one after the attempted version.
pub open spec fn retry_version(attempted: u32, ack: StackerDBChunkAckData) -> u32 {
    match ack.metadata {
        Some(md) => md.slot_version,
        None => saturating_inc(attempted),
    }
}

/// The text of a refused write's error.
pub open spec fn rejection_text(ack: StackerDBChunkAckData) -> Seq<char> {
    match ack.reason {
        Some(s) => s@,
        None => "No reason given"@,
    }
}

// ----- read path -----

/// A vector with the same bytes as `b`.
pub fn copy_all(b: &Vec<u8>) -> (r: Vec<u8>)
    ensures
        r@ == b@,
{
    crate::wire::copy_range(b, 0, b.len())
}

/// The messages that a batch of slot contents holds for `epoch`, in slot
/// order: absent slots, bytes that are no message and messages of another
/// epoch are left out.
pub open spec fn messages_in(chunks: Seq<Option<Vec<u8>>>, epoch: u64) -> Seq<SignerMessageView>
    decreases chunks.len(),
{
    if chunks.len() == 0 {
        Seq::empty()
    } else {
        let prev = messages_in(chunks.drop_last(), epoch);
        match chunks.last() {
            Some(b) => match decode_signer_message(b@) {
                Some(m) => if m.reward_cycle == epoch {
                    prev.push(m)
                } else {
                    prev
                },
                None => prev,
            },
            None => prev,
        }
    }
}

/// The packets among `msgs`, in order.
pub open spec fn packets_in(msgs: Seq<SignerMessageView>) -> Seq<(MessageSlotID, Seq<u8>)>
    decreases msgs.len(),
{
    if msgs.len() == 0 {
        Seq::empty()
    } else {
        let prev = packets_in(msgs.drop_last());
        match msgs.last().message {
            MessageView::Packet(stage, body) => prev.push((stage, body)),
            _ => prev,
        }
    }
}

/// All transactions of the transaction lists among `msgs`, in order.
pub open spec fn transactions_in(msgs: Seq<SignerMessageView>) -> Seq<Seq<u8>>
    decreases msgs.len(),
{
    if msgs.len() == 0 {
        Seq::empty()
    } else {
        let prev = transactions_in(msgs.drop_last());
        match msgs.last().message {
            MessageView::Transactions(txs) => prev + txs,
            _ => prev,
        }
    }
}

/// The key-generation categories in the order the protocol runs them.
pub open spec fn dkg_stage(i: int) -> MessageSlotID {
    if i == 0 {
        MessageSlotID::DkgBegin
    } else if i == 1 {
        MessageSlotID::DkgPublicShares
    } else if i == 2 {
        MessageSlotID::DkgPrivateBegin
    } else if i == 3 {
        MessageSlotID::DkgPrivateShares
    } else if i == 4 {
        MessageSlotID::DkgEndBegin
    } else {
        MessageSlotID::DkgEnd
    }
}

/// The packets for `epoch` in the responses read from category `id`, in the
/// order those responses came.
pub open spec fn category_packets(
    responses: Seq<(MessageSlotID, Vec<Option<Vec<u8>>>)>,
    id: MessageSlotID,
    epoch: u64,
) -> Seq<(MessageSlotID, Seq<u8>)>
    decreases responses.len(),
{
    if responses.len() == 0 {
        Seq::empty()
    } else {
        let prev = category_packets(responses.drop_last(), id, epoch);
        if responses.last().0 == id {
            prev + packets_in(messages_in(responses.last().1@, epoch))
        } else {
            prev
        }
    }
}

/// The packets of the first `k` key-generation categories, category by
/// category in protocol order.
pub open spec fn dkg_packets_upto(
    responses: Seq<(MessageSlotID, Vec<Option<Vec<u8>>>)>,
    epoch: u64,
    k: nat,
) -> Seq<(MessageSlotID, Seq<u8>)>
    decreases k,
{
    if k == 0 {
        Seq::empty()
    } else {
        dkg_packets_upto(responses, epoch, (k - 1) as nat) + category_packets(
            responses,
            dkg_stage(k - 1),
            epoch,
        )
    }
}

/// The views of a sequence of packets.
pub open spec fn packet_views(v: Seq<Packet>) -> Seq<(MessageSlotID, Seq<u8>)> {
    v.map_values(|p: Packet| p@)
}

/// The views of a sequence of signer messages.
pub open spec fn message_views(v: Seq<SignerMessage>) -> Seq<SignerMessageView> {
    v.map_values(|m: SignerMessage| m@)
}

/// The epoch after `epoch`, wrapping at the largest `u64`.
pub open spec fn next_epoch(epoch: u64) -> u64 {
    if epoch == u64::MAX {
        0
    } else {
        (epoch + 1) as u64
    }
}

/// The client of one signer: its slot, its reward cycle, and the next version
/// it means to write into each of its slots.
pub struct StackerDB {
    slot_versions: SlotVersionCache,
    signer_slot_id: SignerSlotID,
    reward_cycle: u64,
}

impl StackerDB {
    /// The cache of next versions.
    pub closed spec fn versions(&self) -> Map<SlotKey, u32> {
        cache_entries(self.slot_versions)
    }

    pub closed spec fn spec_slot_id(&self) -> u32 {
        self.signer_slot_id.0
    }

    pub closed spec fn spec_reward_cycle(&self) -> u64 {
        self.reward_cycle
    }

    /// A client for the signer in `signer_slot_id` during `reward_cycle`, that
    /// knows no version yet.
    pub fn new(reward_cycle: u64, signer_slot_id: SignerSlotID) -> (r: StackerDB)
        ensures
            forall|k: SlotKey| !r.versions().contains_key(k),
            r.spec_slot_id() == signer_slot_id.0,
            r.spec_reward_cycle() == reward_cycle,
    {
        StackerDB { slot_versions: SlotVersionCache::new(), signer_slot_id, reward_cycle }
    }

    /// The signer set of this client's reward cycle: the cycle's parity.
    pub fn get_signer_set(&self) -> (r: u32)
        ensures
            r as int == self.spec_reward_cycle() as int % 2,
    {
        (self.reward_cycle % 2) as u32
    }

    /// This client's slot.
    pub fn get_signer_slot_id(&self) -> (r: SignerSlotID)
        ensures
            r.0 == self.spec_slot_id(),
    {
        self.signer_slot_id
    }

    /// This client's reward cycle.
    pub fn get_reward_cycle(&self) -> (r: u64)
        ensures
            r == self.spec_reward_cycle(),
    {
        self.reward_cycle
    }

    /// Starts a write of category `msg_id` into this client's slot: the
    /// version to write with. A slot that the cache does not know is seeded at
    /// 0 and written with version 1.
    pub fn next_slot_version(&mut self, msg_id: MessageSlotID) -> (r: u32)
        ensures
            r == attempt_version(old(self).versions(), cache_key(msg_id, old(self).spec_slot_id())),
            final(self).versions() == seeded(
                old(self).versions(),
                cache_key(msg_id, old(self).spec_slot_id()),
            ),
            final(self).spec_slot_id() == old(self).spec_slot_id(),
            final(self).spec_reward_cycle() == old(self).spec_reward_cycle(),
    {
        let key: SlotKey = (msg_id.index(), self.signer_slot_id.0);
        match self.slot_versions.get(key) {
            Some(version) => version,
            None => {
                self.slot_versions.insert(key, 0);
                1
            },
        }
    }

    /// Takes in the store's answer to a write of category `msg_id` with
    /// version `attempted`. The cached version moves past the attempted one,
    /// or past the store's own after a version conflict that reports it.
    /// `Ok(None)`: the write was accepted. `Ok(Some(v))`: a version conflict,
    /// to be retried with version `v`. `Err`: any other refusal, not to be
    /// retried.
    pub fn handle_chunk_ack(
        &mut self,
        msg_id: MessageSlotID,
        attempted: u32,
        ack: &StackerDBChunkAckData,
    ) -> (r: Result<Option<u32>, ClientError>)
        ensures
            final(self).versions() == old(self).versions().insert(
                cache_key(msg_id, old(self).spec_slot_id()),
                version_after_ack(attempted, *ack),
            ),
            final(self).spec_slot_id() == old(self).spec_slot_id(),
            final(self).spec_reward_cycle() == old(self).spec_reward_cycle(),
            ack.accepted ==> r == Ok::<Option<u32>, ClientError>(None),
            is_version_conflict(*ack) ==> r == Ok::<Option<u32>, ClientError>(
                Some(retry_version(attempted, *ack)),
            ),
            !ack.accepted && !is_version_conflict(*ack) ==> (match r {
                Err(ClientError::PutChunkRejected(s)) => s@ == rejection_text(*ack),
                _ => false,
            }),
    {
        let key: SlotKey = (msg_id.index(), self.signer_slot_id.0);
        let advanced = attempted.saturating_add(1);
        self.slot_versions.insert(key, advanced);
        if ack.accepted {
            return Ok(None);
        }
        if ack.code == Some(VERSION_CONFLICT_CODE) {
            match ack.metadata {
                Some(md) => {
                    self.slot_versions.insert(key, md.slot_version.saturating_add(1));
                    Ok(Some(md.slot_version))
                },
                None => Ok(Some(advanced)),
            }
        } else {
            let reason = match &ack.reason {
                Some(s) => s.clone(),
                None => String::from_str("No reason given"),
            };
            Err(ClientError::PutChunkRejected(reason))
        }
    }

    /// The category that `message` is written to, and its wire form wrapped
    /// with this client's reward cycle.
    pub fn envelope(&self, message: StackerDBMessage) -> (r: (MessageSlotID, Vec<u8>))
        requires
            encodable(message@),
        ensures
            r.0 == msg_id_of(message@),
            r.1@ == encode_signer_message(
                (SignerMessageView { reward_cycle: self.spec_reward_cycle(), message: message@ }),
            ),
    {
        let msg_id = message.msg_id();
        let signer_message = SignerMessage { reward_cycle: self.reward_cycle, message };
        (msg_id, signer_message.serialize_to_vec())
    }

    /// Whether a write that has met `conflicts` version conflicts may be
    /// retried once more under `max_conflicts` (none: no bound). Once the
    /// bound is reached the write ends with `TooManyConflicts`.
    pub fn check_conflict_budget(conflicts: u32, max_conflicts: Option<u32>) -> (r: Result<
        (),
        ClientError,
    >)
        ensures
            match max_conflicts {
                Some(max) => if conflicts >= max {
                    r == Err::<(), ClientError>(ClientError::TooManyConflicts(conflicts))
                } else {
                    r == Ok::<(), ClientError>(())
                },
                None => r == Ok::<(), ClientError>(()),
            },
    {
        match max_conflicts {
            Some(max) => if conflicts >= max {
                Err(ClientError::TooManyConflicts(conflicts))
            } else {
                Ok(())
            },
            None => Ok(()),
        }
    }

    /// The messages for `reward_cycle` among the contents of a batch of
    /// slots, in slot order. An absent slot, bytes that are no message, and a
    /// message of another cycle are skipped.
    pub fn get_messages(chunks: &Vec<Option<Vec<u8>>>, reward_cycle: u64) -> (r: Vec<SignerMessage>)
        ensures
            message_views(r@) == messages_in(chunks@, reward_cycle),
    {
        let mut messages: Vec<SignerMessage> = Vec::new();
        let mut i: usize = 0;
        while i < chunks.len()
            invariant
                i <= chunks@.len(),
                message_views(messages@) == messages_in(chunks@.subrange(0, i as int), reward_cycle),
            decreases chunks@.len() - i,
        {
            let ghost prev = messages@;
            assert(chunks@.subrange(0, i + 1).drop_last() =~= chunks@.subrange(0, i as int));
            match &chunks[i] {
                Some(data) => {
                    match SignerMessage::from_bytes(data) {
                        Some(message) => {
                            if message.reward_cycle == reward_cycle {
                                messages.push(message);
                                assert(message_views(messages@) =~= message_views(prev).push(
                                    message@,
                                ));
                            }
                        },
                        None => {},
                    }
                },
                None => {},
            }
            i = i + 1;
        }
        assert(chunks@.subrange(0, i as int) =~= chunks@);
        messages
    }

    /// The transactions of the transaction lists for `reward_cycle` in a batch
    /// of slots, flattened in slot order.
    pub fn get_transactions(chunks: &Vec<Option<Vec<u8>>>, reward_cycle: u64) -> (r: Vec<Vec<u8>>)
        ensures
            bytes_views(r@) == transactions_in(messages_in(chunks@, reward_cycle)),
    {
        let messages = StackerDB::get_messages(chunks, reward_cycle);
        let ghost msgs = message_views(messages@);
        let mut transactions: Vec<Vec<u8>> = Vec::new();
        let mut i: usize = 0;
        let n = messages.len();
        while i < n
            invariant
                n == msgs.len(),
                i <= n,
                messages@.len() == n,
                message_views(messages@) == msgs,
                bytes_views(transactions@) == transactions_in(msgs.subrange(0, i as int)),
            decreases n - i,
        {
            assert(msgs.subrange(0, i + 1).drop_last() =~= msgs.subrange(0, i as int));
            assert(msgs[i as int] == messages@[i as int]@);
            let ghost prev = transactions@;
            match &messages[i].message {
                StackerDBMessage::Transactions(txs) => {
                    let mut j: usize = 0;
                    while j < txs.len()
                        invariant
                            j <= txs@.len(),
                            bytes_views(transactions@) == bytes_views(prev) + bytes_views(
                                txs@,
                            ).subrange(0, j as int),
                        decreases txs@.len() - j,
                    {
                        let ghost before = transactions@;
                        transactions.push(copy_all(&txs[j]));
                        assert(bytes_views(transactions@) =~= bytes_views(before).push(
                            txs@[j as int]@,
                        ));
                        assert(bytes_views(txs@)[j as int] == txs@[j as int]@);
                        assert(bytes_views(transactions@) =~= bytes_views(prev) + bytes_views(
                            txs@,
                        ).subrange(0, j + 1));
                        j = j + 1;
                    }
                    assert(bytes_views(txs@).subrange(0, j as int) =~= bytes_views(txs@));
                },
                _ => {},
            }
            i = i + 1;
        }
        assert(msgs.subrange(0, i as int) =~= msgs);
        transactions
    }

    /// This signer's own transactions for the current reward cycle, from the
    /// contents of its transaction slot.
    pub fn get_current_transactions(&self, chunks: &Vec<Option<Vec<u8>>>) -> (r: Vec<Vec<u8>>)
        ensures
            bytes_views(r@) == transactions_in(messages_in(chunks@, self.spec_reward_cycle())),
    {
        StackerDB::get_transactions(chunks, self.reward_cycle)
    }

    /// The transactions that signers wrote for the next reward cycle, from
    /// the contents of their slots in that cycle's transaction store.
    pub fn get_next_transactions(&self, chunks: &Vec<Option<Vec<u8>>>) -> (r: Vec<Vec<u8>>)
        ensures
            bytes_views(r@) == transactions_in(
                messages_in(chunks@, next_epoch(self.spec_reward_cycle())),
            ),
    {
        let next = if self.reward_cycle == u64::MAX {
            0
        } else {
            self.reward_cycle + 1
        };
        StackerDB::get_transactions(chunks, next)
    }

    /// The reward cycle whose transactions `get_next_transactions` reads.
    pub fn next_reward_cycle(&self) -> (r: u64)
        ensures
            r == next_epoch(self.spec_reward_cycle()),
    {
        if self.reward_cycle == u64::MAX {
            0
        } else {
            self.reward_cycle + 1
        }
    }

    /// The packets among `messages`, in order.
    fn packets_of(messages: &Vec<SignerMessage>) -> (r: Vec<Packet>)
        ensures
            packet_views(r@) == packets_in(message_views(messages@)),
    {
        let ghost msgs = message_views(messages@);
        let mut packets: Vec<Packet> = Vec::new();
        let mut i: usize = 0;
        while i < messages.len()
            invariant
                i <= messages@.len(),
                msgs == message_views(messages@),
                packet_views(packets@) == packets_in(msgs.subrange(0, i as int)),
            decreases messages@.len() - i,
        {
            assert(msgs.subrange(0, i + 1).drop_last() =~= msgs.subrange(0, i as int));
            assert(msgs[i as int] == messages@[i as int]@);
            let ghost prev = packets@;
            match &messages[i].message {
                StackerDBMessage::Packet(p) => {
                    let copy = Packet { stage: p.stage, body: copy_all(&p.body) };
                    packets.push(copy);
                    assert(packet_views(packets@) =~= packet_views(prev).push(p@));
                },
                _ => {},
            }
            i = i + 1;
        }
        assert(msgs.subrange(0, i as int) =~= msgs);
        packets
    }

    /// The packets for `epoch` in the responses read from category `id`.
    fn category_packets_of(
        responses: &Vec<(MessageSlotID, Vec<Option<Vec<u8>>>)>,
        id: MessageSlotID,
        epoch: u64,
    ) -> (r: Vec<Packet>)
        ensures
            packet_views(r@) == category_packets(responses@, id, epoch),
    {
        let mut packets: Vec<Packet> = Vec::new();
        let mut j: usize = 0;
        while j < responses.len()
            invariant
                j <= responses@.len(),
                packet_views(packets@) == category_packets(
                    responses@.subrange(0, j as int),
                    id,
                    epoch,
                ),
            decreases responses@.len() - j,
        {
            assert(responses@.subrange(0, j + 1).drop_last() =~= responses@.subrange(0, j as int));
            let ghost prev = packets@;
            if responses[j].0 == id {
                let messages = StackerDB::get_messages(&responses[j].1, epoch);
                let mut found = StackerDB::packets_of(&messages);
                let ghost added = found@;
                packets.append(&mut found);
                assert(packet_views(packets@) =~= packet_views(prev) + packet_views(added));
            }
            j = j + 1;
        }
        assert(responses@.subrange(0, j as int) =~= responses@);
        packets
    }

    /// The key-generation packets of this reward cycle, category by category
    /// in protocol order (begin, public shares, private begin, private shares,
    /// end begin, end), and within a category in the order the responses and
    /// their slots came. `responses` pairs each category read with what its
    /// slots held.
    pub fn get_dkg_packets(&self, responses: &Vec<(MessageSlotID, Vec<Option<Vec<u8>>>)>) -> (r:
        Vec<Packet>)
        ensures
            packet_views(r@) == dkg_packets_upto(responses@, self.spec_reward_cycle(), 6),
    {
        let mut packets: Vec<Packet> = Vec::new();
        let mut k: usize = 0;
        while k < 6
            invariant
                k <= 6,
                packet_views(packets@) == dkg_packets_upto(
                    responses@,
                    self.spec_reward_cycle(),
                    k as nat,
                ),
            decreases 6 - k,
        {
            let stage = if k == 0 {
                MessageSlotID::DkgBegin
            } else if k == 1 {
                MessageSlotID::DkgPublicShares
            } else if k == 2 {
                MessageSlotID::DkgPrivateBegin
            } else if k == 3 {
                MessageSlotID::DkgPrivateShares
            } else if k == 4 {
                MessageSlotID::DkgEndBegin
            } else {
                MessageSlotID::DkgEnd
            };
            let ghost prev = packets@;
            let mut found = StackerDB::category_packets_of(responses, stage, self.reward_cycle);
            let ghost added = found@;
            packets.append(&mut found);
            assert(packet_views(packets@) =~= packet_views(prev) + packet_views(added));
            k = k + 1;
        }
        packets
    }

    /// The encrypted state in the one slot read for `signer_id`. No state
    /// where the slot is absent or empty, holds bytes that are no message, or
    /// holds a message of another kind; an error only where the read brought
    /// back no entry at all.
    pub fn get_encrypted_signer_state(
        &self,
        signer_id: SignerSlotID,
        response: Vec<Option<Vec<u8>>>,
    ) -> (r: Result<Option<Vec<u8>>, ClientError>)
        ensures
            response@.len() == 0 ==> r == Err::<Option<Vec<u8>>, ClientError>(
                ClientError::UnexpectedResponseFormat(signer_id.0),
            ),
            response@.len() > 0 ==> match response@.last() {
                None => r == Ok::<Option<Vec<u8>>, ClientError>(None),
                Some(chunk) => if chunk@.len() == 0 {
                    r == Ok::<Option<Vec<u8>>, ClientError>(None)
                } else {
                    match decode_body(chunk@) {
                        None => r == Ok::<Option<Vec<u8>>, ClientError>(None),
                        Some(MessageView::EncryptedSignerState(state)) => match r {
                            Ok(Some(v)) => v@ == state,
                            _ => false,
                        },
                        Some(_) => r == Ok::<Option<Vec<u8>>, ClientError>(None),
                    }
                },
            },
    {
        let mut response = response;
        let last = response.pop();
        match last {
            None => Err(ClientError::UnexpectedResponseFormat(signer_id.0)),
            Some(None) => Ok(None),
            Some(Some(chunk)) => {
                if chunk.len() == 0 {
                    return Ok(None);
                }
                match StackerDBMessage::from_bytes(&chunk) {
                    None => Ok(None),
                    Some(StackerDBMessage::EncryptedSignerState(state)) => Ok(Some(state)),
                    Some(_) => Ok(None),
                }
            },
        }
    }
}

} // verus!
