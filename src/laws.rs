//! Properties of the slot protocol, stated over the models that the client's
//! contracts use.
use vstd::prelude::*;
use crate::client::{
    StackerDBChunkAckData, attempt_version, seeded, version_after_ack, retry_version,
    is_version_conflict, messages_in, category_packets, dkg_packets_upto, dkg_stage,
};
use crate::message::{MessageSlotID, decode_signer_message};
use crate::slot_cache::SlotKey;

verus! {

/// The cache after one write to slot `k` for each answer in `acks`, in order:
/// each starts as `next_slot_version` does and ends as `handle_chunk_ack` does.
pub open spec fn after_writes(
    m: Map<SlotKey, u32>,
    k: SlotKey,
    acks: Seq<StackerDBChunkAckData>,
) -> Map<SlotKey, u32>
    decreases acks.len(),
{
    if acks.len() == 0 {
        m
    } else {
        let prev = after_writes(m, k, acks.drop_last());
        seeded(prev, k).insert(k, version_after_ack(attempt_version(prev, k), acks.last()))
    }
}

/// Writes into a slot that the cache does not know, all accepted, use the
/// versions 1, 2, 3, ... in turn: write `i` (from 0) uses version `i + 1`,
/// and after `n` of them the cache holds `n + 1` for the slot.
pub proof fn lemma_accepted_writes_count_up(
    m: Map<SlotKey, u32>,
    k: SlotKey,
    acks: Seq<StackerDBChunkAckData>,
)
    requires
        !m.contains_key(k),
        forall|i: int| 0 <= i < acks.len() ==> #[trigger] acks[i].accepted,
        acks.len() < u32::MAX,
    ensures
        forall|i: int|
            0 <= i <= acks.len() ==> attempt_version(#[trigger] after_writes(m, k, acks.subrange(0, i)), k)
                == i + 1,
        acks.len() > 0 ==> after_writes(m, k, acks).contains_key(k) && after_writes(m, k, acks)[k]
            == acks.len() + 1,
    decreases acks.len(),
{
    if acks.len() > 0 {
        let init = acks.drop_last();
        assert forall|i: int| 0 <= i < init.len() implies #[trigger] init[i].accepted by {
            assert(init[i] == acks[i]);
        }
        lemma_accepted_writes_count_up(m, k, init);
        assert forall|i: int|
            0 <= i <= acks.len() implies attempt_version(
            #[trigger] after_writes(m, k, acks.subrange(0, i)),
            k,
        ) == i + 1 by {
            if i < acks.len() {
                assert(acks.subrange(0, i) =~= init.subrange(0, i));
            } else {
                assert(acks.subrange(0, i) =~= acks);
                assert(init.subrange(0, init.len() as int) =~= init);
                let prev = after_writes(m, k, init.subrange(0, init.len() as int));
                assert(attempt_version(prev, k) == init.len() + 1);
                assert(acks[acks.len() - 1].accepted);
                assert(after_writes(m, k, acks) == seeded(prev, k).insert(
                    k,
                    version_after_ack(attempt_version(prev, k), acks.last()),
                ));
            }
        }
    }
}

/// After a version conflict whose answer reports the store's version `v`,
/// the next attempt uses exactly `v`; once that attempt is accepted, the
/// cache holds `v + 1`.
pub proof fn lemma_conflict_resynchronizes(
    m: Map<SlotKey, u32>,
    k: SlotKey,
    attempted: u32,
    ack: StackerDBChunkAckData,
    next_ack: StackerDBChunkAckData,
)
    requires
        is_version_conflict(ack),
        ack.metadata.is_some(),
        ack.metadata.unwrap().slot_version < u32::MAX,
        next_ack.accepted,
    ensures
        retry_version(attempted, ack) == ack.metadata.unwrap().slot_version,
        m.insert(k, version_after_ack(attempted, ack)).insert(
            k,
            version_after_ack(retry_version(attempted, ack), next_ack),
        )[k] == ack.metadata.unwrap().slot_version + 1,
{
}

/// Every message that a read keeps belongs to the epoch asked for.
pub proof fn lemma_messages_match_epoch(chunks: Seq<Option<Vec<u8>>>, epoch: u64)
    ensures
        forall|i: int|
            0 <= i < messages_in(chunks, epoch).len() ==> #[trigger] messages_in(
                chunks,
                epoch,
            )[i].reward_cycle == epoch,
    decreases chunks.len(),
{
    if chunks.len() > 0 {
        lemma_messages_match_epoch(chunks.drop_last(), epoch);
    }
}

/// A read of slots that are all absent, empty or undecodable keeps nothing.
pub proof fn lemma_nothing_readable_gives_nothing(chunks: Seq<Option<Vec<u8>>>, epoch: u64)
    requires
        forall|i: int|
            0 <= i < chunks.len() ==> (#[trigger] chunks[i]).is_none() || chunks[i].unwrap()@.len()
                == 0 || decode_signer_message(chunks[i].unwrap()@).is_none(),
    ensures
        messages_in(chunks, epoch) == Seq::<crate::message::SignerMessageView>::empty(),
    decreases chunks.len(),
{
    if chunks.len() > 0 {
        let init = chunks.drop_last();
        assert forall|i: int| 0 <= i < init.len() implies (#[trigger] init[i]).is_none()
            || init[i].unwrap()@.len() == 0 || decode_signer_message(init[i].unwrap()@).is_none() by {
            assert(init[i] == chunks[i]);
        }
        lemma_nothing_readable_gives_nothing(init, epoch);
        assert(chunks.last() == chunks[chunks.len() - 1]);
    }
}

/// Whether a response was read from category `id`.
pub open spec fn read_from(id: MessageSlotID) -> spec_fn((MessageSlotID, Vec<Option<Vec<u8>>>)) -> bool {
    |x: (MessageSlotID, Vec<Option<Vec<u8>>>)| x.0 == id
}

proof fn lemma_category_packets_filter(
    responses: Seq<(MessageSlotID, Vec<Option<Vec<u8>>>)>,
    id: MessageSlotID,
    epoch: u64,
)
    ensures
        category_packets(responses, id, epoch) == category_packets(
            responses.filter(read_from(id)),
            id,
            epoch,
        ),
    decreases responses.len(),
{
    if responses.len() > 0 {
        let init = responses.drop_last();
        lemma_category_packets_filter(init, id, epoch);
        let f = responses.filter(read_from(id));
        reveal(Seq::filter);
        assert(read_from(id)(responses.last()) == (responses.last().0 == id));
        if responses.last().0 == id {
            assert(f == init.filter(read_from(id)).push(responses.last()));
            assert(f.drop_last() =~= init.filter(read_from(id)));
        } else {
            assert(f == init.filter(read_from(id)));
        }
    }
}

/// The packets that key-generation aggregation returns depend on the
/// responses of each category alone, not on how the responses of different
/// categories interleave: categories come out in protocol order whatever
/// order they arrived in.
pub proof fn lemma_dkg_packets_ignore_arrival_order(
    r1: Seq<(MessageSlotID, Vec<Option<Vec<u8>>>)>,
    r2: Seq<(MessageSlotID, Vec<Option<Vec<u8>>>)>,
    epoch: u64,
)
    requires
        forall|id: MessageSlotID| #[trigger] r1.filter(read_from(id)) == r2.filter(read_from(id)),
    ensures
        dkg_packets_upto(r1, epoch, 6) == dkg_packets_upto(r2, epoch, 6),
{
    lemma_dkg_prefix_ignores_arrival_order(r1, r2, epoch, 6);
}

proof fn lemma_dkg_prefix_ignores_arrival_order(
    r1: Seq<(MessageSlotID, Vec<Option<Vec<u8>>>)>,
    r2: Seq<(MessageSlotID, Vec<Option<Vec<u8>>>)>,
    epoch: u64,
    k: nat,
)
    requires
        forall|id: MessageSlotID| #[trigger] r1.filter(read_from(id)) == r2.filter(read_from(id)),
    ensures
        dkg_packets_upto(r1, epoch, k) == dkg_packets_upto(r2, epoch, k),
    decreases k,
{
    if k > 0 {
        lemma_dkg_prefix_ignores_arrival_order(r1, r2, epoch, (k - 1) as nat);
        let id = dkg_stage(k - 1);
        lemma_category_packets_filter(r1, id, epoch);
        lemma_category_packets_filter(r2, id, epoch);
        assert(r1.filter(read_from(id)) == r2.filter(read_from(id)));
    }
}

} // verus!
