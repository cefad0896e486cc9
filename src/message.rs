//! Message categories and the envelope that signers write into slots.
use vstd::prelude::*;
use crate::wire::{
    lemma_u32_round_trip, lemma_u64_round_trip,
    u32_bytes, u32_from_bytes, u64_bytes, u64_from_bytes, push_u32, push_u64, push_bytes,
    copy_range, read_u32, read_u64,
};

verus! {

/// The kind of coordination message; each kind has a store instance of its own.
#[derive(Clone, Copy, Debug, PartialEq, Eq, Structural)]
pub enum MessageSlotID {
    DkgBegin,
    DkgPublicShares,
    DkgPrivateBegin,
    DkgPrivateShares,
    DkgEndBegin,
    DkgEnd,
    Transactions,
    EncryptedSignerState,
}

impl MessageSlotID {
    pub open spec fn spec_index(self) -> u8 {
        match self {
            MessageSlotID::DkgBegin => 0,
            MessageSlotID::DkgPublicShares => 1,
            MessageSlotID::DkgPrivateBegin => 2,
            MessageSlotID::DkgPrivateShares => 3,
            MessageSlotID::DkgEndBegin => 4,
            MessageSlotID::DkgEnd => 5,
            MessageSlotID::Transactions => 6,
            MessageSlotID::EncryptedSignerState => 7,
        }
    }

    /// A distinct small number for each category.
    pub fn index(&self) -> (r: u8)
        ensures
            r == self.spec_index(),
    {
        match self {
            MessageSlotID::DkgBegin => 0,
            MessageSlotID::DkgPublicShares => 1,
            MessageSlotID::DkgPrivateBegin => 2,
            MessageSlotID::DkgPrivateShares => 3,
            MessageSlotID::DkgEndBegin => 4,
            MessageSlotID::DkgEnd => 5,
            MessageSlotID::Transactions => 6,
            MessageSlotID::EncryptedSignerState => 7,
        }
    }
}

/// The category whose wire byte is `b`, among the six of key generation.
pub open spec fn dkg_stage_of(b: u8) -> Option<MessageSlotID> {
    if b == 0 {
        Some(MessageSlotID::DkgBegin)
    } else if b == 1 {
        Some(MessageSlotID::DkgPublicShares)
    } else if b == 2 {
        Some(MessageSlotID::DkgPrivateBegin)
    } else if b == 3 {
        Some(MessageSlotID::DkgPrivateShares)
    } else if b == 4 {
        Some(MessageSlotID::DkgEndBegin)
    } else if b == 5 {
        Some(MessageSlotID::DkgEnd)
    } else {
        None
    }
}

/// Whether `id` is one of the six categories of key generation.
pub open spec fn is_dkg(id: MessageSlotID) -> bool {
    id.spec_index() < 6
}

/// A key-generation packet: the category it belongs to and its encoded body.
pub struct Packet {
    pub stage: MessageSlotID,
    pub body: Vec<u8>,
}

/// What a signer publishes: a packet, a list of encoded transactions, or its
/// encrypted state.
pub enum StackerDBMessage {
    Packet(Packet),
    Transactions(Vec<Vec<u8>>),
    EncryptedSignerState(Vec<u8>),
}

/// A message tagged with the reward cycle it belongs to.
pub struct SignerMessage {
    pub reward_cycle: u64,
    pub message: StackerDBMessage,
}

/// The bytes of each vector, in order.
pub open spec fn bytes_views(v: Seq<Vec<u8>>) -> Seq<Seq<u8>> {
    v.map_values(|b: Vec<u8>| b@)
}

/// The mathematical content of a `StackerDBMessage`.
pub enum MessageView {
    Packet(MessageSlotID, Seq<u8>),
    Transactions(Seq<Seq<u8>>),
    EncryptedSignerState(Seq<u8>),
}

/// The mathematical content of a `SignerMessage`.
pub struct SignerMessageView {
    pub reward_cycle: u64,
    pub message: MessageView,
}

impl View for Packet {
    type V = (MessageSlotID, Seq<u8>);

    open spec fn view(&self) -> (MessageSlotID, Seq<u8>) {
        (self.stage, self.body@)
    }
}

impl View for StackerDBMessage {
    type V = MessageView;

    open spec fn view(&self) -> MessageView {
        match self {
            StackerDBMessage::Packet(p) => MessageView::Packet(p.stage, p.body@),
            StackerDBMessage::Transactions(t) => MessageView::Transactions(bytes_views(t@)),
            StackerDBMessage::EncryptedSignerState(s) => MessageView::EncryptedSignerState(s@),
        }
    }
}

impl View for SignerMessage {
    type V = SignerMessageView;

    open spec fn view(&self) -> SignerMessageView {
        SignerMessageView { reward_cycle: self.reward_cycle, message: self.message@ }
    }
}

/// The category a message is written to.
pub open spec fn msg_id_of(m: MessageView) -> MessageSlotID {
    match m {
        MessageView::Packet(stage, _) => stage,
        MessageView::Transactions(_) => MessageSlotID::Transactions,
        MessageView::EncryptedSignerState(_) => MessageSlotID::EncryptedSignerState,
    }
}

impl StackerDBMessage {
    /// The category this message is written to.
    pub fn msg_id(&self) -> (r: MessageSlotID)
        ensures
            r == msg_id_of(self@),
    {
        match self {
            StackerDBMessage::Packet(p) => p.stage,
            StackerDBMessage::Transactions(_) => MessageSlotID::Transactions,
            StackerDBMessage::EncryptedSignerState(_) => MessageSlotID::EncryptedSignerState,
        }
    }
}

// ----- wire format -----

/// Every length in a message fits the four-byte prefix that encodes it, and a
/// packet names a key-generation category.
pub open spec fn encodable(m: MessageView) -> bool {
    match m {
        MessageView::Packet(stage, body) => is_dkg(stage) && body.len() <= u32::MAX,
        MessageView::Transactions(txs) => txs.len() <= u32::MAX && forall|i: int|
            0 <= i < txs.len() ==> #[trigger] txs[i].len() <= u32::MAX,
        MessageView::EncryptedSignerState(s) => s.len() <= u32::MAX,
    }
}

/// Each item as its length (four bytes) followed by its bytes.
pub open spec fn encode_items(items: Seq<Seq<u8>>) -> Seq<u8>
    decreases items.len(),
{
    if items.len() == 0 {
        Seq::empty()
    } else {
        u32_bytes(items[0].len() as u32) + items[0] + encode_items(items.drop_first())
    }
}

/// A tag byte, then the payload with its length prefix.
pub open spec fn encode_body(m: MessageView) -> Seq<u8> {
    match m {
        MessageView::Packet(stage, body) => seq![0u8, stage.spec_index()] + u32_bytes(
            body.len() as u32,
        ) + body,
        MessageView::Transactions(txs) => seq![1u8] + u32_bytes(txs.len() as u32) + encode_items(
            txs,
        ),
        MessageView::EncryptedSignerState(s) => seq![2u8] + u32_bytes(s.len() as u32) + s,
    }
}

/// The reward cycle (eight bytes), then the body.
pub open spec fn encode_signer_message(m: SignerMessageView) -> Seq<u8> {
    u64_bytes(m.reward_cycle) + encode_body(m.message)
}

/// Exactly `count` length-prefixed items that take up all of `b`.
pub open spec fn parse_items(b: Seq<u8>, count: nat) -> Option<Seq<Seq<u8>>>
    decreases count,
{
    if count == 0 {
        if b.len() == 0 {
            Some(Seq::empty())
        } else {
            None
        }
    } else if b.len() < 4 {
        None
    } else {
        let n = u32_from_bytes(b) as int;
        if b.len() < 4 + n {
            None
        } else {
            match parse_items(b.subrange(4 + n, b.len() as int), (count - 1) as nat) {
                Some(rest) => Some(seq![b.subrange(4, 4 + n)] + rest),
                None => None,
            }
        }
    }
}

/// The message body that takes up all of `b`, if `b` is one.
pub open spec fn decode_body(b: Seq<u8>) -> Option<MessageView> {
    if b.len() < 5 {
        None
    } else if b[0] == 0 {
        if b.len() < 6 {
            None
        } else {
            let n = u32_from_bytes(b.subrange(2, 6)) as int;
            match dkg_stage_of(b[1]) {
                Some(stage) => if b.len() == 6 + n {
                    Some(MessageView::Packet(stage, b.subrange(6, b.len() as int)))
                } else {
                    None
                },
                None => None,
            }
        }
    } else if b[0] == 1 {
        let count = u32_from_bytes(b.subrange(1, 5)) as nat;
        match parse_items(b.subrange(5, b.len() as int), count) {
            Some(txs) => Some(MessageView::Transactions(txs)),
            None => None,
        }
    } else if b[0] == 2 {
        let n = u32_from_bytes(b.subrange(1, 5)) as int;
        if b.len() == 5 + n {
            Some(MessageView::EncryptedSignerState(b.subrange(5, b.len() as int)))
        } else {
            None
        }
    } else {
        None
    }
}

/// The signer message that takes up all of `b`, if `b` is one.
pub open spec fn decode_signer_message(b: Seq<u8>) -> Option<SignerMessageView> {
    if b.len() < 8 {
        None
    } else {
        match decode_body(b.subrange(8, b.len() as int)) {
            Some(m) => Some(SignerMessageView { reward_cycle: u64_from_bytes(b), message: m }),
            None => None,
        }
    }
}

proof fn lemma_u32_prefix(s: Seq<u8>, v: u32)
    requires
        s.len() >= 4,
        s.subrange(0, 4) == u32_bytes(v),
    ensures
        u32_from_bytes(s) == v,
{
    assert(s[0] == s.subrange(0, 4)[0]);
    assert(s[1] == s.subrange(0, 4)[1]);
    assert(s[2] == s.subrange(0, 4)[2]);
    assert(s[3] == s.subrange(0, 4)[3]);
    lemma_u32_round_trip(v);
}

proof fn lemma_u64_prefix(s: Seq<u8>, v: u64)
    requires
        s.len() >= 8,
        s.subrange(0, 8) == u64_bytes(v),
    ensures
        u64_from_bytes(s) == v,
{
    assert(s[0] == s.subrange(0, 8)[0]);
    assert(s[1] == s.subrange(0, 8)[1]);
    assert(s[2] == s.subrange(0, 8)[2]);
    assert(s[3] == s.subrange(0, 8)[3]);
    assert(s[4] == s.subrange(0, 8)[4]);
    assert(s[5] == s.subrange(0, 8)[5]);
    assert(s[6] == s.subrange(0, 8)[6]);
    assert(s[7] == s.subrange(0, 8)[7]);
    lemma_u64_round_trip(v);
}

proof fn lemma_parse_items_cons(first: Seq<u8>, tail: Seq<u8>, count: nat)
    requires
        count > 0,
        first.len() <= u32::MAX,
    ensures
        parse_items(u32_bytes(first.len() as u32) + first + tail, count) == match parse_items(
            tail,
            (count - 1) as nat,
        ) {
            Some(r) => Some(seq![first] + r),
            None => None,
        },
{
    let n = first.len() as int;
    let e = u32_bytes(n as u32) + first + tail;
    assert(e.subrange(0, 4) =~= u32_bytes(n as u32));
    lemma_u32_prefix(e, n as u32);
    assert(e.subrange(4 + n, e.len() as int) =~= tail);
    assert(e.subrange(4, 4 + n) =~= first);
}

proof fn lemma_items_round_trip(items: Seq<Seq<u8>>)
    requires
        forall|i: int| 0 <= i < items.len() ==> #[trigger] items[i].len() <= u32::MAX,
    ensures
        parse_items(encode_items(items), items.len()) == Some(items),
    decreases items.len(),
{
    if items.len() > 0 {
        let first = items[0];
        let rest = items.drop_first();
        assert forall|i: int| 0 <= i < rest.len() implies #[trigger] rest[i].len() <= u32::MAX by {
            assert(rest[i] == items[i + 1]);
        }
        lemma_items_round_trip(rest);
        lemma_parse_items_cons(first, encode_items(rest), items.len());
        assert(seq![first] + rest =~= items);
    }
}

/// Decoding the encoding of a message body gives the body back.
pub proof fn lemma_body_round_trip(m: MessageView)
    requires
        encodable(m),
    ensures
        decode_body(encode_body(m)) == Some(m),
{
    let b = encode_body(m);
    match m {
        MessageView::Packet(stage, body) => {
            assert(b.subrange(2, 6).subrange(0, 4) =~= u32_bytes(body.len() as u32));
            lemma_u32_prefix(b.subrange(2, 6), body.len() as u32);
            assert(b.subrange(6, b.len() as int) =~= body);
        },
        MessageView::Transactions(txs) => {
            assert(b.subrange(1, 5).subrange(0, 4) =~= u32_bytes(txs.len() as u32));
            lemma_u32_prefix(b.subrange(1, 5), txs.len() as u32);
            assert(b.subrange(5, b.len() as int) =~= encode_items(txs));
            lemma_items_round_trip(txs);
        },
        MessageView::EncryptedSignerState(st) => {
            assert(b.subrange(1, 5).subrange(0, 4) =~= u32_bytes(st.len() as u32));
            lemma_u32_prefix(b.subrange(1, 5), st.len() as u32);
            assert(b.subrange(5, b.len() as int) =~= st);
        },
    }
}

/// Decoding the encoding of a signer message gives back its reward cycle and
/// its payload, variant and contents alike.
pub proof fn lemma_signer_message_round_trip(m: SignerMessageView)
    requires
        encodable(m.message),
    ensures
        decode_signer_message(encode_signer_message(m)) == Some(m),
{
    let b = encode_signer_message(m);
    assert(b.subrange(0, 8) =~= u64_bytes(m.reward_cycle));
    lemma_u64_prefix(b, m.reward_cycle);
    assert(b.subrange(8, b.len() as int) =~= encode_body(m.message));
    lemma_body_round_trip(m.message);
}

proof fn lemma_u32_same_prefix(s1: Seq<u8>, s2: Seq<u8>)
    requires
        s1.len() >= 4,
        s2.len() >= 4,
        s1.subrange(0, 4) == s2.subrange(0, 4),
    ensures
        u32_from_bytes(s1) == u32_from_bytes(s2),
{
    assert(s1[0] == s1.subrange(0, 4)[0] && s2[0] == s2.subrange(0, 4)[0]);
    assert(s1[1] == s1.subrange(0, 4)[1] && s2[1] == s2.subrange(0, 4)[1]);
    assert(s1[2] == s1.subrange(0, 4)[2] && s2[2] == s2.subrange(0, 4)[2]);
    assert(s1[3] == s1.subrange(0, 4)[3] && s2[3] == s2.subrange(0, 4)[3]);
}

proof fn lemma_u64_same_prefix(s1: Seq<u8>, s2: Seq<u8>)
    requires
        s1.len() >= 8,
        s2.len() >= 8,
        s1.subrange(0, 8) == s2.subrange(0, 8),
    ensures
        u64_from_bytes(s1) == u64_from_bytes(s2),
{
    assert forall|k: int| 0 <= k < 8 implies s1[k] == s2[k] by {
        assert(s1[k] == s1.subrange(0, 8)[k] && s2[k] == s2.subrange(0, 8)[k]);
    }
}

/// `p` followed by what `o` holds, if it holds anything.
pub open spec fn prepend(p: Seq<Seq<u8>>, o: Option<Seq<Seq<u8>>>) -> Option<Seq<Seq<u8>>> {
    match o {
        Some(r) => Some(p + r),
        None => None,
    }
}

/// The view of a decoded list of vectors, if there is one.
pub open spec fn items_view(r: Option<Vec<Vec<u8>>>) -> Option<Seq<Seq<u8>>> {
    match r {
        Some(v) => Some(bytes_views(v@)),
        None => None,
    }
}

/// The view of a decoded message body, if there is one.
pub open spec fn body_view(r: Option<StackerDBMessage>) -> Option<MessageView> {
    match r {
        Some(m) => Some(m@),
        None => None,
    }
}

/// The view of a decoded signer message, if there is one.
pub open spec fn signer_message_view(r: Option<SignerMessage>) -> Option<SignerMessageView> {
    match r {
        Some(m) => Some(m@),
        None => None,
    }
}

fn write_items(txs: &Vec<Vec<u8>>, out: &mut Vec<u8>)
    requires
        forall|i: int| 0 <= i < txs@.len() ==> #[trigger] txs@[i]@.len() <= u32::MAX,
    ensures
        final(out)@ == old(out)@ + encode_items(bytes_views(txs@)),
{
    let ghost items = bytes_views(txs@);
    let ghost start = out@;
    let mut i: usize = 0;
    assert(items.subrange(0, items.len() as int) =~= items);
    while i < txs.len()
        invariant
            i <= txs@.len(),
            items == bytes_views(txs@),
            forall|j: int| 0 <= j < txs@.len() ==> #[trigger] txs@[j]@.len() <= u32::MAX,
            out@ + encode_items(items.subrange(i as int, items.len() as int)) == start
                + encode_items(items),
        decreases txs@.len() - i,
    {
        let ghost before = out@;
        let ghost suffix = items.subrange(i as int, items.len() as int);
        assert(suffix.drop_first() =~= items.subrange(i + 1, items.len() as int));
        assert(suffix[0] == txs@[i as int]@);
        push_u32(out, txs[i].len() as u32);
        push_bytes(out, &txs[i]);
        i = i + 1;
        assert(out@ + encode_items(items.subrange(i as int, items.len() as int)) =~= before
            + encode_items(suffix));
    }
    assert(items.subrange(i as int, items.len() as int) =~= Seq::<Seq<u8>>::empty());
    assert(out@ =~= out@ + encode_items(Seq::<Seq<u8>>::empty()));
}

fn write_body(m: &StackerDBMessage, out: &mut Vec<u8>)
    requires
        encodable(m@),
    ensures
        final(out)@ == old(out)@ + encode_body(m@),
{
    let ghost start = out@;
    match m {
        StackerDBMessage::Packet(p) => {
            out.push(0u8);
            out.push(p.stage.index());
            push_u32(out, p.body.len() as u32);
            push_bytes(out, &p.body);
        },
        StackerDBMessage::Transactions(txs) => {
            out.push(1u8);
            push_u32(out, txs.len() as u32);
            assert forall|i: int| 0 <= i < txs@.len() implies #[trigger] txs@[i]@.len()
                <= u32::MAX by {
                assert(bytes_views(txs@)[i] == txs@[i]@);
            }
            write_items(txs, out);
        },
        StackerDBMessage::EncryptedSignerState(st) => {
            out.push(2u8);
            push_u32(out, st.len() as u32);
            push_bytes(out, st);
        },
    }
    assert(out@ =~= start + encode_body(m@));
}

proof fn lemma_prepend_cons(p: Seq<Seq<u8>>, x: Seq<u8>, o: Option<Seq<Seq<u8>>>)
    ensures
        prepend(
            p,
            match o {
                Some(r) => Some(seq![x] + r),
                None => None,
            },
        ) == prepend(p.push(x), o),
{
    if let Some(r) = o {
        assert(p + (seq![x] + r) =~= p.push(x) + r);
    }
}

fn read_items(b: &Vec<u8>, start: usize, count: u32) -> (r: Option<Vec<Vec<u8>>>)
    requires
        start <= b@.len(),
    ensures
        items_view(r) == parse_items(b@.subrange(start as int, b@.len() as int), count as nat),
{
    let len = b.len();
    let mut items: Vec<Vec<u8>> = Vec::new();
    let mut pos: usize = start;
    let mut i: u32 = 0;
    assert(bytes_views(items@) =~= Seq::<Seq<u8>>::empty());
    assert(Seq::<Seq<u8>>::empty() + parse_items(b@.subrange(start as int, len as int), count as nat).unwrap()
        =~= parse_items(b@.subrange(start as int, len as int), count as nat).unwrap());
    while i < count
        invariant
            start <= pos <= len,
            len == b@.len(),
            i <= count,
            parse_items(b@.subrange(start as int, len as int), count as nat) == prepend(
                bytes_views(items@),
                parse_items(b@.subrange(pos as int, len as int), (count - i) as nat),
            ),
        decreases count - i,
    {
        let ghost t = b@.subrange(pos as int, len as int);
        if len - pos < 4 {
            return None;
        }
        let n = read_u32(b, pos);
        assert(t.subrange(0, 4) =~= b@.subrange(pos as int, pos + 4).subrange(0, 4));
        proof {
            lemma_u32_same_prefix(t, b@.subrange(pos as int, pos + 4));
        }
        if len - pos - 4 < n as usize {
            return None;
        }
        let end = pos + 4 + n as usize;
        let item = copy_range(b, pos + 4, end);
        assert(t.subrange(4 + n, t.len() as int) =~= b@.subrange(end as int, len as int));
        assert(t.subrange(4, 4 + n) =~= item@);
        proof {
            lemma_prepend_cons(
                bytes_views(items@),
                item@,
                parse_items(b@.subrange(end as int, len as int), (count - i - 1) as nat),
            );
        }
        let ghost old_items = items@;
        items.push(item);
        assert(bytes_views(items@) =~= bytes_views(old_items).push(item@));
        pos = end;
        i = i + 1;
    }
    if pos == len {
        assert(bytes_views(items@) + Seq::<Seq<u8>>::empty() =~= bytes_views(items@));
        Some(items)
    } else {
        None
    }
}

fn read_body(b: &Vec<u8>, start: usize) -> (r: Option<StackerDBMessage>)
    requires
        start <= b@.len(),
    ensures
        body_view(r) == decode_body(b@.subrange(start as int, b@.len() as int)),
{
    let len = b.len();
    let ghost t = b@.subrange(start as int, len as int);
    if len - start < 5 {
        return None;
    }
    let tag = b[start];
    if tag == 0 {
        if len - start < 6 {
            return None;
        }
        let n = read_u32(b, start + 2);
        assert(t.subrange(2, 6).subrange(0, 4) =~= b@.subrange(start + 2, start + 6).subrange(0, 4));
        proof {
            lemma_u32_same_prefix(t.subrange(2, 6), b@.subrange(start + 2, start + 6));
        }
        let code = b[start + 1];
        let stage = if code == 0 {
            MessageSlotID::DkgBegin
        } else if code == 1 {
            MessageSlotID::DkgPublicShares
        } else if code == 2 {
            MessageSlotID::DkgPrivateBegin
        } else if code == 3 {
            MessageSlotID::DkgPrivateShares
        } else if code == 4 {
            MessageSlotID::DkgEndBegin
        } else if code == 5 {
            MessageSlotID::DkgEnd
        } else {
            return None;
        };
        if len - start - 6 != n as usize {
            return None;
        }
        let body = copy_range(b, start + 6, len);
        assert(t.subrange(6, t.len() as int) =~= body@);
        Some(StackerDBMessage::Packet(Packet { stage, body }))
    } else if tag == 1 {
        let count = read_u32(b, start + 1);
        assert(t.subrange(1, 5).subrange(0, 4) =~= b@.subrange(start + 1, start + 5).subrange(0, 4));
        proof {
            lemma_u32_same_prefix(t.subrange(1, 5), b@.subrange(start + 1, start + 5));
        }
        assert(t.subrange(5, t.len() as int) =~= b@.subrange(start + 5, len as int));
        match read_items(b, start + 5, count) {
            Some(txs) => Some(StackerDBMessage::Transactions(txs)),
            None => None,
        }
    } else if tag == 2 {
        let n = read_u32(b, start + 1);
        assert(t.subrange(1, 5).subrange(0, 4) =~= b@.subrange(start + 1, start + 5).subrange(0, 4));
        proof {
            lemma_u32_same_prefix(t.subrange(1, 5), b@.subrange(start + 1, start + 5));
        }
        if len - start - 5 != n as usize {
            return None;
        }
        let st = copy_range(b, start + 5, len);
        assert(t.subrange(5, t.len() as int) =~= st@);
        Some(StackerDBMessage::EncryptedSignerState(st))
    } else {
        None
    }
}

impl StackerDBMessage {
    /// Whether every length in this message fits its four-byte prefix and a
    /// packet names a key-generation category: what `serialize_to_vec` needs.
    pub fn is_encodable(&self) -> (r: bool)
        ensures
            r == encodable(self@),
    {
        match self {
            StackerDBMessage::Packet(p) => p.stage.index() < 6 && p.body.len() as u64
                <= u32::MAX as u64,
            StackerDBMessage::Transactions(txs) => {
                if txs.len() as u64 > u32::MAX as u64 {
                    return false;
                }
                let mut i: usize = 0;
                while i < txs.len()
                    invariant
                        i <= txs@.len(),
                        self@ == MessageView::Transactions(bytes_views(txs@)),
                        forall|j: int| 0 <= j < i ==> #[trigger] txs@[j]@.len() <= u32::MAX,
                    decreases txs@.len() - i,
                {
                    if txs[i].len() as u64 > u32::MAX as u64 {
                        assert(bytes_views(txs@)[i as int] == txs@[i as int]@);
                        assert(bytes_views(txs@)[i as int].len() > u32::MAX);
                        return false;
                    }
                    i = i + 1;
                }
                assert forall|j: int| 0 <= j < bytes_views(txs@).len() implies #[trigger] bytes_views(
                    txs@,
                )[j].len() <= u32::MAX by {
                    assert(bytes_views(txs@)[j] == txs@[j]@);
                }
                true
            },
            StackerDBMessage::EncryptedSignerState(st) => st.len() as u64 <= u32::MAX as u64,
        }
    }

    /// The wire form of this message body.
    pub fn serialize_to_vec(&self) -> (r: Vec<u8>)
        requires
            encodable(self@),
        ensures
            r@ == encode_body(self@),
    {
        let mut out: Vec<u8> = Vec::new();
        write_body(self, &mut out);
        assert(out@ =~= encode_body(self@));
        out
    }

    /// The message body that `bytes` encode, or `None` where `bytes` are not
    /// exactly one.
    pub fn from_bytes(bytes: &Vec<u8>) -> (r: Option<StackerDBMessage>)
        ensures
            body_view(r) == decode_body(bytes@),
    {
        assert(bytes@.subrange(0, bytes@.len() as int) =~= bytes@);
        read_body(bytes, 0)
    }
}

impl SignerMessage {
    /// The wire form of this message: its reward cycle, then its body.
    pub fn serialize_to_vec(&self) -> (r: Vec<u8>)
        requires
            encodable(self.message@),
        ensures
            r@ == encode_signer_message(self@),
    {
        let mut out: Vec<u8> = Vec::new();
        push_u64(&mut out, self.reward_cycle);
        write_body(&self.message, &mut out);
        assert(out@ =~= encode_signer_message(self@));
        out
    }

    /// The signer message that `bytes` encode, or `None` where `bytes` are not
    /// exactly one.
    pub fn from_bytes(bytes: &Vec<u8>) -> (r: Option<SignerMessage>)
        ensures
            signer_message_view(r) == decode_signer_message(bytes@),
    {
        if bytes.len() < 8 {
            return None;
        }
        let reward_cycle = read_u64(bytes, 0);
        assert(bytes@.subrange(0, 8).subrange(0, 8) =~= bytes@.subrange(0, 8));
        proof {
            lemma_u64_same_prefix(bytes@, bytes@.subrange(0, 8));
        }
        match read_body(bytes, 8) {
            Some(message) => Some(SignerMessage { reward_cycle, message }),
            None => None,
        }
    }
}

} // verus!
