use vstd::prelude::*;
use crate::addresses::{Packet, Sender};
use crate::chunk_info::ChunkInfo;
use crate::conversation::{ConsumeResult, Conversation};
use crate::direct_buffer::{pairs_to_map, pairs_unique};
use crate::identity::Identity;

verus! {

// ---------------------------------------------------------------------------
// Packet-to-chunk indexing.
// ---------------------------------------------------------------------------

/// `i` is the index of the first chunk whose declared body end exceeds
/// `offset`.
pub open spec fn spec_found(chunks: Seq<ChunkInfo>, offset: int, i: int) -> bool {
    &&& 0 <= i < chunks.len()
    &&& chunks[i].end > offset
    &&& forall|j: int| 0 <= j < i ==> (#[trigger] chunks[j]).end <= offset
}

/// The index of the nearest chunk strictly before `i` that is not a
/// continuation (0 when there is none before `i`).
pub open spec fn spec_prev_non_continuation(chunks: Seq<ChunkInfo>, i: int) -> int
    decreases i,
{
    if i <= 0 {
        0
    } else if !chunks[i - 1].continuation {
        i - 1
    } else {
        spec_prev_non_continuation(chunks, i - 1)
    }
}

/// How many chunks immediately before `i` are flagged incomplete.
pub open spec fn spec_incomplete_run(chunks: Seq<ChunkInfo>, i: int) -> int
    decreases i,
{
    if i <= 0 {
        0
    } else if chunks[i - 1].incomplete {
        1 + spec_incomplete_run(chunks, i - 1)
    } else {
        0
    }
}

/// Where the reported chunk range starts, given that `i` is the first chunk
/// covering the offset: a continuation chunk is never a starting point, and
/// an immediately preceding run of incomplete chunks is reported together
/// with the covering chunk.
pub open spec fn spec_chunks_after_start(chunks: Seq<ChunkInfo>, i: int) -> int {
    if chunks[i].continuation {
        spec_prev_non_continuation(chunks, i)
    } else if i == 0 {
        0
    } else {
        i - spec_incomplete_run(chunks, i)
    }
}

/// The first chunk of a direction opens the stream, so it continues nothing.
pub open spec fn spec_no_leading_continuation(chunks: Seq<ChunkInfo>) -> bool {
    chunks.len() > 0 ==> !chunks[0].continuation
}

/// The whole contract of the `chunks_after` query, shared by its `ensures`
/// and by the idempotence law: `None` exactly when no chunk's end exceeds the
/// offset; otherwise the starting index prescribed by
/// `spec_chunks_after_start` at the first covering chunk, together with every
/// chunk from there on.
pub open spec fn spec_chunks_after_ok(
    chunks: Seq<ChunkInfo>,
    offset: int,
    r: Option<(int, Seq<ChunkInfo>)>,
) -> bool {
    match r {
        Some(pair) => {
            &&& exists|i: int| spec_found(chunks, offset, i)
            &&& forall|i: int|
                #[trigger] spec_found(chunks, offset, i) ==> pair.0 == spec_chunks_after_start(
                    chunks,
                    i,
                )
            &&& 0 <= pair.0 < chunks.len()
            &&& pair.1 == chunks.subrange(pair.0, chunks.len() as int)
        },
        None => forall|i: int| 0 <= i < chunks.len() ==> (#[trigger] chunks[i]).end <= offset,
    }
}

/// Law: the query is a function of the chunk list and the offset alone, so
/// two queries with the same arguments and no new data in between return the
/// same pair.
pub proof fn lemma_chunks_after_idempotent(
    chunks: Seq<ChunkInfo>,
    offset: int,
    r1: Option<(int, Seq<ChunkInfo>)>,
    r2: Option<(int, Seq<ChunkInfo>)>,
)
    requires
        spec_chunks_after_ok(chunks, offset, r1),
        spec_chunks_after_ok(chunks, offset, r2),
    ensures
        r1 == r2,
{
    match (r1, r2) {
        (Some(p1), Some(p2)) => {
            let i = choose|i: int| spec_found(chunks, offset, i);
            assert(spec_found(chunks, offset, i));
            assert(p1.0 == spec_chunks_after_start(chunks, i));
            assert(p2.0 == spec_chunks_after_start(chunks, i));
        },
        (Some(p1), None) => {
            let i = choose|i: int| spec_found(chunks, offset, i);
            assert(spec_found(chunks, offset, i));
            assert(chunks[i].end <= offset);
        },
        (None, Some(p2)) => {
            let i = choose|i: int| spec_found(chunks, offset, i);
            assert(spec_found(chunks, offset, i));
            assert(chunks[i].end <= offset);
        },
        (None, None) => {},
    }
}

/// Finds the earliest chunk whose reported content should be attributed to
/// the byte at `offset`, and returns its index together with every chunk from
/// there to the end of the list.
pub fn chunks_after_in(chunks: &[ChunkInfo], offset: usize) -> (r: Option<(usize, Vec<ChunkInfo>)>)
    requires
        spec_no_leading_continuation(chunks@),
    ensures
        spec_chunks_after_ok(
            chunks@,
            offset as int,
            (match r {
                Some(pair) => Some((pair.0 as int, pair.1@)),
                None => None,
            }),
        ),
{
    let n = chunks.len();
    // Scan forward for the first chunk whose declared end exceeds the offset.
    let mut idx: usize = 0;
    while idx < n && chunks[idx].end <= offset
        invariant
            n == chunks@.len(),
            idx <= n,
            forall|j: int| 0 <= j < idx ==> (#[trigger] chunks@[j]).end <= offset,
        decreases n - idx,
    {
        idx = idx + 1;
    }
    if idx == n {
        return None;
    }
    let ghost i = idx as int;
    proof {
        assert(spec_found(chunks@, offset as int, i));
    }
    let f: usize;
    if chunks[idx].continuation {
        // Walk backward to the nearest non-continuation chunk: continuation
        // chunks are reported together with the chunk they continue.
        let mut k: usize = idx;
        while k > 0 && chunks[k - 1].continuation
            invariant
                n == chunks@.len(),
                k <= idx < n,
                spec_no_leading_continuation(chunks@),
                spec_prev_non_continuation(chunks@, i) == spec_prev_non_continuation(
                    chunks@,
                    k as int,
                ),
            decreases k,
        {
            k = k - 1;
        }
        if k == 0 {
            // The first chunk is never a continuation, so the covering chunk
            // at a positive index always has a non-continuation predecessor.
            proof {
                assert(idx > 0);
                assert(!chunks@[0].continuation);
            }
            f = 0;
        } else {
            f = k - 1;
        }
    } else if idx == 0 {
        f = 0;
    } else {
        // Count the chunks immediately before the covering one that are
        // still incomplete: they are reported together with it.
        let mut k: usize = idx;
        while k > 0 && chunks[k - 1].incomplete
            invariant
                n == chunks@.len(),
                k <= idx < n,
                spec_incomplete_run(chunks@, i) == idx - k + spec_incomplete_run(
                    chunks@,
                    k as int,
                ),
            decreases k,
        {
            k = k - 1;
        }
        proof {
            assert(spec_incomplete_run(chunks@, k as int) == 0);
        }
        f = k;
    }
    proof {
        assert(f as int == spec_chunks_after_start(chunks@, i));
        assert forall|i2: int| #[trigger] spec_found(chunks@, offset as int, i2) implies f as int
            == spec_chunks_after_start(chunks@, i2) by {
            if i2 < i {
                assert(chunks@[i2].end <= offset);
            } else if i < i2 {
                assert(chunks@[i].end <= offset);
            }
        }
    }
    let tail = vstd::slice::slice_to_vec(vstd::slice::slice_subrange(chunks, f, n));
    Some((f, tail))
}

// ---------------------------------------------------------------------------
// Per-conversation storage for re-rendering already-processed packets.
// ---------------------------------------------------------------------------

/// Read-model of a conversation kept for display: the chunk descriptors each
/// direction has surfaced, and which byte range each packet contributed.
pub struct Storage {
    from_initiator: Vec<ChunkInfo>,
    from_responder: Vec<ChunkInfo>,
    packet_ranges: Vec<(u64, (usize, usize))>,
}

impl Storage {
    pub closed spec fn spec_chunks(&self, sender: Sender) -> Seq<ChunkInfo> {
        match sender {
            Sender::Initiator => self.from_initiator@,
            Sender::Responder => self.from_responder@,
        }
    }

    pub closed spec fn spec_ranges(&self) -> Seq<(u64, (usize, usize))> {
        self.packet_ranges@
    }

    pub open spec fn spec_ranges_map(&self) -> Map<u64, (usize, usize)> {
        pairs_to_map(self.spec_ranges())
    }

    pub open spec fn wf(&self) -> bool {
        &&& pairs_unique(self.spec_ranges())
        &&& spec_no_leading_continuation(self.spec_chunks(Sender::Initiator))
        &&& spec_no_leading_continuation(self.spec_chunks(Sender::Responder))
    }

    pub fn new() -> (r: Storage)
        ensures
            r.wf(),
            r.spec_chunks(Sender::Initiator) == Seq::<ChunkInfo>::empty(),
            r.spec_chunks(Sender::Responder) == Seq::<ChunkInfo>::empty(),
            r.spec_ranges() == Seq::<(u64, (usize, usize))>::empty(),
            r.spec_ranges_map() == Map::<u64, (usize, usize)>::empty(),
    {
        let r = Storage {
            from_initiator: Vec::new(),
            from_responder: Vec::new(),
            packet_ranges: Vec::new(),
        };
        proof {
            assert(r.spec_chunks(Sender::Initiator) =~= Seq::<ChunkInfo>::empty());
            assert(r.spec_chunks(Sender::Responder) =~= Seq::<ChunkInfo>::empty());
            assert(r.spec_ranges() =~= Seq::<(u64, (usize, usize))>::empty());
            assert(r.spec_ranges_map() =~= Map::<u64, (usize, usize)>::empty());
        }
        r
    }

    /// The byte range the packet with this capture number contributed, if it
    /// was ever recorded.
    pub fn packet_range(&self, packet_index: u64) -> (r: Option<(usize, usize)>)
        requires
            self.wf(),
        ensures
            match r {
                Some(range) => self.spec_ranges_map().contains_key(packet_index)
                    && self.spec_ranges_map()[packet_index] == range,
                None => !self.spec_ranges_map().contains_key(packet_index),
            },
    {
        let n = self.packet_ranges.len();
        let mut i: usize = 0;
        while i < n
            invariant
                n == self.packet_ranges@.len(),
                i <= n,
                pairs_unique(self.packet_ranges@),
                forall|j: int| 0 <= j < i ==> (#[trigger] self.packet_ranges@[j]).0 != packet_index,
            decreases n - i,
        {
            if self.packet_ranges[i].0 == packet_index {
                proof {
                    crate::direct_buffer::lemma_pairs_map_lookup(self.packet_ranges@, i as int);
                }
                return Some(self.packet_ranges[i].1);
            }
            i = i + 1;
        }
        proof {
            crate::direct_buffer::lemma_pairs_map_no_key(self.packet_ranges@, packet_index);
        }
        None
    }

    /// The packet-to-chunk query over one direction's surfaced chunk list.
    pub fn chunks_after(&self, sender: Sender, offset: usize) -> (r: Option<(usize, Vec<ChunkInfo>)>)
        requires
            self.wf(),
        ensures
            spec_chunks_after_ok(
                self.spec_chunks(sender),
                offset as int,
                (match r {
                    Some(pair) => Some((pair.0 as int, pair.1@)),
                    None => None,
                }),
            ),
    {
        match sender {
            Sender::Initiator => chunks_after_in(self.from_initiator.as_slice(), offset),
            Sender::Responder => chunks_after_in(self.from_responder.as_slice(), offset),
        }
    }

    /// Records what a processed packet surfaced: the chunks appended to the
    /// sending direction and the byte range the packet contributed.
    pub fn record(&mut self, sender: Sender, chunks: &[ChunkInfo], number: u64, range: (usize, usize))
        requires
            old(self).wf(),
            !old(self).spec_ranges_map().contains_key(number),
            forall|i: int| 0 <= i < chunks@.len() ==> !(#[trigger] chunks@[i]).continuation,
        ensures
            final(self).wf(),
            final(self).spec_chunks(sender) == old(self).spec_chunks(sender) + chunks@,
            final(self).spec_chunks(Conversation::spec_other(sender)) == old(self).spec_chunks(
                Conversation::spec_other(sender),
            ),
            final(self).spec_ranges_map() == old(self).spec_ranges_map().insert(number, range),
    {
        proof {
            if exists|i: int|
                0 <= i < self.packet_ranges@.len() && (#[trigger] self.packet_ranges@[i]).0
                    == number {
                let i = choose|i: int|
                    0 <= i < self.packet_ranges@.len() && (#[trigger] self.packet_ranges@[i]).0
                        == number;
                crate::direct_buffer::lemma_pairs_map_lookup(self.packet_ranges@, i);
                assert(false);
            }
        }
        match sender {
            Sender::Initiator => {
                let mut j: usize = 0;
                let n = chunks.len();
                while j < n
                    invariant
                        n == chunks@.len(),
                        j <= n,
                        self.from_initiator@ == old(self).spec_chunks(Sender::Initiator)
                            + chunks@.subrange(0, j as int),
                        self.from_responder@ == old(self).spec_chunks(Sender::Responder),
                        self.packet_ranges@ == old(self).spec_ranges(),
                    decreases n - j,
                {
                    let c = chunks[j];
                    self.from_initiator.push(c);
                    proof {
                        assert(self.from_initiator@ =~= old(self).spec_chunks(Sender::Initiator)
                            + chunks@.subrange(0, j + 1));
                    }
                    j = j + 1;
                }
                proof {
                    assert(old(self).spec_chunks(Sender::Initiator) + chunks@.subrange(
                        0,
                        n as int,
                    ) =~= old(self).spec_chunks(Sender::Initiator) + chunks@);
                }
            },
            Sender::Responder => {
                let mut j: usize = 0;
                let n = chunks.len();
                while j < n
                    invariant
                        n == chunks@.len(),
                        j <= n,
                        self.from_responder@ == old(self).spec_chunks(Sender::Responder)
                            + chunks@.subrange(0, j as int),
                        self.from_initiator@ == old(self).spec_chunks(Sender::Initiator),
                        self.packet_ranges@ == old(self).spec_ranges(),
                    decreases n - j,
                {
                    let c = chunks[j];
                    self.from_responder.push(c);
                    proof {
                        assert(self.from_responder@ =~= old(self).spec_chunks(Sender::Responder)
                            + chunks@.subrange(0, j + 1));
                    }
                    j = j + 1;
                }
                proof {
                    assert(old(self).spec_chunks(Sender::Responder) + chunks@.subrange(
                        0,
                        n as int,
                    ) =~= old(self).spec_chunks(Sender::Responder) + chunks@);
                }
            },
        }
        self.packet_ranges.push((number, range));
        proof {
            assert(self.packet_ranges@.drop_last() =~= old(self).spec_ranges());
            assert(final(self).spec_ranges_map() =~= old(self).spec_ranges_map().insert(
                number,
                range,
            ));
        }
    }
}

// ---------------------------------------------------------------------------
// The dissector: one engine per conversation, plus display storage.
// ---------------------------------------------------------------------------

/// The default proof-of-work difficulty target demanded of peers.
pub const DEFAULT_POW_TARGET: u64 = 0x0000_0400_0000_0000;

/// One conversation's protocol engine together with the storage that serves
/// later display queries; `valid` turns false forever once the engine reports
/// an authentication failure.
pub struct ConversationData {
    pub valid: bool,
    pub inner: Conversation,
    pub storage: Storage,
}

impl ConversationData {
    pub open spec fn wf(&self) -> bool {
        &&& self.inner.wf()
        &&& self.storage.wf()
        &&& (self.valid ==> !self.inner.spec_invalid())
        &&& (self.valid ==> forall|k: u64|
            #[trigger] self.inner.spec_buffer(Sender::Initiator).packets_map().contains_key(k)
                ==> self.storage.spec_ranges_map().contains_key(k))
        &&& (self.valid ==> forall|k: u64|
            #[trigger] self.inner.spec_buffer(Sender::Responder).packets_map().contains_key(k)
                ==> self.storage.spec_ranges_map().contains_key(k))
    }

    pub fn new() -> (r: ConversationData)
        ensures
            r.wf(),
            r.valid,
            r.inner.spec_fresh(DEFAULT_POW_TARGET),
            r.storage.spec_chunks(Sender::Initiator).len() == 0,
            r.storage.spec_chunks(Sender::Responder).len() == 0,
            r.storage.spec_ranges_map() == Map::<u64, (usize, usize)>::empty(),
    {
        ConversationData {
            valid: true,
            inner: Conversation::new(DEFAULT_POW_TARGET),
            storage: Storage::new(),
        }
    }
}

pub open spec fn conv_keys_unique(s: Seq<(usize, ConversationData)>) -> bool {
    forall|i: int, j: int| 0 <= i < j < s.len() ==> s[i].0 != s[j].0
}

pub open spec fn conv_has_key(s: Seq<(usize, ConversationData)>, c_id: usize) -> bool {
    exists|i: int| 0 <= i < s.len() && (#[trigger] s[i]).0 == c_id
}

/// The entry stored under `c_id`; with unique keys it is the one entry.
pub open spec fn conv_entry(s: Seq<(usize, ConversationData)>, c_id: usize) -> ConversationData {
    s[choose|i: int| 0 <= i < s.len() && (#[trigger] s[i]).0 == c_id].1
}

/// Machine limit: the payload can be appended to either direction's buffer.
pub open spec fn spec_fits(data: ConversationData, packet: Packet) -> bool {
    &&& data.inner.spec_buffer(Sender::Initiator).data_seq().len() + packet.payload@.len()
        + 0x10002 <= usize::MAX
    &&& data.inner.spec_buffer(Sender::Responder).data_seq().len() + packet.payload@.len()
        + 0x10002 <= usize::MAX
}

/// The chunk descriptors an outcome surfaces for later display queries.
pub open spec fn spec_surfaced(result: ConsumeResult) -> Seq<ChunkInfo> {
    match result {
        ConsumeResult::ConnectionMessage { chunk, .. } => seq![chunk],
        ConsumeResult::Chunks { regular } => regular@,
        ConsumeResult::StructuralOnly { chunks } => chunks@,
        _ => Seq::<ChunkInfo>::empty(),
    }
}

/// What one delivered packet does to a conversation's entry. A packet seen
/// before, an invalid entry, or a payload beyond the machine limit is skipped
/// with the entry untouched; otherwise the engine consumes it per
/// `Conversation::spec_add_outcome`, the surfaced chunks and the contributed
/// range are recorded for display, and `valid` is cleared exactly on failure,
/// with the storage then left untouched.
pub open spec fn spec_entry_outcome(
    od: ConversationData,
    nd: ConversationData,
    identity: Option<Identity>,
    packet: Packet,
    r: Option<(ConsumeResult, Sender, (usize, usize))>,
) -> bool {
    let skip = od.storage.spec_ranges_map().contains_key(packet.number) || !od.valid || !spec_fits(
        od,
        packet,
    );
    &&& (r is None <==> skip)
    &&& (skip ==> nd == od)
    &&& (match r {
        Some(t) => {
            &&& Conversation::spec_add_outcome(
                od.inner,
                nd.inner,
                identity,
                packet,
                t.0,
                t.1,
                t.2,
            )
            &&& nd.valid == !(t.0 is DecryptionFailed || t.0 is InvalidConversation)
            &&& (nd.valid ==> {
                &&& nd.storage.spec_chunks(t.1) == od.storage.spec_chunks(t.1) + spec_surfaced(
                    t.0,
                )
                &&& nd.storage.spec_chunks(Conversation::spec_other(t.1)) == od.storage.spec_chunks(
                    Conversation::spec_other(t.1),
                )
                &&& nd.storage.spec_ranges_map() == od.storage.spec_ranges_map().insert(
                    packet.number,
                    t.2,
                )
            })
            &&& (!nd.valid ==> nd.storage == od.storage)
        },
        None => true,
    })
}

/// The dissector: the optional local identity and one `ConversationData` per
/// capture-assigned conversation key.
pub struct TezosDissector {
    identity: Option<Identity>,
    conversations: Vec<(usize, ConversationData)>,
}

impl TezosDissector {
    pub closed spec fn spec_identity(&self) -> Option<Identity> {
        self.identity
    }

    pub closed spec fn spec_conversations(&self) -> Seq<(usize, ConversationData)> {
        self.conversations@
    }

    pub open spec fn wf(&self) -> bool {
        &&& (match self.spec_identity() {
            Some(id) => id.wf(),
            None => true,
        })
        &&& conv_keys_unique(self.spec_conversations())
        &&& forall|i: int|
            0 <= i < self.spec_conversations().len() ==> (
            #[trigger] self.spec_conversations()[i]).1.wf()
    }

    pub fn new() -> (r: TezosDissector)
        ensures
            r.wf(),
            r.spec_identity() is None,
            r.spec_conversations().len() == 0,
    {
        TezosDissector { identity: None, conversations: Vec::new() }
    }

    /// Installs the local identity read from the node's configuration.
    pub fn set_identity(&mut self, identity: Identity)
        requires
            old(self).wf(),
            identity.wf(),
        ensures
            final(self).wf(),
            final(self).spec_identity() == Some(identity),
            final(self).spec_conversations() == old(self).spec_conversations(),
    {
        self.identity = Some(identity);
    }

    /// Drops all per-conversation state when the capture session closes.
    pub fn cleanup(&mut self)
        requires
            old(self).wf(),
        ensures
            final(self).wf(),
            final(self).spec_conversations().len() == 0,
            final(self).spec_identity() == old(self).spec_identity(),
    {
        self.conversations.clear();
    }

    /// Routes one captured packet to its conversation (creating the
    /// conversation on first contact), records what it surfaced for later
    /// display queries, and hands the outcome back. A packet number already
    /// seen by that conversation, or a conversation marked invalid, is left
    /// alone (`None`).
    pub fn consume_packet(&mut self, c_id: usize, packet: &Packet) -> (r: Option<
        (ConsumeResult, Sender, (usize, usize)),
    >)
        requires
            old(self).wf(),
        ensures
            final(self).wf(),
            final(self).spec_identity() == old(self).spec_identity(),
            final(self).spec_conversations().len() > 0,
            final(self).spec_conversations().last().0 == c_id,
            final(self).spec_conversations().len() == old(self).spec_conversations().len() + (
            if conv_has_key(old(self).spec_conversations(), c_id) {
                0int
            } else {
                1int
            }),
            conv_has_key(old(self).spec_conversations(), c_id) ==> spec_entry_outcome(
                conv_entry(old(self).spec_conversations(), c_id),
                final(self).spec_conversations().last().1,
                old(self).spec_identity(),
                *packet,
                r,
            ),
            !conv_has_key(old(self).spec_conversations(), c_id) ==> (exists|od: ConversationData|
                {
                    &&& #[trigger] spec_entry_outcome(
                        od,
                        final(self).spec_conversations().last().1,
                        old(self).spec_identity(),
                        *packet,
                        r,
                    )
                    &&& od.valid
                    &&& od.inner.spec_fresh(DEFAULT_POW_TARGET)
                    &&& od.storage.spec_chunks(Sender::Initiator).len() == 0
                    &&& od.storage.spec_chunks(Sender::Responder).len() == 0
                    &&& od.storage.spec_ranges_map() == Map::<u64, (usize, usize)>::empty()
                }),
    {
        let n = self.conversations.len();
        let mut pos: usize = 0;
        while pos < n && self.conversations[pos].0 != c_id
            invariant
                n == self.conversations@.len(),
                pos <= n,
                forall|j: int| 0 <= j < pos ==> (#[trigger] self.conversations@[j]).0 != c_id,
            decreases n - pos,
        {
            pos = pos + 1;
        }
        let mut entry: ConversationData;
        if pos < n {
            proof {
                assert(self.conversations@[pos as int].1.wf());
                let s0 = old(self).spec_conversations();
                let i = choose|i: int| 0 <= i < s0.len() && (#[trigger] s0[i]).0 == c_id;
                if i != pos {
                    assert(s0[i].0 == s0[pos as int].0);
                    assert(false);
                }
                assert(conv_entry(s0, c_id) == s0[pos as int].1);
            }
            entry = self.conversations.swap_remove(pos).1;
            proof {
                let s0 = old(self).spec_conversations();
                let s1 = self.conversations@;
                assert forall|j: int| 0 <= j < s1.len() implies (#[trigger] s1[j]).0 != c_id
                    && s1[j].1.wf() by {
                    if j == pos {
                        assert(s1[j] == s0[s0.len() - 1]);
                    } else {
                        assert(s1[j] == s0[j]);
                    }
                }
                assert(conv_keys_unique(s1)) by {
                    assert forall|i: int, j: int| 0 <= i < j < s1.len() implies s1[i].0 != s1[j].0
                        by {
                        if i == pos {
                            assert(s1[i] == s0[s0.len() - 1]);
                            assert(s1[j] == s0[j]);
                        } else if j == pos {
                            assert(s1[j] == s0[s0.len() - 1]);
                            assert(s1[i] == s0[i]);
                        } else {
                            assert(s1[i] == s0[i]);
                            assert(s1[j] == s0[j]);
                        }
                    }
                }
            }
        } else {
            entry = ConversationData::new();
        }
        let ghost od0 = entry;
        let mut outcome: Option<(ConsumeResult, Sender, (usize, usize))> = None;
        let already_seen = entry.storage.packet_range(packet.number).is_some();
        if !already_seen && entry.valid {
            // Machine limit: skip a packet that would overflow the buffer.
            let len_i = entry.inner.buffer(Sender::Initiator).data().len();
            let len_r = entry.inner.buffer(Sender::Responder).data().len();
            let payload_len = packet.payload.len();
            let fits = payload_len <= usize::MAX - 0x10002 && len_i <= usize::MAX - 0x10002
                - payload_len && len_r <= usize::MAX - 0x10002 - payload_len;
            if fits {
                let id_ref = self.identity.as_ref();
                proof {
                    assert((match id_ref {
                        Some(id) => Some(*id),
                        None => None::<Identity>,
                    }) == self.identity);
                }
                let (result, sender, range) = entry.inner.add(id_ref, packet);
                let failed = match &result {
                    ConsumeResult::DecryptionFailed { .. } => true,
                    ConsumeResult::InvalidConversation => true,
                    _ => false,
                };
                if failed {
                    entry.valid = false;
                } else {
                    let recorded: Vec<ChunkInfo> = match &result {
                        ConsumeResult::ConnectionMessage { chunk, .. } => {
                            let mut v: Vec<ChunkInfo> = Vec::new();
                            v.push(*chunk);
                            v
                        },
                        ConsumeResult::Chunks { regular } => vstd::slice::slice_to_vec(
                            regular.as_slice(),
                        ),
                        ConsumeResult::StructuralOnly { chunks } => vstd::slice::slice_to_vec(
                            chunks.as_slice(),
                        ),
                        _ => Vec::new(),
                    };
                    proof {
                        assert(recorded@ =~= spec_surfaced(result));
                    }
                    entry.storage.record(sender, recorded.as_slice(), packet.number, range);
                    proof {
                        assert forall|k: u64| #[trigger] entry.inner.spec_buffer(
                            Sender::Initiator,
                        ).packets_map().contains_key(k) implies entry
                            .storage
                            .spec_ranges_map()
                            .contains_key(k) by {}
                        assert forall|k: u64| #[trigger] entry.inner.spec_buffer(
                            Sender::Responder,
                        ).packets_map().contains_key(k) implies entry
                            .storage
                            .spec_ranges_map()
                            .contains_key(k) by {}
                    }
                }
                outcome = Some((result, sender, range));
            }
        }
        let ghost before_push = self.conversations@;
        self.conversations.push((c_id, entry));
        proof {
            assert forall|i: int, j: int|
                0 <= i < j < self.conversations@.len() implies self.conversations@[i].0
                != self.conversations@[j].0 by {
                if j == self.conversations@.len() - 1 {
                    assert(self.conversations@[i] == before_push[i]);
                } else {
                    assert(self.conversations@[i] == before_push[i]);
                    assert(self.conversations@[j] == before_push[j]);
                }
            }
            assert forall|i: int|
                0 <= i < self.conversations@.len() implies (
            #[trigger] self.conversations@[i]).1.wf() by {
                if i < self.conversations@.len() - 1 {
                    assert(self.conversations@[i] == before_push[i]);
                }
            }
            assert(spec_entry_outcome(
                od0,
                self.conversations@.last().1,
                old(self).spec_identity(),
                *packet,
                outcome,
            ));
            if pos == n {
                assert({
                    &&& spec_entry_outcome(
                        od0,
                        self.spec_conversations().last().1,
                        old(self).spec_identity(),
                        *packet,
                        outcome,
                    )
                    &&& od0.valid
                    &&& od0.inner.spec_fresh(DEFAULT_POW_TARGET)
                    &&& od0.storage.spec_chunks(Sender::Initiator).len() == 0
                    &&& od0.storage.spec_chunks(Sender::Responder).len() == 0
                    &&& od0.storage.spec_ranges_map() == Map::<u64, (usize, usize)>::empty()
                });
                assert(exists|od: ConversationData|
                    {
                        &&& #[trigger] spec_entry_outcome(
                            od,
                            self.spec_conversations().last().1,
                            old(self).spec_identity(),
                            *packet,
                            outcome,
                        )
                        &&& od.valid
                        &&& od.inner.spec_fresh(DEFAULT_POW_TARGET)
                        &&& od.storage.spec_chunks(Sender::Initiator).len() == 0
                        &&& od.storage.spec_chunks(Sender::Responder).len() == 0
                        &&& od.storage.spec_ranges_map() == Map::<u64, (usize, usize)>::empty()
                    });
            }
        }
        outcome
    }
}

} // verus!
