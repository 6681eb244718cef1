use vstd::prelude::*;
use crate::addresses::Sender;
use crate::bytes_util::append_bytes;
use crate::chunk_info::{spec_u16_be, u16_be, ChunkInfo};
use crate::cipher::{open_of, spec_nonce_bytes, Decipher, NonceAddition};

verus! {

/// Authentication failure while decrypting: the sending side and the index of
/// the chunk whose tag did not verify.
#[derive(Clone, Copy, Debug, PartialEq, Eq, Structural)]
pub struct DecryptError {
    pub sender: Sender,
    pub chunk_number: usize,
}

/// The direction-scoped nonce for the chunk with the given (0-based) message
/// counter.
pub open spec fn spec_nonce_for(sender: Sender, counter: int) -> NonceAddition {
    match sender {
        Sender::Initiator => NonceAddition::Initiator(counter as u64),
        Sender::Responder => NonceAddition::Responder(counter as u64),
    }
}

/// The map from packet sequence number to the byte range it contributed,
/// read off a sequence of (number, range) pairs.
pub open spec fn pairs_to_map(s: Seq<(u64, (usize, usize))>) -> Map<u64, (usize, usize)>
    decreases s.len(),
{
    if s.len() == 0 {
        Map::empty()
    } else {
        pairs_to_map(s.drop_last()).insert(s.last().0, s.last().1)
    }
}

/// `x` clamped to be non-negative; a convenient loop measure.
pub open spec fn clamp_nonneg(x: int) -> int {
    if x < 0 {
        0
    } else {
        x
    }
}

pub open spec fn pairs_unique(s: Seq<(u64, (usize, usize))>) -> bool {
    forall|i: int, j: int| 0 <= i < j < s.len() ==> s[i].0 != s[j].0
}

pub proof fn lemma_pairs_map_lookup(s: Seq<(u64, (usize, usize))>, k: int)
    requires
        pairs_unique(s),
        0 <= k < s.len(),
    ensures
        pairs_to_map(s).contains_key(s[k].0),
        pairs_to_map(s)[s[k].0] == s[k].1,
    decreases s.len(),
{
    if k + 1 < s.len() {
        assert(s.drop_last()[k] == s[k]);
        lemma_pairs_map_lookup(s.drop_last(), k);
    }
}

pub proof fn lemma_pairs_map_no_key(s: Seq<(u64, (usize, usize))>, key: u64)
    requires
        forall|i: int| 0 <= i < s.len() ==> s[i].0 != key,
    ensures
        !pairs_to_map(s).contains_key(key),
    decreases s.len(),
{
    if s.len() > 0 {
        lemma_pairs_map_no_key(s.drop_last(), key);
    }
}

/// Accumulates one direction's raw bytes, incrementally parses the
/// length-prefixed chunk framing, remembers which packet contributed which
/// byte range, and decrypts chunk bodies in place once a decipher exists.
pub struct DirectBuffer {
    data: Vec<u8>,
    chunks: Vec<ChunkInfo>,
    packets: Vec<(u64, (usize, usize))>,
    processed: usize,
}

impl DirectBuffer {
    pub closed spec fn data_seq(&self) -> Seq<u8> {
        self.data@
    }

    pub closed spec fn chunks_seq(&self) -> Seq<ChunkInfo> {
        self.chunks@
    }

    pub closed spec fn packets_seq(&self) -> Seq<(u64, (usize, usize))> {
        self.packets@
    }

    pub open spec fn packets_map(&self) -> Map<u64, (usize, usize)> {
        pairs_to_map(self.packets_seq())
    }

    pub closed spec fn processed_spec(&self) -> int {
        self.processed as int
    }

    /// The parse cursor: the declared end of the last known chunk.
    pub open spec fn spec_frontier(chunks: Seq<ChunkInfo>) -> int {
        if chunks.len() == 0 {
            0
        } else {
            chunks.last().end as int
        }
    }

    /// Well-formed framing: chunk ranges tile the stream from offset 0, each
    /// range is exactly what the 2-byte big-endian length prefix at its start
    /// declares (so framing never fabricates bytes), the prefix itself has
    /// arrived, and `incomplete` records precisely whether the declared end is
    /// beyond the bytes available.
    pub open spec fn chunk_ok(chunks: Seq<ChunkInfo>, data: Seq<u8>, i: int) -> bool {
        &&& !chunks[i].continuation
        &&& chunks[i].start + 2 <= data.len()
        &&& chunks[i].end == chunks[i].start + 2 + spec_u16_be(
            data[chunks[i].start as int],
            data[chunks[i].start + 1],
        )
        &&& chunks[i].incomplete == (chunks[i].end > data.len())
        &&& chunks[i].start == (if i == 0 {
            0int
        } else {
            chunks[i - 1].end as int
        })
    }

    pub open spec fn chunks_wf(chunks: Seq<ChunkInfo>, data: Seq<u8>) -> bool {
        forall|i: int| 0 <= i < chunks.len() ==> #[trigger] Self::chunk_ok(chunks, data, i)
    }

    pub open spec fn wf(&self) -> bool {
        &&& Self::chunks_wf(self.chunks_seq(), self.data_seq())
        &&& self.data_seq().len() < Self::spec_frontier(self.chunks_seq()) + 2
        &&& 1 <= self.processed_spec()
        &&& self.processed_spec() <= self.chunks_seq().len() || self.processed_spec() == 1
        &&& forall|i: int|
            1 <= i < self.processed_spec() ==> #[trigger] self.chunks_seq()[i].end
                <= self.data_seq().len()
        &&& pairs_unique(self.packets_seq())
        &&& forall|i: int|
            #![trigger self.packets_seq()[i]]
            0 <= i < self.packets_seq().len() ==> self.packets_seq()[i].1.0
                <= self.packets_seq()[i].1.1 <= self.data_seq().len()
    }

    pub fn new() -> (r: DirectBuffer)
        ensures
            r.wf(),
            r.data_seq() == Seq::<u8>::empty(),
            r.chunks_seq() == Seq::<ChunkInfo>::empty(),
            r.packets_map() == Map::<u64, (usize, usize)>::empty(),
            r.processed_spec() == 1,
    {
        let r = DirectBuffer {
            data: Vec::new(),
            chunks: Vec::new(),
            packets: Vec::new(),
            // the first chunk is the connection message and is never encrypted
            processed: 1,
        };
        proof {
            assert(r.data_seq() =~= Seq::<u8>::empty());
            assert(r.chunks_seq() =~= Seq::<ChunkInfo>::empty());
            assert(r.packets_map() =~= Map::<u64, (usize, usize)>::empty());
        }
        r
    }

    /// Appends a packet's payload, records the byte range it contributed, and
    /// parses every newly declarable chunk: whenever at least 2 bytes are
    /// available at the parse cursor, the big-endian length prefix there fixes
    /// the next chunk's range, whether or not its body has arrived yet.
    #[verifier::rlimit(100)]
    pub fn consume(&mut self, payload: &[u8], frame_index: u64)
        requires
            old(self).wf(),
            !old(self).packets_map().contains_key(frame_index),
            old(self).data_seq().len() + payload@.len() + 0x10002 <= usize::MAX,
        ensures
            final(self).wf(),
            final(self).data_seq() == old(self).data_seq() + payload@,
            final(self).packets_map() == old(self).packets_map().insert(
                frame_index,
                (
                    old(self).data_seq().len() as usize,
                    (old(self).data_seq().len() + payload@.len()) as usize,
                ),
            ),
            final(self).processed_spec() == old(self).processed_spec(),
            final(self).chunks_seq().len() >= old(self).chunks_seq().len(),
            forall|i: int|
                0 <= i < old(self).chunks_seq().len() ==> {
                    &&& (#[trigger] final(self).chunks_seq()[i]).start == old(
                        self,
                    ).chunks_seq()[i].start
                    &&& final(self).chunks_seq()[i].end == old(self).chunks_seq()[i].end
                    &&& final(self).chunks_seq()[i].continuation == old(
                        self,
                    ).chunks_seq()[i].continuation
                },
    {
        let start = self.data.len();
        append_bytes(&mut self.data, payload);
        let end = self.data.len();
        proof {
            if exists|i: int|
                0 <= i < self.packets@.len() && (#[trigger] self.packets@[i]).0 == frame_index {
                let i = choose|i: int|
                    0 <= i < self.packets@.len() && (#[trigger] self.packets@[i]).0 == frame_index;
                lemma_pairs_map_lookup(self.packets@, i);
                assert(false);
            }
        }
        self.packets.push((frame_index, (start, end)));
        proof {
            assert(self.packets@.drop_last() =~= old(self).packets_seq());
        }
        // Newly arrived bytes may have completed previously incomplete chunks.
        let n_chunks = self.chunks.len();
        let mut k: usize = 0;
        while k < n_chunks
            invariant
                old(self).wf(),
                old(self).data_seq().len() <= end,
                n_chunks == self.chunks@.len(),
                n_chunks == old(self).chunks_seq().len(),
                k <= n_chunks,
                self.data@ == old(self).data_seq() + payload@,
                self.data@.len() == end,
                self.packets@ == old(self).packets_seq().push(
                    (frame_index, (start, end)),
                ),
                self.processed == old(self).processed_spec(),
                forall|i: int|
                    0 <= i < n_chunks ==> {
                        &&& (#[trigger] self.chunks@[i]).start == old(self).chunks_seq()[i].start
                        &&& self.chunks@[i].end == old(self).chunks_seq()[i].end
                        &&& self.chunks@[i].continuation == old(self).chunks_seq()[i].continuation
                    },
                forall|i: int|
                    0 <= i < k ==> (#[trigger] self.chunks@[i]).incomplete == (self.chunks@[i].end
                        > self.data@.len()),
                forall|i: int|
                    k <= i < n_chunks ==> (#[trigger] self.chunks@[i]).incomplete == old(
                        self,
                    ).chunks_seq()[i].incomplete,
            decreases n_chunks - k,
        {
            proof {
                assert(Self::chunk_ok(old(self).chunks_seq(), old(self).data_seq(), k as int));
            }
            let ce = self.chunks[k].end;
            if ce <= end {
                let mut c = self.chunks[k];
                c.incomplete = false;
                self.chunks[k] = c;
            }
            k = k + 1;
        }
        // Parse every chunk whose 2-byte length prefix is now available.
        let ghost chunks_mid = self.chunks@;
        let mut position: usize = if self.chunks.len() == 0 {
            0
        } else {
            self.chunks[self.chunks.len() - 1].end
        };
        proof {
            assert forall|i: int| 0 <= i < self.chunks@.len() implies #[trigger] Self::chunk_ok(
                self.chunks@,
                self.data@,
                i,
            ) by {
                assert(Self::chunk_ok(old(self).chunks_seq(), old(self).data_seq(), i));
                let st = old(self).chunks_seq()[i].start as int;
                assert(self.data@[st] == old(self).data_seq()[st]);
                assert(self.data@[st + 1] == old(self).data_seq()[st + 1]);
                if i > 0 {
                    assert(self.chunks@[i - 1].end == old(self).chunks_seq()[i - 1].end);
                }
            }
            assert(Self::chunks_wf(self.chunks@, self.data@));
            if self.chunks@.len() > 0 {
                assert(Self::chunk_ok(self.chunks@, self.data@, self.chunks@.len() - 1));
            }
        }
        while position + 2 <= end
            invariant
                self.data@ == old(self).data_seq() + payload@,
                self.data@.len() == end,
                end + 0x10002 <= usize::MAX,
                self.packets@ == old(self).packets_seq().push((frame_index, (start, end))),
                self.processed == old(self).processed_spec(),
                Self::chunks_wf(self.chunks@, self.data@),
                position == Self::spec_frontier(self.chunks@),
                position <= end + 0x10000,
                chunks_mid.len() == old(self).chunks_seq().len(),
                chunks_mid.len() <= self.chunks@.len(),
                forall|i: int| 0 <= i < chunks_mid.len() ==> #[trigger] self.chunks@[i]
                    == chunks_mid[i],
                forall|i: int|
                    0 <= i < chunks_mid.len() ==> {
                        &&& (#[trigger] chunks_mid[i]).start == old(self).chunks_seq()[i].start
                        &&& chunks_mid[i].end == old(self).chunks_seq()[i].end
                        &&& chunks_mid[i].continuation == old(self).chunks_seq()[i].continuation
                    },
            decreases clamp_nonneg(end + 2 - position),
        {
            let hi = self.data[position];
            let lo = self.data[position + 1];
            let length = u16_be(hi, lo) as usize;
            let this_end = position + 2 + length;
            let info = ChunkInfo {
                start: position,
                end: this_end,
                continuation: false,
                incomplete: this_end > end,
            };
            let ghost pre = self.chunks@;
            self.chunks.push(info);
            proof {
                assert forall|i: int| 0 <= i < self.chunks@.len() implies #[trigger] Self::chunk_ok(
                    self.chunks@,
                    self.data@,
                    i,
                ) by {
                    if i < pre.len() {
                        assert(Self::chunk_ok(pre, self.data@, i));
                        assert(self.chunks@[i] == pre[i]);
                        if i > 0 {
                            assert(self.chunks@[i - 1] == pre[i - 1]);
                        }
                    } else {
                        assert(self.chunks@[i] == info);
                        if i > 0 {
                            assert(Self::chunk_ok(pre, self.data@, i - 1));
                            assert(self.chunks@[i - 1] == pre[i - 1]);
                        }
                    }
                }
                assert(Self::chunks_wf(self.chunks@, self.data@));
            }
            position = this_end;
        }
        proof {
            assert forall|i: int| 0 <= i < old(self).packets_seq().len() implies #[trigger] self
                .packets@[i] == old(self).packets_seq()[i] by {}
            assert(pairs_unique(self.packets@));
            assert forall|i: int|
                0 <= i < self.packets@.len() implies (#[trigger] self.packets@[i]).1.0
                <= self.packets@[i].1.1 <= self.data@.len() by {
                if i < old(self).packets_seq().len() {
                    assert(old(self).packets_seq()[i].1.1 <= old(self).data_seq().len());
                }
            }
            assert(final(self).packets_map() =~= old(self).packets_map().insert(
                frame_index,
                (start, end),
            ));
            assert forall|i: int| 1 <= i < self.processed implies (#[trigger] self.chunks@[i]).end
                <= self.data@.len() by {
                assert(old(self).chunks_seq()[i].end <= old(self).data_seq().len());
                assert(self.chunks@[i].end == old(self).chunks_seq()[i].end);
            }
        }
    }

    /// Chunk `i`'s declared body in `data`: the bytes after its 2-byte length
    /// prefix, up to its declared end.
    pub open spec fn spec_body(chunks: Seq<ChunkInfo>, data: Seq<u8>, i: int) -> Seq<u8> {
        data.subrange(chunks[i].start + 2, chunks[i].end as int)
    }

    /// Chunk `i` was decrypted in place: its plaintext region in `new_data`
    /// holds exactly the authenticated opening of its body in `old_data`,
    /// under the direction-scoped nonce numbered `i - 1`.
    pub open spec fn spec_chunk_decrypted(
        chunks: Seq<ChunkInfo>,
        old_data: Seq<u8>,
        new_data: Seq<u8>,
        key: Seq<u8>,
        sender: Sender,
        i: int,
    ) -> bool {
        open_of(
            key,
            spec_nonce_bytes(spec_nonce_for(sender, i - 1)),
            Self::spec_body(chunks, old_data, i),
        ) == Some(new_data.subrange(chunks[i].start + 2, chunks[i].end - 16))
    }

    /// Whether offset `j` lies in the plaintext region of some chunk with
    /// index in `[lo, hi)`.
    pub open spec fn spec_in_decrypted_body(
        chunks: Seq<ChunkInfo>,
        lo: int,
        hi: int,
        j: int,
    ) -> bool {
        exists|i: int| lo <= i < hi && (#[trigger] chunks[i]).start + 2 <= j < chunks[i].end - 16
    }

    /// Decrypts, in order, every chunk beyond the processed cursor whose
    /// declared range has fully arrived, overwriting each body's leading bytes
    /// with the plaintext (the trailing 16 tag bytes stay). Stops at the first
    /// chunk whose tag does not authenticate (or whose declared body is too
    /// short to carry a tag), reporting the sender and that chunk's index
    /// without advancing past it.
    #[verifier::rlimit(100)]
    pub fn decrypt(&mut self, decipher: &Decipher, sender: Sender) -> (r: Result<
        (),
        DecryptError,
    >)
        requires
            old(self).wf(),
            decipher.wf(),
        ensures
            final(self).wf(),
            final(self).chunks_seq() == old(self).chunks_seq(),
            final(self).packets_seq() == old(self).packets_seq(),
            final(self).data_seq().len() == old(self).data_seq().len(),
            old(self).processed_spec() <= final(self).processed_spec(),
            forall|i: int|
                old(self).processed_spec() <= i < final(self).processed_spec()
                    ==> #[trigger] Self::spec_chunk_decrypted(
                    old(self).chunks_seq(),
                    old(self).data_seq(),
                    final(self).data_seq(),
                    decipher.key_seq(),
                    sender,
                    i,
                ),
            forall|j: int|
                0 <= j < old(self).data_seq().len() && !Self::spec_in_decrypted_body(
                    old(self).chunks_seq(),
                    old(self).processed_spec(),
                    final(self).processed_spec(),
                    j,
                ) ==> #[trigger] final(self).data_seq()[j] == old(self).data_seq()[j],
            match r {
                Ok(()) => final(self).processed_spec() >= old(self).chunks_seq().len() || old(
                    self,
                ).chunks_seq()[final(self).processed_spec()].end > old(self).data_seq().len(),
                Err(e) => {
                    let c = old(self).chunks_seq()[final(self).processed_spec()];
                    &&& e.sender == sender
                    &&& e.chunk_number == final(self).processed_spec()
                    &&& final(self).processed_spec() < old(self).chunks_seq().len()
                    &&& c.end <= old(self).data_seq().len()
                    &&& (c.end - c.start - 2 < 16 || open_of(
                        decipher.key_seq(),
                        spec_nonce_bytes(spec_nonce_for(sender, final(self).processed_spec() - 1)),
                        old(self).data_seq().subrange(c.start + 2, c.end as int),
                    ) is None)
                },
            },
    {
        let ghost old_p = old(self).processed_spec();
        while self.processed < self.chunks.len()
            invariant
                decipher.wf(),
                self.wf(),
                self.chunks@ == old(self).chunks_seq(),
                self.packets@ == old(self).packets_seq(),
                self.data@.len() == old(self).data_seq().len(),
                old_p == old(self).processed_spec(),
                old_p <= self.processed,
                forall|i: int|
                    old_p <= i < self.processed ==> (#[trigger] self.chunks@[i]).start + 2 + 16
                        <= self.chunks@[i].end,
                forall|i: int|
                    old_p <= i < self.processed ==> #[trigger] Self::spec_chunk_decrypted(
                        self.chunks@,
                        old(self).data_seq(),
                        self.data@,
                        decipher.key_seq(),
                        sender,
                        i,
                    ),
                forall|j: int|
                    0 <= j < self.data@.len() && !Self::spec_in_decrypted_body(
                        self.chunks@,
                        old_p,
                        self.processed as int,
                        j,
                    ) ==> #[trigger] self.data@[j] == old(self).data_seq()[j],
            decreases self.chunks@.len() - self.processed,
        {
            let ghost p = self.processed as int;
            let c = self.chunks[self.processed];
            if c.end > self.data.len() {
                return Ok(());
            }
            proof {
                assert(c == self.chunks@[p]);
                assert(Self::chunk_ok(self.chunks@, self.data@, p));
                assert(c.end >= c.start + 2);
                lemma_untouched_body(self.chunks@, old(self).data_seq(), self.data@, old_p, p);
            }
            let base = c.start + 2;
            let body_len = c.end - base;
            if body_len < 16 {
                return Err(DecryptError { sender, chunk_number: self.processed });
            }
            let counter = (self.processed - 1) as u64;
            let nonce = NonceAddition::from_sender(sender, counter);
            proof {
                assert(nonce == spec_nonce_for(sender, p - 1));
            }
            let cipher_text = vstd::slice::slice_subrange(self.data.as_slice(), base, c.end);
            match decipher.decrypt(cipher_text, nonce) {
                Some(plain) => {
                    let ghost data0 = self.data@;
                    let m = plain.len();
                    proof {
                        assert(base + m + 16 == c.end);
                    }
                    let mut k: usize = 0;
                    while k < m
                        invariant
                            m == plain@.len(),
                            k <= m,
                            base == c.start + 2,
                            base + m + 16 == c.end,
                            c.end <= self.data@.len(),
                            self.data@.len() == data0.len(),
                            self.chunks@ == old(self).chunks_seq(),
                            self.packets@ == old(self).packets_seq(),
                            self.processed == p,
                            forall|j: int|
                                0 <= j < self.data@.len() ==> #[trigger] self.data@[j] == (if base
                                    <= j < base + k {
                                    plain@[j - base]
                                } else {
                                    data0[j]
                                }),
                        decreases m - k,
                    {
                        let idx = base + k;
                        self.data[idx] = plain[k];
                        k = k + 1;
                    }
                    self.processed = self.processed + 1;
                    proof {
                        lemma_decrypt_step(
                            self.chunks@,
                            old(self).data_seq(),
                            data0,
                            self.data@,
                            decipher.key_seq(),
                            sender,
                            old_p,
                            p,
                            plain@,
                        );
                        assert(Self::chunks_wf(self.chunks@, self.data@));
                        assert(self.wf());
                    }
                },
                None => {
                    return Err(DecryptError { sender, chunk_number: self.processed });
                },
            }
        }
        Ok(())
    }

    /// Whether a packet with this capture number has been consumed.
    pub fn has_packet(&self, index: u64) -> (r: bool)
        requires
            self.wf(),
        ensures
            r == self.packets_map().contains_key(index),
    {
        let n = self.packets.len();
        let mut i: usize = 0;
        while i < n
            invariant
                n == self.packets@.len(),
                i <= n,
                self.wf(),
                forall|j: int| 0 <= j < i ==> (#[trigger] self.packets@[j]).0 != index,
            decreases n - i,
        {
            if self.packets[i].0 == index {
                proof {
                    lemma_pairs_map_lookup(self.packets@, i as int);
                }
                return true;
            }
            i = i + 1;
        }
        proof {
            lemma_pairs_map_no_key(self.packets@, index);
        }
        false
    }

    /// The byte range that the packet with this capture number contributed.
    /// Querying a packet that was never consumed is a caller error, excluded
    /// by precondition.
    pub fn packet(&self, index: u64) -> (r: (usize, usize))
        requires
            self.wf(),
            self.packets_map().contains_key(index),
        ensures
            r == self.packets_map()[index],
            r.0 <= r.1 <= self.data_seq().len(),
    {
        let n = self.packets.len();
        let mut i: usize = 0;
        while i < n
            invariant
                n == self.packets@.len(),
                i <= n,
                self.wf(),
                self.packets_map().contains_key(index),
                forall|j: int| 0 <= j < i ==> (#[trigger] self.packets@[j]).0 != index,
            decreases n - i,
        {
            if self.packets[i].0 == index {
                proof {
                    lemma_pairs_map_lookup(self.packets@, i as int);
                }
                return self.packets[i].1;
            }
            i = i + 1;
        }
        proof {
            lemma_pairs_map_no_key(self.packets@, index);
        }
        (0, 0)
    }

    /// How many chunks have been decrypted so far; the unencrypted connection
    /// message counts as the first.
    pub fn decrypted(&self) -> (r: usize)
        ensures
            r == self.processed_spec(),
    {
        self.processed
    }

    /// The cumulative byte buffer.
    pub fn data(&self) -> (r: &[u8])
        ensures
            r@ == self.data_seq(),
    {
        self.data.as_slice()
    }

    /// The chunk descriptors, in buffer order.
    pub fn chunks(&self) -> (r: &[ChunkInfo])
        ensures
            r@ == self.chunks_seq(),
    {
        self.chunks.as_slice()
    }
}


/// The body of the chunk at `p` is untouched by the in-place decryption of
/// the chunks before it: their plaintext regions all lie strictly before it.
proof fn lemma_untouched_body(chunks: Seq<ChunkInfo>, od: Seq<u8>, cur: Seq<u8>, old_p: int, p: int)
    requires
        DirectBuffer::chunks_wf(chunks, cur),
        od.len() == cur.len(),
        0 <= old_p <= p < chunks.len(),
        chunks[p].end <= cur.len(),
        forall|j: int|
            0 <= j < cur.len() && !DirectBuffer::spec_in_decrypted_body(chunks, old_p, p, j)
                ==> #[trigger] cur[j] == od[j],
    ensures
        cur.subrange(chunks[p].start + 2, chunks[p].end as int) == od.subrange(
            chunks[p].start + 2,
            chunks[p].end as int,
        ),
{
    assert(DirectBuffer::chunk_ok(chunks, cur, p));
    assert forall|j: int| chunks[p].start + 2 <= j < chunks[p].end implies cur[j] == od[j] by {
        if DirectBuffer::spec_in_decrypted_body(chunks, old_p, p, j) {
            let i = choose|i: int|
                old_p <= i < p && (#[trigger] chunks[i]).start + 2 <= j < chunks[i].end - 16;
            lemma_chunk_ranges_ordered(chunks, cur, i, p);
            assert(false);
        }
    }
    assert(cur.subrange(chunks[p].start + 2, chunks[p].end as int) =~= od.subrange(
        chunks[p].start + 2,
        chunks[p].end as int,
    ));
}

/// One in-place decryption step: writing chunk `p`'s plaintext over the
/// leading bytes of its body preserves the framing invariant, preserves every
/// earlier chunk's recorded plaintext, and touches no byte outside the
/// decrypted bodies.
#[verifier::rlimit(100)]
#[verifier::spinoff_prover]
proof fn lemma_wf_after_write(
    chunks: Seq<ChunkInfo>,
    data0: Seq<u8>,
    nd: Seq<u8>,
    p: int,
    plain: Seq<u8>,
)
    requires
        DirectBuffer::chunks_wf(chunks, data0),
        0 <= p < chunks.len(),
        nd.len() == data0.len(),
        chunks[p].end <= data0.len(),
        chunks[p].start + 2 + plain.len() + 16 == chunks[p].end,
        forall|j: int|
            0 <= j < nd.len() ==> #[trigger] nd[j] == (if chunks[p].start + 2 <= j < chunks[p].start
                + 2 + plain.len() {
                plain[j - (chunks[p].start + 2)]
            } else {
                data0[j]
            }),
    ensures
        DirectBuffer::chunks_wf(chunks, nd),
{
    assert forall|q: int| 0 <= q < chunks.len() implies #[trigger] DirectBuffer::chunk_ok(
        chunks,
        nd,
        q,
    ) by {
        assert(DirectBuffer::chunk_ok(chunks, data0, q));
        if q < p {
            lemma_chunk_ranges_ordered(chunks, data0, q, p);
        } else if q > p {
            lemma_chunk_ranges_ordered(chunks, data0, p, q);
        }
        assert(nd[chunks[q].start as int] == data0[chunks[q].start as int]);
        assert(nd[chunks[q].start + 1] == data0[chunks[q].start + 1]);
    }
}

#[verifier::rlimit(100)]
#[verifier::spinoff_prover]
proof fn lemma_decrypt_step(
    chunks: Seq<ChunkInfo>,
    od: Seq<u8>,
    data0: Seq<u8>,
    nd: Seq<u8>,
    key: Seq<u8>,
    sender: Sender,
    old_p: int,
    p: int,
    plain: Seq<u8>,
)
    requires
        DirectBuffer::chunks_wf(chunks, data0),
        0 <= old_p <= p < chunks.len(),
        od.len() == data0.len(),
        nd.len() == data0.len(),
        chunks[p].end <= data0.len(),
        chunks[p].start + 2 + plain.len() + 16 == chunks[p].end,
        forall|j: int|
            0 <= j < nd.len() ==> #[trigger] nd[j] == (if chunks[p].start + 2 <= j < chunks[p].start
                + 2 + plain.len() {
                plain[j - (chunks[p].start + 2)]
            } else {
                data0[j]
            }),
        forall|j: int|
            0 <= j < data0.len() && !DirectBuffer::spec_in_decrypted_body(chunks, old_p, p, j)
                ==> #[trigger] data0[j] == od[j],
        forall|i: int|
            old_p <= i < p ==> (#[trigger] chunks[i]).start + 2 + 16 <= chunks[i].end,
        forall|i: int|
            old_p <= i < p ==> #[trigger] DirectBuffer::spec_chunk_decrypted(
                chunks,
                od,
                data0,
                key,
                sender,
                i,
            ),
        open_of(
            key,
            spec_nonce_bytes(spec_nonce_for(sender, p - 1)),
            od.subrange(chunks[p].start + 2, chunks[p].end as int),
        ) == Some(plain),
    ensures
        DirectBuffer::chunks_wf(chunks, nd),
        forall|i: int|
            old_p <= i < p + 1 ==> #[trigger] DirectBuffer::spec_chunk_decrypted(
                chunks,
                od,
                nd,
                key,
                sender,
                i,
            ),
        forall|j: int|
            0 <= j < nd.len() && !DirectBuffer::spec_in_decrypted_body(chunks, old_p, p + 1, j)
                ==> #[trigger] nd[j] == od[j],
{
    let base = chunks[p].start + 2;
    assert(DirectBuffer::chunk_ok(chunks, data0, p));
    lemma_wf_after_write(chunks, data0, nd, p, plain);
    assert(nd.subrange(base, chunks[p].end - 16) =~= plain);
    assert(DirectBuffer::spec_chunk_decrypted(chunks, od, nd, key, sender, p));
    assert forall|i: int| old_p <= i < p implies #[trigger] DirectBuffer::spec_chunk_decrypted(
        chunks,
        od,
        nd,
        key,
        sender,
        i,
    ) by {
        assert(DirectBuffer::chunk_ok(chunks, data0, i));
        lemma_chunk_ranges_ordered(chunks, data0, i, p);
        assert(DirectBuffer::spec_chunk_decrypted(chunks, od, data0, key, sender, i));
        assert(nd.subrange(chunks[i].start + 2, chunks[i].end - 16) =~= data0.subrange(
            chunks[i].start + 2,
            chunks[i].end - 16,
        ));
    }
    assert forall|j: int|
        0 <= j < nd.len() && !DirectBuffer::spec_in_decrypted_body(
            chunks,
            old_p,
            p + 1,
            j,
        ) implies #[trigger] nd[j] == od[j] by {
        assert(!(chunks[p].start + 2 <= j < chunks[p].end - 16));
        if DirectBuffer::spec_in_decrypted_body(chunks, old_p, p, j) {
            let i = choose|i: int|
                old_p <= i < p && (#[trigger] chunks[i]).start + 2 <= j < chunks[i].end - 16;
            assert(DirectBuffer::spec_in_decrypted_body(chunks, old_p, p + 1, j));
            assert(false);
        }
    }
}

/// Law: framing never fabricates bytes. Every declared chunk range is
/// justified by a length prefix that has really arrived: its two prefix bytes
/// lie within the consumed data, and its declared end is exactly what that
/// prefix says.
pub proof fn lemma_framing_never_fabricates(b: &DirectBuffer, i: int)
    requires
        b.wf(),
        0 <= i < b.chunks_seq().len(),
    ensures
        b.chunks_seq()[i].start + 2 <= b.data_seq().len(),
        b.chunks_seq()[i].end == b.chunks_seq()[i].start + 2 + spec_u16_be(
            b.data_seq()[b.chunks_seq()[i].start as int],
            b.data_seq()[b.chunks_seq()[i].start + 1],
        ),
{
    assert(DirectBuffer::chunk_ok(b.chunks_seq(), b.data_seq(), i));
}

/// Law: well-formed chunk ranges are strictly increasing and non-overlapping.
pub proof fn lemma_chunk_ranges_ordered(chunks: Seq<ChunkInfo>, data: Seq<u8>, i: int, j: int)
    requires
        DirectBuffer::chunks_wf(chunks, data),
        0 <= i <= j < chunks.len(),
    ensures
        chunks[i].start <= chunks[j].start,
        chunks[i].end <= chunks[j].end,
        i < j ==> chunks[i].end <= chunks[j].start && chunks[i].start < chunks[j].start,
    decreases j - i,
{
    assert(DirectBuffer::chunk_ok(chunks, data, i));
    assert(DirectBuffer::chunk_ok(chunks, data, j));
    if i < j {
        lemma_chunk_ranges_ordered(chunks, data, i, j - 1);
    }
}

} // verus!
