use vstd::prelude::*;
use crate::addresses::{Packet, Sender};
use crate::chunk_info::{spec_u16_be, u16_be, ChunkInfo};
use crate::cipher::Decipher;
use crate::cipher::{open_of, spec_nonce_bytes, spec_pow_ok};
use crate::direct_buffer::{spec_nonce_for, DecryptError, DirectBuffer};
use crate::identity::Identity;

verus! {

/// The unencrypted handshake payload carried by the first chunk of each
/// direction: a port, a 32-byte public key, a 24-byte proof-of-work nonce and
/// a trailing protocol version descriptor.
pub struct ConnectionMessage {
    pub port: u16,
    pub public_key: Vec<u8>,
    pub pow_nonce: Vec<u8>,
    pub version: Vec<u8>,
}

impl ConnectionMessage {
    pub open spec fn wf(&self) -> bool {
        self.public_key@.len() == 32 && self.pow_nonce@.len() == 24
    }
}

/// Parses a connection message from a chunk body: 2-byte big-endian port,
/// 32-byte public key, 24-byte proof-of-work nonce, rest is the version
/// descriptor. Bodies shorter than 58 bytes are rejected.
pub fn parse_connection_message(body: &[u8]) -> (r: Option<ConnectionMessage>)
    ensures
        r is Some <==> body@.len() >= 58,
        match r {
            Some(cm) => {
                &&& cm.wf()
                &&& cm.port == spec_u16_be(body@[0], body@[1])
                &&& cm.public_key@ == body@.subrange(2, 34)
                &&& cm.pow_nonce@ == body@.subrange(34, 58)
                &&& cm.version@ == body@.subrange(58, body@.len() as int)
            },
            None => true,
        },
{
    if body.len() < 58 {
        return None;
    }
    let port = u16_be(body[0], body[1]);
    let public_key = vstd::slice::slice_to_vec(vstd::slice::slice_subrange(body, 2, 34));
    let pow_nonce = vstd::slice::slice_to_vec(vstd::slice::slice_subrange(body, 34, 58));
    let version = vstd::slice::slice_to_vec(vstd::slice::slice_subrange(body, 58, body.len()));
    Some(ConnectionMessage { port, public_key, pow_nonce, version })
}

/// What one delivered packet taught the conversation.
pub enum ConsumeResult {
    /// The direction's first chunk completed and carries its connection
    /// message; `pow_ok` reports the proof-of-work check (true when no
    /// identity is configured, since the check is then skipped, and false
    /// when the message cannot even be parsed).
    ConnectionMessage { chunk: ChunkInfo, pow_ok: bool },
    /// Chunks newly decrypted by this packet, in buffer order.
    Chunks { regular: Vec<ChunkInfo> },
    /// New chunks were framed but decryption is unavailable (no identity, a
    /// failed proof of work, or a foreign key pair): structural data only.
    StructuralOnly { chunks: Vec<ChunkInfo> },
    /// The packet completed no chunk and decrypted nothing.
    NothingNew,
    /// A chunk failed authentication: the conversation is now terminally
    /// invalid.
    DecryptionFailed { error: DecryptError },
    /// The conversation was already invalid; nothing was mutated.
    InvalidConversation,
}

/// One bidirectional byte-stream pair: two direction buffers, the fixed
/// Initiator/Responder role assignment, the handshake state and, once the
/// handshake completes, the two directional deciphers.
pub struct Conversation {
    pow_target: u64,
    initiator_source: Option<u64>,
    initiator_buffer: DirectBuffer,
    responder_buffer: DirectBuffer,
    initiator_cm: Option<ConnectionMessage>,
    responder_cm: Option<ConnectionMessage>,
    pow_failed: bool,
    deciphers: Option<(Decipher, Decipher)>,
    invalid: bool,
}

impl Conversation {
    pub closed spec fn spec_invalid(&self) -> bool {
        self.invalid
    }

    pub closed spec fn spec_initiator_source(&self) -> Option<u64> {
        self.initiator_source
    }

    pub closed spec fn spec_buffer(&self, sender: Sender) -> DirectBuffer {
        match sender {
            Sender::Initiator => self.initiator_buffer,
            Sender::Responder => self.responder_buffer,
        }
    }

    pub closed spec fn spec_cm(&self, sender: Sender) -> Option<ConnectionMessage> {
        match sender {
            Sender::Initiator => self.initiator_cm,
            Sender::Responder => self.responder_cm,
        }
    }

    pub closed spec fn spec_deciphers(&self) -> Option<(Decipher, Decipher)> {
        self.deciphers
    }

    pub closed spec fn spec_pow_failed(&self) -> bool {
        self.pow_failed
    }

    pub closed spec fn spec_target(&self) -> u64 {
        self.pow_target
    }

    /// The opposite direction.
    pub open spec fn spec_other(sender: Sender) -> Sender {
        match sender {
            Sender::Initiator => Sender::Responder,
            Sender::Responder => Sender::Initiator,
        }
    }

    pub open spec fn wf(&self) -> bool {
        &&& self.spec_buffer(Sender::Initiator).wf()
        &&& self.spec_buffer(Sender::Responder).wf()
        &&& (match self.spec_deciphers() {
            Some(pair) => pair.0.wf() && pair.1.wf(),
            None => true,
        })
        &&& (match self.spec_cm(Sender::Initiator) {
            Some(cm) => cm.wf(),
            None => true,
        })
        &&& (match self.spec_cm(Sender::Responder) {
            Some(cm) => cm.wf(),
            None => true,
        })
        &&& (self.spec_deciphers() is Some ==> self.spec_cm(Sender::Initiator) is Some
            && self.spec_cm(Sender::Responder) is Some)
    }

    /// Everything a fresh conversation promises: no roles assigned, no
    /// connection messages, no deciphers, the proof of work neither checked
    /// nor failed, not invalid, empty buffers, and the given difficulty
    /// target.
    pub open spec fn spec_fresh(&self, pow_target: u64) -> bool {
        &&& !self.spec_invalid()
        &&& self.spec_initiator_source() is None
        &&& self.spec_deciphers() is None
        &&& !self.spec_pow_failed()
        &&& self.spec_target() == pow_target
        &&& self.spec_cm(Sender::Initiator) is None
        &&& self.spec_cm(Sender::Responder) is None
        &&& self.spec_buffer(Sender::Initiator).data_seq().len() == 0
        &&& self.spec_buffer(Sender::Responder).data_seq().len() == 0
        &&& self.spec_buffer(Sender::Initiator).chunks_seq().len() == 0
        &&& self.spec_buffer(Sender::Responder).chunks_seq().len() == 0
        &&& self.spec_buffer(Sender::Initiator).packets_map() == Map::<u64, (usize, usize)>::empty()
        &&& self.spec_buffer(Sender::Responder).packets_map() == Map::<u64, (usize, usize)>::empty()
        &&& self.spec_buffer(Sender::Initiator).processed_spec() == 1
        &&& self.spec_buffer(Sender::Responder).processed_spec() == 1
    }

    pub fn new(pow_target: u64) -> (r: Conversation)
        ensures
            r.wf(),
            r.spec_fresh(pow_target),
    {
        Conversation {
            pow_target,
            initiator_source: None,
            initiator_buffer: DirectBuffer::new(),
            responder_buffer: DirectBuffer::new(),
            initiator_cm: None,
            responder_cm: None,
            pow_failed: false,
            deciphers: None,
            invalid: false,
        }
    }

    /// Whether both deciphers exist: the conversation is streaming.
    pub fn is_streaming(&self) -> (r: bool)
        ensures
            r == (self.spec_deciphers() is Some),
    {
        self.deciphers.is_some()
    }

    pub fn is_invalid(&self) -> (r: bool)
        ensures
            r == self.spec_invalid(),
    {
        self.invalid
    }

    /// Read access to one direction's buffer, for rendering and queries.
    pub fn buffer(&self, sender: Sender) -> (r: &DirectBuffer)
        ensures
            *r == self.spec_buffer(sender),
    {
        match sender {
            Sender::Initiator => &self.initiator_buffer,
            Sender::Responder => &self.responder_buffer,
        }
    }

    /// The Sender role this packet would get: the endpoint that spoke first
    /// is the Initiator.
    pub fn sender_of(&self, packet: &Packet) -> (r: Sender)
        ensures
            r == (match self.spec_initiator_source() {
                Some(s) => if packet.source == s {
                    Sender::Initiator
                } else {
                    Sender::Responder
                },
                None => Sender::Initiator,
            }),
    {
        match self.initiator_source {
            Some(s) => if packet.source == s {
                Sender::Initiator
            } else {
                Sender::Responder
            },
            None => Sender::Initiator,
        }
    }

    /// The decryption key used for one direction, once deciphers exist.
    pub open spec fn spec_decipher_key(deciphers: Option<(Decipher, Decipher)>, sender: Sender) -> Seq<u8> {
        match deciphers {
            Some(pair) => match sender {
                Sender::Initiator => pair.0.key_seq(),
                Sender::Responder => pair.1.key_seq(),
            },
            None => Seq::empty(),
        }
    }

    /// The whole effect of delivering one packet: what `add` promises of the
    /// conversation before (`pre`) and after (`post`), the outcome `result`,
    /// the assigned `sender` and the contributed byte `range`.
    pub open spec fn spec_add_outcome(
        pre: Conversation,
        post: Conversation,
        identity: Option<Identity>,
        packet: Packet,
        result: ConsumeResult,
        sender: Sender,
        range: (usize, usize),
    ) -> bool {
        if pre.spec_invalid() {
            // Terminal state: nothing is mutated.
            &&& post == pre
            &&& result is InvalidConversation
            &&& range.0 == 0 && range.1 == 0
        } else {
            let ob = pre.spec_buffer(sender);
            let nb = post.spec_buffer(sender);
            let consumed = ob.data_seq() + packet.payload@;
            let key = Self::spec_decipher_key(post.spec_deciphers(), sender);
            &&& post.spec_target() == pre.spec_target()
            // Roles are fixed by whoever spoke first, immutably.
            &&& post.spec_initiator_source() == Some(
                match pre.spec_initiator_source() {
                    Some(s) => s,
                    None => packet.source,
                },
            )
            &&& sender == (if packet.source == post.spec_initiator_source().unwrap() {
                Sender::Initiator
            } else {
                Sender::Responder
            })
            // Routing: only the sending direction's buffer changes, gaining
            // exactly this payload and this packet range.
            &&& post.spec_buffer(Self::spec_other(sender)) == pre.spec_buffer(
                Self::spec_other(sender),
            )
            &&& nb.packets_map() == ob.packets_map().insert(packet.number, range)
            &&& range.0 == ob.data_seq().len()
            &&& range.1 == range.0 + packet.payload@.len()
            &&& nb.data_seq().len() == consumed.len()
            &&& nb.chunks_seq().len() >= ob.chunks_seq().len()
            &&& (forall|i: int|
                0 <= i < ob.chunks_seq().len() ==> {
                    &&& (#[trigger] nb.chunks_seq()[i]).start == ob.chunks_seq()[i].start
                    &&& nb.chunks_seq()[i].end == ob.chunks_seq()[i].end
                })
            // Buffer content: outside the bodies decrypted by this call the
            // buffer holds the old bytes followed by the payload; each newly
            // decrypted body holds the authenticated opening of the bytes
            // that arrived for it.
            &&& ob.processed_spec() <= nb.processed_spec()
            &&& (forall|j: int|
                0 <= j < nb.data_seq().len() && !DirectBuffer::spec_in_decrypted_body(
                    nb.chunks_seq(),
                    ob.processed_spec(),
                    nb.processed_spec(),
                    j,
                ) ==> #[trigger] nb.data_seq()[j] == consumed[j])
            &&& (forall|i: int|
                ob.processed_spec() <= i < nb.processed_spec()
                    ==> #[trigger] DirectBuffer::spec_chunk_decrypted(
                    nb.chunks_seq(),
                    consumed,
                    nb.data_seq(),
                    key,
                    sender,
                    i,
                ))
            // The conversation is invalid exactly after an authentication
            // failure, which is always surfaced, never dropped.
            &&& (post.spec_invalid() <==> result is DecryptionFailed)
            // Handshake: the connection message is surfaced exactly when this
            // direction's first chunk just completed.
            &&& ((pre.spec_cm(sender) is None && nb.chunks_seq().len() > 0
                && nb.chunks_seq()[0].end <= nb.data_seq().len()) <==> result
                is ConnectionMessage)
            &&& (match result {
                ConsumeResult::ConnectionMessage { chunk, pow_ok } => {
                    let body = nb.data_seq().subrange(chunk.start + 2, chunk.end as int);
                    &&& chunk == nb.chunks_seq()[0]
                    &&& nb.processed_spec() == ob.processed_spec()
                    &&& post.spec_cm(Self::spec_other(sender)) == pre.spec_cm(
                        Self::spec_other(sender),
                    )
                    &&& (body.len() < 58 ==> !pow_ok && post.spec_cm(sender) is None)
                    &&& (body.len() >= 58 ==> {
                        &&& post.spec_cm(sender) is Some
                        &&& post.spec_cm(sender).unwrap().public_key@ == body.subrange(2, 34)
                        &&& post.spec_cm(sender).unwrap().pow_nonce@ == body.subrange(34, 58)
                        &&& pow_ok == (match identity {
                            Some(id) => spec_pow_ok(
                                body.subrange(2, 34),
                                body.subrange(34, 58),
                                pre.spec_target(),
                            ),
                            None => true,
                        })
                    })
                },
                _ => post.spec_cm(Sender::Initiator) == pre.spec_cm(Sender::Initiator)
                    && post.spec_cm(Sender::Responder) == pre.spec_cm(Sender::Responder),
            })
            &&& post.spec_pow_failed() == (pre.spec_pow_failed() || (result matches
            ConsumeResult::ConnectionMessage { chunk: _, pow_ok: false }))
            // Key derivation: performed exactly once, when both connection
            // messages are known, the proof of work has not failed, and the
            // identity's own key is one of the announced keys; the derived
            // keys are the ones the identity prescribes.
            &&& (pre.spec_deciphers() is Some ==> post.spec_deciphers() == pre.spec_deciphers())
            &&& (pre.spec_deciphers() is None ==> (post.spec_deciphers() is Some <==> (match (
                identity,
                post.spec_cm(Sender::Initiator),
                post.spec_cm(Sender::Responder),
            ) {
                (Some(id), Some(icm), Some(rcm)) => !post.spec_pow_failed() && (id.spec_is_local(
                    icm.public_key@,
                ) || id.spec_is_local(rcm.public_key@)),
                _ => false,
            })))
            &&& ((pre.spec_deciphers() is None && post.spec_deciphers() is Some) ==> (match (
                identity,
                post.spec_cm(Sender::Initiator),
                post.spec_cm(Sender::Responder),
            ) {
                (Some(id), Some(icm), Some(rcm)) => {
                    let peer_pk = if id.spec_is_local(icm.public_key@) {
                        rcm.public_key@
                    } else {
                        icm.public_key@
                    };
                    let keys = id.spec_derived_keys(peer_pk, icm.public_key@, rcm.public_key@);
                    &&& post.spec_deciphers().unwrap().0.key_seq() == keys.0
                    &&& post.spec_deciphers().unwrap().1.key_seq() == keys.1
                },
                _ => false,
            }))
            // Streaming: with deciphers present and no new connection
            // message, the processed cursor advances as far as the arrived
            // chunks allow, every decrypted chunk is surfaced, and the first
            // unauthentic chunk stops everything and is reported.
            &&& (!(result is ConnectionMessage) && post.spec_deciphers() is Some ==> (match result {
                ConsumeResult::Chunks { regular } => {
                    &&& nb.processed_spec() > ob.processed_spec()
                    &&& regular@ == nb.chunks_seq().subrange(
                        ob.processed_spec(),
                        nb.processed_spec(),
                    )
                    &&& (nb.processed_spec() >= nb.chunks_seq().len()
                        || nb.chunks_seq()[nb.processed_spec()].end > nb.data_seq().len())
                },
                ConsumeResult::NothingNew => {
                    &&& nb.processed_spec() == ob.processed_spec()
                    &&& (nb.processed_spec() >= nb.chunks_seq().len()
                        || nb.chunks_seq()[nb.processed_spec()].end > nb.data_seq().len())
                },
                ConsumeResult::DecryptionFailed { error } => {
                    let c = nb.chunks_seq()[nb.processed_spec()];
                    &&& error.sender == sender
                    &&& error.chunk_number == nb.processed_spec()
                    &&& nb.processed_spec() < nb.chunks_seq().len()
                    &&& c.end <= nb.data_seq().len()
                    &&& (c.end - c.start - 2 < 16 || open_of(
                        key,
                        spec_nonce_bytes(spec_nonce_for(sender, nb.processed_spec() - 1)),
                        consumed.subrange(c.start + 2, c.end as int),
                    ) is None)
                },
                _ => false,
            }))
            // Without deciphers nothing is decrypted: newly framed chunks are
            // surfaced structurally.
            &&& (!(result is ConnectionMessage) && post.spec_deciphers() is None ==> {
                &&& nb.processed_spec() == ob.processed_spec()
                &&& (match result {
                    ConsumeResult::StructuralOnly { chunks } => nb.chunks_seq().len()
                        > ob.chunks_seq().len() && chunks@ == nb.chunks_seq().subrange(
                        ob.chunks_seq().len() as int,
                        nb.chunks_seq().len() as int,
                    ),
                    ConsumeResult::NothingNew => nb.chunks_seq().len() == ob.chunks_seq().len(),
                    _ => false,
                })
            })
        }
    }

    /// Routes one packet: fixes the sender roles on first contact, appends the
    /// payload to that direction's buffer, advances the handshake, decrypts
    /// what became decryptable, and reports what was learned together with
    /// the byte range the packet contributed.
    ///
    /// An invalid conversation is terminal: the call mutates nothing and
    /// reports `InvalidConversation`.
    #[verifier::rlimit(100)]
    #[verifier::spinoff_prover]
    pub fn add(&mut self, identity: Option<&Identity>, packet: &Packet) -> (r: (
        ConsumeResult,
        Sender,
        (usize, usize),
    ))
        requires
            old(self).wf(),
            match identity {
                Some(id) => id.wf(),
                None => true,
            },
            !old(self).spec_buffer(Sender::Initiator).packets_map().contains_key(packet.number),
            !old(self).spec_buffer(Sender::Responder).packets_map().contains_key(packet.number),
            old(self).spec_buffer(Sender::Initiator).data_seq().len() + packet.payload@.len()
                + 0x10002 <= usize::MAX,
            old(self).spec_buffer(Sender::Responder).data_seq().len() + packet.payload@.len()
                + 0x10002 <= usize::MAX,
        ensures
            final(self).wf(),
            Self::spec_add_outcome(
                *old(self),
                *final(self),
                (match identity {
                    Some(id) => Some(*id),
                    None => None,
                }),
                *packet,
                r.0,
                r.1,
                r.2,
            ),
            match r.0 {
                ConsumeResult::ConnectionMessage { chunk, .. } => !chunk.continuation,
                ConsumeResult::Chunks { regular } => forall|i: int|
                    0 <= i < regular@.len() ==> !(#[trigger] regular@[i]).continuation,
                ConsumeResult::StructuralOnly { chunks } => forall|i: int|
                    0 <= i < chunks@.len() ==> !(#[trigger] chunks@[i]).continuation,
                _ => true,
            },
    {
        if self.invalid {
            let sender = self.sender_of(packet);
            return (ConsumeResult::InvalidConversation, sender, (0, 0));
        }
        let sender = match self.initiator_source {
            Some(s) => if packet.source == s {
                Sender::Initiator
            } else {
                Sender::Responder
            },
            None => {
                self.initiator_source = Some(packet.source);
                Sender::Initiator
            },
        };
        // Append the payload to the sending direction's buffer.
        let start: usize;
        let end: usize;
        let pre_chunk_count: usize;
        match sender {
            Sender::Initiator => {
                pre_chunk_count = self.initiator_buffer.chunks().len();
                start = self.initiator_buffer.data().len();
                self.initiator_buffer.consume(packet.payload.as_slice(), packet.number);
                end = self.initiator_buffer.data().len();
            },
            Sender::Responder => {
                pre_chunk_count = self.responder_buffer.chunks().len();
                start = self.responder_buffer.data().len();
                self.responder_buffer.consume(packet.payload.as_slice(), packet.number);
                end = self.responder_buffer.data().len();
            },
        }
        // Handshake: extract this direction's connection message once its
        // first chunk is complete.
        let mut result: ConsumeResult = ConsumeResult::NothingNew;
        let mut new_cm = false;
        let cm_missing = match sender {
            Sender::Initiator => self.initiator_cm.is_none(),
            Sender::Responder => self.responder_cm.is_none(),
        };
        if cm_missing {
            let buffer = match sender {
                Sender::Initiator => &self.initiator_buffer,
                Sender::Responder => &self.responder_buffer,
            };
            let chunks = buffer.chunks();
            if chunks.len() > 0 {
                let c0 = chunks[0];
                proof {
                    assert(DirectBuffer::chunk_ok(buffer.chunks_seq(), buffer.data_seq(), 0));
                }
                if c0.end <= buffer.data().len() {
                    let body = vstd::slice::slice_subrange(buffer.data(), c0.start + 2, c0.end);
                    match parse_connection_message(body) {
                        Some(cm) => {
                            let pow_ok = match identity {
                                Some(_) => crate::cipher::check_proof_of_work(
                                    cm.public_key.as_slice(),
                                    cm.pow_nonce.as_slice(),
                                    self.pow_target,
                                ),
                                None => true,
                            };
                            if !pow_ok {
                                self.pow_failed = true;
                            }
                            match sender {
                                Sender::Initiator => {
                                    self.initiator_cm = Some(cm);
                                },
                                Sender::Responder => {
                                    self.responder_cm = Some(cm);
                                },
                            }
                            result = ConsumeResult::ConnectionMessage { chunk: c0, pow_ok };
                            new_cm = true;
                        },
                        None => {
                            // A first chunk too short to carry the handshake:
                            // decryption can never be established.
                            self.pow_failed = true;
                            result = ConsumeResult::ConnectionMessage { chunk: c0, pow_ok: false };
                            new_cm = true;
                        },
                    }
                }
            }
        }
        // Key derivation, once, when both connection messages are known.
        if !self.pow_failed {
            match (identity, &self.initiator_cm, &self.responder_cm, &self.deciphers) {
                (Some(id), Some(icm), Some(rcm), None) => {
                    self.deciphers = id.derive_deciphers(
                        icm.public_key.as_slice(),
                        rcm.public_key.as_slice(),
                    );
                },
                _ => {},
            }
        }
        // Streaming: decrypt whatever became decryptable in this direction.
        if !new_cm {
            match &self.deciphers {
                Some(pair) => {
                    let outcome: Result<(), DecryptError>;
                    let pre_processed: usize;
                    let post_processed: usize;
                    match sender {
                        Sender::Initiator => {
                            pre_processed = self.initiator_buffer.decrypted();
                            outcome = self.initiator_buffer.decrypt(&pair.0, sender);
                            post_processed = self.initiator_buffer.decrypted();
                        },
                        Sender::Responder => {
                            pre_processed = self.responder_buffer.decrypted();
                            outcome = self.responder_buffer.decrypt(&pair.1, sender);
                            post_processed = self.responder_buffer.decrypted();
                        },
                    }
                    match outcome {
                        Ok(()) => {
                            if post_processed > pre_processed {
                                let buffer = match sender {
                                    Sender::Initiator => &self.initiator_buffer,
                                    Sender::Responder => &self.responder_buffer,
                                };
                                let regular = vstd::slice::slice_to_vec(
                                    vstd::slice::slice_subrange(
                                        buffer.chunks(),
                                        pre_processed,
                                        post_processed,
                                    ),
                                );
                                proof {
                                    assert forall|i: int| 0 <= i < regular@.len() implies !(
                                    #[trigger] regular@[i]).continuation by {
                                        assert(DirectBuffer::chunk_ok(
                                            buffer.chunks_seq(),
                                            buffer.data_seq(),
                                            pre_processed + i,
                                        ));
                                    }
                                }
                                result = ConsumeResult::Chunks { regular };
                            }
                        },
                        Err(error) => {
                            self.invalid = true;
                            result = ConsumeResult::DecryptionFailed { error };
                        },
                    }
                },
                None => {
                    // No decipher: report newly framed chunks structurally.
                    let buffer = match sender {
                        Sender::Initiator => &self.initiator_buffer,
                        Sender::Responder => &self.responder_buffer,
                    };
                    let chunks = buffer.chunks();
                    if chunks.len() > pre_chunk_count {
                        let fresh = vstd::slice::slice_to_vec(
                            vstd::slice::slice_subrange(chunks, pre_chunk_count, chunks.len()),
                        );
                        proof {
                            assert forall|i: int| 0 <= i < fresh@.len() implies !(
                            #[trigger] fresh@[i]).continuation by {
                                assert(DirectBuffer::chunk_ok(
                                    buffer.chunks_seq(),
                                    buffer.data_seq(),
                                    pre_chunk_count + i,
                                ));
                            }
                        }
                        result = ConsumeResult::StructuralOnly { chunks: fresh };
                    }
                },
            }
        }
        (result, sender, (start, end))
    }
}

} // verus!
