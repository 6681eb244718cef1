use vstd::prelude::*;
use crate::bytes_util::{append_bytes, bytes_eq};
use crate::cipher;
use crate::cipher::Decipher;

verus! {

/// The directional decryption key: the digest of the shared secret
/// concatenated with the sending side's public key, which separates the two
/// directions of one conversation.
pub open spec fn spec_directional_key(shared: Seq<u8>, sender_pk: Seq<u8>) -> Seq<u8> {
    cipher::blake2b32_of(shared + sender_pk)
}

/// The local node's identity: its key pair and the proof-of-work difficulty
/// target it demands of peers. Conversations may exist without one; decryption
/// is then permanently unavailable for them.
pub struct Identity {
    secret_key: Vec<u8>,
    public_key: Vec<u8>,
    pow_target: u64,
}

impl Identity {
    pub closed spec fn secret_seq(&self) -> Seq<u8> {
        self.secret_key@
    }

    pub closed spec fn public_seq(&self) -> Seq<u8> {
        self.public_key@
    }

    pub closed spec fn target_spec(&self) -> u64 {
        self.pow_target
    }

    pub open spec fn wf(&self) -> bool {
        self.secret_seq().len() == 32 && self.public_seq().len() == 32
    }

    /// Builds an identity from its parts; both keys must be 32 bytes.
    pub fn new(secret_key: Vec<u8>, public_key: Vec<u8>, pow_target: u64) -> (r: Option<Identity>)
        ensures
            match r {
                Some(id) => id.wf() && id.secret_seq() == secret_key@ && id.public_seq()
                    == public_key@ && id.target_spec() == pow_target && secret_key@.len() == 32
                    && public_key@.len() == 32,
                None => secret_key@.len() != 32 || public_key@.len() != 32,
            },
    {
        if secret_key.len() == 32 && public_key.len() == 32 {
            Some(Identity { secret_key, public_key, pow_target })
        } else {
            None
        }
    }

    /// The configured proof-of-work difficulty target.
    pub fn pow_target(&self) -> (r: u64)
        ensures
            r == self.target_spec(),
    {
        self.pow_target
    }

    /// Whether this side of the conversation is the local node: its connection
    /// message carried the identity's own public key.
    pub open spec fn spec_is_local(&self, pk: Seq<u8>) -> bool {
        pk == self.public_seq()
    }

    /// The pair of directional keys this identity derives for a conversation
    /// whose peer announced `peer_pk`: one key for each direction, separated
    /// by the sending side's public key.
    pub open spec fn spec_derived_keys(
        &self,
        peer_pk: Seq<u8>,
        pk_initiator: Seq<u8>,
        pk_responder: Seq<u8>,
    ) -> (Seq<u8>, Seq<u8>) {
        let shared = cipher::x25519_of(self.secret_seq(), peer_pk);
        (spec_directional_key(shared, pk_initiator), spec_directional_key(shared, pk_responder))
    }

    /// Key derivation, performed once per conversation when both connection
    /// messages have been observed. The peer is the side whose announced
    /// public key differs from the identity's own; when neither side announced
    /// the identity's public key the conversation is not ours and no keys
    /// exist. The result is a pure function of the two announced public keys,
    /// so deriving again from the same pair gives the same deciphers.
    pub fn derive_deciphers(&self, pk_initiator: &[u8], pk_responder: &[u8]) -> (r: Option<
        (Decipher, Decipher),
    >)
        requires
            self.wf(),
            pk_initiator@.len() == 32,
            pk_responder@.len() == 32,
        ensures
            r is Some <==> (self.spec_is_local(pk_initiator@) || self.spec_is_local(
                pk_responder@,
            )),
            match r {
                Some(pair) => {
                    let peer_pk = if self.spec_is_local(pk_initiator@) {
                        pk_responder@
                    } else {
                        pk_initiator@
                    };
                    let keys = self.spec_derived_keys(peer_pk, pk_initiator@, pk_responder@);
                    pair.0.wf() && pair.1.wf() && pair.0.key_seq() == keys.0 && pair.1.key_seq()
                        == keys.1
                },
                None => true,
            },
    {
        let local_is_initiator = bytes_eq(pk_initiator, self.public_key.as_slice());
        let local_is_responder = bytes_eq(pk_responder, self.public_key.as_slice());
        if !local_is_initiator && !local_is_responder {
            return None;
        }
        let peer_pk: &[u8] = if local_is_initiator {
            pk_responder
        } else {
            pk_initiator
        };
        let shared = cipher::x25519_shared(self.secret_key.as_slice(), peer_pk);
        let mut input_i = vstd::slice::slice_to_vec(shared.as_slice());
        append_bytes(&mut input_i, pk_initiator);
        let mut input_r = vstd::slice::slice_to_vec(shared.as_slice());
        append_bytes(&mut input_r, pk_responder);
        let key_i = cipher::blake2b32(input_i.as_slice());
        let key_r = cipher::blake2b32(input_r.as_slice());
        Some((Decipher::from_key(key_i), Decipher::from_key(key_r)))
    }
}

} // verus!
