use vstd::prelude::*;
use crate::addresses::Sender;

verus! {

// ---------------------------------------------------------------------------
// Named results of the outside cryptographic primitives.
//
// Each name stands for the (deterministic) result of one cryptoxide function
// on its byte arguments alone; nothing in this crate states what the name is
// on given values.
// ---------------------------------------------------------------------------

/// The 32-byte Blake2b digest of `input`.
pub uninterp spec fn blake2b32_of(input: Seq<u8>) -> Seq<u8>;

/// The 32-byte X25519 shared secret of a secret key and a public key.
pub uninterp spec fn x25519_of(secret: Seq<u8>, public: Seq<u8>) -> Seq<u8>;

/// The ChaCha20-Poly1305 sealing of `plain` under `key` and `nonce`:
/// the ciphertext followed by the 16-byte authentication tag.
pub uninterp spec fn seal_of(key: Seq<u8>, nonce: Seq<u8>, plain: Seq<u8>) -> Seq<u8>;

/// The ChaCha20-Poly1305 opening of `cipher` under `key` and `nonce`:
/// the plaintext when the trailing 16-byte tag authenticates, `None` otherwise.
pub uninterp spec fn open_of(key: Seq<u8>, nonce: Seq<u8>, cipher: Seq<u8>) -> Option<Seq<u8>>;

/// Relies on cryptoxide's `hashing::blake2b::Blake2b::<256>` (unkeyed): the
/// 32-byte digest depends on the input bytes alone.
#[verifier::external_body]
pub(crate) fn blake2b32(input: &[u8]) -> (r: Vec<u8>)
    ensures
        r@ == blake2b32_of(input@),
        r@.len() == 32,
{
    let digest: [u8; 32] =
        cryptoxide::hashing::blake2b::Blake2b::<256>::new().update(input).finalize();
    digest.to_vec()
}

/// Relies on cryptoxide's `x25519::dh`: the shared secret is a 32-byte value
/// depending on the two keys alone.
#[verifier::external_body]
pub(crate) fn x25519_shared(secret: &[u8], public: &[u8]) -> (r: Vec<u8>)
    requires
        secret@.len() == 32,
        public@.len() == 32,
    ensures
        r@ == x25519_of(secret@, public@),
        r@.len() == 32,
{
    let sk = cryptoxide::x25519::SecretKey::from(<[u8; 32]>::try_from(secret).unwrap());
    let pk = cryptoxide::x25519::PublicKey::from(<[u8; 32]>::try_from(public).unwrap());
    let shared: [u8; 32] = cryptoxide::x25519::dh(&sk, &pk).into();
    shared.to_vec()
}

/// Relies on cryptoxide's `ChaCha20Poly1305::encrypt` (empty associated data):
/// the ciphertext is as long as the plaintext and is followed by the 16-byte
/// tag, the result depends on key, nonce and plaintext alone, and
/// `ChaCha20Poly1305::decrypt` on that result recovers the plaintext.
#[verifier::external_body]
fn aead_seal(key: &[u8], nonce: &[u8], plain: &[u8]) -> (r: Vec<u8>)
    requires
        key@.len() == 32,
        nonce@.len() == 12,
    ensures
        r@ == seal_of(key@, nonce@, plain@),
        r@.len() == plain@.len() + 16,
        open_of(key@, nonce@, r@) == Some(plain@),
{
    let mut out = vec![0u8; plain.len()];
    let mut tag = [0u8; 16];
    let nonce_array: &[u8; 12] = nonce.try_into().unwrap();
    let mut context = cryptoxide::chacha20poly1305::ChaCha20Poly1305::new(key, nonce_array, &[]);
    context.encrypt(plain, &mut out, &mut tag);
    out.extend_from_slice(&tag);
    out
}

/// Relies on cryptoxide's `ChaCha20Poly1305::decrypt` (empty associated data):
/// it splits the input into ciphertext and trailing 16-byte tag, returns the
/// plaintext exactly when the tag authenticates, and its outcome depends on
/// key, nonce and input alone.
#[verifier::external_body]
fn aead_open(key: &[u8], nonce: &[u8], cipher: &[u8]) -> (r: Option<Vec<u8>>)
    requires
        key@.len() == 32,
        nonce@.len() == 12,
        cipher@.len() >= 16,
    ensures
        match r {
            Some(p) => open_of(key@, nonce@, cipher@) == Some(p@) && p@.len() + 16 == cipher@.len(),
            None => open_of(key@, nonce@, cipher@) is None,
        },
{
    let body = cipher.len() - 16;
    let mut out = vec![0u8; body];
    let nonce_array: &[u8; 12] = nonce.try_into().unwrap();
    let mut context = cryptoxide::chacha20poly1305::ChaCha20Poly1305::new(key, nonce_array, &[]);
    if context.decrypt(&cipher[..body], &mut out, &cipher[body..]) {
        Some(out)
    } else {
        None
    }
}

// ---------------------------------------------------------------------------
// Direction-scoped nonces.
// ---------------------------------------------------------------------------

/// A direction-tagged message counter: the number of chunks already decrypted
/// in that direction when the chunk being decrypted was sealed.
#[derive(Clone, Copy, Debug, PartialEq, Eq, Structural)]
pub enum NonceAddition {
    Initiator(u64),
    Responder(u64),
}

impl NonceAddition {
    pub fn from_sender(sender: Sender, counter: u64) -> (r: NonceAddition)
        ensures
            r == (match sender {
                Sender::Initiator => NonceAddition::Initiator(counter),
                Sender::Responder => NonceAddition::Responder(counter),
            }),
    {
        match sender {
            Sender::Initiator => NonceAddition::Initiator(counter),
            Sender::Responder => NonceAddition::Responder(counter),
        }
    }
}

/// The 12 nonce bytes fed to the AEAD: one direction tag byte, three zero
/// bytes, then the counter big-endian. The two directions can never collide.
pub open spec fn spec_nonce_bytes(n: NonceAddition) -> Seq<u8> {
    let (tag, c): (u8, u64) = match n {
        NonceAddition::Initiator(c) => (1u8, c),
        NonceAddition::Responder(c) => (2u8, c),
    };
    seq![
        tag,
        0u8,
        0u8,
        0u8,
        (c >> 56) as u8,
        (c >> 48) as u8,
        (c >> 40) as u8,
        (c >> 32) as u8,
        (c >> 24) as u8,
        (c >> 16) as u8,
        (c >> 8) as u8,
        c as u8,
    ]
}

fn nonce_bytes(n: NonceAddition) -> (r: Vec<u8>)
    ensures
        r@ == spec_nonce_bytes(n),
        r@.len() == 12,
{
    let (tag, c): (u8, u64) = match n {
        NonceAddition::Initiator(c) => (1u8, c),
        NonceAddition::Responder(c) => (2u8, c),
    };
    let mut out: Vec<u8> = Vec::new();
    out.push(tag);
    out.push(0u8);
    out.push(0u8);
    out.push(0u8);
    out.push((c >> 56) as u8);
    out.push((c >> 48) as u8);
    out.push((c >> 40) as u8);
    out.push((c >> 32) as u8);
    out.push((c >> 24) as u8);
    out.push((c >> 16) as u8);
    out.push((c >> 8) as u8);
    out.push(c as u8);
    proof {
        assert(out@ =~= spec_nonce_bytes(n));
    }
    out
}

// ---------------------------------------------------------------------------
// Decipher: the per-direction authenticated-decryption context.
// ---------------------------------------------------------------------------

/// Per-direction authenticated-decryption context. It is a pure function of
/// its 32-byte key, the caller-provided direction-scoped nonce and the
/// ciphertext; it holds no counter of its own.
pub struct Decipher {
    key: Vec<u8>,
}

impl Decipher {
    pub closed spec fn key_seq(&self) -> Seq<u8> {
        self.key@
    }

    pub open spec fn wf(&self) -> bool {
        self.key_seq().len() == 32
    }

    pub fn from_key(key: Vec<u8>) -> (r: Decipher)
        requires
            key@.len() == 32,
        ensures
            r.wf(),
            r.key_seq() == key@,
    {
        Decipher { key }
    }

    /// Seals `plain` under this key and the given direction-scoped nonce:
    /// ciphertext followed by the 16-byte authentication tag.
    pub fn encrypt(&self, plain: &[u8], nonce: NonceAddition) -> (r: Vec<u8>)
        requires
            self.wf(),
        ensures
            r@ == seal_of(self.key_seq(), spec_nonce_bytes(nonce), plain@),
            r@.len() == plain@.len() + 16,
            open_of(self.key_seq(), spec_nonce_bytes(nonce), r@) == Some(plain@),
    {
        let nb = nonce_bytes(nonce);
        aead_seal(self.key.as_slice(), nb.as_slice(), plain)
    }

    /// Opens a chunk body: returns the plaintext exactly when the trailing
    /// 16-byte tag authenticates under this key and the given nonce.
    pub fn decrypt(&self, data: &[u8], nonce: NonceAddition) -> (r: Option<Vec<u8>>)
        requires
            self.wf(),
            data@.len() >= 16,
        ensures
            match r {
                Some(p) => open_of(self.key_seq(), spec_nonce_bytes(nonce), data@) == Some(p@)
                    && p@.len() + 16 == data@.len(),
                None => open_of(self.key_seq(), spec_nonce_bytes(nonce), data@) is None,
            },
    {
        let nb = nonce_bytes(nonce);
        aead_open(self.key.as_slice(), nb.as_slice(), data)
    }
}

// ---------------------------------------------------------------------------
// Proof of work.
// ---------------------------------------------------------------------------

/// The value of the first 8 bytes of `s`, read big-endian.
pub open spec fn spec_u64_be(s: Seq<u8>) -> int {
    ((((((s[0] * 256 + s[1]) * 256 + s[2]) * 256 + s[3]) * 256 + s[4]) * 256 + s[5]) * 256 + s[6])
        * 256 + s[7]
}

/// The numeric difficulty value of a (public key, nonce) pair: the first
/// 8 bytes of the Blake2b digest of their concatenation, read big-endian.
pub open spec fn spec_pow_value(public_key: Seq<u8>, nonce: Seq<u8>) -> int {
    spec_u64_be(blake2b32_of(public_key + nonce))
}

/// A pair meets a difficulty target exactly when its value is at or below it:
/// a smaller target is a tighter demand.
pub open spec fn spec_pow_ok(public_key: Seq<u8>, nonce: Seq<u8>, target: u64) -> bool {
    spec_pow_value(public_key, nonce) <= target
}

/// The difficulty value of a (public key, nonce) pair.
pub fn proof_of_work_value(public_key: &[u8], nonce: &[u8]) -> (r: u64)
    ensures
        r == spec_pow_value(public_key@, nonce@),
{
    let mut input = vstd::slice::slice_to_vec(public_key);
    crate::bytes_util::append_bytes(&mut input, nonce);
    let digest = blake2b32(input.as_slice());
    let mut r: u64 = digest[0] as u64;
    r = r * 256 + digest[1] as u64;
    r = r * 256 + digest[2] as u64;
    r = r * 256 + digest[3] as u64;
    r = r * 256 + digest[4] as u64;
    r = r * 256 + digest[5] as u64;
    r = r * 256 + digest[6] as u64;
    r = r * 256 + digest[7] as u64;
    r
}

/// Recomputes the hash over (public key, nonce) and checks it against the
/// configured difficulty target.
pub fn check_proof_of_work(public_key: &[u8], nonce: &[u8], target: u64) -> (r: bool)
    ensures
        r == spec_pow_ok(public_key@, nonce@, target),
{
    proof_of_work_value(public_key, nonce) <= target
}

/// Law: a pair whose difficulty value is `v` meets the target `v`, and
/// tightening the target below `v` rejects the same pair.
pub proof fn lemma_pow_target_boundary(public_key: Seq<u8>, nonce: Seq<u8>, v: u64)
    requires
        v == spec_pow_value(public_key, nonce),
        v > 0,
    ensures
        spec_pow_ok(public_key, nonce, v),
        !spec_pow_ok(public_key, nonce, (v - 1) as u64),
{
}

/// Law: decrypting what `encrypt` produced, with the same key and the same
/// direction-scoped nonce, yields exactly the original plaintext.
pub fn decrypt_of_encrypt(decipher: &Decipher, plain: &[u8], nonce: NonceAddition) -> (r: Vec<u8>)
    requires
        decipher.wf(),
    ensures
        r@ == plain@,
{
    let sealed = decipher.encrypt(plain, nonce);
    let opened = decipher.decrypt(sealed.as_slice(), nonce);
    match opened {
        Some(p) => p,
        None => {
            proof {
                assert(false);
            }
            Vec::new()
        },
    }
}

} // verus!
