use vstd::prelude::*;

use aes_gcm::aead::{Aead, KeyInit};
use rand::distributions::DistString;
use sha2::Digest;
use vstd::string::StringSliceAdditionalSpecFns;

use crate::frame::{lemma_from_le_bytes, lemma_pow256_facts, pow256};

verus! {

/// Length of a session key in bytes.
pub const KEY_LEN: usize = 32;

/// Length of a nonce in bytes.
pub const NONCE_LEN: usize = 12;

/// Length of the authentication tag that sealing appends.
pub const TAG_LEN: usize = 16;

/// Largest plaintext that AES-GCM seals.
pub const MAX_PLAINTEXT: u64 = 68719476736;

/// Length of a generated secret.
pub const SECRET_LEN: usize = 14;

/// Length of a generated write password; it differs from `SECRET_LEN`, so a
/// generated password never equals a generated key.
pub const PASSWORD_LEN: usize = 10;

/// The SHA-256 digest of a byte string.
pub uninterp spec fn sha256_of(data: Seq<u8>) -> Seq<u8>;

/// AES-256-GCM sealing of `plaintext` under `key` and `nonce`, with no
/// associated data: ciphertext followed by the tag.
pub uninterp spec fn gcm_sealed(key: Seq<u8>, nonce: Seq<u8>, plaintext: Seq<u8>) -> Seq<u8>;

pub open spec fn is_alphanumeric(c: char) -> bool {
    ('a' <= c <= 'z') || ('A' <= c <= 'Z') || ('0' <= c <= '9')
}

/// Relies on sha2::Sha256::digest: the 32-byte SHA-256 digest of `data`.
#[verifier::external_body]
fn sha256(data: &[u8]) -> (r: Vec<u8>)
    ensures
        r@ == sha256_of(data@),
        r@.len() == 32,
{
    sha2::Sha256::digest(data).to_vec()
}

/// Relies on aes_gcm's `Aead::encrypt` for `Aes256Gcm`: it fails only for a
/// plaintext over 2^36 bytes, and appends a 16-byte tag.
#[verifier::external_body]
fn aes_gcm_seal(key: &[u8], nonce: &[u8], plaintext: &[u8]) -> (r: Option<Vec<u8>>)
    requires
        key@.len() == KEY_LEN,
        nonce@.len() == NONCE_LEN,
    ensures
        r matches Some(c) ==> c@ == gcm_sealed(key@, nonce@, plaintext@),
        plaintext@.len() <= MAX_PLAINTEXT ==> r is Some,
        r matches Some(c) ==> c@.len() == plaintext@.len() + TAG_LEN,
{
    let cipher = aes_gcm::Aes256Gcm::new(aes_gcm::Key::<aes_gcm::Aes256Gcm>::from_slice(key));
    cipher.encrypt(aes_gcm::Nonce::from_slice(nonce), plaintext).ok()
}

/// Relies on aes_gcm's `Aead::decrypt` for `Aes256Gcm`: it accepts exactly
/// the sealings under this key and nonce, and returns what was sealed.
#[verifier::external_body]
fn aes_gcm_open(key: &[u8], nonce: &[u8], ciphertext: &[u8]) -> (r: Option<Vec<u8>>)
    requires
        key@.len() == KEY_LEN,
        nonce@.len() == NONCE_LEN,
    ensures
        r matches Some(p) ==> ciphertext@ == gcm_sealed(key@, nonce@, p@),
        r matches Some(q) ==> forall|p: Seq<u8>|
            p.len() <= MAX_PLAINTEXT && ciphertext@ == #[trigger] gcm_sealed(key@, nonce@, p) ==> q@ == p,
        r is None ==> forall|p: Seq<u8>|
            p.len() <= MAX_PLAINTEXT ==> ciphertext@ != #[trigger] gcm_sealed(key@, nonce@, p),
{
    let cipher = aes_gcm::Aes256Gcm::new(aes_gcm::Key::<aes_gcm::Aes256Gcm>::from_slice(key));
    cipher.decrypt(aes_gcm::Nonce::from_slice(nonce), ciphertext).ok()
}

/// Relies on rand's `Alphanumeric` distribution over the thread-local
/// generator: `len` characters drawn from ASCII letters and digits.
#[verifier::external_body]
fn random_alphanumeric(len: usize) -> (r: String)
    ensures
        r@.len() == len,
        forall|i: int| 0 <= i < len ==> is_alphanumeric(#[trigger] r@[i]),
{
    rand::distributions::Alphanumeric.sample_string(&mut rand::thread_rng(), len)
}

/// A fresh secret of `SECRET_LEN` letters and digits.
pub fn generate_secret() -> (r: String)
    ensures
        r@.len() == SECRET_LEN,
        forall|i: int| 0 <= i < r@.len() ==> is_alphanumeric(#[trigger] r@[i]),
{
    random_alphanumeric(SECRET_LEN)
}

/// A fresh write password of `PASSWORD_LEN` letters and digits.
pub fn random_password() -> (r: String)
    ensures
        r@.len() == PASSWORD_LEN,
        forall|i: int| 0 <= i < r@.len() ==> is_alphanumeric(#[trigger] r@[i]),
{
    random_alphanumeric(PASSWORD_LEN)
}

/// Why an inbound payload was refused.
#[derive(Clone, Copy, Debug, PartialEq, Eq, Structural)]
pub enum CryptoError {
    /// The payload was tampered with or sealed under another key.
    Authentication,
    /// The plaintext is too long to seal.
    TooLong,
}

/// A symmetric session key.
pub struct Key {
    bytes: Vec<u8>,
}

/// The little-endian encoding of `x` in `n` bytes (the high part is cut off).
pub open spec fn le_bytes(x: nat, n: nat) -> Seq<u8>
    decreases n,
{
    if n == 0 {
        Seq::empty()
    } else {
        seq![(x % 256) as u8] + le_bytes(x / 256, (n - 1) as nat)
    }
}

/// Direction byte of payloads this controller seals.
pub const OUTBOUND: u8 = 0;

/// Direction byte of payloads that viewers seal.
pub const INBOUND: u8 = 1;

/// Direction byte of history this controller seals again after a
/// reconnect; its sequence field holds the resend counter.
pub const RESEND: u8 = 2;

/// The nonce of the payload of direction `dir` with sequence number `seq` in
/// pane `pane`: the direction, then both numbers in little-endian order
/// (sequence numbers in 7 bytes), so payloads differ in nonce as long as
/// they differ in direction, pane or sequence below 2^56.
pub open spec fn nonce_of(dir: u8, pane: u32, seq: u64) -> Seq<u8> {
    seq![dir] + le_bytes(pane as nat, 4) + le_bytes(seq as nat, 7)
}

/// Distinct payloads never share a nonce: different directions, panes or
/// sequence numbers (below 2^56) give different nonces.
pub proof fn lemma_nonce_unique(d1: u8, p1: u32, s1: u64, d2: u8, p2: u32, s2: u64)
    requires
        s1 < 0x100000000000000,
        s2 < 0x100000000000000,
        nonce_of(d1, p1, s1) == nonce_of(d2, p2, s2),
    ensures
        d1 == d2 && p1 == p2 && s1 == s2,
{
    let a = nonce_of(d1, p1, s1);
    let b = nonce_of(d2, p2, s2);
    lemma_le_bytes_len(p1 as nat, 4);
    lemma_le_bytes_len(p2 as nat, 4);
    lemma_le_bytes_len(s1 as nat, 7);
    lemma_le_bytes_len(s2 as nat, 7);
    assert(a[0] == d1 && b[0] == d2);
    assert(a.subrange(1, 5) =~= le_bytes(p1 as nat, 4));
    assert(b.subrange(1, 5) =~= le_bytes(p2 as nat, 4));
    assert(a.subrange(5, 12) =~= le_bytes(s1 as nat, 7));
    assert(b.subrange(5, 12) =~= le_bytes(s2 as nat, 7));
    reveal_with_fuel(pow256, 8);
    lemma_pow256_facts();
    lemma_from_le_bytes(p1 as nat, 4);
    lemma_from_le_bytes(p2 as nat, 4);
    lemma_from_le_bytes(s1 as nat, 7);
    lemma_from_le_bytes(s2 as nat, 7);
}

pub proof fn lemma_le_bytes_len(x: nat, n: nat)
    ensures
        le_bytes(x, n).len() == n,
    decreases n,
{
    if n > 0 {
        lemma_le_bytes_len(x / 256, (n - 1) as nat);
    }
}

/// Appends the little-endian encoding of `x` in `n` bytes to `out`.
pub fn push_le(out: &mut Vec<u8>, x: u64, n: usize)
    ensures
        final(out)@ == old(out)@ + le_bytes(x as nat, n as nat),
    decreases n,
{
    if n > 0 {
        out.push((x % 256) as u8);
        push_le(out, x / 256, n - 1);
        assert(final(out)@ =~= old(out)@ + le_bytes(x as nat, n as nat));
    }
}

/// The nonce for the payload `seq` of pane `pane` in direction `dir`.
pub fn nonce(dir: u8, pane: u32, seq: u64) -> (r: Vec<u8>)
    ensures
        r@ == nonce_of(dir, pane, seq),
        r@.len() == NONCE_LEN,
{
    let mut out: Vec<u8> = Vec::new();
    out.push(dir);
    push_le(&mut out, pane as u64, 4);
    push_le(&mut out, seq, 7);
    proof {
        lemma_le_bytes_len(pane as nat, 4);
        lemma_le_bytes_len(seq as nat, 7);
        assert(out@ =~= nonce_of(dir, pane, seq));
    }
    out
}

impl Key {
    pub closed spec fn view(&self) -> Seq<u8> {
        self.bytes@
    }

    /// The key of a session: the SHA-256 digest of the UTF-8 bytes of its
    /// secret.
    pub fn derive(secret: &str) -> (r: Key)
        ensures
            r@ == sha256_of(secret.spec_bytes()),
            r@.len() == KEY_LEN,
    {
        Key { bytes: sha256(secret.as_bytes()) }
    }

    /// Seals `plaintext` as payload `seq` of pane `pane` in direction `dir`.
    pub fn encrypt(&self, dir: u8, pane: u32, seq: u64, plaintext: &[u8]) -> (r: Result<Vec<u8>, CryptoError>)
        requires
            self@.len() == KEY_LEN,
        ensures
            plaintext@.len() <= MAX_PLAINTEXT <==> r is Ok,
            r matches Ok(c) ==> c@ == gcm_sealed(self@, nonce_of(dir, pane, seq), plaintext@)
                && c@.len() == plaintext@.len() + TAG_LEN,
            r matches Err(e) ==> e == CryptoError::TooLong,
    {
        if plaintext.len() as u64 > MAX_PLAINTEXT {
            return Err(CryptoError::TooLong);
        }
        let n = nonce(dir, pane, seq);
        match aes_gcm_seal(self.bytes.as_slice(), n.as_slice(), plaintext) {
            Some(c) => Ok(c),
            None => Err(CryptoError::Authentication),
        }
    }

    /// Opens payload `seq` of pane `pane` in direction `dir`. It succeeds exactly on the sealings
    /// under this key and that nonce, and then returns what was sealed; any
    /// other input is an authentication failure.
    pub fn decrypt(&self, dir: u8, pane: u32, seq: u64, ciphertext: &[u8]) -> (r: Result<Vec<u8>, CryptoError>)
        requires
            self@.len() == KEY_LEN,
        ensures
            r matches Ok(p) ==> ciphertext@ == gcm_sealed(self@, nonce_of(dir, pane, seq), p@),
            r matches Err(e) ==> e == CryptoError::Authentication,
            forall|p: Seq<u8>|
                p.len() <= MAX_PLAINTEXT && ciphertext@ == #[trigger] gcm_sealed(
                    self@,
                    nonce_of(dir, pane, seq),
                    p,
                ) ==> (r matches Ok(q) && q@ == p),
    {
        let n = nonce(dir, pane, seq);
        match aes_gcm_open(self.bytes.as_slice(), n.as_slice(), ciphertext) {
            Some(p) => Ok(p),
            None => Err(CryptoError::Authentication),
        }
    }
}

} // verus!
