//! The cryptographic primitives: keyed MACs, authenticated encryption, and
//! the fixed-size signature that serves as the key of both.
use sodiumoxide::crypto::auth::hmacsha256 as hmac;
use sodiumoxide::crypto::secretbox;
use sodiumoxide::randombytes;
use vstd::prelude::*;

verus! {

/// Bytes in a signature, which is also an HMAC and a secret-box key.
pub const SIG_LEN: usize = 32;

/// Bytes in a secret-box nonce.
pub const NONCE_LEN: usize = 24;

/// The HMAC-SHA256 tag of `msg` under `key`.
pub uninterp spec fn hmac_of(key: Seq<u8>, msg: Seq<u8>) -> Seq<u8>;

/// What XSalsa20-Poly1305 opening of `ct` under `key` and `nonce` yields:
/// the plaintext when the tag checks, nothing otherwise.
pub uninterp spec fn opened(key: Seq<u8>, nonce: Seq<u8>, ct: Seq<u8>) -> Option<Seq<u8>>;

/// Relies on sodiumoxide's `hmacsha256::authenticate`: the HMAC-SHA256 tag of
/// `msg` under `key`.
#[verifier::external_body]
fn authenticate(key: &[u8; 32], msg: &[u8]) -> (r: [u8; 32])
    ensures
        r@ == hmac_of(key@, msg@),
{
    hmac::authenticate(msg, &hmac::Key(*key)).0
}

/// Relies on sodiumoxide's streaming `hmacsha256::State` (`init`, `update`,
/// `finalize`): feeding `x1` and then `x2` gives the tag of their
/// concatenation, as one call of `authenticate` would.
#[verifier::external_body]
fn authenticate_parts(key: &[u8; 32], x1: &[u8], x2: &[u8]) -> (r: [u8; 32])
    ensures
        r@ == hmac_of(key@, x1@ + x2@),
{
    let mut state = hmac::State::init(&key[..]);
    state.update(x1);
    state.update(x2);
    state.finalize().0
}

/// Relies on sodiumoxide's `secretbox::gen_nonce`: a random nonce, of which
/// nothing more is known.
#[verifier::external_body]
fn random_nonce() -> (r: [u8; 24]) {
    secretbox::gen_nonce().0
}

/// Relies on sodiumoxide's `secretbox::seal`: opening the result with the
/// same key and nonce gives `m` back.
#[verifier::external_body]
fn seal(key: &[u8; 32], nonce: &[u8; 24], m: &[u8]) -> (r: Vec<u8>)
    ensures
        opened(key@, nonce@, r@) == Some(m@),
{
    secretbox::seal(m, &secretbox::Nonce(*nonce), &secretbox::Key(*key))
}

/// Relies on sodiumoxide's `secretbox::open`: the plaintext when the tag
/// checks, an error otherwise.
#[verifier::external_body]
fn open(key: &[u8; 32], nonce: &[u8; 24], ct: &[u8]) -> (r: Result<Vec<u8>, ()>)
    ensures
        match r {
            Ok(p) => opened(key@, nonce@, ct@) == Some(p@),
            Err(_) => opened(key@, nonce@, ct@) is None,
        },
{
    secretbox::open(ct, &secretbox::Nonce(*nonce), &secretbox::Key(*key))
}

/// Relies on sodiumoxide's `randombytes::randombytes`: `n` random bytes.
#[verifier::external_body]
pub(crate) fn random_bytes(n: usize) -> (r: Vec<u8>)
    ensures
        r@.len() == n,
{
    randombytes::randombytes(n)
}

/// A 32-byte value produced by HMAC-SHA256, used as the rolling signature of
/// a macaroon and as the key of the next MAC or encryption.
#[derive(Clone, Copy, Debug)]
pub struct Signature([u8; 32]);

impl View for Signature {
    type V = Seq<u8>;

    closed spec fn view(&self) -> Seq<u8> {
        self.0@
    }
}

impl Signature {
    /// The signature's bytes.
    pub fn as_slice(&self) -> (r: &[u8])
        ensures
            r@ == self@,
    {
        self.0.as_slice()
    }

    /// A signature with the given bytes, as read back from an encoding.
    pub fn from_bytes(bytes: [u8; 32]) -> (r: Signature)
        ensures
            r@ == bytes@,
    {
        Signature(bytes)
    }

    /// The signature's bytes, by value.
    pub fn to_bytes(&self) -> (r: [u8; 32])
        ensures
            r@ == self@,
    {
        self.0
    }

    /// Byte-wise equality.
    pub fn equals(&self, other: &Signature) -> (r: bool)
        ensures
            r == (self@ == other@),
    {
        let mut i: usize = 0;
        while i < SIG_LEN
            invariant
                i <= SIG_LEN,
                forall|j: int| 0 <= j < i ==> self@[j] == other@[j],
            decreases SIG_LEN - i,
        {
            if self.0[i] != other.0[i] {
                return false;
            }
            i = i + 1;
        }
        assert(self@ =~= other@);
        true
    }
}

impl PartialEq for Signature {
    fn eq(&self, other: &Signature) -> (r: bool) {
        self.equals(other)
    }
}

impl vstd::std_specs::cmp::PartialEqSpecImpl for Signature {
    open spec fn obeys_eq_spec() -> bool {
        true
    }

    open spec fn eq_spec(&self, other: &Signature) -> bool {
        self@ == other@
    }
}

/// The 32-byte domain-separation key of root-key derivation:
/// `macaroons-key-generator` padded with zero bytes.
pub open spec fn key_generator() -> Seq<u8> {
    seq![
        109u8, 97, 99, 97, 114, 111, 111, 110, 115, 45, 107, 101, 121, 45, 103, 101,
        110, 101, 114, 97, 116, 111, 114, 0, 0, 0, 0, 0, 0, 0, 0, 0,
    ]
}

/// The bytes of `key_generator`.
pub fn key_generator_bytes() -> (r: [u8; 32])
    ensures
        r@ == key_generator(),
{
    let r: [u8; 32] = [
        109u8, 97, 99, 97, 114, 111, 111, 110, 115, 45, 107, 101, 121, 45, 103, 101,
        110, 101, 114, 97, 116, 111, 114, 0, 0, 0, 0, 0, 0, 0, 0, 0,
    ];
    assert(r@ =~= key_generator());
    r
}

/// The signature key derived from a raw root key of any length.
pub open spec fn root_key_of(raw: Seq<u8>) -> Seq<u8> {
    hmac_of(key_generator(), raw)
}

/// `HMAC(key, x)`.
pub fn mac(key: &Signature, x: &[u8]) -> (r: Signature)
    ensures
        r@ == hmac_of(key@, x@),
{
    Signature(authenticate(&key.0, x))
}

/// `HMAC(key, x1 ‖ x2)`, without joining the two inputs.
pub fn mac2(key: &Signature, x1: &[u8], x2: &[u8]) -> (r: Signature)
    ensures
        r@ == hmac_of(key@, x1@ + x2@),
{
    Signature(authenticate_parts(&key.0, x1, x2))
}

/// Derives the signature key of a raw root key: its HMAC under the key
/// generator.
pub fn macaroon_key(raw: &[u8]) -> (r: Signature)
    ensures
        r@ == root_key_of(raw@),
{
    let generator = key_generator_bytes();
    Signature(authenticate(&generator, raw))
}

/// What decrypting `ct` under `key` yields: the first `NONCE_LEN` bytes are
/// the nonce and the rest is opened under it.
pub open spec fn decrypted(key: Seq<u8>, ct: Seq<u8>) -> Option<Seq<u8>> {
    if ct.len() < NONCE_LEN {
        None
    } else {
        opened(key, ct.subrange(0, NONCE_LEN as int), ct.subrange(NONCE_LEN as int, ct.len() as int))
    }
}

/// Encrypts `m` under `key` with a fresh random nonce: `nonce ‖ ciphertext`.
pub fn senc(key: &Signature, m: &[u8]) -> (r: Vec<u8>)
    ensures
        decrypted(key@, r@) == Some(m@),
{
    let nonce = random_nonce();
    let ct = seal(&key.0, &nonce, m);
    let mut out: Vec<u8> = Vec::new();
    let mut i: usize = 0;
    while i < NONCE_LEN
        invariant
            i <= NONCE_LEN,
            out@ =~= nonce@.subrange(0, i as int),
        decreases NONCE_LEN - i,
    {
        out.push(nonce[i]);
        i = i + 1;
    }
    let mut j: usize = 0;
    while j < ct.len()
        invariant
            j <= ct@.len(),
            out@ =~= nonce@ + ct@.subrange(0, j as int),
        decreases ct@.len() - j,
    {
        out.push(ct[j]);
        j = j + 1;
    }
    assert(out@.subrange(0, NONCE_LEN as int) =~= nonce@);
    assert(out@.subrange(NONCE_LEN as int, out@.len() as int) =~= ct@);
    out
}

/// Decrypts what `senc` produced; fails when `ct` is shorter than a nonce or
/// its tag does not check under `key`.
pub fn sdec(key: &Signature, ct: &[u8]) -> (r: Result<Vec<u8>, ()>)
    ensures
        match r {
            Ok(p) => decrypted(key@, ct@) == Some(p@),
            Err(_) => decrypted(key@, ct@) is None,
        },
{
    if ct.len() < NONCE_LEN {
        return Err(());
    }
    let mut nonce: [u8; 24] = [0u8; 24];
    let mut i: usize = 0;
    while i < NONCE_LEN
        invariant
            i <= NONCE_LEN,
            NONCE_LEN <= ct@.len(),
            forall|k: int| 0 <= k < i ==> nonce@[k] == ct@[k],
        decreases NONCE_LEN - i,
    {
        nonce[i] = ct[i];
        i = i + 1;
    }
    let mut body: Vec<u8> = Vec::new();
    let mut j: usize = NONCE_LEN;
    while j < ct.len()
        invariant
            NONCE_LEN <= j <= ct@.len(),
            body@ =~= ct@.subrange(NONCE_LEN as int, j as int),
        decreases ct@.len() - j,
    {
        body.push(ct[j]);
        j = j + 1;
    }
    assert(nonce@ =~= ct@.subrange(0, NONCE_LEN as int));
    open(&key.0, &nonce, body.as_slice())
}

} // verus!
