//! Digests, Ed25519 keys and signatures.
use vstd::prelude::*;

use ed25519_dalek::Signer;
use sha2::Digest;

use crate::codec::{after, Byteable};
use crate::error::{Base64Error, DecodeError, EncodeError};

verus! {

/// What SHA-512 gives for a byte string.
pub uninterp spec fn sha512_of(bytes: Seq<u8>) -> Seq<u8>;

/// The Ed25519 signature that a 32-byte secret key makes of a message.
pub uninterp spec fn ed25519_signature_of(secret: Seq<u8>, msg: Seq<u8>) -> Seq<u8>;

/// The Ed25519 public key that belongs to a 32-byte secret key.
pub uninterp spec fn ed25519_public_of(secret: Seq<u8>) -> Seq<u8>;

/// Whether Ed25519 strict verification accepts a signature of a message under a public key.
pub uninterp spec fn ed25519_accepts(public: Seq<u8>, msg: Seq<u8>, sig: Seq<u8>) -> bool;

/// The unpadded standard base64 text of a byte string.
pub uninterp spec fn base64_of(bytes: Seq<u8>) -> Seq<char>;

/// Relies on base64's `STANDARD_NO_PAD` engine: `Engine::encode` gives the
/// unpadded standard base64 text of the bytes.
#[verifier::external_body]
fn base64_encode(bytes: &[u8]) -> (r: String)
    ensures
        r@ == base64_of(bytes@),
{
    base64::Engine::encode(&base64::engine::general_purpose::STANDARD_NO_PAD, bytes)
}

/// Relies on base64's `STANDARD_NO_PAD` engine: `Engine::decode` requires no
/// padding and rejects trailing bits, so it accepts only the canonical text of
/// the bytes it returns.
#[verifier::external_body]
fn base64_decode(text: &str) -> (r: Option<Vec<u8>>)
    ensures
        r matches Some(b) ==> base64_of(b@) == text@,
        r matches Some(d) ==> forall|b: Seq<u8>| base64_of(b) == text@ ==> d@ == b,
        r is None ==> forall|b: Seq<u8>| base64_of(b) != text@,
{
    base64::Engine::decode(&base64::engine::general_purpose::STANDARD_NO_PAD, text).ok()
}

/// Decodes base64 text into exactly `n` bytes.
fn bytes_from_base64(text: &str, n: usize) -> (r: Result<Vec<u8>, Base64Error>)
    ensures
        r matches Ok(b) ==> b@.len() == n && base64_of(b@) == text@,
        forall|b: Seq<u8>| b.len() == n && base64_of(b) == text@ ==> (r matches Ok(d) && d@ == b),
        r matches Err(Base64Error::InvalidLength { expected, actual }) ==> expected == n && actual
            != n,
{
    match base64_decode(text) {
        Some(b) => {
            if b.len() != n {
                return Err(Base64Error::InvalidLength { expected: n, actual: b.len() });
            }
            Ok(b)
        },
        None => Err(Base64Error::InvalidBase64),
    }
}

/// The two lowercase hexadecimal digits of a byte.
pub open spec fn hex_digit(d: u8) -> u8 {
    if d < 10 {
        (0x30 + d) as u8
    } else {
        (0x61 + d - 10) as u8
    }
}

pub open spec fn hex_of(b: Seq<u8>) -> Seq<u8>
    decreases b.len(),
{
    if b.len() == 0 {
        Seq::empty()
    } else {
        hex_of(b.drop_last()) + seq![hex_digit(b.last() / 16), hex_digit(b.last() % 16)]
    }
}

/// Relies on sha2's `Sha512::digest`: 64 bytes that depend on the input alone.
#[verifier::external_body]
fn sha512(bytes: &[u8]) -> (r: [u8; 64])
    ensures
        r@ == sha512_of(bytes@),
{
    sha2::Sha512::digest(bytes).into()
}

/// Relies on ed25519-dalek's `SigningKey::from_bytes` and `Signer::sign`:
/// deterministic signing, any 32 bytes being a secret key.
#[verifier::external_body]
fn ed25519_sign(secret: &[u8; 32], msg: &[u8]) -> (r: [u8; 64])
    ensures
        r@ == ed25519_signature_of(secret@, msg@),
{
    ed25519_dalek::SigningKey::from_bytes(secret).sign(msg).to_bytes()
}

/// Relies on ed25519-dalek's `SigningKey::verifying_key`: the public key of a secret key.
#[verifier::external_body]
fn ed25519_public(secret: &[u8; 32]) -> (r: [u8; 32])
    ensures
        r@ == ed25519_public_of(secret@),
{
    ed25519_dalek::SigningKey::from_bytes(secret).verifying_key().to_bytes()
}

/// Relies on ed25519-dalek's `VerifyingKey::from_bytes` and `verify_strict`;
/// a public key that does not decode accepts nothing.
#[verifier::external_body]
fn ed25519_verify(public: &[u8; 32], msg: &[u8], sig: &[u8; 64]) -> (r: bool)
    ensures
        r == ed25519_accepts(public@, msg@, sig@),
{
    let signature = ed25519_dalek::Signature::from_bytes(sig);
    match ed25519_dalek::VerifyingKey::from_bytes(public) {
        Ok(key) => key.verify_strict(msg, &signature).is_ok(),
        Err(_) => false,
    }
}

/// Relies on ed25519-dalek's `SigningKey::generate` over rand's `OsRng`: a
/// fresh secret key from the operating system's generator.
#[verifier::external_body]
fn ed25519_generate() -> (r: [u8; 32]) {
    ed25519_dalek::SigningKey::generate(&mut rand::rngs::OsRng).to_bytes()
}

/// Copies `n` bytes at `pos` into an array of 64.
fn read_array64(buf: &[u8], pos: usize) -> (r: Result<([u8; 64], usize), DecodeError>)
    requires
        pos <= buf@.len(),
    ensures
        buf@.len() - pos >= 64 ==> (r matches Ok((a, p)) && a@ == buf@.subrange(
            pos as int,
            pos + 64,
        ) && p == pos + 64),
        buf@.len() - pos < 64 ==> r is Err,
{
    if buf.len() - pos < 64 {
        return Err(DecodeError::IoError);
    }
    let mut a = [0u8; 64];
    let mut i: usize = 0;
    while i < 64
        invariant
            i <= 64,
            pos + 64 <= buf.len(),
            forall|j: int| 0 <= j < i ==> a@[j] == buf@[pos + j],
        decreases 64 - i,
    {
        a[i] = buf[pos + i];
        i = i + 1;
    }
    assert(a@ =~= buf@.subrange(pos as int, pos + 64));
    Ok((a, pos + 64))
}

/// Copies 32 bytes at `pos` into an array.
fn read_array32(buf: &[u8], pos: usize) -> (r: Result<([u8; 32], usize), DecodeError>)
    requires
        pos <= buf@.len(),
    ensures
        buf@.len() - pos >= 32 ==> (r matches Ok((a, p)) && a@ == buf@.subrange(
            pos as int,
            pos + 32,
        ) && p == pos + 32),
        buf@.len() - pos < 32 ==> r is Err,
{
    if buf.len() - pos < 32 {
        return Err(DecodeError::IoError);
    }
    let mut a = [0u8; 32];
    let mut i: usize = 0;
    while i < 32
        invariant
            i <= 32,
            pos + 32 <= buf.len(),
            forall|j: int| 0 <= j < i ==> a@[j] == buf@[pos + j],
        decreases 32 - i,
    {
        a[i] = buf[pos + i];
        i = i + 1;
    }
    assert(a@ =~= buf@.subrange(pos as int, pos + 32));
    Ok((a, pos + 32))
}

/// The first `n` bytes of `s`, taken whole, when there are that many.
pub open spec fn parse_fixed(s: Seq<u8>, n: nat) -> Option<(Seq<u8>, nat)> {
    if s.len() < n {
        None
    } else {
        Some((s.subrange(0, n as int), n))
    }
}

/// A 64-byte digest, used as a content address.
#[derive(Debug, Clone, Copy, PartialEq, Eq, Hash)]
pub struct Hash(pub [u8; 64]);

impl Hash {
    pub fn new(hash: [u8; 64]) -> (r: Hash)
        ensures
            r.0@ == hash@,
    {
        Hash(hash)
    }

    /// The SHA-512 digest of `bytes`.
    pub fn digest(bytes: &[u8]) -> (r: Hash)
        ensures
            r.0@ == sha512_of(bytes@),
    {
        Hash(sha512(bytes))
    }

    pub fn inner(&self) -> (r: &[u8; 64])
        ensures
            r@ == self.0@,
    {
        &self.0
    }

    /// The digest as unpadded base64, its text form.
    pub fn as_base64(&self) -> (r: String)
        ensures
            r@ == base64_of(self.0@),
    {
        base64_encode(self.0.as_slice())
    }

    /// Reads a digest from unpadded base64; fails unless the text is the
    /// canonical form of 64 bytes.
    pub fn from_base64(text: &str) -> (r: Result<Hash, ()>)
        ensures
            r matches Ok(h) ==> base64_of(h.0@) == text@,
            forall|b: Seq<u8>| b.len() == 64 && base64_of(b) == text@ ==> (r matches Ok(x) && x.0@ == b),
    {
        match bytes_from_base64(text, 64) {
            Ok(b) => {
                let (a, _) = match read_array64(b.as_slice(), 0) {
                    Ok(x) => x,
                    Err(_) => {
                        return Err(());
                    },
                };
                assert(a@ =~= b@);
                Ok(Hash(a))
            },
            Err(_) => Err(()),
        }
    }

    /// Compares the bytes of two digests.
    pub fn same(&self, other: &Hash) -> (r: bool)
        ensures
            r == (self.0@ == other.0@),
    {
        let mut i: usize = 0;
        while i < 64
            invariant
                i <= 64,
                forall|j: int| 0 <= j < i ==> self.0@[j] == other.0@[j],
            decreases 64 - i,
        {
            if self.0[i] != other.0[i] {
                return false;
            }
            i = i + 1;
        }
        assert(self.0@ =~= other.0@);
        true
    }
}

/// An Ed25519 secret key.
#[derive(Debug, Clone)]
pub struct PrivateKey(pub [u8; 32]);

/// An Ed25519 public key.
#[derive(Debug, Clone, Copy, PartialEq, Eq, Hash)]
pub struct PublicKey(pub [u8; 32]);

/// An Ed25519 signature.
#[derive(Debug, Clone, Copy, PartialEq, Eq)]
pub struct Signature(pub [u8; 64]);

impl Signature {
    /// The all-zero placeholder that a record carries before it is signed.
    pub fn empty() -> (r: Signature)
        ensures
            r.0@ == Seq::new(64, |i: int| 0u8),
    {
        let r = Signature([0u8; 64]);
        assert(r.0@ =~= Seq::new(64, |i: int| 0u8));
        r
    }

    pub fn to_inner(self) -> (r: [u8; 64])
        ensures
            r@ == self.0@,
    {
        self.0
    }

    pub fn as_base64(&self) -> (r: String)
        ensures
            r@ == base64_of(self.0@),
    {
        base64_encode(self.0.as_slice())
    }

    /// Reads a signature from unpadded base64.
    pub fn from_base64(text: &str) -> (r: Result<Signature, Base64Error>)
        ensures
            r matches Ok(s) ==> base64_of(s.0@) == text@,
            forall|b: Seq<u8>| b.len() == 64 && base64_of(b) == text@ ==> (r matches Ok(x) && x.0@ == b),
            r matches Err(Base64Error::InvalidLength { expected, actual }) ==> expected == 64,
    {
        let b = bytes_from_base64(text, 64)?;
        let (a, _) = match read_array64(b.as_slice(), 0) {
            Ok(x) => x,
            Err(_) => {
                return Err(Base64Error::InvalidBase64);
            },
        };
        assert(a@ =~= b@);
        Ok(Signature(a))
    }
}

impl PrivateKey {
    /// A fresh key from the operating system's random source.
    pub fn new() -> (r: PrivateKey) {
        PrivateKey(ed25519_generate())
    }

    pub fn from_bytes(bytes: [u8; 32]) -> (r: PrivateKey)
        ensures
            r.0@ == bytes@,
    {
        PrivateKey(bytes)
    }

    /// The Ed25519 signature of `msg` under this key.
    pub fn sign(&self, msg: &[u8]) -> (r: Signature)
        ensures
            r.0@ == ed25519_signature_of(self.0@, msg@),
    {
        Signature(ed25519_sign(&self.0, msg))
    }

    pub fn public_key(&self) -> (r: PublicKey)
        ensures
            r.0@ == ed25519_public_of(self.0@),
    {
        PublicKey(ed25519_public(&self.0))
    }

    pub fn as_bytes(&self) -> (r: &[u8; 32])
        ensures
            r@ == self.0@,
    {
        &self.0
    }

    pub fn to_base64(&self) -> (r: String)
        ensures
            r@ == base64_of(self.0@),
    {
        base64_encode(self.0.as_slice())
    }

    /// Reads a secret key from unpadded base64.
    pub fn from_base64(text: &str) -> (r: Result<PrivateKey, Base64Error>)
        ensures
            r matches Ok(k) ==> base64_of(k.0@) == text@,
            forall|b: Seq<u8>| b.len() == 32 && base64_of(b) == text@ ==> (r matches Ok(x) && x.0@ == b),
            r matches Err(Base64Error::InvalidLength { expected, actual }) ==> expected == 32,
    {
        let b = bytes_from_base64(text, 32)?;
        let (a, _) = match read_array32(b.as_slice(), 0) {
            Ok(x) => x,
            Err(_) => {
                return Err(Base64Error::InvalidBase64);
            },
        };
        assert(a@ =~= b@);
        Ok(PrivateKey(a))
    }
}

impl PublicKey {
    /// Whether `signature` is this key's signature of `msg`.
    pub fn verify(&self, msg: &[u8], signature: &Signature) -> (r: bool)
        ensures
            r == ed25519_accepts(self.0@, msg@, signature.0@),
    {
        ed25519_verify(&self.0, msg, &signature.0)
    }

    pub fn as_bytes(&self) -> (r: &[u8; 32])
        ensures
            r@ == self.0@,
    {
        &self.0
    }

    pub fn to_base64(&self) -> (r: String)
        ensures
            r@ == base64_of(self.0@),
    {
        base64_encode(self.0.as_slice())
    }

    /// Reads a public key from unpadded base64.
    pub fn from_base64(text: &str) -> (r: Result<PublicKey, Base64Error>)
        ensures
            r matches Ok(k) ==> base64_of(k.0@) == text@,
            forall|b: Seq<u8>| b.len() == 32 && base64_of(b) == text@ ==> (r matches Ok(x) && x.0@ == b),
            r matches Err(Base64Error::InvalidLength { expected, actual }) ==> expected == 32,
    {
        let b = bytes_from_base64(text, 32)?;
        let (a, _) = match read_array32(b.as_slice(), 0) {
            Ok(x) => x,
            Err(_) => {
                return Err(Base64Error::InvalidBase64);
            },
        };
        assert(a@ =~= b@);
        Ok(PublicKey(a))
    }

    /// The key as 64 lowercase hexadecimal digits, its text form.
    pub fn to_hex(&self) -> (r: String)
        ensures
            vstd::utf8::encode_utf8(r@) == hex_of(self.0@),
    {
        let mut digits: Vec<u8> = Vec::new();
        let mut i: usize = 0;
        while i < 32
            invariant
                i <= 32,
                self.0@.len() == 32,
                digits@ == hex_of(self.0@.subrange(0, i as int)),
                forall|k: int| 0 <= k < digits@.len() ==> #[trigger] digits@[k] < 0x80,
            decreases 32 - i,
        {
            let b = self.0[i];
            let hi = b / 16;
            let lo = b % 16;
            let ghost before = digits@;
            digits.push(if hi < 10 { 0x30 + hi } else { 0x61 + hi - 10 });
            digits.push(if lo < 10 { 0x30 + lo } else { 0x61 + lo - 10 });
            assert(self.0@.subrange(0, i + 1).drop_last() =~= self.0@.subrange(0, i as int));
            assert(digits@ =~= before + seq![hex_digit(b / 16), hex_digit(b % 16)]);
            i = i + 1;
        }
        assert(self.0@.subrange(0, 32) =~= self.0@);
        proof {
            crate::text::lemma_ascii_valid(digits@);
            vstd::utf8::decode_utf8_encode_utf8(digits@);
        }
        match crate::codec::utf8_string(digits) {
            Ok(s) => s,
            Err(_) => String::new(),
        }
    }
}

/// A value whose bytes a key can sign.
pub trait Signable {
    spec fn signed_bytes(&self) -> Seq<u8>;

    fn sign(&self, private_key: &PrivateKey) -> (r: Signature)
        ensures
            r.0@ == ed25519_signature_of(private_key.0@, self.signed_bytes()),
    ;

    fn verify(&self, public_key: &PublicKey, signature: &Signature) -> (r: bool)
        ensures
            r == ed25519_accepts(public_key.0@, self.signed_bytes(), signature.0@),
    ;
}

impl Byteable for Hash {
    type Model = Seq<u8>;

    open spec fn model(&self) -> Seq<u8> {
        self.0@
    }

    /// The 64 bytes, with no prefix.
    open spec fn wire(m: Seq<u8>) -> Seq<u8> {
        m
    }

    open spec fn fits(m: Seq<u8>) -> bool {
        m.len() == 64
    }

    open spec fn parse(s: Seq<u8>) -> Option<(Seq<u8>, nat)> {
        parse_fixed(s, 64)
    }

    proof fn lemma_round_trip(m: Seq<u8>, rest: Seq<u8>) {
        assert((m + rest).subrange(0, 64) =~= m);
    }

    proof fn lemma_parse_len(s: Seq<u8>) {
    }

    fn encode(&self, out: &mut Vec<u8>) -> (r: Result<(), EncodeError>) {
        out.extend_from_slice(self.0.as_slice());
        assert(out@ =~= old(out)@ + self.0@);
        Ok(())
    }

    fn decode(buf: &[u8], pos: usize) -> (r: Result<(Self, usize), DecodeError>) {
        let (a, p) = read_array64(buf, pos)?;
        assert(a@ =~= after(buf@, pos as nat).subrange(0, 64));
        Ok((Hash(a), p))
    }
}

impl Byteable for Signature {
    type Model = Seq<u8>;

    open spec fn model(&self) -> Seq<u8> {
        self.0@
    }

    /// The 64 bytes, with no prefix.
    open spec fn wire(m: Seq<u8>) -> Seq<u8> {
        m
    }

    open spec fn fits(m: Seq<u8>) -> bool {
        m.len() == 64
    }

    open spec fn parse(s: Seq<u8>) -> Option<(Seq<u8>, nat)> {
        parse_fixed(s, 64)
    }

    proof fn lemma_round_trip(m: Seq<u8>, rest: Seq<u8>) {
        assert((m + rest).subrange(0, 64) =~= m);
    }

    proof fn lemma_parse_len(s: Seq<u8>) {
    }

    fn encode(&self, out: &mut Vec<u8>) -> (r: Result<(), EncodeError>) {
        out.extend_from_slice(self.0.as_slice());
        assert(out@ =~= old(out)@ + self.0@);
        Ok(())
    }

    fn decode(buf: &[u8], pos: usize) -> (r: Result<(Self, usize), DecodeError>) {
        let (a, p) = read_array64(buf, pos)?;
        assert(a@ =~= after(buf@, pos as nat).subrange(0, 64));
        Ok((Signature(a), p))
    }
}

impl Byteable for PublicKey {
    type Model = Seq<u8>;

    open spec fn model(&self) -> Seq<u8> {
        self.0@
    }

    /// The 32 bytes, with no prefix.
    open spec fn wire(m: Seq<u8>) -> Seq<u8> {
        m
    }

    open spec fn fits(m: Seq<u8>) -> bool {
        m.len() == 32
    }

    open spec fn parse(s: Seq<u8>) -> Option<(Seq<u8>, nat)> {
        parse_fixed(s, 32)
    }

    proof fn lemma_round_trip(m: Seq<u8>, rest: Seq<u8>) {
        assert((m + rest).subrange(0, 32) =~= m);
    }

    proof fn lemma_parse_len(s: Seq<u8>) {
    }

    fn encode(&self, out: &mut Vec<u8>) -> (r: Result<(), EncodeError>) {
        out.extend_from_slice(self.0.as_slice());
        assert(out@ =~= old(out)@ + self.0@);
        Ok(())
    }

    fn decode(buf: &[u8], pos: usize) -> (r: Result<(Self, usize), DecodeError>) {
        let (a, p) = read_array32(buf, pos)?;
        assert(a@ =~= after(buf@, pos as nat).subrange(0, 32));
        Ok((PublicKey(a), p))
    }
}

} // verus!
