//! Signed user identities.
use vstd::prelude::*;
use vstd::utf8::encode_utf8;

use crate::catalog::{le64, u64_le_bytes};
use crate::codec::{string_bytes, Byteable};
use crate::error::{DecodeError, EncodeError};
use crate::keys::{
    ed25519_accepts, ed25519_public_of, ed25519_signature_of, PrivateKey, PublicKey, Signable,
    Signature,
};

verus! {

/// How far the local node trusts a user; local only, never signed or sent.
#[derive(Debug, Clone, Copy, PartialEq, Eq, Structural)]
pub enum TrustLevel {
    Untrusted,
    FullTrust,
}

impl TrustLevel {
    /// The level's name as shown to the user.
    pub fn label(&self) -> (r: String)
        ensures
            self == TrustLevel::Untrusted ==> r@ == seq!['U', 'n', 't', 'r', 'u', 's', 't', 'e', 'd'],
            self == TrustLevel::FullTrust ==> r@ == seq!['F', 'u', 'l', 'l', ' ', 't', 'r', 'u', 's', 't'],
    {
        proof {
            reveal_strlit("Untrusted");
            reveal_strlit("Full trust");
        }
        match self {
            TrustLevel::Untrusted => crate::codec::owned("Untrusted"),
            TrustLevel::FullTrust => crate::codec::owned("Full trust"),
        }
    }
}

/// An overlay-network destination, as text the core never interprets.
#[derive(Debug, Clone, PartialEq, Eq)]
pub struct I2PAddress(pub String);

impl I2PAddress {
    pub fn new(address: String) -> (r: I2PAddress)
        ensures
            r.0@ == address@,
    {
        I2PAddress(address)
    }

    pub fn inner(&self) -> (r: &String)
        ensures
            r@ == self.0@,
    {
        &self.0
    }

    pub fn into_inner(self) -> (r: String)
        ensures
            r@ == self.0@,
    {
        self.0
    }
}

impl Signable for I2PAddress {
    open spec fn signed_bytes(&self) -> Seq<u8> {
        encode_utf8(self.0@)
    }

    fn sign(&self, private_key: &PrivateKey) -> (r: Signature) {
        private_key.sign(string_bytes(&self.0))
    }

    fn verify(&self, public_key: &PublicKey, signature: &Signature) -> (r: bool) {
        public_key.verify(string_bytes(&self.0), signature)
    }
}

impl Byteable for I2PAddress {
    type Model = Seq<char>;

    open spec fn model(&self) -> Seq<char> {
        self.0@
    }

    open spec fn wire(m: Seq<char>) -> Seq<u8> {
        String::wire(m)
    }

    open spec fn fits(m: Seq<char>) -> bool {
        String::fits(m)
    }

    open spec fn parse(s: Seq<u8>) -> Option<(Seq<char>, nat)> {
        String::parse(s)
    }

    proof fn lemma_round_trip(m: Seq<char>, rest: Seq<u8>) {
        String::lemma_round_trip(m, rest);
    }

    proof fn lemma_parse_len(s: Seq<u8>) {
        String::lemma_parse_len(s);
    }

    fn encode(&self, out: &mut Vec<u8>) -> (r: Result<(), EncodeError>) {
        self.0.encode(out)
    }

    fn decode(buf: &[u8], pos: usize) -> (r: Result<(Self, usize), DecodeError>) {
        let (text, p) = String::decode(buf, pos)?;
        Ok((I2PAddress(text), p))
    }
}

/// The bytes of an optional address: its text, or nothing.
pub open spec fn address_bytes(address: Option<Seq<char>>) -> Seq<u8> {
    match address {
        Some(a) => encode_utf8(a),
        None => Seq::empty(),
    }
}

/// What a user's signature covers: name, little-endian timestamp, address.
pub open spec fn user_signed_bytes(name: Seq<char>, timestamp: u64, address: Option<Seq<char>>) -> Seq<u8> {
    encode_utf8(name) + le64(timestamp) + address_bytes(address)
}

pub open spec fn address_view(address: Option<I2PAddress>) -> Option<Seq<char>> {
    match address {
        Some(a) => Some(a.0@),
        None => None,
    }
}

/// A user identity: a name and an address, signed by the user's key.
#[derive(Debug, Clone)]
pub struct User {
    pub pub_key: PublicKey,
    pub name: String,
    pub timestamp: u64,
    pub address: Option<I2PAddress>,
    pub signature: Signature,
    pub trust: TrustLevel,
}

impl User {
    pub open spec fn signed_bytes(&self) -> Seq<u8> {
        user_signed_bytes(self.name@, self.timestamp, address_view(self.address))
    }

    pub open spec fn valid(&self) -> bool {
        ed25519_accepts(self.pub_key.0@, self.signed_bytes(), self.signature.0@)
    }

    /// A user record as received; trust starts at the lowest level.
    pub fn new(
        name: String,
        timestamp: u64,
        pub_key: PublicKey,
        signature: Signature,
        address: Option<I2PAddress>,
    ) -> (r: User)
        ensures
            r.name@ == name@,
            r.timestamp == timestamp,
            r.pub_key == pub_key,
            r.signature == signature,
            address_view(r.address) == address_view(address),
            r.trust == TrustLevel::Untrusted,
    {
        User { pub_key, name, timestamp, address, signature, trust: TrustLevel::Untrusted }
    }

    /// A user record signed by `priv_key`, with its public key.
    pub fn new_signed(
        name: String,
        timestamp: u64,
        priv_key: &PrivateKey,
        address: Option<I2PAddress>,
    ) -> (r: User)
        ensures
            r.name@ == name@,
            r.timestamp == timestamp,
            r.pub_key.0@ == ed25519_public_of(priv_key.0@),
            address_view(r.address) == address_view(address),
            r.signature.0@ == ed25519_signature_of(priv_key.0@, r.signed_bytes()),
            r.trust == TrustLevel::Untrusted,
    {
        let mut user = User::new(name, timestamp, priv_key.public_key(), Signature::empty(), address);
        user.sign(priv_key);
        user
    }

    /// The bytes that the signature covers.
    pub fn verification_bytes(&self) -> (r: Vec<u8>)
        ensures
            r@ == self.signed_bytes(),
    {
        let mut bytes: Vec<u8> = Vec::new();
        bytes.extend_from_slice(string_bytes(&self.name));
        let ts = u64_le_bytes(self.timestamp);
        bytes.extend_from_slice(ts.as_slice());
        match &self.address {
            Some(a) => {
                bytes.extend_from_slice(string_bytes(&a.0));
            },
            None => {},
        }
        assert(bytes@ =~= self.signed_bytes());
        bytes
    }

    fn sign(&mut self, priv_key: &PrivateKey)
        ensures
            final(self).pub_key == old(self).pub_key,
            final(self).name@ == old(self).name@,
            final(self).timestamp == old(self).timestamp,
            address_view(final(self).address) == address_view(old(self).address),
            final(self).trust == old(self).trust,
            final(self).signature.0@ == ed25519_signature_of(priv_key.0@, old(self).signed_bytes()),
    {
        let to_sign = self.verification_bytes();
        self.signature = priv_key.sign(to_sign.as_slice());
    }

    /// Whether the signature over name, timestamp and address verifies under the user's key.
    pub fn verify(&self) -> (r: bool)
        ensures
            r == self.valid(),
    {
        let to_verify = self.verification_bytes();
        self.pub_key.verify(to_verify.as_slice(), &self.signature)
    }

    pub fn name(&self) -> (r: &String)
        ensures
            r@ == self.name@,
    {
        &self.name
    }

    pub fn timestamp(&self) -> (r: u64)
        ensures
            r == self.timestamp,
    {
        self.timestamp
    }

    pub fn address(&self) -> (r: &Option<I2PAddress>)
        ensures
            address_view(*r) == address_view(self.address),
    {
        &self.address
    }

    pub fn set_address(&mut self, address: Option<I2PAddress>)
        ensures
            address_view(final(self).address) == address_view(address),
            final(self).pub_key == old(self).pub_key,
            final(self).name@ == old(self).name@,
            final(self).timestamp == old(self).timestamp,
            final(self).signature == old(self).signature,
            final(self).trust == old(self).trust,
    {
        self.address = address;
    }

    pub fn signature(&self) -> (r: &Signature)
        ensures
            r == &self.signature,
    {
        &self.signature
    }

    pub fn pub_key(&self) -> (r: &PublicKey)
        ensures
            r == &self.pub_key,
    {
        &self.pub_key
    }

    pub fn trust(&self) -> (r: &TrustLevel)
        ensures
            r == &self.trust,
    {
        &self.trust
    }

    pub fn set_trust(&mut self, trust: TrustLevel)
        ensures
            final(self).trust == trust,
            address_view(final(self).address) == address_view(old(self).address),
            final(self).pub_key == old(self).pub_key,
            final(self).name@ == old(self).name@,
            final(self).timestamp == old(self).timestamp,
            final(self).signature == old(self).signature,
    {
        self.trust = trust;
    }

    /// The fields, in the order key, name, timestamp, address, signature, trust.
    pub fn as_tuple(self) -> (r: (PublicKey, String, u64, Option<I2PAddress>, Signature, TrustLevel))
        ensures
            r.0 == self.pub_key,
            r.1@ == self.name@,
            r.2 == self.timestamp,
            address_view(r.3) == address_view(self.address),
            r.4 == self.signature,
            r.5 == self.trust,
    {
        (self.pub_key, self.name, self.timestamp, self.address, self.signature, self.trust)
    }
}

/// Changing the name, the timestamp or the address of a user record changes
/// the bytes that its signature covers.
pub proof fn lemma_user_tamper(
    name1: Seq<char>,
    ts1: u64,
    address1: Option<Seq<char>>,
    name2: Seq<char>,
    ts2: u64,
    address2: Option<Seq<char>>,
)
    requires
        (name1 != name2 && ts1 == ts2 && address1 == address2) || (name1 == name2 && ts1 != ts2
            && address1 == address2) || (name1 == name2 && ts1 == ts2 && address_bytes(address1)
            != address_bytes(address2)),
    ensures
        user_signed_bytes(name1, ts1, address1) != user_signed_bytes(name2, ts2, address2),
{
    if name1 != name2 {
        crate::catalog::lemma_utf8_injective(name1, name2);
        crate::catalog::lemma_middle_differs(
            Seq::empty(),
            encode_utf8(name1),
            encode_utf8(name2),
            le64(ts1) + address_bytes(address1),
        );
        assert(Seq::<u8>::empty() + encode_utf8(name1) + (le64(ts1) + address_bytes(address1))
            =~= user_signed_bytes(name1, ts1, address1));
        assert(Seq::<u8>::empty() + encode_utf8(name2) + (le64(ts2) + address_bytes(address2))
            =~= user_signed_bytes(name2, ts2, address2));
    } else if ts1 != ts2 {
        crate::catalog::lemma_le64_injective(ts1, ts2);
        crate::catalog::lemma_middle_differs(
            encode_utf8(name1),
            le64(ts1),
            le64(ts2),
            address_bytes(address1),
        );
    } else {
        crate::catalog::lemma_middle_differs(
            encode_utf8(name1) + le64(ts1),
            address_bytes(address1),
            address_bytes(address2),
            Seq::empty(),
        );
        assert(encode_utf8(name1) + le64(ts1) + address_bytes(address1) + Seq::<u8>::empty()
            =~= user_signed_bytes(name1, ts1, address1));
        assert(encode_utf8(name1) + le64(ts1) + address_bytes(address2) + Seq::<u8>::empty()
            =~= user_signed_bytes(name2, ts2, address2));
    }
}

} // verus!
