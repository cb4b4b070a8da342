//! Discussion posts and the topics that group them.
use vstd::prelude::*;
use vstd::utf8::encode_utf8;

use crate::catalog::{le64, u64_le_bytes, Index, IndexTag};
use crate::codec::string_bytes;
use crate::keys::{
    ed25519_accepts, ed25519_public_of, ed25519_signature_of, sha512_of, PrivateKey, PublicKey,
    Signature,
};

verus! {

/// A 32-bit word in little-endian order.
pub open spec fn le32u(x: u32) -> Seq<u8> {
    seq![x as u8, (x >> 8u32) as u8, (x >> 16u32) as u8, (x >> 24u32) as u8]
}

/// The thread of one entry of an index: the digest of the index hash and the
/// entry's enumeration.
pub open spec fn entry_topic(index_hash: Seq<u8>, enumeration: u32) -> Seq<u8> {
    sha512_of(index_hash + le32u(enumeration))
}

/// A discussion thread, identified by 64 bytes.
#[derive(Debug, Clone, Copy, PartialEq, Eq)]
pub struct Topic(pub [u8; 64]);

impl Topic {
    /// The thread of an index: its hash.
    pub fn from_index<T: IndexTag>(index: &Index<T>) -> (r: Topic)
        ensures
            r.0@ == index.hash.0@,
    {
        Topic(index.hash.0)
    }

    /// The thread that answers a post: the post's signature.
    pub fn from_post(post: &Post) -> (r: Topic)
        ensures
            r.0@ == post.signature.0@,
    {
        Topic(post.signature.0)
    }

    /// The thread of one entry; `enumeration` holds the bits of the entry's
    /// 32-bit float enumeration.
    pub fn from_entry<T: IndexTag>(index: &Index<T>, enumeration: u32) -> (r: Topic)
        ensures
            r.0@ == entry_topic(index.hash.0@, enumeration),
    {
        let mut bytes: Vec<u8> = Vec::new();
        bytes.extend_from_slice(index.hash.0.as_slice());
        let e = [
            enumeration as u8,
            (enumeration >> 8u32) as u8,
            (enumeration >> 16u32) as u8,
            (enumeration >> 24u32) as u8,
        ];
        bytes.extend_from_slice(e.as_slice());
        assert(bytes@ =~= index.hash.0@ + le32u(enumeration));
        Topic(crate::keys::Hash::digest(bytes.as_slice()).0)
    }

    pub fn inner(&self) -> (r: &[u8; 64])
        ensures
            r@ == self.0@,
    {
        &self.0
    }
}

/// What a post's signature covers: topic, content bytes, little-endian timestamp.
pub open spec fn post_signed_bytes(topic: Seq<u8>, content: Seq<char>, timestamp: u64) -> Seq<u8> {
    topic + encode_utf8(content) + le64(timestamp)
}

/// A signed message in a discussion thread.
#[derive(Debug, Clone)]
pub struct Post {
    pub signature: Signature,
    /// Who posted.
    pub source: PublicKey,
    pub topic: Topic,
    pub timestamp: u64,
    pub content: String,
}

impl Post {
    pub open spec fn signed_bytes(&self) -> Seq<u8> {
        post_signed_bytes(self.topic.0@, self.content@, self.timestamp)
    }

    pub open spec fn valid(&self) -> bool {
        ed25519_accepts(self.source.0@, self.signed_bytes(), self.signature.0@)
    }

    pub fn new(
        content: String,
        timestamp: u64,
        source: PublicKey,
        topic: Topic,
        signature: Signature,
    ) -> (r: Post)
        ensures
            r.content@ == content@,
            r.timestamp == timestamp,
            r.source == source,
            r.topic == topic,
            r.signature == signature,
    {
        Post { source, signature, topic, timestamp, content }
    }

    /// A post signed by `priv_key`, with its public key as source.
    pub fn new_signed(content: String, timestamp: u64, topic: Topic, priv_key: &PrivateKey) -> (r:
        Post)
        ensures
            r.content@ == content@,
            r.timestamp == timestamp,
            r.topic == topic,
            r.source.0@ == ed25519_public_of(priv_key.0@),
            r.signature.0@ == ed25519_signature_of(priv_key.0@, r.signed_bytes()),
    {
        let mut post = Self::new(content, timestamp, priv_key.public_key(), topic, Signature::empty());
        post.sign(priv_key);
        post
    }

    /// The bytes that the signature covers.
    pub fn sign_bytes(&self) -> (r: Vec<u8>)
        ensures
            r@ == self.signed_bytes(),
    {
        let mut bytes: Vec<u8> = Vec::new();
        bytes.extend_from_slice(self.topic.0.as_slice());
        bytes.extend_from_slice(string_bytes(&self.content));
        let ts = u64_le_bytes(self.timestamp);
        bytes.extend_from_slice(ts.as_slice());
        assert(bytes@ =~= self.signed_bytes());
        bytes
    }

    fn sign(&mut self, priv_key: &PrivateKey)
        ensures
            final(self).content@ == old(self).content@,
            final(self).timestamp == old(self).timestamp,
            final(self).topic == old(self).topic,
            final(self).source == old(self).source,
            final(self).signature.0@ == ed25519_signature_of(priv_key.0@, old(self).signed_bytes()),
    {
        let to_sign = self.sign_bytes();
        self.signature = priv_key.sign(to_sign.as_slice());
    }

    /// Whether the signature over topic, content and timestamp verifies under the source.
    pub fn verify(&self) -> (r: bool)
        ensures
            r == self.valid(),
    {
        let to_verify = self.sign_bytes();
        self.source.verify(to_verify.as_slice(), &self.signature)
    }
}

/// Changing the topic, the text or the timestamp of a post changes the bytes
/// that its signature covers.
pub proof fn lemma_post_tamper(
    topic1: Seq<u8>,
    content1: Seq<char>,
    ts1: u64,
    topic2: Seq<u8>,
    content2: Seq<char>,
    ts2: u64,
)
    requires
        topic1.len() == 64,
        topic2.len() == 64,
        (topic1 != topic2 && content1 == content2 && ts1 == ts2) || (topic1 == topic2 && content1
            != content2 && ts1 == ts2) || (topic1 == topic2 && content1 == content2 && ts1 != ts2),
    ensures
        post_signed_bytes(topic1, content1, ts1) != post_signed_bytes(topic2, content2, ts2),
{
    if topic1 != topic2 {
        crate::catalog::lemma_middle_differs(
            Seq::empty(),
            topic1,
            topic2,
            encode_utf8(content1) + le64(ts1),
        );
        assert(Seq::<u8>::empty() + topic1 + (encode_utf8(content1) + le64(ts1)) =~= post_signed_bytes(
            topic1,
            content1,
            ts1,
        ));
        assert(Seq::<u8>::empty() + topic2 + (encode_utf8(content2) + le64(ts2)) =~= post_signed_bytes(
            topic2,
            content2,
            ts2,
        ));
    } else if content1 != content2 {
        crate::catalog::lemma_utf8_injective(content1, content2);
        crate::catalog::lemma_middle_differs(topic1, encode_utf8(content1), encode_utf8(content2), le64(ts1));
    } else {
        crate::catalog::lemma_le64_injective(ts1, ts2);
        crate::catalog::lemma_middle_differs(
            topic1 + encode_utf8(content1),
            le64(ts1),
            le64(ts2),
            Seq::empty(),
        );
        assert(topic1 + encode_utf8(content1) + le64(ts1) + Seq::<u8>::empty() =~= post_signed_bytes(
            topic1,
            content1,
            ts1,
        ));
        assert(topic1 + encode_utf8(content1) + le64(ts2) + Seq::<u8>::empty() =~= post_signed_bytes(
            topic2,
            content2,
            ts2,
        ));
    }
}

} // verus!
