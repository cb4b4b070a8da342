//! Signed catalog records: an index names a work, a content record bundles
//! the downloadable entries that belong to one index.
use vstd::prelude::*;

use vstd::utf8::encode_utf8;

use core::marker::PhantomData;

use crate::codec::{after, be16, be32, be64, string_bytes, Byteable};
use crate::error::{DecodeError, EncodeError};
use crate::keys::{ed25519_accepts, ed25519_signature_of, sha512_of, PrivateKey, PublicKey, Signature};
use crate::text::{sanitized, SanitizedString};

verus! {

pub type Timestamp = u64;

/// The bytes of a value that a signature or a digest covers.
pub trait ToBytes: Byteable {
    spec fn canonical(m: Self::Model) -> Seq<u8>;

    fn to_bytes(&self) -> (r: Vec<u8>)
        ensures
            r@ == Self::canonical(self.model()),
    ;
}

/// A category of catalog content: its name on the wire and the payload of its entries.
pub trait IndexTag {
    type Content: ToBytes;

    spec fn tag_name() -> Seq<char>;

    fn tag() -> (r: String)
        ensures
            r@ == Self::tag_name(),
    ;
}

/// A 32-bit integer in little-endian order.
pub open spec fn le32(x: i32) -> Seq<u8> {
    let u = x as u32;
    seq![u as u8, (u >> 8u32) as u8, (u >> 16u32) as u8, (u >> 24u32) as u8]
}

/// An unsigned 64-bit integer in little-endian order.
pub open spec fn le64(x: u64) -> Seq<u8> {
    seq![
        x as u8,
        (x >> 8u64) as u8,
        (x >> 16u64) as u8,
        (x >> 24u64) as u8,
        (x >> 32u64) as u8,
        (x >> 40u64) as u8,
        (x >> 48u64) as u8,
        (x >> 56u64) as u8,
    ]
}

pub fn i32_le_bytes(x: i32) -> (r: [u8; 4])
    ensures
        r@ == le32(x),
{
    let u = x as u32;
    let r = [u as u8, (u >> 8u32) as u8, (u >> 16u32) as u8, (u >> 24u32) as u8];
    assert(r@ =~= le32(x));
    r
}

pub fn u64_le_bytes(x: u64) -> (r: [u8; 8])
    ensures
        r@ == le64(x),
{
    let r = [
        x as u8,
        (x >> 8u64) as u8,
        (x >> 16u64) as u8,
        (x >> 24u64) as u8,
        (x >> 32u64) as u8,
        (x >> 40u64) as u8,
        (x >> 48u64) as u8,
        (x >> 56u64) as u8,
    ];
    assert(r@ =~= le64(x));
    r
}

pub fn u64_be_bytes(x: u64) -> (r: [u8; 8])
    ensures
        r@ == be64(x),
{
    let r = [
        (x >> 56u64) as u8,
        (x >> 48u64) as u8,
        (x >> 40u64) as u8,
        (x >> 32u64) as u8,
        (x >> 24u64) as u8,
        (x >> 16u64) as u8,
        (x >> 8u64) as u8,
        x as u8,
    ];
    assert(r@ =~= be64(x));
    r
}

/// The language of an entry.
#[derive(Debug, Clone, Copy, PartialEq, Eq, Structural)]
pub enum Language {
    Japanese,
    English,
    French,
    Portuguese,
    Unknown,
}

pub open spec fn language_code(l: Language) -> u8 {
    match l {
        Language::Japanese => 0,
        Language::English => 1,
        Language::French => 2,
        Language::Portuguese => 3,
        Language::Unknown => 4,
    }
}

pub open spec fn language_of(b: u8) -> Option<Language> {
    if b == 0 {
        Some(Language::Japanese)
    } else if b == 1 {
        Some(Language::English)
    } else if b == 2 {
        Some(Language::French)
    } else if b == 3 {
        Some(Language::Portuguese)
    } else if b == 4 {
        Some(Language::Unknown)
    } else {
        None
    }
}

impl Language {
    pub fn code(&self) -> (r: u8)
        ensures
            r == language_code(*self),
    {
        match self {
            Language::Japanese => 0,
            Language::English => 1,
            Language::French => 2,
            Language::Portuguese => 3,
            Language::Unknown => 4,
        }
    }
}

pub use crate::codec::invalid_variant;

impl Byteable for Language {
    type Model = Language;

    open spec fn model(&self) -> Language {
        *self
    }

    /// One byte: the variant's position.
    open spec fn wire(m: Language) -> Seq<u8> {
        seq![language_code(m)]
    }

    open spec fn fits(m: Language) -> bool {
        true
    }

    open spec fn parse(s: Seq<u8>) -> Option<(Language, nat)> {
        if s.len() < 1 {
            None
        } else {
            match language_of(s[0]) {
                Some(l) => Some((l, 1)),
                None => None,
            }
        }
    }

    proof fn lemma_round_trip(m: Language, rest: Seq<u8>) {
        assert((Self::wire(m) + rest)[0] == language_code(m));
    }

    proof fn lemma_parse_len(s: Seq<u8>) {
    }

    fn encode(&self, out: &mut Vec<u8>) -> (r: Result<(), EncodeError>) {
        out.push(self.code());
        assert(out@ =~= old(out)@ + Self::wire(*self));
        Ok(())
    }

    fn decode(buf: &[u8], pos: usize) -> (r: Result<(Self, usize), DecodeError>)
        ensures
            after(buf@, pos as nat).len() >= 1 && after(buf@, pos as nat)[0] > 4
                ==> crate::codec::bad_variant(
                r,
                after(buf@, pos as nat)[0],
                seq!['L', 'a', 'n', 'g', 'u', 'a', 'g', 'e'],
            ),
    {
        let (b, p) = u8::decode(buf, pos)?;
        proof {
            reveal_strlit("Language");
            assert("Language"@ =~= seq!['L', 'a', 'n', 'g', 'u', 'a', 'g', 'e']);
        }
        let l = match b {
            0 => Language::Japanese,
            1 => Language::English,
            2 => Language::French,
            3 => Language::Portuguese,
            4 => Language::Unknown,
            _ => {
                return Err(invalid_variant(b, "Language"));
            },
        };
        Ok((l, p))
    }
}

/// The payload of a manga chapter.
#[derive(Debug, Clone, Copy)]
pub struct MangaChapter {
    pub language: Language,
}

impl MangaChapter {
    pub fn new(language: Language) -> (r: MangaChapter)
        ensures
            r.language == language,
    {
        MangaChapter { language }
    }
}

/// The payload of a novel chapter.
#[derive(Debug, Clone, Copy)]
pub struct NovelChapter {
    pub language: Language,
}

impl NovelChapter {
    pub fn new(language: Language) -> (r: NovelChapter)
        ensures
            r.language == language,
    {
        NovelChapter { language }
    }
}

impl Byteable for MangaChapter {
    type Model = Language;

    open spec fn model(&self) -> Language {
        self.language
    }

    open spec fn wire(m: Language) -> Seq<u8> {
        Language::wire(m)
    }

    open spec fn fits(m: Language) -> bool {
        true
    }

    open spec fn parse(s: Seq<u8>) -> Option<(Language, nat)> {
        Language::parse(s)
    }

    proof fn lemma_round_trip(m: Language, rest: Seq<u8>) {
        Language::lemma_round_trip(m, rest);
    }

    proof fn lemma_parse_len(s: Seq<u8>) {
    }

    fn encode(&self, out: &mut Vec<u8>) -> (r: Result<(), EncodeError>) {
        self.language.encode(out)
    }

    fn decode(buf: &[u8], pos: usize) -> (r: Result<(Self, usize), DecodeError>) {
        let (language, p) = Language::decode(buf, pos)?;
        Ok((MangaChapter { language }, p))
    }
}

impl ToBytes for MangaChapter {
    /// The language as a two-byte big-endian number.
    open spec fn canonical(m: Language) -> Seq<u8> {
        be16(language_code(m) as u16)
    }

    fn to_bytes(&self) -> (r: Vec<u8>) {
        let mut out: Vec<u8> = Vec::new();
        let _ = (self.language.code() as u16).encode(&mut out);
        assert(out@ =~= be16(language_code(self.language) as u16));
        out
    }
}

impl Byteable for NovelChapter {
    type Model = Language;

    open spec fn model(&self) -> Language {
        self.language
    }

    open spec fn wire(m: Language) -> Seq<u8> {
        Language::wire(m)
    }

    open spec fn fits(m: Language) -> bool {
        true
    }

    open spec fn parse(s: Seq<u8>) -> Option<(Language, nat)> {
        Language::parse(s)
    }

    proof fn lemma_round_trip(m: Language, rest: Seq<u8>) {
        Language::lemma_round_trip(m, rest);
    }

    proof fn lemma_parse_len(s: Seq<u8>) {
    }

    fn encode(&self, out: &mut Vec<u8>) -> (r: Result<(), EncodeError>) {
        self.language.encode(out)
    }

    fn decode(buf: &[u8], pos: usize) -> (r: Result<(Self, usize), DecodeError>) {
        let (language, p) = Language::decode(buf, pos)?;
        Ok((NovelChapter { language }, p))
    }
}

impl ToBytes for NovelChapter {
    /// The language as a two-byte big-endian number.
    open spec fn canonical(m: Language) -> Seq<u8> {
        be16(language_code(m) as u16)
    }

    fn to_bytes(&self) -> (r: Vec<u8>) {
        let mut out: Vec<u8> = Vec::new();
        let _ = (self.language.code() as u16).encode(&mut out);
        assert(out@ =~= be16(language_code(self.language) as u16));
        out
    }
}

/// The catalog of manga.
#[derive(Debug, Clone, Copy)]
pub struct MangaTag;

/// The catalog of novels.
#[derive(Debug, Clone, Copy)]
pub struct NovelTag;

impl IndexTag for MangaTag {
    type Content = MangaChapter;

    open spec fn tag_name() -> Seq<char> {
        seq!['m', 'a', 'n', 'g', 'a', 's']
    }

    fn tag() -> (r: String) {
        proof {
            reveal_strlit("mangas");
        }
        let r = crate::codec::owned("mangas");
        assert(r@ =~= Self::tag_name());
        r
    }
}

impl IndexTag for NovelTag {
    type Content = NovelChapter;

    open spec fn tag_name() -> Seq<char> {
        seq!['n', 'o', 'v', 'e', 'l', 's']
    }

    fn tag() -> (r: String) {
        proof {
            reveal_strlit("novels");
        }
        let r = crate::codec::owned("novels");
        assert(r@ =~= Self::tag_name());
        r
    }
}


/// A magnet link that locates the files of a content record.
#[derive(Debug, Clone)]
pub struct Magnet(pub String);

impl Byteable for Magnet {
    type Model = Seq<char>;

    open spec fn model(&self) -> Seq<char> {
        self.0@
    }

    open spec fn wire(m: Seq<char>) -> Seq<u8> {
        String::wire(m)
    }

    open spec fn fits(m: Seq<char>) -> bool {
        String::fits(m)
    }

    open spec fn parse(s: Seq<u8>) -> Option<(Seq<char>, nat)> {
        String::parse(s)
    }

    proof fn lemma_round_trip(m: Seq<char>, rest: Seq<u8>) {
        String::lemma_round_trip(m, rest);
    }

    proof fn lemma_parse_len(s: Seq<u8>) {
        String::lemma_parse_len(s);
    }

    fn encode(&self, out: &mut Vec<u8>) -> (r: Result<(), EncodeError>) {
        self.0.encode(out)
    }

    fn decode(buf: &[u8], pos: usize) -> (r: Result<(Self, usize), DecodeError>) {
        let (text, p) = String::decode(buf, pos)?;
        Ok((Magnet(text), p))
    }
}

/// The sent fields of an entry.
pub struct EntryModel<C> {
    pub title: Seq<char>,
    pub enumeration: u32,
    pub path: Seq<char>,
    pub content: C,
}

/// One downloadable entry (a chapter) of a content record.
///
/// `enumeration` orders the entries: it holds the bits of a 32-bit float.
/// `progress`, the reader's local progress, is neither sent nor signed.
pub struct ContentEntry<T: IndexTag> {
    pub title: String,
    pub enumeration: u32,
    pub path: String,
    pub content: T::Content,
    pub progress: u32,
}

pub type EntryWire<T> = (String, (u32, (String, <T as IndexTag>::Content)));

impl<T: IndexTag> Byteable for ContentEntry<T> {
    type Model = EntryModel<<T::Content as Byteable>::Model>;

    open spec fn model(&self) -> Self::Model {
        EntryModel {
            title: self.title@,
            enumeration: self.enumeration,
            path: self.path@,
            content: self.content.model(),
        }
    }

    /// Title, enumeration, path, then the payload.
    open spec fn wire(m: Self::Model) -> Seq<u8> {
        EntryWire::<T>::wire((m.title, (m.enumeration, (m.path, m.content))))
    }

    open spec fn fits(m: Self::Model) -> bool {
        EntryWire::<T>::fits((m.title, (m.enumeration, (m.path, m.content))))
    }

    open spec fn parse(s: Seq<u8>) -> Option<(Self::Model, nat)> {
        match EntryWire::<T>::parse(s) {
            Some((w, n)) => Some(
                (EntryModel { title: w.0, enumeration: w.1.0, path: w.1.1.0, content: w.1.1.1 }, n),
            ),
            None => None,
        }
    }

    proof fn lemma_round_trip(m: Self::Model, rest: Seq<u8>) {
        EntryWire::<T>::lemma_round_trip((m.title, (m.enumeration, (m.path, m.content))), rest);
    }

    proof fn lemma_parse_len(s: Seq<u8>) {
        EntryWire::<T>::lemma_parse_len(s);
    }

    fn encode(&self, out: &mut Vec<u8>) -> (r: Result<(), EncodeError>) {
        self.title.encode(out)?;
        let ghost o1 = out@;
        self.enumeration.encode(out)?;
        let ghost o2 = out@;
        self.path.encode(out)?;
        let ghost o3 = out@;
        let r = self.content.encode(out);
        proof {
            if r is Ok {
                assert(out@ =~= old(out)@ + Self::wire(self.model()));
            }
        }
        r
    }

    fn decode(buf: &[u8], pos: usize) -> (r: Result<(Self, usize), DecodeError>) {
        let (w, p) = EntryWire::<T>::decode(buf, pos)?;
        let (title, (enumeration, (path, content))) = w;
        let entry = ContentEntry { title, enumeration, path, content, progress: 0 };
        Ok((entry, p))
    }
}

impl<T: IndexTag> ToBytes for ContentEntry<T> {
    /// Title bytes, the enumeration in big-endian order, path bytes, then the
    /// payload's own bytes.
    open spec fn canonical(m: Self::Model) -> Seq<u8> {
        encode_utf8(m.title) + be32(m.enumeration) + encode_utf8(m.path)
            + T::Content::canonical(m.content)
    }

    fn to_bytes(&self) -> (r: Vec<u8>) {
        let mut bytes: Vec<u8> = Vec::new();
        bytes.extend_from_slice(string_bytes(&self.title));
        let _ = self.enumeration.encode(&mut bytes);
        bytes.extend_from_slice(string_bytes(&self.path));
        let payload = self.content.to_bytes();
        bytes.extend_from_slice(payload.as_slice());
        assert(bytes@ =~= Self::canonical(self.model()));
        bytes
    }
}

/// The canonical bytes of each entry in turn.
pub open spec fn all_canonical<E: ToBytes>(es: Seq<E::Model>) -> Seq<u8>
    decreases es.len(),
{
    if es.len() == 0 {
        Seq::empty()
    } else {
        all_canonical::<E>(es.drop_last()) + E::canonical(es.last())
    }
}

/// The bytes that name an index: tag, sanitized title, little-endian date.
pub open spec fn index_id_bytes(tag: Seq<char>, title: Seq<char>, release_date: i32) -> Seq<u8> {
    encode_utf8(tag) + sanitized(title) + le32(release_date)
}

/// The content address of an index of catalog `T`.
pub open spec fn index_hash_of<T: IndexTag>(title: Seq<char>, release_date: i32) -> Seq<u8> {
    sha512_of(index_id_bytes(T::tag_name(), title, release_date))
}

/// The sent fields of an index.
pub struct IndexModel {
    pub hash: Seq<u8>,
    pub title: Seq<char>,
    pub release_date: i32,
    pub source: Seq<u8>,
    pub signature: Seq<u8>,
}

/// A signed catalog entry of catalog `T`, addressed by a digest of its tag,
/// canonical title and release date.
#[derive(Debug)]
pub struct Index<T: IndexTag> {
    pub hash: crate::keys::Hash,
    pub title: String,
    pub release_date: i32,
    pub source: PublicKey,
    pub signature: Signature,
    pub tag: PhantomData<T>,
}

pub type IndexWire = (crate::keys::Hash, (String, (i32, (PublicKey, Signature))));

impl<T: IndexTag> Index<T> {
    pub open spec fn signed_bytes(&self) -> Seq<u8> {
        index_id_bytes(T::tag_name(), self.title@, self.release_date)
    }

    /// Whether the record holds the digest of its own fields, signed by its source.
    pub open spec fn valid(&self) -> bool {
        &&& self.hash.0@ == index_hash_of::<T>(self.title@, self.release_date)
        &&& ed25519_accepts(self.source.0@, self.signed_bytes(), self.signature.0@)
    }

    /// An index with the digest of its tag, title and date as its hash.
    pub fn new(title: String, release_date: i32, source: PublicKey, signature: Signature) -> (r:
        Index<T>)
        ensures
            r.hash.0@ == index_hash_of::<T>(title@, release_date),
            r.title@ == title@,
            r.release_date == release_date,
            r.source == source,
            r.signature == signature,
    {
        let id = Self::id_bytes(&title, &release_date);
        let hash = crate::keys::Hash::digest(id.as_slice());
        Index { hash, title, release_date, source, signature, tag: PhantomData }
    }

    /// The same record under another catalog.
    pub fn transmute<T2: IndexTag>(self) -> (r: Index<T2>)
        ensures
            r.hash == self.hash,
            r.title@ == self.title@,
            r.release_date == self.release_date,
            r.source == self.source,
            r.signature == self.signature,
    {
        Index {
            hash: self.hash,
            title: self.title,
            release_date: self.release_date,
            source: self.source,
            signature: self.signature,
            tag: PhantomData,
        }
    }

    /// The bytes that the hash digests and the signature covers.
    pub fn id_bytes(title: &String, release_date: &i32) -> (r: Vec<u8>)
        ensures
            r@ == index_id_bytes(T::tag_name(), title@, *release_date),
    {
        let tag = T::tag();
        let sanitized_title = SanitizedString::new(title);
        let mut bytes: Vec<u8> = Vec::new();
        bytes.extend_from_slice(string_bytes(&tag));
        bytes.extend_from_slice(sanitized_title.as_bytes());
        let date = i32_le_bytes(*release_date);
        bytes.extend_from_slice(date.as_slice());
        assert(bytes@ =~= index_id_bytes(T::tag_name(), title@, *release_date));
        bytes
    }

    /// An index signed by `priv_key`, with its public key as source.
    pub fn new_signed(title: String, release_date: i32, priv_key: &PrivateKey) -> (r: Index<T>)
        ensures
            r.hash.0@ == index_hash_of::<T>(title@, release_date),
            r.title@ == title@,
            r.release_date == release_date,
            r.source.0@ == crate::keys::ed25519_public_of(priv_key.0@),
            r.signature.0@ == ed25519_signature_of(priv_key.0@, r.signed_bytes()),
    {
        let mut index = Self::new(title, release_date, priv_key.public_key(), Signature::empty());
        index.sign_index(priv_key);
        index
    }

    fn sign_index(&mut self, priv_key: &PrivateKey)
        ensures
            final(self).hash == old(self).hash,
            final(self).title@ == old(self).title@,
            final(self).release_date == old(self).release_date,
            final(self).source == old(self).source,
            final(self).signature.0@ == ed25519_signature_of(
                priv_key.0@,
                old(self).signed_bytes(),
            ),
    {
        let to_sign = Self::id_bytes(&self.title, &self.release_date);
        self.signature = priv_key.sign(to_sign.as_slice());
    }

    /// Whether the hash matches the record's tag, title and date, and the
    /// signature over them verifies under the record's source.
    pub fn verify(&self) -> (r: bool)
        ensures
            r == self.valid(),
    {
        let id = Self::id_bytes(&self.title, &self.release_date);
        let expected = crate::keys::Hash::digest(id.as_slice());
        if !expected.same(&self.hash) {
            return false;
        }
        self.source.verify(id.as_slice(), &self.signature)
    }

    pub fn hash(&self) -> (r: &crate::keys::Hash)
        ensures
            r == &self.hash,
    {
        &self.hash
    }

    pub fn title(&self) -> (r: &String)
        ensures
            r@ == self.title@,
    {
        &self.title
    }

    pub fn release_date(&self) -> (r: i32)
        ensures
            r == self.release_date,
    {
        self.release_date
    }

    pub fn source(&self) -> (r: &PublicKey)
        ensures
            r == &self.source,
    {
        &self.source
    }

    pub fn signature(&self) -> (r: &Signature)
        ensures
            r == &self.signature,
    {
        &self.signature
    }
}

impl<T: IndexTag> Byteable for Index<T> {
    type Model = IndexModel;

    open spec fn model(&self) -> IndexModel {
        IndexModel {
            hash: self.hash.0@,
            title: self.title@,
            release_date: self.release_date,
            source: self.source.0@,
            signature: self.signature.0@,
        }
    }

    /// Hash, title, date, source, then signature.
    open spec fn wire(m: IndexModel) -> Seq<u8> {
        IndexWire::wire((m.hash, (m.title, (m.release_date, (m.source, m.signature)))))
    }

    open spec fn fits(m: IndexModel) -> bool {
        IndexWire::fits((m.hash, (m.title, (m.release_date, (m.source, m.signature)))))
    }

    open spec fn parse(s: Seq<u8>) -> Option<(IndexModel, nat)> {
        match IndexWire::parse(s) {
            Some((w, n)) => Some(
                (
                    IndexModel {
                        hash: w.0,
                        title: w.1.0,
                        release_date: w.1.1.0,
                        source: w.1.1.1.0,
                        signature: w.1.1.1.1,
                    },
                    n,
                ),
            ),
            None => None,
        }
    }

    proof fn lemma_round_trip(m: IndexModel, rest: Seq<u8>) {
        IndexWire::lemma_round_trip(
            (m.hash, (m.title, (m.release_date, (m.source, m.signature)))),
            rest,
        );
    }

    proof fn lemma_parse_len(s: Seq<u8>) {
        IndexWire::lemma_parse_len(s);
    }

    fn encode(&self, out: &mut Vec<u8>) -> (r: Result<(), EncodeError>) {
        self.hash.encode(out)?;
        self.title.encode(out)?;
        self.release_date.encode(out)?;
        self.source.encode(out)?;
        let r = self.signature.encode(out);
        proof {
            if r is Ok {
                assert(out@ =~= old(out)@ + Self::wire(self.model()));
            }
        }
        r
    }

    fn decode(buf: &[u8], pos: usize) -> (r: Result<(Self, usize), DecodeError>) {
        let (w, p) = IndexWire::decode(buf, pos)?;
        let (hash, (title, (release_date, (source, signature)))) = w;
        Ok((Index { hash, title, release_date, source, signature, tag: PhantomData }, p))
    }
}

/// The bytes that a content record's signature covers: index hash,
/// big-endian timestamp, magnet bytes, then each entry's canonical bytes.
pub open spec fn content_id_bytes<T: IndexTag>(
    index_hash: Seq<u8>,
    timestamp: u64,
    magnet: Seq<char>,
    entries: Seq<<ContentEntry<T> as Byteable>::Model>,
) -> Seq<u8> {
    index_hash + be64(timestamp) + encode_utf8(magnet) + all_canonical::<ContentEntry<T>>(entries)
}

/// The sent fields of a content record.
pub struct ContentModel<E> {
    pub signature: Seq<u8>,
    pub source: Seq<u8>,
    pub index_hash: Seq<u8>,
    pub timestamp: u64,
    pub magnet: Seq<char>,
    pub entries: Seq<E>,
}

/// A signed bundle of entries that belongs to the index `index_hash`.
pub struct Content<T: IndexTag> {
    pub signature: Signature,
    pub source: PublicKey,
    pub index_hash: crate::keys::Hash,
    pub timestamp: Timestamp,
    pub magnet_link: Magnet,
    pub entries: Vec<ContentEntry<T>>,
}

pub type ContentWire<T> = (
    Signature,
    (PublicKey, (crate::keys::Hash, (u64, (Magnet, Vec<ContentEntry<T>>)))),
);

impl<T: IndexTag> Content<T> {
    pub open spec fn signed_bytes(&self) -> Seq<u8> {
        content_id_bytes::<T>(
            self.index_hash.0@,
            self.timestamp,
            self.magnet_link.0@,
            self.entries.model(),
        )
    }

    /// Whether the signature over the signed fields verifies under the source.
    pub open spec fn valid(&self) -> bool {
        ed25519_accepts(self.source.0@, self.signed_bytes(), self.signature.0@)
    }

    pub fn new(
        signature: Signature,
        source: PublicKey,
        index_hash: crate::keys::Hash,
        timestamp: Timestamp,
        magnet_link: Magnet,
        entries: Vec<ContentEntry<T>>,
    ) -> (r: Content<T>)
        ensures
            r.signature == signature,
            r.source == source,
            r.index_hash == index_hash,
            r.timestamp == timestamp,
            r.magnet_link.0@ == magnet_link.0@,
            r.entries.model() == entries.model(),
    {
        Content { signature, source, index_hash, timestamp, magnet_link, entries }
    }

    /// The bytes that the signature covers.
    pub fn id_bytes(
        index_hash: &crate::keys::Hash,
        timestamp: &Timestamp,
        magnet_link: &Magnet,
        entries: &Vec<ContentEntry<T>>,
    ) -> (r: Vec<u8>)
        ensures
            r@ == content_id_bytes::<T>(
                index_hash.0@,
                *timestamp,
                magnet_link.0@,
                entries.model(),
            ),
    {
        let mut bytes: Vec<u8> = Vec::new();
        bytes.extend_from_slice(index_hash.0.as_slice());
        let ts = u64_be_bytes(*timestamp);
        bytes.extend_from_slice(ts.as_slice());
        bytes.extend_from_slice(string_bytes(&magnet_link.0));
        let ghost head = bytes@;
        let mut i: usize = 0;
        while i < entries.len()
            invariant
                i <= entries@.len(),
                head == index_hash.0@ + be64(*timestamp) + encode_utf8(magnet_link.0@),
                bytes@ == head + all_canonical::<ContentEntry<T>>(
                    entries.model().subrange(0, i as int),
                ),
            decreases entries.len() - i,
        {
            let part = entries[i].to_bytes();
            bytes.extend_from_slice(part.as_slice());
            let ghost ms = entries.model();
            assert(ms[i as int] == entries@[i as int].model());
            assert(ms.subrange(0, i + 1).drop_last() =~= ms.subrange(0, i as int));
            assert(bytes@ =~= head + all_canonical::<ContentEntry<T>>(ms.subrange(0, i + 1)));
            i = i + 1;
        }
        assert(entries.model().subrange(0, i as int) =~= entries.model());
        bytes
    }

    /// A content record signed by `priv_key`.
    pub fn new_signed(
        source: PublicKey,
        index_hash: crate::keys::Hash,
        timestamp: Timestamp,
        magnet_link: Magnet,
        entries: Vec<ContentEntry<T>>,
        priv_key: &PrivateKey,
    ) -> (r: Content<T>)
        ensures
            r.source == source,
            r.index_hash == index_hash,
            r.timestamp == timestamp,
            r.magnet_link.0@ == magnet_link.0@,
            r.entries.model() == entries.model(),
            r.signature.0@ == ed25519_signature_of(priv_key.0@, r.signed_bytes()),
    {
        let to_sign = Self::id_bytes(&index_hash, &timestamp, &magnet_link, &entries);
        let signature = priv_key.sign(to_sign.as_slice());
        Self::new(signature, source, index_hash, timestamp, magnet_link, entries)
    }

    /// Whether the signature over the signed fields verifies under the source.
    pub fn verify(&self) -> (r: bool)
        ensures
            r == self.valid(),
    {
        let id = Self::id_bytes(&self.index_hash, &self.timestamp, &self.magnet_link, &self.entries);
        self.source.verify(id.as_slice(), &self.signature)
    }

    pub fn signature(&self) -> (r: &Signature)
        ensures
            r == &self.signature,
    {
        &self.signature
    }

    pub fn entries(&self) -> (r: &Vec<ContentEntry<T>>)
        ensures
            r == &self.entries,
    {
        &self.entries
    }

    pub fn index_hash(&self) -> (r: &crate::keys::Hash)
        ensures
            r == &self.index_hash,
    {
        &self.index_hash
    }
}

impl<T: IndexTag> Byteable for Content<T> {
    type Model = ContentModel<<ContentEntry<T> as Byteable>::Model>;

    open spec fn model(&self) -> Self::Model {
        ContentModel {
            signature: self.signature.0@,
            source: self.source.0@,
            index_hash: self.index_hash.0@,
            timestamp: self.timestamp,
            magnet: self.magnet_link.0@,
            entries: self.entries.model(),
        }
    }

    /// Signature, source, index hash, timestamp, magnet, then the entries.
    open spec fn wire(m: Self::Model) -> Seq<u8> {
        ContentWire::<T>::wire(
            (m.signature, (m.source, (m.index_hash, (m.timestamp, (m.magnet, m.entries))))),
        )
    }

    open spec fn fits(m: Self::Model) -> bool {
        ContentWire::<T>::fits(
            (m.signature, (m.source, (m.index_hash, (m.timestamp, (m.magnet, m.entries))))),
        )
    }

    open spec fn parse(s: Seq<u8>) -> Option<(Self::Model, nat)> {
        match ContentWire::<T>::parse(s) {
            Some((w, n)) => Some(
                (
                    ContentModel {
                        signature: w.0,
                        source: w.1.0,
                        index_hash: w.1.1.0,
                        timestamp: w.1.1.1.0,
                        magnet: w.1.1.1.1.0,
                        entries: w.1.1.1.1.1,
                    },
                    n,
                ),
            ),
            None => None,
        }
    }

    proof fn lemma_round_trip(m: Self::Model, rest: Seq<u8>) {
        ContentWire::<T>::lemma_round_trip(
            (m.signature, (m.source, (m.index_hash, (m.timestamp, (m.magnet, m.entries))))),
            rest,
        );
    }

    proof fn lemma_parse_len(s: Seq<u8>) {
        ContentWire::<T>::lemma_parse_len(s);
    }

    fn encode(&self, out: &mut Vec<u8>) -> (r: Result<(), EncodeError>) {
        self.signature.encode(out)?;
        self.source.encode(out)?;
        self.index_hash.encode(out)?;
        self.timestamp.encode(out)?;
        self.magnet_link.encode(out)?;
        let r = self.entries.encode(out);
        proof {
            if r is Ok {
                assert(out@ =~= old(out)@ + Self::wire(self.model()));
            }
        }
        r
    }

    fn decode(buf: &[u8], pos: usize) -> (r: Result<(Self, usize), DecodeError>) {
        let (w, p) = ContentWire::<T>::decode(buf, pos)?;
        let (signature, (source, (index_hash, (timestamp, (magnet_link, entries))))) = w;
        Ok((Content { signature, source, index_hash, timestamp, magnet_link, entries }, p))
    }
}


/// A tag string followed by a value reads back as that tag and that value.
proof fn lemma_tagged_round_trip<R: Byteable>(t: Seq<char>, m: R::Model, rest: Seq<u8>)
    requires
        String::fits(t),
        R::fits(m),
    ensures
        ({
            let s = String::wire(t) + R::wire(m) + rest;
            let n = String::wire(t).len();
            &&& String::parse(s) == Some((t, n))
            &&& n <= s.len()
            &&& R::parse(after(s, n)) == Some((m, R::wire(m).len()))
        }),
{
    let tail = R::wire(m) + rest;
    let s = String::wire(t) + R::wire(m) + rest;
    assert(s =~= String::wire(t) + tail);
    String::lemma_round_trip(t, tail);
    assert(after(s, String::wire(t).len()) =~= tail);
    R::lemma_round_trip(m, rest);
}

proof fn lemma_tags_differ()
    ensures
        NovelTag::tag_name() != MangaTag::tag_name(),
{
    assert(NovelTag::tag_name()[0] != MangaTag::tag_name()[0]);
}

/// The error for a tag that names no catalog.
pub fn unknown_tag(tag: String, enum_name: &str) -> (r: DecodeError)
    ensures
        r matches DecodeError::InvalidEnumVariant { variant_value, enum_name: name }
            && variant_value@ == tag@ && name@ == enum_name@,
{
    DecodeError::InvalidEnumVariant { variant_value: tag, enum_name: crate::codec::owned(enum_name) }
}

/// The tag string at the front of `s`, if one reads there.
pub open spec fn tag_of(s: Seq<u8>) -> Option<Seq<char>> {
    match String::parse(s) {
        Some((t, _)) => Some(t),
        None => None,
    }
}

/// The catalog that a tag names, if any: 0 for novels, 1 for manga.
pub open spec fn catalog_of(tag: Seq<char>) -> Option<u8> {
    if tag == NovelTag::tag_name() {
        Some(0)
    } else if tag == MangaTag::tag_name() {
        Some(1)
    } else {
        None
    }
}

/// Which catalog a tag names.
pub fn catalog_of_tag(tag: &String) -> (r: Option<u8>)
    ensures
        r == catalog_of(tag@),
{
    if *tag == NovelTag::tag() {
        Some(0)
    } else if *tag == MangaTag::tag() {
        Some(1)
    } else {
        None
    }
}

/// The sent form of an index of any catalog.
pub enum TaggedIndexModel {
    Novel(IndexModel),
    Manga(IndexModel),
}

/// An index of any catalog.
pub enum TaggedIndex {
    Novel(Index<NovelTag>),
    Manga(Index<MangaTag>),
}

impl TaggedIndex {
    pub open spec fn hash_view(&self) -> Seq<u8> {
        match self {
            TaggedIndex::Novel(i) => i.hash.0@,
            TaggedIndex::Manga(i) => i.hash.0@,
        }
    }

    pub open spec fn valid(&self) -> bool {
        match self {
            TaggedIndex::Novel(i) => i.valid(),
            TaggedIndex::Manga(i) => i.valid(),
        }
    }

    pub fn hash(&self) -> (r: &crate::keys::Hash)
        ensures
            r.0@ == self.hash_view(),
    {
        match self {
            TaggedIndex::Novel(i) => &i.hash,
            TaggedIndex::Manga(i) => &i.hash,
        }
    }

    pub fn verify(&self) -> (r: bool)
        ensures
            r == self.valid(),
    {
        match self {
            TaggedIndex::Novel(i) => i.verify(),
            TaggedIndex::Manga(i) => i.verify(),
        }
    }
}

impl Byteable for TaggedIndex {
    type Model = TaggedIndexModel;

    open spec fn model(&self) -> TaggedIndexModel {
        match self {
            TaggedIndex::Novel(i) => TaggedIndexModel::Novel(i.model()),
            TaggedIndex::Manga(i) => TaggedIndexModel::Manga(i.model()),
        }
    }

    /// The catalog's tag as a string, then the index.
    open spec fn wire(m: TaggedIndexModel) -> Seq<u8> {
        match m {
            TaggedIndexModel::Novel(i) => String::wire(NovelTag::tag_name()) + Index::<
                NovelTag,
            >::wire(i),
            TaggedIndexModel::Manga(i) => String::wire(MangaTag::tag_name()) + Index::<
                MangaTag,
            >::wire(i),
        }
    }

    open spec fn fits(m: TaggedIndexModel) -> bool {
        match m {
            TaggedIndexModel::Novel(i) => String::fits(NovelTag::tag_name()) && Index::<
                NovelTag,
            >::fits(i),
            TaggedIndexModel::Manga(i) => String::fits(MangaTag::tag_name()) && Index::<
                MangaTag,
            >::fits(i),
        }
    }

    open spec fn parse(s: Seq<u8>) -> Option<(TaggedIndexModel, nat)> {
        match String::parse(s) {
            Some((t, n)) => if catalog_of(t) == Some(0u8) {
                match Index::<NovelTag>::parse(after(s, n)) {
                    Some((i, n2)) => Some((TaggedIndexModel::Novel(i), n + n2)),
                    None => None,
                }
            } else if catalog_of(t) == Some(1u8) {
                match Index::<MangaTag>::parse(after(s, n)) {
                    Some((i, n2)) => Some((TaggedIndexModel::Manga(i), n + n2)),
                    None => None,
                }
            } else {
                None
            },
            None => None,
        }
    }

    proof fn lemma_round_trip(m: TaggedIndexModel, rest: Seq<u8>) {
        lemma_tags_differ();
        match m {
            TaggedIndexModel::Novel(i) => {
                lemma_tagged_round_trip::<Index<NovelTag>>(NovelTag::tag_name(), i, rest);
                assert(Self::wire(m) + rest =~= String::wire(NovelTag::tag_name())
                    + Index::<NovelTag>::wire(i) + rest);
            },
            TaggedIndexModel::Manga(i) => {
                lemma_tagged_round_trip::<Index<MangaTag>>(MangaTag::tag_name(), i, rest);
                assert(Self::wire(m) + rest =~= String::wire(MangaTag::tag_name())
                    + Index::<MangaTag>::wire(i) + rest);
            },
        }
    }

    proof fn lemma_parse_len(s: Seq<u8>) {
        String::lemma_parse_len(s);
        if let Some((t, n)) = String::parse(s) {
            Index::<NovelTag>::lemma_parse_len(after(s, n));
            Index::<MangaTag>::lemma_parse_len(after(s, n));
        }
    }

    fn encode(&self, out: &mut Vec<u8>) -> (r: Result<(), EncodeError>) {
        match self {
            TaggedIndex::Novel(i) => {
                NovelTag::tag().encode(out)?;
                let r = i.encode(out);
                proof {
                    if r is Ok {
                        assert(out@ =~= old(out)@ + Self::wire(self.model()));
                    }
                }
                r
            },
            TaggedIndex::Manga(i) => {
                MangaTag::tag().encode(out)?;
                let r = i.encode(out);
                proof {
                    if r is Ok {
                        assert(out@ =~= old(out)@ + Self::wire(self.model()));
                    }
                }
                r
            },
        }
    }

    fn decode(buf: &[u8], pos: usize) -> (r: Result<(Self, usize), DecodeError>)
        ensures
            (tag_of(after(buf@, pos as nat)) is Some && catalog_of(
                tag_of(after(buf@, pos as nat))->0,
            ) is None) ==> (r matches Err(DecodeError::InvalidEnumVariant { variant_value, enum_name })
                && variant_value@ == tag_of(after(buf@, pos as nat))->0 && enum_name@ == seq!['T', 'a', 'g', 'g', 'e', 'd', 'I', 'n', 'd', 'e', 'x']),
    {
        let ghost s = after(buf@, pos as nat);
        let (tag, p) = String::decode(buf, pos)?;
        proof {
            String::lemma_parse_len(s);
        }
        assert(after(s, (p - pos) as nat) =~= after(buf@, p as nat));
        match catalog_of_tag(&tag) {
            Some(0) => {
                let (i, q) = Index::<NovelTag>::decode(buf, p)?;
                Ok((TaggedIndex::Novel(i), q))
            },
            Some(1) => {
                let (i, q) = Index::<MangaTag>::decode(buf, p)?;
                Ok((TaggedIndex::Manga(i), q))
            },
            _ => {
                proof {
                    reveal_strlit("TaggedIndex");
                    assert("TaggedIndex"@ =~= seq!['T', 'a', 'g', 'g', 'e', 'd', 'I', 'n', 'd', 'e', 'x']);
                }
                Err(unknown_tag(tag, "TaggedIndex"))
            },
        }
    }
}

/// The sent form of a content record of any catalog.
pub enum TaggedContentModel {
    Novel(<Content<NovelTag> as Byteable>::Model),
    Manga(<Content<MangaTag> as Byteable>::Model),
}

/// A content record of any catalog.
pub enum TaggedContent {
    Novel(Content<NovelTag>),
    Manga(Content<MangaTag>),
}

impl TaggedContent {
    pub open spec fn index_hash_view(&self) -> Seq<u8> {
        match self {
            TaggedContent::Novel(c) => c.index_hash.0@,
            TaggedContent::Manga(c) => c.index_hash.0@,
        }
    }

    pub open spec fn valid(&self) -> bool {
        match self {
            TaggedContent::Novel(c) => c.valid(),
            TaggedContent::Manga(c) => c.valid(),
        }
    }

    /// The catalog of the record: 0 for novels, 1 for manga.
    pub open spec fn catalog(&self) -> u8 {
        match self {
            TaggedContent::Novel(_) => 0,
            TaggedContent::Manga(_) => 1,
        }
    }

    pub fn index_hash(&self) -> (r: &crate::keys::Hash)
        ensures
            r.0@ == self.index_hash_view(),
    {
        match self {
            TaggedContent::Novel(c) => &c.index_hash,
            TaggedContent::Manga(c) => &c.index_hash,
        }
    }

    /// The tag of the record's catalog.
    pub fn tag(&self) -> (r: String)
        ensures
            catalog_of(r@) == Some(self.catalog()),
    {
        proof {
            lemma_tags_differ();
        }
        match self {
            TaggedContent::Novel(_) => NovelTag::tag(),
            TaggedContent::Manga(_) => MangaTag::tag(),
        }
    }

    pub fn verify(&self) -> (r: bool)
        ensures
            r == self.valid(),
    {
        match self {
            TaggedContent::Novel(c) => c.verify(),
            TaggedContent::Manga(c) => c.verify(),
        }
    }
}

impl Byteable for TaggedContent {
    type Model = TaggedContentModel;

    open spec fn model(&self) -> TaggedContentModel {
        match self {
            TaggedContent::Novel(c) => TaggedContentModel::Novel(c.model()),
            TaggedContent::Manga(c) => TaggedContentModel::Manga(c.model()),
        }
    }

    /// The catalog's tag as a string, then the record.
    open spec fn wire(m: TaggedContentModel) -> Seq<u8> {
        match m {
            TaggedContentModel::Novel(c) => String::wire(NovelTag::tag_name()) + Content::<
                NovelTag,
            >::wire(c),
            TaggedContentModel::Manga(c) => String::wire(MangaTag::tag_name()) + Content::<
                MangaTag,
            >::wire(c),
        }
    }

    open spec fn fits(m: TaggedContentModel) -> bool {
        match m {
            TaggedContentModel::Novel(c) => String::fits(NovelTag::tag_name()) && Content::<
                NovelTag,
            >::fits(c),
            TaggedContentModel::Manga(c) => String::fits(MangaTag::tag_name()) && Content::<
                MangaTag,
            >::fits(c),
        }
    }

    open spec fn parse(s: Seq<u8>) -> Option<(TaggedContentModel, nat)> {
        match String::parse(s) {
            Some((t, n)) => if catalog_of(t) == Some(0u8) {
                match Content::<NovelTag>::parse(after(s, n)) {
                    Some((c, n2)) => Some((TaggedContentModel::Novel(c), n + n2)),
                    None => None,
                }
            } else if catalog_of(t) == Some(1u8) {
                match Content::<MangaTag>::parse(after(s, n)) {
                    Some((c, n2)) => Some((TaggedContentModel::Manga(c), n + n2)),
                    None => None,
                }
            } else {
                None
            },
            None => None,
        }
    }

    proof fn lemma_round_trip(m: TaggedContentModel, rest: Seq<u8>) {
        lemma_tags_differ();
        match m {
            TaggedContentModel::Novel(c) => {
                lemma_tagged_round_trip::<Content<NovelTag>>(NovelTag::tag_name(), c, rest);
                assert(Self::wire(m) + rest =~= String::wire(NovelTag::tag_name())
                    + Content::<NovelTag>::wire(c) + rest);
            },
            TaggedContentModel::Manga(c) => {
                lemma_tagged_round_trip::<Content<MangaTag>>(MangaTag::tag_name(), c, rest);
                assert(Self::wire(m) + rest =~= String::wire(MangaTag::tag_name())
                    + Content::<MangaTag>::wire(c) + rest);
            },
        }
    }

    proof fn lemma_parse_len(s: Seq<u8>) {
        String::lemma_parse_len(s);
        if let Some((t, n)) = String::parse(s) {
            Content::<NovelTag>::lemma_parse_len(after(s, n));
            Content::<MangaTag>::lemma_parse_len(after(s, n));
        }
    }

    fn encode(&self, out: &mut Vec<u8>) -> (r: Result<(), EncodeError>) {
        match self {
            TaggedContent::Novel(c) => {
                NovelTag::tag().encode(out)?;
                let r = c.encode(out);
                proof {
                    if r is Ok {
                        assert(out@ =~= old(out)@ + Self::wire(self.model()));
                    }
                }
                r
            },
            TaggedContent::Manga(c) => {
                MangaTag::tag().encode(out)?;
                let r = c.encode(out);
                proof {
                    if r is Ok {
                        assert(out@ =~= old(out)@ + Self::wire(self.model()));
                    }
                }
                r
            },
        }
    }

    fn decode(buf: &[u8], pos: usize) -> (r: Result<(Self, usize), DecodeError>)
        ensures
            (tag_of(after(buf@, pos as nat)) is Some && catalog_of(
                tag_of(after(buf@, pos as nat))->0,
            ) is None) ==> (r matches Err(DecodeError::InvalidEnumVariant { variant_value, enum_name })
                && variant_value@ == tag_of(after(buf@, pos as nat))->0 && enum_name@ == seq!['T', 'a', 'g', 'g', 'e', 'd', 'C', 'o', 'n', 't', 'e', 'n', 't']),
    {
        let ghost s = after(buf@, pos as nat);
        let (tag, p) = String::decode(buf, pos)?;
        proof {
            String::lemma_parse_len(s);
        }
        assert(after(s, (p - pos) as nat) =~= after(buf@, p as nat));
        match catalog_of_tag(&tag) {
            Some(0) => {
                let (c, q) = Content::<NovelTag>::decode(buf, p)?;
                Ok((TaggedContent::Novel(c), q))
            },
            Some(1) => {
                let (c, q) = Content::<MangaTag>::decode(buf, p)?;
                Ok((TaggedContent::Manga(c), q))
            },
            _ => {
                proof {
                    reveal_strlit("TaggedContent");
                    assert("TaggedContent"@ =~= seq!['T', 'a', 'g', 'g', 'e', 'd', 'C', 'o', 'n', 't', 'e', 'n', 't']);
                }
                Err(unknown_tag(tag, "TaggedContent"))
            },
        }
    }
}

/// The hash of an index depends on its catalog, sanitized title and date
/// alone: two titles that sanitize alike, with one date, give one hash,
/// whatever the source or signature of either record.
pub proof fn lemma_index_hash_canonical<T: IndexTag>(title1: Seq<char>, title2: Seq<char>, date: i32)
    requires
        sanitized(title1) == sanitized(title2),
    ensures
        index_hash_of::<T>(title1, date) == index_hash_of::<T>(title2, date),
{
}

/// Two byte strings that differ only in one middle part differ.
pub proof fn lemma_middle_differs(a: Seq<u8>, m1: Seq<u8>, m2: Seq<u8>, z: Seq<u8>)
    requires
        m1 != m2,
    ensures
        a + m1 + z != a + m2 + z,
{
    if m1.len() == m2.len() {
        assert(!(m1 =~= m2));
        let k = choose|k: int| 0 <= k < m1.len() && m1[k] != m2[k];
        assert((a + m1 + z)[a.len() + k] == m1[k]);
        assert((a + m2 + z)[a.len() + k] == m2[k]);
    } else {
        assert((a + m1 + z).len() != (a + m2 + z).len());
    }
}

pub proof fn lemma_le32_injective(x: i32, y: i32)
    requires
        x != y,
    ensures
        le32(x) != le32(y),
{
    let u = x as u32;
    let v = y as u32;
    assert(u != v) by (bit_vector)
        requires
            x != y,
            u == x as u32,
            v == y as u32,
    ;
    if le32(x) == le32(y) {
        assert(le32(x)[0] == le32(y)[0] && le32(x)[1] == le32(y)[1] && le32(x)[2] == le32(y)[2]
            && le32(x)[3] == le32(y)[3]);
        assert((u as u8 == v as u8 && (u >> 8u32) as u8 == (v >> 8u32) as u8 && (u >> 16u32) as u8
            == (v >> 16u32) as u8 && (u >> 24u32) as u8 == (v >> 24u32) as u8) ==> u == v)
            by (bit_vector);
    }
}

pub proof fn lemma_le64_injective(x: u64, y: u64)
    requires
        x != y,
    ensures
        le64(x) != le64(y),
{
    if le64(x) == le64(y) {
        assert(le64(x)[0] == le64(y)[0] && le64(x)[1] == le64(y)[1] && le64(x)[2] == le64(y)[2]
            && le64(x)[3] == le64(y)[3] && le64(x)[4] == le64(y)[4] && le64(x)[5] == le64(y)[5]
            && le64(x)[6] == le64(y)[6] && le64(x)[7] == le64(y)[7]);
        assert((x as u8 == y as u8 && (x >> 8u64) as u8 == (y >> 8u64) as u8 && (x >> 16u64) as u8
            == (y >> 16u64) as u8 && (x >> 24u64) as u8 == (y >> 24u64) as u8 && (x >> 32u64) as u8
            == (y >> 32u64) as u8 && (x >> 40u64) as u8 == (y >> 40u64) as u8 && (x >> 48u64) as u8
            == (y >> 48u64) as u8 && (x >> 56u64) as u8 == (y >> 56u64) as u8) ==> x == y)
            by (bit_vector);
    }
}

pub proof fn lemma_utf8_injective(s1: Seq<char>, s2: Seq<char>)
    requires
        s1 != s2,
    ensures
        encode_utf8(s1) != encode_utf8(s2),
{
    vstd::utf8::encode_utf8_decode_utf8(s1);
    vstd::utf8::encode_utf8_decode_utf8(s2);
}

/// Changing the canonical title or the date of an index changes the bytes
/// that its signature covers, so a signature made over the untouched bytes is
/// checked against bytes its signer never signed.
pub proof fn lemma_index_tamper(tag: Seq<char>, t1: Seq<char>, d1: i32, t2: Seq<char>, d2: i32)
    requires
        (sanitized(t1) != sanitized(t2) && d1 == d2) || (sanitized(t1) == sanitized(t2) && d1
            != d2),
    ensures
        index_id_bytes(tag, t1, d1) != index_id_bytes(tag, t2, d2),
{
    let head = encode_utf8(tag);
    if d1 == d2 {
        lemma_middle_differs(head, sanitized(t1), sanitized(t2), le32(d1));
    } else {
        lemma_le32_injective(d1, d2);
        lemma_middle_differs(head + sanitized(t1), le32(d1), le32(d2), Seq::empty());
        assert(head + sanitized(t1) + le32(d1) + Seq::<u8>::empty() =~= index_id_bytes(tag, t1, d1));
        assert(head + sanitized(t1) + le32(d2) + Seq::<u8>::empty() =~= index_id_bytes(tag, t2, d2));
    }
}

/// Changing the timestamp, the magnet link or the entries of a content
/// record changes the bytes that its signature covers.
pub proof fn lemma_content_tamper<T: IndexTag>(
    index_hash: Seq<u8>,
    ts1: u64,
    magnet1: Seq<char>,
    entries1: Seq<<ContentEntry<T> as Byteable>::Model>,
    ts2: u64,
    magnet2: Seq<char>,
    entries2: Seq<<ContentEntry<T> as Byteable>::Model>,
)
    requires
        (ts1 != ts2 && magnet1 == magnet2 && entries1 == entries2) || (ts1 == ts2 && magnet1
            != magnet2 && entries1 == entries2) || (ts1 == ts2 && magnet1 == magnet2
            && all_canonical::<ContentEntry<T>>(entries1) != all_canonical::<ContentEntry<T>>(
            entries2,
        )),
    ensures
        content_id_bytes::<T>(index_hash, ts1, magnet1, entries1) != content_id_bytes::<T>(
            index_hash,
            ts2,
            magnet2,
            entries2,
        ),
{
    let e1 = all_canonical::<ContentEntry<T>>(entries1);
    let e2 = all_canonical::<ContentEntry<T>>(entries2);
    if ts1 != ts2 {
        lemma_be64_injective(ts1, ts2);
        lemma_middle_differs(index_hash, be64(ts1), be64(ts2), encode_utf8(magnet1) + e1);
        assert(index_hash + be64(ts1) + (encode_utf8(magnet1) + e1) =~= content_id_bytes::<T>(
            index_hash,
            ts1,
            magnet1,
            entries1,
        ));
        assert(index_hash + be64(ts2) + (encode_utf8(magnet2) + e2) =~= content_id_bytes::<T>(
            index_hash,
            ts2,
            magnet2,
            entries2,
        ));
    } else if magnet1 != magnet2 {
        lemma_utf8_injective(magnet1, magnet2);
        lemma_middle_differs(index_hash + be64(ts1), encode_utf8(magnet1), encode_utf8(magnet2), e1);
    } else {
        lemma_middle_differs(index_hash + be64(ts1) + encode_utf8(magnet1), e1, e2, Seq::empty());
        assert(index_hash + be64(ts1) + encode_utf8(magnet1) + e1 + Seq::<u8>::empty()
            =~= content_id_bytes::<T>(index_hash, ts1, magnet1, entries1));
        assert(index_hash + be64(ts1) + encode_utf8(magnet1) + e2 + Seq::<u8>::empty()
            =~= content_id_bytes::<T>(index_hash, ts2, magnet2, entries2));
    }
}

pub proof fn lemma_be64_injective(x: u64, y: u64)
    requires
        x != y,
    ensures
        be64(x) != be64(y),
{
    crate::codec::lemma_be64(x);
    crate::codec::lemma_be64(y);
}

} // verus!
