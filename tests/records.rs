use aurora::catalog::{
    Content, ContentEntry, Index, Language, Magnet, MangaChapter, MangaTag, NovelChapter, NovelTag, TaggedContent,
    TaggedIndex,
};
use aurora::catalog::ToBytes;
use aurora::codec::Byteable;
use aurora::error::DecodeError;
use aurora::keys::{PrivateKey, PublicKey, Signable, Signature};
use aurora::post::{Post, Topic};
use aurora::text::SanitizedString;
use aurora::user::{I2PAddress, TrustLevel, User};

fn key(seed: u8) -> PrivateKey {
    PrivateKey::from_bytes([seed; 32])
}

fn entry(title: &str, n: f32) -> ContentEntry<NovelTag> {
    ContentEntry {
        title: title.to_string(),
        enumeration: n.to_bits(),
        path: format!("/books/{}", title),
        content: NovelChapter::new(Language::English),
        progress: 0,
    }
}

#[test]
fn sanitizing_lowercases_decomposes_and_strips() {
    assert_eq!(SanitizedString::new(&"My Title".to_string()).as_str(), "mytitle");
    assert_eq!(SanitizedString::new(&"Café, Noir!".to_string()).as_str(), "cafenoir");
    assert_eq!(SanitizedString::new(&"ÀB-12".to_string()).as_bytes(), b"ab12");
    assert_eq!(SanitizedString::new(&"日本".to_string()).to_inner(), "");
}

#[test]
fn index_hash_of_my_title() {
    let k = key(1);
    let index = Index::<NovelTag>::new_signed("My Title".to_string(), 2024, &k);
    let mut bytes = b"novels".to_vec();
    bytes.extend_from_slice(b"mytitle");
    bytes.extend_from_slice(&2024i32.to_le_bytes());
    assert_eq!(index.hash().0, aurora::keys::Hash::digest(&bytes).0);
    assert_eq!(Index::<NovelTag>::id_bytes(&"My Title".to_string(), &2024), bytes);
    assert!(index.verify());
    assert!(k.public_key().verify(&bytes, index.signature()));
    assert!(!key(2).public_key().verify(&bytes, index.signature()));
}

#[test]
fn digest_is_sha512() {
    let h = aurora::keys::Hash::digest(b"abc");
    assert_eq!(&h.0[..4], &[0xdd, 0xaf, 0x35, 0xa1]);
    assert_ne!(h.0.to_vec(), b"abc".to_vec());
}

#[test]
fn cosmetic_title_variants_collide() {
    let a = Index::<NovelTag>::new("My Title".to_string(), 2024, key(1).public_key(), Signature::empty());
    let b = Index::<NovelTag>::new("my-title!!".to_string(), 2024, key(2).public_key(), Signature::empty());
    let c = Index::<NovelTag>::new("My Title".to_string(), 2025, key(1).public_key(), Signature::empty());
    let d = Index::<MangaTag>::new("My Title".to_string(), 2024, key(1).public_key(), Signature::empty());
    assert_eq!(a.hash().0, b.hash().0);
    assert_ne!(a.hash().0, c.hash().0);
    assert_ne!(a.hash().0, d.hash().0);
}

#[test]
fn tampered_index_fails_verification() {
    let k = key(3);
    let mut index = Index::<NovelTag>::new_signed("Dune".to_string(), 1965, &k);
    assert!(index.verify());
    index.release_date = 1966;
    assert!(!index.verify());
    let mut other = Index::<NovelTag>::new_signed("Dune".to_string(), 1965, &k);
    other.source = key(4).public_key();
    assert!(!other.verify());
    let mut retitled = Index::<NovelTag>::new_signed("Dune".to_string(), 1965, &k);
    retitled.title = "Dune Messiah".to_string();
    assert!(!retitled.verify());
}

#[test]
fn signing_then_verifying_with_the_derived_key() {
    let k = key(5);
    let signature = k.sign(b"message");
    assert!(k.public_key().verify(b"message", &signature));
    assert!(!k.public_key().verify(b"messagf", &signature));
    assert_ne!(k.public_key().as_bytes(), k.as_bytes());
}

#[test]
fn fresh_keys_differ() {
    let a = PrivateKey::new();
    let b = PrivateKey::new();
    assert_ne!(a.as_bytes(), b.as_bytes());
}

#[test]
fn content_signature_covers_body_and_timestamp() {
    let k = key(6);
    let index = Index::<NovelTag>::new_signed("Dune".to_string(), 1965, &k);
    let content = Content::new_signed(
        k.public_key(),
        index.hash,
        1700000000,
        Magnet("magnet:?xt=abc".to_string()),
        vec![entry("one", 1.0), entry("two", 2.0)],
        &k,
    );
    assert!(content.verify());
    let mut later = Content::new_signed(
        k.public_key(),
        index.hash,
        1700000000,
        Magnet("magnet:?xt=abc".to_string()),
        vec![entry("one", 1.0)],
        &k,
    );
    assert!(later.verify());
    later.timestamp = 1700000001;
    assert!(!later.verify());
    let mut edited = Content::new_signed(
        k.public_key(),
        index.hash,
        5,
        Magnet("magnet:?xt=abc".to_string()),
        vec![entry("one", 1.0)],
        &k,
    );
    edited.entries[0].title = "uno".to_string();
    assert!(!edited.verify());
    let mut relinked = Content::<NovelTag>::new_signed(k.public_key(), index.hash, 5, Magnet("m".to_string()), vec![], &k);
    relinked.magnet_link = Magnet("n".to_string());
    assert!(!relinked.verify());
}

#[test]
fn progress_is_neither_signed_nor_sent() {
    let k = key(7);
    let mut e = entry("one", 1.0);
    e.progress = 0.5f32.to_bits();
    let content = Content::new_signed(k.public_key(), aurora::keys::Hash::new([1; 64]), 9, Magnet("m".to_string()), vec![e], &k);
    assert!(content.verify());
    let mut out = Vec::new();
    content.encode(&mut out).unwrap();
    let (back, end) = Content::<NovelTag>::decode(&out, 0).unwrap();
    assert_eq!(end, out.len());
    assert_eq!(back.entries()[0].progress, 0);
    assert!(back.verify());
}

#[test]
fn entry_canonical_bytes() {
    let e = entry("ab", 1.5);
    let mut expected = b"ab".to_vec();
    expected.extend_from_slice(&1.5f32.to_be_bytes());
    expected.extend_from_slice(b"/books/ab");
    expected.extend_from_slice(&[0, 1]);
    assert_eq!(e.to_bytes(), expected);
    assert_eq!(MangaChapter::new(Language::Unknown).to_bytes(), vec![0, 4]);
}

#[test]
fn content_round_trip_through_tagged_form() {
    let k = key(8);
    let index = Index::<MangaTag>::new_signed("Akira".to_string(), 1982, &k);
    let chapter = ContentEntry::<MangaTag> {
        title: "c1".to_string(),
        enumeration: 1.0f32.to_bits(),
        path: "p".to_string(),
        content: MangaChapter::new(Language::Japanese),
        progress: 0,
    };
    let content = Content::new_signed(k.public_key(), index.hash, 3, Magnet("m".to_string()), vec![chapter], &k);
    let tagged = TaggedContent::Manga(content);
    let mut out = Vec::new();
    tagged.encode(&mut out).unwrap();
    assert_eq!(&out[..8], &[0, 6, b'm', b'a', b'n', b'g', b'a', b's']);
    let (back, end) = TaggedContent::decode(&out, 0).unwrap();
    assert_eq!(end, out.len());
    assert_eq!(back.index_hash().0, index.hash.0);
    assert_eq!(back.tag(), "mangas");
    assert!(back.verify());
}

#[test]
fn index_round_trip_through_tagged_form() {
    let k = key(9);
    let index = Index::<NovelTag>::new_signed("Dune".to_string(), 1965, &k);
    let hash = index.hash;
    let tagged = TaggedIndex::Novel(index);
    let mut out = Vec::new();
    tagged.encode(&mut out).unwrap();
    assert_eq!(out.len(), 2 + 6 + 64 + 2 + 4 + 4 + 32 + 64);
    let (back, _) = TaggedIndex::decode(&out, 0).unwrap();
    assert_eq!(back.hash().0, hash.0);
    assert!(back.verify());
    match back {
        TaggedIndex::Novel(i) => {
            assert_eq!(i.title(), "Dune");
            assert_eq!(i.release_date(), 1965);
            assert_eq!(i.source(), &k.public_key());
        }
        TaggedIndex::Manga(_) => panic!("wrong catalog"),
    }
}

#[test]
fn unknown_tag_is_an_invalid_variant() {
    let mut out = Vec::new();
    "comics".to_string().encode(&mut out).unwrap();
    match TaggedIndex::decode(&out, 0) {
        Err(DecodeError::InvalidEnumVariant { variant_value, enum_name }) => {
            assert_eq!(variant_value, "comics");
            assert_eq!(enum_name, "TaggedIndex");
        }
        _ => panic!("expected an invalid variant"),
    }
    assert!(matches!(TaggedContent::decode(&out, 0), Err(DecodeError::InvalidEnumVariant { .. })));
}

#[test]
fn user_signature_covers_name_timestamp_and_address() {
    let k = key(10);
    let address = I2PAddress::new("abc.b32.i2p".to_string());
    let user = User::new_signed("Anon".to_string(), 100, &k, Some(address.clone()));
    assert!(user.verify());
    assert_eq!(user.trust(), &TrustLevel::Untrusted);
    let mut renamed = user.clone();
    renamed.name = "Bob".to_string();
    assert!(!renamed.verify());
    let mut later = user.clone();
    later.timestamp = 101;
    assert!(!later.verify());
    let mut moved = user.clone();
    moved.set_address(Some(I2PAddress::new("xyz.b32.i2p".to_string())));
    assert!(!moved.verify());
    let mut trusted = user.clone();
    trusted.set_trust(TrustLevel::FullTrust);
    assert!(trusted.verify());
    let (pk, name, ts, addr, _, trust) = user.as_tuple();
    assert_eq!(pk, k.public_key());
    assert_eq!(name, "Anon");
    assert_eq!(ts, 100);
    assert_eq!(addr, Some(address));
    assert_eq!(trust, TrustLevel::Untrusted);
    let mut bytes = b"Anon".to_vec();
    bytes.extend_from_slice(&100u64.to_le_bytes());
    bytes.extend_from_slice(b"abc.b32.i2p");
    let again = User::new_signed("Anon".to_string(), 100, &k, Some(I2PAddress::new("abc.b32.i2p".to_string())));
    assert_eq!(again.verification_bytes(), bytes);
}

#[test]
fn address_signing() {
    let k = key(11);
    let address = I2PAddress::new("peer.b32.i2p".to_string());
    let signature = address.sign(&k);
    assert!(address.verify(&k.public_key(), &signature));
    assert!(!I2PAddress::new("other.b32.i2p".to_string()).verify(&k.public_key(), &signature));
    assert_eq!(address.inner(), "peer.b32.i2p");
    assert_eq!(address.into_inner(), "peer.b32.i2p");
}

#[test]
fn posts_and_topics() {
    let k = key(12);
    let index = Index::<NovelTag>::new_signed("Dune".to_string(), 1965, &k);
    let topic = Topic::from_index(&index);
    assert_eq!(topic.inner(), &index.hash.0);
    let post = Post::new_signed("first!".to_string(), 77, topic, &k);
    assert!(post.verify());
    let reply_topic = Topic::from_post(&post);
    assert_eq!(reply_topic.inner(), &post.signature.0);
    let mut edited = post.clone();
    edited.content = "second".to_string();
    assert!(!edited.verify());
    let mut bytes = index.hash.0.to_vec();
    bytes.extend_from_slice(&2.5f32.to_le_bytes());
    let entry_topic = Topic::from_entry(&index, 2.5f32.to_bits());
    assert_eq!(entry_topic.inner(), &aurora::keys::Hash::digest(&bytes).0);
    let mut expected = topic.inner().to_vec();
    expected.extend_from_slice(b"first!");
    expected.extend_from_slice(&77u64.to_le_bytes());
    assert_eq!(post.sign_bytes(), expected);
}

#[test]
fn empty_signature_is_zero() {
    assert_eq!(Signature::empty().0, [0u8; 64]);
    let pk = PublicKey([0u8; 32]);
    assert!(!pk.verify(b"x", &Signature::empty()));
}
