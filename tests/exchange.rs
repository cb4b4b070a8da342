use aurora::catalog::{Content, ContentEntry, Index, Language, Magnet, NovelChapter, NovelTag, TaggedContent, TaggedIndex};
use aurora::codec::Byteable;
use aurora::error::ClientError;
use aurora::exchange::{accept_indexes, check_who, diff_contents, select_contents, who_challenge_bytes, EXCHANGE_SAMPLE_SIZE};
use aurora::handler::{
    index_lookups, process_exchange_content, process_get_all_indexes, process_get_indexes, process_get_users,
    process_who,
};
use aurora::keys::{PrivateKey, Signature};
use aurora::protocol::{
    AuroraProtocolResponse, AuroraStatus, ExchangeContentRequest, GetAllIndexesRequest, GetIndexesRequest,
    GetIndexesResponse, WhoResponse,
};
use aurora::user::{I2PAddress, TrustLevel, User};

fn key(seed: u8) -> PrivateKey {
    PrivateKey::from_bytes([seed; 32])
}

fn signed_content(k: &PrivateKey, index_hash: aurora::keys::Hash) -> Content<NovelTag> {
    let entry = ContentEntry::<NovelTag> {
        title: "Chapter 1".to_string(),
        enumeration: 1.0f32.to_bits(),
        path: "/c1".to_string(),
        content: NovelChapter::new(Language::English),
        progress: 0,
    };
    Content::new_signed(k.public_key(), index_hash, 1000, Magnet("magnet:?xt=1".to_string()), vec![entry], k)
}

fn through_wire<P: Byteable>(response: AuroraProtocolResponse<P>) -> AuroraProtocolResponse<P> {
    let mut bytes = Vec::new();
    response.encode(&mut bytes).unwrap();
    let (back, end) = AuroraProtocolResponse::<P>::decode(&bytes, 0).unwrap();
    assert_eq!(end, bytes.len());
    back
}

/// Runs the index and content steps of an exchange from B against A, where A
/// holds `a_indexes` and samples `sample`; `b_known` says which sampled
/// indexes B already holds. Returns what B stores.
fn run_exchange(
    sample: Vec<TaggedContent>,
    a_indexes: Vec<TaggedIndex>,
    b_known: Vec<bool>,
    b_stored: Vec<bool>,
) -> (Vec<TaggedIndex>, Vec<TaggedContent>, usize) {
    let sampled = process_exchange_content(&ExchangeContentRequest { count: EXCHANGE_SAMPLE_SIZE }, Some(sample));
    let contents = through_wire(sampled).payload_if_ok().ok().unwrap().contents;
    let diff = diff_contents(&contents, &b_known);
    let asked = diff.missing.len();
    let request = GetIndexesRequest { indexes: diff.missing };
    let catalogs = index_lookups(&request);
    let mut pool = a_indexes;
    let mut found = Vec::new();
    for (i, (_, hash)) in request.indexes.iter().enumerate() {
        let at = pool.iter().position(|x| catalogs[i] == Some(0) && x.hash().0 == hash.0);
        found.push(at.map(|p| pool.remove(p)));
    }
    let returned = through_wire(process_get_indexes(found)).payload_if_ok().ok().unwrap().indexes;
    let mut existing = diff.existing;
    let stored_indexes = accept_indexes(returned, &mut existing);
    let stored_contents = select_contents(contents, &existing, &b_stored);
    (stored_indexes, stored_contents, asked)
}

#[test]
fn empty_peer_learns_valid_index_and_content() {
    let a = key(1);
    let index = Index::<NovelTag>::new_signed("Dune".to_string(), 1965, &a);
    let content = signed_content(&a, index.hash);
    let (indexes, contents, asked) = run_exchange(
        vec![TaggedContent::Novel(content)],
        vec![TaggedIndex::Novel(index)],
        vec![false],
        vec![false],
    );
    assert_eq!(asked, 1);
    assert_eq!(indexes.len(), 1);
    assert_eq!(contents.len(), 1);
    assert_eq!(contents[0].index_hash().0, indexes[0].hash().0);
}

#[test]
fn forged_index_orphans_its_content() {
    let a = key(2);
    let mut index = Index::<NovelTag>::new_signed("Dune".to_string(), 1965, &a);
    index.signature = key(3).sign(b"something else");
    assert!(!index.verify());
    let content = signed_content(&a, index.hash);
    assert!(content.verify());
    let (indexes, contents, _) = run_exchange(
        vec![TaggedContent::Novel(content)],
        vec![TaggedIndex::Novel(index)],
        vec![false],
        vec![false],
    );
    assert!(indexes.is_empty());
    assert!(contents.is_empty());
}

#[test]
fn second_run_asks_and_stores_nothing() {
    let a = key(4);
    let index = Index::<NovelTag>::new_signed("Dune".to_string(), 1965, &a);
    let content = signed_content(&a, index.hash);
    let (indexes, contents, asked) = run_exchange(
        vec![TaggedContent::Novel(content)],
        vec![TaggedIndex::Novel(index)],
        vec![true],
        vec![true],
    );
    assert_eq!(asked, 0);
    assert!(indexes.is_empty());
    assert!(contents.is_empty());
}

#[test]
fn missing_pairs_are_asked_once() {
    let a = key(5);
    let index = Index::<NovelTag>::new_signed("Dune".to_string(), 1965, &a);
    let c1 = signed_content(&a, index.hash);
    let c2 = signed_content(&a, index.hash);
    let other = Index::<NovelTag>::new_signed("Emma".to_string(), 1815, &a);
    let c3 = signed_content(&a, other.hash);
    let sample = vec![TaggedContent::Novel(c1), TaggedContent::Novel(c2), TaggedContent::Novel(c3)];
    let diff = diff_contents(&sample, &vec![false, false, true]);
    assert_eq!(diff.missing.len(), 1);
    assert_eq!(diff.missing[0].0, "novels");
    assert_eq!(diff.missing[0].1 .0, index.hash.0);
    assert_eq!(diff.existing.len(), 1);
    assert_eq!(diff.existing[0].0, other.hash.0);
}

#[test]
fn invalid_content_is_dropped_even_with_known_index() {
    let a = key(6);
    let index = Index::<NovelTag>::new_signed("Dune".to_string(), 1965, &a);
    let mut content = signed_content(&a, index.hash);
    content.timestamp += 1;
    let kept = select_contents(vec![TaggedContent::Novel(content)], &vec![index.hash], &vec![false]);
    assert!(kept.is_empty());
}

#[test]
fn sample_is_cut_to_the_count() {
    let a = key(7);
    let index = Index::<NovelTag>::new_signed("Dune".to_string(), 1965, &a);
    let sample: Vec<TaggedContent> = (0..5).map(|_| TaggedContent::Novel(signed_content(&a, index.hash))).collect();
    let response = process_exchange_content(&ExchangeContentRequest { count: 3 }, Some(sample));
    assert_eq!(response.payload().unwrap().contents.len(), 3);
    let failed = process_exchange_content(&ExchangeContentRequest { count: 3 }, None);
    assert_eq!(failed.status(), &AuroraStatus::InternalError("Failed to get random indexes".to_string()));
}

#[test]
fn who_handshake_binds_the_requester_address() {
    let server = key(8);
    let server_address = I2PAddress::new("server.b32.i2p".to_string());
    let client_address = I2PAddress::new("client.b32.i2p".to_string());
    let me = User::new_signed("Srv".to_string(), 50, &server, Some(server_address.clone()));
    let response = process_who(Some(me.clone()), &server_address, &client_address, 99, &server);
    let user = check_who(through_wire(response), &client_address, &server_address).ok().unwrap();
    assert_eq!(user.pub_key(), &server.public_key());
    assert_eq!(user.name(), "Srv");
    assert_eq!(user.timestamp(), 50);
    assert_eq!(user.address(), &Some(server_address.clone()));
    assert_eq!(user.trust(), &TrustLevel::Untrusted);
    assert_eq!(user.signature(), me.signature());

    let replayed = process_who(Some(me.clone()), &server_address, &client_address, 99, &server);
    let other = I2PAddress::new("other.b32.i2p".to_string());
    assert!(matches!(check_who(replayed, &other, &server_address), Err(ClientError::InvalidSignature)));

    let missing = process_who(None, &server_address, &client_address, 99, &server);
    match check_who(through_wire(missing), &client_address, &server_address) {
        Err(ClientError::UnexpectedResponseCode { status }) => {
            assert_eq!(status, AuroraStatus::NotFound("User not found".to_string()))
        }
        _ => panic!("expected the peer's status"),
    }
}

#[test]
fn who_with_forged_user_record_is_rejected() {
    let server = key(9);
    let server_address = I2PAddress::new("server.b32.i2p".to_string());
    let client_address = I2PAddress::new("client.b32.i2p".to_string());
    let mut me = User::new_signed("Srv".to_string(), 50, &server, Some(server_address.clone()));
    me.name = "Admin".to_string();
    let response = process_who(Some(me), &server_address, &client_address, 1, &server);
    assert!(matches!(
        check_who(response, &client_address, &server_address),
        Err(ClientError::InvalidSignature)
    ));
}

#[test]
fn challenge_bytes() {
    let mut expected = 7u64.to_le_bytes().to_vec();
    expected.extend_from_slice(b"me.i2p");
    assert_eq!(who_challenge_bytes(7, &I2PAddress::new("me.i2p".to_string())), expected);
}

#[test]
fn get_all_indexes_checks_the_tag() {
    let bad = process_get_all_indexes(&GetAllIndexesRequest { tag: "comics".to_string() }, vec![]);
    assert_eq!(bad.status(), &AuroraStatus::InvalidArgument("Invalid tag: comics".to_string()));
    let a = key(10);
    let index = Index::<NovelTag>::new_signed("Dune".to_string(), 1965, &a);
    let good = process_get_all_indexes(&GetAllIndexesRequest { tag: "novels".to_string() }, vec![TaggedIndex::Novel(index)]);
    assert_eq!(good.payload().unwrap().indexes.len(), 1);
}

#[test]
fn get_indexes_drops_unresolved_pairs() {
    let request = GetIndexesRequest {
        indexes: vec![
            ("novels".to_string(), aurora::keys::Hash::new([1; 64])),
            ("comics".to_string(), aurora::keys::Hash::new([2; 64])),
            ("mangas".to_string(), aurora::keys::Hash::new([3; 64])),
        ],
    };
    assert_eq!(index_lookups(&request), vec![Some(0), None, Some(1)]);
    let a = key(11);
    let index = Index::<NovelTag>::new_signed("Dune".to_string(), 1965, &a);
    let response: AuroraProtocolResponse<GetIndexesResponse> =
        process_get_indexes(vec![None, Some(TaggedIndex::Novel(index)), None]);
    assert!(response.status().is_ok());
    assert_eq!(response.payload().unwrap().indexes.len(), 1);
}

#[test]
fn get_users_sends_records_without_trust() {
    let a = key(12);
    let mut user = User::new_signed("A".to_string(), 1, &a, None);
    user.set_trust(TrustLevel::FullTrust);
    let response = process_get_users(Some(vec![user]));
    let users = response.payload().unwrap().users;
    assert_eq!(users.len(), 1);
    assert_eq!(users[0].address.inner(), "");
    let back = users[0].clone().as_user();
    assert_eq!(back.trust(), &TrustLevel::Untrusted);
    assert!(back.verify());
    let failed = process_get_users(None);
    assert_eq!(failed.status(), &AuroraStatus::InternalError("Failed to get users".to_string()));
}

#[test]
fn who_response_round_trip() {
    let k = key(13);
    let address = I2PAddress::new("n.i2p".to_string());
    let me = User::new_signed("N".to_string(), 3, &k, Some(address.clone()));
    let response = process_who(Some(me), &address, &address, 4, &k);
    let w: WhoResponse = through_wire(response).payload_if_ok().ok().unwrap();
    assert_eq!(w.timestamp, 4);
    assert_eq!(w.address, address);
    assert_ne!(w.address_signature, Signature::empty());
}

#[test]
fn missing_pairs_follow_sample_order() {
    let a = key(20);
    let first = Index::<NovelTag>::new_signed("Zed".to_string(), 2000, &a);
    let second = Index::<NovelTag>::new_signed("Abe".to_string(), 1999, &a);
    let sample = vec![
        TaggedContent::Novel(signed_content(&a, first.hash)),
        TaggedContent::Novel(signed_content(&a, second.hash)),
        TaggedContent::Novel(signed_content(&a, first.hash)),
    ];
    let diff = diff_contents(&sample, &vec![false, false, false]);
    assert_eq!(diff.missing.len(), 2);
    assert_eq!(diff.missing[0].1 .0, first.hash.0);
    assert_eq!(diff.missing[1].1 .0, second.hash.0);
}
