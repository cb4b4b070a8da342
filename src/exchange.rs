//! The decisions of the exchange with a peer: whom to trust, which indexes
//! to fetch, and which records to keep.
//!
//! A run goes: identify the peer (`check_who`), sample its contents, split
//! them by whether their index is known (`diff_contents`), fetch the missing
//! indexes and keep the valid ones (`accept_indexes`), then keep the sampled
//! contents that are valid, new, and backed by a known index
//! (`select_contents`). The caller performs the requests and the writes.
use vstd::prelude::*;

use crate::catalog::{catalog_of, Index, IndexTag, TaggedContent, TaggedIndex};
use crate::error::ClientError;
use crate::codec::Byteable;
use crate::keys::ed25519_accepts;
use crate::protocol::{AuroraProtocolResponse, GetAllIndexesResponse, GetUsersResponse, UserResponse, WhoResponse};
use crate::user::{user_signed_bytes, I2PAddress, TrustLevel, User};

verus! {

/// How many content records one exchange samples from a peer.
pub const EXCHANGE_SAMPLE_SIZE: u16 = 10;

/// The smaller of a length and a count.
pub open spec fn min_len(len: nat, count: nat) -> int {
    if len < count {
        len as int
    } else {
        count as int
    }
}

/// Whether one of `v` is the digest `h`.
pub open spec fn has_hash(v: Seq<crate::keys::Hash>, h: Seq<u8>) -> bool {
    exists|j: int| 0 <= j < v.len() && (#[trigger] v[j]).0@ == h
}

/// Whether `h` is in `v`.
pub fn contains_hash(v: &Vec<crate::keys::Hash>, h: &crate::keys::Hash) -> (r: bool)
    ensures
        r == has_hash(v@, h.0@),
{
    let mut i: usize = 0;
    while i < v.len()
        invariant
            i <= v@.len(),
            forall|j: int| 0 <= j < i ==> (#[trigger] v@[j]).0@ != h.0@,
        decreases v.len() - i,
    {
        if v[i].same(h) {
            return true;
        }
        i = i + 1;
    }
    false
}

/// The catalog and the digest that a requested pair names.
pub open spec fn pair_key(p: (String, crate::keys::Hash)) -> (Option<u8>, Seq<u8>) {
    (catalog_of(p.0@), p.1.0@)
}

/// The key of the index that a content record points to.
pub open spec fn content_key(c: TaggedContent) -> (Option<u8>, Seq<u8>) {
    (Some(c.catalog()), c.index_hash_view())
}

/// Whether a record of the sample whose index is known points to digest `h`.
pub open spec fn known_index(contents: Seq<TaggedContent>, known: Seq<bool>, h: Seq<u8>) -> bool {
    exists|i: int| 0 <= i < contents.len() && known[i] && (#[trigger] contents[i]).index_hash_view() == h
}

/// Whether a record of the sample whose index is unknown points to `key`.
pub open spec fn unknown_key(
    contents: Seq<TaggedContent>,
    known: Seq<bool>,
    key: (Option<u8>, Seq<u8>),
) -> bool {
    exists|i: int| 0 <= i < contents.len() && !known[i] && content_key(#[trigger] contents[i]) == key
}

/// Whether one of the requested pairs names `key`.
pub open spec fn has_key(missing: Seq<(String, crate::keys::Hash)>, key: (Option<u8>, Seq<u8>)) -> bool {
    exists|j: int| 0 <= j < missing.len() && pair_key(#[trigger] missing[j]) == key
}

/// The split of a sample by whether the index of each record is known
/// locally (`known[i]` for record `i`): the digests that are known, and the
/// (tag, digest) pairs to ask for, each once.
pub open spec fn diff_spec(
    contents: Seq<TaggedContent>,
    known: Seq<bool>,
    existing: Seq<crate::keys::Hash>,
    missing: Seq<(String, crate::keys::Hash)>,
) -> bool {
    &&& forall|i: int|
        0 <= i < contents.len() && known[i] ==> has_hash(existing, (#[trigger] contents[i]).index_hash_view())
    &&& forall|j: int|
        0 <= j < existing.len() ==> known_index(contents, known, (#[trigger] existing[j]).0@)
    &&& forall|i: int|
        0 <= i < contents.len() && !known[i] ==> has_key(missing, content_key(#[trigger] contents[i]))
    &&& forall|j: int|
        0 <= j < missing.len() ==> unknown_key(contents, known, pair_key(#[trigger] missing[j]))
    &&& forall|j: int, k: int|
        0 <= j < k < missing.len() ==> pair_key(#[trigger] missing[j]) != pair_key(
            #[trigger] missing[k],
        )
}

/// The keys of the indexes to ask for, in the order in which the records
/// that need them were sampled, each once.
pub open spec fn missing_keys(cs: Seq<TaggedContent>, ks: Seq<bool>) -> Seq<(Option<u8>, Seq<u8>)>
    decreases cs.len(),
{
    if cs.len() == 0 || ks.len() != cs.len() {
        Seq::empty()
    } else {
        let prev = missing_keys(cs.drop_last(), ks.drop_last());
        let key = content_key(cs.last());
        if !ks.last() && !prev.contains(key) {
            prev.push(key)
        } else {
            prev
        }
    }
}

/// The keys of the requested pairs, in order.
pub open spec fn keys_of(missing: Seq<(String, crate::keys::Hash)>) -> Seq<(Option<u8>, Seq<u8>)> {
    Seq::new(missing.len(), |j: int| pair_key(missing[j]))
}

proof fn lemma_has_key_contains(mi: Seq<(String, crate::keys::Hash)>, key: (Option<u8>, Seq<u8>))
    ensures
        has_key(mi, key) == keys_of(mi).contains(key),
{
    if has_key(mi, key) {
        let j = choose|j: int| 0 <= j < mi.len() && pair_key(#[trigger] mi[j]) == key;
        assert(keys_of(mi)[j] == key);
    }
    if keys_of(mi).contains(key) {
        let j = choose|j: int| 0 <= j < keys_of(mi).len() && keys_of(mi)[j] == key;
        assert(pair_key(mi[j]) == key);
    }
}

/// The result of splitting a sample.
pub struct ExchangeDiff {
    pub existing: Vec<crate::keys::Hash>,
    pub missing: Vec<(String, crate::keys::Hash)>,
}

fn contains_key(v: &Vec<(String, crate::keys::Hash)>, tag: &String, h: &crate::keys::Hash) -> (r:
    bool)
    ensures
        r == has_key(v@, (catalog_of(tag@), h.0@)),
{
    let mut i: usize = 0;
    while i < v.len()
        invariant
            i <= v@.len(),
            forall|j: int|
                0 <= j < i ==> pair_key(#[trigger] v@[j]) != (catalog_of(tag@), h.0@),
        decreases v.len() - i,
    {
        let same_catalog = crate::catalog::catalog_of_tag(&v[i].0) == crate::catalog::catalog_of_tag(
            tag,
        );
        if same_catalog && v[i].1.same(h) {
            return true;
        }
        i = i + 1;
    }
    false
}

proof fn lemma_diff_extend(cs: Seq<TaggedContent>, ks: Seq<bool>)
    requires
        cs.len() == ks.len() > 0,
    ensures
        forall|h: Seq<u8>|
            known_index(cs.drop_last(), ks.drop_last(), h) ==> #[trigger] known_index(cs, ks, h),
        forall|key: (Option<u8>, Seq<u8>)|
            unknown_key(cs.drop_last(), ks.drop_last(), key) ==> #[trigger] unknown_key(cs, ks, key),
{
    let pc = cs.drop_last();
    let pk = ks.drop_last();
    assert forall|h: Seq<u8>| known_index(pc, pk, h) implies #[trigger] known_index(cs, ks, h) by {
        let i = choose|i: int| 0 <= i < pc.len() && pk[i] && (#[trigger] pc[i]).index_hash_view() == h;
        assert(cs[i] == pc[i] && ks[i] == pk[i]);
    }
    assert forall|key: (Option<u8>, Seq<u8>)| unknown_key(pc, pk, key) implies #[trigger] unknown_key(
        cs,
        ks,
        key,
    ) by {
        let i = choose|i: int| 0 <= i < pc.len() && !pk[i] && content_key(#[trigger] pc[i]) == key;
        assert(cs[i] == pc[i] && ks[i] == pk[i]);
    }
}

proof fn lemma_diff_known(
    cs: Seq<TaggedContent>,
    ks: Seq<bool>,
    ex: Seq<crate::keys::Hash>,
    mi: Seq<(String, crate::keys::Hash)>,
    h: crate::keys::Hash,
)
    requires
        cs.len() == ks.len() > 0,
        ks.last(),
        h.0@ == cs.last().index_hash_view(),
        diff_spec(cs.drop_last(), ks.drop_last(), ex, mi),
    ensures
        diff_spec(cs, ks, ex.push(h), mi),
{
    let pc = cs.drop_last();
    let pk = ks.drop_last();
    let n = cs.len() - 1;
    let ex2 = ex.push(h);
    lemma_diff_extend(cs, ks);
    assert(cs[n] == cs.last() && ks[n] == ks.last());
    assert forall|k: int| 0 <= k < cs.len() && ks[k] implies has_hash(
        ex2,
        (#[trigger] cs[k]).index_hash_view(),
    ) by {
        if k < n {
            assert(cs[k] == pc[k] && ks[k] == pk[k]);
            let jj = choose|jj: int| 0 <= jj < ex.len() && (#[trigger] ex[jj]).0@ == pc[k].index_hash_view();
            assert(ex2[jj] == ex[jj]);
        } else {
            assert(ex2[ex.len() as int] == h);
        }
    }
    assert forall|j: int| 0 <= j < ex2.len() implies known_index(cs, ks, (#[trigger] ex2[j]).0@) by {
        if j < ex.len() {
            assert(ex2[j] == ex[j]);
        } else {
            assert(ex2[j] == h);
        }
    }
    assert forall|k: int| 0 <= k < cs.len() && !ks[k] implies has_key(mi, content_key(#[trigger] cs[k])) by {
        assert(cs[k] == pc[k] && ks[k] == pk[k]);
    }
}

proof fn lemma_diff_unknown(
    cs: Seq<TaggedContent>,
    ks: Seq<bool>,
    ex: Seq<crate::keys::Hash>,
    mi: Seq<(String, crate::keys::Hash)>,
    p: (String, crate::keys::Hash),
    present: bool,
)
    requires
        cs.len() == ks.len() > 0,
        !ks.last(),
        pair_key(p) == content_key(cs.last()),
        diff_spec(cs.drop_last(), ks.drop_last(), ex, mi),
        present == has_key(mi, pair_key(p)),
    ensures
        diff_spec(cs, ks, ex, if present { mi } else { mi.push(p) }),
{
    let pc = cs.drop_last();
    let pk = ks.drop_last();
    let n = cs.len() - 1;
    let mi2 = if present { mi } else { mi.push(p) };
    lemma_diff_extend(cs, ks);
    assert(cs[n] == cs.last() && ks[n] == ks.last());
    assert forall|k: int| 0 <= k < cs.len() && ks[k] implies has_hash(
        ex,
        (#[trigger] cs[k]).index_hash_view(),
    ) by {
        assert(cs[k] == pc[k] && ks[k] == pk[k]);
    }
    assert forall|k: int| 0 <= k < cs.len() && !ks[k] implies has_key(mi2, content_key(#[trigger] cs[k])) by {
        if k < n {
            assert(cs[k] == pc[k] && ks[k] == pk[k]);
            let j = choose|j: int| 0 <= j < mi.len() && pair_key(#[trigger] mi[j]) == content_key(pc[k]);
            assert(mi2[j] == mi[j]);
        } else if present {
            let j = choose|j: int| 0 <= j < mi.len() && pair_key(#[trigger] mi[j]) == pair_key(p);
            assert(mi2[j] == mi[j]);
        } else {
            assert(mi2[mi.len() as int] == p);
        }
    }
    assert(unknown_key(cs, ks, pair_key(p)));
    assert forall|j: int| 0 <= j < mi2.len() implies unknown_key(cs, ks, pair_key(#[trigger] mi2[j])) by {
        if j < mi.len() {
            assert(mi2[j] == mi[j]);
        } else {
            assert(mi2[j] == p);
        }
    }
    assert forall|j: int, k: int| 0 <= j < k < mi2.len() implies pair_key(#[trigger] mi2[j]) != pair_key(
        #[trigger] mi2[k],
    ) by {
        assert(mi2[j] == mi[j]);
        if k < mi.len() {
            assert(mi2[k] == mi[k]);
        } else {
            assert(mi2[k] == p);
        }
    }
}

/// Splits a sample by whether the index of each record is known locally.
pub fn diff_contents(contents: &Vec<TaggedContent>, known: &Vec<bool>) -> (r: ExchangeDiff)
    requires
        contents@.len() == known@.len(),
    ensures
        diff_spec(contents@, known@, r.existing@, r.missing@),
        keys_of(r.missing@) == missing_keys(contents@, known@),
{
    let mut existing: Vec<crate::keys::Hash> = Vec::new();
    let mut missing: Vec<(String, crate::keys::Hash)> = Vec::new();
    let mut i: usize = 0;
    while i < contents.len()
        invariant
            i <= contents@.len(),
            contents@.len() == known@.len(),
            diff_spec(contents@.subrange(0, i as int), known@.subrange(0, i as int), existing@, missing@),
            keys_of(missing@) == missing_keys(contents@.subrange(0, i as int), known@.subrange(0, i as int)),
        decreases contents.len() - i,
    {
        let ghost cs = contents@.subrange(0, i + 1);
        let ghost ks = known@.subrange(0, i + 1);
        assert(contents@.subrange(0, i as int) =~= cs.drop_last());
        assert(known@.subrange(0, i as int) =~= ks.drop_last());
        assert(cs.last() == contents@[i as int]);
        assert(ks.last() == known@[i as int]);
        let h = *contents[i].index_hash();
        if known[i] {
            proof {
                lemma_diff_known(cs, ks, existing@, missing@, h);
            }
            existing.push(h);
        } else {
            let tag = contents[i].tag();
            let present = contains_key(&missing, &tag, &h);
            proof {
                lemma_diff_unknown(cs, ks, existing@, missing@, (tag, h), present);
                lemma_has_key_contains(missing@, (catalog_of(tag@), h.0@));
            }
            let ghost before = missing@;
            if !present {
                missing.push((tag, h));
                assert(keys_of(missing@) =~= keys_of(before).push(content_key(cs.last())));
            }
        }
        i = i + 1;
    }
    assert(contents@.subrange(0, i as int) =~= contents@);
    assert(known@.subrange(0, i as int) =~= known@);
    ExchangeDiff { existing, missing }
}

/// The valid indexes of `s`, in order.
pub open spec fn valid_only(s: Seq<TaggedIndex>) -> Seq<TaggedIndex>
    decreases s.len(),
{
    if s.len() == 0 {
        Seq::empty()
    } else if s.last().valid() {
        valid_only(s.drop_last()).push(s.last())
    } else {
        valid_only(s.drop_last())
    }
}

/// `after` is `before` followed by the digests of `added`, in order.
pub open spec fn extends_with(
    before: Seq<crate::keys::Hash>,
    after: Seq<crate::keys::Hash>,
    added: Seq<TaggedIndex>,
) -> bool {
    &&& after.len() == before.len() + added.len()
    &&& forall|j: int| 0 <= j < before.len() ==> after[j] == before[j]
    &&& forall|j: int|
        0 <= j < added.len() ==> (#[trigger] after[before.len() + j]).0@ == added[j].hash_view()
}

/// Keeps the returned indexes whose signature and hash verify, and adds their
/// digests to `existing`; a forged index is dropped and its digest is not added.
pub fn accept_indexes(returned: Vec<TaggedIndex>, existing: &mut Vec<crate::keys::Hash>) -> (r: Vec<
    TaggedIndex,
>)
    ensures
        r@ == valid_only(returned@),
        extends_with(old(existing)@, final(existing)@, r@),
{
    let ghost all = returned@;
    let ghost base = existing@;
    let mut rest = returned;
    let mut accepted: Vec<TaggedIndex> = Vec::new();
    while rest.len() > 0
        invariant
            all.len() >= rest@.len(),
            rest@ == all.subrange(all.len() - rest@.len(), all.len() as int),
            accepted@ == valid_only(all.subrange(0, all.len() - rest@.len())),
            existing@.len() == base.len() + accepted@.len(),
            forall|j: int| 0 <= j < base.len() ==> existing@[j] == base[j],
            forall|j: int|
                0 <= j < accepted@.len() ==> (#[trigger] existing@[base.len() + j]).0@
                    == accepted@[j].hash_view(),
        decreases rest@.len(),
    {
        let ghost done = all.len() - rest@.len();
        let ghost before = existing@;
        let ghost prev = accepted@;
        let index = rest.remove(0);
        assert(index == all[done]);
        assert(all.subrange(0, done + 1).drop_last() =~= all.subrange(0, done));
        assert(all.subrange(0, done + 1).last() == all[done]);
        assert(rest@ =~= all.subrange(all.len() - rest@.len(), all.len() as int));
        if index.verify() {
            let h = *index.hash();
            existing.push(h);
            accepted.push(index);
            assert forall|j: int| 0 <= j < accepted@.len() implies (#[trigger] existing@[base.len()
                + j]).0@ == accepted@[j].hash_view() by {
                if j < prev.len() {
                    assert(existing@[base.len() + j] == before[base.len() + j]);
                }
            }
        }
    }
    assert(all.subrange(0, all.len() as int) =~= all);
    accepted
}

/// The sampled records to store, in order: those whose index digest is in
/// `existing`, that are not stored yet (`stored[i]` for record `i`), and
/// whose signature verifies.
pub open spec fn keep_contents(
    cs: Seq<TaggedContent>,
    existing: Seq<crate::keys::Hash>,
    stored: Seq<bool>,
) -> Seq<TaggedContent>
    decreases cs.len(),
{
    if cs.len() == 0 {
        Seq::empty()
    } else {
        let i = cs.len() - 1;
        let prev = keep_contents(cs.drop_last(), existing, stored);
        if has_hash(existing, cs[i].index_hash_view()) && !stored[i] && cs[i].valid() {
            prev.push(cs[i])
        } else {
            prev
        }
    }
}

/// Keeps the sampled records that are backed by a known or accepted index,
/// are new, and carry a valid signature.
pub fn select_contents(
    contents: Vec<TaggedContent>,
    existing: &Vec<crate::keys::Hash>,
    stored: &Vec<bool>,
) -> (r: Vec<TaggedContent>)
    requires
        contents@.len() == stored@.len(),
    ensures
        r@ == keep_contents(contents@, existing@, stored@),
{
    let ghost all = contents@;
    let mut rest = contents;
    let mut kept: Vec<TaggedContent> = Vec::new();
    let mut i: usize = 0;
    while rest.len() > 0
        invariant
            all.len() == stored@.len(),
            i <= stored@.len(),
            i + rest@.len() == all.len(),
            rest@ == all.subrange(i as int, all.len() as int),
            kept@ == keep_contents(all.subrange(0, i as int), existing@, stored@),
        decreases rest@.len(),
    {
        let content = rest.remove(0);
        assert(content == all[i as int]);
        assert(all.subrange(0, i + 1).drop_last() =~= all.subrange(0, i as int));
        assert(rest@ =~= all.subrange(i + 1, all.len() as int));
        proof {
            lemma_keep_contents_prefix(all, existing@, stored@, i as int);
        }
        if contains_hash(existing, content.index_hash()) && !stored[i] && content.verify() {
            kept.push(content);
        }
        assert(i < stored.len());
        i = i + 1;
    }
    assert(all.subrange(0, i as int) =~= all);
    kept
}

/// One more step of `keep_contents` on a prefix decides on the next record.
proof fn lemma_keep_contents_prefix(
    all: Seq<TaggedContent>,
    existing: Seq<crate::keys::Hash>,
    stored: Seq<bool>,
    i: int,
)
    requires
        0 <= i < all.len(),
    ensures
        keep_contents(all.subrange(0, i + 1), existing, stored) == if has_hash(
            existing,
            all[i].index_hash_view(),
        ) && !stored[i] && all[i].valid() {
            keep_contents(all.subrange(0, i), existing, stored).push(all[i])
        } else {
            keep_contents(all.subrange(0, i), existing, stored)
        },
{
    let p = all.subrange(0, i + 1);
    assert(p.drop_last() =~= all.subrange(0, i));
    assert(p[p.len() - 1] == all[i]);
}

/// The bytes of the challenge that a node signs to answer `Who`: a
/// little-endian timestamp and the asking node's own address.
pub open spec fn who_challenge(timestamp: u64, requester: Seq<char>) -> Seq<u8> {
    crate::catalog::le64(timestamp) + vstd::utf8::encode_utf8(requester)
}

/// Whether a `Who` answer is authentic for the asking node at `own_address`:
/// the challenge over its own address is signed by the announced key, and the
/// announced user record is signed by that key too.
pub open spec fn who_is_authentic(w: WhoResponse, own_address: Seq<char>) -> bool {
    &&& ed25519_accepts(
        w.user.pub_key.0@,
        who_challenge(w.timestamp, own_address),
        w.address_signature.0@,
    )
    &&& ed25519_accepts(
        w.user.pub_key.0@,
        user_signed_bytes(w.user.name@, w.user.timestamp, Some(w.user.address.0@)),
        w.user.signature.0@,
    )
}

/// The challenge bytes for `Who`.
pub fn who_challenge_bytes(timestamp: u64, requester: &I2PAddress) -> (r: Vec<u8>)
    ensures
        r@ == who_challenge(timestamp, requester.0@),
{
    let mut bytes: Vec<u8> = Vec::new();
    let ts = crate::catalog::u64_le_bytes(timestamp);
    bytes.extend_from_slice(ts.as_slice());
    bytes.extend_from_slice(crate::codec::string_bytes(&requester.0));
    assert(bytes@ =~= who_challenge(timestamp, requester.0@));
    bytes
}

/// Checks a peer's answer to `Who`, asked by the node at `own_address` of
/// the peer at `peer`. The peer becomes a user at that address, with the
/// lowest trust; any failed check aborts the exchange.
pub fn check_who(
    response: AuroraProtocolResponse<WhoResponse>,
    own_address: &I2PAddress,
    peer: &I2PAddress,
) -> (r: Result<User, ClientError>)
    ensures
        !(response.status_view() is Success) ==> (r matches Err(
            ClientError::UnexpectedResponseCode { status },
        ) && status.view_status() == response.status_view().view_status()),
        (response.status_view() is Success && !who_is_authentic(
            response.payload_view()->0,
            own_address.0@,
        )) ==> (r matches Err(ClientError::InvalidSignature)),
        (response.status_view() is Success && who_is_authentic(
            response.payload_view()->0,
            own_address.0@,
        )) ==> (r matches Ok(u) && ({
            let w = response.payload_view()->0;
            &&& u.pub_key == w.user.pub_key
            &&& u.name@ == w.user.name@
            &&& u.timestamp == w.user.timestamp
            &&& u.signature == w.user.signature
            &&& u.address matches Some(a) && a.0@ == peer.0@
            &&& u.trust == TrustLevel::Untrusted
        })),
{
    let payload = response.payload_if_ok()?;
    let challenge = who_challenge_bytes(payload.timestamp, own_address);
    if !payload.user.pub_key.verify(challenge.as_slice(), &payload.address_signature) {
        return Err(ClientError::InvalidSignature);
    }
    let mut user = payload.user.as_user();
    if !user.verify() {
        return Err(ClientError::InvalidSignature);
    }
    user.set_address(Some(I2PAddress(peer.0.clone())));
    Ok(user)
}

proof fn lemma_valid_only_members(s: Seq<TaggedIndex>)
    ensures
        forall|k: int|
            0 <= k < valid_only(s).len() ==> (#[trigger] valid_only(s)[k]).valid() && exists|i: int|
                0 <= i < s.len() && s[i] == valid_only(s)[k],
    decreases s.len(),
{
    if s.len() > 0 {
        let prev = valid_only(s.drop_last());
        lemma_valid_only_members(s.drop_last());
        assert forall|k: int| 0 <= k < valid_only(s).len() implies (#[trigger] valid_only(s)[k]).valid()
            && exists|i: int| 0 <= i < s.len() && s[i] == valid_only(s)[k] by {
            if k < prev.len() {
                assert(valid_only(s)[k] == prev[k]);
                let i = choose|i: int| 0 <= i < s.drop_last().len() && s.drop_last()[i] == prev[k];
                assert(s[i] == s.drop_last()[i]);
            } else {
                assert(valid_only(s)[k] == s.last());
                assert(s[s.len() - 1] == s.last());
            }
        }
    }
}

proof fn lemma_keep_contents_members(
    cs: Seq<TaggedContent>,
    existing: Seq<crate::keys::Hash>,
    stored: Seq<bool>,
)
    ensures
        forall|k: int|
            0 <= k < keep_contents(cs, existing, stored).len() ==> has_hash(
                existing,
                (#[trigger] keep_contents(cs, existing, stored)[k]).index_hash_view(),
            ) && keep_contents(cs, existing, stored)[k].valid() && exists|i: int|
                0 <= i < cs.len() && !stored[i] && cs[i] == keep_contents(cs, existing, stored)[k],
    decreases cs.len(),
{
    if cs.len() > 0 {
        let kept = keep_contents(cs, existing, stored);
        let prev = keep_contents(cs.drop_last(), existing, stored);
        lemma_keep_contents_members(cs.drop_last(), existing, stored);
        assert forall|k: int| 0 <= k < kept.len() implies has_hash(
            existing,
            (#[trigger] kept[k]).index_hash_view(),
        ) && kept[k].valid() && exists|i: int| 0 <= i < cs.len() && !stored[i] && cs[i] == kept[k] by {
            if k < prev.len() {
                assert(kept[k] == prev[k]);
                let i = choose|i: int|
                    0 <= i < cs.drop_last().len() && !stored[i] && cs.drop_last()[i] == prev[k];
                assert(cs[i] == cs.drop_last()[i]);
            } else {
                assert(kept[k] == cs[cs.len() - 1]);
            }
        }
    }
}

/// Against an unchanged peer, a second exchange asks for no index and keeps
/// no record: once every sampled record and the index it points to are
/// stored, the split requests nothing, and nothing is selected to be stored,
/// whatever digests are known.
pub proof fn lemma_exchange_idempotent(
    contents: Seq<TaggedContent>,
    known: Seq<bool>,
    existing: Seq<crate::keys::Hash>,
    missing: Seq<(String, crate::keys::Hash)>,
    stored: Seq<bool>,
    known_after: Seq<crate::keys::Hash>,
)
    requires
        contents.len() == known.len(),
        contents.len() == stored.len(),
        diff_spec(contents, known, existing, missing),
        forall|i: int| 0 <= i < known.len() ==> known[i],
        forall|i: int| 0 <= i < stored.len() ==> stored[i],
    ensures
        missing.len() == 0,
        keep_contents(contents, known_after, stored).len() == 0,
{
    if missing.len() > 0 {
        assert(unknown_key(contents, known, pair_key(missing[0])));
    }
    lemma_keep_contents_members(contents, known_after, stored);
    if keep_contents(contents, known_after, stored).len() > 0 {
        let c = keep_contents(contents, known_after, stored)[0];
        assert(c.valid());
    }
}

/// A sampled record whose index is neither stored locally nor returned with
/// a valid signature by the peer is never kept, even when the record's own
/// signature is valid: index validity gates content validity.
pub proof fn lemma_orphans_dropped(
    contents: Seq<TaggedContent>,
    known: Seq<bool>,
    existing: Seq<crate::keys::Hash>,
    missing: Seq<(String, crate::keys::Hash)>,
    returned: Seq<TaggedIndex>,
    known_after: Seq<crate::keys::Hash>,
    stored: Seq<bool>,
    h: Seq<u8>,
)
    requires
        diff_spec(contents, known, existing, missing),
        extends_with(existing, known_after, valid_only(returned)),
        !known_index(contents, known, h),
        forall|i: int| 0 <= i < returned.len() && (#[trigger] returned[i]).hash_view() == h ==> !returned[i].valid(),
    ensures
        forall|k: int|
            0 <= k < keep_contents(contents, known_after, stored).len() ==> (#[trigger] keep_contents(
                contents,
                known_after,
                stored,
            )[k]).index_hash_view() != h,
{
    let acc = valid_only(returned);
    lemma_valid_only_members(returned);
    lemma_keep_contents_members(contents, known_after, stored);
    assert(!has_hash(known_after, h)) by {
        if has_hash(known_after, h) {
            let j = choose|j: int| 0 <= j < known_after.len() && (#[trigger] known_after[j]).0@ == h;
            if j < existing.len() {
                assert(known_after[j] == existing[j]);
                assert(known_index(contents, known, existing[j].0@));
            } else {
                let k = j - existing.len();
                assert(known_after[existing.len() + k].0@ == acc[k].hash_view());
                assert(acc[k].valid());
                let i = choose|i: int| 0 <= i < returned.len() && returned[i] == acc[k];
                assert(returned[i].hash_view() == h);
            }
        }
    }
}

/// The catalog of an index: 0 for novels, 1 for manga.
pub open spec fn index_catalog(i: TaggedIndex) -> u8 {
    match i {
        TaggedIndex::Novel(_) => 0,
        TaggedIndex::Manga(_) => 1,
    }
}

/// The sent fields of an index of either catalog.
pub open spec fn index_model(i: TaggedIndex) -> crate::catalog::IndexModel {
    match i {
        TaggedIndex::Novel(x) => x.model(),
        TaggedIndex::Manga(x) => x.model(),
    }
}

/// The indexes of catalog `c` in `s`, field by field, in order.
pub open spec fn catalog_models(s: Seq<TaggedIndex>, c: Option<u8>) -> Seq<
    crate::catalog::IndexModel,
>
    decreases s.len(),
{
    if s.len() == 0 {
        Seq::empty()
    } else if c == Some(index_catalog(s.last())) {
        catalog_models(s.drop_last(), c).push(index_model(s.last()))
    } else {
        catalog_models(s.drop_last(), c)
    }
}

/// The fields of each index of `v`, in order.
pub open spec fn models_of<T: IndexTag>(v: Seq<Index<T>>) -> Seq<crate::catalog::IndexModel> {
    Seq::new(v.len(), |k: int| v[k].model())
}

/// The indexes of catalog `T` in an answer to `GetAllIndexes`; an error
/// status is returned as the error.
pub fn indexes_of_catalog<T: IndexTag>(response: AuroraProtocolResponse<GetAllIndexesResponse>) -> (r:
    Result<Vec<Index<T>>, ClientError>)
    ensures
        !(response.status_view() is Success) ==> (r matches Err(
            ClientError::UnexpectedResponseCode { status },
        ) && status.view_status() == response.status_view().view_status()),
        response.status_view() is Success ==> (r matches Ok(v) && models_of(v@) == catalog_models(
            response.payload_view()->0.indexes@,
            catalog_of(T::tag_name()),
        )),
{
    let payload = response.payload_if_ok()?;
    let tag = T::tag();
    let catalog = crate::catalog::catalog_of_tag(&tag);
    let ghost all = payload.indexes@;
    let mut rest = payload.indexes;
    let mut out: Vec<Index<T>> = Vec::new();
    while rest.len() > 0
        invariant
            all.len() >= rest@.len(),
            rest@ == all.subrange(all.len() - rest@.len(), all.len() as int),
            catalog == catalog_of(T::tag_name()),
            models_of(out@) == catalog_models(all.subrange(0, all.len() - rest@.len()), catalog),
        decreases rest@.len(),
    {
        let ghost done = all.len() - rest@.len();
        let ghost prev = out@;
        let item = rest.remove(0);
        assert(item == all[done]);
        assert(all.subrange(0, done + 1).drop_last() =~= all.subrange(0, done));
        assert(all.subrange(0, done + 1).last() == all[done]);
        assert(rest@ =~= all.subrange(all.len() - rest@.len(), all.len() as int));
        match item {
            TaggedIndex::Novel(i) => {
                if catalog == Some(0u8) {
                    out.push(i.transmute::<T>());
                }
            },
            TaggedIndex::Manga(i) => {
                if catalog == Some(1u8) {
                    out.push(i.transmute::<T>());
                }
            },
        }
        assert(models_of(out@) =~= catalog_models(all.subrange(0, done + 1), catalog));
    }
    assert(all.subrange(0, all.len() as int) =~= all);
    Ok(out)
}

/// `u` is the user that the sent record `w` describes, at the lowest trust.
pub open spec fn received_as(u: User, w: UserResponse) -> bool {
    &&& u.pub_key == w.pub_key
    &&& u.name@ == w.name@
    &&& u.timestamp == w.timestamp
    &&& u.signature == w.signature
    &&& u.address matches Some(a) && a.0@ == w.address.0@
    &&& u.trust == TrustLevel::Untrusted
}

/// The users in an answer to `GetUsers`, each at the lowest trust; an error
/// status is returned as the error.
pub fn users_from_response(response: AuroraProtocolResponse<GetUsersResponse>) -> (r: Result<
    Vec<User>,
    ClientError,
>)
    ensures
        !(response.status_view() is Success) ==> (r matches Err(
            ClientError::UnexpectedResponseCode { status },
        ) && status.view_status() == response.status_view().view_status()),
        response.status_view() is Success ==> (r matches Ok(v) && v@.len()
            == response.payload_view()->0.users@.len() && forall|k: int|
            0 <= k < v@.len() ==> received_as(v@[k], #[trigger] response.payload_view()->0.users@[k])),
{
    let payload = response.payload_if_ok()?;
    let ghost all = payload.users@;
    let mut rest = payload.users;
    let mut out: Vec<User> = Vec::new();
    while rest.len() > 0
        invariant
            out@.len() + rest@.len() == all.len(),
            rest@ == all.subrange(out@.len() as int, all.len() as int),
            forall|k: int| 0 <= k < out@.len() ==> received_as(out@[k], #[trigger] all[k]),
        decreases rest@.len(),
    {
        let ghost k = out@.len() as int;
        let ghost prev = out@;
        let u = rest.remove(0);
        assert(u == all[k]);
        assert(rest@ =~= all.subrange(k + 1, all.len() as int));
        out.push(u.as_user());
        assert forall|j: int| 0 <= j < out@.len() implies received_as(out@[j], #[trigger] all[j]) by {
            if j < k {
                assert(out@[j] == prev[j]);
            }
        }
    }
    Ok(out)
}

} // verus!
