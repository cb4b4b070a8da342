//! What a node answers to each command, given what its repositories hold.
//!
//! The repositories are the caller's: it looks up what a command needs,
//! hands the results in, and sends the response back.
use vstd::prelude::*;
use vstd::string::*;

use crate::catalog::{catalog_of, catalog_of_tag, TaggedContent, TaggedIndex};
use crate::exchange::who_challenge_bytes;
use crate::keys::{ed25519_signature_of, PrivateKey};
use crate::protocol::{
    AuroraProtocolResponse, ExchangeContentRequest, ExchangeContentResponse,
    GetAllIndexesRequest, GetAllIndexesResponse, GetIndexesRequest, GetIndexesResponse,
    GetUsersResponse, UserResponse, WhoResponse,
};
use crate::user::{address_view, I2PAddress, TrustLevel, User};

verus! {

/// The address a user is sent with: its own, or an empty one.
pub open spec fn sent_address(user: User) -> Seq<char> {
    match address_view(user.address) {
        Some(a) => a,
        None => Seq::<char>::empty(),
    }
}

impl UserResponse {
    /// The sent form of a user; a user without an address is sent with an
    /// empty one, which a signature covers as it covers none.
    pub fn from_user(user: User) -> (r: UserResponse)
        ensures
            r.pub_key == user.pub_key,
            r.name@ == user.name@,
            r.signature == user.signature,
            r.timestamp == user.timestamp,
            r.address.0@ == sent_address(user),
    {
        let (pub_key, name, timestamp, address, signature, _) = user.as_tuple();
        let address = match address {
            Some(a) => a,
            None => I2PAddress(String::new()),
        };
        UserResponse { pub_key, name, signature, timestamp, address }
    }

    /// The user that this record describes, at the lowest trust.
    pub fn as_user(self) -> (r: User)
        ensures
            r.pub_key == self.pub_key,
            r.name@ == self.name@,
            r.signature == self.signature,
            r.timestamp == self.timestamp,
            r.address matches Some(a) && a.0@ == self.address.0@,
            r.trust == TrustLevel::Untrusted,
    {
        User::new(self.name, self.timestamp, self.pub_key, self.signature, Some(self.address))
    }
}

/// Answers `Who`: the node's own user record, its address, and its signature
/// over the challenge bound to the asking node's address; `NotFound` when the
/// node has no identity yet.
pub fn process_who(
    user: Option<User>,
    own_address: &I2PAddress,
    requester: &I2PAddress,
    timestamp: u64,
    key: &PrivateKey,
) -> (r: AuroraProtocolResponse<WhoResponse>)
    ensures
        user is None ==> r.status_view() is NotFound,
        user matches Some(u) ==> (r.status_view() is Success && (r.payload_view() matches Some(w)
            && w.user.pub_key == u.pub_key && w.user.name@ == u.name@ && w.user.timestamp
            == u.timestamp && w.user.signature == u.signature && w.user.address.0@ == sent_address(u)
            && w.address.0@ == own_address.0@
            && w.timestamp == timestamp && w.address_signature.0@ == ed25519_signature_of(
            key.0@,
            crate::exchange::who_challenge(timestamp, requester.0@),
        ))),
{
    match user {
        Some(u) => {
            let challenge = who_challenge_bytes(timestamp, requester);
            let address_signature = key.sign(challenge.as_slice());
            let response = WhoResponse {
                user: UserResponse::from_user(u),
                address: I2PAddress(own_address.0.clone()),
                timestamp,
                address_signature,
            };
            AuroraProtocolResponse::ok(response)
        },
        None => AuroraProtocolResponse::not_found(crate::codec::owned("User not found")),
    }
}

/// Answers `GetAllIndexes`: the indexes of the catalog that the tag names,
/// or `InvalidArgument` for a tag that names none.
pub fn process_get_all_indexes(req: &GetAllIndexesRequest, indexes: Vec<TaggedIndex>) -> (r:
    AuroraProtocolResponse<GetAllIndexesResponse>)
    ensures
        catalog_of(req.tag@) is None ==> r.status_view() is InvalidArgument,
        catalog_of(req.tag@) is Some ==> (r.status_view() is Success && (r.payload_view() matches Some(
            p,
        ) && p.indexes@ == indexes@)),
{
    match catalog_of_tag(&req.tag) {
        Some(_) => AuroraProtocolResponse::ok(GetAllIndexesResponse { indexes }),
        None => {
            let mut message = crate::codec::owned("Invalid tag: ");
            message.append(req.tag.as_str());
            AuroraProtocolResponse::invalid_argument(message)
        },
    }
}

/// Answers `ExchangeContent` with at most `count` of the sampled records, or
/// with `InternalError` when the repository could not sample.
pub fn process_exchange_content(
    req: &ExchangeContentRequest,
    sampled: Option<Vec<TaggedContent>>,
) -> (r: AuroraProtocolResponse<ExchangeContentResponse>)
    ensures
        sampled is None ==> r.status_view() is InternalError,
        sampled matches Some(v) ==> (r.status_view() is Success && (r.payload_view() matches Some(p)
            && p.contents@ == v@.subrange(0, crate::exchange::min_len(v@.len(), req.count as nat)))),
{
    match sampled {
        Some(mut contents) => {
            let ghost all = contents@;
            if contents.len() > req.count as usize {
                contents.truncate(req.count as usize);
            }
            assert(contents@ =~= all.subrange(0, crate::exchange::min_len(all.len(), req.count as nat)));
            AuroraProtocolResponse::ok(ExchangeContentResponse { contents })
        },
        None => AuroraProtocolResponse::internal_error(
            crate::codec::owned("Failed to get random indexes"),
        ),
    }
}

/// The catalog to search for each requested pair; `None` for a tag that
/// names no catalog, which is dropped without a lookup.
pub fn index_lookups(req: &GetIndexesRequest) -> (r: Vec<Option<u8>>)
    ensures
        r@.len() == req.indexes@.len(),
        forall|i: int| 0 <= i < r@.len() ==> r@[i] == catalog_of((#[trigger] req.indexes@[i]).0@),
{
    let mut out: Vec<Option<u8>> = Vec::new();
    let mut i: usize = 0;
    while i < req.indexes.len()
        invariant
            i <= req.indexes@.len(),
            out@.len() == i,
            forall|k: int| 0 <= k < i ==> out@[k] == catalog_of((#[trigger] req.indexes@[k]).0@),
        decreases req.indexes.len() - i,
    {
        out.push(catalog_of_tag(&req.indexes[i].0));
        i = i + 1;
    }
    out
}

/// The indexes that were found, in request order.
pub open spec fn found_only(s: Seq<Option<TaggedIndex>>) -> Seq<TaggedIndex>
    decreases s.len(),
{
    if s.len() == 0 {
        Seq::empty()
    } else {
        match s.last() {
            Some(i) => found_only(s.drop_last()).push(i),
            None => found_only(s.drop_last()),
        }
    }
}

/// Answers `GetIndexes` from the result of each lookup: the pairs that were
/// not found are left out, and the call as a whole succeeds.
pub fn process_get_indexes(found: Vec<Option<TaggedIndex>>) -> (r: AuroraProtocolResponse<
    GetIndexesResponse,
>)
    ensures
        r.status_view() is Success,
        r.payload_view() matches Some(p) && p.indexes@ == found_only(found@),
{
    let ghost all = found@;
    let mut rest = found;
    let mut indexes: Vec<TaggedIndex> = Vec::new();
    while rest.len() > 0
        invariant
            all.len() >= rest@.len(),
            rest@ == all.subrange(all.len() - rest@.len(), all.len() as int),
            indexes@ == found_only(all.subrange(0, all.len() - rest@.len())),
        decreases rest@.len(),
    {
        let ghost done = all.len() - rest@.len();
        let item = rest.remove(0);
        assert(item == all[done]);
        assert(all.subrange(0, done + 1).drop_last() =~= all.subrange(0, done));
        assert(all.subrange(0, done + 1).last() == all[done]);
        assert(rest@ =~= all.subrange(all.len() - rest@.len(), all.len() as int));
        match item {
            Some(index) => {
                indexes.push(index);
            },
            None => {},
        }
    }
    assert(all.subrange(0, all.len() as int) =~= all);
    AuroraProtocolResponse::ok(GetIndexesResponse { indexes })
}

/// Answers `GetUsers` with the users that were found, or with
/// `InternalError` when the lookup failed.
pub fn process_get_users(found: Option<Vec<User>>) -> (r: AuroraProtocolResponse<GetUsersResponse>)
    ensures
        found is None ==> r.status_view() is InternalError,
        found matches Some(v) ==> (r.status_view() is Success && (r.payload_view() matches Some(p)
            && p.users@.len() == v@.len() && forall|i: int|
            0 <= i < v@.len() ==> (#[trigger] p.users@[i]).pub_key == v@[i].pub_key
                && p.users@[i].name@ == v@[i].name@ && p.users@[i].signature == v@[i].signature
                && p.users@[i].timestamp == v@[i].timestamp && p.users@[i].address.0@
                == sent_address(v@[i]))),
{
    match found {
        Some(users) => {
            let ghost all = users@;
            let mut rest = users;
            let mut out: Vec<UserResponse> = Vec::new();
            while rest.len() > 0
                invariant
                    out@.len() + rest@.len() == all.len(),
                    rest@ == all.subrange(out@.len() as int, all.len() as int),
                    forall|i: int|
                        0 <= i < out@.len() ==> (#[trigger] out@[i]).pub_key == all[i].pub_key
                            && out@[i].name@ == all[i].name@ && out@[i].signature
                            == all[i].signature && out@[i].timestamp == all[i].timestamp
                            && out@[i].address.0@ == sent_address(all[i]),
                decreases rest@.len(),
            {
                let ghost k = out@.len() as int;
                let u = rest.remove(0);
                assert(u == all[k]);
                assert(rest@ =~= all.subrange(k + 1, all.len() as int));
                out.push(UserResponse::from_user(u));
            }
            AuroraProtocolResponse::ok(GetUsersResponse { users: out })
        },
        None => AuroraProtocolResponse::internal_error(crate::codec::owned("Failed to get users")),
    }
}

} // verus!
