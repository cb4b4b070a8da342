//! Request and response framing, and the payloads of each command.
use vstd::prelude::*;

use crate::catalog::{TaggedContent, TaggedIndex};
use crate::codec::{after, be16, decimal_bytes, read_be16, Byteable};
use vstd::utf8::encode_utf8;
use crate::error::{ClientError, DecodeError, EncodeError};
use crate::keys::{PublicKey, Signature};
use crate::user::I2PAddress;

verus! {

/// The version byte that opens every request.
#[derive(Debug, Clone, Copy, PartialEq, Eq, Structural)]
pub enum AuroraProtocolVersion {
    V1,
}

pub open spec fn version_name() -> Seq<char> {
    seq![
        'A', 'u', 'r', 'o', 'r', 'a', 'P', 'r', 'o', 't', 'o', 'c', 'o', 'l', 'V', 'e', 'r', 's',
        'i', 'o', 'n',
    ]
}

pub open spec fn status_name() -> Seq<char> {
    seq!['A', 'u', 'r', 'o', 'r', 'a', 'S', 't', 'a', 't', 'u', 's']
}

/// Whether `code` is one of the four status codes.
pub open spec fn known_code(code: u16) -> bool {
    code == OK_CODE || code == INVALID_ARGUMENT_CODE || code == NOT_FOUND_CODE || code
        == INTERNAL_ERROR_CODE
}

impl Byteable for AuroraProtocolVersion {
    type Model = AuroraProtocolVersion;

    open spec fn model(&self) -> AuroraProtocolVersion {
        *self
    }

    /// Version 1 is the byte 1.
    open spec fn wire(m: AuroraProtocolVersion) -> Seq<u8> {
        seq![1u8]
    }

    open spec fn fits(m: AuroraProtocolVersion) -> bool {
        true
    }

    open spec fn parse(s: Seq<u8>) -> Option<(AuroraProtocolVersion, nat)> {
        if s.len() < 1 || s[0] != 1 {
            None
        } else {
            Some((AuroraProtocolVersion::V1, 1))
        }
    }

    proof fn lemma_round_trip(m: AuroraProtocolVersion, rest: Seq<u8>) {
        assert((seq![1u8] + rest)[0] == 1u8);
    }

    proof fn lemma_parse_len(s: Seq<u8>) {
    }

    fn encode(&self, out: &mut Vec<u8>) -> (r: Result<(), EncodeError>) {
        out.push(1u8);
        assert(out@ =~= old(out)@ + seq![1u8]);
        Ok(())
    }

    fn decode(buf: &[u8], pos: usize) -> (r: Result<(Self, usize), DecodeError>)
        ensures
            after(buf@, pos as nat).len() >= 1 && after(buf@, pos as nat)[0] != 1
                ==> crate::codec::bad_variant(r, after(buf@, pos as nat)[0], version_name()),
    {
        let (b, p) = u8::decode(buf, pos)?;
        if b != 1 {
            proof {
                reveal_strlit("AuroraProtocolVersion");
                assert("AuroraProtocolVersion"@ =~= version_name());
            }
            return Err(crate::catalog::invalid_variant(b, "AuroraProtocolVersion"));
        }
        Ok((AuroraProtocolVersion::V1, p))
    }
}

/// Outcome of a command, as sent at the head of a response.
#[derive(Debug, Clone, PartialEq, Eq)]
pub enum AuroraStatus {
    Success,
    NotFound(String),
    InvalidArgument(String),
    InternalError(String),
}

pub const OK_CODE: u16 = 200;
pub const INVALID_ARGUMENT_CODE: u16 = 400;
pub const NOT_FOUND_CODE: u16 = 404;
pub const INTERNAL_ERROR_CODE: u16 = 500;

/// The sent form of a status: its code and, unless it is a success, its message.
pub enum StatusModel {
    Success,
    NotFound(Seq<char>),
    InvalidArgument(Seq<char>),
    InternalError(Seq<char>),
}

pub open spec fn status_code(m: StatusModel) -> u16 {
    match m {
        StatusModel::Success => OK_CODE,
        StatusModel::InvalidArgument(_) => INVALID_ARGUMENT_CODE,
        StatusModel::NotFound(_) => NOT_FOUND_CODE,
        StatusModel::InternalError(_) => INTERNAL_ERROR_CODE,
    }
}

impl AuroraStatus {
    pub open spec fn view_status(&self) -> StatusModel {
        match self {
            AuroraStatus::Success => StatusModel::Success,
            AuroraStatus::NotFound(m) => StatusModel::NotFound(m@),
            AuroraStatus::InvalidArgument(m) => StatusModel::InvalidArgument(m@),
            AuroraStatus::InternalError(m) => StatusModel::InternalError(m@),
        }
    }

    pub fn is_ok(&self) -> (r: bool)
        ensures
            r == (self is Success),
    {
        match self {
            AuroraStatus::Success => true,
            _ => false,
        }
    }

    /// 200, 400, 404 or 500.
    pub fn code(&self) -> (r: u16)
        ensures
            r == status_code(self.view_status()),
    {
        match self {
            AuroraStatus::Success => OK_CODE,
            AuroraStatus::InvalidArgument(_) => INVALID_ARGUMENT_CODE,
            AuroraStatus::NotFound(_) => NOT_FOUND_CODE,
            AuroraStatus::InternalError(_) => INTERNAL_ERROR_CODE,
        }
    }
}

impl Byteable for AuroraStatus {
    type Model = StatusModel;

    open spec fn model(&self) -> StatusModel {
        self.view_status()
    }

    /// The code as two big-endian bytes, then the message unless it is 200.
    open spec fn wire(m: StatusModel) -> Seq<u8> {
        match m {
            StatusModel::Success => be16(OK_CODE),
            StatusModel::NotFound(msg) => be16(NOT_FOUND_CODE) + String::wire(msg),
            StatusModel::InvalidArgument(msg) => be16(INVALID_ARGUMENT_CODE) + String::wire(msg),
            StatusModel::InternalError(msg) => be16(INTERNAL_ERROR_CODE) + String::wire(msg),
        }
    }

    open spec fn fits(m: StatusModel) -> bool {
        match m {
            StatusModel::Success => true,
            StatusModel::NotFound(msg) => String::fits(msg),
            StatusModel::InvalidArgument(msg) => String::fits(msg),
            StatusModel::InternalError(msg) => String::fits(msg),
        }
    }

    open spec fn parse(s: Seq<u8>) -> Option<(StatusModel, nat)> {
        match u16::parse(s) {
            Some((code, n)) => if code == OK_CODE {
                Some((StatusModel::Success, 2))
            } else if code == NOT_FOUND_CODE || code == INVALID_ARGUMENT_CODE || code
                == INTERNAL_ERROR_CODE {
                match String::parse(after(s, 2)) {
                    Some((msg, n2)) => Some(
                        (
                            if code == NOT_FOUND_CODE {
                                StatusModel::NotFound(msg)
                            } else if code == INVALID_ARGUMENT_CODE {
                                StatusModel::InvalidArgument(msg)
                            } else {
                                StatusModel::InternalError(msg)
                            },
                            2 + n2,
                        ),
                    ),
                    None => None,
                }
            } else {
                None
            },
            None => None,
        }
    }

    proof fn lemma_round_trip(m: StatusModel, rest: Seq<u8>) {
        let s = Self::wire(m) + rest;
        let code = status_code(m);
        u16::lemma_round_trip(code, after(s, 2));
        assert(s =~= be16(code) + after(s, 2));
        match m {
            StatusModel::Success => {},
            StatusModel::NotFound(msg) => {
                assert(after(s, 2) =~= String::wire(msg) + rest);
                String::lemma_round_trip(msg, rest);
            },
            StatusModel::InvalidArgument(msg) => {
                assert(after(s, 2) =~= String::wire(msg) + rest);
                String::lemma_round_trip(msg, rest);
            },
            StatusModel::InternalError(msg) => {
                assert(after(s, 2) =~= String::wire(msg) + rest);
                String::lemma_round_trip(msg, rest);
            },
        }
    }

    proof fn lemma_parse_len(s: Seq<u8>) {
        if s.len() >= 2 {
            String::lemma_parse_len(after(s, 2));
        }
    }

    fn encode(&self, out: &mut Vec<u8>) -> (r: Result<(), EncodeError>) {
        let code = self.code();
        code.encode(out)?;
        let r = match self {
            AuroraStatus::Success => Ok(()),
            AuroraStatus::NotFound(msg) => msg.encode(out),
            AuroraStatus::InvalidArgument(msg) => msg.encode(out),
            AuroraStatus::InternalError(msg) => msg.encode(out),
        };
        proof {
            if r is Ok {
                assert(out@ =~= old(out)@ + Self::wire(self.model()));
            }
        }
        r
    }

    /// An unknown code is an `InvalidEnumVariant` that names the type and the code.
    fn decode(buf: &[u8], pos: usize) -> (r: Result<(Self, usize), DecodeError>)
        ensures
            after(buf@, pos as nat).len() >= 2 && !known_code(read_be16(after(buf@, pos as nat)))
                ==> (r matches Err(DecodeError::InvalidEnumVariant { variant_value, enum_name })
                && encode_utf8(variant_value@) == decimal_bytes(
                read_be16(after(buf@, pos as nat)) as nat,
            ) && enum_name@ == status_name()),
    {
        let ghost s = after(buf@, pos as nat);
        let (code, p) = u16::decode(buf, pos)?;
        assert(after(s, 2) =~= after(buf@, p as nat));
        if code == OK_CODE {
            Ok((AuroraStatus::Success, p))
        } else if code == NOT_FOUND_CODE {
            let (msg, q) = String::decode(buf, p)?;
            Ok((AuroraStatus::NotFound(msg), q))
        } else if code == INVALID_ARGUMENT_CODE {
            let (msg, q) = String::decode(buf, p)?;
            Ok((AuroraStatus::InvalidArgument(msg), q))
        } else if code == INTERNAL_ERROR_CODE {
            let (msg, q) = String::decode(buf, p)?;
            Ok((AuroraStatus::InternalError(msg), q))
        } else {
            proof {
                reveal_strlit("AuroraStatus");
                assert("AuroraStatus"@ =~= status_name());
            }
            Err(
                DecodeError::InvalidEnumVariant {
                    variant_value: crate::codec::decimal_string(code as u64),
                    enum_name: crate::codec::owned("AuroraStatus"),
                },
            )
        }
    }
}

/// The commands of protocol version 1.
#[derive(Debug, Clone, Copy, PartialEq, Eq, Structural)]
pub enum Command {
    GetUsers,
    Who,
    GetAllIndexes,
    ExchangeContent,
    GetIndexes,
}

/// The category byte of a command: 0 for users, 1 for indexes.
pub open spec fn category_code(c: Command) -> u8 {
    match c {
        Command::GetUsers | Command::Who => 0,
        _ => 1,
    }
}

/// The command byte, numbered within its category.
pub open spec fn command_code(c: Command) -> u8 {
    match c {
        Command::GetUsers => 0,
        Command::Who => 1,
        Command::GetAllIndexes => 0,
        Command::ExchangeContent => 1,
        Command::GetIndexes => 2,
    }
}

/// The command that a category and a command byte name, if any.
pub open spec fn command_of(category: u8, command: u8) -> Option<Command> {
    if category == 0 && command == 0 {
        Some(Command::GetUsers)
    } else if category == 0 && command == 1 {
        Some(Command::Who)
    } else if category == 1 && command == 0 {
        Some(Command::GetAllIndexes)
    } else if category == 1 && command == 1 {
        Some(Command::ExchangeContent)
    } else if category == 1 && command == 2 {
        Some(Command::GetIndexes)
    } else {
        None
    }
}

/// The three bytes that open a request: version, category, command.
pub open spec fn request_header(c: Command) -> Seq<u8> {
    seq![1u8, category_code(c), command_code(c)]
}

impl Command {
    pub fn category(&self) -> (r: u8)
        ensures
            r == category_code(*self),
    {
        match self {
            Command::GetUsers | Command::Who => 0,
            _ => 1,
        }
    }

    pub fn command(&self) -> (r: u8)
        ensures
            r == command_code(*self),
    {
        match self {
            Command::GetUsers => 0,
            Command::Who => 1,
            Command::GetAllIndexes => 0,
            Command::ExchangeContent => 1,
            Command::GetIndexes => 2,
        }
    }

    /// Writes the request header of this command.
    pub fn encode_header(&self, out: &mut Vec<u8>)
        ensures
            final(out)@ == old(out)@ + request_header(*self),
    {
        out.push(1u8);
        out.push(self.category());
        out.push(self.command());
        assert(out@ =~= old(out)@ + request_header(*self));
    }
}

/// What a server reads after the version byte: the category, then the command.
pub open spec fn parse_command(s: Seq<u8>) -> Option<Command> {
    if s.len() < 2 {
        None
    } else {
        command_of(s[0], s[1])
    }
}

/// Reads the category and command bytes that follow the version byte.
///
/// Fails with an I/O error when the input ends first, and with
/// `InvalidEnumVariant` on bytes that name no command.
pub fn decode_command(buf: &[u8], pos: usize) -> (r: Result<(Command, usize), DecodeError>)
    requires
        pos <= buf@.len(),
    ensures
        match parse_command(after(buf@, pos as nat)) {
            Some(c) => r == Ok::<(Command, usize), DecodeError>((c, (pos + 2) as usize)),
            None => r is Err,
        },
        buf@.len() - pos < 2 ==> (r matches Err(e) && e is IoError),
        (buf@.len() - pos >= 2 && parse_command(after(buf@, pos as nat)) is None) ==> (r matches Err(
            e,
        ) && e is InvalidEnumVariant),
{
    let ghost s = after(buf@, pos as nat);
    if buf.len() - pos < 2 {
        return Err(DecodeError::IoError);
    }
    let category = buf[pos];
    let command = buf[pos + 1];
    assert(s[0] == category && s[1] == command);
    if category == 0 {
        if command == 0 {
            return Ok((Command::GetUsers, pos + 2));
        } else if command == 1 {
            return Ok((Command::Who, pos + 2));
        }
        return Err(crate::catalog::invalid_variant(command, "UsersCommandV1"));
    } else if category == 1 {
        if command == 0 {
            return Ok((Command::GetAllIndexes, pos + 2));
        } else if command == 1 {
            return Ok((Command::ExchangeContent, pos + 2));
        } else if command == 2 {
            return Ok((Command::GetIndexes, pos + 2));
        }
        return Err(crate::catalog::invalid_variant(command, "IndexCommandV1"));
    }
    Err(crate::catalog::invalid_variant(category, "AuroraProtocolCommandCategoryV1"))
}

/// What a connection does next with the bytes it has read.
#[derive(Debug, PartialEq, Eq)]
pub enum DispatchStep {
    /// The peer closed the connection between requests: stop quietly.
    Close,
    /// More bytes are needed to read the head of a request.
    Wait,
    /// The head of a request is malformed, or the stream ended inside it: stop.
    Fail(DecodeError),
    /// A request for this command starts; its payload begins at the position.
    Dispatch(Command, usize),
}

/// The next step of a connection whose unread bytes are `s`; `closed` says
/// whether the peer has closed its side. (The error that `Fail` carries here
/// is a placeholder; `next_step` says which one comes.)
pub open spec fn step_of(s: Seq<u8>, closed: bool) -> DispatchStep {
    if s.len() == 0 {
        if closed {
            DispatchStep::Close
        } else {
            DispatchStep::Wait
        }
    } else if s[0] != 1 {
        DispatchStep::Fail(DecodeError::IoError)
    } else if s.len() < 3 {
        if closed {
            DispatchStep::Fail(DecodeError::IoError)
        } else {
            DispatchStep::Wait
        }
    } else {
        match command_of(s[1], s[2]) {
            Some(c) => DispatchStep::Dispatch(c, 3),
            None => DispatchStep::Fail(DecodeError::IoError),
        }
    }
}

/// Decides what a connection does with the bytes at `pos`: stop when the
/// peer closed between requests, wait for a whole head, fail on a bad
/// version, category or command byte, or dispatch the command.
pub fn next_step(buf: &[u8], pos: usize, closed: bool) -> (r: DispatchStep)
    requires
        pos <= buf@.len(),
    ensures
        match (step_of(after(buf@, pos as nat), closed), r) {
            (DispatchStep::Close, DispatchStep::Close) => true,
            (DispatchStep::Wait, DispatchStep::Wait) => true,
            (DispatchStep::Fail(_), DispatchStep::Fail(e)) => if after(buf@, pos as nat).len() >= 3
                || after(buf@, pos as nat)[0] != 1 {
                e is InvalidEnumVariant
            } else {
                e is IoError
            },
            (DispatchStep::Dispatch(c, n), DispatchStep::Dispatch(c2, p)) => c == c2 && p == pos + n,
            _ => false,
        },
{
    let ghost s = after(buf@, pos as nat);
    if pos == buf.len() {
        return if closed { DispatchStep::Close } else { DispatchStep::Wait };
    }
    assert(s[0] == buf@[pos as int]);
    let version = buf[pos];
    if version != 1 {
        return DispatchStep::Fail(crate::catalog::invalid_variant(version, "AuroraProtocolVersion"));
    }
    if buf.len() - pos < 3 {
        return if closed { DispatchStep::Fail(DecodeError::IoError) } else { DispatchStep::Wait };
    }
    assert(after(s, 1) =~= after(buf@, (pos + 1) as nat));
    match decode_command(buf, pos + 1) {
        Ok((command, next)) => DispatchStep::Dispatch(command, next),
        Err(e) => DispatchStep::Fail(e),
    }
}

/// Writes a whole request: the command's header, then its payload.
pub fn encode_request<P: Byteable>(command: Command, payload: &P, out: &mut Vec<u8>) -> (r: Result<
    (),
    EncodeError,
>)
    ensures
        r is Ok <==> P::fits(payload.model()),
        r is Ok ==> final(out)@ == old(out)@ + request_header(command) + P::wire(payload.model()),
{
    command.encode_header(out);
    let r = payload.encode(out);
    proof {
        if r is Ok {
            assert(out@ =~= old(out)@ + request_header(command) + P::wire(payload.model()));
        }
    }
    r
}

/// A response: a status and, when the status is a success, a payload.
#[derive(Debug)]
pub struct AuroraProtocolResponse<P> {
    status: AuroraStatus,
    payload: Option<P>,
}

impl<P> AuroraProtocolResponse<P> {
    /// A payload goes with a success and only with one.
    #[verifier::type_invariant]
    spec fn consistent(&self) -> bool {
        self.status is Success <==> self.payload is Some
    }

    pub closed spec fn status_view(&self) -> AuroraStatus {
        self.status
    }

    pub closed spec fn payload_view(&self) -> Option<P> {
        self.payload
    }

    /// A payload goes with a success and only with one.
    pub fn check_consistent(&self)
        ensures
            self.status_view() is Success <==> self.payload_view() is Some,
    {
        proof {
            use_type_invariant(self);
        }
    }
}

impl<P: Byteable> AuroraProtocolResponse<P> {
    pub fn ok(payload: P) -> (r: Self)
        ensures
            r.status_view() is Success,
            r.payload_view() == Some(payload),
    {
        AuroraProtocolResponse { status: AuroraStatus::Success, payload: Some(payload) }
    }

    pub fn not_found(message: String) -> (r: Self)
        ensures
            r.status_view() matches AuroraStatus::NotFound(m) && m@ == message@,
            r.payload_view() is None,
    {
        AuroraProtocolResponse { status: AuroraStatus::NotFound(message), payload: None }
    }

    pub fn invalid_argument(message: String) -> (r: Self)
        ensures
            r.status_view() matches AuroraStatus::InvalidArgument(m) && m@ == message@,
            r.payload_view() is None,
    {
        AuroraProtocolResponse { status: AuroraStatus::InvalidArgument(message), payload: None }
    }

    pub fn internal_error(message: String) -> (r: Self)
        ensures
            r.status_view() matches AuroraStatus::InternalError(m) && m@ == message@,
            r.payload_view() is None,
    {
        AuroraProtocolResponse { status: AuroraStatus::InternalError(message), payload: None }
    }

    pub fn status(&self) -> (r: &AuroraStatus)
        ensures
            *r == self.status_view(),
    {
        &self.status
    }

    pub fn payload(self) -> (r: Option<P>)
        ensures
            r == self.payload_view(),
    {
        self.payload
    }

    /// The payload of a successful response; otherwise the status as an
    /// error, or `MissingPayload` for a success without one.
    pub fn payload_if_ok(self) -> (r: Result<P, ClientError>)
        ensures
            !(self.status_view() is Success) ==> (r matches Err(
                ClientError::UnexpectedResponseCode { status },
            ) && status.view_status() == self.status_view().view_status()),
            self.status_view() is Success ==> r == Ok::<P, ClientError>(self.payload_view()->0),
    {
        proof {
            use_type_invariant(&self);
        }
        if !self.status.is_ok() {
            return Err(ClientError::UnexpectedResponseCode { status: self.status });
        }
        match self.payload {
            Some(p) => Ok(p),
            None => Err(ClientError::MissingPayload),
        }
    }
}

/// The sent form of a response.
pub struct ResponseModel<M> {
    pub status: StatusModel,
    pub payload: Option<M>,
}

impl<P: Byteable> Byteable for AuroraProtocolResponse<P> {
    type Model = ResponseModel<P::Model>;

    open spec fn model(&self) -> Self::Model {
        ResponseModel {
            status: self.status_view().view_status(),
            payload: match self.payload_view() {
                Some(p) => Some(p.model()),
                None => None,
            },
        }
    }

    /// The status, then the payload if there is one.
    open spec fn wire(m: Self::Model) -> Seq<u8> {
        AuroraStatus::wire(m.status) + match m.payload {
            Some(p) => P::wire(p),
            None => Seq::empty(),
        }
    }

    /// A payload goes with a success and only with one.
    open spec fn fits(m: Self::Model) -> bool {
        &&& AuroraStatus::fits(m.status)
        &&& (m.status is Success <==> m.payload is Some)
        &&& (m.payload matches Some(p) ==> P::fits(p))
    }

    open spec fn parse(s: Seq<u8>) -> Option<(Self::Model, nat)> {
        match AuroraStatus::parse(s) {
            Some((st, n)) => if st is Success {
                if n <= s.len() {
                    match P::parse(after(s, n)) {
                        Some((p, n2)) => Some((ResponseModel { status: st, payload: Some(p) }, n + n2)),
                        None => None,
                    }
                } else {
                    None
                }
            } else {
                Some((ResponseModel { status: st, payload: None }, n))
            },
            None => None,
        }
    }

    proof fn lemma_round_trip(m: Self::Model, rest: Seq<u8>) {
        let s = Self::wire(m) + rest;
        match m.payload {
            Some(p) => {
                assert(s =~= AuroraStatus::wire(m.status) + (P::wire(p) + rest));
                AuroraStatus::lemma_round_trip(m.status, P::wire(p) + rest);
                assert(after(s, AuroraStatus::wire(m.status).len()) =~= P::wire(p) + rest);
                P::lemma_round_trip(p, rest);
            },
            None => {
                assert(s =~= AuroraStatus::wire(m.status) + rest);
                AuroraStatus::lemma_round_trip(m.status, rest);
            },
        }
    }

    proof fn lemma_parse_len(s: Seq<u8>) {
        AuroraStatus::lemma_parse_len(s);
        if let Some((st, n)) = AuroraStatus::parse(s) {
            if n <= s.len() {
                P::lemma_parse_len(after(s, n));
            }
        }
    }

    fn encode(&self, out: &mut Vec<u8>) -> (r: Result<(), EncodeError>) {
        proof {
            use_type_invariant(self);
        }
        self.status.encode(out)?;
        let r = match &self.payload {
            Some(p) => p.encode(out),
            None => Ok(()),
        };
        proof {
            if r is Ok {
                assert(out@ =~= old(out)@ + Self::wire(self.model()));
            }
        }
        r
    }

    fn decode(buf: &[u8], pos: usize) -> (r: Result<(Self, usize), DecodeError>) {
        let ghost s = after(buf@, pos as nat);
        let (status, p) = AuroraStatus::decode(buf, pos)?;
        if !status.is_ok() {
            return Ok((AuroraProtocolResponse { status, payload: None }, p));
        }
        proof {
            AuroraStatus::lemma_parse_len(s);
        }
        assert(after(s, (p - pos) as nat) =~= after(buf@, p as nat));
        let (payload, q) = P::decode(buf, p)?;
        Ok((AuroraProtocolResponse { status, payload: Some(payload) }, q))
    }
}

/// Asks for the users with these keys.
#[derive(Debug)]
pub struct GetUsersRequest {
    pub pub_keys: Vec<PublicKey>,
}

impl Byteable for GetUsersRequest {
    type Model = <Vec<PublicKey> as Byteable>::Model;

    open spec fn model(&self) -> Self::Model {
        self.pub_keys.model()
    }

    open spec fn wire(m: Self::Model) -> Seq<u8> {
        <Vec<PublicKey> as Byteable>::wire(m)
    }

    open spec fn fits(m: Self::Model) -> bool {
        <Vec<PublicKey> as Byteable>::fits(m)
    }

    open spec fn parse(s: Seq<u8>) -> Option<(Self::Model, nat)> {
        <Vec<PublicKey> as Byteable>::parse(s)
    }

    proof fn lemma_round_trip(m: Self::Model, rest: Seq<u8>) {
        <Vec<PublicKey> as Byteable>::lemma_round_trip(m, rest);
    }

    proof fn lemma_parse_len(s: Seq<u8>) {
        <Vec<PublicKey> as Byteable>::lemma_parse_len(s);
    }

    fn encode(&self, out: &mut Vec<u8>) -> (r: Result<(), EncodeError>) {
        self.pub_keys.encode(out)
    }

    fn decode(buf: &[u8], pos: usize) -> (r: Result<(Self, usize), DecodeError>) {
        let (pub_keys, p) = <Vec<PublicKey> as Byteable>::decode(buf, pos)?;
        Ok((GetUsersRequest { pub_keys }, p))
    }
}

/// Asks for up to `count` randomly sampled content records.
#[derive(Debug, Clone, Copy)]
pub struct ExchangeContentRequest {
    pub count: u16,
}

impl Byteable for ExchangeContentRequest {
    type Model = <u16 as Byteable>::Model;

    open spec fn model(&self) -> Self::Model {
        self.count.model()
    }

    open spec fn wire(m: Self::Model) -> Seq<u8> {
        <u16 as Byteable>::wire(m)
    }

    open spec fn fits(m: Self::Model) -> bool {
        <u16 as Byteable>::fits(m)
    }

    open spec fn parse(s: Seq<u8>) -> Option<(Self::Model, nat)> {
        <u16 as Byteable>::parse(s)
    }

    proof fn lemma_round_trip(m: Self::Model, rest: Seq<u8>) {
        <u16 as Byteable>::lemma_round_trip(m, rest);
    }

    proof fn lemma_parse_len(s: Seq<u8>) {
        <u16 as Byteable>::lemma_parse_len(s);
    }

    fn encode(&self, out: &mut Vec<u8>) -> (r: Result<(), EncodeError>) {
        self.count.encode(out)
    }

    fn decode(buf: &[u8], pos: usize) -> (r: Result<(Self, usize), DecodeError>) {
        let (count, p) = <u16 as Byteable>::decode(buf, pos)?;
        Ok((ExchangeContentRequest { count }, p))
    }
}

/// Sampled content records, not yet trusted.

pub struct ExchangeContentResponse {
    pub contents: Vec<TaggedContent>,
}

impl Byteable for ExchangeContentResponse {
    type Model = <Vec<TaggedContent> as Byteable>::Model;

    open spec fn model(&self) -> Self::Model {
        self.contents.model()
    }

    open spec fn wire(m: Self::Model) -> Seq<u8> {
        <Vec<TaggedContent> as Byteable>::wire(m)
    }

    open spec fn fits(m: Self::Model) -> bool {
        <Vec<TaggedContent> as Byteable>::fits(m)
    }

    open spec fn parse(s: Seq<u8>) -> Option<(Self::Model, nat)> {
        <Vec<TaggedContent> as Byteable>::parse(s)
    }

    proof fn lemma_round_trip(m: Self::Model, rest: Seq<u8>) {
        <Vec<TaggedContent> as Byteable>::lemma_round_trip(m, rest);
    }

    proof fn lemma_parse_len(s: Seq<u8>) {
        <Vec<TaggedContent> as Byteable>::lemma_parse_len(s);
    }

    fn encode(&self, out: &mut Vec<u8>) -> (r: Result<(), EncodeError>) {
        self.contents.encode(out)
    }

    fn decode(buf: &[u8], pos: usize) -> (r: Result<(Self, usize), DecodeError>) {
        let (contents, p) = <Vec<TaggedContent> as Byteable>::decode(buf, pos)?;
        Ok((ExchangeContentResponse { contents }, p))
    }
}

/// Asks for every index of one catalog.
#[derive(Debug)]
pub struct GetAllIndexesRequest {
    pub tag: String,
}

impl Byteable for GetAllIndexesRequest {
    type Model = <String as Byteable>::Model;

    open spec fn model(&self) -> Self::Model {
        self.tag.model()
    }

    open spec fn wire(m: Self::Model) -> Seq<u8> {
        <String as Byteable>::wire(m)
    }

    open spec fn fits(m: Self::Model) -> bool {
        <String as Byteable>::fits(m)
    }

    open spec fn parse(s: Seq<u8>) -> Option<(Self::Model, nat)> {
        <String as Byteable>::parse(s)
    }

    proof fn lemma_round_trip(m: Self::Model, rest: Seq<u8>) {
        <String as Byteable>::lemma_round_trip(m, rest);
    }

    proof fn lemma_parse_len(s: Seq<u8>) {
        <String as Byteable>::lemma_parse_len(s);
    }

    fn encode(&self, out: &mut Vec<u8>) -> (r: Result<(), EncodeError>) {
        self.tag.encode(out)
    }

    fn decode(buf: &[u8], pos: usize) -> (r: Result<(Self, usize), DecodeError>) {
        let (tag, p) = <String as Byteable>::decode(buf, pos)?;
        Ok((GetAllIndexesRequest { tag }, p))
    }
}

/// Every index of the catalog asked for.

pub struct GetAllIndexesResponse {
    pub indexes: Vec<TaggedIndex>,
}

impl Byteable for GetAllIndexesResponse {
    type Model = <Vec<TaggedIndex> as Byteable>::Model;

    open spec fn model(&self) -> Self::Model {
        self.indexes.model()
    }

    open spec fn wire(m: Self::Model) -> Seq<u8> {
        <Vec<TaggedIndex> as Byteable>::wire(m)
    }

    open spec fn fits(m: Self::Model) -> bool {
        <Vec<TaggedIndex> as Byteable>::fits(m)
    }

    open spec fn parse(s: Seq<u8>) -> Option<(Self::Model, nat)> {
        <Vec<TaggedIndex> as Byteable>::parse(s)
    }

    proof fn lemma_round_trip(m: Self::Model, rest: Seq<u8>) {
        <Vec<TaggedIndex> as Byteable>::lemma_round_trip(m, rest);
    }

    proof fn lemma_parse_len(s: Seq<u8>) {
        <Vec<TaggedIndex> as Byteable>::lemma_parse_len(s);
    }

    fn encode(&self, out: &mut Vec<u8>) -> (r: Result<(), EncodeError>) {
        self.indexes.encode(out)
    }

    fn decode(buf: &[u8], pos: usize) -> (r: Result<(Self, usize), DecodeError>) {
        let (indexes, p) = <Vec<TaggedIndex> as Byteable>::decode(buf, pos)?;
        Ok((GetAllIndexesResponse { indexes }, p))
    }
}

/// Asks for the indexes with these tags and hashes.
#[derive(Debug)]
pub struct GetIndexesRequest {
    pub indexes: Vec<(String, crate::keys::Hash)>,
}

impl Byteable for GetIndexesRequest {
    type Model = <Vec<(String, crate::keys::Hash)> as Byteable>::Model;

    open spec fn model(&self) -> Self::Model {
        self.indexes.model()
    }

    open spec fn wire(m: Self::Model) -> Seq<u8> {
        <Vec<(String, crate::keys::Hash)> as Byteable>::wire(m)
    }

    open spec fn fits(m: Self::Model) -> bool {
        <Vec<(String, crate::keys::Hash)> as Byteable>::fits(m)
    }

    open spec fn parse(s: Seq<u8>) -> Option<(Self::Model, nat)> {
        <Vec<(String, crate::keys::Hash)> as Byteable>::parse(s)
    }

    proof fn lemma_round_trip(m: Self::Model, rest: Seq<u8>) {
        <Vec<(String, crate::keys::Hash)> as Byteable>::lemma_round_trip(m, rest);
    }

    proof fn lemma_parse_len(s: Seq<u8>) {
        <Vec<(String, crate::keys::Hash)> as Byteable>::lemma_parse_len(s);
    }

    fn encode(&self, out: &mut Vec<u8>) -> (r: Result<(), EncodeError>) {
        self.indexes.encode(out)
    }

    fn decode(buf: &[u8], pos: usize) -> (r: Result<(Self, usize), DecodeError>) {
        let (indexes, p) = <Vec<(String, crate::keys::Hash)> as Byteable>::decode(buf, pos)?;
        Ok((GetIndexesRequest { indexes }, p))
    }
}

/// The indexes that could be found; the others are left out.

pub struct GetIndexesResponse {
    pub indexes: Vec<TaggedIndex>,
}

impl Byteable for GetIndexesResponse {
    type Model = <Vec<TaggedIndex> as Byteable>::Model;

    open spec fn model(&self) -> Self::Model {
        self.indexes.model()
    }

    open spec fn wire(m: Self::Model) -> Seq<u8> {
        <Vec<TaggedIndex> as Byteable>::wire(m)
    }

    open spec fn fits(m: Self::Model) -> bool {
        <Vec<TaggedIndex> as Byteable>::fits(m)
    }

    open spec fn parse(s: Seq<u8>) -> Option<(Self::Model, nat)> {
        <Vec<TaggedIndex> as Byteable>::parse(s)
    }

    proof fn lemma_round_trip(m: Self::Model, rest: Seq<u8>) {
        <Vec<TaggedIndex> as Byteable>::lemma_round_trip(m, rest);
    }

    proof fn lemma_parse_len(s: Seq<u8>) {
        <Vec<TaggedIndex> as Byteable>::lemma_parse_len(s);
    }

    fn encode(&self, out: &mut Vec<u8>) -> (r: Result<(), EncodeError>) {
        self.indexes.encode(out)
    }

    fn decode(buf: &[u8], pos: usize) -> (r: Result<(Self, usize), DecodeError>) {
        let (indexes, p) = <Vec<TaggedIndex> as Byteable>::decode(buf, pos)?;
        Ok((GetIndexesResponse { indexes }, p))
    }
}

/// The users that could be found.
#[derive(Debug)]
pub struct GetUsersResponse {
    pub users: Vec<UserResponse>,
}

impl Byteable for GetUsersResponse {
    type Model = <Vec<UserResponse> as Byteable>::Model;

    open spec fn model(&self) -> Self::Model {
        self.users.model()
    }

    open spec fn wire(m: Self::Model) -> Seq<u8> {
        <Vec<UserResponse> as Byteable>::wire(m)
    }

    open spec fn fits(m: Self::Model) -> bool {
        <Vec<UserResponse> as Byteable>::fits(m)
    }

    open spec fn parse(s: Seq<u8>) -> Option<(Self::Model, nat)> {
        <Vec<UserResponse> as Byteable>::parse(s)
    }

    proof fn lemma_round_trip(m: Self::Model, rest: Seq<u8>) {
        <Vec<UserResponse> as Byteable>::lemma_round_trip(m, rest);
    }

    proof fn lemma_parse_len(s: Seq<u8>) {
        <Vec<UserResponse> as Byteable>::lemma_parse_len(s);
    }

    fn encode(&self, out: &mut Vec<u8>) -> (r: Result<(), EncodeError>) {
        self.users.encode(out)
    }

    fn decode(buf: &[u8], pos: usize) -> (r: Result<(Self, usize), DecodeError>) {
        let (users, p) = <Vec<UserResponse> as Byteable>::decode(buf, pos)?;
        Ok((GetUsersResponse { users }, p))
    }
}

/// Asks a node who it is; carries nothing.
#[derive(Debug, Clone, Copy)]
pub struct WhoRequest {}

impl Byteable for WhoRequest {
    type Model = ();

    open spec fn model(&self) -> () {
        ()
    }

    open spec fn wire(m: ()) -> Seq<u8> {
        Seq::empty()
    }

    open spec fn fits(m: ()) -> bool {
        true
    }

    open spec fn parse(s: Seq<u8>) -> Option<((), nat)> {
        Some(((), 0))
    }

    proof fn lemma_round_trip(m: (), rest: Seq<u8>) {
        assert(Seq::<u8>::empty() + rest =~= rest);
    }

    proof fn lemma_parse_len(s: Seq<u8>) {
    }

    fn encode(&self, out: &mut Vec<u8>) -> (r: Result<(), EncodeError>) {
        assert(out@ =~= old(out)@ + Seq::<u8>::empty());
        Ok(())
    }

    fn decode(buf: &[u8], pos: usize) -> (r: Result<(Self, usize), DecodeError>) {
        Ok((WhoRequest {}, pos))
    }
}

/// A user record as sent between nodes: without the local trust level.
#[derive(Debug, Clone)]
pub struct UserResponse {
    pub pub_key: PublicKey,
    pub name: String,
    pub signature: Signature,
    pub timestamp: u64,
    pub address: I2PAddress,
}

pub type UserWire = (PublicKey, (String, (Signature, (u64, I2PAddress))));

pub struct UserModel {
    pub pub_key: Seq<u8>,
    pub name: Seq<char>,
    pub signature: Seq<u8>,
    pub timestamp: u64,
    pub address: Seq<char>,
}

impl Byteable for UserResponse {
    type Model = UserModel;

    open spec fn model(&self) -> UserModel {
        UserModel {
            pub_key: self.pub_key.0@,
            name: self.name@,
            signature: self.signature.0@,
            timestamp: self.timestamp,
            address: self.address.0@,
        }
    }

    /// Key, name, signature, timestamp, then address.
    open spec fn wire(m: UserModel) -> Seq<u8> {
        UserWire::wire((m.pub_key, (m.name, (m.signature, (m.timestamp, m.address)))))
    }

    open spec fn fits(m: UserModel) -> bool {
        UserWire::fits((m.pub_key, (m.name, (m.signature, (m.timestamp, m.address)))))
    }

    open spec fn parse(s: Seq<u8>) -> Option<(UserModel, nat)> {
        match UserWire::parse(s) {
            Some((w, n)) => Some(
                (
                    UserModel {
                        pub_key: w.0,
                        name: w.1.0,
                        signature: w.1.1.0,
                        timestamp: w.1.1.1.0,
                        address: w.1.1.1.1,
                    },
                    n,
                ),
            ),
            None => None,
        }
    }

    proof fn lemma_round_trip(m: UserModel, rest: Seq<u8>) {
        UserWire::lemma_round_trip((m.pub_key, (m.name, (m.signature, (m.timestamp, m.address)))), rest);
    }

    proof fn lemma_parse_len(s: Seq<u8>) {
        UserWire::lemma_parse_len(s);
    }

    fn encode(&self, out: &mut Vec<u8>) -> (r: Result<(), EncodeError>) {
        self.pub_key.encode(out)?;
        self.name.encode(out)?;
        self.signature.encode(out)?;
        self.timestamp.encode(out)?;
        let r = self.address.encode(out);
        proof {
            if r is Ok {
                assert(out@ =~= old(out)@ + Self::wire(self.model()));
            }
        }
        r
    }

    fn decode(buf: &[u8], pos: usize) -> (r: Result<(Self, usize), DecodeError>) {
        let (w, p) = UserWire::decode(buf, pos)?;
        let (pub_key, (name, (signature, (timestamp, address)))) = w;
        Ok((UserResponse { pub_key, name, signature, timestamp, address }, p))
    }
}

/// A node's answer to `Who`: its user record, its address, and its signature
/// over a challenge bound to the asking node's address.
#[derive(Debug, Clone)]
pub struct WhoResponse {
    pub user: UserResponse,
    pub address: I2PAddress,
    pub timestamp: u64,
    pub address_signature: Signature,
}

pub type WhoWire = (UserResponse, (I2PAddress, (u64, Signature)));

pub struct WhoModel {
    pub user: UserModel,
    pub address: Seq<char>,
    pub timestamp: u64,
    pub address_signature: Seq<u8>,
}

impl Byteable for WhoResponse {
    type Model = WhoModel;

    open spec fn model(&self) -> WhoModel {
        WhoModel {
            user: self.user.model(),
            address: self.address.0@,
            timestamp: self.timestamp,
            address_signature: self.address_signature.0@,
        }
    }

    /// User, address, timestamp, then the challenge signature.
    open spec fn wire(m: WhoModel) -> Seq<u8> {
        WhoWire::wire((m.user, (m.address, (m.timestamp, m.address_signature))))
    }

    open spec fn fits(m: WhoModel) -> bool {
        WhoWire::fits((m.user, (m.address, (m.timestamp, m.address_signature))))
    }

    open spec fn parse(s: Seq<u8>) -> Option<(WhoModel, nat)> {
        match WhoWire::parse(s) {
            Some((w, n)) => Some(
                (
                    WhoModel {
                        user: w.0,
                        address: w.1.0,
                        timestamp: w.1.1.0,
                        address_signature: w.1.1.1,
                    },
                    n,
                ),
            ),
            None => None,
        }
    }

    proof fn lemma_round_trip(m: WhoModel, rest: Seq<u8>) {
        WhoWire::lemma_round_trip((m.user, (m.address, (m.timestamp, m.address_signature))), rest);
    }

    proof fn lemma_parse_len(s: Seq<u8>) {
        WhoWire::lemma_parse_len(s);
    }

    fn encode(&self, out: &mut Vec<u8>) -> (r: Result<(), EncodeError>) {
        self.user.encode(out)?;
        self.address.encode(out)?;
        self.timestamp.encode(out)?;
        let r = self.address_signature.encode(out);
        proof {
            if r is Ok {
                assert(out@ =~= old(out)@ + Self::wire(self.model()));
            }
        }
        r
    }

    fn decode(buf: &[u8], pos: usize) -> (r: Result<(Self, usize), DecodeError>) {
        let (w, p) = WhoWire::decode(buf, pos)?;
        let (user, (address, (timestamp, address_signature))) = w;
        Ok((WhoResponse { user, address, timestamp, address_signature }, p))
    }
}

} // verus!
