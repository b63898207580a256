//! SOCKS5 wire structures and their byte encoding.
//!
//! Ports travel low byte first on the wire: `port = low | (high << 8)`.
//! The encoder and the decoder agree on this order.
use vstd::prelude::*;
use vstd::utf8::*;
use crate::bytes::append;
use crate::address::{ipv4_text, is_ipv4_text, ipv4_bytes_of, parse_ipv4_text};
pub use crate::address::{get_domain_from_bytes, get_ipv4_from_bytes, parse_string_from_bytes};

verus! {

/// SOCKS protocol version.
#[derive(Debug, PartialEq, Eq, Structural, Clone, Copy)]
pub enum Version {
    Socks5,
    Others,
}

/// Version of the username/password sub-negotiation.
#[derive(Debug, PartialEq, Eq, Structural, Clone, Copy)]
pub enum SubVersion {
    V0,
    Others,
}

/// Authentication methods.
#[derive(Debug, PartialEq, Eq, Structural, Clone, Copy)]
pub enum AuthType {
    Non,
    Gssapi,
    NamePassword,
    IanaAssigned,
    Reserved,
    NonAccept,
}

/// Request commands.
#[derive(Debug, PartialEq, Eq, Structural, Clone, Copy)]
pub enum CmdType {
    Connect,
    Bind,
    Udp,
}

/// Destination address kinds.
#[derive(Debug, PartialEq, Eq, Structural, Clone, Copy)]
pub enum AddressType {
    Ipv4,
    Domain,
    Ipv6,
}

/// Outcome of the username/password sub-negotiation.
#[derive(Debug, PartialEq, Eq, Structural, Clone, Copy)]
pub enum AuthResult {
    Success,
    Failure,
}

/// Reply codes, `Success = 0` to `Others = 9`.
#[derive(Debug, PartialEq, Eq, Structural, Clone, Copy)]
pub enum ReplyType {
    Success,
    ServerFailure,
    ConnectionNotAllowed,
    NetWorkUnReachable,
    HostUnreachable,
    ConnectionRefuse,
    TTLExpired,
    CmdNotSupport,
    AddressTypeNotSupport,
    Others,
}

/// Stages of the client side of a session.
#[derive(Debug, PartialEq, Eq, Structural, Clone, Copy)]
pub enum ClientStage {
    Init,
    SendAuthSelect,
    AuthSelectFinish,
    SendRequest,
    RequestFinish,
    SendContentRequest,
    ContentFinish,
}

/// Stages of the server side of a connection, in the order they are reached.
#[derive(Debug, PartialEq, Eq, Structural, Clone, Copy)]
pub enum ServerStage {
    Init,
    AuthSelectFinish,
    RequestFinish,
    ReceiveContent,
    ContentFinish,
}

/// Stages of a session as seen by both ends.
#[derive(Debug, PartialEq, Eq, Structural, Clone, Copy)]
pub enum SessionStage {
    Init,
    AuthSelect,
    AuthSelectFinish,
    Request,
    RequestFinish,
    ContentRequest,
    ContentFinish,
}

/// Why a packet could not be decoded or encoded.
#[derive(Debug, PartialEq, Eq, Structural, Clone, Copy)]
pub enum CodecError {
    /// Fewer bytes than the packet needs: wait for more.
    DataIncomplete,
    /// A packet of fixed size has another length.
    LengthMismatch,
    /// The version byte is absent.
    EmptyVersion,
    /// Only version 5 has a wire value.
    UnsupportedVersion,
    UnsupportedAuthMethod,
    UnsupportedCommand,
    UnsupportedAddressType,
    UnsupportedReplyType,
    /// A name or a domain is not valid UTF-8.
    InvalidEncoding,
    /// An address text that is not four dotted decimal bytes.
    InvalidAddress,
}

impl CodecError {
    /// A short human-readable description.
    pub fn message(&self) -> &'static str {
        match self {
            CodecError::DataIncomplete => "data is not enough.",
            CodecError::LengthMismatch => "packet length not right.",
            CodecError::EmptyVersion => "empty version num.",
            CodecError::UnsupportedVersion => "proxy only support version 5.",
            CodecError::UnsupportedAuthMethod => "auth method not supported.",
            CodecError::UnsupportedCommand => "cmd type not support.",
            CodecError::UnsupportedAddressType => "address type not support.",
            CodecError::UnsupportedReplyType => "reply type not support.",
            CodecError::InvalidEncoding => "err from bytes to utf8 string.",
            CodecError::InvalidAddress => "parse address error.",
        }
    }
}

// ---------------------------------------------------------------------------
// Single-byte fields

pub open spec fn version_of(b: u8) -> Version {
    if b == 5 {
        Version::Socks5
    } else {
        Version::Others
    }
}

pub open spec fn sub_version_of(b: u8) -> SubVersion {
    if b == 0 {
        SubVersion::V0
    } else {
        SubVersion::Others
    }
}

/// The method table: 0, 1, 2, 3, 0x80 and 0xFF.
pub open spec fn auth_type_of(b: u8) -> Option<AuthType> {
    if b == 0 {
        Some(AuthType::Non)
    } else if b == 1 {
        Some(AuthType::Gssapi)
    } else if b == 2 {
        Some(AuthType::NamePassword)
    } else if b == 3 {
        Some(AuthType::IanaAssigned)
    } else if b == 0x80 {
        Some(AuthType::Reserved)
    } else if b == 0xff {
        Some(AuthType::NonAccept)
    } else {
        None
    }
}

/// The methods that have an encoding: `Non` and `NamePassword`.
pub open spec fn auth_type_code(a: AuthType) -> Option<u8> {
    match a {
        AuthType::Non => Some(0u8),
        AuthType::NamePassword => Some(2u8),
        _ => None,
    }
}

pub open spec fn cmd_of(b: u8) -> Option<CmdType> {
    if b == 1 {
        Some(CmdType::Connect)
    } else if b == 2 {
        Some(CmdType::Bind)
    } else if b == 3 {
        Some(CmdType::Udp)
    } else {
        None
    }
}

pub open spec fn cmd_code(c: CmdType) -> u8 {
    match c {
        CmdType::Connect => 1,
        CmdType::Bind => 2,
        CmdType::Udp => 3,
    }
}

pub open spec fn address_type_of(b: u8) -> Option<AddressType> {
    if b == 1 {
        Some(AddressType::Ipv4)
    } else if b == 3 {
        Some(AddressType::Domain)
    } else if b == 4 {
        Some(AddressType::Ipv6)
    } else {
        None
    }
}

pub open spec fn address_type_code(a: AddressType) -> u8 {
    match a {
        AddressType::Ipv4 => 1,
        AddressType::Domain => 3,
        AddressType::Ipv6 => 4,
    }
}

pub open spec fn reply_code(r: ReplyType) -> u8 {
    match r {
        ReplyType::Success => 0,
        ReplyType::ServerFailure => 1,
        ReplyType::ConnectionNotAllowed => 2,
        ReplyType::NetWorkUnReachable => 3,
        ReplyType::HostUnreachable => 4,
        ReplyType::ConnectionRefuse => 5,
        ReplyType::TTLExpired => 6,
        ReplyType::CmdNotSupport => 7,
        ReplyType::AddressTypeNotSupport => 8,
        ReplyType::Others => 9,
    }
}

pub open spec fn reply_type_of(b: u8) -> Option<ReplyType> {
    if b == 0 {
        Some(ReplyType::Success)
    } else if b == 1 {
        Some(ReplyType::ServerFailure)
    } else if b == 2 {
        Some(ReplyType::ConnectionNotAllowed)
    } else if b == 3 {
        Some(ReplyType::NetWorkUnReachable)
    } else if b == 4 {
        Some(ReplyType::HostUnreachable)
    } else if b == 5 {
        Some(ReplyType::ConnectionRefuse)
    } else if b == 6 {
        Some(ReplyType::TTLExpired)
    } else if b == 7 {
        Some(ReplyType::CmdNotSupport)
    } else if b == 8 {
        Some(ReplyType::AddressTypeNotSupport)
    } else if b == 9 {
        Some(ReplyType::Others)
    } else {
        None
    }
}

pub fn parse_version(version: Option<u8>) -> (r: Result<Version, CodecError>)
    ensures
        version matches Some(b) ==> r == Ok::<Version, CodecError>(version_of(b)),
        version is None ==> r == Err::<Version, CodecError>(CodecError::EmptyVersion),
{
    match version {
        Some(5) => Ok(Version::Socks5),
        Some(_) => Ok(Version::Others),
        None => Err(CodecError::EmptyVersion),
    }
}

pub fn encode_version(version: &Version) -> (r: Result<u8, CodecError>)
    ensures
        *version == Version::Socks5 ==> r == Ok::<u8, CodecError>(5),
        *version == Version::Others ==> r == Err::<u8, CodecError>(CodecError::UnsupportedVersion),
{
    match version {
        Version::Socks5 => Ok(5),
        Version::Others => Err(CodecError::UnsupportedVersion),
    }
}

pub fn parse_sub_version(version: Option<u8>) -> (r: Result<SubVersion, CodecError>)
    ensures
        version matches Some(b) ==> r == Ok::<SubVersion, CodecError>(sub_version_of(b)),
        version is None ==> r == Err::<SubVersion, CodecError>(CodecError::EmptyVersion),
{
    match version {
        Some(0) => Ok(SubVersion::V0),
        Some(_) => Ok(SubVersion::Others),
        None => Err(CodecError::EmptyVersion),
    }
}

pub fn parse_auth_type(auth: Option<u8>) -> (r: Result<AuthType, CodecError>)
    ensures
        match auth {
            Some(b) => match auth_type_of(b) {
                Some(a) => r == Ok::<AuthType, CodecError>(a),
                None => r == Err::<AuthType, CodecError>(CodecError::UnsupportedAuthMethod),
            },
            None => r == Err::<AuthType, CodecError>(CodecError::UnsupportedAuthMethod),
        },
{
    match auth {
        Some(0) => Ok(AuthType::Non),
        Some(1) => Ok(AuthType::Gssapi),
        Some(2) => Ok(AuthType::NamePassword),
        Some(3) => Ok(AuthType::IanaAssigned),
        Some(0x80) => Ok(AuthType::Reserved),
        Some(0xff) => Ok(AuthType::NonAccept),
        _ => Err(CodecError::UnsupportedAuthMethod),
    }
}

pub fn encode_auth_type(auth_type: &AuthType) -> (r: Result<u8, CodecError>)
    ensures
        match auth_type_code(*auth_type) {
            Some(c) => r == Ok::<u8, CodecError>(c),
            None => r == Err::<u8, CodecError>(CodecError::UnsupportedAuthMethod),
        },
{
    match auth_type {
        AuthType::Non => Ok(0),
        AuthType::NamePassword => Ok(2),
        _ => Err(CodecError::UnsupportedAuthMethod),
    }
}

pub fn parse_cmd(cmd: Option<u8>) -> (r: Result<CmdType, CodecError>)
    ensures
        match cmd {
            Some(b) => match cmd_of(b) {
                Some(c) => r == Ok::<CmdType, CodecError>(c),
                None => r == Err::<CmdType, CodecError>(CodecError::UnsupportedCommand),
            },
            None => r == Err::<CmdType, CodecError>(CodecError::UnsupportedCommand),
        },
{
    match cmd {
        Some(1) => Ok(CmdType::Connect),
        Some(2) => Ok(CmdType::Bind),
        Some(3) => Ok(CmdType::Udp),
        _ => Err(CodecError::UnsupportedCommand),
    }
}

pub fn encode_cmd(cmd_type: &CmdType) -> (r: Result<u8, CodecError>)
    ensures
        r == Ok::<u8, CodecError>(cmd_code(*cmd_type)),
{
    match cmd_type {
        CmdType::Connect => Ok(1),
        CmdType::Bind => Ok(2),
        CmdType::Udp => Ok(3),
    }
}

pub fn parse_address_type(addr_type: Option<u8>) -> (r: Result<AddressType, CodecError>)
    ensures
        match addr_type {
            Some(b) => match address_type_of(b) {
                Some(a) => r == Ok::<AddressType, CodecError>(a),
                None => r == Err::<AddressType, CodecError>(CodecError::UnsupportedAddressType),
            },
            None => r == Err::<AddressType, CodecError>(CodecError::UnsupportedAddressType),
        },
{
    match addr_type {
        Some(1) => Ok(AddressType::Ipv4),
        Some(3) => Ok(AddressType::Domain),
        Some(4) => Ok(AddressType::Ipv6),
        _ => Err(CodecError::UnsupportedAddressType),
    }
}

pub fn encode_address_type(address_type: &AddressType) -> (r: Result<u8, CodecError>)
    ensures
        r == Ok::<u8, CodecError>(address_type_code(*address_type)),
{
    match address_type {
        AddressType::Ipv4 => Ok(1),
        AddressType::Domain => Ok(3),
        AddressType::Ipv6 => Ok(4),
    }
}

pub fn parse_auth_result(result: Option<u8>) -> (r: Result<AuthResult, CodecError>)
    ensures
        result == Some(0u8) ==> r == Ok::<AuthResult, CodecError>(AuthResult::Success),
        result matches Some(b) && b != 0 ==> r == Ok::<AuthResult, CodecError>(AuthResult::Failure),
        result is None ==> r == Err::<AuthResult, CodecError>(CodecError::DataIncomplete),
{
    match result {
        Some(0) => Ok(AuthResult::Success),
        Some(_) => Ok(AuthResult::Failure),
        None => Err(CodecError::DataIncomplete),
    }
}

pub fn encode_reply_type(reply_type: &ReplyType) -> (r: Result<u8, CodecError>)
    ensures
        r == Ok::<u8, CodecError>(reply_code(*reply_type)),
{
    match reply_type {
        ReplyType::Success => Ok(0),
        ReplyType::ServerFailure => Ok(1),
        ReplyType::ConnectionNotAllowed => Ok(2),
        ReplyType::NetWorkUnReachable => Ok(3),
        ReplyType::HostUnreachable => Ok(4),
        ReplyType::ConnectionRefuse => Ok(5),
        ReplyType::TTLExpired => Ok(6),
        ReplyType::CmdNotSupport => Ok(7),
        ReplyType::AddressTypeNotSupport => Ok(8),
        ReplyType::Others => Ok(9),
    }
}

pub fn parse_reply_type(reply_type: Option<u8>) -> (r: Result<ReplyType, CodecError>)
    ensures
        match reply_type {
            Some(b) => match reply_type_of(b) {
                Some(t) => r == Ok::<ReplyType, CodecError>(t),
                None => r == Err::<ReplyType, CodecError>(CodecError::UnsupportedReplyType),
            },
            None => r == Err::<ReplyType, CodecError>(CodecError::UnsupportedReplyType),
        },
{
    match reply_type {
        Some(0) => Ok(ReplyType::Success),
        Some(1) => Ok(ReplyType::ServerFailure),
        Some(2) => Ok(ReplyType::ConnectionNotAllowed),
        Some(3) => Ok(ReplyType::NetWorkUnReachable),
        Some(4) => Ok(ReplyType::HostUnreachable),
        Some(5) => Ok(ReplyType::ConnectionRefuse),
        Some(6) => Ok(ReplyType::TTLExpired),
        Some(7) => Ok(ReplyType::CmdNotSupport),
        Some(8) => Ok(ReplyType::AddressTypeNotSupport),
        Some(9) => Ok(ReplyType::Others),
        _ => Err(CodecError::UnsupportedReplyType),
    }
}

// ---------------------------------------------------------------------------
// Method negotiation

/// The method list of a request, if every byte is in the method table.
pub open spec fn methods_of(s: Seq<u8>) -> Option<Seq<AuthType>> {
    if forall|i: int| 0 <= i < s.len() ==> (#[trigger] auth_type_of(s[i])) is Some {
        Some(s.map_values(|b: u8| auth_type_of(b)->0))
    } else {
        None
    }
}

/// The wire codes of a method list, if every method has one.
pub open spec fn method_codes(ms: Seq<AuthType>) -> Option<Seq<u8>> {
    if forall|i: int| 0 <= i < ms.len() ==> (#[trigger] auth_type_code(ms[i])) is Some {
        Some(ms.map_values(|a: AuthType| auth_type_code(a)->0))
    } else {
        None
    }
}

/// Authentication method selection request sent by a client once connected.
#[derive(Debug, PartialEq)]
pub struct AuthSelectRequest {
    pub version: Version,
    pub n_methods: u8,
    pub methods: Vec<AuthType>,
}

pub struct AuthSelectRequestView {
    pub version: Version,
    pub n_methods: u8,
    pub methods: Seq<AuthType>,
}

impl View for AuthSelectRequest {
    type V = AuthSelectRequestView;

    open spec fn view(&self) -> AuthSelectRequestView {
        AuthSelectRequestView { version: self.version, n_methods: self.n_methods, methods: self.methods@ }
    }
}

/// Decoding of `[version, n, method_1 .. method_n]`; the packet is `2 + n` bytes long.
pub open spec fn decode_auth_select_request(s: Seq<u8>) -> Result<AuthSelectRequestView, CodecError> {
    if s.len() < 2 || s.len() < 2 + s[1] {
        Err(CodecError::DataIncomplete)
    } else {
        match methods_of(s.subrange(2, 2 + s[1])) {
            Some(ms) => Ok(AuthSelectRequestView { version: version_of(s[0]), n_methods: s[1], methods: ms }),
            None => Err(CodecError::UnsupportedAuthMethod),
        }
    }
}

pub open spec fn encode_auth_select_request_spec(v: AuthSelectRequestView) -> Result<Seq<u8>, CodecError> {
    if v.version != Version::Socks5 {
        Err(CodecError::UnsupportedVersion)
    } else {
        match method_codes(v.methods) {
            Some(codes) => Ok(seq![5u8, v.n_methods] + codes),
            None => Err(CodecError::UnsupportedAuthMethod),
        }
    }
}

pub fn parse_auth_select_request_packet(data: &[u8]) -> (r: Result<AuthSelectRequest, CodecError>)
    ensures
        match r {
            Ok(req) => decode_auth_select_request(data@) == Ok::<_, CodecError>(req@),
            Err(e) => decode_auth_select_request(data@) == Err::<AuthSelectRequestView, _>(e),
        },
{
    if data.len() < 2 {
        return Err(CodecError::DataIncomplete);
    }
    let version = parse_version(Some(data[0]))?;
    let n_methods = data[1];
    let total: usize = 2 + n_methods as usize;
    if data.len() < total {
        return Err(CodecError::DataIncomplete);
    }
    let ghost s = data@.subrange(2, total as int);
    let mut methods: Vec<AuthType> = Vec::new();
    let mut i: usize = 0;
    while i < n_methods as usize
        invariant
            i <= n_methods,
            n_methods == data@[1],
            data@.len() >= 2,
            total == 2 + n_methods,
            total <= data@.len(),
            s == data@.subrange(2, total as int),
            forall|j: int| 0 <= j < i ==> (#[trigger] auth_type_of(s[j])) is Some,
            methods@ == s.subrange(0, i as int).map_values(|b: u8| auth_type_of(b)->0),
        decreases n_methods - i,
    {
        assert(s[i as int] == data@[2 + i as int]);
        let method = match parse_auth_type(Some(data[2 + i])) {
            Ok(m) => m,
            Err(e) => {
                assert(auth_type_of(s[i as int]) is None);
                assert(methods_of(s) is None);
                return Err(e);
            },
        };
        methods.push(method);
        i = i + 1;
        assert(methods@ =~= s.subrange(0, i as int).map_values(|b: u8| auth_type_of(b)->0));
    }
    assert(s.subrange(0, i as int) =~= s);
    Ok(AuthSelectRequest { version, n_methods, methods })
}

pub fn encode_auth_select_request(request: AuthSelectRequest) -> (r: Result<Vec<u8>, CodecError>)
    ensures
        match r {
            Ok(v) => encode_auth_select_request_spec(request@) == Ok::<_, CodecError>(v@),
            Err(e) => encode_auth_select_request_spec(request@) == Err::<Seq<u8>, _>(e),
        },
{
    let mut data: Vec<u8> = Vec::new();
    let version_num = encode_version(&request.version)?;
    data.push(version_num);
    data.push(request.n_methods);
    let methods = &request.methods;
    let ghost ms = methods@;
    let mut i: usize = 0;
    while i < methods.len()
        invariant
            ms == request.methods@,
            methods@ == ms,
            i <= ms.len(),
            request.version == Version::Socks5,
            forall|j: int| 0 <= j < i ==> (#[trigger] auth_type_code(ms[j])) is Some,
            data@ == seq![5u8, request.n_methods] + ms.subrange(0, i as int).map_values(
                |a: AuthType| auth_type_code(a)->0,
            ),
        decreases ms.len() - i,
    {
        let auth_num = match encode_auth_type(&methods[i]) {
            Ok(n) => n,
            Err(e) => {
                assert(auth_type_code(ms[i as int]) is None);
                return Err(e);
            },
        };
        data.push(auth_num);
        i = i + 1;
        assert(ms.subrange(0, i as int).map_values(|a: AuthType| auth_type_code(a)->0) =~= ms.subrange(
            0,
            i - 1,
        ).map_values(|a: AuthType| auth_type_code(a)->0).push(auth_num));
    }
    assert(ms.subrange(0, i as int) =~= ms);
    Ok(data)
}

impl AuthSelectRequest {
    pub fn new(version: Version, n_methods: u8, methods: Vec<AuthType>) -> (r: AuthSelectRequest)
        ensures
            r.version == version,
            r.n_methods == n_methods,
            r.methods@ == methods@,
    {
        AuthSelectRequest { version, n_methods, methods }
    }

    pub fn version(&self) -> (r: &Version)
        ensures
            *r == self.version,
    {
        &self.version
    }

    pub fn n_methods(&self) -> (r: u8)
        ensures
            r == self.n_methods,
    {
        self.n_methods
    }

    pub fn methods(&self) -> (r: &Vec<AuthType>)
        ensures
            r@ == self.methods@,
    {
        &self.methods
    }
}

/// The server's choice of authentication method.
#[derive(Debug, PartialEq, Eq, Structural, Clone, Copy)]
pub struct AuthSelectReply {
    pub version: Version,
    pub method: AuthType,
}

pub open spec fn decode_auth_select_reply(s: Seq<u8>) -> Result<AuthSelectReply, CodecError> {
    if s.len() != 2 {
        Err(CodecError::LengthMismatch)
    } else {
        match auth_type_of(s[1]) {
            Some(m) => Ok(AuthSelectReply { version: version_of(s[0]), method: m }),
            None => Err(CodecError::UnsupportedAuthMethod),
        }
    }
}

pub open spec fn encode_auth_select_reply_spec(v: AuthSelectReply) -> Result<Seq<u8>, CodecError> {
    if v.version != Version::Socks5 {
        Err(CodecError::UnsupportedVersion)
    } else {
        match auth_type_code(v.method) {
            Some(c) => Ok(seq![5u8, c]),
            None => Err(CodecError::UnsupportedAuthMethod),
        }
    }
}

pub fn parse_auth_select_reply_packet(data: &[u8]) -> (r: Result<AuthSelectReply, CodecError>)
    ensures
        r == decode_auth_select_reply(data@),
{
    if data.len() != 2 {
        return Err(CodecError::LengthMismatch);
    }
    let version = parse_version(Some(data[0]))?;
    let method = parse_auth_type(Some(data[1]))?;
    Ok(AuthSelectReply { version, method })
}

pub fn encode_auth_select_reply(reply: &AuthSelectReply) -> (r: Result<Vec<u8>, CodecError>)
    ensures
        match r {
            Ok(v) => encode_auth_select_reply_spec(*reply) == Ok::<_, CodecError>(v@),
            Err(e) => encode_auth_select_reply_spec(*reply) == Err::<Seq<u8>, _>(e),
        },
{
    let version_num = encode_version(reply.version())?;
    let auth_num = encode_auth_type(reply.auth_type())?;
    let mut buffer: Vec<u8> = Vec::new();
    buffer.push(version_num);
    buffer.push(auth_num);
    assert(buffer@ =~= seq![5u8, auth_num]);
    Ok(buffer)
}

impl AuthSelectReply {
    pub fn new(version: Version, auth_type: AuthType) -> (r: AuthSelectReply)
        ensures
            r == (AuthSelectReply { version, method: auth_type }),
    {
        AuthSelectReply { version, method: auth_type }
    }

    pub fn version(&self) -> (r: &Version)
        ensures
            *r == self.version,
    {
        &self.version
    }

    pub fn auth_type(&self) -> (r: &AuthType)
        ensures
            *r == self.method,
    {
        &self.method
    }
}

/// An auth-select reply that has an encoding decodes back to itself.
pub proof fn lemma_auth_select_reply_round_trip(reply: AuthSelectReply)
    requires
        encode_auth_select_reply_spec(reply) is Ok,
    ensures
        decode_auth_select_reply(encode_auth_select_reply_spec(reply)->Ok_0) == Ok::<_, CodecError>(reply),
{
}

// ---------------------------------------------------------------------------
// Destination request and reply

/// A port from its two wire bytes, low byte first.
pub open spec fn port_of(low: u8, high: u8) -> u16 {
    (low + 256 * high) as u16
}

/// The two wire bytes of a port, low byte first.
pub open spec fn port_bytes(p: u16) -> Seq<u8> {
    seq![(p % 256) as u8, (p / 256) as u8]
}

/// Decoding of the address field and the port that follows it: the address
/// text, the port and the number of bytes the address occupies.
pub open spec fn decode_address(s: Seq<u8>, t: AddressType) -> Result<(Seq<char>, u16, int), CodecError> {
    match t {
        AddressType::Ipv4 => if s.len() < 6 {
            Err(CodecError::DataIncomplete)
        } else {
            Ok((decode_utf8(ipv4_text(s.subrange(0, 4))), port_of(s[4], s[5]), 4))
        },
        AddressType::Domain => if s.len() < 1 || s.len() < 3 + s[0] {
            Err(CodecError::DataIncomplete)
        } else if !valid_utf8(s.subrange(1, 1 + s[0])) {
            Err(CodecError::InvalidEncoding)
        } else {
            Ok((decode_utf8(s.subrange(1, 1 + s[0])), port_of(s[1 + s[0]], s[2 + s[0]]), 1 + s[0]))
        },
        AddressType::Ipv6 => Err(CodecError::UnsupportedAddressType),
    }
}

/// Wire bytes of an address text: four bytes for IPv4, the UTF-8 bytes of a domain.
pub open spec fn encode_address(a: Seq<char>, t: AddressType) -> Result<Seq<u8>, CodecError> {
    match t {
        AddressType::Ipv4 => if is_ipv4_text(encode_utf8(a)) {
            Ok(ipv4_bytes_of(encode_utf8(a)))
        } else {
            Err(CodecError::InvalidAddress)
        },
        AddressType::Domain => Ok(encode_utf8(a)),
        AddressType::Ipv6 => Err(CodecError::UnsupportedAddressType),
    }
}

pub fn get_port(bytes: &[u8]) -> (r: Result<u16, CodecError>)
    requires
        bytes@.len() >= 2,
    ensures
        r == Ok::<u16, CodecError>(port_of(bytes@[0], bytes@[1])),
{
    Ok(bytes[0] as u16 + bytes[1] as u16 * 256)
}

/// Rejected: IPv6 destinations are not supported.
pub fn get_ipv6_from_bytes(bytes: &[u8]) -> (r: Result<String, CodecError>)
    ensures
        r == Err::<String, CodecError>(CodecError::UnsupportedAddressType),
{
    Err(CodecError::UnsupportedAddressType)
}

/// Decodes an address field and the port after it, giving `(address, port)`.
pub fn parse_dst_address(data: &[u8], addr_type: &AddressType) -> (r: Result<(String, u16), CodecError>)
    ensures
        match decode_address(data@, *addr_type) {
            Ok((a, p, _)) => r matches Ok((s, q)) && s@ == a && q == p,
            Err(e) => r == Err::<(String, u16), _>(e),
        },
{
    let len = data.len();
    match addr_type {
        AddressType::Ipv4 => {
            if len < 6 {
                return Err(CodecError::DataIncomplete);
            }
            let address = get_ipv4_from_bytes(data)?;
            let port = get_port(&data[4..6])?;
            Ok((address, port))
        },
        AddressType::Ipv6 => Err(CodecError::UnsupportedAddressType),
        AddressType::Domain => {
            if len < 1 {
                return Err(CodecError::DataIncomplete);
            }
            let addr_len = data[0] as usize;
            if len < addr_len + 3 {
                return Err(CodecError::DataIncomplete);
            }
            let address = get_domain_from_bytes(&data[1..addr_len + 1])?;
            let port = get_port(&data[addr_len + 1..addr_len + 3])?;
            Ok((address, port))
        },
    }
}

/// A client's request for a destination service.
#[derive(Debug, PartialEq)]
pub struct DstServiceRequest {
    pub version: Version,
    pub cmd: CmdType,
    pub reserve: u8,
    pub address_type: AddressType,
    pub address: String,
    pub port: u16,
}

pub struct DstServiceRequestView {
    pub version: Version,
    pub cmd: CmdType,
    pub reserve: u8,
    pub address_type: AddressType,
    pub address: Seq<char>,
    pub port: u16,
}

impl View for DstServiceRequest {
    type V = DstServiceRequestView;

    open spec fn view(&self) -> DstServiceRequestView {
        DstServiceRequestView {
            version: self.version,
            cmd: self.cmd,
            reserve: self.reserve,
            address_type: self.address_type,
            address: self.address@,
            port: self.port,
        }
    }
}

/// Decoding of `[version, cmd, reserved, address type, address.., port low, port high]`,
/// with the number of bytes the address occupies.
pub open spec fn decode_dst_service_request(s: Seq<u8>) -> Result<(DstServiceRequestView, int), CodecError> {
    if s.len() < 4 {
        Err(CodecError::DataIncomplete)
    } else {
        match cmd_of(s[1]) {
            None => Err(CodecError::UnsupportedCommand),
            Some(cmd) => match address_type_of(s[3]) {
                None => Err(CodecError::UnsupportedAddressType),
                Some(t) => match decode_address(s.subrange(4, s.len() as int), t) {
                    Err(e) => Err(e),
                    Ok((a, p, l)) => Ok(
                        (
                            DstServiceRequestView {
                                version: version_of(s[0]),
                                cmd,
                                reserve: s[2],
                                address_type: t,
                                address: a,
                                port: p,
                            },
                            l,
                        ),
                    ),
                },
            },
        }
    }
}

/// Encoding of a request; the reserved byte goes out as 0 and a domain has no length prefix.
pub open spec fn encode_dst_service_request_spec(v: DstServiceRequestView) -> Result<Seq<u8>, CodecError> {
    if v.version != Version::Socks5 {
        Err(CodecError::UnsupportedVersion)
    } else {
        match encode_address(v.address, v.address_type) {
            Err(e) => Err(e),
            Ok(a) => Ok(
                seq![5u8, cmd_code(v.cmd), 0u8, address_type_code(v.address_type)] + a + port_bytes(
                    v.port,
                ),
            ),
        }
    }
}

/// Decodes a destination request, giving the request and the number of bytes
/// its address occupies; the whole packet is that number plus 6 bytes long.
pub fn parse_dst_service_request(data: &[u8]) -> (r: Result<(DstServiceRequest, usize), CodecError>)
    ensures
        match r {
            Ok((req, l)) => decode_dst_service_request(data@) == Ok::<_, CodecError>((req@, l as int)),
            Err(e) => decode_dst_service_request(data@) == Err::<(DstServiceRequestView, int), _>(e),
        },
{
    if data.len() < 4 {
        return Err(CodecError::DataIncomplete);
    }
    let version = parse_version(Some(data[0]))?;
    let cmd = parse_cmd(Some(data[1]))?;
    let reserve = data[2];
    let address_type = parse_address_type(Some(data[3]))?;
    let rest = &data[4..data.len()];
    let (address, port) = parse_dst_address(rest, &address_type)?;
    let address_len: usize = match address_type {
        AddressType::Domain => 1 + rest[0] as usize,
        _ => 4,
    };
    Ok((DstServiceRequest { version, cmd, reserve, address_type, address, port }, address_len))
}

/// Encodes a destination request.
pub fn encode_dst_service_request(request: DstServiceRequest) -> (r: Result<Vec<u8>, CodecError>)
    ensures
        match r {
            Ok(v) => encode_dst_service_request_spec(request@) == Ok::<_, CodecError>(v@),
            Err(e) => encode_dst_service_request_spec(request@) == Err::<Seq<u8>, _>(e),
        },
{
    let version = encode_version(&request.version)?;
    let cmd_type = encode_cmd(&request.cmd)?;
    let address_type = encode_address_type(&request.address_type)?;
    let address = encode_address_with_type(request.address, &request.address_type)?;
    let mut data: Vec<u8> = Vec::new();
    data.push(version);
    data.push(cmd_type);
    data.push(0);
    data.push(address_type);
    append(&mut data, address.as_slice());
    let port = request.port;
    data.push((port % 256) as u8);
    data.push((port / 256) as u8);
    assert(data@ =~= seq![5u8, cmd_code(request.cmd), 0u8, address_type_code(request.address_type)]
        + address@ + port_bytes(port));
    Ok(data)
}

impl DstServiceRequest {
    pub fn new(
        version: Version,
        cmd: CmdType,
        reserve: u8,
        address_type: AddressType,
        address: String,
        port: u16,
    ) -> (r: DstServiceRequest)
        ensures
            r@ == (DstServiceRequestView {
                version,
                cmd,
                reserve,
                address_type,
                address: address@,
                port,
            }),
    {
        DstServiceRequest { version, cmd, reserve, address_type, address, port }
    }

    pub fn version(&self) -> (r: &Version)
        ensures
            *r == self.version,
    {
        &self.version
    }

    pub fn cmd(&self) -> (r: &CmdType)
        ensures
            *r == self.cmd,
    {
        &self.cmd
    }

    pub fn address_type(&self) -> (r: &AddressType)
        ensures
            *r == self.address_type,
    {
        &self.address_type
    }

    pub fn address(&self) -> (r: String)
        ensures
            r@ == self.address@,
    {
        self.address.clone()
    }

    pub fn port(&self) -> (r: u16)
        ensures
            r == self.port,
    {
        self.port
    }
}

/// The server's answer to a destination request.
#[derive(Debug, PartialEq)]
pub struct DstServiceReply {
    pub version: Version,
    pub reply: ReplyType,
    pub reserve: u8,
    pub address_type: AddressType,
    pub address: String,
    pub port: u16,
}

pub struct DstServiceReplyView {
    pub version: Version,
    pub reply: ReplyType,
    pub reserve: u8,
    pub address_type: AddressType,
    pub address: Seq<char>,
    pub port: u16,
}

impl View for DstServiceReply {
    type V = DstServiceReplyView;

    open spec fn view(&self) -> DstServiceReplyView {
        DstServiceReplyView {
            version: self.version,
            reply: self.reply,
            reserve: self.reserve,
            address_type: self.address_type,
            address: self.address@,
            port: self.port,
        }
    }
}

/// Decoding of a reply; its layout is that of a request with a reply code in
/// place of the command.
pub open spec fn decode_dst_service_reply(s: Seq<u8>) -> Result<DstServiceReplyView, CodecError> {
    if s.len() < 4 {
        Err(CodecError::DataIncomplete)
    } else {
        match reply_type_of(s[1]) {
            None => Err(CodecError::UnsupportedReplyType),
            Some(reply) => match address_type_of(s[3]) {
                None => Err(CodecError::UnsupportedAddressType),
                Some(t) => match decode_address(s.subrange(4, s.len() as int), t) {
                    Err(e) => Err(e),
                    Ok((a, p, _)) => Ok(
                        DstServiceReplyView {
                            version: version_of(s[0]),
                            reply,
                            reserve: s[2],
                            address_type: t,
                            address: a,
                            port: p,
                        },
                    ),
                },
            },
        }
    }
}

/// Encoding of a reply; a domain goes out behind a one-byte length, so it may
/// hold at most 255 bytes.
pub open spec fn encode_dst_service_reply_spec(v: DstServiceReplyView) -> Result<Seq<u8>, CodecError> {
    if v.version != Version::Socks5 {
        Err(CodecError::UnsupportedVersion)
    } else {
        match encode_address(v.address, v.address_type) {
            Err(e) => Err(e),
            Ok(a) => {
                let head = seq![5u8, reply_code(v.reply), 0u8, address_type_code(v.address_type)];
                if v.address_type == AddressType::Domain {
                    if a.len() > 255 {
                        Err(CodecError::InvalidAddress)
                    } else {
                        Ok(head + seq![a.len() as u8] + a + port_bytes(v.port))
                    }
                } else {
                    Ok(head + a + port_bytes(v.port))
                }
            },
        }
    }
}

pub fn parse_dst_service_reply(data: &[u8]) -> (r: Result<DstServiceReply, CodecError>)
    ensures
        match r {
            Ok(rep) => decode_dst_service_reply(data@) == Ok::<_, CodecError>(rep@),
            Err(e) => decode_dst_service_reply(data@) == Err::<DstServiceReplyView, _>(e),
        },
{
    if data.len() < 4 {
        return Err(CodecError::DataIncomplete);
    }
    let version = parse_version(Some(data[0]))?;
    let reply = parse_reply_type(Some(data[1]))?;
    let reserve = data[2];
    let address_type = parse_address_type(Some(data[3]))?;
    let (address, port) = parse_dst_address(&data[4..data.len()], &address_type)?;
    Ok(DstServiceReply { version, reply, reserve, address_type, address, port })
}

pub fn encode_dst_service_reply(dst_reply: DstServiceReply) -> (r: Result<Vec<u8>, CodecError>)
    ensures
        match r {
            Ok(v) => encode_dst_service_reply_spec(dst_reply@) == Ok::<_, CodecError>(v@),
            Err(e) => encode_dst_service_reply_spec(dst_reply@) == Err::<Seq<u8>, _>(e),
        },
{
    let version = encode_version(&dst_reply.version)?;
    let reply = encode_reply_type(&dst_reply.reply)?;
    let address_type = encode_address_type(&dst_reply.address_type)?;
    let is_domain = dst_reply.address_type == AddressType::Domain;
    let address = encode_address_with_type(dst_reply.address, &dst_reply.address_type)?;
    let mut data: Vec<u8> = Vec::new();
    data.push(version);
    data.push(reply);
    data.push(0);
    data.push(address_type);
    if is_domain {
        if address.len() > 255 {
            return Err(CodecError::InvalidAddress);
        }
        data.push(address.len() as u8);
    }
    append(&mut data, address.as_slice());
    let port = dst_reply.port;
    data.push((port % 256) as u8);
    data.push((port / 256) as u8);
    proof {
        let head = seq![5u8, reply_code(dst_reply.reply), 0u8, address_type_code(dst_reply.address_type)];
        if is_domain {
            assert(data@ =~= head + seq![address@.len() as u8] + address@ + port_bytes(port));
        } else {
            assert(data@ =~= head + address@ + port_bytes(port));
        }
    }
    Ok(data)
}

/// Wire bytes of an address of the given kind.
pub fn encode_address_with_type(address: String, address_type: &AddressType) -> (r: Result<Vec<u8>, CodecError>)
    ensures
        match r {
            Ok(v) => encode_address(address@, *address_type) == Ok::<_, CodecError>(v@),
            Err(e) => encode_address(address@, *address_type) == Err::<Seq<u8>, _>(e),
        },
{
    match address_type {
        AddressType::Ipv4 => encode_address_for_ipv4(address),
        AddressType::Domain => encode_address_as_domain(address),
        AddressType::Ipv6 => Err(CodecError::UnsupportedAddressType),
    }
}

/// The UTF-8 bytes of a domain name.
pub fn encode_address_as_domain(address: String) -> (r: Result<Vec<u8>, CodecError>)
    ensures
        r matches Ok(v) && v@ == encode_utf8(address@),
{
    let bytes = address.as_str().as_bytes();
    Ok(vstd::slice::slice_to_vec(bytes))
}

/// The four bytes of a dotted-decimal address text.
pub fn encode_address_for_ipv4(address: String) -> (r: Result<Vec<u8>, CodecError>)
    ensures
        is_ipv4_text(encode_utf8(address@)) ==> (r matches Ok(v) && v@ == ipv4_bytes_of(encode_utf8(address@))),
        !is_ipv4_text(encode_utf8(address@)) ==> r == Err::<Vec<u8>, _>(CodecError::InvalidAddress),
{
    let bytes = address.as_str().as_bytes();
    match parse_ipv4_text(bytes) {
        Some(v) => Ok(v),
        None => Err(CodecError::InvalidAddress),
    }
}

impl DstServiceReply {
    /// A reply with the reserved byte 0.
    pub fn new(version: Version, reply: ReplyType, address_type: AddressType, address: String, port: u16) -> (r:
        DstServiceReply)
        ensures
            r@ == (DstServiceReplyView { version, reply, reserve: 0, address_type, address: address@, port }),
    {
        DstServiceReply { version, reply, reserve: 0, address_type, address, port }
    }
}

/// A destination request with an IPv4 address and a zero reserved byte
/// decodes back from its encoding, its address taking four bytes.
pub proof fn lemma_dst_service_request_round_trip(v: DstServiceRequestView)
    requires
        encode_dst_service_request_spec(v) is Ok,
        v.address_type == AddressType::Ipv4,
        v.reserve == 0,
    ensures
        decode_dst_service_request(encode_dst_service_request_spec(v)->Ok_0) == Ok::<_, CodecError>((v, 4int)),
{
    let s = encode_dst_service_request_spec(v)->Ok_0;
    let t = encode_utf8(v.address);
    let b = ipv4_bytes_of(t);
    assert(s.subrange(4, s.len() as int) =~= b + port_bytes(v.port));
    assert((b + port_bytes(v.port)).subrange(0, 4) =~= b);
    encode_utf8_decode_utf8(v.address);
    assert(cmd_of(cmd_code(v.cmd)) == Some(v.cmd));
}

/// A destination reply with an IPv4 or a domain address and a zero reserved
/// byte decodes back from its encoding.
pub proof fn lemma_dst_service_reply_round_trip(v: DstServiceReplyView)
    requires
        encode_dst_service_reply_spec(v) is Ok,
        v.reserve == 0,
    ensures
        decode_dst_service_reply(encode_dst_service_reply_spec(v)->Ok_0) == Ok::<_, CodecError>(v),
{
    let s = encode_dst_service_reply_spec(v)->Ok_0;
    let a = encode_address(v.address, v.address_type)->Ok_0;
    encode_utf8_decode_utf8(v.address);
    encode_utf8_valid_utf8(v.address);
    assert(reply_type_of(reply_code(v.reply)) == Some(v.reply));
    if v.address_type == AddressType::Domain {
        assert(s.subrange(4, s.len() as int) =~= seq![a.len() as u8] + a + port_bytes(v.port));
        assert((seq![a.len() as u8] + a + port_bytes(v.port)).subrange(1, 1 + a.len() as int) =~= a);
    } else {
        assert(s.subrange(4, s.len() as int) =~= a + port_bytes(v.port));
        assert((a + port_bytes(v.port)).subrange(0, 4) =~= a);
    }
}

// ---------------------------------------------------------------------------
// Username/password sub-negotiation

/// Decoding of `[len, bytes..]` into the length and the UTF-8 text it frames.
pub open spec fn decode_len_and_string(s: Seq<u8>) -> Result<(u8, Seq<char>), CodecError> {
    if s.len() == 0 || s.len() < 1 + s[0] {
        Err(CodecError::DataIncomplete)
    } else if !valid_utf8(s.subrange(1, 1 + s[0])) {
        Err(CodecError::InvalidEncoding)
    } else {
        Ok((s[0], decode_utf8(s.subrange(1, 1 + s[0]))))
    }
}

pub fn parse_len_and_string(data: &[u8]) -> (r: Result<(u8, String), CodecError>)
    ensures
        match decode_len_and_string(data@) {
            Ok((l, t)) => r matches Ok((n, s)) && n == l && s@ == t,
            Err(e) => r == Err::<(u8, String), _>(e),
        },
{
    let total = data.len();
    if total == 0 {
        return Err(CodecError::DataIncomplete);
    }
    let len = data[0];
    if total < 1 + len as usize {
        return Err(CodecError::DataIncomplete);
    }
    let name = parse_string_from_bytes(&data[1..1 + len as usize])?;
    Ok((len, name))
}

/// A client's username/password.
#[derive(Debug, PartialEq)]
pub struct UserPassAuthRequest {
    pub version: SubVersion,
    pub u_len: u8,
    pub name: String,
    pub p_len: u8,
    pub password: String,
}

/// Decoding of `[version, ulen, name.., plen, password..]`: the version, then
/// the name and the password, each as `decode_len_and_string` reads it.
pub open spec fn decode_user_auth_request(s: Seq<u8>) -> Result<(SubVersion, u8, Seq<char>, u8, Seq<char>), CodecError> {
    if s.len() < 2 {
        Err(CodecError::DataIncomplete)
    } else {
        match decode_len_and_string(s.subrange(1, s.len() as int)) {
            Err(e) => Err(e),
            Ok((ul, name)) => match decode_len_and_string(s.subrange(2 + ul, s.len() as int)) {
                Err(e) => Err(e),
                Ok((pl, password)) => Ok((sub_version_of(s[0]), ul, name, pl, password)),
            },
        }
    }
}

pub fn parse_user_auth_request(data: &[u8]) -> (r: Result<UserPassAuthRequest, CodecError>)
    ensures
        match decode_user_auth_request(data@) {
            Ok((v, ul, name, pl, password)) => r matches Ok(req) && req.version == v && req.u_len == ul
                && req.name@ == name && req.p_len == pl && req.password@ == password,
            Err(e) => r == Err::<UserPassAuthRequest, _>(e),
        },
{
    if data.len() < 2 {
        return Err(CodecError::DataIncomplete);
    }
    let version = parse_sub_version(Some(data[0]))?;
    let (u_len, name) = parse_len_and_string(&data[1..data.len()])?;
    let start: usize = 2 + u_len as usize;
    let (p_len, password) = parse_len_and_string(&data[start..data.len()])?;
    Ok(UserPassAuthRequest { version, u_len, name, p_len, password })
}

impl UserPassAuthRequest {
    pub fn version(&self) -> (r: &SubVersion)
        ensures
            *r == self.version,
    {
        &self.version
    }

    pub fn u_len(&self) -> (r: u8)
        ensures
            r == self.u_len,
    {
        self.u_len
    }

    pub fn name(&self) -> (r: &String)
        ensures
            r@ == self.name@,
    {
        &self.name
    }

    pub fn p_len(&self) -> (r: u8)
        ensures
            r == self.p_len,
    {
        self.p_len
    }

    pub fn password(&self) -> (r: &String)
        ensures
            r@ == self.password@,
    {
        &self.password
    }
}

/// The server's verdict on a username/password.
#[derive(Debug, PartialEq, Eq, Structural, Clone, Copy)]
pub struct UserPassAuthReply {
    pub version: SubVersion,
    pub status: AuthResult,
}

impl UserPassAuthReply {
    pub fn version(&self) -> (r: &SubVersion)
        ensures
            *r == self.version,
    {
        &self.version
    }

    pub fn status(&self) -> (r: &AuthResult)
        ensures
            *r == self.status,
    {
        &self.status
    }
}

/// Decodes `[version, status]`; status 0 is success, any other value failure.
pub fn parse_user_auth_reply(data: &[u8]) -> (r: Result<UserPassAuthReply, CodecError>)
    ensures
        data@.len() != 2 ==> r == Err::<UserPassAuthReply, _>(CodecError::LengthMismatch),
        data@.len() == 2 ==> r == Ok::<_, CodecError>(
            UserPassAuthReply {
                version: sub_version_of(data@[0]),
                status: if data@[1] == 0 {
                    AuthResult::Success
                } else {
                    AuthResult::Failure
                },
            },
        ),
{
    if data.len() != 2 {
        return Err(CodecError::LengthMismatch);
    }
    let version = parse_sub_version(Some(data[0]))?;
    let status = parse_auth_result(Some(data[1]))?;
    Ok(UserPassAuthReply { version, status })
}

/// A request that offers at least one method, each from the method table,
/// decodes to exactly those methods; the packet is `2 + n` bytes long.
pub proof fn lemma_auth_select_request_methods(s: Seq<u8>)
    requires
        s.len() >= 2,
        s[1] > 0,
        s.len() >= 2 + s[1],
        forall|i: int| 2 <= i < 2 + s[1] ==> (#[trigger] auth_type_of(s[i])) is Some,
    ensures
        decode_auth_select_request(s) == Ok::<_, CodecError>(
            AuthSelectRequestView {
                version: version_of(s[0]),
                n_methods: s[1],
                methods: s.subrange(2, 2 + s[1]).map_values(|b: u8| auth_type_of(b)->0),
            },
        ),
        decode_auth_select_request(s)->Ok_0.methods.len() == s[1],
{
    let m = s.subrange(2, 2 + s[1]);
    assert forall|i: int| 0 <= i < m.len() implies (#[trigger] auth_type_of(m[i])) is Some by {
        assert(m[i] == s[2 + i]);
    }
}

} // verus!
