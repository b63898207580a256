//! One client connection's protocol state: its buffers, its stage, and the
//! handshake that drives it.
//!
//! The record holds no socket. Where the handshake needs the outside world
//! (resolving and connecting to the destination), `handle` says so in the
//! `Action` it returns, and the caller reports the outcome through
//! `handle_dst_request`.
use vstd::prelude::*;
use crate::packet::{
    auth_type_code, decode_auth_select_request, decode_dst_service_request, encode_auth_select_reply,
    encode_dst_service_reply, encode_dst_service_reply_spec, parse_auth_select_request_packet,
    parse_dst_service_request, AddressType, AuthSelectReply, AuthSelectRequest, AuthSelectRequestView,
    AuthType, CmdType, CodecError, DstServiceReply, DstServiceReplyView, DstServiceRequest,
    DstServiceRequestView, ReplyType, ServerStage, Version,
};
use crate::bytes::{append, copy_range};
use crate::http::{get_end_of_http_packet, http_end, HttpError, HttpResult, PacketType};

verus! {

/// How bytes are relayed once the handshake is over.
#[derive(Debug, PartialEq, Eq, Structural, Clone, Copy)]
pub enum RelayMode {
    /// Every byte is forwarded as soon as it arrives.
    Raw,
    /// Only whole HTTP messages are forwarded.
    HttpMessage,
}

/// Why a connection must be closed.
#[derive(Debug, PartialEq, Eq, Structural, Clone, Copy)]
pub enum HandlerError {
    /// A malformed or unsupported packet.
    Codec(CodecError),
    /// A version other than SOCKS5.
    UnsupportedVersion,
    /// An auth-select request that offers no method.
    NoAuthMethod,
    /// Neither "no authentication" nor username/password is offered.
    NoAcceptableMethod,
    /// A relayed HTTP message that cannot be framed.
    Http(HttpError),
}

impl HandlerError {
    /// A short human-readable description.
    pub fn message(&self) -> &'static str {
        match self {
            HandlerError::Codec(e) => e.message(),
            HandlerError::UnsupportedVersion => "this version only support SOCKS5",
            HandlerError::NoAuthMethod => "non auth method is specified.",
            HandlerError::NoAcceptableMethod => "proxy only support non and name/password auth-method.",
            HandlerError::Http(e) => e.message(),
        }
    }
}

/// Where the destination request asks to connect.
#[derive(Debug, PartialEq)]
pub struct DstTarget {
    pub address_type: AddressType,
    pub address: String,
    pub port: u16,
}

/// What the caller must do after `handle`.
#[derive(Debug, PartialEq)]
pub enum Action {
    /// Wait for more bytes.
    Wait,
    /// This many reply bytes were queued for the client.
    Reply(usize),
    /// Resolve and connect to the target, then report the outcome through
    /// `handle_dst_request`.
    Connect(DstTarget),
    /// The handshake is over: relay bytes between the two legs.
    Relay,
}

/// The protocol state of one client connection.
pub struct ChildHandler {
    token: mio::Token,
    stage: ServerStage,
    send_buffer: Vec<u8>,
    receive_buffer: Vec<u8>,
    dst_token: Option<mio::Token>,
    dst_send_buffer: Vec<u8>,
    dst_receive_buffer: Vec<u8>,
    proxy_inited: bool,
    forward: bool,
    mode: RelayMode,
}

/// The record as plain values.
pub struct HandlerView {
    pub token: usize,
    pub stage: ServerStage,
    pub send: Seq<u8>,
    pub receive: Seq<u8>,
    pub dst_token: Option<usize>,
    pub dst_send: Seq<u8>,
    pub dst_receive: Seq<u8>,
    pub proxy_inited: bool,
    pub forward: bool,
    pub mode: RelayMode,
}

impl View for ChildHandler {
    type V = HandlerView;

    closed spec fn view(&self) -> HandlerView {
        HandlerView {
            token: self.token.0,
            stage: self.stage,
            send: self.send_buffer@,
            receive: self.receive_buffer@,
            dst_token: match self.dst_token {
                Some(t) => Some(t.0),
                None => None,
            },
            dst_send: self.dst_send_buffer@,
            dst_receive: self.dst_receive_buffer@,
            proxy_inited: self.proxy_inited,
            forward: self.forward,
            mode: self.mode,
        }
    }
}

/// A fresh record in stage `Init` with empty buffers.
pub open spec fn fresh_handler(token: usize) -> HandlerView {
    HandlerView {
        token,
        stage: ServerStage::Init,
        send: Seq::empty(),
        receive: Seq::empty(),
        dst_token: None,
        dst_send: Seq::empty(),
        dst_receive: Seq::empty(),
        proxy_inited: false,
        forward: false,
        mode: RelayMode::Raw,
    }
}

/// The accepted method: username/password if offered, else "no authentication".
pub open spec fn chosen_method(ms: Seq<AuthType>) -> Option<AuthType> {
    if ms.contains(AuthType::NamePassword) {
        Some(AuthType::NamePassword)
    } else if ms.contains(AuthType::Non) {
        Some(AuthType::Non)
    } else {
        None
    }
}

/// What the `Init` stage makes of the received bytes: `Ok(None)` to wait,
/// else the accepted method.
pub open spec fn init_outcome(receive: Seq<u8>) -> Result<Option<AuthSelectRequestView>, HandlerError> {
    match decode_auth_select_request(receive) {
        Err(CodecError::DataIncomplete) => Ok(None),
        Err(e) => Err(HandlerError::Codec(e)),
        Ok(req) => if req.version != Version::Socks5 {
            Err(HandlerError::UnsupportedVersion)
        } else if req.n_methods == 0 {
            Err(HandlerError::NoAuthMethod)
        } else if chosen_method(req.methods) is None {
            Err(HandlerError::NoAcceptableMethod)
        } else {
            Ok(Some(req))
        },
    }
}

/// The reply to a destination request, with the given reply code.
pub open spec fn dst_reply_of(req: DstServiceRequestView, reply: ReplyType) -> DstServiceReplyView {
    DstServiceReplyView {
        version: Version::Socks5,
        reply,
        reserve: 0,
        address_type: req.address_type,
        address: req.address,
        port: req.port,
    }
}

/// What the `AuthSelectFinish` stage makes of the received bytes: `Ok(None)`
/// to wait, else the request and its address length.
pub open spec fn dst_request_outcome(receive: Seq<u8>) -> Result<Option<(DstServiceRequestView, int)>, HandlerError> {
    match decode_dst_service_request(receive) {
        Err(CodecError::DataIncomplete) => Ok(None),
        Err(e) => Err(HandlerError::Codec(e)),
        Ok((req, l)) => if req.version != Version::Socks5 {
            Err(HandlerError::UnsupportedVersion)
        } else {
            Ok(Some((req, l)))
        },
    }
}

fn has_method(ms: &Vec<AuthType>, m: AuthType) -> (r: bool)
    ensures
        r == ms@.contains(m),
{
    let mut i: usize = 0;
    while i < ms.len()
        invariant
            i <= ms@.len(),
            forall|j: int| 0 <= j < i ==> ms@[j] != m,
        decreases ms@.len() - i,
    {
        if ms[i] == m {
            assert(ms@[i as int] == m);
            return true;
        }
        i = i + 1;
    }
    false
}

impl ChildHandler {
    /// A record for tests; the same as `new`.
    pub fn new_test(token: &mio::Token) -> (r: ChildHandler)
        ensures
            r@ == fresh_handler(token.0),
    {
        ChildHandler::new(token)
    }

    /// A fresh record for an accepted client connection.
    pub fn new(token: &mio::Token) -> (r: ChildHandler)
        ensures
            r@ == fresh_handler(token.0),
    {
        ChildHandler {
            token: mio::Token(token.0),
            stage: ServerStage::Init,
            receive_buffer: Vec::new(),
            send_buffer: Vec::new(),
            dst_token: None,
            dst_receive_buffer: Vec::new(),
            dst_send_buffer: Vec::new(),
            proxy_inited: false,
            forward: false,
            mode: RelayMode::Raw,
        }
    }

    /// Drives the handshake one step on the bytes received so far.
    pub fn handle(&mut self) -> (r: Result<Action, HandlerError>)
        ensures
            old(self)@.stage == ServerStage::Init ==> match init_outcome(old(self)@.receive) {
                Err(e) => r == Err::<Action, _>(e) && final(self)@ == old(self)@,
                Ok(None) => r == Ok::<_, HandlerError>(Action::Wait) && final(self)@ == old(self)@,
                Ok(Some(req)) => r == Ok::<_, HandlerError>(Action::Reply(2)) && final(self)@ == (HandlerView {
                    stage: ServerStage::AuthSelectFinish,
                    receive: old(self)@.receive.subrange(2 + req.n_methods, old(self)@.receive.len() as int),
                    send: old(self)@.send + seq![5u8, auth_type_code(chosen_method(req.methods)->0)->0],
                    ..old(self)@
                }),
            },
            old(self)@.stage == ServerStage::AuthSelectFinish ==> match dst_request_outcome(old(self)@.receive) {
                Err(e) => r == Err::<Action, _>(e) && final(self)@ == old(self)@,
                Ok(None) => r == Ok::<_, HandlerError>(Action::Wait) && final(self)@ == old(self)@,
                Ok(Some((req, l))) => if req.cmd == CmdType::Connect {
                    r matches Ok(Action::Connect(t)) && t.address_type == req.address_type && t.address@
                        == req.address && t.port == req.port && final(self)@ == old(self)@
                } else {
                    dst_reply_step(old(self)@, final(self)@, ReplyType::CmdNotSupport, r)
                },
            },
            old(self)@.stage == ServerStage::RequestFinish ==> r == Ok::<_, HandlerError>(Action::Relay)
                && final(self)@ == old(self)@,
            (old(self)@.stage == ServerStage::ReceiveContent || old(self)@.stage == ServerStage::ContentFinish)
                ==> r == Ok::<_, HandlerError>(Action::Wait) && final(self)@ == old(self)@,
    {
        match self.stage {
            ServerStage::Init => {
                match self.handle_init_stage()? {
                    Some(size) => {
                        self.stage = ServerStage::AuthSelectFinish;
                        Ok(Action::Reply(size))
                    },
                    None => Ok(Action::Wait),
                }
            },
            ServerStage::AuthSelectFinish => {
                let request = match self.parse_dst_request()? {
                    Some(req) => req,
                    None => return Ok(Action::Wait),
                };
                match request.cmd {
                    CmdType::Connect => Ok(
                        Action::Connect(
                            DstTarget {
                                address_type: request.address_type,
                                address: request.address,
                                port: request.port,
                            },
                        ),
                    ),
                    _ => match self.handle_dst_request(ReplyType::CmdNotSupport)? {
                        Some(size) => Ok(Action::Reply(size)),
                        None => Ok(Action::Wait),
                    },
                }
            },
            ServerStage::RequestFinish => Ok(Action::Relay),
            ServerStage::ReceiveContent => Ok(Action::Wait),
            ServerStage::ContentFinish => Ok(Action::Wait),
        }
    }

    /// Back to stage `Init`.
    pub fn reset(&mut self)
        ensures
            final(self)@ == (HandlerView { stage: ServerStage::Init, ..old(self)@ }),
    {
        self.stage = ServerStage::Init;
    }

    /// Answers a complete auth-select request: queues `[5, method]` for the
    /// client and drops the request's `2 + n` bytes. The stage is left to
    /// `handle`.
    pub fn handle_init_stage(&mut self) -> (r: Result<Option<usize>, HandlerError>)
        ensures
            match init_outcome(old(self)@.receive) {
                Err(e) => r == Err::<Option<usize>, _>(e) && final(self)@ == old(self)@,
                Ok(None) => r == Ok::<_, HandlerError>(None::<usize>) && final(self)@ == old(self)@,
                Ok(Some(req)) => r == Ok::<_, HandlerError>(Some(2usize)) && final(self)@ == (HandlerView {
                    receive: old(self)@.receive.subrange(2 + req.n_methods, old(self)@.receive.len() as int),
                    send: old(self)@.send + seq![5u8, auth_type_code(chosen_method(req.methods)->0)->0],
                    ..old(self)@
                }),
            },
    {
        let request = match self.parse_auth_select_request()? {
            Some(request) => request,
            None => return Ok(None),
        };
        if request.version != Version::Socks5 {
            return Err(HandlerError::UnsupportedVersion);
        }
        let n_methods = request.n_methods;
        if n_methods == 0 {
            return Err(HandlerError::NoAuthMethod);
        }
        let auth_type = if has_method(&request.methods, AuthType::NamePassword) {
            AuthType::NamePassword
        } else if has_method(&request.methods, AuthType::Non) {
            AuthType::Non
        } else {
            return Err(HandlerError::NoAcceptableMethod);
        };
        let reply = AuthSelectReply::new(Version::Socks5, auth_type);
        let data = match encode_auth_select_reply(&reply) {
            Ok(d) => d,
            Err(e) => return Err(HandlerError::Codec(e)),
        };
        self.clear_receive_buffer(2 + n_methods as usize);
        let size = self.write_to_buffer(data, false);
        Ok(Some(size))
    }

    /// The auth-select request in the receive buffer: `Ok(None)` while it is incomplete.
    pub fn parse_auth_select_request(&self) -> (r: Result<Option<AuthSelectRequest>, HandlerError>)
        ensures
            match decode_auth_select_request(self@.receive) {
                Err(CodecError::DataIncomplete) => r matches Ok(None),
                Err(e) => r == Err::<Option<AuthSelectRequest>, _>(HandlerError::Codec(e)),
                Ok(v) => r matches Ok(Some(req)) && req@ == v,
            },
    {
        match parse_auth_select_request_packet(self.receive_buffer.as_slice()) {
            Ok(request) => Ok(Some(request)),
            Err(CodecError::DataIncomplete) => Ok(None),
            Err(e) => Err(HandlerError::Codec(e)),
        }
    }

    /// The destination request in the receive buffer, checked to be SOCKS5:
    /// `Ok(None)` while it is incomplete.
    pub fn parse_dst_request(&self) -> (r: Result<Option<DstServiceRequest>, HandlerError>)
        ensures
            match dst_request_outcome(self@.receive) {
                Err(e) => r == Err::<Option<DstServiceRequest>, _>(e),
                Ok(None) => r matches Ok(None),
                Ok(Some((v, _))) => r matches Ok(Some(req)) && req@ == v,
            },
    {
        match parse_dst_service_request(self.receive_buffer.as_slice()) {
            Ok((request, _)) => {
                if request.version != Version::Socks5 {
                    return Err(HandlerError::UnsupportedVersion);
                }
                Ok(Some(request))
            },
            Err(CodecError::DataIncomplete) => Ok(None),
            Err(e) => Err(HandlerError::Codec(e)),
        }
    }

    /// Answers the destination request with `reply` (the outcome of the
    /// connect, or `CmdNotSupport`): queues the encoded reply for the client,
    /// drops the request's `address length + 6` bytes and moves to
    /// `RequestFinish`. `Ok(None)` while the request is incomplete.
    pub fn handle_dst_request(&mut self, reply: ReplyType) -> (r: Result<Option<usize>, HandlerError>)
        ensures
            dst_reply_step_opt(old(self)@, final(self)@, reply, r),
    {
        let (request, address_len) = match parse_dst_service_request(self.receive_buffer.as_slice()) {
            Ok(p) => p,
            Err(CodecError::DataIncomplete) => return Ok(None),
            Err(e) => return Err(HandlerError::Codec(e)),
        };
        if request.version != Version::Socks5 {
            return Err(HandlerError::UnsupportedVersion);
        }
        let dst_reply = DstServiceReply::new(
            Version::Socks5,
            reply,
            request.address_type,
            request.address,
            request.port,
        );
        let data = match encode_dst_service_reply(dst_reply) {
            Ok(d) => d,
            Err(e) => return Err(HandlerError::Codec(e)),
        };
        self.clear_receive_buffer(address_len + 6);
        let size = self.write_to_buffer(data, false);
        self.stage = ServerStage::RequestFinish;
        Ok(Some(size))
    }

    /// Drops the first `size` received bytes.
    pub fn clear_receive_buffer(&mut self, size: usize)
        requires
            size <= old(self)@.receive.len(),
        ensures
            final(self)@ == (HandlerView {
                receive: old(self)@.receive.subrange(size as int, old(self)@.receive.len() as int),
                ..old(self)@
            }),
    {
        self.receive_buffer = copy_range(self.receive_buffer.as_slice(), size, self.receive_buffer.len());
    }

    /// Empties the client (or the destination) send buffer.
    pub fn clear_send_buffer(&mut self, is_proxy: bool)
        ensures
            !is_proxy ==> final(self)@ == (HandlerView { send: Seq::empty(), ..old(self)@ }),
            is_proxy ==> final(self)@ == (HandlerView { dst_send: Seq::empty(), ..old(self)@ }),
    {
        if is_proxy {
            self.dst_send_buffer.clear();
        } else {
            self.send_buffer.clear();
        }
    }

    /// Queues bytes for the client (or the destination); the number queued.
    pub fn write_to_buffer(&mut self, data: Vec<u8>, is_proxy: bool) -> (r: usize)
        ensures
            r == data@.len(),
            !is_proxy ==> final(self)@ == (HandlerView { send: old(self)@.send + data@, ..old(self)@ }),
            is_proxy ==> final(self)@ == (HandlerView { dst_send: old(self)@.dst_send + data@, ..old(self)@ }),
    {
        if is_proxy {
            append(&mut self.dst_send_buffer, data.as_slice());
        } else {
            append(&mut self.send_buffer, data.as_slice());
        }
        data.len()
    }

    /// Appends one byte read from the client (or the destination).
    pub fn receive_u8_data(&mut self, data: u8, is_proxy: bool) -> (r: usize)
        ensures
            r == 1,
            !is_proxy ==> final(self)@ == (HandlerView { receive: old(self)@.receive.push(data), ..old(self)@ }),
            is_proxy ==> final(self)@ == (HandlerView {
                dst_receive: old(self)@.dst_receive.push(data),
                ..old(self)@
            }),
    {
        if is_proxy {
            self.dst_receive_buffer.push(data);
        } else {
            self.receive_buffer.push(data);
        }
        1
    }

    /// Appends a chunk read from the client (or the destination).
    pub fn receive_data(&mut self, data: &[u8], is_proxy: bool)
        ensures
            !is_proxy ==> final(self)@ == (HandlerView { receive: old(self)@.receive + data@, ..old(self)@ }),
            is_proxy ==> final(self)@ == (HandlerView { dst_receive: old(self)@.dst_receive + data@, ..old(self)@ }),
    {
        if is_proxy {
            append(&mut self.dst_receive_buffer, data);
        } else {
            append(&mut self.receive_buffer, data);
        }
    }

    /// The bytes waiting to be written to the client (or the destination).
    pub fn pending_output(&self, is_proxy: bool) -> (r: &[u8])
        ensures
            !is_proxy ==> r@ == self@.send,
            is_proxy ==> r@ == self@.dst_send,
    {
        if is_proxy {
            self.dst_send_buffer.as_slice()
        } else {
            self.send_buffer.as_slice()
        }
    }

    /// Drops the first `size` bytes of a send buffer, once they are written.
    pub fn clear_send_buffer_with_size(&mut self, size: usize, is_proxy: bool)
        requires
            !is_proxy ==> size <= old(self)@.send.len(),
            is_proxy ==> size <= old(self)@.dst_send.len(),
        ensures
            !is_proxy ==> final(self)@ == (HandlerView {
                send: old(self)@.send.subrange(size as int, old(self)@.send.len() as int),
                ..old(self)@
            }),
            is_proxy ==> final(self)@ == (HandlerView {
                dst_send: old(self)@.dst_send.subrange(size as int, old(self)@.dst_send.len() as int),
                ..old(self)@
            }),
    {
        if is_proxy {
            self.dst_send_buffer = copy_range(self.dst_send_buffer.as_slice(), size, self.dst_send_buffer.len());
        } else {
            self.send_buffer = copy_range(self.send_buffer.as_slice(), size, self.send_buffer.len());
        }
    }

    /// Whether the destination request is awaited.
    pub fn before_dst_request(&self) -> (r: bool)
        ensures
            r == (self@.stage == ServerStage::AuthSelectFinish),
    {
        self.stage == ServerStage::AuthSelectFinish
    }

    /// Whether content is being received.
    pub fn after_dst_request(&self) -> (r: bool)
        ensures
            r == (self@.stage == ServerStage::ReceiveContent),
    {
        self.stage == ServerStage::ReceiveContent
    }

    pub fn stage(&self) -> (r: ServerStage)
        ensures
            r == self@.stage,
    {
        self.stage
    }

    pub fn get_token(&self) -> (r: &mio::Token)
        ensures
            r.0 == self@.token,
    {
        &self.token
    }

    pub fn is_dst_token_empty(&self) -> (r: bool)
        ensures
            r == (self@.dst_token is None),
    {
        self.dst_token.is_none()
    }

    /// Pairs the record with its destination connection; this happens once.
    pub fn set_dst_token(&mut self, token: mio::Token)
        requires
            old(self)@.dst_token is None,
        ensures
            final(self)@ == (HandlerView { dst_token: Some(token.0), ..old(self)@ }),
    {
        self.dst_token = Some(token);
    }

    pub fn get_dst_token(&self) -> (r: Option<&mio::Token>)
        ensures
            match self@.dst_token {
                Some(t) => r matches Some(x) && x.0 == t,
                None => r is None,
            },
    {
        match &self.dst_token {
            Some(t) => Some(t),
            None => None,
        }
    }

    /// Whether the destination send buffer holds bytes.
    pub fn dst_send_buffer_empty(&self) -> (r: bool)
        ensures
            r == (self@.dst_send.len() > 0),
    {
        self.dst_send_buffer.len() > 0
    }

    pub fn proxy_inited(&self) -> (r: bool)
        ensures
            r == self@.proxy_inited,
    {
        self.proxy_inited
    }

    /// Whether bytes are relayed between the legs.
    pub fn forward_to_proxy(&self) -> (r: bool)
        ensures
            r == self@.forward,
    {
        self.forward
    }

    /// Latches relaying on once the destination request is answered.
    pub fn try_enable_forward(&mut self)
        ensures
            old(self)@.stage == ServerStage::RequestFinish ==> final(self)@ == (HandlerView {
                forward: true,
                ..old(self)@
            }),
            old(self)@.stage != ServerStage::RequestFinish ==> final(self)@ == old(self)@,
    {
        if self.stage == ServerStage::RequestFinish {
            self.forward = true;
        }
    }

    pub fn set_proxy_inited(&mut self, inited: bool)
        ensures
            final(self)@ == (HandlerView { proxy_inited: inited, ..old(self)@ }),
    {
        self.proxy_inited = inited;
    }

    /// Same as `set_dst_token`.
    pub fn set_proxy_token(&mut self, dst_token: mio::Token)
        requires
            old(self)@.dst_token is None,
        ensures
            final(self)@ == (HandlerView { dst_token: Some(dst_token.0), ..old(self)@ }),
    {
        self.set_dst_token(dst_token);
    }

    pub fn relay_mode(&self) -> (r: RelayMode)
        ensures
            r == self@.mode,
    {
        self.mode
    }

    /// Chooses how bytes are relayed.
    pub fn set_relay_mode(&mut self, mode: RelayMode)
        ensures
            final(self)@ == (HandlerView { mode, ..old(self)@ }),
    {
        self.mode = mode;
    }

    /// Moves every byte received from the client to the destination send buffer.
    pub fn move_to_proxy(&mut self)
        ensures
            final(self)@ == (HandlerView {
                dst_send: old(self)@.dst_send + old(self)@.receive,
                receive: Seq::empty(),
                ..old(self)@
            }),
    {
        append(&mut self.dst_send_buffer, self.receive_buffer.as_slice());
        self.receive_buffer.clear();
    }

    /// Moves every byte received from the destination to the client send buffer.
    pub fn move_to_client(&mut self)
        ensures
            final(self)@ == (HandlerView {
                send: old(self)@.send + old(self)@.dst_receive,
                dst_receive: Seq::empty(),
                ..old(self)@
            }),
    {
        append(&mut self.send_buffer, self.dst_receive_buffer.as_slice());
        self.dst_receive_buffer.clear();
    }

    /// Moves the request at the head of the client bytes to the destination
    /// send buffer once it is complete; the number of bytes moved.
    pub fn move_request_to_proxy(&mut self) -> (r: Result<usize, HandlerError>)
        ensures
            match http_end(old(self)@.receive, PacketType::Request, false) {
                Err(e) => r == Err::<usize, _>(HandlerError::Http(e)) && final(self)@ == old(self)@,
                Ok(HttpResult::DataNotEnough) => r == Ok::<_, HandlerError>(0usize) && final(self)@ == old(
                    self,
                )@,
                Ok(HttpResult::End(n)) => r == Ok::<_, HandlerError>(n) && n <= old(self)@.receive.len()
                    && final(self)@ == (HandlerView {
                    dst_send: old(self)@.dst_send + old(self)@.receive.subrange(0, n as int),
                    receive: old(self)@.receive.subrange(n as int, old(self)@.receive.len() as int),
                    ..old(self)@
                }),
            },
    {
        match get_end_of_http_packet(self.receive_buffer.as_slice(), PacketType::Request, false) {
            Err(e) => Err(HandlerError::Http(e)),
            Ok(HttpResult::DataNotEnough) => Ok(0),
            Ok(HttpResult::End(n)) => {
                append(&mut self.dst_send_buffer, &self.receive_buffer.as_slice()[0..n]);
                self.receive_buffer = copy_range(self.receive_buffer.as_slice(), n, self.receive_buffer.len());
                Ok(n)
            },
        }
    }
}

/// `post` and `r` are what answering the destination request in `pre` with
/// `reply` gives.
pub open spec fn dst_reply_step(pre: HandlerView, post: HandlerView, reply: ReplyType, r: Result<Action, HandlerError>) -> bool {
    match dst_request_outcome(pre.receive) {
        Err(e) => r == Err::<Action, _>(e) && post == pre,
        Ok(None) => r == Ok::<_, HandlerError>(Action::Wait) && post == pre,
        Ok(Some((req, l))) => match encode_dst_service_reply_spec(dst_reply_of(req, reply)) {
            Err(e) => r == Err::<Action, _>(HandlerError::Codec(e)) && post == pre,
            Ok(bytes) => r == Ok::<_, HandlerError>(Action::Reply(bytes.len() as usize)) && post == (HandlerView {
                stage: ServerStage::RequestFinish,
                receive: pre.receive.subrange(l + 6, pre.receive.len() as int),
                send: pre.send + bytes,
                ..pre
            }),
        },
    }
}

/// As `dst_reply_step`, for `handle_dst_request`'s result.
pub open spec fn dst_reply_step_opt(pre: HandlerView, post: HandlerView, reply: ReplyType, r: Result<Option<usize>, HandlerError>) -> bool {
    match dst_request_outcome(pre.receive) {
        Err(e) => r == Err::<Option<usize>, _>(e) && post == pre,
        Ok(None) => r == Ok::<_, HandlerError>(None::<usize>) && post == pre,
        Ok(Some((req, l))) => match encode_dst_service_reply_spec(dst_reply_of(req, reply)) {
            Err(e) => r == Err::<Option<usize>, _>(HandlerError::Codec(e)) && post == pre,
            Ok(bytes) => r == Ok::<_, HandlerError>(Some(bytes.len() as usize)) && post == (HandlerView {
                stage: ServerStage::RequestFinish,
                receive: pre.receive.subrange(l + 6, pre.receive.len() as int),
                send: pre.send + bytes,
                ..pre
            }),
        },
    }
}

} // verus!
