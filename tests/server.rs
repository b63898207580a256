use mio::Token;
use socks5_proxy::http::HttpError;
use socks5_proxy::packet::{AddressType, CodecError, ReplyType, ServerStage};
use socks5_proxy::server::{Action, ChildHandler, DstTarget, HandlerError, RelayMode};
use socks5_proxy::tokens::Tokens;

#[test]
fn handle_init_test() {
    let mut child_handler = ChildHandler::new_test(&Token(0));
    child_handler.receive_u8_data(5, false);
    child_handler.receive_u8_data(1, false);
    child_handler.receive_u8_data(0, false);

    let size = child_handler.handle_init_stage();

    match size {
        Ok(Some(len)) => {
            assert_eq!(2, len);
        }
        _ => unreachable!()
    }
}

#[test]
fn set_token_success() {
    let mut child_handler = ChildHandler::new_test(&Token(0));

    child_handler.set_dst_token(Token(1));

    let token = child_handler.get_dst_token();

    match token.as_ref() {
        Some(t) => assert_eq!(1, t.0),
        _ => unreachable!()
    }
}

#[test]
fn is_dst_token_empty_true() {
    let child_handler = ChildHandler::new_test(&Token(0));
    let empty = child_handler.is_dst_token_empty();

    assert_eq!(empty, true);
}

#[test]
fn is_dst_token_empty_false() {
    let mut child_handler = ChildHandler::new_test(&Token(0));
    child_handler.set_dst_token(Token(1));
    let empty = child_handler.is_dst_token_empty();

    assert_eq!(empty, false);
}

#[test]
fn test_generate_token() {
    let mut tokens = Tokens::new();
    let token = tokens.next();

    assert_eq!(Token(1), token);
}

// ---------------------------------------------------------------------------

#[test]
fn tokens_increase_by_one() {
    let mut tokens = Tokens::new();
    assert_eq!(Token(1), tokens.next());
    assert_eq!(Token(2), tokens.next());
    assert_eq!(Token(3), tokens.next());
}

#[test]
fn handshake_end_to_end() {
    let mut handler = ChildHandler::new(&Token(7));
    handler.receive_data(&[5, 1, 0], false);
    assert_eq!(Ok(Action::Reply(2)), handler.handle());
    assert_eq!(ServerStage::AuthSelectFinish, handler.stage());
    assert_eq!(&[5u8, 0][..], handler.pending_output(false));
    handler.clear_send_buffer_with_size(2, false);

    // CONNECT 127.0.0.1:8080, the port low byte first.
    handler.receive_data(&[5, 1, 0, 1, 127, 0, 0, 1, 0x90, 0x1f], false);
    let target = match handler.handle() {
        Ok(Action::Connect(t)) => t,
        other => panic!("unexpected {:?}", other),
    };
    assert_eq!(DstTarget { address_type: AddressType::Ipv4, address: "127.0.0.1".to_string(), port: 8080 }, target);
    assert!(handler.before_dst_request());

    assert_eq!(Ok(Some(10)), handler.handle_dst_request(ReplyType::Success));
    assert_eq!(ServerStage::RequestFinish, handler.stage());
    assert_eq!(&[5u8, 0, 0, 1, 127, 0, 0, 1, 0x90, 0x1f][..], handler.pending_output(false));

    assert!(!handler.forward_to_proxy());
    handler.try_enable_forward();
    assert!(handler.forward_to_proxy());
    assert_eq!(Ok(Action::Relay), handler.handle());
}

#[test]
fn failed_connect_is_reported() {
    let mut handler = ChildHandler::new(&Token(1));
    handler.receive_data(&[5, 1, 0], false);
    handler.handle().unwrap();
    handler.receive_data(&[5, 1, 0, 3, 3, 97, 46, 98, 1, 0], false);
    match handler.handle() {
        Ok(Action::Connect(t)) => {
            assert_eq!(AddressType::Domain, t.address_type);
            assert_eq!("a.b", t.address);
            assert_eq!(1, t.port);
        }
        other => panic!("unexpected {:?}", other),
    }
    assert_eq!(Ok(Some(10)), handler.handle_dst_request(ReplyType::Others));
    assert_eq!(&[5u8, 0, 5, 9, 0, 3, 3, 97, 46, 98, 1, 0][..], handler.pending_output(false));
}

#[test]
fn bind_command_is_refused_with_reply() {
    let mut handler = ChildHandler::new(&Token(1));
    handler.receive_data(&[5, 1, 0], false);
    handler.handle().unwrap();
    handler.clear_send_buffer(false);
    handler.receive_data(&[5, 2, 0, 1, 1, 2, 3, 4, 0, 1, 42], false);
    assert_eq!(Ok(Action::Reply(10)), handler.handle());
    assert_eq!(&[5u8, 7, 0, 1, 1, 2, 3, 4, 0, 1][..], handler.pending_output(false));
    assert_eq!(ServerStage::RequestFinish, handler.stage());
    // the byte after the request stays for the relay
    handler.move_to_proxy();
    assert_eq!(&[42u8][..], handler.pending_output(true));
}

#[test]
fn name_password_preferred() {
    let mut handler = ChildHandler::new(&Token(1));
    handler.receive_data(&[5, 2, 0, 2, 99], false);
    assert_eq!(Ok(Action::Reply(2)), handler.handle());
    assert_eq!(&[5u8, 2][..], handler.pending_output(false));
    // only the 2 + n bytes of the request are consumed
    handler.move_to_proxy();
    assert_eq!(&[99u8][..], handler.pending_output(true));
}

#[test]
fn incomplete_requests_wait() {
    let mut handler = ChildHandler::new(&Token(1));
    handler.receive_data(&[5, 2, 0], false);
    assert_eq!(Ok(Action::Wait), handler.handle());
    assert_eq!(ServerStage::Init, handler.stage());
    handler.receive_data(&[2], false);
    assert_eq!(Ok(Action::Reply(2)), handler.handle());
    handler.receive_data(&[5, 1, 0, 1, 1, 2], false);
    assert_eq!(Ok(Action::Wait), handler.handle());
    assert_eq!(ServerStage::AuthSelectFinish, handler.stage());
}

#[test]
fn handler_errors() {
    let mut zero = ChildHandler::new(&Token(1));
    zero.receive_data(&[5, 0], false);
    let err = zero.handle().unwrap_err();
    assert_eq!(HandlerError::NoAuthMethod, err);
    assert_eq!("non auth method is specified.", err.message());
    assert_eq!(ServerStage::Init, zero.stage());

    let mut old = ChildHandler::new(&Token(1));
    old.receive_data(&[4, 1, 0], false);
    assert_eq!(Err(HandlerError::UnsupportedVersion), old.handle());

    let mut gss = ChildHandler::new(&Token(1));
    gss.receive_data(&[5, 1, 1], false);
    assert_eq!(Err(HandlerError::NoAcceptableMethod), gss.handle());

    let mut bad = ChildHandler::new(&Token(1));
    bad.receive_data(&[5, 1, 9], false);
    assert_eq!(Err(HandlerError::Codec(CodecError::UnsupportedAuthMethod)), bad.handle());

    let mut v6 = ChildHandler::new(&Token(1));
    v6.receive_data(&[5, 1, 0], false);
    v6.handle().unwrap();
    v6.receive_data(&[5, 1, 0, 4, 0, 0, 0, 0, 0, 0, 0, 0, 0, 0, 0, 0, 0, 0, 0, 1, 0, 80], false);
    assert_eq!(Err(HandlerError::Codec(CodecError::UnsupportedAddressType)), v6.handle());

    let mut v4 = ChildHandler::new(&Token(1));
    v4.receive_data(&[5, 1, 0], false);
    v4.handle().unwrap();
    v4.receive_data(&[4, 1, 0, 1, 1, 2, 3, 4, 0, 80], false);
    assert_eq!(Err(HandlerError::UnsupportedVersion), v4.handle());
}

#[test]
fn buffers_move_between_legs() {
    let mut handler = ChildHandler::new(&Token(3));
    handler.receive_u8_data(1, false);
    handler.receive_data(&[2, 3], false);
    handler.receive_data(&[9, 8], true);
    handler.move_to_proxy();
    handler.move_to_client();
    assert_eq!(&[1u8, 2, 3][..], handler.pending_output(true));
    assert_eq!(&[9u8, 8][..], handler.pending_output(false));
    assert!(handler.dst_send_buffer_empty());
    handler.clear_send_buffer_with_size(2, true);
    assert_eq!(&[3u8][..], handler.pending_output(true));
    assert_eq!(3, handler.write_to_buffer(vec![4, 5, 6], true));
    assert_eq!(&[3u8, 4, 5, 6][..], handler.pending_output(true));
    handler.clear_send_buffer(true);
    assert!(!handler.dst_send_buffer_empty());
    handler.receive_data(&[1, 2, 3, 4], false);
    handler.clear_receive_buffer(3);
    handler.move_to_proxy();
    assert_eq!(&[4u8][..], handler.pending_output(true));
}

#[test]
fn http_relay_moves_whole_requests_only() {
    let mut handler = ChildHandler::new(&Token(3));
    handler.set_relay_mode(RelayMode::HttpMessage);
    let first = b"GET / HTTP/1.1\r\nHost: a\r\n\r\n";
    handler.receive_data(first, false);
    handler.receive_data(b"GET /2 HTTP/1.1\r\n", false);
    assert_eq!(Ok(first.len()), handler.move_request_to_proxy());
    assert_eq!(&first[..], handler.pending_output(true));
    assert_eq!(Ok(0), handler.move_request_to_proxy());
    handler.receive_data(b"Bad header\r\n\r\n", false);
    assert_eq!(Err(HandlerError::Http(HttpError::HeaderFormat)), handler.move_request_to_proxy());
}

#[test]
fn stage_flags_and_reset() {
    let mut handler = ChildHandler::new(&Token(5));
    assert_eq!(5, handler.get_token().0);
    assert!(!handler.proxy_inited());
    handler.set_proxy_inited(true);
    assert!(handler.proxy_inited());
    assert!(!handler.after_dst_request());
    handler.try_enable_forward();
    assert!(!handler.forward_to_proxy());
    handler.receive_data(&[5, 1, 0], false);
    handler.handle().unwrap();
    handler.reset();
    assert_eq!(ServerStage::Init, handler.stage());
    handler.set_proxy_token(Token(6));
    assert_eq!(Some(&Token(6)), handler.get_dst_token());
}

#[test]
fn tokens_report_last_and_exhaustion() {
    let mut tokens = Tokens::new();
    assert_eq!(0, tokens.last_exec());
    assert!(!tokens.exhausted());
    tokens.next();
    assert_eq!(1, tokens.last_exec());
}

#[test]
fn relay_mode_defaults_to_raw() {
    let mut handler = ChildHandler::new(&Token(2));
    assert_eq!(RelayMode::Raw, handler.relay_mode());
    handler.set_relay_mode(RelayMode::HttpMessage);
    assert_eq!(RelayMode::HttpMessage, handler.relay_mode());
}
