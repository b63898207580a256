use socks5_proxy::packet::{
    encode_address_as_domain, encode_address_for_ipv4, encode_address_with_type, encode_auth_select_reply,
    encode_auth_select_request, encode_dst_service_reply, encode_dst_service_request, get_domain_from_bytes,
    get_ipv4_from_bytes, get_ipv6_from_bytes, get_port, parse_auth_select_reply_packet,
    parse_auth_select_request_packet, parse_dst_address, parse_dst_service_reply, parse_dst_service_request,
    parse_len_and_string, parse_string_from_bytes, parse_user_auth_reply, parse_user_auth_request,
    parse_version, AddressType, AuthResult, AuthSelectReply, AuthSelectRequest, AuthType, CmdType, CodecError,
    DstServiceReply, DstServiceRequest, ReplyType, SubVersion, Version,
};
use socks5_proxy::packet::AddressType::{Domain, Ipv4};

#[test]
fn parse_version_socks5_success() {
    let num = Some(5);

    let version = parse_version(num);

    match version {
        Ok(v) => assert_eq!(v, Version::Socks5),
        Err(_) => unreachable!()
    }
}

#[test]
fn parse_version_others_success() {
    let num = Some(4);

    let version = parse_version(num);

    match version {
        Ok(v) => assert_eq!(v, Version::Others),
        Err(_) => unreachable!()
    }
}

#[test]
fn parse_version_failed() {
    let num = None;

    let version = parse_version(num);

    match version {
        Ok(v) => assert_eq!(v, Version::Others),
        Err(e) => assert_eq!("empty version num.", e.message())
    }
}

#[test]
fn parse_ipv4_from_bytes_success() {
    let bytes = [49, 50, 55, 46, 48, 46, 48, 46, 49];
    let address = get_ipv4_from_bytes(&bytes);

    match address {
        Ok(addr) => assert_eq!("49.50.55.46", addr),
        Err(e) => assert_eq!("err from bytes to utf8 string.", e.message())
    }
}

#[test]
fn parse_domain_from_bytes_success() {
    let bytes = [49, 50, 55, 46, 48, 46, 48, 46, 49];
    let result = get_domain_from_bytes(&bytes);

    match result {
        Ok(address) => {
            assert_eq!("127.0.0.1", address);
        }

        Err(_) => unreachable!()
    }
}

#[test]
fn get_port_success() {
    let bytes = [1, 2];
    let result = get_port(&bytes);

    match result {
        Ok(address) => {
            assert_eq!(513, address);
        }

        Err(_) => unreachable!()
    }
}

#[test]
fn get_dst_ipv4_address_success() {
    let bytes = [49, 50, 55, 46, 1, 2];
    let result = parse_dst_address(&bytes, &Ipv4);

    match result {
        Ok((address, port)) => {
            assert_eq!("49.50.55.46", address);
            assert_eq!(513, port);
        }

        Err(_) => unreachable!()
    }
}

#[test]
fn get_dst_domain_address_success() {
    let bytes = [13, 119, 119,
        119, 46, 98, 97, 105, 100, 117, 46, 99, 111, 109, 1, 1];

    let result = parse_dst_address(&bytes, &Domain);

    match result {
        Ok((address, port)) => {
            assert_eq!("www.baidu.com", address);
            assert_eq!(257, port);
        }
        Err(_) => unreachable!()
    }
}

#[test]
fn parse_len_and_string_success() {
    let bytes = [13, 109, 105, 111, 45, 97, 110, 100, 45, 116, 111, 107, 105, 111];

    let result = parse_len_and_string(&bytes);

    match result {
        Ok((len, name)) => {
            assert_eq!(13 as u8, len);
            assert_eq!("mio-and-tokio", name);
        }

        _ => unreachable!()
    }
}

#[test]
fn parse_len_and_string_failed() {
    let bytes: [u8; 0] = [];

    let result = parse_len_and_string(&bytes);

    match result {
        Ok((len, name)) => {
            assert_eq!(13 as u8, len);
            assert_eq!("mio-and-tokio", name);
        }

        Err(msg) => assert_eq!("data is not enough.", msg.message())
    }
}

#[test]
fn parse_user_auth_request_success() {
    let bytes = [0, 13, 109, 105, 111, 45, 97, 110, 100, 45, 116, 111, 107, 105, 111
        , 6, 49, 50, 51, 52, 53, 54];

    let result = parse_user_auth_request(&bytes);

    match result {
        Ok(request) => {
            assert_eq!(SubVersion::V0, *request.version());
            assert_eq!(13 as u8, request.u_len());
            assert_eq!("mio-and-tokio", request.name());
            assert_eq!(6, request.p_len());
            assert_eq!("123456", request.password());
        }

        _ => unreachable!()
    }
}

#[test]
fn parse_user_auth_reply_success() {
    let bytes = [0, 0];

    let result = parse_user_auth_reply(&bytes);

    match result {
        Ok(reply) => {
            assert_eq!(SubVersion::V0, *reply.version());
            assert_eq!(AuthResult::Success, *reply.status());
        }

        _ => unreachable!()
    }
}

#[test]
fn encode_auth_select_reply_success() {
    let reply =
        AuthSelectReply::new(Version::Socks5, AuthType::Non);
    let data = encode_auth_select_reply(&reply);

    match data {
        Ok(buffer) => {
            let bytes = buffer.as_slice();
            assert_eq!(5, bytes[0]);
            assert_eq!(0, bytes[1]);
        }
        _ => unreachable!()
    }
}

#[test]
fn encode_auth_select_reply_success_failed() {
    let reply =
        AuthSelectReply::new(Version::Socks5, AuthType::Non);

    let data = encode_auth_select_reply(&reply);

    match data {
        Ok(buffer) => {
            let bytes = buffer.as_slice();
            assert_eq!(5, bytes[0]);
            assert_eq!(0, bytes[1]);
        }
        Err(err) => assert_eq!("proxy only support version 5.", err.message())
    }
}

#[test]
fn encode_dst_service_reply_success() {
    let reply = DstServiceReply::new(Version::Socks5
                                     , ReplyType::Success, AddressType::Ipv4
                                     , "127.0.0.1".to_string(), 1024);

    let data = encode_dst_service_reply(reply);

    match data {
        Ok(buffer) => {
            let bytes = buffer.as_slice();
            println!("bytes:{:?}", bytes);
            assert_eq!(5, bytes[0]);
            assert_eq!(0, bytes[1]);
            assert_eq!(0, bytes[2]);
            assert_eq!(1, bytes[3]);
            assert_eq!(127, bytes[4]);
            assert_eq!(0, bytes[5]);
            assert_eq!(0, bytes[6]);
            assert_eq!(1, bytes[7]);
            assert_eq!(0, bytes[8]);
            assert_eq!(4, bytes[9]);
        }

        Err(_) => unreachable!()
    }
}

#[test]
fn encode_auth_select_request_success() {
    let mut auth_types = Vec::<AuthType>::new();
    auth_types.push(AuthType::Non);
    auth_types.push(AuthType::NamePassword);
    let request = AuthSelectRequest::new(Version::Socks5
                                         , 2, auth_types);

    let data = encode_auth_select_request(request);

    match data {
        Ok(buffer) => {
            let bytes = buffer.as_slice();
            assert_eq!(5, bytes[0]);
            assert_eq!(2, bytes[1]);
            assert_eq!(0, bytes[2]);
            assert_eq!(2, bytes[3]);
        }

        _ => unreachable!()
    }
}

#[test]
fn encode_dst_service_request_success() {
    let request = DstServiceRequest::new(
        Version::Socks5, CmdType::Connect, 0
        , AddressType::Ipv4, "127.0.0.1".to_string(), 1025);

    let data = encode_dst_service_request(request);

    match data {
        Ok(buffer) => {
            let bytes = buffer.as_slice();
            println!("bytes:{:?}", bytes);
            assert_eq!(5, bytes[0]);
            assert_eq!(1, bytes[1]);
            assert_eq!(0, bytes[2]);
            assert_eq!(1, bytes[3]);
            assert_eq!(127, bytes[4]);
            assert_eq!(0, bytes[5]);
            assert_eq!(0, bytes[6]);
            assert_eq!(1, bytes[7]);
            assert_eq!(1, bytes[8]);
            assert_eq!(4, bytes[9]);
        }

        _ => unreachable!()
    }
}

#[test]
fn encode_dst_request_with_domain_success() {
    let request = DstServiceRequest::new(
        Version::Socks5, CmdType::Connect, 0
        , AddressType::Domain, "127.0.0.1".to_string(), 1025);

    let data = encode_dst_service_request(request);

    match data {
        Ok(buffer) => {
            let bytes = buffer.as_slice();
            println!("bytes:{:?}", bytes);
            assert_eq!(5, bytes[0]);
            assert_eq!(1, bytes[1]);
            assert_eq!(0, bytes[2]);
            assert_eq!(3, bytes[3]);
            assert_eq!(49, bytes[4]);
            assert_eq!(50, bytes[5]);
            assert_eq!(55, bytes[6]);
            assert_eq!(46, bytes[7]);

            assert_eq!(48, bytes[8]);
            assert_eq!(46, bytes[9]);
            assert_eq!(48, bytes[10]);
            assert_eq!(46, bytes[11]);
            assert_eq!(49, bytes[12]);

            assert_eq!(1, bytes[13]);
            assert_eq!(4, bytes[14]);
        }

        _ => unreachable!()
    }
}

#[test]
fn unit_test_handle_init_test() {}

#[test]
fn auth_select_test1() {
    let mut packets = [0 as u8; 3];
    packets[0] = 5;
    packets[1] = 1;
    packets[2] = 0;

    println!("auth select test1:{:?}", packets);

    let result = parse_auth_select_request_packet(&packets);

    match result {
        Ok(request) => {
            assert_eq!(Version::Socks5, *request.version());
            assert_eq!(1, request.n_methods());
            assert_eq!(AuthType::Non, *request.methods().get(0).unwrap());
        }

        Err(msg) => println!("err message:{}", msg.message())
    }
}

#[test]
fn auth_select_test2() {
    let mut packets = [0 as u8; 4];
    packets[0] = 5;
    packets[1] = 2;
    packets[2] = 0;
    packets[3] = 1;

    println!("auth select test2:{:?}", packets);

    let result = parse_auth_select_request_packet(&packets);

    match result {
        Ok(request) => {
            assert_eq!(Version::Socks5, *request.version());
            assert_eq!(2, request.n_methods());
            assert_eq!(AuthType::Non, *request.methods().get(0).unwrap());
            assert_eq!(AuthType::Gssapi, *request.methods().get(1).unwrap())
        }

        Err(msg) => println!("err message:{}", msg.message())
    }
}

#[test]
fn auth_select_test3() {
    let mut packets = [0 as u8; 4];
    packets[0] = 4;
    packets[1] = 2;
    packets[2] = 0;
    packets[3] = 2;

    println!("auth select test3:{:?}", packets);

    let result = parse_auth_select_request_packet(&packets);

    match result {
        Ok(request) => {
            assert_eq!(Version::Others, *request.version());
            assert_eq!(2, request.n_methods());
            assert_eq!(AuthType::Non, *request.methods().get(0).unwrap());
            assert_eq!(AuthType::NamePassword, *request.methods().get(1).unwrap())
        }

        Err(msg) => println!("err message:{}", msg.message())
    }
}

#[test]
fn auth_select_reply_test1() {
    let mut packets = [0 as u8; 2];
    packets[0] = 5;
    packets[1] = 0;

    println!("auth select reply test1:{:?}", packets);

    let result = parse_auth_select_reply_packet(&packets);

    match result {
        Ok(request) => {
            assert_eq!(Version::Socks5, *request.version());
            assert_eq!(AuthType::Non, *request.auth_type())
        }

        Err(msg) => println!("err message:{}", msg.message())
    }
}

#[test]
fn auth_select_reply_test2() {
    let mut packets = [0 as u8; 2];
    packets[0] = 4;
    packets[1] = 1;

    println!("auth select reply test1:{:?}", packets);

    let result = parse_auth_select_reply_packet(&packets);

    match result {
        Ok(request) => {
            assert_eq!(Version::Others, *request.version());
            assert_eq!(AuthType::Gssapi, *request.auth_type())
        }

        Err(msg) => println!("err message:{}", msg.message())
    }
}

#[test]
fn unit_test_parse_version_socks5_success() {
    let version = parse_version(Some(5));
    match version {
        Ok(v) => assert_eq!(v, Version::Socks5),
        Err(_) => unreachable!()
    }
}

#[test]
fn unit_test_parse_version_others_success() {
    let version = parse_version(Some(4));
    match version {
        Ok(v) => assert_eq!(v, Version::Others),
        Err(_) => unreachable!()
    }
}

#[test]
fn unit_test_parse_version_failed() {
    let version = parse_version(None);
    match version {
        Ok(v) => assert_eq!(v, Version::Others),
        Err(e) => assert_eq!("empty version num.", e.message())
    }
}

#[test]
fn unit_test_parse_ipv4_from_bytes_success() {
    let bytes = [49, 50, 55, 46, 48, 46, 48, 46, 49];
    let address = get_ipv4_from_bytes(&bytes);
    match address {
        Ok(addr) => assert_eq!("49.50.55.46", addr),
        Err(e) => assert_eq!("err from bytes to utf8 string.", e.message())
    }
}

#[test]
fn unit_test_parse_domain_from_bytes_success() {
    let bytes = [49, 50, 55, 46, 48, 46, 48, 46, 49];
    let result = get_domain_from_bytes(&bytes);
    match result {
        Ok(address) => assert_eq!("127.0.0.1", address),
        Err(_) => unreachable!()
    }
}

#[test]
fn unit_test_get_port_success() {
    let bytes = [1, 2];
    match get_port(&bytes) {
        Ok(port) => assert_eq!(513, port),
        Err(_) => unreachable!()
    }
}

#[test]
fn unit_test_get_dst_ipv4_address_success() {
    let bytes = [49, 50, 55, 46, 1, 2];
    match parse_dst_address(&bytes, &Ipv4) {
        Ok((address, port)) => {
            assert_eq!("49.50.55.46", address);
            assert_eq!(513, port);
        }
        Err(_) => unreachable!()
    }
}

#[test]
fn unit_test_get_dst_domain_address_success() {
    let bytes = [13, 119, 119,
        119, 46, 98, 97, 105, 100, 117, 46, 99, 111, 109, 1, 1];
    match parse_dst_address(&bytes, &Domain) {
        Ok((address, port)) => {
            assert_eq!("www.baidu.com", address);
            assert_eq!(257, port);
        }
        Err(_) => unreachable!()
    }
}

#[test]
fn unit_test_parse_len_and_string_success() {
    let bytes = [13, 109, 105, 111, 45, 97, 110, 100, 45, 116, 111, 107, 105, 111];
    match parse_len_and_string(&bytes) {
        Ok((len, name)) => {
            assert_eq!(13 as u8, len);
            assert_eq!("mio-and-tokio", name);
        }
        _ => unreachable!()
    }
}

#[test]
fn unit_test_parse_len_and_string_failed() {
    let bytes: [u8; 0] = [];
    match parse_len_and_string(&bytes) {
        Ok((len, name)) => {
            assert_eq!(13 as u8, len);
            assert_eq!("mio-and-tokio", name);
        }
        Err(msg) => assert_eq!("data is not enough.", msg.message())
    }
}

#[test]
fn unit_test_parse_user_auth_request_success() {
    let bytes = [0, 13, 109, 105, 111, 45, 97, 110, 100, 45, 116, 111, 107, 105, 111
        , 6, 49, 50, 51, 52, 53, 54];
    match parse_user_auth_request(&bytes) {
        Ok(request) => {
            assert_eq!(SubVersion::V0, *request.version());
            assert_eq!(13 as u8, request.u_len());
            assert_eq!("mio-and-tokio", request.name());
            assert_eq!(6, request.p_len());
            assert_eq!("123456", request.password());
        }
        _ => unreachable!()
    }
}

#[test]
fn unit_test_parse_user_auth_reply_success() {
    let bytes = [0, 13, 109, 105, 111, 45, 97, 110, 100, 45, 116, 111, 107, 105, 111
        , 6, 49, 50, 51, 52, 53, 54];
    match parse_user_auth_request(&bytes) {
        Ok(request) => {
            assert_eq!(SubVersion::V0, *request.version());
            assert_eq!(13 as u8, request.u_len());
            assert_eq!("mio-and-tokio", request.name());
            assert_eq!(6, request.p_len());
            assert_eq!("123456", request.password());
        }
        _ => unreachable!()
    }
}

// ---------------------------------------------------------------------------

#[test]
fn auth_select_reply_round_trip() {
    for method in [AuthType::Non, AuthType::NamePassword] {
        let reply = AuthSelectReply::new(Version::Socks5, method);
        let bytes = encode_auth_select_reply(&reply).unwrap();
        assert_eq!(Ok(reply), parse_auth_select_reply_packet(&bytes));
    }
}

#[test]
fn dst_service_request_round_trip_ipv4() {
    let request = DstServiceRequest::new(Version::Socks5, CmdType::Bind, 0, Ipv4, "10.200.3.255".to_string(), 65535);
    let bytes = encode_dst_service_request(request).unwrap();
    assert_eq!(vec![5, 2, 0, 1, 10, 200, 3, 255, 255, 255], bytes);
    let (back, len) = parse_dst_service_request(&bytes).unwrap();
    assert_eq!(4, len);
    assert_eq!(DstServiceRequest::new(Version::Socks5, CmdType::Bind, 0, Ipv4, "10.200.3.255".to_string(), 65535), back);
}

#[test]
fn dst_service_reply_round_trip_domain_and_ipv4() {
    let reply = DstServiceReply::new(Version::Socks5, ReplyType::HostUnreachable, Domain, "example.org".to_string(), 8080);
    let bytes = encode_dst_service_reply(reply).unwrap();
    assert_eq!(11, bytes[4]);
    assert_eq!(4 + 1 + 11 + 2, bytes.len());
    let back = parse_dst_service_reply(&bytes).unwrap();
    assert_eq!(DstServiceReply::new(Version::Socks5, ReplyType::HostUnreachable, Domain, "example.org".to_string(), 8080), back);

    let reply = DstServiceReply::new(Version::Socks5, ReplyType::Others, Ipv4, "1.2.3.4".to_string(), 258);
    let bytes = encode_dst_service_reply(reply).unwrap();
    assert_eq!(vec![5, 9, 0, 1, 1, 2, 3, 4, 2, 1], bytes);
    let back = parse_dst_service_reply(&bytes).unwrap();
    assert_eq!(DstServiceReply::new(Version::Socks5, ReplyType::Others, Ipv4, "1.2.3.4".to_string(), 258), back);
}

#[test]
fn domain_request_has_no_length_prefix() {
    // The request encoder writes the domain bytes without a length byte, so
    // decoding reads the first address byte as the length.
    let request = DstServiceRequest::new(Version::Socks5, CmdType::Connect, 0, Domain, "ab".to_string(), 1);
    let bytes = encode_dst_service_request(request).unwrap();
    assert_eq!(vec![5, 1, 0, 3, 97, 98, 1, 0], bytes);
    assert_eq!(Err(CodecError::DataIncomplete), parse_dst_service_request(&bytes).map(|(_, l)| l));
}

#[test]
fn auth_select_request_methods_and_length() {
    let data = [5, 6, 0, 1, 2, 3, 0x80, 0xff, 9, 9];
    let request = parse_auth_select_request_packet(&data).unwrap();
    assert_eq!(6, request.n_methods());
    assert_eq!(
        &vec![AuthType::Non, AuthType::Gssapi, AuthType::NamePassword, AuthType::IanaAssigned, AuthType::Reserved, AuthType::NonAccept],
        request.methods()
    );
    let empty = parse_auth_select_request_packet(&[5, 0]).unwrap();
    assert_eq!(0, empty.n_methods());
    assert!(empty.methods().is_empty());
}

#[test]
fn codec_errors() {
    assert_eq!(Err(CodecError::DataIncomplete), parse_auth_select_request_packet(&[5]));
    assert_eq!(Err(CodecError::DataIncomplete), parse_auth_select_request_packet(&[5, 2, 0]));
    assert_eq!(Err(CodecError::UnsupportedAuthMethod), parse_auth_select_request_packet(&[5, 1, 7]));
    assert_eq!(Err(CodecError::LengthMismatch), parse_auth_select_reply_packet(&[5, 0, 0]));
    assert_eq!(Err(CodecError::UnsupportedVersion), encode_auth_select_reply(&AuthSelectReply::new(Version::Others, AuthType::Non)));
    assert_eq!(Err(CodecError::UnsupportedAuthMethod), encode_auth_select_reply(&AuthSelectReply::new(Version::Socks5, AuthType::Gssapi)));
    assert_eq!(Err(CodecError::UnsupportedCommand), parse_dst_service_request(&[5, 9, 0, 1, 1, 2, 3, 4, 0, 0]).map(|(_, l)| l));
    assert_eq!(Err(CodecError::UnsupportedAddressType), parse_dst_service_request(&[5, 1, 0, 4, 1, 2, 3, 4, 0, 0]).map(|(_, l)| l));
    assert_eq!(Err(CodecError::UnsupportedAddressType), parse_dst_service_request(&[5, 1, 0, 2, 1, 2, 3, 4, 0, 0]).map(|(_, l)| l));
    assert_eq!(Err(CodecError::DataIncomplete), parse_dst_service_request(&[5, 1, 0, 1, 1, 2, 3, 4, 0]).map(|(_, l)| l));
    assert_eq!(Err(CodecError::InvalidEncoding), parse_dst_service_request(&[5, 1, 0, 3, 1, 0xff, 0, 0]).map(|(_, l)| l));
    assert_eq!(Err(CodecError::UnsupportedReplyType), parse_dst_service_reply(&[5, 10, 0, 1, 1, 2, 3, 4, 0, 0]));
    assert_eq!(Err(CodecError::InvalidAddress), encode_address_for_ipv4("256.1.1.1".to_string()));
    assert_eq!(Err(CodecError::InvalidAddress), encode_address_for_ipv4("01.1.1.1".to_string()));
    assert_eq!(Err(CodecError::InvalidAddress), encode_address_for_ipv4("1.1.1".to_string()));
    assert_eq!(Err(CodecError::UnsupportedAddressType), encode_address_with_type("::1".to_string(), &AddressType::Ipv6));
    assert_eq!(Err(CodecError::UnsupportedAddressType), get_ipv6_from_bytes(&[0; 16]));
    assert_eq!(Err(CodecError::InvalidAddress), encode_dst_service_reply(DstServiceReply::new(Version::Socks5, ReplyType::Success, Domain, "a".repeat(256), 1)));
    assert_eq!(Err(CodecError::InvalidEncoding), parse_string_from_bytes(&[0xc3]));
    assert_eq!(Err(CodecError::LengthMismatch), parse_user_auth_reply(&[1]));
}

#[test]
fn ipv4_text_and_bytes() {
    assert_eq!("0.9.10.255", get_ipv4_from_bytes(&[0, 9, 10, 255]).unwrap());
    assert_eq!(Ok(vec![0, 9, 10, 255]), encode_address_for_ipv4("0.9.10.255".to_string()));
    assert_eq!(Ok(vec![104, 105]), encode_address_as_domain("hi".to_string()));
    assert_eq!("h\u{e9}", parse_string_from_bytes(&[104, 0xc3, 0xa9]).unwrap());
}

#[test]
fn user_auth_reply_failure_status() {
    let reply = parse_user_auth_reply(&[1, 3]).unwrap();
    assert_eq!(SubVersion::Others, *reply.version());
    assert_eq!(AuthResult::Failure, *reply.status());
}
