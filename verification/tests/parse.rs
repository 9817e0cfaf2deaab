use multiserver_address_rs::AddressType;
use multiserver_address_rs::Error;
use multiserver_address_rs::IpAddress;
use multiserver_address_rs::MultiserverAddress;
use std::str::FromStr;

#[test]
fn main_multiserver_ipv4_parse_ok() {
    let valid_ms_address =
        "net:192.168.178.17:8008~shs:HDOUC17/nBPzbVjT3+nUsLf/4p9lyIChEzMAxrHJQo4=";

    let address = MultiserverAddress::from_str(valid_ms_address).unwrap();
    assert_eq!(address.port, 8008);
    assert_eq!(
        address.pub_key.unwrap().to_legacy_string(),
        "@HDOUC17/nBPzbVjT3+nUsLf/4p9lyIChEzMAxrHJQo4=.ed25519"
    );
    match address.address {
        AddressType::Ip(add) => assert!(add.is_ipv4()),
        _ => panic!(),
    }
}

#[test]
fn main_multiserver_ipv6_1_parse_ok() {
    let valid_ms_address = "net:1200:0000:AB00:1234:0000:2552:7777:1313:8008~shs:HDOUC17/nBPzbVjT3+nUsLf/4p9lyIChEzMAxrHJQo4=";
    let address = MultiserverAddress::from_str(valid_ms_address).unwrap();
    assert_eq!(address.port, 8008);
    assert_eq!(
        address.pub_key.unwrap().to_legacy_string(),
        "@HDOUC17/nBPzbVjT3+nUsLf/4p9lyIChEzMAxrHJQo4=.ed25519"
    );
    match address.address {
        AddressType::Ip(add) => assert!(add.is_ipv6()),
        _ => panic!(),
    }
}

#[test]
fn main_multiserver_ipv6_2_parse_ok() {
    let valid_ms_address =
        "net:21DA:D3:0:2F3B:2AA:FF:FE28:9C5A:8008~shs:HDOUC17/nBPzbVjT3+nUsLf/4p9lyIChEzMAxrHJQo4=";
    let address = MultiserverAddress::from_str(valid_ms_address).unwrap();
    assert_eq!(address.port, 8008);
    assert_eq!(
        address.pub_key.unwrap().to_legacy_string(),
        "@HDOUC17/nBPzbVjT3+nUsLf/4p9lyIChEzMAxrHJQo4=.ed25519"
    );
    match address.address {
        AddressType::Ip(add) => assert!(add.is_ipv6()),
        _ => panic!(),
    }
}

#[test]
fn main_multiserver_ipv6_3_parse_ok() {
    let valid_ms_address = "net:FE80:0000:0000:0000:0202:B3FF:FE1E:8329:8008~shs:HDOUC17/nBPzbVjT3+nUsLf/4p9lyIChEzMAxrHJQo4=";
    let address = MultiserverAddress::from_str(valid_ms_address).unwrap();
    assert_eq!(address.port, 8008);
    assert_eq!(
        address.pub_key.unwrap().to_legacy_string(),
        "@HDOUC17/nBPzbVjT3+nUsLf/4p9lyIChEzMAxrHJQo4=.ed25519"
    );
    match address.address {
        AddressType::Ip(add) => assert!(add.is_ipv6()),
        _ => panic!(),
    }
}

#[test]
fn main_multiserver_url_parse_ok() {
    let valid_ms_address = "net:host.com:8008~shs:HDOUC17/nBPzbVjT3+nUsLf/4p9lyIChEzMAxrHJQo4=";
    let address = MultiserverAddress::from_str(valid_ms_address).unwrap();
    assert_eq!(address.port, 8008);
    assert_eq!(
        address.pub_key.unwrap().to_legacy_string(),
        "@HDOUC17/nBPzbVjT3+nUsLf/4p9lyIChEzMAxrHJQo4=.ed25519"
    );
    match address.address {
        AddressType::Url(_url) => (),
        _ => panic!(),
    };
}

#[test]
fn lib_multiserver_ipv4_parse_ok() {
    let valid_ms_address =
        "net:192.168.178.17:8008~shs:HDOUC17/nBPzbVjT3+nUsLf/4p9lyIChEzMAxrHJQo4=";

    let address = MultiserverAddress::from_str(valid_ms_address).unwrap();
    assert_eq!(address.port, 8008);
    assert_eq!(
        address.pub_key.unwrap().to_legacy_string(),
        "@HDOUC17/nBPzbVjT3+nUsLf/4p9lyIChEzMAxrHJQo4=.ed25519"
    );
    match address.address {
        AddressType::Ip(add) => assert!(add.is_ipv4()),
        _ => panic!(),
    }
}

#[test]
fn lib_multiserver_ipv6_1_parse_ok() {
    let valid_ms_address = "net:1200:0000:AB00:1234:0000:2552:7777:1313:8008~shs:HDOUC17/nBPzbVjT3+nUsLf/4p9lyIChEzMAxrHJQo4=";
    let address = MultiserverAddress::from_str(valid_ms_address).unwrap();
    assert_eq!(address.port, 8008);
    assert_eq!(
        address.pub_key.unwrap().to_legacy_string(),
        "@HDOUC17/nBPzbVjT3+nUsLf/4p9lyIChEzMAxrHJQo4=.ed25519"
    );
    match address.address {
        AddressType::Ip(add) => assert!(add.is_ipv6()),
        _ => panic!(),
    }
}

#[test]
fn lib_multiserver_ipv6_2_parse_ok() {
    let valid_ms_address =
        "net:21DA:D3:0:2F3B:2AA:FF:FE28:9C5A:8008~shs:HDOUC17/nBPzbVjT3+nUsLf/4p9lyIChEzMAxrHJQo4=";
    let address = MultiserverAddress::from_str(valid_ms_address).unwrap();
    assert_eq!(address.port, 8008);
    assert_eq!(
        address.pub_key.unwrap().to_legacy_string(),
        "@HDOUC17/nBPzbVjT3+nUsLf/4p9lyIChEzMAxrHJQo4=.ed25519"
    );
    match address.address {
        AddressType::Ip(add) => assert!(add.is_ipv6()),
        _ => panic!(),
    }
}

#[test]
fn lib_multiserver_ipv6_3_parse_ok() {
    let valid_ms_address = "net:FE80:0000:0000:0000:0202:B3FF:FE1E:8329:8008~shs:HDOUC17/nBPzbVjT3+nUsLf/4p9lyIChEzMAxrHJQo4=";
    let address = MultiserverAddress::from_str(valid_ms_address).unwrap();
    assert_eq!(address.port, 8008);
    assert_eq!(
        address.pub_key.unwrap().to_legacy_string(),
        "@HDOUC17/nBPzbVjT3+nUsLf/4p9lyIChEzMAxrHJQo4=.ed25519"
    );
    match address.address {
        AddressType::Ip(add) => assert!(add.is_ipv6()),
        _ => panic!(),
    }
}

#[test]
fn lib_multiserver_url_parse_ok() {
    let valid_ms_address = "net:host.com:8008~shs:HDOUC17/nBPzbVjT3+nUsLf/4p9lyIChEzMAxrHJQo4=";
    let address = MultiserverAddress::from_str(valid_ms_address).unwrap();
    assert_eq!(address.port, 8008);
    assert_eq!(
        address.pub_key.unwrap().to_legacy_string(),
        "@HDOUC17/nBPzbVjT3+nUsLf/4p9lyIChEzMAxrHJQo4=.ed25519"
    );
    match address.address {
        AddressType::Url(_url) => (),
        _ => panic!(),
    };
}

#[test]
fn ipv4_octet_values_are_decoded() {
    let address = MultiserverAddress::from_str(
        "net:192.168.178.17:8008~shs:HDOUC17/nBPzbVjT3+nUsLf/4p9lyIChEzMAxrHJQo4=",
    )
    .unwrap();
    match address.address {
        AddressType::Ip(IpAddress::V4 { octets }) => assert_eq!(octets, [192, 168, 178, 17]),
        _ => panic!(),
    }
}

#[test]
fn ipv6_hextet_values_are_decoded() {
    let address = MultiserverAddress::from_str(
        "net:FE80:0000:0000:0000:0202:B3FF:FE1E:8329:8008~shs:HDOUC17/nBPzbVjT3+nUsLf/4p9lyIChEzMAxrHJQo4=",
    )
    .unwrap();
    match address.address {
        AddressType::Ip(IpAddress::V6 { hextets }) => assert_eq!(
            hextets,
            [0xFE80, 0x0000, 0x0000, 0x0000, 0x0202, 0xB3FF, 0xFE1E, 0x8329]
        ),
        _ => panic!(),
    }
}

#[test]
fn domain_host_keeps_placeholder_scheme() {
    let address = MultiserverAddress::from_str(
        "net:host.com:8008~shs:HDOUC17/nBPzbVjT3+nUsLf/4p9lyIChEzMAxrHJQo4=",
    )
    .unwrap();
    match address.address {
        AddressType::Url(url) => assert_eq!(url, "tcp://host.com"),
        _ => panic!(),
    }
}

#[test]
fn port_over_16_bits_is_not_numeric() {
    let r = MultiserverAddress::from_str(
        "net:host.com:70000~shs:HDOUC17/nBPzbVjT3+nUsLf/4p9lyIChEzMAxrHJQo4=",
    );
    assert_eq!(r, Err(Error::PortNotNumeric));
}

#[test]
fn port_zero_is_in_range() {
    let address = MultiserverAddress::from_str(
        "net:host.com:0~shs:HDOUC17/nBPzbVjT3+nUsLf/4p9lyIChEzMAxrHJQo4=",
    )
    .unwrap();
    assert_eq!(address.port, 0);
}

#[test]
fn bad_base64_payload_is_rejected() {
    let r = MultiserverAddress::from_str("net:host.com:8008~shs:!!*not*base64*!!");
    assert_eq!(r, Err(Error::PubKeyNotBase64));
}

#[test]
fn missing_key_section_fails_the_grammar() {
    let r = MultiserverAddress::from_str("net:host.com:8008");
    assert_eq!(r, Err(Error::Parse));
}

#[test]
fn empty_payload_fails_the_grammar() {
    let r = MultiserverAddress::from_str("net:host.com:8008~shs:");
    assert_eq!(r, Err(Error::Parse));
}

#[test]
fn missing_net_prefix_fails_the_grammar() {
    let r = MultiserverAddress::from_str("ws:host.com:8008~shs:HDOUC17/nBPzbVjT3+nUsLf/4p9lyIChEzMAxrHJQo4=");
    assert_eq!(r, Err(Error::Parse));
}

#[test]
fn non_numeric_port_fails_the_grammar() {
    let r = MultiserverAddress::from_str(
        "net:host.com:80a8~shs:HDOUC17/nBPzbVjT3+nUsLf/4p9lyIChEzMAxrHJQo4=",
    );
    assert_eq!(r, Err(Error::Parse));
}

#[test]
fn out_of_range_octet_is_ip_invalid() {
    let r = MultiserverAddress::from_str(
        "net:300.1.2.3:8008~shs:HDOUC17/nBPzbVjT3+nUsLf/4p9lyIChEzMAxrHJQo4=",
    );
    assert_eq!(r, Err(Error::IpInvalid));
}

#[test]
fn leading_zero_octet_is_ip_invalid() {
    let r = MultiserverAddress::from_str(
        "net:01.2.3.4:8008~shs:HDOUC17/nBPzbVjT3+nUsLf/4p9lyIChEzMAxrHJQo4=",
    );
    assert_eq!(r, Err(Error::IpInvalid));
}

#[test]
fn non_hex_hextet_is_ip_invalid() {
    let r = MultiserverAddress::from_str(
        "net:1:2:3:4:5:6:7:zz:8008~shs:HDOUC17/nBPzbVjT3+nUsLf/4p9lyIChEzMAxrHJQo4=",
    );
    assert_eq!(r, Err(Error::IpInvalid));
}

#[test]
fn unparsable_domain_is_url_invalid() {
    let r = MultiserverAddress::from_str(
        "net:bad host:8008~shs:HDOUC17/nBPzbVjT3+nUsLf/4p9lyIChEzMAxrHJQo4=",
    );
    assert_eq!(r, Err(Error::UrlInvalid));
}

#[test]
fn any_word_scheme_is_accepted_by_the_grammar() {
    let address = MultiserverAddress::from_str(
        "net:host.com:8008~other_scheme:HDOUC17/nBPzbVjT3+nUsLf/4p9lyIChEzMAxrHJQo4=",
    )
    .unwrap();
    assert_eq!(address.port, 8008);
}

#[test]
fn parsing_twice_yields_equal_results() {
    let text = "net:192.168.178.17:8008~shs:HDOUC17/nBPzbVjT3+nUsLf/4p9lyIChEzMAxrHJQo4=";
    let first = MultiserverAddress::from_str(text);
    let second = MultiserverAddress::from_str(text);
    assert_eq!(first, second);
    let bad = "net:300.1.2.3:8008~shs:HDOUC17/nBPzbVjT3+nUsLf/4p9lyIChEzMAxrHJQo4=";
    assert_eq!(
        MultiserverAddress::from_str(bad),
        MultiserverAddress::from_str(bad)
    );
}

#[test]
fn short_key_payload_is_zero_padded() {
    // "QQ==" decodes to the single byte 65; the key keeps it and stays
    // zero elsewhere.
    let address = MultiserverAddress::from_str("net:host.com:8008~shs:QQ==").unwrap();
    let key = address.pub_key.unwrap();
    assert_eq!(key.bytes[0], 65);
    assert_eq!(&key.bytes[1..], &[0u8; 31][..]);
}

#[test]
fn array_32_from_vec_pads_and_truncates() {
    let short = multiserver_address_rs::array_32_from_vec(vec![1, 2, 3]);
    assert_eq!(&short[..3], &[1, 2, 3][..]);
    assert_eq!(&short[3..], &[0u8; 29][..]);

    let long = multiserver_address_rs::array_32_from_vec(vec![7u8; 40]);
    assert_eq!(long, [7u8; 32]);
}
