use mars_mesh::network::{is_private_ip, validate_outbound_addr, AddressValidationError, IpAddress, SocketAddress};

fn v4(a: u8, b: u8, c: u8, d: u8) -> Result<SocketAddress, String> {
    Ok(SocketAddress { ip: IpAddress::V4([a, b, c, d]), port: 4433 })
}

fn v6(segments: [u16; 8]) -> Result<SocketAddress, String> {
    Ok(SocketAddress { ip: IpAddress::V6(segments), port: 4433 })
}

#[test]
fn test_public_addresses_allowed() {
    assert!(validate_outbound_addr("8.8.8.8:443", v4(8, 8, 8, 8), &[]).is_ok());
    assert!(validate_outbound_addr("1.1.1.1:443", v4(1, 1, 1, 1), &[]).is_ok());
}

#[test]
fn test_loopback_rejected() {
    let result = validate_outbound_addr("127.0.0.1:4433", v4(127, 0, 0, 1), &[]);
    assert!(result.is_err());
    assert!(matches!(result.unwrap_err(), AddressValidationError::PrivateAddress(_)));
}

#[test]
fn test_rfc1918_rejected() {
    let result_10 = validate_outbound_addr("10.0.0.1:4433", v4(10, 0, 0, 1), &[]);
    assert!(matches!(result_10.unwrap_err(), AddressValidationError::PrivateAddress(_)));
    let result_172 = validate_outbound_addr("172.16.0.1:4433", v4(172, 16, 0, 1), &[]);
    assert!(matches!(result_172.unwrap_err(), AddressValidationError::PrivateAddress(_)));
    let result_192 = validate_outbound_addr("192.168.1.1:4433", v4(192, 168, 1, 1), &[]);
    assert!(matches!(result_192.unwrap_err(), AddressValidationError::PrivateAddress(_)));
}

#[test]
fn test_link_local_rejected() {
    let result = validate_outbound_addr("169.254.1.1:4433", v4(169, 254, 1, 1), &[]);
    assert!(matches!(result.unwrap_err(), AddressValidationError::PrivateAddress(_)));
}

#[test]
fn test_cgn_rejected() {
    let result = validate_outbound_addr("100.64.0.1:4433", v4(100, 64, 0, 1), &[]);
    assert!(matches!(result.unwrap_err(), AddressValidationError::PrivateAddress(_)));
}

#[test]
fn test_ipv6_loopback_rejected() {
    let result = validate_outbound_addr("[::1]:4433", v6([0, 0, 0, 0, 0, 0, 0, 1]), &[]);
    assert!(matches!(result.unwrap_err(), AddressValidationError::PrivateAddress(_)));
}

#[test]
fn test_ipv6_ula_rejected() {
    let result = validate_outbound_addr("[fd00::1]:4433", v6([0xfd00, 0, 0, 0, 0, 0, 0, 1]), &[]);
    assert!(matches!(result.unwrap_err(), AddressValidationError::PrivateAddress(_)));
}

#[test]
fn test_allowlist_overrides() {
    let allowlist = vec!["127.0.0.1:4433".to_string()];
    let result = validate_outbound_addr("127.0.0.1:4433", v4(127, 0, 0, 1), &allowlist);
    assert!(result.is_ok());
    assert_eq!(result.unwrap(), SocketAddress { ip: IpAddress::V4([127, 0, 0, 1]), port: 4433 });
}

#[test]
fn test_invalid_address_parse_error() {
    let result = validate_outbound_addr("not-an-address", Err("invalid socket address syntax".to_string()), &[]);
    match result {
        Err(AddressValidationError::ParseError(m)) => {
            assert_eq!(m, "invalid address 'not-an-address': invalid socket address syntax");
        }
        other => panic!("unexpected {other:?}"),
    }
}

#[test]
fn test_ipv6_link_local_rejected() {
    let result = validate_outbound_addr("[fe80::1]:4433", v6([0xfe80, 0, 0, 0, 0, 0, 0, 1]), &[]);
    assert!(matches!(result.unwrap_err(), AddressValidationError::PrivateAddress(_)));
}

#[test]
fn test_unspecified_rejected() {
    let result = validate_outbound_addr("0.0.0.0:4433", v4(0, 0, 0, 0), &[]);
    assert!(matches!(result.unwrap_err(), AddressValidationError::PrivateAddress(_)));
}

#[test]
fn private_ranges_have_exact_edges() {
    assert!(is_private_ip(&IpAddress::V4([172, 31, 255, 255])));
    assert!(!is_private_ip(&IpAddress::V4([172, 32, 0, 0])));
    assert!(!is_private_ip(&IpAddress::V4([172, 15, 255, 255])));
    assert!(is_private_ip(&IpAddress::V4([100, 127, 255, 255])));
    assert!(!is_private_ip(&IpAddress::V4([100, 128, 0, 0])));
    assert!(!is_private_ip(&IpAddress::V4([100, 63, 255, 255])));
    assert!(is_private_ip(&IpAddress::V6([0; 8])));
    assert!(!is_private_ip(&IpAddress::V6([0, 0, 0, 0, 0, 0, 0, 2])));
    assert!(is_private_ip(&IpAddress::V6([0xfebf, 0, 0, 0, 0, 0, 0, 1])));
    assert!(!is_private_ip(&IpAddress::V6([0xfec0, 0, 0, 0, 0, 0, 0, 1])));
    assert!(!is_private_ip(&IpAddress::V6([0x2001, 0xdb8, 0, 0, 0, 0, 0, 1])));
}

#[test]
fn private_address_message() {
    let err = validate_outbound_addr("10.1.2.3:1", v4(10, 1, 2, 3), &[]).unwrap_err();
    assert_eq!(err.message(), "address '10.1.2.3:1' is private/loopback/reserved and not in the outbound allowlist");
}

fn at4(o: [u8; 4], port: u16) -> Result<SocketAddress, String> {
    Ok(SocketAddress { ip: IpAddress::V4(o), port })
}

fn at6(s: [u16; 8], port: u16) -> Result<SocketAddress, String> {
    Ok(SocketAddress { ip: IpAddress::V6(s), port })
}

#[test]
fn test_address_validation_blocks_private() {
    assert!(validate_outbound_addr("10.0.0.1:4433", at4([10, 0, 0, 1], 4433), &[]).is_err());
    assert!(validate_outbound_addr("10.255.255.255:4433", at4([10, 255, 255, 255], 4433), &[]).is_err());
    assert!(validate_outbound_addr("172.16.0.1:4433", at4([172, 16, 0, 1], 4433), &[]).is_err());
    assert!(validate_outbound_addr("172.31.255.255:4433", at4([172, 31, 255, 255], 4433), &[]).is_err());
    assert!(validate_outbound_addr("192.168.0.1:4433", at4([192, 168, 0, 1], 4433), &[]).is_err());
    assert!(validate_outbound_addr("192.168.255.255:4433", at4([192, 168, 255, 255], 4433), &[]).is_err());
    assert!(validate_outbound_addr("127.0.0.1:4433", at4([127, 0, 0, 1], 4433), &[]).is_err());
    assert!(validate_outbound_addr("169.254.1.1:4433", at4([169, 254, 1, 1], 4433), &[]).is_err());
    assert!(validate_outbound_addr("100.64.0.1:4433", at4([100, 64, 0, 1], 4433), &[]).is_err());
    assert!(validate_outbound_addr("[::1]:4433", at6([0, 0, 0, 0, 0, 0, 0, 1], 4433), &[]).is_err());
    assert!(validate_outbound_addr("[fd00::1]:4433", at6([0xfd00, 0, 0, 0, 0, 0, 0, 1], 4433), &[]).is_err());
    assert!(validate_outbound_addr("0.0.0.0:4433", at4([0, 0, 0, 0], 4433), &[]).is_err());
    assert!(validate_outbound_addr("8.8.8.8:443", at4([8, 8, 8, 8], 443), &[]).is_ok());
    assert!(validate_outbound_addr("1.1.1.1:443", at4([1, 1, 1, 1], 443), &[]).is_ok());
    assert!(validate_outbound_addr("203.0.113.1:4433", at4([203, 0, 113, 1], 4433), &[]).is_ok());
    let allowlist = vec!["127.0.0.1:4433".to_string()];
    assert!(validate_outbound_addr("127.0.0.1:4433", at4([127, 0, 0, 1], 4433), &allowlist).is_ok());
    assert!(validate_outbound_addr("127.0.0.1:9999", at4([127, 0, 0, 1], 9999), &allowlist).is_err());
}

#[test]
fn ipv4_mapped_ipv6_is_checked_as_ipv4() {
    let loopback = validate_outbound_addr("[::ffff:127.0.0.1]:4433", at6([0, 0, 0, 0, 0, 0xffff, 0x7f00, 0x0001], 4433), &[]);
    assert!(matches!(loopback, Err(AddressValidationError::PrivateAddress(_))));
    let private = validate_outbound_addr("[::ffff:10.0.0.1]:4433", at6([0, 0, 0, 0, 0, 0xffff, 0x0a00, 0x0001], 4433), &[]);
    assert!(matches!(private, Err(AddressValidationError::PrivateAddress(_))));
    assert!(is_private_ip(&IpAddress::V6([0, 0, 0, 0, 0, 0xffff, 0xc0a8, 0x0101])));
    assert!(is_private_ip(&IpAddress::V6([0, 0, 0, 0, 0, 0xffff, 0xa9fe, 0x0101])));
    let public = validate_outbound_addr("[::ffff:8.8.8.8]:443", at6([0, 0, 0, 0, 0, 0xffff, 0x0808, 0x0808], 443), &[]);
    assert!(public.is_ok());
    assert!(!is_private_ip(&IpAddress::V6([0, 0, 0, 0, 0, 0xfffe, 0x7f00, 0x0001])));
}
