//! Tests for address parsing, formatting, and single-record resolution.

use dmarc_rs::addr::IpAddr;
use dmarc_rs::ip::{live_name, Ip};
use dmarc_rs::ResolveError;

#[test]
fn test_new_from_tuple() {
    let exp = Ip {
        ip: IpAddr::parse("1.1.1.1").unwrap(),
        name: "one.one.one.one".to_string(),
    };

    let t = Ip::from_pair("1.1.1.1", "one.one.one.one");

    assert_eq!(exp, t);
}

#[test]
fn test_ip_new_ok() {
    let cases = [
        "0.0.0.0",
        "127.0.0.1",
        "1.2.3.4",
        "10.0.0.1",
        "172.16.1.1",
        "192.168.1.1",
        "::127.0.0.1",
        "::face:b00c",
        "3ffe::a:b:c:d:e",
        "::1",
        "::",
        "1:2:3:4:5:6:7:8",
        "1:2:3:4:5:6:1.2.3.4",
        "1:2:3:4:5:6:7::",
        "::ffff:192.0.2.1",
    ];
    for s in cases {
        let a = Ip::new(s);
        assert!(a.name.is_empty());
        assert_eq!(IpAddr::parse(s).unwrap(), a.ip);
    }
}

#[test]
fn test_ip_new_nok() {
    let cases = [
        "333.0.0.0",
        "127.333.0.1",
        "1.2.333.4",
        "10.0.0.555",
        "foobar",
        "::blah:blah::.168.1.1",
        "",
        "1.2.3",
        "1.2.3.4.5",
        "01.1.1.1",
        " 1.1.1.1",
        "1.1.1.1 ",
        "1:2:3:4:5:6:7:8:9",
        "::1::",
        "12345::",
        "g::1",
        "1.2.3.4::",
        "1:2:3:4:5:6:7",
    ];
    for s in cases {
        assert!(IpAddr::parse(s).is_none(), "accepted {:?}", s);
        assert_eq!(Err(ResolveError::InvalidAddress), Ip::try_new(s).map(|ip| ip.ip));
    }
}

#[test]
fn test_addr_to_string_v4() {
    assert_eq!("1.1.1.1", IpAddr::v4(1, 1, 1, 1).to_string());
    assert_eq!("0.0.0.0", IpAddr::v4(0, 0, 0, 0).to_string());
    assert_eq!("255.255.255.255", IpAddr::v4(255, 255, 255, 255).to_string());
    assert_eq!("192.0.2.1", IpAddr::v4(192, 0, 2, 1).to_string());
}

#[test]
fn test_addr_to_string_v6() {
    assert_eq!(
        "2606:4700:4700::1111",
        IpAddr::v6(0x2606, 0x4700, 0x4700, 0, 0, 0, 0, 0x1111).to_string()
    );
    assert_eq!("::", IpAddr::v6(0, 0, 0, 0, 0, 0, 0, 0).to_string());
    assert_eq!("::1", IpAddr::v6(0, 0, 0, 0, 0, 0, 0, 1).to_string());
    assert_eq!("1::", IpAddr::v6(1, 0, 0, 0, 0, 0, 0, 0).to_string());
    assert_eq!("1:2:3:4:5:6:7:8", IpAddr::v6(1, 2, 3, 4, 5, 6, 7, 8).to_string());
    // The longest zero run wins the compression.
    assert_eq!("1:0:0:2::3", IpAddr::v6(1, 0, 0, 2, 0, 0, 0, 3).to_string());
    // On a tie, the leftmost run wins.
    assert_eq!("1::2:0:0:3:4", IpAddr::v6(1, 0, 0, 2, 0, 0, 3, 4).to_string());
    // A lone zero segment is not compressed.
    assert_eq!("1:0:2:3:4:5:6:7", IpAddr::v6(1, 0, 2, 3, 4, 5, 6, 7).to_string());
}

#[test]
fn test_addr_round_trip() {
    let cases = [
        "1.1.1.1",
        "192.0.2.1",
        "2606:4700:4700::1111",
        "::1",
        "::",
        "3ffe::a:b:c:d:e",
        "1:2:3:4:5:6:7:8",
    ];
    for s in cases {
        let a = IpAddr::parse(s).unwrap();
        assert_eq!(s, a.to_string());
        assert_eq!(Some(a), IpAddr::parse(&a.to_string()));
    }
    // Non-canonical spellings parse to the same value as their canonical form.
    assert_eq!(
        IpAddr::parse("2606:4700:4700::1111"),
        IpAddr::parse("2606:4700:4700:0:0:0:0:1111")
    );
    assert_eq!(IpAddr::parse("::FACE:B00C"), IpAddr::parse("::face:b00c"));
    assert_eq!(
        Some(IpAddr::v6(0, 0, 0, 0, 0, 0, 0x7f00, 0x0001)),
        IpAddr::parse("::127.0.0.1")
    );
}

#[test]
fn test_addr_ordering() {
    let v4a = IpAddr::parse("1.1.1.1").unwrap();
    let v4b = IpAddr::parse("192.0.2.1").unwrap();
    let v6 = IpAddr::parse("::1").unwrap();
    // IPv4 sorts before IPv6; within a family, numerically.
    assert!(v4a.le(&v4b));
    assert!(!v4b.le(&v4a));
    assert!(v4b.le(&v6));
    assert!(!v6.le(&v4b));
    assert!(v6.le(&v6));
}

#[test]
fn test_live_name_substitution() {
    let a = IpAddr::parse("192.0.2.1").unwrap();
    // A lookup that echoes the address's own text gets the sentinel.
    assert_eq!(
        "some.host.invalid",
        live_name(&a, Ok("192.0.2.1".to_string()))
    );
    // A real name is kept unchanged.
    assert_eq!(
        "one.one.one.one",
        live_name(&a, Ok("one.one.one.one".to_string()))
    );
    // A failed lookup becomes data: the error's text.
    assert_eq!(
        "lookup timed out",
        live_name(&a, Err("lookup timed out".to_string()))
    );
}

#[test]
fn test_error_messages() {
    assert_eq!("invalid address", ResolveError::InvalidAddress.message());
    assert_eq!("too many jobs", ResolveError::TooManyJobs.message());
    assert_eq!("empty input", ResolveError::EmptyInput.message());
}
