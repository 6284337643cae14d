use tokio_electrum::electrum::address::{
    ElectrumServerAddress, Error, Host, HostAndPort, ParseIntError, Scheme,
};
use tokio_electrum::ip::IpAddr;
use tokio_electrum::ordered::characters;

#[test]
fn test_parse_tcp_with_domain() {
    let addr_str = "tcp://electrum.example.com:50001";
    let addr = ElectrumServerAddress::parse(addr_str).unwrap();
    assert_eq!(*addr.scheme(), Scheme::Tcp);
    assert_eq!(
        addr.addr().host,
        Host::Domain(String::from("electrum.example.com"))
    );
    assert_eq!(addr.addr().port, 50001);
    assert_eq!(addr_str, addr.to_text());
}

#[test]
fn test_parse_ssl_with_domain() {
    let addr_str = "ssl://electrum.example.com:50002";
    let addr: ElectrumServerAddress = ElectrumServerAddress::parse(addr_str).unwrap();
    assert_eq!(*addr.scheme(), Scheme::Ssl);
    assert_eq!(
        addr.addr().host,
        Host::Domain(String::from("electrum.example.com"))
    );
    assert_eq!(addr.addr().port, 50002);
    assert_eq!(addr_str, addr.to_text());
}

#[test]
fn test_parse_tcp_with_ipv4() {
    let addr_str = "tcp://127.0.0.1:50001";
    let addr = ElectrumServerAddress::parse(addr_str).unwrap();
    assert_eq!(*addr.scheme(), Scheme::Tcp);
    assert_eq!(addr.addr().host, Host::Ip(IpAddr::V4([127, 0, 0, 1])));
    assert_eq!(addr.addr().port, 50001);
    assert_eq!(addr_str, addr.to_text());
}

#[test]
fn test_parse_ssl_with_ipv4() {
    let addr_str = "ssl://127.0.0.1:50002";
    let addr = ElectrumServerAddress::parse(addr_str).unwrap();
    assert_eq!(*addr.scheme(), Scheme::Ssl);
    assert_eq!(addr.addr().host, Host::Ip(IpAddr::V4([127, 0, 0, 1])));
    assert_eq!(addr.addr().port, 50002);
    assert_eq!(addr_str, addr.to_text());
}

#[test]
fn test_parse_tcp_with_ipv6() {
    let addr_str = "tcp://[::1]:50001";
    let addr = ElectrumServerAddress::parse(addr_str).unwrap();
    assert_eq!(*addr.scheme(), Scheme::Tcp);
    assert_eq!(
        addr.addr().host,
        Host::Ip(IpAddr::V6([0, 0, 0, 0, 0, 0, 0, 1]))
    );
    assert_eq!(addr.addr().port, 50001);
    assert_eq!(addr_str, addr.to_text());
}

#[test]
fn test_parse_ssl_with_ipv6() {
    let addr_str = "ssl://[2001:db8::1]:50002";
    let addr: ElectrumServerAddress = ElectrumServerAddress::parse(addr_str).unwrap();
    assert_eq!(*addr.scheme(), Scheme::Ssl);
    assert_eq!(
        addr.addr().host,
        Host::Ip(IpAddr::V6([0x2001, 0xdb8, 0, 0, 0, 0, 0, 1]))
    );
    assert_eq!(addr.addr().port, 50002);
    assert_eq!(addr_str, addr.to_text());
}

#[test]
fn test_parse_with_invalid_scheme() {
    let result = ElectrumServerAddress::parse("http://example.com:80");
    assert_eq!(result.unwrap_err(), Error::InvalidScheme);
}

#[test]
fn test_parse_with_empty_host() {
    let result = ElectrumServerAddress::parse("tcp://:50001");
    assert_eq!(result.unwrap_err(), Error::EmptyHost);
}

#[test]
fn test_parse_without_scheme() {
    let result = ElectrumServerAddress::parse("electrum.example.com:50001");
    assert!(result.is_err());
    assert_eq!(result.unwrap_err(), Error::MissingScheme);
}

#[test]
fn test_parse_without_port() {
    let result = ElectrumServerAddress::parse("ssl://electrum.example.com");
    assert_eq!(result.unwrap_err(), Error::MissingPort);
}

#[test]
fn ports_are_held_to_their_range() {
    let port = |text: &str| ElectrumServerAddress::parse(text).map(|a| a.addr().port);
    assert_eq!(port("tcp://h:65535"), Ok(65535));
    assert_eq!(port("tcp://h:+7"), Ok(7));
    assert_eq!(port("tcp://h:007"), Ok(7));
    assert_eq!(
        port("tcp://h:65536"),
        Err(Error::ParseInt(ParseIntError::PosOverflow))
    );
    assert_eq!(port("tcp://h:"), Err(Error::ParseInt(ParseIntError::Empty)));
    assert_eq!(
        port("tcp://h:80x"),
        Err(Error::ParseInt(ParseIntError::InvalidDigit))
    );
}

#[test]
fn malformed_addresses_are_refused() {
    for text in ["[::1]50001", "[::1", "[::1]"] {
        assert_eq!(HostAndPort::parse(text).unwrap_err(), Error::InvalidFormat);
    }
    assert_eq!(HostAndPort::parse("[]:1").unwrap_err(), Error::EmptyHost);
    assert_eq!(
        HostAndPort::parse("[::1]:").unwrap_err(),
        Error::ParseInt(ParseIntError::Empty)
    );
    assert_eq!(
        HostAndPort::parse("::1"),
        Ok(HostAndPort {
            host: Host::Domain(String::from(":")),
            port: 1
        })
    );
    assert_eq!(Host::parse("").unwrap_err(), Error::EmptyHost);
    assert_eq!(Scheme::parse("SSL").unwrap_err(), Error::InvalidScheme);
    assert_eq!(Scheme::parse("tcp"), Ok(Scheme::Tcp));
    assert_eq!(Scheme::Ssl.as_str(), "ssl");
}

#[test]
fn shown_addresses_read_back() {
    for text in [
        "tcp://10.0.0.255:1",
        "ssl://[::]:2",
        "ssl://[1:2:3:4:5:6:7:8]:3",
        "tcp://[::ffff:1.2.3.4]:4",
        "tcp://[2001:db8:0:1:1:1:1:1]:5",
        "tcp://[1::2:0:0:3]:6",
        "tcp://a_domain:65535",
    ] {
        let addr = ElectrumServerAddress::parse(text).unwrap();
        let again = ElectrumServerAddress::parse(&addr.to_text()).unwrap();
        assert_eq!(addr, again);
    }
    let odd = ElectrumServerAddress::parse("tcp://[0:0:0:0:0:ffff:102:304]:4").unwrap();
    assert_eq!(odd.to_text(), "tcp://[::ffff:1.2.3.4]:4");
    let long = ElectrumServerAddress::parse("ssl://[1:0:0:2:0:0:0:3]:9").unwrap();
    assert_eq!(long.to_text(), "ssl://[1:0:0:2::3]:9");
}

#[test]
fn ip_addresses_are_read() {
    let read = |text: &str| IpAddr::parse(&characters(text));
    for text in [
        "256.0.0.1",
        "01.2.3.4",
        "1.2.3",
        "1.2.3.4.5",
        "1:2:3:4:5:6:7",
        "1:2:3:4:5:6:7:8:9",
        "1::2::3",
        "12345::",
        "g::",
        ":::",
        "::1.2.3.4.5",
        "1:2:3:4:5:6:7:1.2.3.4",
        "1::2:3:4:5:6:7:8",
        "",
        " ::1",
        "fe80::1%eth0",
    ] {
        assert_eq!(read(text), None, "{text}");
    }
    assert_eq!(read("0.0.0.0"), Some(IpAddr::V4([0; 4])));
    assert_eq!(read("255.255.255.255"), Some(IpAddr::V4([255; 4])));
    assert_eq!(read("::"), Some(IpAddr::V6([0; 8])));
    assert_eq!(read("1::"), Some(IpAddr::V6([1, 0, 0, 0, 0, 0, 0, 0])));
    assert_eq!(read("1:2:3:4:5:6:7:8"), Some(IpAddr::V6([1, 2, 3, 4, 5, 6, 7, 8])));
    assert_eq!(read("1:2:3:4:5:6:7::"), Some(IpAddr::V6([1, 2, 3, 4, 5, 6, 7, 0])));
    assert_eq!(
        read("::ffff:1.2.3.4"),
        Some(IpAddr::V6([0, 0, 0, 0, 0, 0xffff, 0x102, 0x304]))
    );
    assert_eq!(
        read("1:2:3:4:5:6:1.2.3.4"),
        Some(IpAddr::V6([1, 2, 3, 4, 5, 6, 0x102, 0x304]))
    );
    assert_eq!(
        read("ABCD::ef01"),
        Some(IpAddr::V6([0xabcd, 0, 0, 0, 0, 0, 0, 0xef01]))
    );
}

#[test]
fn ip_addresses_are_shown() {
    for (segments, shown) in [
        ([0u16; 8], "::"),
        ([0, 0, 0, 0, 0, 0, 0, 1], "::1"),
        ([1, 0, 0, 0, 0, 0, 0, 0], "1::"),
        ([1, 0, 0, 2, 0, 0, 0, 3], "1:0:0:2::3"),
        ([0, 0, 1, 0, 0, 1, 0, 0], "::1:0:0:1:0:0"),
        ([1, 0, 2, 0, 3, 0, 4, 0], "1:0:2:0:3:0:4:0"),
        ([0, 0, 0, 0, 0, 0xffff, 0x102, 0x304], "::ffff:1.2.3.4"),
        ([0, 0, 0, 0, 0, 0, 0x102, 0x304], "::102:304"),
        ([0xabcd, 0xef, 0, 0, 0, 0, 0, 0xffff], "abcd:ef::ffff"),
    ] {
        let mut text = String::new();
        IpAddr::V6(segments).append_to(&mut text);
        assert_eq!(text, shown);
    }
    let mut text = String::from("host ");
    IpAddr::V4([192, 168, 0, 1]).append_to(&mut text);
    assert_eq!(text, "host 192.168.0.1");
}

#[test]
fn address_errors_say_what_is_wrong() {
    assert_eq!(Error::MissingScheme.message(), "missing scheme");
    assert_eq!(Error::InvalidScheme.message(), "invalid scheme");
    assert_eq!(Error::EmptyHost.message(), "empty host");
    assert_eq!(Error::MissingPort.message(), "missing port");
    assert_eq!(Error::MissingHost.message(), "missing host");
    assert_eq!(Error::InvalidFormat.message(), "invalid format");
    assert_eq!(
        Error::ParseInt(ParseIntError::Empty).message(),
        "cannot parse integer from empty string"
    );
    assert_eq!(
        Error::ParseInt(ParseIntError::InvalidDigit).message(),
        "invalid digit found in string"
    );
    assert_eq!(
        Error::ParseInt(ParseIntError::PosOverflow).message(),
        "number too large to fit in target type"
    );
}
