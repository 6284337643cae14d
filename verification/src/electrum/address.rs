//! Electrum server address.
use vstd::prelude::*;
use vstd::string::*;

use crate::ip::{
    decimal_digit, decimal_reads_back, hexadecimal_digit, ip_text_is_unique, ipv4_text,
    is_ip_shown_as, is_ip_text, is_longest_run, is_mapped, mapped_octets, segments_text,
    shown_ip_reads_back, IpAddr,
};
use crate::ordered::characters;
use crate::text::{append_decimal, decimal, hexadecimal};

verus! {

/// Why a text stands for no number.
#[derive(Debug, Clone, Copy, PartialEq, Eq)]
pub enum ParseIntError {
    /// There is nothing in it.
    Empty,
    /// There is something other than a digit in it.
    InvalidDigit,
    /// The number is too large.
    PosOverflow,
}

impl ParseIntError {
    /// What the error says.
    pub fn message(&self) -> (r: &'static str)
        ensures
            r@ == match *self {
                ParseIntError::Empty => "cannot parse integer from empty string"@,
                ParseIntError::InvalidDigit => "invalid digit found in string"@,
                ParseIntError::PosOverflow => "number too large to fit in target type"@,
            },
    {
        match self {
            ParseIntError::Empty => "cannot parse integer from empty string",
            ParseIntError::InvalidDigit => "invalid digit found in string",
            ParseIntError::PosOverflow => "number too large to fit in target type",
        }
    }
}

/// Electrum address parse error.
#[derive(Debug, Clone, Copy, PartialEq, Eq)]
pub enum Error {
    /// Parse int error
    ParseInt(ParseIntError),
    /// Invalid format
    InvalidFormat,
    /// Missing scheme
    MissingScheme,
    /// Invalid address scheme
    InvalidScheme,
    /// Missing host
    MissingHost,
    /// Empty host
    EmptyHost,
    /// Missing port
    MissingPort,
}

impl Error {
    /// What the error says.
    pub fn message(&self) -> (r: &'static str)
        ensures
            r@ == match *self {
                Error::ParseInt(ParseIntError::Empty) => "cannot parse integer from empty string"@,
                Error::ParseInt(ParseIntError::InvalidDigit) => "invalid digit found in string"@,
                Error::ParseInt(ParseIntError::PosOverflow) => {
                    "number too large to fit in target type"@
                },
                Error::InvalidFormat => "invalid format"@,
                Error::MissingScheme => "missing scheme"@,
                Error::InvalidScheme => "invalid scheme"@,
                Error::MissingHost => "missing host"@,
                Error::EmptyHost => "empty host"@,
                Error::MissingPort => "missing port"@,
            },
    {
        match self {
            Error::ParseInt(e) => e.message(),
            Error::InvalidFormat => "invalid format",
            Error::MissingScheme => "missing scheme",
            Error::InvalidScheme => "invalid scheme",
            Error::MissingHost => "missing host",
            Error::EmptyHost => "empty host",
            Error::MissingPort => "missing port",
        }
    }
}

/// How the server is spoken to.
#[derive(Debug, Clone, Copy, PartialEq, Eq, PartialOrd, Ord, Hash)]
pub enum Scheme {
    /// Plain.
    Tcp,
    /// Encrypted.
    Ssl,
}

/// The name of a scheme.
pub open spec fn scheme_text(scheme: Scheme) -> Seq<char> {
    match scheme {
        Scheme::Tcp => seq!['t', 'c', 'p'],
        Scheme::Ssl => seq!['s', 's', 'l'],
    }
}

impl Scheme {
    /// The scheme with a name.
    pub fn parse(scheme: &str) -> (r: Result<Self, Error>)
        ensures
            match r {
                Ok(found) => scheme@ == scheme_text(found),
                Err(e) => e == Error::InvalidScheme && scheme@ != scheme_text(Scheme::Tcp)
                    && scheme@ != scheme_text(Scheme::Ssl),
            },
    {
        let text = characters(scheme);
        if text.len() == 3 && text[0] == 't' && text[1] == 'c' && text[2] == 'p' {
            proof {
                assert(scheme@ =~= scheme_text(Scheme::Tcp));
            }
            Ok(Scheme::Tcp)
        } else if text.len() == 3 && text[0] == 's' && text[1] == 's' && text[2] == 'l' {
            proof {
                assert(scheme@ =~= scheme_text(Scheme::Ssl));
            }
            Ok(Scheme::Ssl)
        } else {
            Err(Error::InvalidScheme)
        }
    }

    /// The name of the scheme.
    pub fn as_str(&self) -> (r: &'static str)
        ensures
            r@ == scheme_text(*self),
    {
        proof {
            reveal_strlit("tcp");
            reveal_strlit("ssl");
            assert("tcp"@ =~= scheme_text(Scheme::Tcp));
            assert("ssl"@ =~= scheme_text(Scheme::Ssl));
        }
        match self {
            Scheme::Tcp => "tcp",
            Scheme::Ssl => "ssl",
        }
    }
}

/// Where the server is.
#[derive(Debug, Clone, PartialEq, Eq, Hash)]
pub enum Host {
    /// An IP address.
    Ip(IpAddr),
    /// A domain.
    Domain(String),
}

/// Where the server is, as contracts speak of it.
pub enum HostView {
    /// An IP address.
    Ip(IpAddr),
    /// A domain.
    Domain(Seq<char>),
}

impl View for Host {
    type V = HostView;

    open spec fn view(&self) -> HostView {
        match self {
            Host::Ip(ip) => HostView::Ip(*ip),
            Host::Domain(domain) => HostView::Domain(domain@),
        }
    }
}

/// The host that a text stands for: an IP address where it stands for one, and a domain otherwise.
pub open spec fn host_of(text: Seq<char>) -> HostView {
    if exists|ip: IpAddr| is_ip_text(text, ip) {
        HostView::Ip(choose|ip: IpAddr| is_ip_text(text, ip))
    } else {
        HostView::Domain(text)
    }
}

/// Whether this is the text of a host.
pub open spec fn is_host_shown_as(host: HostView, text: Seq<char>) -> bool {
    match host {
        HostView::Ip(ip) => match ip {
            IpAddr::V4(octets) => is_ip_shown_as(ip, text),
            IpAddr::V6(segments) => exists|inner: Seq<char>| #[trigger]
                is_ip_shown_as(ip, inner) && text == seq!['['] + inner + seq![']'],
        },
        HostView::Domain(domain) => text == domain,
    }
}

impl Host {
    /// The host that a text stands for.
    pub fn parse(host: &str) -> (r: Result<Self, Error>)
        ensures
            match r {
                Ok(found) => host@.len() > 0 && found@ == host_of(host@),
                Err(e) => host@.len() == 0 && e == Error::EmptyHost,
            },
    {
        let text = characters(host);
        if text.len() == 0 {
            return Err(Error::EmptyHost);
        }
        match IpAddr::parse(&text) {
            Some(ip) => {
                proof {
                    let chosen = choose|ip: IpAddr| is_ip_text(host@, ip);
                    assert(is_ip_text(host@, ip));
                    ip_text_is_unique(host@, ip, chosen);
                }
                Ok(Host::Ip(ip))
            },
            None => Ok(Host::Domain(host.to_owned())),
        }
    }

    /// Appends the text of the host; an IPv6 address stands in brackets.
    pub fn append_to(&self, output: &mut String)
        ensures
            exists|text: Seq<char>| #[trigger]
                is_host_shown_as(self@, text) && final(output)@ == old(output)@ + text,
    {
        let ghost before = output@;
        match self {
            Host::Ip(ip) => match ip {
                IpAddr::V4(_) => {
                    ip.append_to(output);
                    proof {
                        let text = choose|text: Seq<char>| #[trigger]
                            is_ip_shown_as(*ip, text) && output@ == before + text;
                        assert(is_host_shown_as(self@, text));
                    }
                },
                IpAddr::V6(_) => {
                    proof {
                        reveal_strlit("[");
                        reveal_strlit("]");
                    }
                    output.append("[");
                    let ghost opened = output@;
                    ip.append_to(output);
                    let ghost filled = output@;
                    output.append("]");
                    proof {
                        let inner = choose|text: Seq<char>| #[trigger]
                            is_ip_shown_as(*ip, text) && filled == opened + text;
                        let text = seq!['['] + inner + seq![']'];
                        assert(is_ip_shown_as(*ip, inner));
                        assert(output@ =~= before + text);
                        assert(is_host_shown_as(self@, text));
                    }
                },
            },
            Host::Domain(domain) => {
                output.append(domain.as_str());
                proof {
                    assert(is_host_shown_as(self@, domain@));
                }
            },
        }
    }
}

/// Reads a port digit by digit, from the left.
pub open spec fn read_port(digits: Seq<char>) -> Result<nat, ParseIntError>
    decreases digits.len(),
{
    if digits.len() == 0 {
        Ok(0)
    } else {
        match (read_port(digits.drop_last()), decimal_digit(digits.last())) {
            (Err(e), _) => Err(e),
            (Ok(high), None) => Err(ParseIntError::InvalidDigit),
            (Ok(high), Some(low)) => if high * 10 + low <= 65535 {
                Ok(high * 10 + low)
            } else {
                Err(ParseIntError::PosOverflow)
            },
        }
    }
}

/// The port that a text stands for: decimal digits, with a plus sign or without.
pub open spec fn port_of(text: Seq<char>) -> Result<nat, ParseIntError> {
    if text.len() == 0 {
        Err(ParseIntError::Empty)
    } else if text.len() == 1 && (text[0] == '+' || text[0] == '-') {
        Err(ParseIntError::InvalidDigit)
    } else if text[0] == '+' {
        read_port(text.drop_first())
    } else {
        read_port(text)
    }
}

/// A port that is too large or no port at all is so whatever follows.
proof fn port_error_stays(digits: Seq<char>, n: int)
    requires
        0 <= n <= digits.len(),
        read_port(digits.take(n)) is Err,
    ensures
        read_port(digits) == read_port(digits.take(n)),
    decreases digits.len(),
{
    if n == digits.len() {
        assert(digits.take(n) =~= digits);
    } else {
        assert(digits.drop_last().take(n) =~= digits.take(n));
        port_error_stays(digits.drop_last(), n);
    }
}

/// The port that the part of a text from a position on stands for.
fn parse_port(text: &Vec<char>, from: usize) -> (r: Result<u16, ParseIntError>)
    requires
        from <= text.len(),
    ensures
        match r {
            Ok(port) => port_of(text@.skip(from as int)) == Ok::<nat, ParseIntError>(port as nat),
            Err(e) => port_of(text@.skip(from as int)) == Err::<nat, ParseIntError>(e),
        },
{
    let ghost whole = text@.skip(from as int);
    let n = text.len() - from;
    if n == 0 {
        return Err(ParseIntError::Empty);
    }
    if n == 1 && (text[from] == '+' || text[from] == '-') {
        return Err(ParseIntError::InvalidDigit);
    }
    let start = if text[from] == '+' {
        from + 1
    } else {
        from
    };
    let ghost digits = text@.skip(start as int);
    proof {
        if start > from {
            assert(whole.drop_first() =~= digits);
        }
        assert(digits.take(0) =~= Seq::<char>::empty());
    }
    let mut value: u32 = 0;
    let mut i: usize = start;
    while i < text.len()
        invariant
            start <= i <= text.len(),
            digits == text@.skip(start as int),
            read_port(digits.take(i - start)) == Ok::<nat, ParseIntError>(value as nat),
            value <= 65535,
            port_of(text@.skip(from as int)) == read_port(digits),
        decreases text.len() - i,
    {
        let c = text[i];
        proof {
            let next = digits.take(i + 1 - start);
            assert(next.drop_last() =~= digits.take(i - start));
            assert(next.last() == c);
            if read_port(next) is Err {
                port_error_stays(digits, i + 1 - start);
            }
        }
        if '0' <= c && c <= '9' {
            let next = value * 10 + (c as u32 - '0' as u32);
            if next > 65535 {
                return Err(ParseIntError::PosOverflow);
            }
            value = next;
        } else {
            return Err(ParseIntError::InvalidDigit);
        }
        i = i + 1;
    }
    proof {
        assert(digits.take(digits.len() as int) =~= digits);
    }
    Ok(value as u16)
}

/// The first position of a character.
pub open spec fn first_index(text: Seq<char>, c: char) -> Option<int>
    decreases text.len(),
{
    if text.len() == 0 {
        None
    } else if text[0] == c {
        Some(0)
    } else {
        match first_index(text.drop_first(), c) {
            Some(i) => Some(i + 1),
            None => None,
        }
    }
}

/// The last position of a character.
pub open spec fn last_index(text: Seq<char>, c: char) -> Option<int>
    decreases text.len(),
{
    if text.len() == 0 {
        None
    } else if text.last() == c {
        Some(text.len() - 1)
    } else {
        last_index(text.drop_last(), c)
    }
}

/// Whether the mark between scheme and host stands at the beginning.
pub open spec fn begins_with_mark(text: Seq<char>) -> bool {
    text.len() >= 3 && text[0] == ':' && text[1] == '/' && text[2] == '/'
}

/// The first position of the mark between scheme and host.
pub open spec fn first_mark(text: Seq<char>) -> Option<int>
    decreases text.len(),
{
    if text.len() == 0 {
        None
    } else if begins_with_mark(text) {
        Some(0)
    } else {
        match first_mark(text.drop_first()) {
            Some(i) => Some(i + 1),
            None => None,
        }
    }
}

/// What stands for the host and what for the port: an IPv6 address stands in brackets before a colon,
/// and anything else before the last colon.
pub open spec fn host_and_port_texts(text: Seq<char>) -> Result<(Seq<char>, Seq<char>), Error> {
    if text.len() > 0 && text[0] == '[' {
        match first_index(text, ']') {
            None => Err(Error::InvalidFormat),
            Some(end) => if end + 1 < text.len() && text[end + 1] == ':' {
                Ok((text.subrange(1, end), text.skip(end + 2)))
            } else {
                Err(Error::InvalidFormat)
            },
        }
    } else {
        match last_index(text, ':') {
            None => Err(Error::MissingPort),
            Some(colon) => Ok((text.take(colon), text.skip(colon + 1))),
        }
    }
}

/// The host and port that a text stands for.
pub open spec fn host_and_port_of(text: Seq<char>) -> Result<(HostView, nat), Error> {
    match host_and_port_texts(text) {
        Err(e) => Err(e),
        Ok((host, port)) => if host.len() == 0 {
            Err(Error::EmptyHost)
        } else {
            match port_of(port) {
                Err(e) => Err(Error::ParseInt(e)),
                Ok(port) => Ok((host_of(host), port)),
            }
        },
    }
}

/// The first position of a character, from a position on.
fn find(text: &Vec<char>, from: usize, c: char) -> (r: Option<usize>)
    requires
        from <= text.len(),
    ensures
        match r {
            Some(i) => from <= i < text.len() && first_index(text@.skip(from as int), c) == Some(
                i - from,
            ),
            None => first_index(text@.skip(from as int), c) is None,
        },
    decreases text.len() - from,
{
    if from == text.len() {
        return None;
    }
    proof {
        assert(text@.skip(from as int).drop_first() =~= text@.skip(from + 1));
    }
    if text[from] == c {
        Some(from)
    } else {
        find(text, from + 1, c)
    }
}

/// The last position of a character, from a position on.
fn rfind(text: &Vec<char>, from: usize, to: usize, c: char) -> (r: Option<usize>)
    requires
        from <= to <= text.len(),
    ensures
        match r {
            Some(i) => from <= i < to && last_index(text@.subrange(from as int, to as int), c)
                == Some(i - from),
            None => last_index(text@.subrange(from as int, to as int), c) is None,
        },
    decreases to - from,
{
    if from == to {
        return None;
    }
    proof {
        assert(text@.subrange(from as int, to as int).drop_last() =~= text@.subrange(
            from as int,
            to - 1,
        ));
    }
    if text[to - 1] == c {
        Some(to - 1)
    } else {
        rfind(text, from, to - 1, c)
    }
}

/// The first position of the mark between scheme and host, from a position on.
fn find_mark(text: &Vec<char>, from: usize) -> (r: Option<usize>)
    requires
        from <= text.len(),
    ensures
        match r {
            Some(i) => from <= i && i + 3 <= text.len() && first_mark(text@.skip(from as int))
                == Some(i - from),
            None => first_mark(text@.skip(from as int)) is None,
        },
    decreases text.len() - from,
{
    if from == text.len() {
        return None;
    }
    proof {
        assert(text@.skip(from as int).drop_first() =~= text@.skip(from + 1));
    }
    if text.len() - from >= 3 && text[from] == ':' && text[from + 1] == '/' && text[from + 2]
        == '/' {
        Some(from)
    } else {
        find_mark(text, from + 1)
    }
}

/// Where the server is, and at which port it listens.
#[derive(Debug, Clone, PartialEq, Eq, Hash)]
pub struct HostAndPort {
    /// Where the server is.
    pub host: Host,
    /// The port.
    pub port: u16,
}

/// Whether this is the text of a host and a port.
pub open spec fn is_host_and_port_shown_as(host: HostView, port: u16, text: Seq<char>) -> bool {
    exists|inner: Seq<char>| #[trigger]
        is_host_shown_as(host, inner) && text == inner + seq![':'] + decimal(port as nat)
}

impl HostAndPort {
    /// The host and port that the part of a text from a position on stands for.
    fn parse_from(addr: &str, text: &Vec<char>, from: usize) -> (r: Result<Self, Error>)
        requires
            text@ == addr@,
            from <= text.len(),
        ensures
            match r {
                Ok(found) => host_and_port_of(text@.skip(from as int)) == Ok::<
                    (HostView, nat),
                    Error,
                >((found.host@, found.port as nat)),
                Err(e) => host_and_port_of(text@.skip(from as int)) == Err::<(HostView, nat), Error>(
                    e,
                ),
            },
    {
        let ghost whole = text@.skip(from as int);
        let (host_from, host_to, port_from) = if from < text.len() && text[from] == '[' {
            // IPv6 format: [ipv6]:port
            let Some(bracket_end) = find(text, from, ']') else {
                return Err(Error::InvalidFormat);
            };
            proof {
                assert(whole[bracket_end - from] == ']') by {
                    first_index_found(whole, ']');
                }
            }
            if bracket_end + 1 >= text.len() || text[bracket_end + 1] != ':' {
                return Err(Error::InvalidFormat);
            }
            proof {
                assert(whole.subrange(1, bracket_end - from) =~= text@.subrange(
                    from + 1,
                    bracket_end as int,
                ));
                assert(whole.skip(bracket_end - from + 2) =~= text@.skip(bracket_end + 2));
            }
            (from + 1, bracket_end, bracket_end + 2)
        } else {
            // IPv4 or domain format: host:port
            // Split host and port by the last ':'
            proof {
                assert(text@.subrange(from as int, text@.len() as int) =~= whole);
            }
            let Some(colon_pos) = rfind(text, from, text.len(), ':') else {
                return Err(Error::MissingPort);
            };
            proof {
                assert(whole.take(colon_pos - from) =~= text@.subrange(
                    from as int,
                    colon_pos as int,
                ));
                assert(whole.skip(colon_pos - from + 1) =~= text@.skip(colon_pos + 1));
            }
            (from, colon_pos, colon_pos + 1)
        };
        let host = match Host::parse(addr.substring_char(host_from, host_to)) {
            Ok(host) => host,
            Err(e) => {
                return Err(e);
            },
        };
        match parse_port(text, port_from) {
            Ok(port) => Ok(HostAndPort { host, port }),
            Err(e) => Err(Error::ParseInt(e)),
        }
    }

    /// The host and port that a text stands for.
    pub fn parse(host_and_port: &str) -> (r: Result<Self, Error>)
        ensures
            match r {
                Ok(found) => host_and_port_of(host_and_port@) == Ok::<(HostView, nat), Error>(
                    (found.host@, found.port as nat),
                ),
                Err(e) => host_and_port_of(host_and_port@) == Err::<(HostView, nat), Error>(e),
            },
    {
        let text = characters(host_and_port);
        proof {
            assert(text@.skip(0) =~= text@);
        }
        Self::parse_from(host_and_port, &text, 0)
    }

    /// Appends the text of the host and the port.
    pub fn append_to(&self, output: &mut String)
        ensures
            exists|text: Seq<char>| #[trigger]
                is_host_and_port_shown_as(self.host@, self.port, text) && final(output)@ == old(
                    output,
                )@ + text,
    {
        proof {
            reveal_strlit(":");
        }
        let ghost before = output@;
        self.host.append_to(output);
        let ghost shown = output@;
        output.append(":");
        append_decimal(output, self.port as u32);
        proof {
            let inner = choose|text: Seq<char>| #[trigger]
                is_host_shown_as(self.host@, text) && shown == before + text;
            let text = inner + seq![':'] + decimal(self.port as nat);
            assert(is_host_shown_as(self.host@, inner));
            assert(is_host_and_port_shown_as(self.host@, self.port, text));
            assert(output@ =~= before + text);
        }
    }
}

/// Where a character was found it stands, and not before.
proof fn first_index_found(text: Seq<char>, c: char)
    ensures
        match first_index(text, c) {
            Some(i) => 0 <= i < text.len() && text[i] == c && forall|j: int|
                0 <= j < i ==> #[trigger] text[j] != c,
            None => forall|j: int| 0 <= j < text.len() ==> #[trigger] text[j] != c,
        },
    decreases text.len(),
{
    if text.len() > 0 && text[0] != c {
        let rest = text.drop_first();
        first_index_found(rest, c);
        match first_index(text, c) {
            Some(i) => {
                assert(rest[i - 1] == text[i]);
                assert forall|j: int| 0 <= j < i implies #[trigger] text[j] != c by {
                    if j > 0 {
                        assert(rest[j - 1] == text[j]);
                    }
                }
            },
            None => {
                assert forall|j: int| 0 <= j < text.len() implies #[trigger] text[j] != c by {
                    if j > 0 {
                        assert(rest[j - 1] == text[j]);
                    }
                }
            },
        }
    }
}

/// Electrum server address.
#[derive(Debug, Clone, PartialEq, Eq, Hash)]
pub struct ElectrumServerAddress {
    scheme: Scheme,
    addr: HostAndPort,
}

/// Electrum server address, as contracts speak of it.
pub struct AddressView {
    /// How the server is spoken to.
    pub scheme: Scheme,
    /// Where the server is.
    pub host: HostView,
    /// The port.
    pub port: u16,
}

impl View for ElectrumServerAddress {
    type V = AddressView;

    closed spec fn view(&self) -> AddressView {
        AddressView { scheme: self.scheme, host: self.addr.host@, port: self.addr.port }
    }
}

/// The scheme with a name.
pub open spec fn scheme_of(text: Seq<char>) -> Option<Scheme> {
    if text == scheme_text(Scheme::Tcp) {
        Some(Scheme::Tcp)
    } else if text == scheme_text(Scheme::Ssl) {
        Some(Scheme::Ssl)
    } else {
        None
    }
}

/// The address that a text stands for.
pub open spec fn address_of(text: Seq<char>) -> Result<AddressView, Error> {
    match first_mark(text) {
        None => Err(Error::MissingScheme),
        Some(mark) => match scheme_of(text.take(mark)) {
            None => Err(Error::InvalidScheme),
            Some(scheme) => match host_and_port_of(text.skip(mark + 3)) {
                Err(e) => Err(e),
                Ok((host, port)) => Ok(AddressView { scheme, host, port: port as u16 }),
            },
        },
    }
}

/// Whether this is the text of an address.
pub open spec fn is_address_shown_as(address: AddressView, text: Seq<char>) -> bool {
    exists|inner: Seq<char>| #[trigger]
        is_host_and_port_shown_as(address.host, address.port, inner) && text == scheme_text(
            address.scheme,
        ) + seq![':', '/', '/'] + inner
}

impl ElectrumServerAddress {
    /// Parse an electrum server address
    ///
    /// Allowed formats:
    /// - `tcp://<ip-or-domain>:<port>`
    /// - `ssl://<ip-or-domain>:<port>`
    pub fn parse(addr: &str) -> (r: Result<Self, Error>)
        ensures
            match r {
                Ok(found) => address_of(addr@) == Ok::<AddressView, Error>(found@),
                Err(e) => address_of(addr@) == Err::<AddressView, Error>(e),
            },
    {
        let text = characters(addr);
        proof {
            assert(text@.skip(0) =~= text@);
        }
        // Split by "://"
        let Some(mark) = find_mark(&text, 0) else {
            return Err(Error::MissingScheme);
        };
        let scheme_name = addr.substring_char(0, mark);
        proof {
            assert(scheme_name@ =~= addr@.take(mark as int));
            assert(scheme_text(Scheme::Tcp)[0] != scheme_text(Scheme::Ssl)[0]);
        }
        let scheme = match Scheme::parse(scheme_name) {
            Ok(scheme) => scheme,
            Err(e) => {
                return Err(e);
            },
        };
        match HostAndPort::parse_from(addr, &text, mark + 3) {
            Ok(addr) => Ok(ElectrumServerAddress { scheme, addr }),
            Err(e) => Err(e),
        }
    }

    /// How the server is spoken to.
    pub fn scheme(&self) -> (r: &Scheme)
        ensures
            *r == self@.scheme,
    {
        &self.scheme
    }

    /// Where the server is, and at which port it listens.
    pub fn addr(&self) -> (r: &HostAndPort)
        ensures
            r.host@ == self@.host,
            r.port == self@.port,
    {
        &self.addr
    }

    /// The text of the address.
    pub fn to_text(&self) -> (r: String)
        ensures
            is_address_shown_as(self@, r@),
    {
        proof {
            reveal_strlit("://");
        }
        let mut r = self.scheme.as_str().to_owned();
        r.append("://");
        let ghost before = r@;
        self.addr.append_to(&mut r);
        proof {
            let inner = choose|text: Seq<char>| #[trigger]
                is_host_and_port_shown_as(self@.host, self@.port, text) && r@ == before + text;
            assert(is_host_and_port_shown_as(self@.host, self@.port, inner));
            assert(r@ =~= scheme_text(self@.scheme) + seq![':', '/', '/'] + inner);
        }
        r
    }
}

impl std::str::FromStr for ElectrumServerAddress {
    type Err = Error;

    fn from_str(addr: &str) -> (r: Result<Self, Error>)
        ensures
            match r {
                Ok(found) => address_of(addr@) == Ok::<AddressView, Error>(found@),
                Err(e) => address_of(addr@) == Err::<AddressView, Error>(e),
            },
    {
        Self::parse(addr)
    }
}

/// The decimal digits of a port stand for it.
proof fn port_reads_back(n: nat)
    requires
        n <= 65535,
    ensures
        port_of(decimal(n)) == Ok::<nat, ParseIntError>(n),
{
    decimal_reads_back(n);
    port_digits_read_back(n);
    assert(decimal_digit(decimal(n)[0]) is Some);
}

proof fn port_digits_read_back(n: nat)
    requires
        n <= 65535,
    ensures
        read_port(decimal(n)) == Ok::<nat, ParseIntError>(n),
    decreases n,
{
    let d = decimal(n);
    if n < 10 {
        assert(d.drop_last() =~= Seq::<char>::empty());
        assert(read_port(d.drop_last()) == Ok::<nat, ParseIntError>(0));
        decimal_reads_back(n);
        assert(decimal_digit(d.last()) == Some(n));
    } else {
        port_digits_read_back(n / 10);
        assert(d.drop_last() =~= decimal(n / 10));
        assert(decimal_digit(d.last()) == Some(n % 10)) by {
            decimal_reads_back(n % 10);
            assert(decimal(n % 10) =~= seq![d.last()]);
            assert(decimal(n % 10).drop_last() =~= Seq::<char>::empty());
        }
    }
}

/// The last colon of a text with digits behind it is the one before them.
proof fn last_colon(host: Seq<char>, digits: Seq<char>)
    requires
        forall|i: int| 0 <= i < digits.len() ==> decimal_digit(#[trigger] digits[i]) is Some,
    ensures
        last_index(host + seq![':'] + digits, ':') == Some(host.len() as int),
    decreases digits.len(),
{
    let text = host + seq![':'] + digits;
    if digits.len() > 0 {
        let init = digits.drop_last();
        assert forall|i: int| 0 <= i < init.len() implies decimal_digit(#[trigger] init[i])
            is Some by {
            assert(init[i] == digits[i]);
        }
        last_colon(host, init);
        assert(text.drop_last() =~= host + seq![':'] + init);
        assert(text.last() == digits[digits.len() - 1]);
    }
}

/// Whether a character can be in the text of an IP address.
spec fn is_ip_char(c: char) -> bool {
    hexadecimal_digit(c) is Some || c == ':' || c == '.'
}

/// Whether all of a text can be in the text of an IP address.
spec fn is_ip_like(text: Seq<char>) -> bool {
    forall|i: int| 0 <= i < text.len() ==> is_ip_char(#[trigger] text[i])
}

proof fn ip_like_joins(a: Seq<char>, b: Seq<char>)
    requires
        is_ip_like(a),
        is_ip_like(b),
    ensures
        is_ip_like(a + b),
{
    assert forall|i: int| 0 <= i < (a + b).len() implies is_ip_char(#[trigger] (a + b)[i]) by {
        if i < a.len() {
            assert((a + b)[i] == a[i]);
        } else {
            assert((a + b)[i] == b[i - a.len()]);
        }
    }
}

proof fn digits_are_ip_like(n: nat)
    ensures
        is_ip_like(decimal(n)),
        is_ip_like(hexadecimal(n)),
    decreases n,
{
    decimal_reads_back(n);
    hexadecimal_is_ip_like(n);
    assert forall|i: int| 0 <= i < decimal(n).len() implies is_ip_char(#[trigger] decimal(n)[i]) by {
        assert(decimal_digit(decimal(n)[i]) is Some);
    }
}

proof fn hexadecimal_is_ip_like(n: nat)
    ensures
        is_ip_like(hexadecimal(n)),
    decreases n,
{
    if n >= 16 {
        hexadecimal_is_ip_like(n / 16);
        assert forall|i: int| 0 <= i < hexadecimal(n).len() implies is_ip_char(
            #[trigger] hexadecimal(n)[i],
        ) by {
            if i < hexadecimal(n / 16).len() {
                assert(hexadecimal(n)[i] == hexadecimal(n / 16)[i]);
            }
        }
    }
}

proof fn ipv4_is_ip_like(octets: Seq<u8>)
    ensures
        is_ip_like(ipv4_text(octets)),
{
    let a = decimal(octets[0] as nat);
    let b = decimal(octets[1] as nat);
    let c = decimal(octets[2] as nat);
    let d = decimal(octets[3] as nat);
    let dot = seq!['.'];
    digits_are_ip_like(octets[0] as nat);
    digits_are_ip_like(octets[1] as nat);
    digits_are_ip_like(octets[2] as nat);
    digits_are_ip_like(octets[3] as nat);
    ip_like_joins(c, dot);
    ip_like_joins(c + dot, d);
    ip_like_joins(b, dot);
    ip_like_joins(b + dot, c + dot + d);
    ip_like_joins(a, dot);
    ip_like_joins(a + dot, b + dot + (c + dot + d));
}

proof fn segments_are_ip_like(segments: Seq<u16>)
    ensures
        is_ip_like(segments_text(segments)),
    decreases segments.len(),
{
    if segments.len() == 1 {
        digits_are_ip_like(segments[0] as nat);
    } else if segments.len() > 1 {
        let colon = seq![':'];
        segments_are_ip_like(segments.drop_last());
        digits_are_ip_like(segments.last() as nat);
        ip_like_joins(segments_text(segments.drop_last()), colon);
        ip_like_joins(
            segments_text(segments.drop_last()) + colon,
            hexadecimal(segments.last() as nat),
        );
    }
}

/// The text of an IP address is made of digits, colons and dots.
proof fn shown_ip_is_ip_like(ip: IpAddr, text: Seq<char>)
    requires
        is_ip_shown_as(ip, text),
    ensures
        is_ip_like(text),
{
    match ip {
        IpAddr::V4(octets) => {
            ipv4_is_ip_like(octets@);
        },
        IpAddr::V6(segments) => {
            let s = segments@;
            if is_mapped(s) {
                ipv4_is_ip_like(mapped_octets(s));
                ip_like_joins(
                    seq![':', ':', 'f', 'f', 'f', 'f', ':'],
                    ipv4_text(mapped_octets(s)),
                );
            } else {
                let (start, len) = choose|start: int, len: int| #[trigger]
                    is_longest_run(s, start, len) && text == (if len > 1 {
                        segments_text(s.take(start)) + seq![':', ':'] + segments_text(
                            s.skip(start + len),
                        )
                    } else {
                        segments_text(s)
                    });
                segments_are_ip_like(s);
                segments_are_ip_like(s.take(start));
                segments_are_ip_like(s.skip(start + len));
                ip_like_joins(segments_text(s.take(start)), seq![':', ':']);
                ip_like_joins(
                    segments_text(s.take(start)) + seq![':', ':'],
                    segments_text(s.skip(start + len)),
                );
            }
        },
    }
}

/// The text of an IP address is not empty.
proof fn shown_ip_is_not_empty(ip: IpAddr, text: Seq<char>)
    requires
        is_ip_shown_as(ip, text),
    ensures
        text.len() > 0,
{
    shown_ip_reads_back(ip, text);
    match ip {
        IpAddr::V4(octets) => {
            decimal_reads_back(octets@[0] as nat);
        },
        IpAddr::V6(segments) => {
            if text.len() == 0 {
                assert forall|gap: int| !crate::ip::is_first_gap(text, gap) by {
                    assert(!crate::ip::is_gap(text, gap));
                }
            }
        },
    }
}

/// What an address was made of when its text is taken apart again. A domain that begins with a bracket
/// would be taken for an IPv6 address, and one that is empty or stands for an IP address is no domain.
pub open spec fn is_readable(host: HostView) -> bool {
    match host {
        HostView::Ip(ip) => true,
        HostView::Domain(domain) => domain.len() > 0 && domain[0] != '[' && forall|ip: IpAddr|
            !#[trigger] is_ip_text(domain, ip),
    }
}

/// The text that is shown for a host and a port stands for them.
pub proof fn shown_host_and_port_reads_back(host: HostView, port: u16, text: Seq<char>)
    requires
        is_readable(host),
        is_host_and_port_shown_as(host, port, text),
    ensures
        host_and_port_of(text) == Ok::<(HostView, nat), Error>((host, port as nat)),
{
    let digits = decimal(port as nat);
    let inner = choose|inner: Seq<char>| #[trigger]
        is_host_shown_as(host, inner) && text == inner + seq![':'] + digits;
    port_reads_back(port as nat);
    decimal_reads_back(port as nat);
    match host {
        HostView::Ip(ip) => {
            match ip {
                IpAddr::V4(octets) => {
                    shown_ip_reads_back(ip, inner);
                    shown_ip_is_ip_like(ip, inner);
                    shown_ip_is_not_empty(ip, inner);
                    assert(is_ip_char(inner[0]));
                    assert(text[0] == inner[0]);
                    last_colon(inner, digits);
                    assert(text.take(inner.len() as int) =~= inner);
                    assert(text.skip(inner.len() as int + 1) =~= digits);
                    let chosen = choose|ip: IpAddr| is_ip_text(inner, ip);
                    ip_text_is_unique(inner, ip, chosen);
                },
                IpAddr::V6(segments) => {
                    let bare = choose|bare: Seq<char>| #[trigger]
                        is_ip_shown_as(ip, bare) && inner == seq!['['] + bare + seq![']'];
                    shown_ip_reads_back(ip, bare);
                    shown_ip_is_ip_like(ip, bare);
                    shown_ip_is_not_empty(ip, bare);
                    let end = bare.len() as int + 1;
                    assert(text[0] == '[');
                    assert(text[end] == ']');
                    assert(text[end + 1] == ':');
                    first_index_found(text, ']');
                    assert(first_index(text, ']') == Some(end)) by {
                        let found = first_index(text, ']')->0;
                        if found < end {
                            if found > 0 {
                                assert(text[found] == bare[found - 1]);
                                assert(is_ip_char(bare[found - 1]));
                            }
                        }
                    }
                    assert(text.subrange(1, end) =~= bare);
                    assert(text.skip(end + 2) =~= digits);
                    let chosen = choose|ip: IpAddr| is_ip_text(bare, ip);
                    ip_text_is_unique(bare, ip, chosen);
                },
            }
        },
        HostView::Domain(domain) => {
            assert(text[0] == domain[0]);
            last_colon(domain, digits);
            assert(text.take(domain.len() as int) =~= domain);
            assert(text.skip(domain.len() as int + 1) =~= digits);
        },
    }
}

/// The text that is shown for an address stands for that address.
#[verifier::spinoff_prover]
#[verifier::rlimit(50)]
pub proof fn shown_address_reads_back(address: AddressView, text: Seq<char>)
    requires
        is_readable(address.host),
        is_address_shown_as(address, text),
    ensures
        address_of(text) == Ok::<AddressView, Error>(address),
{
    let inner = choose|inner: Seq<char>| #[trigger]
        is_host_and_port_shown_as(address.host, address.port, inner) && text == scheme_text(
            address.scheme,
        ) + seq![':', '/', '/'] + inner;
    shown_host_and_port_reads_back(address.host, address.port, inner);
    let one = text.drop_first();
    let two = one.drop_first();
    let three = two.drop_first();
    assert(three =~= seq![':', '/', '/'] + inner);
    assert(first_mark(three) == Some(0int));
    assert(two[0] == scheme_text(address.scheme)[2]);
    assert(one[0] == scheme_text(address.scheme)[1]);
    assert(text[0] == scheme_text(address.scheme)[0]);
    assert(first_mark(two) == Some(1int));
    assert(first_mark(one) == Some(2int));
    assert(first_mark(text) == Some(3int));
    assert(text.take(3) =~= scheme_text(address.scheme));
    assert(scheme_text(Scheme::Tcp)[0] != scheme_text(Scheme::Ssl)[0]);
    assert(text.skip(6) =~= inner);
}

/// What an address was parsed from and what is shown for it stand for the same address, unless its
/// host is a domain that begins with a bracket.
pub proof fn parsed_address_reads_back(source: Seq<char>, address: AddressView, text: Seq<char>)
    requires
        address_of(source) == Ok::<AddressView, Error>(address),
        is_address_shown_as(address, text),
        !(address.host matches HostView::Domain(domain) && domain[0] == '['),
    ensures
        address_of(text) == Ok::<AddressView, Error>(address),
{
    shown_address_reads_back(address, text);
}

/// A text is looked through for a character from either end: what is found is the first one, or the last one,
/// and nothing is found only where there is none.
pub proof fn characters_are_found_from_either_end(text: Seq<char>, c: char, i: int)
    ensures
        match first_index(text, c) {
            Some(at) => 0 <= at < text.len() && text[at] == c && (0 <= i < at ==> text[i] != c),
            None => 0 <= i < text.len() ==> text[i] != c,
        },
        match last_index(text, c) {
            Some(at) => 0 <= at < text.len() && text[at] == c && (at < i < text.len() ==> text[i]
                != c),
            None => 0 <= i < text.len() ==> text[i] != c,
        },
    decreases text.len(),
{
    first_index_found(text, c);
    if text.len() > 0 && text.last() != c {
        characters_are_found_from_either_end(text.drop_last(), c, i);
        if 0 <= i < text.len() - 1 {
            assert(text.drop_last()[i] == text[i]);
        }
        if last_index(text.drop_last(), c) is Some {
            let at = last_index(text.drop_last(), c)->0;
            assert(text.drop_last()[at] == text[at]);
        }
    }
}

/// The mark between scheme and host is the first `://`, and none is found only where there is none.
pub proof fn the_first_mark_is_found(text: Seq<char>, i: int)
    ensures
        match first_mark(text) {
            Some(at) => {
                &&& 0 <= at && at + 3 <= text.len()
                &&& text[at] == ':' && text[at + 1] == '/' && text[at + 2] == '/'
                &&& 0 <= i < at ==> !(text[i] == ':' && text[i + 1] == '/' && text[i + 2] == '/')
            },
            None => 0 <= i && i + 3 <= text.len() ==> !(text[i] == ':' && text[i + 1] == '/'
                && text[i + 2] == '/'),
        },
    decreases text.len(),
{
    if text.len() > 0 {
        let rest = text.drop_first();
        the_first_mark_is_found(rest, i - 1);
        assert forall|k: int| 0 <= k < rest.len() implies #[trigger] rest[k] == text[k + 1] by {}
        if !begins_with_mark(text) && first_mark(rest) is Some {
            let at = first_mark(rest)->0;
            assert(rest[at] == text[at + 1]);
            assert(rest[at + 1] == text[at + 2]);
            assert(rest[at + 2] == text[at + 3]);
        }
        if 0 < i && i + 2 < text.len() {
            assert(rest[i - 1] == text[i]);
            assert(rest[i] == text[i + 1]);
            assert(rest[i + 1] == text[i + 2]);
        }
    }
}

/// An address begins with one of the two schemes and a mark, and what follows the mark is its host and its
/// port. Without a mark the scheme is missing, and with another scheme it is not valid.
pub proof fn an_address_begins_with_its_scheme(text: Seq<char>, mark: int)
    requires
        0 <= mark,
        mark + 3 <= text.len(),
        text[mark] == ':',
        text[mark + 1] == '/',
        text[mark + 2] == '/',
        forall|i: int|
            0 <= i < mark ==> !(#[trigger] text[i] == ':' && text[i + 1] == '/' && text[i + 2]
                == '/'),
    ensures
        text.take(mark) == seq!['t', 'c', 'p'] ==> match address_of(text) {
            Ok(address) => address.scheme == Scheme::Tcp && host_and_port_of(text.skip(mark + 3))
                == Ok::<(HostView, nat), Error>((address.host, address.port as nat)),
            Err(e) => host_and_port_of(text.skip(mark + 3)) == Err::<(HostView, nat), Error>(e),
        },
        text.take(mark) == seq!['s', 's', 'l'] ==> match address_of(text) {
            Ok(address) => address.scheme == Scheme::Ssl && host_and_port_of(text.skip(mark + 3))
                == Ok::<(HostView, nat), Error>((address.host, address.port as nat)),
            Err(e) => host_and_port_of(text.skip(mark + 3)) == Err::<(HostView, nat), Error>(e),
        },
        text.take(mark) != seq!['t', 'c', 'p'] && text.take(mark) != seq!['s', 's', 'l']
            ==> address_of(text) == Err::<AddressView, Error>(Error::InvalidScheme),
{
    the_first_mark_is_found(text, mark);
    if first_mark(text) is Some && first_mark(text)->0 < mark {
        let at = first_mark(text)->0;
        assert(text[at] == ':');
    }
    assert(first_mark(text) == Some(mark));
    assert(seq!['t', 'c', 'p'][0] != seq!['s', 's', 'l'][0]);
    if host_and_port_of(text.skip(mark + 3)) is Ok {
        ports_fit(text.skip(mark + 3));
    }
}

proof fn ports_fit(text: Seq<char>)
    ensures
        match host_and_port_of(text) {
            Ok((host, port)) => port <= 65535,
            Err(e) => true,
        },
{
    if let Ok((host, port)) = host_and_port_texts(text) {
        digits_fit(port);
        if port.len() > 0 {
            digits_fit(port.drop_first());
        }
    }
}

proof fn digits_fit(digits: Seq<char>)
    ensures
        match read_port(digits) {
            Ok(port) => port <= 65535,
            Err(e) => true,
        },
    decreases digits.len(),
{
    if digits.len() > 0 {
        digits_fit(digits.drop_last());
    }
}

/// Without a mark an address has no scheme.
pub proof fn an_address_without_a_mark_has_no_scheme(text: Seq<char>)
    requires
        forall|i: int|
            0 <= i && i + 3 <= text.len() ==> !(#[trigger] text[i] == ':' && text[i + 1] == '/'
                && text[i + 2] == '/'),
    ensures
        address_of(text) == Err::<AddressView, Error>(Error::MissingScheme),
{
    the_first_mark_is_found(text, 0);
    if first_mark(text) is Some {
        let at = first_mark(text)->0;
        assert(text[at] == ':');
    }
}

/// Host and port are parted at the last colon; a host in brackets ends with its bracket, and a colon follows.
pub proof fn host_and_port_are_parted_at_the_last_colon(host: Seq<char>, port: Seq<char>)
    requires
        !port.contains(':'),
    ensures
        host.len() > 0 && host[0] != '[' && port_of(port) is Ok ==> host_and_port_of(
            host + seq![':'] + port,
        ) == Ok::<(HostView, nat), Error>((host_of(host), port_of(port)->Ok_0)),
        host.len() > 0 && host[0] != '[' && port_of(port) is Err ==> host_and_port_of(
            host + seq![':'] + port,
        ) == Err::<(HostView, nat), Error>(Error::ParseInt(port_of(port)->Err_0)),
        host.len() == 0 ==> host_and_port_of(host + seq![':'] + port) == Err::<
            (HostView, nat),
            Error,
        >(Error::EmptyHost),
        host.len() > 0 && !host.contains(']') && port_of(port) is Ok ==> host_and_port_of(
            seq!['['] + host + seq![']', ':'] + port,
        ) == Ok::<(HostView, nat), Error>((host_of(host), port_of(port)->Ok_0)),
{
    let text = host + seq![':'] + port;
    let colon = host.len() as int;
    assert(text[colon] == ':');
    assert forall|i: int| colon < i < text.len() implies text[i] != ':' by {
        assert(text[i] == port[i - colon - 1]);
        if text[i] == ':' {
            assert(port.contains(':'));
        }
    }
    characters_are_found_from_either_end(text, ':', colon);
    if last_index(text, ':') is Some {
        let at = last_index(text, ':')->0;
        characters_are_found_from_either_end(text, ':', at);
    }
    assert(last_index(text, ':') == Some(colon));
    assert(text.take(colon) =~= host);
    assert(text.skip(colon + 1) =~= port);
    if host.len() > 0 {
        assert(text[0] == host[0]);
    }
    if host.len() > 0 && !host.contains(']') {
        let bare = seq!['['] + host + seq![']', ':'] + port;
        let end = colon + 1;
        assert(bare[0] == '[');
        assert(bare[end] == ']');
        assert(bare[end + 1] == ':');
        assert forall|i: int| 0 <= i < end implies bare[i] != ']' by {
            if i > 0 && bare[i] == ']' {
                assert(host[i - 1] == ']');
                assert(host.contains(']'));
            }
        }
        first_index_found(bare, ']');
        assert(first_index(bare, ']') == Some(end));
        assert(bare.subrange(1, end) =~= host);
        assert(bare.skip(end + 2) =~= port);
    }
}

/// Without a colon there is no port, and a bracket that is not closed is not valid.
pub proof fn host_and_port_need_their_marks(text: Seq<char>)
    ensures
        !text.contains(':') && !(text.len() > 0 && text[0] == '[') ==> host_and_port_of(text)
            == Err::<(HostView, nat), Error>(Error::MissingPort),
        text.len() > 0 && text[0] == '[' && !text.contains(']') ==> host_and_port_of(text) == Err::<
            (HostView, nat),
            Error,
        >(Error::InvalidFormat),
{
    characters_are_found_from_either_end(text, ':', 0);
    characters_are_found_from_either_end(text, ']', 0);
    if last_index(text, ':') is Some {
        assert(text.contains(text[last_index(text, ':')->0]));
    }
    if first_index(text, ']') is Some {
        assert(text.contains(text[first_index(text, ']')->0]));
    }
}

/// A port is read digit by digit: one more digit is ten times what was read before and the digit, as long as
/// it fits; anything but a digit is not valid. A plus sign in front makes no difference, and there has to be
/// something to read.
pub proof fn a_port_is_read_digit_by_digit(digits: Seq<char>, n: nat, c: char)
    requires
        digits.len() > 0,
        digits[0] != '+',
        digits[0] != '-',
        port_of(digits) == Ok::<nat, ParseIntError>(n),
    ensures
        '0' <= c && c <= '9' && n * 10 + (c as int - '0' as int) <= 65535 ==> port_of(
            digits.push(c),
        ) == Ok::<nat, ParseIntError>((n * 10 + (c as int - '0' as int)) as nat),
        '0' <= c && c <= '9' && n * 10 + (c as int - '0' as int) > 65535 ==> port_of(
            digits.push(c),
        ) == Err::<nat, ParseIntError>(ParseIntError::PosOverflow),
        !('0' <= c && c <= '9') ==> port_of(digits.push(c)) == Err::<nat, ParseIntError>(
            ParseIntError::InvalidDigit,
        ),
        port_of(seq!['+'] + digits) == port_of(digits),
        port_of(Seq::empty()) == Err::<nat, ParseIntError>(ParseIntError::Empty),
        '0' <= c && c <= '9' ==> port_of(seq![c]) == Ok::<nat, ParseIntError>(
            (c as int - '0' as int) as nat,
        ),
{
    reveal_with_fuel(read_port, 2);
    assert(digits.push(c).drop_last() =~= digits);
    assert((seq!['+'] + digits).drop_first() =~= digits);
    assert(seq![c].drop_last() =~= Seq::<char>::empty());
    assert(digits.push(c)[0] == digits[0]);
}

} // verus!
