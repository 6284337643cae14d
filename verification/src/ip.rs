//! IP addresses and their text.
use vstd::prelude::*;
use vstd::string::*;

use crate::text::{append_decimal, append_hexadecimal, decimal, digit_char, hexadecimal};

verus! {

/// An IP address.
#[derive(Debug, Clone, Copy, PartialEq, Eq, PartialOrd, Ord, Hash)]
pub enum IpAddr {
    /// An IPv4 address: its four octets.
    V4([u8; 4]),
    /// An IPv6 address: its eight segments.
    V6([u16; 8]),
}

/// The number of a decimal digit.
pub open spec fn decimal_digit(c: char) -> Option<nat> {
    if '0' <= c && c <= '9' {
        Some((c as int - '0' as int) as nat)
    } else {
        None
    }
}

/// The number of a hexadecimal digit, in lower or upper case.
pub open spec fn hexadecimal_digit(c: char) -> Option<nat> {
    if '0' <= c && c <= '9' {
        Some((c as int - '0' as int) as nat)
    } else if 'a' <= c && c <= 'f' {
        Some((c as int - 'a' as int + 10) as nat)
    } else if 'A' <= c && c <= 'F' {
        Some((c as int - 'A' as int + 10) as nat)
    } else {
        None
    }
}

/// The number that decimal digits stand for, where all are digits.
pub open spec fn decimal_value(text: Seq<char>) -> Option<nat>
    decreases text.len(),
{
    if text.len() == 0 {
        Some(0)
    } else {
        match (decimal_value(text.drop_last()), decimal_digit(text.last())) {
            (Some(high), Some(low)) => Some(high * 10 + low),
            _ => None,
        }
    }
}

/// The number that hexadecimal digits stand for, where all are digits.
pub open spec fn hexadecimal_value(text: Seq<char>) -> Option<nat>
    decreases text.len(),
{
    if text.len() == 0 {
        Some(0)
    } else {
        match (hexadecimal_value(text.drop_last()), hexadecimal_digit(text.last())) {
            (Some(high), Some(low)) => Some(high * 16 + low),
            _ => None,
        }
    }
}

/// The octet that a text stands for: one to three decimal digits without a leading zero.
pub open spec fn octet_of(text: Seq<char>) -> Option<u8> {
    match decimal_value(text) {
        Some(value) => if 1 <= text.len() <= 3 && (text.len() == 1 || text[0] != '0') && value
            <= 255 {
            Some(value as u8)
        } else {
            None
        },
        None => None,
    }
}

/// The segment that a text stands for: one to four hexadecimal digits.
pub open spec fn segment_of(text: Seq<char>) -> Option<u16> {
    match hexadecimal_value(text) {
        Some(value) => if 1 <= text.len() <= 4 && value <= 65535 {
            Some(value as u16)
        } else {
            None
        },
        None => None,
    }
}

/// The parts of a text between separators.
pub open spec fn parts(text: Seq<char>, separator: char) -> Seq<Seq<char>>
    decreases text.len(),
{
    if text.len() == 0 {
        seq![Seq::empty()]
    } else {
        let before = parts(text.drop_last(), separator);
        if text.last() == separator {
            before.push(Seq::empty())
        } else {
            before.drop_last().push(before.last().push(text.last()))
        }
    }
}

/// The octets of an IPv4 address: four of them, separated by dots.
pub open spec fn ipv4_of(text: Seq<char>) -> Option<Seq<u8>> {
    let octets = parts(text, '.');
    if octets.len() == 4 && octet_of(octets[0]) is Some && octet_of(octets[1]) is Some && octet_of(
        octets[2],
    ) is Some && octet_of(octets[3]) is Some {
        Some(
            seq![
                octet_of(octets[0])->0,
                octet_of(octets[1])->0,
                octet_of(octets[2])->0,
                octet_of(octets[3])->0,
            ],
        )
    } else {
        None
    }
}

/// The segments that the parts of a text stand for.
pub open spec fn plain_segments(texts: Seq<Seq<char>>) -> Option<Seq<u16>>
    decreases texts.len(),
{
    if texts.len() == 0 {
        Some(Seq::empty())
    } else {
        match (plain_segments(texts.drop_last()), segment_of(texts.last())) {
            (Some(before), Some(last)) => Some(before.push(last)),
            _ => None,
        }
    }
}

/// The two segments that four octets make up.
pub open spec fn octet_segments(octets: Seq<u8>) -> Seq<u16> {
    seq![(octets[0] * 256 + octets[1]) as u16, (octets[2] * 256 + octets[3]) as u16]
}

/// The segments of a part of an IPv6 address, separated by colons. Where that is allowed, the last
/// two can be an IPv4 address.
pub open spec fn segments_of(text: Seq<char>, allow_ipv4: bool) -> Option<Seq<u16>> {
    if text.len() == 0 {
        Some(Seq::empty())
    } else {
        let texts = parts(text, ':');
        match (plain_segments(texts.drop_last()), segment_of(texts.last()), ipv4_of(texts.last())) {
            (Some(before), Some(last), _) => Some(before.push(last)),
            (Some(before), None, Some(octets)) => if allow_ipv4 {
                Some(before + octet_segments(octets))
            } else {
                None
            },
            _ => None,
        }
    }
}

/// Whether two colons stand at a position of a text.
pub open spec fn is_gap(text: Seq<char>, i: int) -> bool {
    0 <= i && i + 1 < text.len() && text[i] == ':' && text[i + 1] == ':'
}

/// Whether the first two colons of a text stand at a position.
pub open spec fn is_first_gap(text: Seq<char>, i: int) -> bool {
    is_gap(text, i) && forall|j: int| j < i ==> !#[trigger] is_gap(text, j)
}

/// So many segments that are zero.
pub open spec fn zeros(n: nat) -> Seq<u16> {
    Seq::new(n, |i: int| 0u16)
}

/// The segments of an IPv6 address around a gap, which stands for as many zeros as are missing, and
/// for one at least.
pub open spec fn around_gap(text: Seq<char>, gap: int) -> Option<Seq<u16>> {
    match (segments_of(text.take(gap), false), segments_of(text.skip(gap + 2), true)) {
        (Some(head), Some(tail)) => if head.len() + tail.len() <= 7 {
            Some(head + zeros((8 - head.len() - tail.len()) as nat) + tail)
        } else {
            None
        },
        _ => None,
    }
}

/// Whether a text stands for an IPv6 address: its eight segments, or fewer around a gap.
pub open spec fn is_ipv6_text(text: Seq<char>, segments: Seq<u16>) -> bool {
    if exists|gap: int| is_first_gap(text, gap) {
        forall|gap: int| #[trigger] is_first_gap(text, gap) ==> around_gap(text, gap) == Some(segments)
    } else {
        segments_of(text, true) == Some(segments) && segments.len() == 8
    }
}

/// Whether a text stands for an IP address.
pub open spec fn is_ip_text(text: Seq<char>, ip: IpAddr) -> bool {
    match ip {
        IpAddr::V4(octets) => ipv4_of(text) == Some(octets@),
        IpAddr::V6(segments) => ipv4_of(text) is None && is_ipv6_text(text, segments@),
    }
}

/// The number of a decimal digit.
fn read_decimal_digit(c: char) -> (r: Option<u32>)
    ensures
        match r {
            Some(d) => decimal_digit(c) == Some(d as nat) && d < 10,
            None => decimal_digit(c) is None,
        },
{
    if '0' <= c && c <= '9' {
        Some(c as u32 - '0' as u32)
    } else {
        None
    }
}

/// The number of a hexadecimal digit.
fn read_hexadecimal_digit(c: char) -> (r: Option<u32>)
    ensures
        match r {
            Some(d) => hexadecimal_digit(c) == Some(d as nat) && d < 16,
            None => hexadecimal_digit(c) is None,
        },
{
    if '0' <= c && c <= '9' {
        Some(c as u32 - '0' as u32)
    } else if 'a' <= c && c <= 'f' {
        Some(c as u32 - 'a' as u32 + 10)
    } else if 'A' <= c && c <= 'F' {
        Some(c as u32 - 'A' as u32 + 10)
    } else {
        None
    }
}

/// The text before something that is no digit stands for no number.
proof fn no_decimal_value(text: Seq<char>, i: int)
    requires
        0 <= i < text.len(),
        decimal_digit(text[i]) is None,
    ensures
        decimal_value(text) is None,
    decreases text.len(),
{
    if i < text.len() - 1 {
        no_decimal_value(text.drop_last(), i);
    }
}

/// The text before something that is no digit stands for no number.
proof fn no_hexadecimal_value(text: Seq<char>, i: int)
    requires
        0 <= i < text.len(),
        hexadecimal_digit(text[i]) is None,
    ensures
        hexadecimal_value(text) is None,
    decreases text.len(),
{
    if i < text.len() - 1 {
        no_hexadecimal_value(text.drop_last(), i);
    }
}

/// The octet that a text stands for.
fn read_octet(text: &Vec<char>) -> (r: Option<u8>)
    ensures
        r == octet_of(text@),
{
    if text.len() == 0 || text.len() > 3 || (text.len() > 1 && text[0] == '0') {
        return None;
    }
    let mut value: u32 = 0;
    let mut i: usize = 0;
    while i < text.len()
        invariant
            i <= text.len() <= 3,
            decimal_value(text@.take(i as int)) == Some(value as nat),
            i == 0 ==> value == 0,
            i == 1 ==> value < 10,
            i == 2 ==> value < 100,
            i == 3 ==> value < 1000,
        decreases text.len() - i,
    {
        proof {
            assert(text@.take(i + 1).drop_last() =~= text@.take(i as int));
        }
        match read_decimal_digit(text[i]) {
            Some(d) => {
                value = value * 10 + d;
            },
            None => {
                proof {
                    no_decimal_value(text@, i as int);
                }
                return None;
            },
        }
        i = i + 1;
    }
    proof {
        assert(text@.take(text@.len() as int) =~= text@);
    }
    if value <= 255 {
        Some(value as u8)
    } else {
        None
    }
}

/// The segment that a text stands for.
fn read_segment(text: &Vec<char>) -> (r: Option<u16>)
    ensures
        r == segment_of(text@),
{
    if text.len() == 0 || text.len() > 4 {
        return None;
    }
    let mut value: u32 = 0;
    let mut i: usize = 0;
    while i < text.len()
        invariant
            i <= text.len() <= 4,
            hexadecimal_value(text@.take(i as int)) == Some(value as nat),
            i == 0 ==> value == 0,
            i == 1 ==> value < 16,
            i == 2 ==> value < 256,
            i == 3 ==> value < 4096,
            i == 4 ==> value < 65536,
        decreases text.len() - i,
    {
        proof {
            assert(text@.take(i + 1).drop_last() =~= text@.take(i as int));
        }
        match read_hexadecimal_digit(text[i]) {
            Some(d) => {
                value = value * 16 + d;
            },
            None => {
                proof {
                    no_hexadecimal_value(text@, i as int);
                }
                return None;
            },
        }
        i = i + 1;
    }
    proof {
        assert(text@.take(text@.len() as int) =~= text@);
    }
    Some(value as u16)
}

/// The views of the parts of a text.
pub open spec fn part_views(texts: Seq<Vec<char>>) -> Seq<Seq<char>> {
    texts.map_values(|text: Vec<char>| text@)
}

/// There is at least one part.
proof fn parts_not_empty(text: Seq<char>, separator: char)
    ensures
        parts(text, separator).len() > 0,
    decreases text.len(),
{
    if text.len() > 0 {
        parts_not_empty(text.drop_last(), separator);
    }
}

/// The parts of a text between separators.
fn split(text: &Vec<char>, from: usize, to: usize, separator: char) -> (r: Vec<Vec<char>>)
    requires
        from <= to <= text.len(),
    ensures
        part_views(r@) == parts(text@.subrange(from as int, to as int), separator),
        r.len() > 0,
{
    let ghost whole = text@.subrange(from as int, to as int);
    let mut r: Vec<Vec<char>> = Vec::new();
    let mut part: Vec<char> = Vec::new();
    let mut i: usize = from;
    proof {
        assert(part_views(r@).push(part@) =~= parts(whole.take(0), separator));
    }
    while i < to
        invariant
            from <= i <= to,
            to <= text.len(),
            whole == text@.subrange(from as int, to as int),
            part_views(r@).push(part@) == parts(whole.take(i - from), separator),
        decreases to - i,
    {
        let c = text[i];
        let ghost before = part_views(r@);
        let ghost current = part@;
        proof {
            assert(whole.take(i + 1 - from).drop_last() =~= whole.take(i - from));
            assert(whole.take(i + 1 - from).last() == c);
        }
        if c == separator {
            let mut finished: Vec<char> = Vec::new();
            std::mem::swap(&mut finished, &mut part);
            let ghost held = r@;
            r.push(finished);
            proof {
                assert(part_views(r@) =~= part_views(held).push(current));
                assert(part@ =~= Seq::<char>::empty());
            }
        } else {
            part.push(c);
            proof {
                assert(before.push(current).drop_last() =~= before);
            }
        }
        i = i + 1;
    }
    proof {
        assert(whole.take(to - from) =~= whole);
    }
    let ghost held = r@;
    let ghost last = part@;
    r.push(part);
    proof {
        assert(part_views(r@) =~= part_views(held).push(last));
    }
    r
}

/// The octets of an IPv4 address.
fn read_ipv4(text: &Vec<char>, from: usize, to: usize) -> (r: Option<[u8; 4]>)
    requires
        from <= to <= text.len(),
    ensures
        match r {
            Some(octets) => ipv4_of(text@.subrange(from as int, to as int)) == Some(octets@),
            None => ipv4_of(text@.subrange(from as int, to as int)) is None,
        },
{
    let octets = split(text, from, to, '.');
    let ghost views = part_views(octets@);
    if octets.len() != 4 {
        return None;
    }
    proof {
        assert(views[0] == octets@[0]@);
        assert(views[1] == octets@[1]@);
        assert(views[2] == octets@[2]@);
        assert(views[3] == octets@[3]@);
    }
    match (
        read_octet(&octets[0]),
        read_octet(&octets[1]),
        read_octet(&octets[2]),
        read_octet(&octets[3]),
    ) {
        (Some(a), Some(b), Some(c), Some(d)) => {
            let r = [a, b, c, d];
            proof {
                assert(r@ =~= seq![a, b, c, d]);
            }
            Some(r)
        },
        _ => None,
    }
}

/// Segments before something that is none make up nothing.
proof fn no_plain_segments(texts: Seq<Seq<char>>, i: int)
    requires
        0 <= i < texts.len(),
        segment_of(texts[i]) is None,
    ensures
        plain_segments(texts) is None,
    decreases texts.len(),
{
    if i < texts.len() - 1 {
        no_plain_segments(texts.drop_last(), i);
    }
}

/// The segments of a part of an IPv6 address.
fn read_segments(text: &Vec<char>, from: usize, to: usize, allow_ipv4: bool) -> (r: Option<
    Vec<u16>,
>)
    requires
        from <= to <= text.len(),
    ensures
        match r {
            Some(segments) => segments_of(text@.subrange(from as int, to as int), allow_ipv4)
                == Some(segments@),
            None => segments_of(text@.subrange(from as int, to as int), allow_ipv4) is None,
        },
{
    let ghost whole = text@.subrange(from as int, to as int);
    let mut segments: Vec<u16> = Vec::new();
    if from == to {
        return Some(segments);
    }
    let texts = split(text, from, to, ':');
    let ghost views = part_views(texts@);
    let last = texts.len() - 1;
    let mut i: usize = 0;
    while i < last
        invariant
            i <= last,
            last + 1 == texts.len(),
            views == part_views(texts@),
            views == parts(whole, ':'),
            whole.len() > 0,
            plain_segments(views.take(i as int)) == Some(segments@),
            whole == text@.subrange(from as int, to as int),
        decreases last - i,
    {
        proof {
            assert(views.take(i + 1).drop_last() =~= views.take(i as int));
            assert(views[i as int] == texts@[i as int]@);
        }
        match read_segment(&texts[i]) {
            Some(segment) => {
                segments.push(segment);
            },
            None => {
                proof {
                    assert(views.drop_last()[i as int] == views[i as int]);
                    no_plain_segments(views.drop_last(), i as int);
                }
                return None;
            },
        }
        i = i + 1;
    }
    proof {
        assert(views.take(last as int) =~= views.drop_last());
        assert(views.last() == texts@[last as int]@);
    }
    let tail = &texts[last];
    match read_segment(tail) {
        Some(segment) => {
            segments.push(segment);
            Some(segments)
        },
        None => {
            proof {
                assert(tail@.subrange(0, tail@.len() as int) =~= tail@);
            }
            match read_ipv4(tail, 0, tail.len()) {
                Some(octets) => {
                    if !allow_ipv4 {
                        return None;
                    }
                    let ghost before = segments@;
                    segments.push(octets[0] as u16 * 256 + octets[1] as u16);
                    segments.push(octets[2] as u16 * 256 + octets[3] as u16);
                    proof {
                        assert(segments@ =~= before + octet_segments(octets@));
                    }
                    Some(segments)
                },
                None => None,
            }
        },
    }
}

/// The position of the first two colons.
fn find_gap(text: &Vec<char>) -> (r: Option<usize>)
    ensures
        match r {
            Some(gap) => is_first_gap(text@, gap as int),
            None => forall|gap: int| !#[trigger] is_gap(text@, gap),
        },
{
    let mut i: usize = 0;
    while i < text.len() && i + 1 < text.len()
        invariant
            i <= text.len(),
            forall|j: int| j < i ==> !#[trigger] is_gap(text@, j),
        decreases text.len() - i,
    {
        if text[i] == ':' && text[i + 1] == ':' {
            return Some(i);
        }
        i = i + 1;
    }
    None
}

/// Eight segments.
fn eight(segments: &Vec<u16>) -> (r: [u16; 8])
    requires
        segments.len() == 8,
    ensures
        r@ == segments@,
{
    let r = [
        segments[0],
        segments[1],
        segments[2],
        segments[3],
        segments[4],
        segments[5],
        segments[6],
        segments[7],
    ];
    proof {
        assert(r@ =~= segments@);
    }
    r
}

/// The segments of an IPv6 address.
fn read_ipv6(text: &Vec<char>) -> (r: Option<[u16; 8]>)
    ensures
        match r {
            Some(segments) => is_ipv6_text(text@, segments@),
            None => forall|segments: Seq<u16>| segments.len() == 8 ==> !#[trigger] is_ipv6_text(
                text@,
                segments,
            ),
        },
{
    match find_gap(text) {
        Some(gap) => {
            proof {
                assert(is_first_gap(text@, gap as int));
                assert forall|other: int| is_first_gap(text@, other) implies other == gap by {
                    if other < gap {
                        assert(is_gap(text@, other));
                    }
                    if gap < other {
                        assert(is_gap(text@, gap as int));
                    }
                }
                assert(text@.subrange(0, gap as int) =~= text@.take(gap as int));
                assert(text@.subrange(gap + 2, text@.len() as int) =~= text@.skip(gap + 2));
            }
            let head = read_segments(text, 0, gap, false);
            let tail = read_segments(text, gap + 2, text.len(), true);
            match (head, tail) {
                (Some(head), Some(tail)) => {
                    if head.len() > 7 || tail.len() > 7 - head.len() {
                        return None;
                    }
                    let ghost first = head@;
                    let mut segments = head;
                    let missing = 8 - segments.len() - tail.len();
                    let mut i: usize = 0;
                    proof {
                        assert(segments@ =~= first + zeros(0));
                    }
                    while i < missing
                        invariant
                            i <= missing,
                            segments@ == first + zeros(i as nat),
                        decreases missing - i,
                    {
                        segments.push(0);
                        proof {
                            assert(segments@ =~= first + zeros((i + 1) as nat));
                        }
                        i = i + 1;
                    }
                    let ghost padded = segments@;
                    let mut tail = tail;
                    let ghost rest = tail@;
                    segments.append(&mut tail);
                    proof {
                        assert(segments@ =~= first + zeros(missing as nat) + rest);
                        assert(around_gap(text@, gap as int) == Some(segments@));
                    }
                    Some(eight(&segments))
                },
                _ => None,
            }
        },
        None => {
            proof {
                assert forall|gap: int| !is_first_gap(text@, gap) by {
                    assert(!is_gap(text@, gap));
                }
                assert(text@.subrange(0, text@.len() as int) =~= text@);
            }
            match read_segments(text, 0, text.len(), true) {
                Some(segments) => {
                    if segments.len() == 8 {
                        Some(eight(&segments))
                    } else {
                        None
                    }
                },
                None => None,
            }
        },
    }
}

impl IpAddr {
    /// The address that a text stands for, if it stands for one.
    pub fn parse(text: &Vec<char>) -> (r: Option<IpAddr>)
        ensures
            match r {
                Some(ip) => is_ip_text(text@, ip),
                None => forall|ip: IpAddr| !#[trigger] is_ip_text(text@, ip),
            },
    {
        proof {
            assert(text@.subrange(0, text@.len() as int) =~= text@);
        }
        match read_ipv4(text, 0, text.len()) {
            Some(octets) => Some(IpAddr::V4(octets)),
            None => match read_ipv6(text) {
                Some(segments) => Some(IpAddr::V6(segments)),
                None => {
                    proof {
                        assert forall|ip: IpAddr| !#[trigger] is_ip_text(text@, ip) by {
                            match ip {
                                IpAddr::V4(octets) => {},
                                IpAddr::V6(segments) => {
                                    assert(segments@.len() == 8);
                                    assert(!is_ipv6_text(text@, segments@));
                                },
                            }
                        }
                    }
                    None
                },
            },
        }
    }
}

/// The text of an IPv4 address.
pub open spec fn ipv4_text(octets: Seq<u8>) -> Seq<char> {
    decimal(octets[0] as nat) + seq!['.'] + (decimal(octets[1] as nat) + seq!['.'] + (decimal(
        octets[2] as nat,
    ) + seq!['.'] + decimal(octets[3] as nat)))
}

/// Segments, separated by colons.
pub open spec fn segments_text(segments: Seq<u16>) -> Seq<char>
    decreases segments.len(),
{
    if segments.len() == 0 {
        Seq::empty()
    } else if segments.len() == 1 {
        hexadecimal(segments[0] as nat)
    } else {
        segments_text(segments.drop_last()) + seq![':'] + hexadecimal(segments.last() as nat)
    }
}

/// Whether so many segments from a position on are zero.
pub open spec fn is_zero_run(segments: Seq<u16>, start: int, len: int) -> bool {
    0 <= start && 0 <= len && start + len <= segments.len() && forall|i: int|
        start <= i < start + len ==> #[trigger] segments[i] == 0
}

/// Whether this is the longest run of zeros, and the first one of that length.
pub open spec fn is_longest_run(segments: Seq<u16>, start: int, len: int) -> bool {
    is_zero_run(segments, start, len) && forall|s: int, l: int| #[trigger]
        is_zero_run(segments, s, l) ==> l <= len && (l == len ==> start <= s)
}

/// Whether an IPv6 address stands for an IPv4 address.
pub open spec fn is_mapped(segments: Seq<u16>) -> bool {
    segments[0] == 0 && segments[1] == 0 && segments[2] == 0 && segments[3] == 0 && segments[4] == 0
        && segments[5] == 0xffff
}

/// The octets of the last two segments.
pub open spec fn mapped_octets(segments: Seq<u16>) -> Seq<u8> {
    seq![
        (segments[6] / 256) as u8,
        (segments[6] % 256) as u8,
        (segments[7] / 256) as u8,
        (segments[7] % 256) as u8,
    ]
}

/// Whether this is the text of an IPv6 address: the longest run of zeros, if there is more than one,
/// is left out.
pub open spec fn is_shown_as(segments: Seq<u16>, text: Seq<char>) -> bool {
    if is_mapped(segments) {
        text == seq![':', ':', 'f', 'f', 'f', 'f', ':'] + ipv4_text(mapped_octets(segments))
    } else {
        exists|start: int, len: int| #[trigger]
            is_longest_run(segments, start, len) && text == (if len > 1 {
                segments_text(segments.take(start)) + seq![':', ':'] + segments_text(
                    segments.skip(start + len),
                )
            } else {
                segments_text(segments)
            })
    }
}

/// Whether this is the text of an IP address.
pub open spec fn is_ip_shown_as(ip: IpAddr, text: Seq<char>) -> bool {
    match ip {
        IpAddr::V4(octets) => text == ipv4_text(octets@),
        IpAddr::V6(segments) => is_shown_as(segments@, text),
    }
}

/// Appends the text of an IPv4 address.
fn append_ipv4(output: &mut String, octets: &[u8; 4])
    ensures
        final(output)@ == old(output)@ + ipv4_text(octets@),
{
    proof {
        reveal_strlit(".");
    }
    append_decimal(output, octets[0] as u32);
    output.append(".");
    append_decimal(output, octets[1] as u32);
    output.append(".");
    append_decimal(output, octets[2] as u32);
    output.append(".");
    append_decimal(output, octets[3] as u32);
    proof {
        assert(output@ =~= old(output)@ + ipv4_text(octets@));
    }
}

/// Appends segments, separated by colons.
fn append_segments(output: &mut String, segments: &[u16; 8], from: usize, to: usize)
    requires
        from <= to <= 8,
    ensures
        final(output)@ == old(output)@ + segments_text(
            segments@.subrange(from as int, to as int),
        ),
{
    proof {
        reveal_strlit(":");
    }
    let ghost list = segments@.subrange(from as int, to as int);
    let mut i: usize = from;
    proof {
        assert(list.take(0) =~= Seq::<u16>::empty());
        assert(output@ =~= output@ + segments_text(list.take(0)));
    }
    while i < to
        invariant
            from <= i <= to <= 8,
            list == segments@.subrange(from as int, to as int),
            output@ == old(output)@ + segments_text(list.take(i - from)),
            ":"@ == seq![':'],
        decreases to - i,
    {
        let ghost before = list.take(i - from);
        let ghost after = list.take(i + 1 - from);
        proof {
            assert(after.drop_last() =~= before);
            assert(after.last() == segments@[i as int]);
        }
        if i > from {
            output.append(":");
        }
        append_hexadecimal(output, segments[i] as u32);
        proof {
            assert(output@ =~= old(output)@ + segments_text(after));
        }
        i = i + 1;
    }
    proof {
        assert(list.take(to - from) =~= list);
    }
}

/// The longest run of zeros.
fn longest_run(segments: &[u16; 8]) -> (r: (usize, usize))
    ensures
        is_longest_run(segments@, r.0 as int, r.1 as int),
        r.0 + r.1 <= 8,
{
    let ghost s = segments@;
    let mut start: usize = 0;
    let mut len: usize = 0;
    let mut current_start: usize = 0;
    let mut current_len: usize = 0;
    let mut i: usize = 0;
    while i < 8
        invariant
            i <= 8,
            s == segments@,
            s.len() == 8,
            is_zero_run(s, start as int, len as int),
            start + len <= i,
            forall|a: int, l: int| #[trigger]
                is_zero_run(s, a, l) && a + l <= i ==> l <= len && (l == len ==> start <= a),
            is_zero_run(s, current_start as int, current_len as int),
            current_len > 0 ==> current_start + current_len == i,
            current_len <= len,
            current_start + current_len <= i,
            forall|a: int, l: int| #[trigger]
                is_zero_run(s, a, l) && a + l == i ==> l <= current_len,
        decreases 8 - i,
    {
        let ghost prev_len = current_len;
        let ghost prev_start = start;
        let ghost best = len;
        if segments[i] == 0 {
            if current_len == 0 {
                current_start = i;
            }
            current_len = current_len + 1;
            if current_len > len {
                start = current_start;
                len = current_len;
            }
            proof {
                assert(is_zero_run(s, current_start as int, current_len as int));
                assert forall|a: int, l: int| #[trigger]
                    is_zero_run(s, a, l) && a + l == i + 1 implies l <= current_len by {
                    if l > 0 {
                        assert(is_zero_run(s, a, l - 1));
                    }
                }
                assert forall|a: int, l: int| #[trigger]
                    is_zero_run(s, a, l) && a + l <= i + 1 implies l <= len && (l == len ==> start
                    <= a) by {
                    if a + l == i + 1 && l > 0 {
                        assert(is_zero_run(s, a, l - 1));
                    }
                }
            }
        } else {
            current_start = 0;
            current_len = 0;
            proof {
                assert forall|a: int, l: int| #[trigger]
                    is_zero_run(s, a, l) && a + l == i + 1 implies l <= 0 by {
                    if l > 0 {
                        assert(s[i as int] == 0);
                    }
                }
            }
        }
        i = i + 1;
    }
    (start, len)
}

impl IpAddr {
    /// Appends the text of the address.
    pub fn append_to(&self, output: &mut String)
        ensures
            exists|text: Seq<char>| #[trigger]
                is_ip_shown_as(*self, text) && final(output)@ == old(output)@ + text,
    {
        let ghost before = output@;
        match self {
            IpAddr::V4(octets) => {
                append_ipv4(output, octets);
                proof {
                    assert(is_ip_shown_as(*self, ipv4_text(octets@)));
                }
            },
            IpAddr::V6(segments) => {
                proof {
                    reveal_strlit("::ffff:");
                    reveal_strlit("::");
                }
                let mapped = segments[0] == 0 && segments[1] == 0 && segments[2] == 0
                    && segments[3] == 0 && segments[4] == 0 && segments[5] == 0xffff;
                if mapped {
                    let octets = [
                        (segments[6] / 256) as u8,
                        (segments[6] % 256) as u8,
                        (segments[7] / 256) as u8,
                        (segments[7] % 256) as u8,
                    ];
                    proof {
                        assert(octets@ =~= mapped_octets(segments@));
                    }
                    output.append("::ffff:");
                    append_ipv4(output, &octets);
                    proof {
                        let text = seq![':', ':', 'f', 'f', 'f', 'f', ':'] + ipv4_text(
                            mapped_octets(segments@),
                        );
                        assert(output@ =~= before + text);
                        assert(is_ip_shown_as(*self, text));
                    }
                } else {
                    let (start, len) = longest_run(segments);
                    if len > 1 {
                        append_segments(output, segments, 0, start);
                        output.append("::");
                        append_segments(output, segments, start + len, 8);
                        proof {
                            let text = segments_text(segments@.take(start as int)) + seq![
                                ':',
                                ':',
                            ] + segments_text(segments@.skip(start + len));
                            assert(segments@.subrange(0, start as int) =~= segments@.take(
                                start as int,
                            ));
                            assert(segments@.subrange(start + len, 8) =~= segments@.skip(
                                start + len,
                            ));
                            assert(output@ =~= before + text);
                            assert(is_longest_run(segments@, start as int, len as int));
                            assert(is_ip_shown_as(*self, text));
                        }
                    } else {
                        append_segments(output, segments, 0, 8);
                        proof {
                            let text = segments_text(segments@);
                            assert(segments@.subrange(0, 8) =~= segments@);
                            assert(is_longest_run(segments@, start as int, len as int));
                            assert(is_ip_shown_as(*self, text));
                        }
                    }
                }
            },
        }
    }
}

/// The decimal digits of a number stand for it, and do not begin with a zero but for zero itself.
pub proof fn decimal_reads_back(n: nat)
    ensures
        decimal_value(decimal(n)) == Some(n),
        decimal(n).len() > 0,
        n < 10 ==> decimal(n).len() == 1,
        n < 100 ==> decimal(n).len() <= 2,
        n < 1000 ==> decimal(n).len() <= 3,
        n > 0 ==> decimal(n)[0] != '0',
        forall|i: int|
            0 <= i < decimal(n).len() ==> decimal_digit(#[trigger] decimal(n)[i]) is Some,
    decreases n,
{
    let d = decimal(n);
    if n < 10 {
        assert(d.drop_last() =~= Seq::<char>::empty());
        assert(decimal_digit(digit_char(n)) == Some(n));
        assert(decimal_value(d.drop_last()) == Some(0nat));
    } else {
        let high = decimal(n / 10);
        decimal_reads_back(n / 10);
        assert(d.drop_last() =~= high);
        assert(decimal_digit(digit_char(n % 10)) == Some(n % 10));
        assert(d[0] == high[0]);
        assert forall|i: int| 0 <= i < d.len() implies decimal_digit(#[trigger] d[i]) is Some by {
            if i < high.len() {
                assert(d[i] == high[i]);
            }
        }
    }
}

/// The hexadecimal digits of a number stand for it.
proof fn hexadecimal_reads_back(n: nat)
    ensures
        hexadecimal_value(hexadecimal(n)) == Some(n),
        hexadecimal(n).len() > 0,
        n < 16 ==> hexadecimal(n).len() == 1,
        n < 256 ==> hexadecimal(n).len() <= 2,
        n < 4096 ==> hexadecimal(n).len() <= 3,
        n < 65536 ==> hexadecimal(n).len() <= 4,
        forall|i: int|
            0 <= i < hexadecimal(n).len() ==> hexadecimal_digit(#[trigger] hexadecimal(n)[i]) is Some,
    decreases n,
{
    let d = hexadecimal(n);
    if n < 16 {
        assert(d.drop_last() =~= Seq::<char>::empty());
        assert(hexadecimal_digit(digit_char(n)) == Some(n));
        assert(hexadecimal_value(d.drop_last()) == Some(0nat));
    } else {
        let high = hexadecimal(n / 16);
        hexadecimal_reads_back(n / 16);
        assert(d.drop_last() =~= high);
        assert(hexadecimal_digit(digit_char(n % 16)) == Some(n % 16));
        assert forall|i: int| 0 <= i < d.len() implies hexadecimal_digit(#[trigger] d[i])
            is Some by {
            if i < high.len() {
                assert(d[i] == high[i]);
            }
        }
    }
}

/// A text without separators is one part.
proof fn one_part(text: Seq<char>, separator: char)
    requires
        forall|i: int| 0 <= i < text.len() ==> #[trigger] text[i] != separator,
    ensures
        parts(text, separator) == seq![text],
    decreases text.len(),
{
    if text.len() > 0 {
        assert forall|i: int| 0 <= i < text.drop_last().len() implies #[trigger] text.drop_last()[i]
            != separator by {
            assert(text.drop_last()[i] == text[i]);
        }
        one_part(text.drop_last(), separator);
        assert(text[text.len() - 1] != separator);
        assert(seq![text.drop_last()].drop_last() =~= Seq::<Seq<char>>::empty());
        assert(text.drop_last().push(text.last()) =~= text);
        assert(parts(text, separator) =~= seq![text]);
    } else {
        assert(text =~= Seq::<char>::empty());
    }
}

/// The parts of two texts with a separator between them are the parts of the one and the other.
proof fn parts_join(a: Seq<char>, b: Seq<char>, separator: char)
    ensures
        parts(a + seq![separator] + b, separator) == parts(a, separator) + parts(b, separator),
    decreases b.len(),
{
    let text = a + seq![separator] + b;
    if b.len() == 0 {
        assert(text.drop_last() =~= a);
        assert(text.last() == separator);
        assert(parts(text, separator) =~= parts(a, separator) + parts(b, separator));
    } else {
        let init = b.drop_last();
        parts_join(a, init, separator);
        parts_not_empty(init, separator);
        assert(text.drop_last() =~= a + seq![separator] + init);
        let before = parts(a, separator) + parts(init, separator);
        assert(before.last() == parts(init, separator).last());
        if b.last() == separator {
            assert(parts(text, separator) =~= parts(a, separator) + parts(b, separator));
        } else {
            assert(before.drop_last() =~= parts(a, separator) + parts(init, separator).drop_last());
            assert(parts(text, separator) =~= parts(a, separator) + parts(b, separator));
        }
    }
}

/// What is no separator is in one of the parts.
proof fn found_in_part(text: Seq<char>, separator: char, i: int) -> (at: (int, int))
    requires
        0 <= i < text.len(),
        text[i] != separator,
    ensures
        0 <= at.0 < parts(text, separator).len(),
        0 <= at.1 < parts(text, separator)[at.0].len(),
        parts(text, separator)[at.0][at.1] == text[i],
    decreases text.len(),
{
    let init = text.drop_last();
    let before = parts(init, separator);
    parts_not_empty(init, separator);
    if i == text.len() - 1 {
        (before.len() - 1, before.last().len() as int)
    } else {
        let at = found_in_part(init, separator, i);
        assert(before[at.0][at.1] == text[i]);
        at
    }
}

/// A text with something other than digits and dots in it stands for no IPv4 address.
proof fn no_ipv4(text: Seq<char>, i: int)
    requires
        0 <= i < text.len(),
        text[i] != '.',
        decimal_digit(text[i]) is None,
    ensures
        ipv4_of(text) is None,
{
    let at = found_in_part(text, '.', i);
    no_decimal_value(parts(text, '.')[at.0], at.1);
    assert(octet_of(parts(text, '.')[at.0]) is None);
}

/// The decimal digits of an octet stand for it.
proof fn octet_reads_back(octet: u8)
    ensures
        octet_of(decimal(octet as nat)) == Some(octet),
{
    decimal_reads_back(octet as nat);
}

/// The hexadecimal digits of a segment stand for it.
proof fn segment_reads_back(segment: u16)
    ensures
        segment_of(hexadecimal(segment as nat)) == Some(segment),
{
    hexadecimal_reads_back(segment as nat);
}

/// No digit is a dot or a colon.
proof fn digits_are_apart(n: nat)
    ensures
        forall|i: int| 0 <= i < decimal(n).len() ==> #[trigger] decimal(n)[i] != '.',
        forall|i: int| 0 <= i < decimal(n).len() ==> #[trigger] decimal(n)[i] != ':',
        forall|i: int| 0 <= i < hexadecimal(n).len() ==> #[trigger] hexadecimal(n)[i] != ':',
{
    decimal_reads_back(n);
    hexadecimal_reads_back(n);
}

/// The text of an IPv4 address stands for it.
proof fn ipv4_reads_back(octets: Seq<u8>)
    requires
        octets.len() == 4,
    ensures
        ipv4_of(ipv4_text(octets)) == Some(octets),
{
    let a = decimal(octets[0] as nat);
    let b = decimal(octets[1] as nat);
    let c = decimal(octets[2] as nat);
    let d = decimal(octets[3] as nat);
    digits_are_apart(octets[0] as nat);
    digits_are_apart(octets[1] as nat);
    digits_are_apart(octets[2] as nat);
    digits_are_apart(octets[3] as nat);
    one_part(a, '.');
    one_part(b, '.');
    one_part(c, '.');
    one_part(d, '.');
    parts_join(c, d, '.');
    parts_join(b, c + seq!['.'] + d, '.');
    parts_join(a, b + seq!['.'] + (c + seq!['.'] + d), '.');
    assert(parts(ipv4_text(octets), '.') =~= seq![a, b, c, d]);
    octet_reads_back(octets[0]);
    octet_reads_back(octets[1]);
    octet_reads_back(octets[2]);
    octet_reads_back(octets[3]);
    assert(ipv4_of(ipv4_text(octets))->0 =~= octets);
}

/// The hexadecimal digits of segments.
spec fn segment_texts(segments: Seq<u16>) -> Seq<Seq<char>> {
    segments.map_values(|segment: u16| hexadecimal(segment as nat))
}

/// The texts of segments stand for them.
proof fn plain_segments_read_back(segments: Seq<u16>)
    ensures
        plain_segments(segment_texts(segments)) == Some(segments),
    decreases segments.len(),
{
    let texts = segment_texts(segments);
    if segments.len() > 0 {
        plain_segments_read_back(segments.drop_last());
        assert(texts.drop_last() =~= segment_texts(segments.drop_last()));
        segment_reads_back(segments.last());
        assert(segments.drop_last().push(segments.last()) =~= segments);
    } else {
        assert(segments =~= Seq::<u16>::empty());
    }
}

/// Segments with colons between them: what the parts are, that no two colons stand together, and that
/// none stands at either end.
proof fn segments_text_shape(segments: Seq<u16>)
    requires
        segments.len() > 0,
    ensures
        parts(segments_text(segments), ':') == segment_texts(segments),
        segments_text(segments).len() > 0,
        segments_text(segments)[0] != ':',
        segments_text(segments).last() != ':',
        forall|i: int| !#[trigger] is_gap(segments_text(segments), i),
        segments.len() > 1 ==> exists|i: int|
            0 <= i < segments_text(segments).len() && #[trigger] segments_text(segments)[i] == ':',
    decreases segments.len(),
{
    let text = segments_text(segments);
    let last = hexadecimal(segments.last() as nat);
    digits_are_apart(segments.last() as nat);
    hexadecimal_reads_back(segments.last() as nat);
    one_part(last, ':');
    if segments.len() == 1 {
        assert(segment_texts(segments) =~= seq![last]);
        assert forall|i: int| !#[trigger] is_gap(text, i) by {
            if 0 <= i < text.len() {
                assert(text[i] != ':');
            }
        }
    } else {
        let init = segments.drop_last();
        let before = segments_text(init);
        segments_text_shape(init);
        parts_join(before, last, ':');
        assert(segment_texts(segments) =~= segment_texts(init) + seq![last]);
        assert(text[0] == before[0]);
        assert(text.last() == last.last());
        assert(text[before.len() as int] == ':');
        assert forall|i: int| !#[trigger] is_gap(text, i) by {
            if 0 <= i && i + 1 < text.len() {
                if i + 1 < before.len() {
                    assert(!is_gap(before, i));
                } else if i + 1 == before.len() {
                    assert(text[i] == before.last());
                } else if i == before.len() {
                    assert(text[i + 1] == last[0]);
                } else {
                    assert(text[i] == last[i - before.len() - 1]);
                }
            }
        }
    }
}

/// The text of segments stands for them.
proof fn segments_read_back(segments: Seq<u16>, allow_ipv4: bool)
    ensures
        segments_of(segments_text(segments), allow_ipv4) == Some(segments),
{
    if segments.len() > 0 {
        segments_text_shape(segments);
        let texts = segment_texts(segments);
        plain_segments_read_back(segments.drop_last());
        assert(texts.drop_last() =~= segment_texts(segments.drop_last()));
        segment_reads_back(segments.last());
        assert(segments.drop_last().push(segments.last()) =~= segments);
    } else {
        assert(segments =~= Seq::<u16>::empty());
    }
}

/// Around a gap stand the segments on either side.
proof fn gap_reads_back(head: Seq<u16>, tail: Seq<u16>)
    requires
        head.len() + tail.len() <= 7,
    ensures
        ({
            let text = segments_text(head) + seq![':', ':'] + segments_text(tail);
            &&& is_first_gap(text, segments_text(head).len() as int)
            &&& around_gap(text, segments_text(head).len() as int) == Some(
                head + zeros((8 - head.len() - tail.len()) as nat) + tail,
            )
        }),
{
    let h = segments_text(head);
    let t = segments_text(tail);
    let text = h + seq![':', ':'] + t;
    let gap = h.len() as int;
    if head.len() > 0 {
        segments_text_shape(head);
    }
    assert(text[gap] == ':' && text[gap + 1] == ':');
    assert forall|j: int| j < gap implies !#[trigger] is_gap(text, j) by {
        if 0 <= j {
            if j + 1 < gap {
                assert(!is_gap(h, j));
            } else {
                assert(text[j] == h.last());
            }
        }
    }
    assert(text.take(gap) =~= h);
    assert(text.skip(gap + 2) =~= t);
    segments_read_back(head, false);
    segments_read_back(tail, true);
}

/// A text with a first gap stands for the address around it.
proof fn gap_decides(text: Seq<char>, gap: int, segments: Seq<u16>)
    requires
        is_first_gap(text, gap),
        around_gap(text, gap) == Some(segments),
    ensures
        is_ipv6_text(text, segments),
{
    assert forall|other: int| #[trigger] is_first_gap(text, other) implies around_gap(text, other)
        == Some(segments) by {
        if other < gap {
            assert(is_gap(text, other));
        }
        if gap < other {
            assert(is_gap(text, gap));
        }
    }
}

/// The text of an IPv6 address that stands for an IPv4 address stands for it.
proof fn mapped_reads_back(segments: Seq<u16>)
    requires
        segments.len() == 8,
        is_mapped(segments),
    ensures
        ({
            let text = seq![':', ':', 'f', 'f', 'f', 'f', ':'] + ipv4_text(
                mapped_octets(segments),
            );
            is_ipv6_text(text, segments) && ipv4_of(text) is None
        }),
{
    let octets = mapped_octets(segments);
    let v4 = ipv4_text(octets);
    let text = seq![':', ':', 'f', 'f', 'f', 'f', ':'] + v4;
    let ffff = seq!['f', 'f', 'f', 'f'];
    no_ipv4(text, 0);
    assert(is_first_gap(text, 0)) by {
        assert(text[0] == ':' && text[1] == ':');
    }
    assert(text.take(0) =~= Seq::<char>::empty());
    let tail = text.skip(2);
    assert(tail =~= ffff + seq![':'] + v4);
    one_part(ffff, ':');
    ipv4_has_no_colon(octets);
    one_part(v4, ':');
    parts_join(ffff, v4, ':');
    let texts = parts(tail, ':');
    assert(texts =~= seq![ffff, v4]);
    assert(texts.drop_last() =~= seq![ffff]);
    assert(segment_of(ffff) == Some(0xffffu16)) by {
        assert(ffff.drop_last() =~= seq!['f', 'f', 'f']);
        assert(seq!['f', 'f', 'f'].drop_last() =~= seq!['f', 'f']);
        assert(seq!['f', 'f'].drop_last() =~= seq!['f']);
        assert(seq!['f'].drop_last() =~= Seq::<char>::empty());
        assert(hexadecimal_value(Seq::<char>::empty()) == Some(0nat));
        assert(hexadecimal_value(seq!['f']) == Some(15nat));
        assert(hexadecimal_value(seq!['f', 'f']) == Some(255nat));
        assert(hexadecimal_value(seq!['f', 'f', 'f']) == Some(4095nat));
        assert(hexadecimal_value(ffff) == Some(65535nat));
    }
    assert(plain_segments(seq![ffff]) == Some(seq![0xffffu16])) by {
        assert(seq![ffff].drop_last() =~= Seq::<Seq<char>>::empty());
        assert(plain_segments(Seq::<Seq<char>>::empty()) == Some(Seq::<u16>::empty()));
        assert(Seq::<u16>::empty().push(0xffffu16) =~= seq![0xffffu16]);
    }
    ipv4_reads_back(octets);
    assert(segment_of(v4) is None) by {
        let dot = decimal(octets[0] as nat).len() as int;
        assert(v4[dot] == '.');
        no_hexadecimal_value(v4, dot);
    }
    let read = seq![0xffffu16] + octet_segments(octets);
    assert(segments_of(tail, true) == Some(read));
    assert(segments_of(text.take(0), false) == Some(Seq::<u16>::empty()));
    assert(Seq::<u16>::empty() + zeros(5) + read =~= segments) by {
        assert(octet_segments(octets)[0] == segments[6]);
        assert(octet_segments(octets)[1] == segments[7]);
    }
    assert(around_gap(text, 0) == Some(segments));
    gap_decides(text, 0, segments);
}

/// There is no colon in the text of an IPv4 address.
proof fn ipv4_has_no_colon(octets: Seq<u8>)
    ensures
        forall|i: int| 0 <= i < ipv4_text(octets).len() ==> #[trigger] ipv4_text(octets)[i] != ':',
{
    let a = decimal(octets[0] as nat);
    let b = decimal(octets[1] as nat);
    let c = decimal(octets[2] as nat);
    let d = decimal(octets[3] as nat);
    digits_are_apart(octets[0] as nat);
    digits_are_apart(octets[1] as nat);
    digits_are_apart(octets[2] as nat);
    digits_are_apart(octets[3] as nat);
    let cd = c + seq!['.'] + d;
    assert forall|i: int| 0 <= i < cd.len() implies #[trigger] cd[i] != ':' by {
        if i < c.len() {
            assert(cd[i] == c[i]);
        } else if i > c.len() {
            assert(cd[i] == d[i - c.len() - 1]);
        }
    }
    let bcd = b + seq!['.'] + cd;
    assert forall|i: int| 0 <= i < bcd.len() implies #[trigger] bcd[i] != ':' by {
        if i < b.len() {
            assert(bcd[i] == b[i]);
        } else if i > b.len() {
            assert(bcd[i] == cd[i - b.len() - 1]);
        }
    }
    let text = a + seq!['.'] + bcd;
    assert forall|i: int| 0 <= i < text.len() implies #[trigger] text[i] != ':' by {
        if i < a.len() {
            assert(text[i] == a[i]);
        } else if i > a.len() {
            assert(text[i] == bcd[i - a.len() - 1]);
        }
    }
}

/// The text of an IPv6 address stands for it.
proof fn ipv6_reads_back(segments: Seq<u16>, text: Seq<char>)
    requires
        segments.len() == 8,
        is_shown_as(segments, text),
    ensures
        is_ipv6_text(text, segments),
        ipv4_of(text) is None,
{
    if is_mapped(segments) {
        mapped_reads_back(segments);
    } else {
        let (start, len) = choose|start: int, len: int| #[trigger]
            is_longest_run(segments, start, len) && text == (if len > 1 {
                segments_text(segments.take(start)) + seq![':', ':'] + segments_text(
                    segments.skip(start + len),
                )
            } else {
                segments_text(segments)
            });
        if len > 1 {
            let head = segments.take(start);
            let tail = segments.skip(start + len);
            let gap = segments_text(head).len() as int;
            gap_reads_back(head, tail);
            assert(text[gap] == ':');
            no_ipv4(text, gap);
            assert(head + zeros((8 - head.len() - tail.len()) as nat) + tail =~= segments);
            gap_decides(text, gap, segments);
        } else {
            segments_text_shape(segments);
            segments_read_back(segments, true);
            let i = choose|i: int| 0 <= i < text.len() && #[trigger] text[i] == ':';
            no_ipv4(text, i);
            assert forall|gap: int| !is_first_gap(text, gap) by {
                assert(!is_gap(text, gap));
            }
        }
    }
}

/// The text that is shown for an address stands for that address.
pub proof fn shown_ip_reads_back(ip: IpAddr, text: Seq<char>)
    requires
        is_ip_shown_as(ip, text),
    ensures
        is_ip_text(text, ip),
{
    match ip {
        IpAddr::V4(octets) => {
            ipv4_reads_back(octets@);
        },
        IpAddr::V6(segments) => {
            ipv6_reads_back(segments@, text);
        },
    }
}

/// A text stands for one address at most.
pub proof fn ip_text_is_unique(text: Seq<char>, a: IpAddr, b: IpAddr)
    requires
        is_ip_text(text, a),
        is_ip_text(text, b),
    ensures
        a == b,
{
    match (a, b) {
        (IpAddr::V4(x), IpAddr::V4(y)) => {
            assert(x@ == y@);
            assert(x =~= y);
        },
        (IpAddr::V6(x), IpAddr::V6(y)) => {
            if exists|gap: int| is_first_gap(text, gap) {
                let gap = choose|gap: int| is_first_gap(text, gap);
                assert(around_gap(text, gap) == Some(x@));
                assert(around_gap(text, gap) == Some(y@));
            }
            assert(x@ == y@);
            assert(x =~= y);
        },
        _ => {},
    }
}

/// A decimal number has one text only: what reads as a number and has no leading zero is its text.
pub proof fn a_decimal_text_is_unique(text: Seq<char>, n: nat)
    requires
        text.len() > 0,
        text.len() == 1 || text[0] != '0',
        decimal_value(text) == Some(n),
    ensures
        text == decimal(n),
    decreases text.len(),
{
    reveal_with_fuel(decimal_value, 2);
    let init = text.drop_last();
    let low = decimal_digit(text.last())->0;
    assert(digit_char(low) == text.last());
    if text.len() == 1 {
        assert(init =~= Seq::<char>::empty());
        assert(text =~= seq![text.last()]);
    } else {
        let high = decimal_value(init)->0;
        assert(init[0] == text[0]);
        if init.len() == 1 {
            assert(init.drop_last() =~= Seq::<char>::empty());
            assert(high > 0);
        }
        a_decimal_text_is_unique(init, high);
        decimal_reads_back(high);
        if high == 0 {
            assert(decimal(0)[0] == '0');
        }
        assert(n == high * 10 + low);
        assert(n / 10 == high && n % 10 == low);
        assert(text =~= init.push(text.last()));
    }
}

/// An octet is the text of a number up to 255, without leading zeros, and nothing else is one.
pub proof fn an_octet_is_a_number_up_to_255(text: Seq<char>, n: nat)
    ensures
        octet_of(text) is Some ==> text == decimal(octet_of(text)->0 as nat),
        n <= 255 ==> octet_of(decimal(n)) == Some(n as u8),
        n > 255 ==> octet_of(decimal(n)) is None,
{
    if octet_of(text) is Some {
        a_decimal_text_is_unique(text, decimal_value(text)->0);
    }
    decimal_reads_back(n);
    if n <= 255 {
        octet_reads_back(n as u8);
    }
}

/// A text, put together again from its parts.
pub open spec fn put_together(texts: Seq<Seq<char>>, separator: char) -> Seq<char>
    decreases texts.len(),
{
    if texts.len() == 0 {
        Seq::empty()
    } else if texts.len() == 1 {
        texts[0]
    } else {
        put_together(texts.drop_last(), separator) + seq![separator] + texts.last()
    }
}

/// The parts of a text, with the separator between them, are the text, and none of them has it in it.
pub proof fn parts_make_up_the_text(text: Seq<char>, separator: char, i: int)
    ensures
        put_together(parts(text, separator), separator) == text,
        parts(text, separator).len() > 0,
        0 <= i < parts(text, separator).len() ==> !parts(text, separator)[i].contains(separator),
    decreases text.len(),
{
    reveal_with_fuel(put_together, 2);
    if text.len() > 0 {
        let init = text.drop_last();
        let before = parts(init, separator);
        let after = parts(text, separator);
        parts_make_up_the_text(init, separator, i);
        parts_make_up_the_text(init, separator, before.len() - 1);
        assert(text =~= init.push(text.last()));
        if text.last() == separator {
            assert(after.drop_last() =~= before);
            assert(put_together(after, separator) =~= text);
            if i == before.len() {
                assert(after[i] =~= Seq::<char>::empty());
            } else if 0 <= i < before.len() {
                assert(after[i] == before[i]);
            }
        } else {
            assert(after.drop_last() =~= before.drop_last());
            let last = before.last().push(text.last());
            assert(after.last() == last);
            if before.len() == 1 {
                assert(put_together(after, separator) =~= text);
            } else {
                assert(put_together(after, separator) =~= text);
            }
            if i == before.len() - 1 {
                assert(after[i] == last);
                if last.contains(separator) {
                    let k = choose|k: int| 0 <= k < last.len() && last[k] == separator;
                    assert(before.last()[k] == separator);
                    assert(before[i].contains(separator));
                }
            } else if 0 <= i < before.len() {
                assert(after[i] == before[i]);
            }
        }
    }
}

/// An address of four octets has one text only: four numbers up to 255 with dots between them.
pub proof fn an_ipv4_text_is_unique(text: Seq<char>)
    requires
        ipv4_of(text) is Some,
    ensures
        text == ipv4_text(ipv4_of(text)->0),
        ipv4_of(text)->0.len() == 4,
{
    reveal_with_fuel(put_together, 4);
    let octets = parts(text, '.');
    let values = ipv4_of(text)->0;
    parts_make_up_the_text(text, '.', 0);
    an_octet_is_a_number_up_to_255(octets[0], 0);
    an_octet_is_a_number_up_to_255(octets[1], 0);
    an_octet_is_a_number_up_to_255(octets[2], 0);
    an_octet_is_a_number_up_to_255(octets[3], 0);
    let three = octets.drop_last();
    let two = three.drop_last();
    let one = two.drop_last();
    assert(one.len() == 1 && one[0] == octets[0]);
    assert(two.last() == octets[1]);
    assert(three.last() == octets[2]);
    assert(octets.last() == octets[3]);
    assert(put_together(two, '.') == octets[0] + seq!['.'] + octets[1]);
    assert(put_together(three, '.') == put_together(two, '.') + seq!['.'] + octets[2]);
    assert(text == put_together(three, '.') + seq!['.'] + octets[3]);
    assert(text =~= ipv4_text(values));
}

/// The digits of a segment read the same in either case, up to four of them, the first the most significant.
pub proof fn a_segment_is_read_digit_by_digit(text: Seq<char>, n: u16, c: char, d: nat)
    requires
        segment_of(text) == Some(n),
        d < 16,
        c == digit_char(d) || (10 <= d && c as int == 'A' as int + d - 10),
    ensures
        text.len() < 4 ==> segment_of(text.push(c)) == Some((n * 16 + d) as u16),
        text.len() == 4 ==> segment_of(text.push(c)) is None,
        segment_of(seq![c]) == Some(d as u16),
        segment_of(Seq::empty()) is None,
{
    reveal_with_fuel(hexadecimal_value, 2);
    assert(text.push(c).drop_last() =~= text);
    assert(seq![c].drop_last() =~= Seq::<char>::empty());
    assert(hexadecimal_digit(c) == Some(d));
    short_segments_fit(text.push(c));
}

proof fn short_segments_fit(text: Seq<char>)
    ensures
        text.len() == 0 ==> hexadecimal_value(text) == Some(0nat),
        text.len() == 1 && hexadecimal_value(text) is Some ==> hexadecimal_value(text)->0 < 16,
        text.len() == 2 && hexadecimal_value(text) is Some ==> hexadecimal_value(text)->0 < 256,
        text.len() == 3 && hexadecimal_value(text) is Some ==> hexadecimal_value(text)->0 < 4096,
        text.len() == 4 && hexadecimal_value(text) is Some ==> hexadecimal_value(text)->0 < 65536,
    decreases text.len(),
{
    if text.len() > 0 {
        short_segments_fit(text.drop_last());
    }
}

/// Two colons stand for as many zero segments as are missing from eight, wherever they stand.
pub proof fn two_colons_stand_for_zeros(head: Seq<u16>, tail: Seq<u16>, segments: Seq<u16>)
    requires
        head.len() + tail.len() <= 7,
        segments.len() == 8,
        forall|i: int| 0 <= i < head.len() ==> #[trigger] segments[i] == head[i],
        forall|i: int| head.len() <= i < 8 - tail.len() ==> #[trigger] segments[i] == 0,
        forall|i: int|
            8 - tail.len() <= i < 8 ==> #[trigger] segments[i] == tail[i - 8 + tail.len()],
    ensures
        is_ipv6_text(segments_text(head) + seq![':', ':'] + segments_text(tail), segments),
{
    let text = segments_text(head) + seq![':', ':'] + segments_text(tail);
    gap_reads_back(head, tail);
    assert(head + zeros((8 - head.len() - tail.len()) as nat) + tail =~= segments);
    gap_decides(text, segments_text(head).len() as int, segments);
}

/// An address of segments has eight of them.
pub proof fn an_ipv6_text_has_eight_segments(text: Seq<char>, segments: Seq<u16>)
    requires
        is_ipv6_text(text, segments),
    ensures
        segments.len() == 8,
{
    if exists|gap: int| is_first_gap(text, gap) {
        let gap = choose|gap: int| is_first_gap(text, gap);
        assert(around_gap(text, gap) == Some(segments));
    }
}

} // verus!
