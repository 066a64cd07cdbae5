//! The destination-address policy: which addresses an outbound path may reach.
//!
//! It is the one place that says so, for providers and for plugins alike.

use crate::text::{
    chars_of, decimal, digit_char, ends_with, finishes_with, law_decimals_are_read_back,
    law_parts_occur, law_splitting_begins_at_the_first, lower_of, same, split, split_of, text_range,
    to_ascii_lowercase, trim, trim_of, views,
};
use vstd::prelude::*;

verus! {

/// An IP address: four octets, or eight segments of sixteen bits.
#[derive(Debug, Clone, Copy)]
pub enum IpAddr {
    V4(u8, u8, u8, u8),
    V6([u16; 8]),
}

/// Whether an IPv4 address is not a public one: loopback, private, link-local,
/// broadcast, multicast, shared (100.64/10), benchmarking (198.18/15), or in
/// 0.0.0.0/8.
pub open spec fn blocked_v4(a: u8, b: u8, c: u8, d: u8) -> bool {
    ||| a == 127
    ||| a == 10
    ||| a == 172 && 16 <= b <= 31
    ||| a == 192 && b == 168
    ||| a == 169 && b == 254
    ||| a == 255 && b == 255 && c == 255 && d == 255
    ||| 224 <= a <= 239
    ||| a == 0
    ||| a == 100 && 64 <= b <= 127
    ||| a == 198 && 18 <= b <= 19
}

/// Whether an IPv6 address stands for an IPv4 address.
pub open spec fn is_mapped(s: Seq<u16>) -> bool {
    s[0] == 0 && s[1] == 0 && s[2] == 0 && s[3] == 0 && s[4] == 0 && s[5] == 0xffff
}

/// Whether an IPv6 address that stands for no IPv4 address is not a public one:
/// loopback, unspecified, multicast, unique local (fc00::/7) or link-local
/// (fe80::/10).
pub open spec fn blocked_v6(s: Seq<u16>) -> bool {
    ||| s[0] == 0 && s[1] == 0 && s[2] == 0 && s[3] == 0 && s[4] == 0 && s[5] == 0 && s[6] == 0
        && s[7] <= 1
    ||| s[0] >= 0xff00
    ||| 0xfc00 <= s[0] <= 0xfdff
    ||| 0xfe80 <= s[0] <= 0xfebf
}

/// Whether an address may not be reached. An IPv4 address in IPv6 form is
/// judged as IPv4.
pub open spec fn blocked(ip: IpAddr) -> bool {
    match ip {
        IpAddr::V4(a, b, c, d) => blocked_v4(a, b, c, d),
        IpAddr::V6(s) => if is_mapped(s@) {
            blocked_v4(
                (s@[6] / 256) as u8,
                (s@[6] % 256) as u8,
                (s@[7] / 256) as u8,
                (s@[7] % 256) as u8,
            )
        } else {
            blocked_v6(s@)
        },
    }
}

fn is_blocked_v4(a: u8, b: u8, c: u8, d: u8) -> (r: bool)
    ensures
        r == blocked_v4(a, b, c, d),
{
    a == 127 || a == 10 || (a == 172 && 16 <= b && b <= 31) || (a == 192 && b == 168) || (a == 169
        && b == 254) || (a == 255 && b == 255 && c == 255 && d == 255) || (224 <= a && a <= 239)
        || a == 0 || (a == 100 && 64 <= b && b <= 127) || (a == 198 && 18 <= b && b <= 19)
}

/// Whether an address may not be reached.
pub fn is_blocked_ip(ip: IpAddr) -> (r: bool)
    ensures
        r == blocked(ip),
{
    match ip {
        IpAddr::V4(a, b, c, d) => is_blocked_v4(a, b, c, d),
        IpAddr::V6(s) => {
            let zeros = s[0] == 0 && s[1] == 0 && s[2] == 0 && s[3] == 0 && s[4] == 0;
            if zeros && s[5] == 0xffff {
                return is_blocked_v4(
                    (s[6] / 256) as u8,
                    (s[6] % 256) as u8,
                    (s[7] / 256) as u8,
                    (s[7] % 256) as u8,
                );
            }
            (zeros && s[5] == 0 && s[6] == 0 && s[7] <= 1) || s[0] >= 0xff00 || (0xfc00 <= s[0]
                && s[0] <= 0xfdff) || (0xfe80 <= s[0] && s[0] <= 0xfebf)
        },
    }
}

/// The value of a digit, in any base up to sixteen; `None` for another
/// character.
pub open spec fn digit_of(c: char) -> Option<int> {
    if '0' <= c <= '9' {
        Some(c as int - '0' as int)
    } else if 'a' <= c <= 'f' {
        Some(c as int - 'a' as int + 10)
    } else if 'A' <= c <= 'F' {
        Some(c as int - 'A' as int + 10)
    } else {
        None
    }
}

/// The value of a number in a base; `None` where some character is no digit of
/// the base. No digits are zero.
pub open spec fn number_of(s: Seq<char>, base: int) -> Option<int>
    decreases s.len(),
{
    if s.len() == 0 {
        Some(0)
    } else {
        match (number_of(s.drop_last(), base), digit_of(s.last())) {
            (Some(n), Some(d)) => if d < base {
                Some(n * base + d)
            } else {
                None
            },
            _ => None,
        }
    }
}

/// An octet of an IPv4 address: one to three decimal digits without a leading
/// zero, at most 255.
pub open spec fn octet_of(s: Seq<char>) -> Option<u8> {
    if 1 <= s.len() <= 3 && (s.len() == 1 || s[0] != '0') && number_of(s, 10) is Some && number_of(
        s,
        10,
    )->0 <= 255 {
        Some(number_of(s, 10)->0 as u8)
    } else {
        None
    }
}

/// An IPv4 address: four octets between dots.
pub open spec fn v4_of(s: Seq<char>) -> Option<(u8, u8, u8, u8)> {
    let p = split_of(s, '.');
    if p.len() == 4 && octet_of(p[0]) is Some && octet_of(p[1]) is Some && octet_of(p[2]) is Some
        && octet_of(p[3]) is Some {
        Some((octet_of(p[0])->0, octet_of(p[1])->0, octet_of(p[2])->0, octet_of(p[3])->0))
    } else {
        None
    }
}

/// A segment of an IPv6 address: one to four hexadecimal digits.
pub open spec fn segment_of(s: Seq<char>) -> Option<u16> {
    if 1 <= s.len() <= 4 && number_of(s, 16) is Some {
        Some(number_of(s, 16)->0 as u16)
    } else {
        None
    }
}

/// The segments of some groups; `None` where a group is none.
pub open spec fn segments_of(groups: Seq<Seq<char>>) -> Option<Seq<u16>>
    decreases groups.len(),
{
    if groups.len() == 0 {
        Some(Seq::empty())
    } else {
        match (segments_of(groups.drop_last()), segment_of(groups.last())) {
            (Some(before), Some(g)) => Some(before.push(g)),
            _ => None,
        }
    }
}

/// The segments of a part of an IPv6 address, whose groups stand between
/// colons. The last group of the address may be an IPv4 address, which makes
/// two segments. An empty part has none.
pub open spec fn part_segments(s: Seq<char>, at_end: bool) -> Option<Seq<u16>> {
    if s.len() == 0 {
        Some(Seq::empty())
    } else {
        let groups = split_of(s, ':');
        if at_end && v4_of(groups.last()) is Some {
            let v = v4_of(groups.last())->0;
            match segments_of(groups.drop_last()) {
                Some(before) => Some(
                    before + seq![(v.0 * 256 + v.1) as u16, (v.2 * 256 + v.3) as u16],
                ),
                None => None,
            }
        } else {
            segments_of(groups)
        }
    }
}

/// The place of the first two colons in a row, from `i` on; the length where
/// there are none.
pub open spec fn double_colon(s: Seq<char>, i: int) -> int
    decreases s.len() - i,
{
    if i < 0 || i + 1 >= s.len() {
        s.len() as int
    } else if s[i] == ':' && s[i + 1] == ':' {
        i
    } else {
        double_colon(s, i + 1)
    }
}

/// So many zero segments.
pub open spec fn zeros(n: int) -> Seq<u16> {
    Seq::new(n as nat, |i: int| 0u16)
}

/// The segments of an IPv6 address: eight of them, or fewer around two colons,
/// which stand for one or more zero segments.
pub open spec fn v6_of(s: Seq<char>) -> Option<Seq<u16>> {
    let at = double_colon(s, 0);
    if at < 0 || at >= s.len() {
        match part_segments(s, true) {
            Some(all) => if all.len() == 8 {
                Some(all)
            } else {
                None
            },
            None => None,
        }
    } else {
        match (part_segments(s.take(at), false), part_segments(s.skip(at + 2), true)) {
            (Some(head), Some(tail)) => if head.len() + tail.len() <= 7 {
                Some(head + zeros(8 - head.len() - tail.len()) + tail)
            } else {
                None
            },
            _ => None,
        }
    }
}

/// Whether a text writes an address.
pub open spec fn writes(s: Seq<char>, ip: IpAddr) -> bool {
    match ip {
        IpAddr::V4(a, b, c, d) => v4_of(s) == Some((a, b, c, d)),
        IpAddr::V6(segments) => v4_of(s) is None && v6_of(s) == Some(segments@),
    }
}

fn parse_number(chars: &Vec<char>, base: u32) -> (r: Option<u32>)
    requires
        chars@.len() <= 4,
        base == 10 || base == 16,
    ensures
        match r {
            Some(n) => number_of(chars@, base as int) == Some(n as int) && n < 0x1_0000,
            None => number_of(chars@, base as int) is None,
        },
{
    let mut n: u32 = 0;
    let mut i: usize = 0;
    assert(chars@.take(0).len() == 0);
    proof {
        lemma_number_bound(chars@, base as int);
    }
    while i < chars.len()
        invariant
            i <= chars@.len() <= 4,
            base == 10 || base == 16,
            number_of(chars@.take(i as int), base as int) == Some(n as int),
        decreases chars@.len() - i,
    {
        proof {
            assert(chars@.take(i + 1).drop_last() =~= chars@.take(i as int));
            lemma_number_bound(chars@.take(i as int), base as int);
        }
        let c = chars[i];
        let d: u32 = if '0' <= c && c <= '9' {
            c as u32 - 48
        } else if 'a' <= c && c <= 'f' {
            c as u32 - 97 + 10
        } else if 'A' <= c && c <= 'F' {
            c as u32 - 65 + 10
        } else {
            99
        };
        if d >= base {
            proof {
                assert(number_of(chars@.take(i + 1), base as int) is None);
                lemma_number_none(chars@, i + 1, base as int);
            }
            return None;
        }
        proof {
            assert(n * base <= 0xf_ffff) by (nonlinear_arith)
                requires
                    n <= 0xffff,
                    base <= 16,
            ;
        }
        n = n * base + d;
        i = i + 1;
    }
    assert(chars@.take(chars@.len() as int) =~= chars@);
    Some(n)
}

proof fn lemma_number_bound(s: Seq<char>, base: int)
    requires
        base == 10 || base == 16,
        s.len() <= 4,
    ensures
        number_of(s, base) matches Some(n) ==> 0 <= n < 0x1_0000,
        s.len() <= 3 ==> (number_of(s, base) matches Some(n) ==> 0 <= n < 0x1000),
        s.len() <= 2 ==> (number_of(s, base) matches Some(n) ==> 0 <= n < 0x100),
        s.len() <= 1 ==> (number_of(s, base) matches Some(n) ==> 0 <= n < 0x10),
    decreases s.len(),
{
    if s.len() > 0 {
        lemma_number_bound(s.drop_last(), base);
    }
}

proof fn lemma_number_none(s: Seq<char>, i: int, base: int)
    requires
        0 <= i <= s.len(),
        number_of(s.take(i), base) is None,
    ensures
        number_of(s, base) is None,
    decreases s.len(),
{
    if i == s.len() {
        assert(s.take(i) =~= s);
    } else {
        assert(s.drop_last().take(i) =~= s.take(i));
        lemma_number_none(s.drop_last(), i, base);
    }
}

fn parse_octet(s: &str) -> (r: Option<u8>)
    ensures
        r == octet_of(s@),
{
    let chars = chars_of(s);
    if chars.len() < 1 || chars.len() > 3 || (chars.len() > 1 && chars[0] == '0') {
        return None;
    }
    match parse_number(&chars, 10) {
        Some(n) => if n <= 255 {
            Some(n as u8)
        } else {
            None
        },
        None => None,
    }
}

fn parse_v4(s: &str) -> (r: Option<(u8, u8, u8, u8)>)
    ensures
        r == v4_of(s@),
{
    let p = split(s, '.');
    let ghost shown = views(p@);
    if p.len() != 4 {
        return None;
    }
    assert(shown[0] == p@[0]@ && shown[1] == p@[1]@ && shown[2] == p@[2]@ && shown[3] == p@[3]@);
    match (
        parse_octet(p[0].as_str()),
        parse_octet(p[1].as_str()),
        parse_octet(p[2].as_str()),
        parse_octet(p[3].as_str()),
    ) {
        (Some(a), Some(b), Some(c), Some(d)) => Some((a, b, c, d)),
        _ => None,
    }
}

fn parse_segment(s: &str) -> (r: Option<u16>)
    ensures
        r == segment_of(s@),
{
    let chars = chars_of(s);
    if chars.len() < 1 || chars.len() > 4 {
        return None;
    }
    match parse_number(&chars, 16) {
        Some(n) => Some(n as u16),
        None => None,
    }
}

proof fn lemma_segments_none(groups: Seq<Seq<char>>, i: int)
    requires
        0 <= i <= groups.len(),
        segments_of(groups.take(i)) is None,
    ensures
        segments_of(groups) is None,
    decreases groups.len(),
{
    if i == groups.len() {
        assert(groups.take(i) =~= groups);
    } else {
        assert(groups.drop_last().take(i) =~= groups.take(i));
        lemma_segments_none(groups.drop_last(), i);
    }
}

fn parse_segments(groups: &Vec<String>, n: usize) -> (r: Option<Vec<u16>>)
    requires
        n <= groups@.len(),
    ensures
        match r {
            Some(v) => segments_of(views(groups@).take(n as int)) == Some(v@) && v@.len() == n,
            None => segments_of(views(groups@).take(n as int)) is None,
        },
{
    let ghost shown = views(groups@).take(n as int);
    let mut out: Vec<u16> = Vec::new();
    let mut i: usize = 0;
    assert(shown.take(0).len() == 0);
    while i < n
        invariant
            i <= n <= groups@.len(),
            shown == views(groups@).take(n as int),
            out@.len() == i,
            segments_of(shown.take(i as int)) == Some(out@),
        decreases n - i,
    {
        proof {
            assert(shown.take(i + 1).drop_last() =~= shown.take(i as int));
            assert(shown.take(i + 1).last() == groups@[i as int]@);
        }
        match parse_segment(groups[i].as_str()) {
            Some(g) => {
                out.push(g);
            },
            None => {
                proof {
                    lemma_segments_none(shown, i + 1);
                }
                return None;
            },
        }
        i = i + 1;
    }
    assert(shown.take(n as int) =~= shown);
    Some(out)
}

fn parse_part(s: &str, at_end: bool) -> (r: Option<Vec<u16>>)
    ensures
        match r {
            Some(v) => part_segments(s@, at_end) == Some(v@),
            None => part_segments(s@, at_end) is None,
        },
{
    if s.is_empty() {
        return Some(Vec::new());
    }
    let groups = split(s, ':');
    let ghost shown = views(groups@);
    let n: usize = groups.len();
    assert(shown.last() == groups@[n - 1]@);
    if at_end {
        if let Some((a, b, c, d)) = parse_v4(groups[n - 1].as_str()) {
            assert(shown.drop_last() =~= shown.take(n - 1));
            return match parse_segments(&groups, n - 1) {
                Some(v) => {
                    let mut out = v;
                    out.push(a as u16 * 256 + b as u16);
                    out.push(c as u16 * 256 + d as u16);
                    assert(out@ =~= v@ + seq![(a * 256 + b) as u16, (c * 256 + d) as u16]);
                    Some(out)
                },
                None => None,
            };
        }
    }
    assert(shown.take(n as int) =~= shown);
    parse_segments(&groups, n)
}

fn find_double_colon(chars: &Vec<char>) -> (r: usize)
    ensures
        r == double_colon(chars@, 0),
        r <= chars@.len(),
        r < chars@.len() ==> r + 2 <= chars@.len(),
{
    let mut i: usize = 0;
    let n: usize = chars.len();
    while i < n && i + 1 < n
        invariant
            i <= n,
            n == chars@.len(),
            double_colon(chars@, 0) == double_colon(chars@, i as int),
        decreases n - i,
    {
        if chars[i] == ':' && chars[i + 1] == ':' {
            return i;
        }
        i = i + 1;
    }
    n
}

fn eight(v: &Vec<u16>) -> (r: [u16; 8])
    requires
        v@.len() == 8,
    ensures
        r@ == v@,
{
    let r = [v[0], v[1], v[2], v[3], v[4], v[5], v[6], v[7]];
    assert(r@ =~= v@);
    r
}

fn parse_v6(s: &str) -> (r: Option<[u16; 8]>)
    ensures
        match r {
            Some(v) => v6_of(s@) == Some(v@),
            None => v6_of(s@) is None,
        },
{
    let chars = chars_of(s);
    let at = find_double_colon(&chars);
    if at >= chars.len() {
        return match parse_part(s, true) {
            Some(v) => if v.len() == 8 {
                Some(eight(&v))
            } else {
                None
            },
            None => None,
        };
    }
    let first = text_range(&chars, 0, at);
    let rest = text_range(&chars, at + 2, chars.len());
    proof {
        assert(first@ =~= s@.take(at as int));
        assert(rest@ =~= s@.skip(at + 2));
    }
    match (parse_part(first.as_str(), false), parse_part(rest.as_str(), true)) {
        (Some(head), Some(tail)) => {
            if head.len() > 7 || tail.len() > 7 || head.len() + tail.len() > 7 {
                return None;
            }
            let gap: usize = 8 - head.len() - tail.len();
            let mut all = head;
            let mut i: usize = 0;
            while i < gap
                invariant
                    i <= gap,
                    all@ == head@ + zeros(i as int),
                decreases gap - i,
            {
                assert(zeros(i as int).push(0u16) =~= zeros(i + 1));
                all.push(0);
                assert(all@ =~= head@ + zeros(i + 1));
                i = i + 1;
            }
            let mut tail = tail;
            all.append(&mut tail);
            Some(eight(&all))
        },
        _ => None,
    }
}

/// The address that a text writes; `None` where it writes none.
pub fn parse_ip(s: &str) -> (r: Option<IpAddr>)
    ensures
        match r {
            Some(ip) => writes(s@, ip),
            None => v4_of(s@) is None && v6_of(s@) is None,
        },
{
    if let Some((a, b, c, d)) = parse_v4(s) {
        return Some(IpAddr::V4(a, b, c, d));
    }
    match parse_v6(s) {
        Some(v) => Some(IpAddr::V6(v)),
        None => None,
    }
}

/// Whether a text, as it is compared, names a destination that may not be
/// reached: nothing, a local name, or an address that may not.
pub open spec fn blocked_name(name: Seq<char>) -> bool {
    ||| name.len() == 0
    ||| name == "localhost"@
    ||| finishes_with(name, ".localhost"@)
    ||| finishes_with(name, ".internal"@)
    ||| exists|ip: IpAddr| #[trigger] writes(name, ip) && blocked(ip)
}

/// Whether a host names a local or internal destination, without resolving it.
/// Case and white space at the ends do not count.
pub fn is_blocked_host(host: &str) -> (r: bool)
    ensures
        r == blocked_name(lower_of(trim_of(host@))),
{
    let trimmed = trim(host);
    let name = to_ascii_lowercase(trimmed.as_str());
    if name.as_str().is_empty() {
        return true;
    }
    if same(name.as_str(), "localhost") || ends_with(name.as_str(), ".localhost") || ends_with(
        name.as_str(),
        ".internal",
    ) {
        return true;
    }
    match parse_ip(name.as_str()) {
        Some(ip) => {
            let r = is_blocked_ip(ip);
            proof {
                assert forall|other: IpAddr| #[trigger] writes(name@, other) implies blocked(other)
                    == blocked(ip) by {
                    lemma_one_address(name@, ip, other);
                }
            }
            r
        },
        None => false,
    }
}

/// A text writes at most one address.
pub proof fn lemma_one_address(s: Seq<char>, a: IpAddr, b: IpAddr)
    requires
        writes(s, a),
        writes(s, b),
    ensures
        a == b,
{
    match (a, b) {
        (IpAddr::V6(x), IpAddr::V6(y)) => {
            assert(x =~= y);
        },
        _ => {},
    }
}

/// An IPv4 address does not become reachable by being written as IPv6.
pub proof fn law_mapped_addresses_are_judged_as_v4(a: u8, b: u8, c: u8, d: u8, s: [u16; 8])
    requires
        is_mapped(s@),
        s@[6] == a * 256 + b,
        s@[7] == c * 256 + d,
    ensures
        blocked(IpAddr::V6(s)) == blocked(IpAddr::V4(a, b, c, d)),
{
}

/// The number that the four parts of an address make.
pub open spec fn v4_number(a: u8, b: u8, c: u8, d: u8) -> int {
    ((a * 256 + b) * 256 + c) * 256 + d
}

/// Blocked are the addresses of this network, the private and shared networks,
/// the loopback and the link, those for benchmarks and groups, and the
/// broadcast; each network whole, from its first address to its last, and no
/// address besides.
pub proof fn law_reserved_networks_are_blocked(a: u8, b: u8, c: u8, d: u8)
    ensures
        ({
            let n = v4_number(a, b, c, d);
            blocked(IpAddr::V4(a, b, c, d)) <==> {
                ||| v4_number(0, 0, 0, 0) <= n <= v4_number(0, 255, 255, 255)
                ||| v4_number(10, 0, 0, 0) <= n <= v4_number(10, 255, 255, 255)
                ||| v4_number(100, 64, 0, 0) <= n <= v4_number(100, 127, 255, 255)
                ||| v4_number(127, 0, 0, 0) <= n <= v4_number(127, 255, 255, 255)
                ||| v4_number(169, 254, 0, 0) <= n <= v4_number(169, 254, 255, 255)
                ||| v4_number(172, 16, 0, 0) <= n <= v4_number(172, 31, 255, 255)
                ||| v4_number(192, 168, 0, 0) <= n <= v4_number(192, 168, 255, 255)
                ||| v4_number(198, 18, 0, 0) <= n <= v4_number(198, 19, 255, 255)
                ||| v4_number(224, 0, 0, 0) <= n <= v4_number(239, 255, 255, 255)
                ||| n == v4_number(255, 255, 255, 255)
            }
        }),
{
}

/// Of the longer addresses blocked are the unspecified one, the loopback, the
/// groups, the local ones and those of the link, and no other that does not stand
/// for a shorter one.
pub proof fn law_reserved_v6_networks_are_blocked(s: [u16; 8])
    requires
        s@[5] != 0xffff || s@[0] != 0,
    ensures
        blocked(IpAddr::V6(s)) <==> {
            ||| (forall|k: int| 0 <= k < 7 ==> #[trigger] s@[k] == 0) && (s@[7] == 0 || s@[7] == 1)
            ||| 0xfc00 <= s@[0] < 0xfe00
            ||| 0xfe80 <= s@[0] < 0xfec0
            ||| 0xff00 <= s@[0]
        },
{
    let t = s@;
    if forall|k: int| 0 <= k < 7 ==> #[trigger] t[k] == 0 {
        assert(t[0] == 0 && t[1] == 0 && t[2] == 0 && t[3] == 0 && t[4] == 0 && t[5] == 0 && t[6]
            == 0);
    }
}

/// Digits are read to their base, the most significant first, capitals as small
/// letters; a digit that the base does not have makes no number.
pub proof fn law_numbers_are_read_digit_by_digit(s: Seq<char>, c: char, base: int, n: int, d: int)
    ensures
        number_of(s, base) == Some(n) && digit_of(c) == Some(d) && d < base ==> number_of(
            s.push(c),
            base,
        ) == Some(n * base + d),
        digit_of(c) is None ==> number_of(s.push(c), base) is None,
        digit_of(c) == Some(d) && d >= base ==> number_of(s.push(c), base) is None,
        number_of(s, base) is None ==> number_of(s.push(c), base) is None,
        number_of(Seq::empty(), base) == Some(0int),
        '0' <= c <= '9' ==> digit_of(c) == Some(c as int - '0' as int),
        'a' <= c <= 'f' ==> digit_of(c) == Some(10 + c as int - 'a' as int),
        'A' <= c <= 'F' ==> digit_of(c) == Some(10 + c as int - 'A' as int),
        !('0' <= c <= '9') && !('a' <= c <= 'f') && !('A' <= c <= 'F') ==> digit_of(c) is None,
{
    assert(s.push(c).drop_last() =~= s);
}

proof fn lemma_number_of_decimal(n: nat)
    ensures
        number_of(decimal(n), 10) == Some(n as int),
    decreases n,
{
    let d = decimal(n);
    if n < 10 {
        assert(d.drop_last() =~= Seq::<char>::empty());
        assert(number_of(d.drop_last(), 10) == Some(0int));
        assert(d.last() == digit_char(n));
    } else {
        lemma_number_of_decimal(n / 10);
        assert(d.drop_last() =~= decimal(n / 10));
        assert(d.last() == digit_char(n % 10));
    }
}

proof fn lemma_decimal_len(n: nat)
    requires
        n <= 255,
    ensures
        1 <= decimal(n).len() <= 3,
        decimal(n).len() == 1 || decimal(n)[0] != '0',
        !decimal(n).contains('.'),
        octet_of(decimal(n)) == Some(n as u8),
{
    law_decimals_are_read_back(n);
    lemma_number_of_decimal(n);
    if n >= 10 {
        assert(decimal(n) == decimal(n / 10).push(digit_char(n % 10)));
        if n >= 100 {
            assert(decimal(n / 10) == decimal(n / 10 / 10).push(digit_char(n / 10 % 10)));
            assert(decimal(n / 10 / 10).len() == 1);
        } else {
            assert(decimal(n / 10).len() == 1);
        }
    }
    if decimal(n).contains('.') {
        let i = choose|i: int| 0 <= i < decimal(n).len() && decimal(n)[i] == '.';
        assert('0' <= decimal(n)[i] <= '9');
    }
}

/// An address written in the usual way, four decimal numbers with points between
/// them, is read as that address.
pub proof fn law_written_addresses_are_read(a: u8, b: u8, c: u8, d: u8)
    ensures
        writes(
            decimal(a as nat) + seq!['.'] + (decimal(b as nat) + seq!['.'] + (decimal(c as nat)
                + seq!['.'] + decimal(d as nat))),
            IpAddr::V4(a, b, c, d),
        ),
{
    let ta = decimal(a as nat);
    let tb = decimal(b as nat);
    let tc = decimal(c as nat);
    let td = decimal(d as nat);
    lemma_decimal_len(a as nat);
    lemma_decimal_len(b as nat);
    lemma_decimal_len(c as nat);
    lemma_decimal_len(d as nat);
    let last = tc + seq!['.'] + td;
    let mid = tb + seq!['.'] + last;
    let all = ta + seq!['.'] + mid;
    law_splitting_begins_at_the_first(td, '.', Seq::empty());
    law_splitting_begins_at_the_first(tc, '.', td);
    law_splitting_begins_at_the_first(tb, '.', last);
    law_splitting_begins_at_the_first(ta, '.', mid);
    let p = split_of(all, '.');
    assert(split_of(last, '.') =~= seq![tc, td]);
    assert(split_of(mid, '.') =~= seq![tb, tc, td]);
    assert(p =~= seq![ta, tb, tc, td]);
}

/// Four parts and no more make a short address, none above 255 and none with a
/// needless zero at its front.
pub proof fn law_malformed_addresses_are_not_read(s: Seq<char>, part: Seq<char>)
    ensures
        split_of(s, '.').len() != 4 ==> v4_of(s) is None,
        split_of(s, '.').contains(part) && octet_of(part) is None ==> v4_of(s) is None,
        part.len() == 0 || part.len() > 3 ==> octet_of(part) is None,
        part.len() > 1 && part[0] == '0' ==> octet_of(part) is None,
        number_of(part, 10) is None ==> octet_of(part) is None,
        number_of(part, 10) matches Some(n) ==> (n > 255 ==> octet_of(part) is None),
        part.len() == 0 || part.len() > 4 ==> segment_of(part) is None,
        number_of(part, 16) is None ==> segment_of(part) is None,
        1 <= part.len() <= 4 && number_of(part, 16) is Some ==> segment_of(part) is Some && segment_of(
            part,
        )->0 == number_of(part, 16)->0,
{
    if 1 <= part.len() <= 4 && number_of(part, 16) is Some {
        lemma_number_bound(part, 16);
    }
}

proof fn lemma_segments(groups: Seq<Seq<char>>)
    ensures
        segments_of(groups) matches Some(v) ==> v.len() == groups.len() && forall|i: int|
            0 <= i < v.len() ==> segment_of(#[trigger] groups[i]) == Some(v[i]),
    decreases groups.len(),
{
    if groups.len() > 0 {
        lemma_segments(groups.drop_last());
        if let Some(v) = segments_of(groups) {
            assert forall|i: int| 0 <= i < v.len() implies segment_of(#[trigger] groups[i]) == Some(
                v[i],
            ) by {
                if i < v.len() - 1 {
                    assert(groups[i] == groups.drop_last()[i]);
                }
            }
        }
    }
}

/// A longer address without a gap is its eight groups in order, each a hexadecimal
/// number.
pub proof fn law_eight_groups_make_an_address(s: Seq<char>, v: Seq<u16>)
    requires
        double_colon(s, 0) == s.len(),
        v4_of(split_of(s, ':').last()) is None,
        v6_of(s) == Some(v),
    ensures
        split_of(s, ':').len() == 8,
        v.len() == 8,
        forall|i: int| 0 <= i < 8 ==> segment_of(#[trigger] split_of(s, ':')[i]) == Some(v[i]),
{
    lemma_segments(split_of(s, ':'));
}

/// A gap stands for zeros: what is written before it begins the address, what is
/// written behind it ends the address, and between them all is zero; together
/// there are eight groups, and the gap is for at least one of them.
pub proof fn law_a_gap_stands_for_zeros(s: Seq<char>, v: Seq<u16>, head: Seq<u16>, tail: Seq<u16>)
    requires
        0 <= double_colon(s, 0) < s.len(),
        part_segments(s.take(double_colon(s, 0)), false) == Some(head),
        part_segments(s.skip(double_colon(s, 0) + 2), true) == Some(tail),
    ensures
        v6_of(s) is Some <==> head.len() + tail.len() <= 7,
        v6_of(s) == Some(v) ==> v.len() == 8 && v.take(head.len() as int) == head && v.skip(
            8 - tail.len(),
        ) == tail && forall|i: int|
            head.len() <= i < 8 - tail.len() ==> #[trigger] v[i] == 0,
{
    if v6_of(s) == Some(v) {
        assert(v.take(head.len() as int) =~= head);
        assert(v.skip(8 - tail.len()) =~= tail);
    }
}

proof fn lemma_double_colon(s: Seq<char>, i: int)
    requires
        0 <= i <= s.len(),
    ensures
        i <= double_colon(s, i) <= s.len(),
        double_colon(s, i) < s.len() ==> double_colon(s, i) + 1 < s.len() && s[double_colon(s, i)]
            == ':' && s[double_colon(s, i) + 1] == ':',
        forall|k: int|
            i <= k < double_colon(s, i) && k + 1 < s.len() ==> !(#[trigger] s[k] == ':' && s[k + 1]
                == ':'),
    decreases s.len() - i,
{
    if i + 1 < s.len() && !(s[i] == ':' && s[i + 1] == ':') {
        lemma_double_colon(s, i + 1);
    }
}

/// The gap is at the first two colons that stand together, and where none do
/// there is no gap.
pub proof fn law_gaps_are_double_colons(s: Seq<char>)
    ensures
        0 <= double_colon(s, 0) <= s.len(),
        double_colon(s, 0) < s.len() ==> double_colon(s, 0) + 1 < s.len() && s[double_colon(s, 0)]
            == ':' && s[double_colon(s, 0) + 1] == ':',
        forall|k: int|
            0 <= k < double_colon(s, 0) && k + 1 < s.len() ==> !(#[trigger] s[k] == ':' && s[k + 1]
                == ':'),
{
    lemma_double_colon(s, 0);
}

/// Names of the own machine and of internal networks are blocked, and so is every
/// name below them, an empty name, and a blocked address written out; any other
/// name is not.
pub proof fn law_local_names_are_blocked(name: Seq<char>, below: Seq<char>, ip: IpAddr)
    ensures
        blocked_name("localhost"@),
        blocked_name(below + ".localhost"@),
        blocked_name(below + ".internal"@),
        blocked_name(Seq::empty()),
        writes(name, ip) && blocked(ip) ==> blocked_name(name),
        writes(name, ip) && !blocked(ip) && name.len() > 0 && name != "localhost"@ && !finishes_with(
            name,
            ".localhost"@,
        ) && !finishes_with(name, ".internal"@) ==> !blocked_name(name),
{
    law_parts_occur(below, ".localhost"@, Seq::empty());
    law_parts_occur(below, ".internal"@, Seq::empty());
    if writes(name, ip) && !blocked(ip) {
        assert forall|other: IpAddr| #[trigger] writes(name, other) implies !blocked(other) by {
            lemma_one_address(name, ip, other);
        }
    }
}

} // verus!
