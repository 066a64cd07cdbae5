//! Who a request comes from: the address of the client, and the addresses that
//! a virtual key may be used from.

use crate::net::{lemma_one_address, parse_ip, writes, IpAddr};
use crate::text::{
    chars_of, decimal, digit_char, find_char, law_decimals_are_read_back,
    law_splitting_begins_at_the_first, lemma_next_char_is, next_char, split, split_of, text_range,
    trim, trim_of, views,
};
use crate::types::{fault, text_in, ErrorKind, ProxyError};
use vstd::arithmetic::div_mod::lemma_div_denominator;
use vstd::arithmetic::power2::{lemma2_to64, lemma_pow2_pos, lemma_pow2_unfold, pow2};
use vstd::prelude::*;

verus! {

/// The text of an optional header.
pub open spec fn header_in(h: Option<&str>) -> Option<Seq<char>> {
    match h {
        Some(s) => Some(s@),
        None => None,
    }
}

/// A header that is not blank, without the white space around it.
pub open spec fn filled_header(h: Option<Seq<char>>) -> Option<Seq<char>> {
    match h {
        Some(s) => if trim_of(s).len() > 0 {
            Some(trim_of(s))
        } else {
            None
        },
        None => None,
    }
}

/// The address of the client: the header of the trusted proxy, else the first
/// hop of the forwarding chain, else the real-address header.
pub open spec fn client_of(
    connecting: Option<Seq<char>>,
    forwarded: Option<Seq<char>>,
    direct: Option<Seq<char>>,
) -> Option<Seq<char>> {
    if filled_header(connecting) is Some {
        filled_header(connecting)
    } else if forwarded is Some && filled_header(Some(split_of(forwarded->0, ',')[0])) is Some {
        filled_header(Some(split_of(forwarded->0, ',')[0]))
    } else {
        filled_header(direct)
    }
}

fn fill(h: Option<&str>) -> (r: Option<String>)
    ensures
        text_in(r) == filled_header(header_in(h)),
{
    match h {
        Some(s) => {
            let t = trim(s);
            if t.as_str().is_empty() {
                None
            } else {
                Some(t)
            }
        },
        None => None,
    }
}

/// The address of the client, from `CF-Connecting-IP`, `X-Forwarded-For` and
/// `X-Real-IP`.
pub fn client_ip(
    cf_connecting_ip: Option<&str>,
    x_forwarded_for: Option<&str>,
    x_real_ip: Option<&str>,
) -> (r: Option<String>)
    ensures
        text_in(r) == client_of(
            header_in(cf_connecting_ip),
            header_in(x_forwarded_for),
            header_in(x_real_ip),
        ),
{
    if let Some(ip) = fill(cf_connecting_ip) {
        return Some(ip);
    }
    if let Some(chain) = x_forwarded_for {
        let hops = split(chain, ',');
        proof {
            reveal_with_fuel(split_of, 2);
            assert(split_of(chain@, ',').len() > 0);
        }
        assert(views(hops@)[0] == hops@[0]@);
        if let Some(ip) = fill(Some(hops[0].as_str())) {
            return Some(ip);
        }
    }
    fill(x_real_ip)
}

/// An address as a number.
pub open spec fn address_value(ip: IpAddr) -> nat {
    match ip {
        IpAddr::V4(a, b, c, d) => (((a as nat * 256 + b as nat) * 256 + c as nat) * 256 + d as nat),
        IpAddr::V6(s) => segments_value(s@, 8),
    }
}

/// The number that the first `n` segments of an address form.
pub open spec fn segments_value(s: Seq<u16>, n: int) -> nat
    decreases n,
{
    if n <= 0 {
        0
    } else {
        segments_value(s, n - 1) * 65536 + s[n - 1] as nat
    }
}

/// How many bits an address has.
pub open spec fn address_bits(ip: IpAddr) -> nat {
    match ip {
        IpAddr::V4(..) => 32,
        IpAddr::V6(..) => 128,
    }
}

/// A number without its last `n` bits.
pub open spec fn without_bits(v: nat, n: nat) -> nat
    decreases n,
{
    if n == 0 {
        v
    } else {
        without_bits(v / 2, (n - 1) as nat)
    }
}

/// Whether an address is in a range: it is of the same kind as the base, and
/// has the same first `prefix` bits.
pub open spec fn in_range(ip: IpAddr, base: IpAddr, prefix: nat) -> bool {
    &&& address_bits(ip) == address_bits(base)
    &&& prefix <= address_bits(base)
    &&& without_bits(address_value(ip), (address_bits(ip) - prefix) as nat) == without_bits(
        address_value(base),
        (address_bits(ip) - prefix) as nat,
    )
}

fn number_of_address(ip: IpAddr) -> (r: u128)
    ensures
        r == address_value(ip),
{
    match ip {
        IpAddr::V4(a, b, c, d) => ((a as u128 * 256 + b as u128) * 256 + c as u128) * 256
            + d as u128,
        IpAddr::V6(s) => {
            let mut v: u128 = 0;
            let mut i: usize = 0;
            proof {
                assert(segments_value(s@, 0) == 0);
            }
            while i < 8
                invariant
                    i <= 8,
                    v == segments_value(s@, i as int),
                    v < bound_of(i as nat),
                decreases 8 - i,
            {
                proof {
                    lemma_bounds(i as nat);
                    assert(bound_of((i + 1) as nat) == bound_of(i as nat) * 65536);
                }
                v = v * 65536 + s[i] as u128;
                i = i + 1;
            }
            v
        },
    }
}

/// The first number that does not fit in `n` segments.
spec fn bound_of(n: nat) -> nat
    decreases n,
{
    if n == 0 {
        1
    } else {
        bound_of((n - 1) as nat) * 65536
    }
}

proof fn lemma_bounds(n: nat)
    requires
        n < 8,
    ensures
        bound_of(n) * 65536 <= 0x1_0000_0000_0000_0000_0000_0000_0000_0000,
{
    reveal_with_fuel(bound_of, 9);
}

fn drop_bits(v: u128, n: u32) -> (r: u128)
    ensures
        r == without_bits(v as nat, n as nat),
{
    let mut x: u128 = v;
    let mut left: u32 = n;
    while left > 0
        invariant
            without_bits(x as nat, left as nat) == without_bits(v as nat, n as nat),
        decreases left,
    {
        x = x / 2;
        left = left - 1;
    }
    x
}

fn is_in_range(ip: IpAddr, base: IpAddr, prefix: u32) -> (r: bool)
    ensures
        r == in_range(ip, base, prefix as nat),
{
    let bits: u32 = match ip {
        IpAddr::V4(..) => 32,
        IpAddr::V6(..) => 128,
    };
    let base_bits: u32 = match base {
        IpAddr::V4(..) => 32,
        IpAddr::V6(..) => 128,
    };
    if bits != base_bits || prefix > bits {
        return false;
    }
    let a = drop_bits(number_of_address(ip), bits - prefix);
    let b = drop_bits(number_of_address(base), bits - prefix);
    a == b
}

/// The value of a text of decimal digits, not over 128; `None` for any other.
pub open spec fn prefix_len(s: Seq<char>) -> Option<nat> {
    if s.len() == 0 || s.len() > 3 {
        None
    } else {
        digits_value(s)
    }
}

/// The value of decimal digits.
pub open spec fn digits_value(s: Seq<char>) -> Option<nat>
    decreases s.len(),
{
    if s.len() == 0 {
        Some(0)
    } else if digits_value(s.drop_last()) is Some && '0' <= s.last() <= '9' {
        Some(digits_value(s.drop_last())->0 * 10 + (s.last() as nat - '0' as nat) as nat)
    } else {
        None
    }
}

fn read_prefix(s: &str) -> (r: Option<u32>)
    ensures
        match r {
            Some(n) => prefix_len(s@) == Some(n as nat),
            None => prefix_len(s@) is None,
        },
{
    let chars = chars_of(s);
    let total: usize = chars.len();
    if total == 0 || total > 3 {
        return None;
    }
    let mut v: u32 = 0;
    let mut i: usize = 0;
    while i < total
        invariant
            i <= total <= 3,
            total == chars@.len(),
            chars@ == s@,
            digits_value(chars@.take(i as int)) == Some(v as nat),
            i == 0 ==> v == 0,
            i == 1 ==> v < 10,
            i == 2 ==> v < 100,
            i == 3 ==> v < 1000,
        decreases total - i,
    {
        let c = chars[i];
        assert(chars@.take(i + 1).drop_last() =~= chars@.take(i as int));
        if c < '0' || c > '9' {
            proof {
                lemma_bad_digit(chars@, i as int, total as int);
                assert(chars@.take(total as int) =~= chars@);
            }
            return None;
        }
        v = v * 10 + (c as u32 - '0' as u32);
        i = i + 1;
    }
    assert(chars@.take(i as int) =~= chars@);
    Some(v)
}

proof fn lemma_bad_digit(s: Seq<char>, at: int, n: int)
    requires
        0 <= at < n <= s.len(),
        !('0' <= s[at] <= '9'),
    ensures
        digits_value(s.take(n)) is None,
    decreases n,
{
    assert(s.take(n).drop_last() =~= s.take(n - 1));
    if at < n - 1 {
        lemma_bad_digit(s, at, n - 1);
    }
}

/// Whether an entry of an allowlist covers an address: it is the address, or a
/// range `base/prefix` that holds it.
pub open spec fn covers(entry: Seq<char>, ip: IpAddr) -> bool {
    let at = next_char(entry, '/', 0);
    if at >= entry.len() {
        writes(entry, ip)
    } else {
        exists|base: IpAddr|
            #[trigger] writes(entry.take(at), base) && (prefix_len(entry.skip(at + 1)) matches Some(
                n,
            ) && in_range(ip, base, n))
    }
}

fn entry_covers(entry: &str, ip: IpAddr) -> (r: bool)
    ensures
        r == covers(entry@, ip),
{
    let chars = chars_of(entry);
    let at = find_char(&chars, '/', 0);
    let total: usize = chars.len();
    if at >= total {
        match parse_ip(entry) {
            Some(base) => {
                if same_address(base, ip) {
                    return true;
                }
                proof {
                    if writes(entry@, ip) {
                        lemma_one_address(entry@, base, ip);
                    }
                }
                false
            },
            None => false,
        }
    } else {
        let head = text_range(&chars, 0, at);
        let tail = text_range(&chars, at + 1, total);
        assert(head@ =~= entry@.take(at as int));
        assert(tail@ =~= entry@.skip(at + 1));
        match parse_ip(head.as_str()) {
            Some(base) => match read_prefix(tail.as_str()) {
                Some(n) => {
                    let r = is_in_range(ip, base, n);
                    proof {
                        assert forall|other: IpAddr| #[trigger]
                            writes(head@, other) implies other == base by {
                            lemma_one_address(head@, base, other);
                        }
                    }
                    r
                },
                None => false,
            },
            None => false,
        }
    }
}

#[verifier::loop_isolation(false)]
fn same_address(a: IpAddr, b: IpAddr) -> (r: bool)
    ensures
        r == (a == b),
{
    match (a, b) {
        (IpAddr::V4(a0, a1, a2, a3), IpAddr::V4(b0, b1, b2, b3)) => a0 == b0 && a1 == b1 && a2 == b2
            && a3 == b3,
        (IpAddr::V6(x), IpAddr::V6(y)) => {
            let mut i: usize = 0;
            while i < 8
                invariant
                    i <= 8,
                    forall|k: int| 0 <= k < i ==> x@[k] == y@[k],
                decreases 8 - i,
            {
                if x[i] != y[i] {
                    return false;
                }
                i = i + 1;
            }
            assert(x@ =~= y@);
            assert(x == y);
            true
        },
        _ => false,
    }
}

/// Whether an allowlist admits a client. An empty list admits everyone; any
/// other admits an address that one of its entries covers, and no client whose
/// address is not known or is none.
pub open spec fn admits(allowed: Seq<Seq<char>>, client: Option<Seq<char>>) -> bool {
    ||| allowed.len() == 0
    ||| client is Some && comes_from_listed(allowed, client->0)
}

/// Whether a text is an address that some entry of an allowlist covers.
pub open spec fn comes_from_listed(allowed: Seq<Seq<char>>, client: Seq<char>) -> bool {
    exists|ip: IpAddr| #[trigger] writes(client, ip) && is_listed(allowed, ip)
}

/// Whether some entry of an allowlist covers an address.
pub open spec fn is_listed(allowed: Seq<Seq<char>>, ip: IpAddr) -> bool {
    exists|i: int| 0 <= i < allowed.len() && covers(trim_of(#[trigger] allowed[i]), ip)
}

/// The error for a client that is not admitted.
pub open spec fn not_admitted() -> Seq<char> {
    "this API key may not be used from the client's address"@
}

/// Holds a client's address against the allowlist of a virtual key.
pub fn check_client_ip(allowed: &Vec<String>, client: Option<&str>) -> (r: Result<(), ProxyError>)
    ensures
        match r {
            Ok(_) => admits(views(allowed@), header_in(client)),
            Err(e) => !admits(views(allowed@), header_in(client)) && e@ == fault(
                ErrorKind::Forbidden,
                not_admitted(),
                None,
            ),
        },
{
    if allowed.len() == 0 {
        return Ok(());
    }
    let ghost shown = views(allowed@);
    if let Some(c) = client {
        if let Some(ip) = parse_ip(c) {
            let mut i: usize = 0;
            while i < allowed.len()
                invariant
                    i <= allowed@.len(),
                    shown == views(allowed@),
                    client == Some(c),
                    writes(c@, ip),
                    forall|k: int| 0 <= k < i ==> !covers(trim_of(#[trigger] shown[k]), ip),
                decreases allowed@.len() - i,
            {
                assert(shown[i as int] == allowed@[i as int]@);
                let entry = trim(allowed[i].as_str());
                if entry_covers(entry.as_str(), ip) {
                    assert(is_listed(shown, ip));
                    return Ok(());
                }
                i = i + 1;
            }
            proof {
                assert forall|other: IpAddr| #[trigger] writes(c@, other) implies other == ip by {
                    lemma_one_address(c@, ip, other);
                }
            }
        }
    }
    Err(
        ProxyError::new(
            ErrorKind::Forbidden,
            "this API key may not be used from the client's address".to_owned(),
        ),
    )
}

/// A key with an allowlist admits nobody whose address is not known.
pub proof fn law_unknown_clients_are_refused(allowed: Seq<Seq<char>>)
    requires
        allowed.len() > 0,
    ensures
        !admits(allowed, None),
{
}

/// A range whose prefix is the whole address holds that address alone.
pub proof fn law_full_prefix_is_one_address(ip: IpAddr, base: IpAddr)
    ensures
        in_range(ip, base, address_bits(base)) == (address_bits(ip) == address_bits(base)
            && address_value(ip) == address_value(base)),
{
}

/// The client's address is the one the edge names; failing that the first of the
/// forwarded ones; failing that the direct one. A header that is missing or blank
/// says nothing, and space around an address is no part of it.
pub proof fn law_client_address_precedence(
    connecting: Option<Seq<char>>,
    forwarded: Option<Seq<char>>,
    direct: Option<Seq<char>>,
    first: Seq<char>,
    rest: Seq<char>,
)
    ensures
        connecting matches Some(c) ==> (trim_of(c).len() > 0 ==> client_of(
            connecting,
            forwarded,
            direct,
        ) == Some(trim_of(c))),
        (connecting is None || trim_of(connecting->0).len() == 0) ==> {
            &&& !first.contains(',') && trim_of(first).len() > 0 ==> client_of(
                connecting,
                Some(first + seq![','] + rest),
                direct,
            ) == Some(trim_of(first)) && client_of(connecting, Some(first), direct) == Some(
                trim_of(first),
            )
            &&& forwarded is None && direct is Some && trim_of(direct->0).len() > 0 ==> client_of(
                connecting,
                forwarded,
                direct,
            ) == Some(trim_of(direct->0))
            &&& forwarded is None && direct is None ==> client_of(connecting, forwarded, direct)
                is None
        },
        client_of(connecting, forwarded, direct) matches Some(c) ==> c.len() > 0,
{
    if !first.contains(',') {
        law_splitting_begins_at_the_first(first, ',', rest);
        assert((seq![first] + split_of(rest, ','))[0] == first);
    }
}

/// A range holds the addresses of its kind that agree with its base in as many
/// leading bits as its prefix says: those in the same block of that size.
pub proof fn law_ranges_are_blocks(ip: IpAddr, base: IpAddr, prefix: nat)
    requires
        address_bits(ip) == address_bits(base),
        prefix <= address_bits(base),
    ensures
        in_range(ip, base, prefix) <==> address_value(ip) / pow2((address_bits(ip) - prefix) as nat)
            == address_value(base) / pow2((address_bits(ip) - prefix) as nat),
{
    lemma_without_bits(address_value(ip), (address_bits(ip) - prefix) as nat);
    lemma_without_bits(address_value(base), (address_bits(ip) - prefix) as nat);
}

proof fn lemma_without_bits(v: nat, n: nat)
    ensures
        without_bits(v, n) == v / pow2(n),
    decreases n,
{
    if n == 0 {
        lemma2_to64();
    } else {
        lemma_without_bits(v / 2, (n - 1) as nat);
        lemma_pow2_unfold(n);
        lemma_pow2_pos((n - 1) as nat);
        lemma_div_denominator(v as int, 2, pow2((n - 1) as nat) as int);
    }
}

/// A wider range holds all that a narrower one with the same base holds, every
/// range holds its base, the widest holds every address of its kind, and none
/// holds an address of the other kind.
pub proof fn law_wider_ranges_hold_more(ip: IpAddr, base: IpAddr, prefix: nat)
    requires
        0 < prefix <= address_bits(base),
    ensures
        in_range(ip, base, prefix) ==> in_range(ip, base, (prefix - 1) as nat),
        in_range(base, base, prefix),
        address_bits(ip) != address_bits(base) ==> !in_range(ip, base, prefix),
        prefix + 1 > address_bits(base) ==> !in_range(ip, base, prefix + 1),
{
    if address_bits(ip) == address_bits(base) {
        let n = (address_bits(ip) - prefix) as nat;
        lemma_one_bit_more(address_value(ip), n);
        lemma_one_bit_more(address_value(base), n);
    }
}

proof fn lemma_one_bit_more(v: nat, n: nat)
    ensures
        without_bits(v, n + 1) == without_bits(v, n) / 2,
    decreases n,
{
    if n == 0 {
        assert(without_bits(v / 2, 0) == v / 2);
    } else {
        lemma_one_bit_more(v / 2, (n - 1) as nat);
    }
}

/// The value of an address is made of its parts, the first the most significant.
pub proof fn law_addresses_have_their_values(a: u8, b: u8, c: u8, d: u8, s: Seq<u16>, n: int)
    ensures
        address_value(IpAddr::V4(a, b, c, d)) == a * 16_777_216 + b * 65_536 + c * 256 + d,
        address_bits(IpAddr::V4(a, b, c, d)) == 32,
        n > 0 ==> segments_value(s, n) == segments_value(s, n - 1) * 65536 + s[n - 1],
        segments_value(s, 0) == 0,
{
}

/// A prefix written as a decimal number of up to three digits is that number.
pub proof fn law_written_prefixes_are_read(n: nat, s: Seq<char>, i: int)
    ensures
        n < 1000 ==> prefix_len(decimal(n)) == Some(n),
        s.len() == 0 || s.len() > 3 ==> prefix_len(s) is None,
        0 <= i < s.len() && !('0' <= s[i] <= '9') ==> prefix_len(s) is None,
{
    lemma_digits_of_decimal(n);
    law_decimals_are_read_back(n);
    if n < 1000 {
        if n >= 10 {
            assert(decimal(n) == decimal(n / 10).push(digit_char(n % 10)));
            if n >= 100 {
                assert(decimal(n / 10) == decimal(n / 10 / 10).push(digit_char(n / 10 % 10)));
                assert(decimal(n / 10 / 10).len() == 1);
            } else {
                assert(decimal(n / 10).len() == 1);
            }
        }
    }
    if 0 <= i < s.len() && !('0' <= s[i] <= '9') {
        lemma_no_digit(s, i);
    }
}

proof fn lemma_no_digit(s: Seq<char>, i: int)
    requires
        0 <= i < s.len(),
        !('0' <= s[i] <= '9'),
    ensures
        digits_value(s) is None,
    decreases s.len(),
{
    if i < s.len() - 1 {
        assert(s.drop_last()[i] == s[i]);
        lemma_no_digit(s.drop_last(), i);
    }
}

proof fn lemma_digits_of_decimal(n: nat)
    ensures
        digits_value(decimal(n)) == Some(n),
    decreases n,
{
    let d = decimal(n);
    if n < 10 {
        assert(d.drop_last() =~= Seq::<char>::empty());
        assert(digits_value(d.drop_last()) == Some(0nat));
        assert(d.last() == digit_char(n));
    } else {
        lemma_digits_of_decimal(n / 10);
        assert(d.drop_last() =~= decimal(n / 10));
        assert(d.last() == digit_char(n % 10));
    }
}

/// An entry without a slash is one address; one with a slash is the range of the
/// address before it and the prefix behind it.
pub proof fn law_entries_are_addresses_or_ranges(
    address: Seq<char>,
    prefix: Seq<char>,
    base: IpAddr,
    ip: IpAddr,
    n: nat,
)
    requires
        !address.contains('/'),
        writes(address, base),
    ensures
        covers(address, ip) <==> ip == base,
        prefix_len(prefix) == Some(n) ==> (covers(address + seq!['/'] + prefix, ip) <==> in_range(
            ip,
            base,
            n,
        )),
        prefix_len(prefix) is None ==> !covers(address + seq!['/'] + prefix, ip),
{
    let k = address.len() as int;
    assert forall|j: int| 0 <= j < k implies address[j] != '/' by {
        assert(address.contains(address[j]));
    }
    lemma_next_char_is(address, '/', 0, k);
    let entry = address + seq!['/'] + prefix;
    assert forall|j: int| 0 <= j < k implies entry[j] != '/' by {
        assert(entry[j] == address[j]);
    }
    assert(entry[k] == '/');
    lemma_next_char_is(entry, '/', 0, k);
    assert(entry.take(k) =~= address);
    assert(entry.skip(k + 1) =~= prefix);
    if covers(address, ip) {
        lemma_one_address(address, base, ip);
    }
    if covers(entry, ip) {
        let other = choose|other: IpAddr|
            #[trigger] writes(entry.take(k), other) && (prefix_len(entry.skip(k + 1)) matches Some(
                m,
            ) && in_range(ip, other, m));
        lemma_one_address(address, base, other);
    }
}

/// A key without a list may be used from anywhere; with one, only from an address
/// that some entry covers, and each further entry only admits more.
pub proof fn law_lists_admit_what_they_cover(
    allowed: Seq<Seq<char>>,
    more: Seq<Seq<char>>,
    client: Seq<char>,
    ip: IpAddr,
    i: int,
    any: Option<Seq<char>>,
)
    requires
        writes(client, ip),
    ensures
        admits(Seq::empty(), any),
        0 <= i < allowed.len() && covers(trim_of(allowed[i]), ip) ==> admits(allowed, Some(client)),
        allowed.len() > 0 && (forall|k: int|
            0 <= k < allowed.len() ==> !covers(trim_of(#[trigger] allowed[k]), ip)) ==> !admits(
            allowed,
            Some(client),
        ),
        allowed.len() > 0 && admits(allowed, Some(client)) ==> admits(allowed + more, Some(client)),
{
    if allowed.len() > 0 && admits(allowed, Some(client)) {
        let other = choose|other: IpAddr| #[trigger]
            writes(client, other) && is_listed(allowed, other);
        lemma_one_address(client, ip, other);
        let k = choose|k: int|
            0 <= k < allowed.len() && covers(trim_of(#[trigger] allowed[k]), other);
        assert((allowed + more)[k] == allowed[k]);
        assert(is_listed(allowed + more, other));
    }
}

} // verus!
