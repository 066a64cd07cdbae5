//! Character-level text operations, stated over sequences of characters.

use vstd::prelude::*;
use vstd::utf8::{
    decode_utf8, encode_utf8, encode_utf8_decode_utf8, is_char_boundary,
};

verus! {

/// `String::push` appends one character.
pub assume_specification[ String::push ](s: &mut String, c: char)
    ensures
        final(s)@ == old(s)@.push(c),
;

/// The characters with the Unicode `White_Space` property.
pub open spec fn is_space(c: char) -> bool {
    ||| 0x09 <= c as u32 <= 0x0d
    ||| c as u32 == 0x20
    ||| c as u32 == 0x85
    ||| c as u32 == 0xa0
    ||| c as u32 == 0x1680
    ||| 0x2000 <= c as u32 <= 0x200a
    ||| c as u32 == 0x2028
    ||| c as u32 == 0x2029
    ||| c as u32 == 0x202f
    ||| c as u32 == 0x205f
    ||| c as u32 == 0x3000
}

/// Whether a character is white space.
pub fn is_whitespace(c: char) -> (r: bool)
    ensures
        r == is_space(c),
{
    let v: u32 = c as u32;
    (0x09 <= v && v <= 0x0d) || v == 0x20 || v == 0x85 || v == 0xa0 || v == 0x1680
        || (0x2000 <= v && v <= 0x200a) || v == 0x2028 || v == 0x2029 || v == 0x202f || v == 0x205f
        || v == 0x3000
}

/// The characters of a string.
pub fn chars_of(s: &str) -> (r: Vec<char>)
    ensures
        r@ == s@,
{
    let mut out: Vec<char> = Vec::new();
    for c in it: s.chars()
        invariant
            out@ == s@.take(it.index()),
            it.seq() == s@,
    {
        assert(s@.take(it.index() + 1) == s@.take(it.index()).push(c));
        out.push(c);
    }
    assert(s@.take(s@.len() as int) == s@);
    out
}

/// The string made of the characters from `from` up to `to`.
pub fn text_range(chars: &Vec<char>, from: usize, to: usize) -> (r: String)
    requires
        from <= to <= chars@.len(),
    ensures
        r@ == chars@.subrange(from as int, to as int),
{
    let mut out: String = String::new();
    let mut i: usize = from;
    while i < to
        invariant
            from <= i <= to <= chars@.len(),
            out@ == chars@.subrange(from as int, i as int),
        decreases to - i,
    {
        assert(chars@.subrange(from as int, i + 1) == chars@.subrange(from as int, i as int).push(
            chars@[i as int],
        ));
        out.push(chars[i]);
        i = i + 1;
    }
    out
}

/// Whether two strings hold the same characters.
pub fn same(a: &str, b: &str) -> (r: bool)
    ensures
        r == (a@ == b@),
{
    a.to_owned() == b.to_owned()
}

/// A string without its leading white space.
pub open spec fn trim_start_of(s: Seq<char>) -> Seq<char>
    decreases s.len(),
{
    if s.len() > 0 && is_space(s[0]) {
        trim_start_of(s.skip(1))
    } else {
        s
    }
}

/// A string without its trailing white space.
pub open spec fn trim_end_of(s: Seq<char>) -> Seq<char>
    decreases s.len(),
{
    if s.len() > 0 && is_space(s.last()) {
        trim_end_of(s.drop_last())
    } else {
        s
    }
}

/// A string without white space at either end.
pub open spec fn trim_of(s: Seq<char>) -> Seq<char> {
    trim_end_of(trim_start_of(s))
}

/// A copy of a string without white space at either end.
pub fn trim(s: &str) -> (r: String)
    ensures
        r@ == trim_of(s@),
{
    let chars = chars_of(s);
    let mut from: usize = 0;
    assert(chars@.skip(0) == chars@);
    while from < chars.len() && is_whitespace(chars[from])
        invariant
            from <= chars@.len(),
            trim_start_of(chars@.skip(from as int)) == trim_start_of(chars@),
        decreases chars@.len() - from,
    {
        assert(chars@.skip(from as int).skip(1) == chars@.skip(from + 1));
        from = from + 1;
    }
    let ghost mid = chars@.skip(from as int);
    assert(trim_start_of(chars@) == mid);
    let mut to: usize = chars.len();
    assert(chars@.subrange(from as int, to as int) == mid);
    while from < to && is_whitespace(chars[to - 1])
        invariant
            from <= to <= chars@.len(),
            trim_end_of(chars@.subrange(from as int, to as int)) == trim_end_of(mid),
        decreases to,
    {
        assert(chars@.subrange(from as int, to as int).drop_last() == chars@.subrange(
            from as int,
            to - 1,
        ));
        to = to - 1;
    }
    text_range(&chars, from, to)
}

/// Whether `s` begins with `prefix`.
pub open spec fn begins_with(s: Seq<char>, prefix: Seq<char>) -> bool {
    prefix.len() <= s.len() && s.take(prefix.len() as int) == prefix
}

/// Whether `s` ends with `suffix`.
pub open spec fn finishes_with(s: Seq<char>, suffix: Seq<char>) -> bool {
    suffix.len() <= s.len() && s.skip(s.len() - suffix.len()) == suffix
}

/// Whether `part` stands at position `at` of `s`.
pub open spec fn stands_at(s: Seq<char>, part: Seq<char>, at: int) -> bool {
    0 <= at && at + part.len() <= s.len() && s.subrange(at, at + part.len()) == part
}

/// Whether `part` occurs somewhere in `s`.
pub open spec fn contains_part(s: Seq<char>, part: Seq<char>) -> bool {
    exists|at: int| stands_at(s, part, at)
}

/// Whether `part` stands at position `at` of `chars`.
pub fn part_at(chars: &Vec<char>, part: &Vec<char>, at: usize) -> (r: bool)
    requires
        at <= chars@.len(),
    ensures
        r == stands_at(chars@, part@, at as int),
{
    let total: usize = chars.len();
    if part.len() > total - at {
        return false;
    }
    let mut i: usize = 0;
    while i < part.len()
        invariant
            i <= part@.len(),
            total == chars@.len(),
            at + part@.len() <= total,
            forall|k: int| 0 <= k < i ==> chars@[at + k] == part@[k],
        decreases part@.len() - i,
    {
        if chars[at + i] != part[i] {
            assert(chars@.subrange(at as int, at + part@.len())[i as int] == chars@[at + i]);
            return false;
        }
        i = i + 1;
    }
    assert(chars@.subrange(at as int, at + part@.len()) == part@);
    true
}

/// Whether a string begins with another.
pub fn starts_with(s: &str, prefix: &str) -> (r: bool)
    ensures
        r == begins_with(s@, prefix@),
{
    let chars = chars_of(s);
    let part = chars_of(prefix);
    assert(prefix@.len() <= s@.len() ==> s@.take(prefix@.len() as int) == s@.subrange(
        0,
        prefix@.len() as int,
    ));
    part_at(&chars, &part, 0)
}

/// Whether a string ends with another.
pub fn ends_with(s: &str, suffix: &str) -> (r: bool)
    ensures
        r == finishes_with(s@, suffix@),
{
    let chars = chars_of(s);
    let part = chars_of(suffix);
    if part.len() > chars.len() {
        return false;
    }
    let at: usize = chars.len() - part.len();
    assert(s@.skip(at as int) == s@.subrange(at as int, at + suffix@.len()));
    part_at(&chars, &part, at)
}

/// Whether a string occurs in another.
pub fn contains(s: &str, part: &str) -> (r: bool)
    ensures
        r == contains_part(s@, part@),
{
    let chars = chars_of(s);
    let wanted = chars_of(part);
    let mut i: usize = 0;
    while i <= chars.len()
        invariant
            i <= chars@.len() + 1,
            chars@ == s@,
            wanted@ == part@,
            forall|at: int| 0 <= at < i ==> !stands_at(s@, part@, at),
        decreases chars@.len() + 1 - i,
    {
        if part_at(&chars, &wanted, i) {
            return true;
        }
        if i == chars.len() {
            return false;
        }
        i = i + 1;
    }
    false
}

/// What follows `prefix` in a string that begins with it.
pub fn strip_prefix(s: &str, prefix: &str) -> (r: Option<String>)
    ensures
        r is Some == begins_with(s@, prefix@),
        r matches Some(rest) ==> rest@ == s@.skip(prefix@.len() as int),
{
    if starts_with(s, prefix) {
        let chars = chars_of(s);
        let n: usize = prefix.unicode_len();
        assert(s@.skip(n as int) == s@.subrange(n as int, s@.len() as int));
        Some(text_range(&chars, n, chars.len()))
    } else {
        None
    }
}

/// An ASCII capital letter made small; any other character as it is.
pub open spec fn lower_char(c: char) -> char {
    if 'A' <= c <= 'Z' {
        (c as u32 + 32) as char
    } else {
        c
    }
}

/// A string with its ASCII capital letters made small.
pub open spec fn lower_of(s: Seq<char>) -> Seq<char> {
    s.map_values(|c: char| lower_char(c))
}

fn lower(c: char) -> (r: char)
    ensures
        r == lower_char(c),
{
    if 'A' <= c && c <= 'Z' {
        let v: u8 = c as u8;
        (v + 32) as char
    } else {
        c
    }
}

/// A copy of a string with its ASCII capital letters made small.
pub fn to_ascii_lowercase(s: &str) -> (r: String)
    ensures
        r@ == lower_of(s@),
{
    let chars = chars_of(s);
    let mut out: String = String::new();
    let mut i: usize = 0;
    while i < chars.len()
        invariant
            i <= chars@.len(),
            chars@ == s@,
            out@ == lower_of(s@.take(i as int)),
        decreases chars@.len() - i,
    {
        assert(s@.take(i + 1) == s@.take(i as int).push(s@[i as int]));
        assert(lower_of(s@.take(i + 1)) == lower_of(s@.take(i as int)).push(
            lower_char(s@[i as int]),
        ));
        out.push(lower(chars[i]));
        i = i + 1;
    }
    assert(s@.take(s@.len() as int) == s@);
    out
}

/// The decimal digit of a number below ten.
pub open spec fn digit_char(d: nat) -> char {
    ('0' as u32 + d) as char
}

/// A natural number written in decimal.
pub open spec fn decimal(n: nat) -> Seq<char>
    decreases n,
{
    if n < 10 {
        seq![digit_char(n)]
    } else {
        decimal(n / 10).push(digit_char(n % 10))
    }
}

/// An integer written in decimal, with a minus sign where it is negative.
pub open spec fn signed_decimal(n: int) -> Seq<char> {
    if n < 0 {
        seq!['-'] + decimal((-n) as nat)
    } else {
        decimal(n as nat)
    }
}

fn digit(d: u8) -> (r: char)
    requires
        d < 10,
    ensures
        r == digit_char(d as nat),
{
    (48 + d) as char
}

/// A number written in decimal.
pub fn decimal_text(n: u64) -> (r: String)
    ensures
        r@ == decimal(n as nat),
    decreases n,
{
    if n < 10 {
        let mut out: String = String::new();
        out.push(digit(n as u8));
        assert(out@ == seq![digit_char(n as nat)]);
        out
    } else {
        let mut out = decimal_text(n / 10);
        out.push(digit((n % 10) as u8));
        out
    }
}

/// A signed number written in decimal.
pub fn signed_text(n: i64) -> (r: String)
    ensures
        r@ == signed_decimal(n as int),
{
    if n < 0 {
        let m: u64 = (-(n as i128)) as u64;
        let mut out: String = String::new();
        out.push('-');
        let digits = decimal_text(m);
        out.append(digits.as_str());
        assert(out@ == seq!['-'] + decimal(m as nat));
        out
    } else {
        decimal_text(n as u64)
    }
}

/// The characters of each string of a list.
pub open spec fn views(v: Seq<String>) -> Seq<Seq<char>> {
    v.map_values(|s: String| s@)
}

/// The position of the first `c` at or after `from`, or the length.
pub open spec fn next_char(s: Seq<char>, c: char, from: int) -> int
    decreases s.len() - from,
{
    if from < 0 || from >= s.len() {
        s.len() as int
    } else if s[from] == c {
        from
    } else {
        next_char(s, c, from + 1)
    }
}

/// A line without the carriage return of its CR LF ending.
pub open spec fn without_cr(s: Seq<char>) -> Seq<char> {
    if s.len() > 0 && s.last() == '\r' {
        s.drop_last()
    } else {
        s
    }
}

/// The lines of a text: they end in LF or CR LF, and the ending of the last
/// one is optional.
pub open spec fn lines_of(s: Seq<char>) -> Seq<Seq<char>>
    decreases s.len(),
{
    if s.len() == 0 {
        Seq::empty()
    } else {
        let i = next_char(s, '\n', 0);
        if i < 0 || i >= s.len() {
            seq![s]
        } else {
            seq![without_cr(s.take(i))] + lines_of(s.skip(i + 1))
        }
    }
}

pub proof fn lemma_next_char(s: Seq<char>, c: char, from: int)
    requires
        0 <= from <= s.len(),
    ensures
        from <= next_char(s, c, from) <= s.len(),
        next_char(s, c, from) < s.len() ==> s[next_char(s, c, from)] == c,
        forall|k: int| from <= k < next_char(s, c, from) ==> s[k] != c,
    decreases s.len() - from,
{
    if from < s.len() && s[from] != c {
        lemma_next_char(s, c, from + 1);
    }
}

pub proof fn lemma_next_char_is(s: Seq<char>, c: char, from: int, at: int)
    requires
        0 <= from <= at <= s.len(),
        at < s.len() ==> s[at] == c,
        forall|k: int| from <= k < at ==> s[k] != c,
    ensures
        next_char(s, c, from) == at,
    decreases at - from,
{
    if from < at {
        lemma_next_char_is(s, c, from + 1, at);
    }
}

/// The position of the first `c` at or after `from`, or the length.
pub fn find_char(chars: &Vec<char>, c: char, from: usize) -> (r: usize)
    requires
        from <= chars@.len(),
    ensures
        from <= r <= chars@.len(),
        r == next_char(chars@, c, from as int),
        r < chars@.len() ==> chars@[r as int] == c,
{
    proof {
        lemma_next_char(chars@, c, from as int);
    }
    let mut i: usize = from;
    while i < chars.len() && chars[i] != c
        invariant
            from <= i <= chars@.len(),
            next_char(chars@, c, from as int) == next_char(chars@, c, i as int),
        decreases chars@.len() - i,
    {
        i = i + 1;
    }
    i
}

/// The lines of a text, without their endings.
pub fn lines(s: &str) -> (r: Vec<String>)
    ensures
        views(r@) == lines_of(s@),
{
    let chars = chars_of(s);
    let mut out: Vec<String> = Vec::new();
    let mut i: usize = 0;
    assert(chars@.skip(0) == chars@);
    assert(lines_of(s@) == views(out@) + lines_of(chars@.skip(0)));
    while i < chars.len()
        invariant
            i <= chars@.len(),
            lines_of(s@) == views(out@) + lines_of(chars@.skip(i as int)),
        decreases chars@.len() - i,
    {
        let ghost rest = chars@.skip(i as int);
        let ghost shown = views(out@);
        let at = find_char(&chars, '\n', i);
        proof {
            lemma_next_char(chars@, '\n', i as int);
            lemma_next_char_is(rest, '\n', 0, at - i);
        }
        if at < chars.len() {
            let end: usize = if at > i && chars[at - 1] == '\r' {
                at - 1
            } else {
                at
            };
            out.push(text_range(&chars, i, end));
            proof {
                assert(rest.take(at - i) == chars@.subrange(i as int, at as int));
                assert(without_cr(rest.take(at - i)) == chars@.subrange(i as int, end as int));
                assert(rest.skip(at - i + 1) == chars@.skip(at + 1));
                assert(views(out@) == shown.push(without_cr(rest.take(at - i))));
                assert(lines_of(rest) == seq![without_cr(rest.take(at - i))] + lines_of(
                    chars@.skip(at + 1),
                ));
            }
            i = at + 1;
        } else {
            out.push(text_range(&chars, i, at));
            proof {
                assert(chars@.subrange(i as int, at as int) == rest);
                assert(views(out@) == shown.push(rest));
                assert(lines_of(rest) == seq![rest]);
                assert(lines_of(chars@.skip(at as int)) == Seq::<Seq<char>>::empty());
            }
            i = at;
        }
    }
    assert(lines_of(chars@.skip(i as int)) == Seq::<Seq<char>>::empty());
    out
}

/// How many bytes a text takes.
pub open spec fn byte_len(s: Seq<char>) -> nat {
    encode_utf8(s).len()
}

/// Whether a text can be cut after its first `n` bytes.
pub open spec fn cuts_at(s: Seq<char>, n: int) -> bool {
    is_char_boundary(encode_utf8(s), n)
}

/// The characters in the first `n` bytes of a text.
pub open spec fn head_of(s: Seq<char>, n: int) -> Seq<char> {
    decode_utf8(encode_utf8(s).subrange(0, n))
}

/// The characters after the first `n` bytes of a text.
pub open spec fn tail_of(s: Seq<char>, n: int) -> Seq<char> {
    decode_utf8(encode_utf8(s).subrange(n, encode_utf8(s).len() as int))
}

/// How many bytes a text takes.
pub fn byte_count(s: &str) -> (r: usize)
    ensures
        r == byte_len(s@),
{
    s.as_bytes().len()
}

/// Whether a text can be cut after its first `n` bytes.
pub fn can_cut(s: &str, n: usize) -> (r: bool)
    ensures
        r == cuts_at(s@, n as int),
{
    s.is_char_boundary(n)
}

/// The first `n` bytes of a text.
pub fn head(s: &str, n: usize) -> (r: String)
    requires
        cuts_at(s@, n as int),
    ensures
        r@ == head_of(s@, n as int),
{
    let (first, _) = s.split_at(n);
    proof {
        encode_utf8_decode_utf8(first@);
    }
    first.to_owned()
}

/// What follows the first `n` bytes of a text.
pub fn tail(s: &str, n: usize) -> (r: String)
    requires
        cuts_at(s@, n as int),
    ensures
        r@ == tail_of(s@, n as int),
{
    let (_, rest) = s.split_at(n);
    proof {
        encode_utf8_decode_utf8(rest@);
    }
    rest.to_owned()
}

/// Texts joined by a separator.
pub open spec fn joined(parts: Seq<Seq<char>>, sep: Seq<char>) -> Seq<char>
    decreases parts.len(),
{
    if parts.len() == 0 {
        Seq::empty()
    } else if parts.len() == 1 {
        parts[0]
    } else {
        joined(parts.drop_last(), sep) + sep + parts.last()
    }
}

/// Texts joined by a separator.
pub fn join(parts: &Vec<String>, sep: &str) -> (r: String)
    ensures
        r@ == joined(views(parts@), sep@),
{
    let mut out: String = String::new();
    let mut i: usize = 0;
    while i < parts.len()
        invariant
            i <= parts@.len(),
            out@ == joined(views(parts@).take(i as int), sep@),
        decreases parts@.len() - i,
    {
        let ghost shown = views(parts@).take(i + 1);
        proof {
            assert(shown.drop_last() == views(parts@).take(i as int));
            assert(shown.last() == parts@[i as int]@);
            assert(Seq::<char>::empty() + parts@[i as int]@ == parts@[i as int]@);
        }
        if i > 0 {
            out.append(sep);
        }
        out.append(parts[i].as_str());
        i = i + 1;
    }
    assert(views(parts@).take(parts@.len() as int) == views(parts@));
    out
}

/// Two texts in a row.
pub fn text2(a: &str, b: &str) -> (r: String)
    ensures
        r@ == a@ + b@,
{
    let mut s = a.to_owned();
    s.append(b);
    s
}

/// Three texts in a row.
pub fn text3(a: &str, b: &str, c: &str) -> (r: String)
    ensures
        r@ == a@ + b@ + c@,
{
    let mut s = text2(a, b);
    s.append(c);
    s
}

/// Four texts in a row.
pub fn text4(a: &str, b: &str, c: &str, d: &str) -> (r: String)
    ensures
        r@ == a@ + b@ + c@ + d@,
{
    let mut s = text3(a, b, c);
    s.append(d);
    s
}

/// Five texts in a row.
pub fn text5(a: &str, b: &str, c: &str, d: &str, e: &str) -> (r: String)
    ensures
        r@ == a@ + b@ + c@ + d@ + e@,
{
    let mut s = text4(a, b, c, d);
    s.append(e);
    s
}

/// The parts of a text between the occurrences of a character. A text without
/// the character is one part.
pub open spec fn split_of(s: Seq<char>, c: char) -> Seq<Seq<char>>
    decreases s.len(),
{
    let i = next_char(s, c, 0);
    if i < 0 || i >= s.len() {
        seq![s]
    } else {
        seq![s.take(i)] + split_of(s.skip(i + 1), c)
    }
}

/// The parts of a text between the occurrences of a character.
pub fn split(s: &str, c: char) -> (r: Vec<String>)
    ensures
        views(r@) == split_of(s@, c),
        r@.len() >= 1,
{
    let chars = chars_of(s);
    let mut out: Vec<String> = Vec::new();
    let mut i: usize = 0;
    assert(chars@.skip(0) == chars@);
    assert(split_of(s@, c) == views(out@) + split_of(chars@.skip(0), c));
    loop
        invariant
            i <= chars@.len(),
            split_of(s@, c) == views(out@) + split_of(chars@.skip(i as int), c),
        decreases chars@.len() - i,
    {
        let ghost rest = chars@.skip(i as int);
        let ghost shown = views(out@);
        let at = find_char(&chars, c, i);
        proof {
            lemma_next_char(chars@, c, i as int);
            lemma_next_char_is(rest, c, 0, at - i);
        }
        out.push(text_range(&chars, i, at));
        proof {
            assert(rest.take(at - i) =~= chars@.subrange(i as int, at as int));
            assert(views(out@) =~= shown.push(rest.take(at - i)));
        }
        if at >= chars.len() {
            proof {
                assert(rest.take(at - i) =~= rest);
                assert(split_of(rest, c) == seq![rest]);
                assert(views(out@) =~= split_of(s@, c));
            }
            return out;
        }
        proof {
            assert(rest.skip(at - i + 1) =~= chars@.skip(at + 1));
            assert(split_of(rest, c) == seq![rest.take(at - i)] + split_of(chars@.skip(at + 1), c));
            assert(shown + split_of(rest, c) =~= views(out@) + split_of(chars@.skip(at + 1), c));
        }
        i = at + 1;
    }
}

/// A line reaches up to the next LF, and a CR before that is not part of it;
/// what follows has its own lines. A text without LF is one line.
pub proof fn law_lines_end_in_lf_or_crlf(line: Seq<char>, rest: Seq<char>)
    requires
        !line.contains('\n'),
    ensures
        line.len() > 0 ==> lines_of(line) == seq![line],
        lines_of(line + seq!['\r', '\n'] + rest) == seq![line] + lines_of(rest),
        line.len() == 0 || line.last() != '\r' ==> lines_of(line + seq!['\n'] + rest) == seq![line]
            + lines_of(rest),
        lines_of(Seq::empty()).len() == 0,
{
    let n = line.len() as int;
    assert forall|k: int| 0 <= k < n implies line[k] != '\n' by {
        assert(line.contains(line[k]));
    }
    if n > 0 {
        lemma_next_char_is(line, '\n', 0, n);
    }
    let a = line + seq!['\r', '\n'] + rest;
    assert(forall|k: int| 0 <= k < n ==> a[k] == line[k]);
    lemma_next_char_is(a, '\n', 0, n + 1);
    assert(a.take(n + 1).drop_last() =~= line);
    assert(a.skip(n + 2) =~= rest);
    let b = line + seq!['\n'] + rest;
    assert(forall|k: int| 0 <= k < n ==> b[k] == line[k]);
    lemma_next_char_is(b, '\n', 0, n);
    assert(b.take(n) =~= line);
    assert(b.skip(n + 1) =~= rest);
}

/// Trimming takes white space off both ends and nothing else, and leaves none
/// there.
pub proof fn law_trimming_takes_only_the_ends(s: Seq<char>)
    ensures
        exists|from: int, to: int|
            0 <= from <= to <= s.len() && trim_of(s) == #[trigger] s.subrange(from, to) && (forall|
                k: int,
            |
                0 <= k < s.len() && !(from <= k < to) ==> is_space(#[trigger] s[k])),
        trim_of(s).len() > 0 ==> !is_space(trim_of(s)[0]) && !is_space(trim_of(s).last()),
        trim_of(trim_of(s)) == trim_of(s),
{
    lemma_trim_start(s);
    let mid = trim_start_of(s);
    lemma_trim_end(mid);
    let from = s.len() - mid.len();
    let to = from + trim_of(s).len();
    assert(trim_of(s) =~= s.subrange(from, to));
    assert forall|k: int| 0 <= k < s.len() && !(from <= k < to) implies is_space(
        #[trigger] s[k],
    ) by {
        if k >= to {
            assert(s[k] == mid[k - from]);
        }
    }
    let t = trim_of(s);
    if t.len() > 0 {
        assert(t[0] == mid[0]);
    }
}

proof fn lemma_trim_start(s: Seq<char>)
    ensures
        ({
            let t = trim_start_of(s);
            &&& t.len() <= s.len()
            &&& t == s.skip(s.len() - t.len())
            &&& forall|k: int| 0 <= k < s.len() - t.len() ==> is_space(#[trigger] s[k])
            &&& t.len() > 0 ==> !is_space(t[0])
        }),
    decreases s.len(),
{
    if s.len() > 0 && is_space(s[0]) {
        let rest = s.skip(1);
        lemma_trim_start(rest);
        let t = trim_start_of(s);
        assert(rest.skip(rest.len() - t.len()) =~= s.skip(s.len() - t.len()));
        assert forall|k: int| 0 <= k < s.len() - t.len() implies is_space(#[trigger] s[k]) by {
            if k > 0 {
                assert(s[k] == rest[k - 1]);
            }
        }
    } else {
        assert(s.skip(0) =~= s);
    }
}

proof fn lemma_trim_end(s: Seq<char>)
    ensures
        ({
            let t = trim_end_of(s);
            &&& t.len() <= s.len()
            &&& t == s.take(t.len() as int)
            &&& forall|k: int| t.len() <= k < s.len() ==> is_space(#[trigger] s[k])
            &&& t.len() > 0 ==> !is_space(t.last())
        }),
    decreases s.len(),
{
    if s.len() > 0 && is_space(s.last()) {
        let rest = s.drop_last();
        lemma_trim_end(rest);
        let t = trim_end_of(s);
        assert(rest.take(t.len() as int) =~= s.take(t.len() as int));
        assert forall|k: int| t.len() <= k < s.len() implies is_space(#[trigger] s[k]) by {
            if k < s.len() - 1 {
                assert(s[k] == rest[k]);
            }
        }
    } else {
        assert(s.take(s.len() as int) =~= s);
    }
}

/// Of the ASCII characters the blank, the tab and the line ends are white space;
/// no letter, digit or mark is.
pub proof fn law_ascii_space(c: char)
    requires
        (c as u32) < 128,
    ensures
        c == ' ' || c == '\t' || c == '\n' || c == '\r' ==> is_space(c),
        '!' <= c <= '~' ==> !is_space(c),
{
}

/// Splitting loses nothing but the separators: joined by them the parts are the
/// text again, no part holds one, and there is always a part.
pub proof fn law_split_and_join(s: Seq<char>, c: char)
    ensures
        joined(split_of(s, c), seq![c]) == s,
        forall|i: int| 0 <= i < split_of(s, c).len() ==> !(#[trigger] split_of(s, c)[i]).contains(c),
        split_of(s, c).len() >= 1,
    decreases s.len(),
{
    let i = next_char(s, c, 0);
    lemma_next_char(s, c, 0);
    let parts = split_of(s, c);
    if i >= s.len() {
        assert(parts =~= seq![s]);
        assert(!s.contains(c));
    } else {
        let rest = s.skip(i + 1);
        law_split_and_join(rest, c);
        let later = split_of(rest, c);
        lemma_joined_front(s.take(i), later, seq![c]);
        assert(s =~= s.take(i) + seq![c] + rest);
        assert forall|k: int| 0 <= k < parts.len() implies !(#[trigger] parts[k]).contains(c) by {
            if k > 0 {
                assert(parts[k] == later[k - 1]);
            }
        }
    }
}

proof fn lemma_joined_front(first: Seq<char>, later: Seq<Seq<char>>, sep: Seq<char>)
    requires
        later.len() > 0,
    ensures
        joined(seq![first] + later, sep) == first + sep + joined(later, sep),
    decreases later.len(),
{
    let all = seq![first] + later;
    if later.len() == 1 {
        assert(all.drop_last() =~= seq![first]);
        assert(all.last() == later[0]);
        assert(joined(seq![first], sep) == first);
        assert(joined(later, sep) == later[0]);
    } else {
        lemma_joined_front(first, later.drop_last(), sep);
        assert(all.drop_last() =~= seq![first] + later.drop_last());
        assert(all.last() == later.last());
        assert(joined(all, sep) =~= first + sep + joined(later, sep));
    }
}

/// Lowering a text keeps its length and everything but capitals, leaves no
/// capital, and is done once and for all.
pub proof fn law_lowering(s: Seq<char>)
    ensures
        lower_of(s).len() == s.len(),
        forall|i: int| 0 <= i < s.len() ==> !('A' <= #[trigger] lower_of(s)[i] <= 'Z'),
        forall|i: int|
            0 <= i < s.len() && !('A' <= #[trigger] s[i] <= 'Z') ==> lower_of(s)[i] == s[i],
        forall|i: int|
            0 <= i < s.len() && 'A' <= #[trigger] s[i] <= 'Z' ==> lower_of(s)[i] as u32 - 'a' as u32
                == s[i] as u32 - 'A' as u32,
        lower_of(lower_of(s)) == lower_of(s),
{
    assert forall|i: int| 0 <= i < s.len() implies !('A' <= #[trigger] lower_of(s)[i] <= 'Z') by {
        assert(lower_of(s)[i] == lower_char(s[i]));
    }
    assert(lower_of(lower_of(s)) =~= lower_of(s));
}

/// The number that decimal digits stand for.
pub open spec fn decimal_value(s: Seq<char>) -> int
    decreases s.len(),
{
    if s.len() == 0 {
        0
    } else {
        10 * decimal_value(s.drop_last()) + (s.last() as u32 - '0' as u32)
    }
}

/// A number that was written is read back from its digits: there are only
/// digits, and none in front that says nothing.
pub proof fn law_decimals_are_read_back(n: nat)
    ensures
        decimal_value(decimal(n)) == n,
        decimal(n).len() > 0,
        forall|i: int| 0 <= i < decimal(n).len() ==> '0' <= #[trigger] decimal(n)[i] <= '9',
        n > 0 ==> decimal(n)[0] != '0',
        signed_decimal(-(n as int)) == (if n == 0 {
            decimal(n)
        } else {
            seq!['-'] + decimal(n)
        }),
    decreases n,
{
    let d = decimal(n);
    if n < 10 {
        assert(d.drop_last() =~= Seq::<char>::empty());
        assert(decimal_value(d.drop_last()) == 0);
    } else {
        law_decimals_are_read_back(n / 10);
        assert(d.drop_last() =~= decimal(n / 10));
        assert(d[0] == decimal(n / 10)[0]);
        assert forall|i: int| 0 <= i < d.len() implies '0' <= #[trigger] d[i] <= '9' by {
            if i < d.len() - 1 {
                assert(d[i] == decimal(n / 10)[i]);
            }
        }
    }
}

/// A text occurs in another exactly where that is the text with something,
/// maybe nothing, before and behind it.
pub proof fn law_parts_occur(before: Seq<char>, part: Seq<char>, behind: Seq<char>)
    ensures
        contains_part(before + part + behind, part),
        begins_with(part + behind, part),
        finishes_with(before + part, part),
{
    let s = before + part + behind;
    assert(s.subrange(before.len() as int, (before.len() + part.len()) as int) =~= part);
    assert(stands_at(s, part, before.len() as int));
    assert((part + behind).take(part.len() as int) =~= part);
    assert((before + part).skip(before.len() as int) =~= part);
}

/// A text that does not occur in another cannot be put together with anything to
/// make it, and one that is not its beginning or its end neither.
pub proof fn law_parts_do_not_occur(
    s: Seq<char>,
    before: Seq<char>,
    part: Seq<char>,
    behind: Seq<char>,
)
    ensures
        !contains_part(s, part) ==> s != before + part + behind,
        !begins_with(s, part) ==> s != part + behind,
        !finishes_with(s, part) ==> s != before + part,
        contains_part(s, part) ==> exists|a: Seq<char>, b: Seq<char>| s == #[trigger] (a + part + b),
{
    law_parts_occur(before, part, behind);
    if contains_part(s, part) {
        let at = choose|at: int| stands_at(s, part, at);
        let a = s.take(at);
        let b = s.skip(at + part.len());
        assert(s =~= a + part + b);
    }
}

/// A text is split at its first separator, and what follows is split in the same
/// way; a text without one is its only part.
pub proof fn law_splitting_begins_at_the_first(a: Seq<char>, c: char, b: Seq<char>)
    requires
        !a.contains(c),
    ensures
        split_of(a, c) == seq![a],
        split_of(a + seq![c] + b, c) == seq![a] + split_of(b, c),
{
    let s = a + seq![c] + b;
    let n = a.len() as int;
    assert forall|k: int| 0 <= k < n implies a[k] != c by {
        assert(a.contains(a[k]));
    }
    lemma_next_char_is(a, c, 0, n);
    assert forall|k: int| 0 <= k < n implies s[k] != c by {
        assert(s[k] == a[k]);
    }
    assert(s[n] == c);
    lemma_next_char_is(s, c, 0, n);
    assert(s.take(n) =~= a);
    assert(s.skip(n + 1) =~= b);
}

/// A text that neither begins nor ends with space is left as it is, and space
/// around it goes.
pub proof fn law_space_around_goes(before: Seq<char>, s: Seq<char>, behind: Seq<char>)
    requires
        s.len() > 0,
        !is_space(s[0]),
        !is_space(s.last()),
        forall|k: int| 0 <= k < before.len() ==> is_space(#[trigger] before[k]),
        forall|k: int| 0 <= k < behind.len() ==> is_space(#[trigger] behind[k]),
    ensures
        trim_of(before + s + behind) == s,
{
    lemma_front_goes(before, s + behind);
    assert(before + s + behind =~= before + (s + behind));
    lemma_back_goes(s, behind);
}

proof fn lemma_front_goes(before: Seq<char>, s: Seq<char>)
    requires
        s.len() > 0,
        !is_space(s[0]),
        forall|k: int| 0 <= k < before.len() ==> is_space(#[trigger] before[k]),
    ensures
        trim_start_of(before + s) == s,
    decreases before.len(),
{
    if before.len() == 0 {
        assert(before + s =~= s);
    } else {
        assert((before + s)[0] == before[0]);
        assert((before + s).skip(1) =~= before.skip(1) + s);
        lemma_front_goes(before.skip(1), s);
    }
}

proof fn lemma_back_goes(s: Seq<char>, behind: Seq<char>)
    requires
        s.len() > 0,
        !is_space(s.last()),
        forall|k: int| 0 <= k < behind.len() ==> is_space(#[trigger] behind[k]),
    ensures
        trim_end_of(s + behind) == s,
    decreases behind.len(),
{
    if behind.len() == 0 {
        assert(s + behind =~= s);
    } else {
        assert((s + behind).last() == behind.last());
        assert((s + behind).drop_last() =~= s + behind.drop_last());
        lemma_back_goes(s, behind.drop_last());
    }
}

} // verus!
