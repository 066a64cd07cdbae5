//! The capacity rig: what the synthetic upstream reads and answers, what the
//! load generator sends, and what it reports.

use crate::order::{is_stable_order, order_by_key};
use crate::sse::{lossy_text, utf8_lossy};
use crate::text::{
    begins_with, byte_count, byte_len, chars_of, decimal, decimal_text, digit_char, find_char,
    law_decimals_are_read_back, lemma_next_char_is, lines, lines_of, lower_of, next_char, strip_prefix, text2, text3, text5, text_range, to_ascii_lowercase, trim,
    trim_of, views,
};
use vstd::prelude::*;

verus! {

/// Whether `needle` stands in `hay` at a position.
pub open spec fn occurs_at(hay: Seq<u8>, needle: Seq<u8>, at: int) -> bool {
    0 <= at && at + needle.len() <= hay.len() && hay.subrange(at, at + needle.len()) == needle
}

/// Whether `at` is the first position of `needle` in `hay`.
pub open spec fn first_at(hay: Seq<u8>, needle: Seq<u8>, at: int) -> bool {
    occurs_at(hay, needle, at) && forall|k: int| 0 <= k < at ==> !#[trigger] occurs_at(
        hay,
        needle,
        k,
    )
}

fn matches_at(hay: &[u8], needle: &[u8], at: usize) -> (r: bool)
    requires
        at + needle@.len() <= hay@.len(),
    ensures
        r == occurs_at(hay@, needle@, at as int),
{
    let total: usize = hay.len();
    let mut i: usize = 0;
    while i < needle.len()
        invariant
            i <= needle@.len(),
            total == hay@.len(),
            at + needle@.len() <= hay@.len(),
            forall|k: int| 0 <= k < i ==> hay@[at + k] == needle@[k],
        decreases needle@.len() - i,
    {
        if hay[at + i] != needle[i] {
            assert(hay@.subrange(at as int, at + needle@.len())[i as int] != needle@[i as int]);
            return false;
        }
        i = i + 1;
    }
    assert(hay@.subrange(at as int, at + needle@.len()) =~= needle@);
    true
}

/// The first position of `needle` in `hay`.
pub fn find(hay: &[u8], needle: &[u8]) -> (r: Option<usize>)
    requires
        needle@.len() > 0,
    ensures
        match r {
            Some(i) => first_at(hay@, needle@, i as int),
            None => forall|k: int| !#[trigger] occurs_at(hay@, needle@, k),
        },
{
    if needle.len() > hay.len() {
        return None;
    }
    let total: usize = hay.len();
    let last: usize = total - needle.len();
    let mut i: usize = 0;
    while i <= last
        invariant
            total == hay@.len(),
            last + needle@.len() == hay@.len(),
            needle@.len() > 0,
            i <= last + 1,
            forall|k: int| 0 <= k < i ==> !#[trigger] occurs_at(hay@, needle@, k),
        decreases last + 1 - i,
    {
        if matches_at(hay, needle, i) {
            return Some(i);
        }
        i = i + 1;
    }
    None
}

/// The bytes that end the head of a request.
pub open spec fn blank_line() -> Seq<u8> {
    seq![13u8, 10, 13, 10]
}

/// The value of a text of decimal digits.
pub open spec fn digits_number(s: Seq<char>) -> Option<nat>
    decreases s.len(),
{
    if s.len() == 0 {
        Some(0)
    } else if digits_number(s.drop_last()) is Some && '0' <= s.last() <= '9' {
        Some(digits_number(s.drop_last())->0 * 10 + (s.last() as nat - '0' as nat) as nat)
    } else {
        None
    }
}

/// The number that a text is: decimal digits, after an optional plus sign, of a
/// number that fits.
pub open spec fn size_of_text(s: Seq<char>) -> Option<nat> {
    let digits = if s.len() > 0 && s[0] == '+' {
        s.skip(1)
    } else {
        s
    };
    if digits.len() > 0 && digits_number(digits) is Some && digits_number(digits)->0 <= usize::MAX {
        digits_number(digits)
    } else {
        None
    }
}

proof fn lemma_digits_grow(s: Seq<char>, n: int)
    requires
        0 <= n <= s.len(),
        digits_number(s) is Some,
    ensures
        digits_number(s.take(n)) is Some,
        digits_number(s.take(n))->0 <= digits_number(s)->0,
    decreases s.len() - n,
{
    if n < s.len() {
        lemma_digits_grow(s, n + 1);
        assert(s.take(n + 1).drop_last() =~= s.take(n));
    } else {
        assert(s.take(n) =~= s);
    }
}

/// The number that a text is.
pub fn parse_size(s: &str) -> (r: Option<usize>)
    ensures
        match r {
            Some(n) => size_of_text(s@) == Some(n as nat),
            None => size_of_text(s@) is None,
        },
{
    let all = chars_of(s);
    let from: usize = if all.len() > 0 && all[0] == '+' {
        1
    } else {
        0
    };
    let total: usize = all.len();
    if from >= total {
        return None;
    }
    let ghost digits = all@.skip(from as int);
    assert(all@.skip(0) =~= all@);
    let mut v: usize = 0;
    let mut i: usize = from;
    assert(digits.take(0) =~= Seq::<char>::empty());
    while i < total
        invariant
            from <= i <= total,
            total == all@.len(),
            from < total,
            digits == all@.skip(from as int),
            all@ == s@,
            size_of_text(s@) == (if digits.len() > 0 && digits_number(digits) is Some
                && digits_number(digits)->0 <= usize::MAX {
                digits_number(digits)
            } else {
                None
            }),
            digits_number(digits.take(i - from)) == Some(v as nat),
        decreases total - i,
    {
        let c = all[i];
        assert(digits[i - from] == c);
        assert(digits.take(i - from + 1).drop_last() =~= digits.take(i - from));
        if c < '0' || c > '9' {
            proof {
                if digits_number(digits) is Some {
                    lemma_digits_grow(digits, i - from + 1);
                }
            }
            return None;
        }
        let d: usize = c as usize - '0' as usize;
        if v > usize::MAX / 10 || v * 10 > usize::MAX - d {
            proof {
                if digits_number(digits) is Some {
                    lemma_digits_grow(digits, i - from + 1);
                    assert(digits_number(digits.take(i - from + 1)) == Some(
                        (v * 10 + d) as nat,
                    ));
                }
            }
            return None;
        }
        v = v * 10 + d;
        i = i + 1;
    }
    assert(digits.take(i - from) =~= digits);
    Some(v)
}

/// The rest of the first line that begins with a prefix, from the line `from` on.
pub open spec fn line_after(rows: Seq<Seq<char>>, prefix: Seq<char>, from: int) -> Option<Seq<char>>
    decreases rows.len() - from,
{
    if from < 0 || from >= rows.len() {
        None
    } else if begins_with(rows[from], prefix) {
        Some(rows[from].skip(prefix.len() as int))
    } else {
        line_after(rows, prefix, from + 1)
    }
}

/// The length that the head of a request announces for its body; zero where it
/// announces none.
pub open spec fn announced(head: Seq<char>) -> nat {
    match line_after(lines_of(lower_of(head)), "content-length:"@, 0) {
        Some(v) => match size_of_text(trim_of(v)) {
            Some(n) => n,
            None => 0,
        },
        None => 0,
    }
}

/// The length that the head of a request announces for its body.
pub fn content_length(head: &str) -> (r: usize)
    ensures
        r == announced(head@),
{
    let lower = to_ascii_lowercase(head);
    let rows = lines(lower.as_str());
    let ghost shown = lines_of(lower_of(head@));
    let mut i: usize = 0;
    while i < rows.len()
        invariant
            i <= rows@.len(),
            views(rows@) == shown,
            shown == lines_of(lower_of(head@)),
            line_after(shown, "content-length:"@, 0) == line_after(
                shown,
                "content-length:"@,
                i as int,
            ),
        decreases rows@.len() - i,
    {
        assert(shown[i as int] == rows@[i as int]@);
        if let Some(v) = strip_prefix(rows[i].as_str(), "content-length:") {
            let value = trim(v.as_str());
            return match parse_size(value.as_str()) {
                Some(n) => n,
                None => 0,
            };
        }
        i = i + 1;
    }
    0
}

/// Whether bytes hold a whole request: its head, and as much of a body as the
/// head announces.
pub open spec fn is_whole(bytes: Seq<u8>) -> bool {
    exists|at: int|
        #[trigger] first_at(bytes, blank_line(), at) && bytes.len() >= at + 4 + announced(
            lossy_text(bytes.take(at + 4)),
        )
}

/// Reads a request as its bytes arrive.
#[derive(Debug)]
pub struct RequestReader {
    buf: Vec<u8>,
}

impl View for RequestReader {
    type V = Seq<u8>;

    closed spec fn view(&self) -> Seq<u8> {
        self.buf@
    }
}

impl RequestReader {
    pub fn new() -> (r: Self)
        ensures
            r@.len() == 0,
    {
        RequestReader { buf: Vec::new() }
    }

    /// Takes the next bytes.
    pub fn push(&mut self, chunk: &[u8])
        ensures
            final(self)@ == old(self)@ + chunk@,
    {
        self.buf.extend_from_slice(chunk);
        assert(self.buf@ =~= old(self)@ + chunk@);
    }

    /// Whether the request is there as a whole.
    pub fn is_complete(&self) -> (r: bool)
        ensures
            r == is_whole(self@),
    {
        let blank: [u8; 4] = [13u8, 10, 13, 10];
        assert(blank@ =~= blank_line());
        match find(self.buf.as_slice(), &blank) {
            None => {
                assert forall|at: int| !#[trigger] first_at(self@, blank_line(), at) by {
                    assert(!occurs_at(self@, blank_line(), at));
                }
                false
            },
            Some(at) => {
                let total: usize = self.buf.len();
                assert(at + 4 <= total);
                let end: usize = at + 4;
                let head = vstd::slice::slice_subrange(self.buf.as_slice(), 0, end);
                assert(head@ =~= self@.take(at + 4));
                let text = utf8_lossy(head);
                let body = content_length(text.as_str());
                let there: usize = total - end;
                assert forall|other: int| #[trigger]
                    first_at(self@, blank_line(), other) implies other == at by {
                    assert(occurs_at(self@, blank_line(), other));
                    assert(occurs_at(self@, blank_line(), at as int));
                }
                assert(first_at(self@, blank_line(), at as int));
                there >= body
            },
        }
    }
}

/// The head of the synthetic upstream's answer.
pub fn reply_head() -> (r: &'static str)
    ensures
        r@
            == "HTTP/1.1 200 OK\r\ncontent-type: text/event-stream\r\ncache-control: no-cache\r\nconnection: close\r\n\r\n"@,
{
    "HTTP/1.1 200 OK\r\ncontent-type: text/event-stream\r\ncache-control: no-cache\r\nconnection: close\r\n\r\n"
}

/// The frame that opens an answer.
pub open spec fn role_frame() -> Seq<char> {
    "data: {\"id\":\"syn-1\",\"object\":\"chat.completion.chunk\",\"model\":\"syn\",\"choices\":[{\"index\":0,\"delta\":{\"role\":\"assistant\"},\"finish_reason\":null}]}\n\n"@
}

/// The frame of one token.
pub open spec fn token_frame() -> Seq<char> {
    "data: {\"id\":\"syn-1\",\"object\":\"chat.completion.chunk\",\"model\":\"syn\",\"choices\":[{\"index\":0,\"delta\":{\"content\":\"lorem\"},\"finish_reason\":null}]}\n\n"@
}

/// The frames that end an answer.
pub open spec fn last_frames() -> Seq<char> {
    "data: {\"id\":\"syn-1\",\"object\":\"chat.completion.chunk\",\"model\":\"syn\",\"choices\":[{\"index\":0,\"delta\":{},\"finish_reason\":\"stop\"}]}\n\ndata: [DONE]\n\n"@
}

/// The frames of an answer, in the pieces in which they are sent when there is a
/// pause after each token.
pub open spec fn is_reply(pieces: Seq<Seq<char>>, tokens: nat) -> bool {
    if tokens == 0 {
        pieces == seq![role_frame() + last_frames()]
    } else {
        &&& pieces.len() == tokens + 1
        &&& pieces[0] == role_frame() + token_frame()
        &&& forall|i: int| 0 < i < tokens ==> #[trigger] pieces[i] == token_frame()
        &&& pieces.last() == last_frames()
    }
}

/// The frames of an answer of so many tokens, in pieces.
pub fn reply_frames(tokens: usize) -> (r: Vec<String>)
    ensures
        is_reply(views(r@), tokens as nat),
{
    let role =
        "data: {\"id\":\"syn-1\",\"object\":\"chat.completion.chunk\",\"model\":\"syn\",\"choices\":[{\"index\":0,\"delta\":{\"role\":\"assistant\"},\"finish_reason\":null}]}\n\n";
    let token =
        "data: {\"id\":\"syn-1\",\"object\":\"chat.completion.chunk\",\"model\":\"syn\",\"choices\":[{\"index\":0,\"delta\":{\"content\":\"lorem\"},\"finish_reason\":null}]}\n\n";
    let last =
        "data: {\"id\":\"syn-1\",\"object\":\"chat.completion.chunk\",\"model\":\"syn\",\"choices\":[{\"index\":0,\"delta\":{},\"finish_reason\":\"stop\"}]}\n\ndata: [DONE]\n\n";
    let mut out: Vec<String> = Vec::new();
    if tokens == 0 {
        out.push(text2(role, last));
        assert(views(out@) =~= seq![role_frame() + last_frames()]);
        return out;
    }
    out.push(text2(role, token));
    let mut i: usize = 1;
    while i < tokens
        invariant
            1 <= i <= tokens,
            token@ == token_frame(),
            out@.len() == i,
            out@[0]@ == role_frame() + token_frame(),
            forall|k: int| 0 < k < i ==> (#[trigger] out@[k])@ == token_frame(),
        decreases tokens - i,
    {
        out.push(token.to_owned());
        i = i + 1;
    }
    out.push(last.to_owned());
    let ghost shown = views(out@);
    assert forall|k: int| 0 < k < tokens implies #[trigger] shown[k] == token_frame() by {
        assert(shown[k] == out@[k]@);
    }
    assert(shown[0] == out@[0]@);
    assert(shown.last() == out@[tokens as int]@);
    out
}

/// The host and the path of a URL of the load generator.
pub open spec fn url_split(url: Seq<char>) -> (Seq<char>, Seq<char>) {
    let rest = if begins_with(url, "http://"@) {
        url.skip("http://"@.len() as int)
    } else {
        url
    };
    let at = next_char(rest, '/', 0);
    if at < rest.len() {
        (rest.take(at), rest.skip(at))
    } else {
        (rest, "/"@)
    }
}

/// The host, with its port, and the path of a URL.
pub fn split_url(url: &str) -> (r: (String, String))
    ensures
        (r.0@, r.1@) == url_split(url@),
{
    let rest = match strip_prefix(url, "http://") {
        Some(s) => s,
        None => url.to_owned(),
    };
    let chars = chars_of(rest.as_str());
    let at = find_char(&chars, '/', 0);
    let total: usize = chars.len();
    if at < total {
        assert(chars@.subrange(0, at as int) =~= rest@.take(at as int));
        assert(chars@.subrange(at as int, total as int) =~= rest@.skip(at as int));
        (text_range(&chars, 0, at), text_range(&chars, at, total))
    } else {
        (rest, "/".to_owned())
    }
}

/// The body of a request of the load generator.
pub open spec fn load_body(tokens: nat) -> Seq<char> {
    "{\"model\":\"syn\",\"stream\":true,\"max_tokens\":"@ + decimal(tokens)
        + ",\"messages\":[{\"role\":\"user\",\"content\":\"hi\"}]}"@
}

/// A request of the load generator.
pub open spec fn load_request(host: Seq<char>, path: Seq<char>, body: Seq<char>) -> Seq<char> {
    ("POST "@ + path + " HTTP/1.1\r\nHost: "@ + host
        + "\r\ncontent-type: application/json\r\naccept: text/event-stream\r\nconnection: close\r\ncontent-length: "@)
        + decimal(byte_len(body)) + "\r\n\r\n"@ + body
}

/// A request of the load generator: it asks for a stream of so many tokens.
pub fn request_text(host: &str, path: &str, tokens: u64) -> (r: String)
    ensures
        r@ == load_request(host@, path@, load_body(tokens as nat)),
{
    let count = decimal_text(tokens);
    let body = text3(
        "{\"model\":\"syn\",\"stream\":true,\"max_tokens\":",
        count.as_str(),
        ",\"messages\":[{\"role\":\"user\",\"content\":\"hi\"}]}",
    );
    let size = decimal_text(byte_count(body.as_str()) as u64);
    let head = text5(
        "POST ",
        path,
        " HTTP/1.1\r\nHost: ",
        host,
        "\r\ncontent-type: application/json\r\naccept: text/event-stream\r\nconnection: close\r\ncontent-length: ",
    );
    let head = text3(head.as_str(), size.as_str(), "\r\n\r\n");
    text2(head.as_str(), body.as_str())
}

/// What one worker of the load generator measured, in microseconds.
#[derive(Debug)]
pub struct Stats {
    pub ttft_us: Vec<u64>,
    pub total_us: Vec<u64>,
    pub errors: usize,
}

/// The times of all workers, one worker after the other.
pub open spec fn all_times(parts: Seq<Seq<u64>>) -> Seq<u64>
    decreases parts.len(),
{
    if parts.len() == 0 {
        Seq::empty()
    } else {
        all_times(parts.drop_last()) + parts.last()
    }
}

/// The failed requests of all workers.
pub open spec fn all_errors(parts: Seq<Stats>) -> nat
    decreases parts.len(),
{
    if parts.len() == 0 {
        0
    } else {
        all_errors(parts.drop_last()) + parts.last().errors as nat
    }
}

/// The times to the first byte, worker by worker.
pub open spec fn first_times(parts: Seq<Stats>) -> Seq<Seq<u64>> {
    parts.map_values(|s: Stats| s.ttft_us@)
}

/// The times to the end, worker by worker.
pub open spec fn total_times(parts: Seq<Stats>) -> Seq<Seq<u64>> {
    parts.map_values(|s: Stats| s.total_us@)
}

/// The measurements of all workers together.
pub fn merge_stats(parts: Vec<Stats>) -> (r: Stats)
    requires
        all_errors(parts@) <= usize::MAX,
    ensures
        r.ttft_us@ == all_times(first_times(parts@)),
        r.total_us@ == all_times(total_times(parts@)),
        r.errors == all_errors(parts@),
{
    let mut ttft_us: Vec<u64> = Vec::new();
    let mut total_us: Vec<u64> = Vec::new();
    let mut errors: usize = 0;
    let mut i: usize = 0;
    assert(first_times(parts@.take(0)) =~= Seq::<Seq<u64>>::empty());
    assert(total_times(parts@.take(0)) =~= Seq::<Seq<u64>>::empty());
    while i < parts.len()
        invariant
            i <= parts@.len(),
            all_errors(parts@) <= usize::MAX,
            ttft_us@ == all_times(first_times(parts@.take(i as int))),
            total_us@ == all_times(total_times(parts@.take(i as int))),
            errors == all_errors(parts@.take(i as int)),
        decreases parts@.len() - i,
    {
        let ghost next = parts@.take(i + 1);
        assert(next.drop_last() =~= parts@.take(i as int));
        assert(first_times(next).drop_last() =~= first_times(parts@.take(i as int)));
        assert(total_times(next).drop_last() =~= total_times(parts@.take(i as int)));
        proof {
            lemma_errors_grow(parts@, i + 1);
        }
        ttft_us.extend_from_slice(parts[i].ttft_us.as_slice());
        total_us.extend_from_slice(parts[i].total_us.as_slice());
        errors = errors + parts[i].errors;
        i = i + 1;
        assert(ttft_us@ =~= all_times(first_times(next)));
        assert(total_us@ =~= all_times(total_times(next)));
    }
    assert(parts@.take(i as int) =~= parts@);
    Stats { ttft_us, total_us, errors }
}

proof fn lemma_errors_grow(parts: Seq<Stats>, n: int)
    requires
        0 <= n <= parts.len(),
    ensures
        all_errors(parts.take(n)) <= all_errors(parts),
    decreases parts.len() - n,
{
    if n < parts.len() {
        lemma_errors_grow(parts, n + 1);
        assert(parts.take(n + 1).drop_last() =~= parts.take(n));
    } else {
        assert(parts.take(n) =~= parts);
    }
}

/// Times as sort keys.
pub open spec fn time_keys(times: Seq<u64>) -> Seq<i128> {
    times.map_values(|t: u64| t as i128)
}

/// Whether `v` is a percentile of some times: it stands that far through them in
/// ascending order, or is the last one.
pub open spec fn is_percentile(times: Seq<u64>, percent: int, v: u64) -> bool {
    let at = times.len() as int * percent / 100;
    let last = times.len() as int - 1;
    exists|order: Seq<usize>| #[trigger]
        is_stable_order(time_keys(times), order) && v == times[order[if at < last {
            at
        } else {
            last
        }] as int]
}

/// A percentile of some times; zero where there are none.
pub fn percentile(times: &Vec<u64>, percent: usize) -> (r: u64)
    requires
        percent <= 100,
        times@.len() * 100 <= usize::MAX,
    ensures
        times@.len() == 0 ==> r == 0,
        times@.len() > 0 ==> is_percentile(times@, percent as int, r),
{
    let n: usize = times.len();
    if n == 0 {
        return 0;
    }
    let mut keys: Vec<i128> = Vec::new();
    let mut i: usize = 0;
    while i < n
        invariant
            i <= n == times@.len(),
            keys@.len() == i,
            forall|k: int| 0 <= k < i ==> (#[trigger] keys@[k]) == times@[k],
        decreases n - i,
    {
        keys.push(times[i] as i128);
        i = i + 1;
    }
    assert(keys@ =~= time_keys(times@));
    let order = order_by_key(&keys);
    assert(n * percent <= n * 100) by (nonlinear_arith)
        requires
            percent <= 100,
    ;
    let at: usize = n * percent / 100;
    let pos: usize = if at < n - 1 {
        at
    } else {
        n - 1
    };
    let place: usize = order[pos];
    assert(place < times@.len());
    assert(0 <= n * percent / 100) by (nonlinear_arith);
    times[place]
}

/// A number written in decimal digits is that number, with a plus sign or without;
/// a text with anything else in it, or with nothing, is no number.
pub proof fn law_sizes_are_read(n: nat, s: Seq<char>, i: int)
    ensures
        n <= usize::MAX ==> size_of_text(decimal(n)) == Some(n),
        n <= usize::MAX ==> size_of_text(seq!['+'] + decimal(n)) == Some(n),
        n > usize::MAX ==> size_of_text(decimal(n)) is None,
        s.len() == 0 ==> size_of_text(s) is None,
        0 < i < s.len() && !('0' <= s[i] <= '9') ==> size_of_text(s) is None,
        s.len() > 0 && s[0] != '+' && !('0' <= s[0] <= '9') ==> size_of_text(s) is None,
{
    lemma_digits_of_decimal(n);
    law_decimals_are_read_back(n);
    assert('0' <= decimal(n)[0] <= '9');
    assert((seq!['+'] + decimal(n)).skip(1) =~= decimal(n));
    if 0 < i < s.len() && !('0' <= s[i] <= '9') {
        lemma_no_digit(s, i);
        assert(s.skip(1)[i - 1] == s[i]);
        lemma_no_digit(s.skip(1), i - 1);
    }
    if s.len() > 0 && s[0] != '+' && !('0' <= s[0] <= '9') {
        lemma_no_digit(s, 0);
    }
}

proof fn lemma_no_digit(s: Seq<char>, i: int)
    requires
        0 <= i < s.len(),
        !('0' <= s[i] <= '9'),
    ensures
        digits_number(s) is None,
    decreases s.len(),
{
    if i < s.len() - 1 {
        assert(s.drop_last()[i] == s[i]);
        lemma_no_digit(s.drop_last(), i);
    }
}

proof fn lemma_digits_of_decimal(n: nat)
    ensures
        digits_number(decimal(n)) == Some(n),
    decreases n,
{
    let d = decimal(n);
    if n < 10 {
        assert(d.drop_last() =~= Seq::<char>::empty());
        assert(digits_number(d.drop_last()) == Some(0nat));
        assert(d.last() == digit_char(n));
    } else {
        lemma_digits_of_decimal(n / 10);
        assert(d.drop_last() =~= decimal(n / 10));
        assert(d.last() == digit_char(n % 10));
    }
}

/// An address is split before its first slash: the host up to there, the path from
/// there on, with the scheme left off and a bare slash where there is no path.
pub proof fn law_urls_are_split_at_the_path(host: Seq<char>, path: Seq<char>)
    requires
        !host.contains('/'),
        !begins_with(host, "http://"@),
        path.len() > 0 ==> path[0] == '/',
    ensures
        path.len() > 0 ==> url_split("http://"@ + host + path) == (host, path),
        url_split("http://"@ + host) == (host, "/"@),
        url_split(host) == (host, "/"@),
{
    let p = "http://"@;
    let n = host.len() as int;
    assert forall|k: int| 0 <= k < n implies host[k] != '/' by {
        assert(host.contains(host[k]));
    }
    lemma_next_char_is(host, '/', 0, n);
    let a = p + host;
    assert(a.take(p.len() as int) =~= p);
    assert(a.skip(p.len() as int) =~= host);
    if path.len() > 0 {
        let b = p + host + path;
        let rest = host + path;
        assert(b.take(p.len() as int) =~= p);
        assert(b.skip(p.len() as int) =~= rest);
        assert forall|k: int| 0 <= k < n implies rest[k] != '/' by {
            assert(rest[k] == host[k]);
        }
        assert(rest[n] == path[0]);
        lemma_next_char_is(rest, '/', 0, n);
        assert(rest.take(n) =~= host);
        assert(rest.skip(n) =~= path);
    }
}

/// Merged times are all of the times, in order, and merged errors all of the
/// errors.
pub proof fn law_merging_loses_nothing(a: Seq<Seq<u64>>, b: Seq<Seq<u64>>, x: Seq<u64>)
    ensures
        all_times(a + b) == all_times(a) + all_times(b),
        all_times(seq![x]) == x,
        all_times(Seq::empty()).len() == 0,
    decreases b.len(),
{
    assert(seq![x].drop_last() =~= Seq::<Seq<u64>>::empty());
    assert(all_times(seq![x].drop_last()) =~= Seq::<u64>::empty());
    assert(Seq::<u64>::empty() + x =~= x);
    if b.len() == 0 {
        assert(a + b =~= a);
        assert(all_times(a) + all_times(b) =~= all_times(a));
    } else {
        law_merging_loses_nothing(a, b.drop_last(), x);
        assert((a + b).drop_last() =~= a + b.drop_last());
        assert((a + b).last() == b.last());
        assert(all_times(a + b) =~= all_times(a) + all_times(b));
    }
}

/// Errors of several workers add up.
pub proof fn law_errors_add_up(a: Seq<Stats>, b: Seq<Stats>, x: Stats)
    ensures
        all_errors(a + b) == all_errors(a) + all_errors(b),
        all_errors(seq![x]) == x.errors,
    decreases b.len(),
{
    assert(seq![x].drop_last() =~= Seq::<Stats>::empty());
    assert(all_errors(seq![x].drop_last()) == 0);
    if b.len() == 0 {
        assert(a + b =~= a);
    } else {
        law_errors_add_up(a, b.drop_last(), x);
        assert((a + b).drop_last() =~= a + b.drop_last());
        assert((a + b).last() == b.last());
    }
}

/// Of the times in order, as many in a hundred as the percentile says stand before
/// it and are no greater; the others are no smaller.
pub proof fn law_percentiles_split_the_times(times: Seq<u64>, percent: int, v: u64)
    requires
        times.len() > 0,
        0 <= percent <= 100,
        is_percentile(times, percent, v),
    ensures
        times.contains(v),
        exists|order: Seq<usize>| #[trigger] splits_at(times, order, percent, v),
{
    let keys = time_keys(times);
    let n = times.len() as int;
    let at = n * percent / 100;
    let place = if at < n - 1 {
        at
    } else {
        n - 1
    };
    assert(0 <= at) by (nonlinear_arith)
        requires
            n > 0,
            percent >= 0,
            at == n * percent / 100,
    ;
    let order = choose|order: Seq<usize>| #[trigger]
        is_stable_order(keys, order) && v == times[order[place] as int];
    assert(times[order[place] as int] == v);
    assert(splits_at(times, order, percent, v)) by {
        assert forall|k: int| 0 <= k < place implies times[#[trigger] order[k] as int] <= v by {
            assert(keys[order[k] as int] <= keys[order[place] as int]);
        }
        assert forall|k: int| place <= k < n implies times[#[trigger] order[k] as int] >= v by {
            assert(keys[order[place] as int] <= keys[order[k] as int]);
        }
    }
}

/// Whether, of the times in an order, those before a percentile are at most `v`
/// and the others at least.
pub open spec fn splits_at(times: Seq<u64>, order: Seq<usize>, percent: int, v: u64) -> bool {
    &&& is_stable_order(time_keys(times), order)
    &&& forall|k: int|
        0 <= k < times.len() - 1 && k < times.len() * percent / 100
            ==> times[#[trigger] order[k] as int] <= v
    &&& forall|k: int|
        times.len() * percent / 100 <= k < times.len() ==> times[#[trigger] order[k] as int] >= v
}

/// The announced length is that of the line of that name, in any case and with
/// space around the number; without one nothing is announced.
pub proof fn law_announced_lengths_are_read(line: Seq<char>, rest: Seq<char>, n: nat)
    requires
        n <= usize::MAX,
        lines_of(lower_of(line)) == seq!["content-length:"@ + rest],
        trim_of(rest) == decimal(n),
    ensures
        announced(line) == n,
{
    let rows = lines_of(lower_of(line));
    law_sizes_are_read(n, Seq::empty(), 0);
    assert(rows[0].take("content-length:"@.len() as int) =~= "content-length:"@);
    assert(rows[0].skip("content-length:"@.len() as int) =~= rest);
    assert(line_after(rows, "content-length:"@, 0) == Some(rest));
}

proof fn lemma_line_after(rows: Seq<Seq<char>>, prefix: Seq<char>, from: int, at: int)
    requires
        0 <= from <= at <= rows.len(),
        forall|k: int| from <= k < at ==> !begins_with(#[trigger] rows[k], prefix),
        at < rows.len() ==> begins_with(rows[at], prefix),
    ensures
        line_after(rows, prefix, from) == (if at < rows.len() {
            Some(rows[at].skip(prefix.len() as int))
        } else {
            None
        }),
    decreases at - from,
{
    if from < at {
        lemma_line_after(rows, prefix, from + 1, at);
    }
}

/// Of several lines with a name the first counts, and where no line has it there
/// is none.
pub proof fn law_first_line_of_a_name_counts(rows: Seq<Seq<char>>, prefix: Seq<char>, at: int)
    ensures
        0 <= at < rows.len() && begins_with(rows[at], prefix) && (forall|k: int|
            0 <= k < at ==> !begins_with(#[trigger] rows[k], prefix)) ==> line_after(rows, prefix, 0)
            == Some(rows[at].skip(prefix.len() as int)),
        (forall|k: int| 0 <= k < rows.len() ==> !begins_with(#[trigger] rows[k], prefix))
            ==> line_after(rows, prefix, 0) is None,
{
    if 0 <= at < rows.len() && begins_with(rows[at], prefix) && (forall|k: int|
        0 <= k < at ==> !begins_with(#[trigger] rows[k], prefix)) {
        lemma_line_after(rows, prefix, 0, at);
    }
    if forall|k: int| 0 <= k < rows.len() ==> !begins_with(#[trigger] rows[k], prefix) {
        lemma_line_after(rows, prefix, 0, rows.len() as int);
    }
}

/// A request is whole once its head has ended and as much has come behind it as it
/// announced; what has come cannot make it less whole.
pub proof fn law_requests_are_whole_once_all_has_come(
    head: Seq<u8>,
    body: Seq<u8>,
    more: Seq<u8>,
    at: int,
)
    requires
        first_at(head, blank_line(), at),
        head.len() == at + 4,
    ensures
        is_whole(head + body) <==> body.len() >= announced(lossy_text(head)),
        is_whole(head + body) ==> is_whole(head + body + more),
{
    let s = head + body;
    let t = head + body + more;
    lemma_first_stays(head, body, blank_line(), at);
    lemma_first_stays(head, body + more, blank_line(), at);
    assert(t =~= head + (body + more));
    assert(s.take(at + 4) =~= head);
    assert(t.take(at + 4) =~= head);
    if is_whole(s) {
        let k = choose|k: int|
            #[trigger] first_at(s, blank_line(), k) && s.len() >= k + 4 + announced(
                lossy_text(s.take(k + 4)),
            );
        if k < at {
            assert(!occurs_at(s, blank_line(), k));
        } else if at < k {
            assert(!occurs_at(s, blank_line(), at));
        }
    }
}

proof fn lemma_first_stays(head: Seq<u8>, rest: Seq<u8>, needle: Seq<u8>, at: int)
    requires
        first_at(head, needle, at),
    ensures
        first_at(head + rest, needle, at),
{
    let s = head + rest;
    assert(s.subrange(at, at + needle.len()) =~= head.subrange(at, at + needle.len()));
    assert forall|k: int| 0 <= k < at implies !#[trigger] occurs_at(s, needle, k) by {
        if occurs_at(s, needle, k) {
            assert(s.subrange(k, k + needle.len()) =~= head.subrange(k, k + needle.len()));
            assert(occurs_at(head, needle, k));
        }
    }
}

/// A text of bytes occurs where it stands between others, and where it occurs they
/// are the text with something around it.
pub proof fn law_needles_occur_where_they_stand(
    before: Seq<u8>,
    needle: Seq<u8>,
    behind: Seq<u8>,
    hay: Seq<u8>,
    at: int,
)
    ensures
        occurs_at(before + needle + behind, needle, before.len() as int),
        occurs_at(hay, needle, at) ==> hay == hay.take(at) + needle + hay.skip(at + needle.len()),
        occurs_at(hay, needle, at) ==> 0 <= at && at + needle.len() <= hay.len(),
        needle.len() > hay.len() ==> !occurs_at(hay, needle, at),
        blank_line() == seq![13u8, 10u8] + seq![13u8, 10u8],
{
    let s = before + needle + behind;
    assert(s.subrange(before.len() as int, (before.len() + needle.len()) as int) =~= needle);
    if occurs_at(hay, needle, at) {
        assert(hay =~= hay.take(at) + hay.subrange(at, at + needle.len()) + hay.skip(
            at + needle.len(),
        ));
    }
    assert(blank_line() =~= seq![13u8, 10u8] + seq![13u8, 10u8]);
}

/// A reply opens with the role, closes with the reason, and has one token frame for
/// each token in between.
pub proof fn law_replies_have_a_frame_per_token(pieces: Seq<Seq<char>>, tokens: nat, i: int)
    requires
        is_reply(pieces, tokens),
    ensures
        begins_with(pieces[0], role_frame()),
        tokens == 0 ==> pieces.len() == 1 && pieces[0] == role_frame() + last_frames(),
        tokens > 0 ==> pieces.len() == tokens + 1 && pieces[0] == role_frame() + token_frame()
            && pieces.last() == last_frames(),
        0 < i < tokens ==> pieces[i] == token_frame(),
{
    assert((role_frame() + last_frames()).take(role_frame().len() as int) =~= role_frame());
    assert((role_frame() + token_frame()).take(role_frame().len() as int) =~= role_frame());
}

} // verus!
