//! A streaming SSE frame splitter that tolerates arbitrary transport chunk
//! boundaries.
//!
//! Providers separate frames with either `\n\n` or `\r\n\r\n`; one transport
//! read may deliver half a frame, several frames, or split a multi-byte UTF-8
//! sequence. `SseFramer` accumulates raw bytes, normalizes CRLF to LF, and
//! yields complete frames only.

use crate::text::{begins_with, lines, lines_of, strip_prefix, views};
use vstd::prelude::*;
use vstd::utf8::{
    char_is_scalar, decode_utf8, encode_scalar, encode_utf8, encode_utf8_decode_utf8,
    encode_utf8_valid_utf8, last_continuation_byte, leading_byte_width_1, leading_byte_width_2,
    leading_byte_width_3, leading_byte_width_4, second_last_continuation_byte,
    third_last_continuation_byte, valid_utf8,
};

verus! {

/// Carriage return.
pub const CR: u8 = 13;

/// Line feed.
pub const LF: u8 = 10;

/// The text that a byte string stands for when each malformed UTF-8 sequence
/// is replaced by the replacement character.
pub uninterp spec fn lossy_text(bytes: Seq<u8>) -> Seq<char>;

/// Whether some bytes, cut at these places, are the pieces that the characters
/// of a text stand for, in order: each for its own encoding, or, where it is the
/// replacement character, for any piece.
pub open spec fn cut_to(text: Seq<char>, bytes: Seq<u8>, cuts: Seq<int>) -> bool {
    &&& cuts.len() == text.len() + 1
    &&& cuts[0] == 0
    &&& cuts.last() == bytes.len()
    &&& forall|i: int|
        0 <= i < text.len() ==> 0 <= cuts[i] < cuts[i + 1] <= bytes.len() && ((
        #[trigger] text[i]) == '\u{FFFD}' || bytes.subrange(cuts[i], cuts[i + 1])
            == encode_scalar(text[i] as u32))
}

/// Whether the characters of a text stand, in order, for some bytes.
pub open spec fn stands_for(text: Seq<char>, bytes: Seq<u8>) -> bool {
    exists|cuts: Seq<int>| cut_to(text, bytes, cuts)
}

/// `String::from_utf8_lossy`, as an owned string. Well-formed UTF-8 decodes to
/// its characters, and a malformed sequence becomes a replacement character;
/// how malformed bytes are grouped is left to the name.
#[verifier::external_body]
pub(crate) fn utf8_lossy(bytes: &[u8]) -> (r: String)
    ensures
        r@ == lossy_text(bytes@),
        valid_utf8(bytes@) ==> r@ == decode_utf8(bytes@),
        stands_for(r@, bytes@),
{
    String::from_utf8_lossy(bytes).into_owned()
}

/// A byte string with every CR LF pair replaced by LF. A CR without a
/// following LF stays, the last byte included.
pub open spec fn normalized(s: Seq<u8>) -> Seq<u8>
    decreases s.len(),
{
    if s.len() == 0 {
        s
    } else if s.len() >= 2 && s[0] == CR && s[1] == LF {
        seq![LF] + normalized(s.skip(2))
    } else {
        seq![s[0]] + normalized(s.skip(1))
    }
}

/// What is held of a stream, with more bytes. What is held is normalized and
/// stays as it is, but for a CR at its end, which may be the first half of a
/// pair.
pub open spec fn extended(held: Seq<u8>, bytes: Seq<u8>) -> Seq<u8> {
    if held.len() > 0 && held.last() == CR {
        held.drop_last() + normalized(seq![CR] + bytes)
    } else {
        held + normalized(bytes)
    }
}

/// Whether a CR LF pair starts at `i`.
pub open spec fn crlf_at(s: Seq<u8>, i: int) -> bool {
    0 <= i && i + 1 < s.len() && s[i] == CR && s[i + 1] == LF
}

/// Whether a byte string holds a CR LF pair.
pub open spec fn has_crlf(s: Seq<u8>) -> bool {
    exists|i: int| crlf_at(s, i)
}

/// Whether two LFs start at `i`.
pub open spec fn blank_at(s: Seq<u8>, i: int) -> bool {
    0 <= i && i + 1 < s.len() && s[i] == LF && s[i + 1] == LF
}

/// The position of the first blank line at or after `from`, if any.
pub open spec fn first_blank(s: Seq<u8>, from: int) -> Option<int>
    decreases s.len() - from,
{
    if from < 0 || from + 1 >= s.len() {
        None
    } else if blank_at(s, from) {
        Some(from)
    } else {
        first_blank(s, from + 1)
    }
}

/// A byte string without the CRs and LFs at its end.
pub open spec fn without_eol(s: Seq<u8>) -> Seq<u8>
    decreases s.len(),
{
    if s.len() > 0 && (s.last() == LF || s.last() == CR) {
        without_eol(s.drop_last())
    } else {
        s
    }
}

/// The frames that a normalized buffer completes, as bytes, in order. A frame
/// that is empty but for line ends is left out.
pub open spec fn frames_in(s: Seq<u8>) -> Seq<Seq<u8>>
    decreases s.len(),
    via frames_in_decreases
{
    match first_blank(s, 0) {
        None => Seq::empty(),
        Some(i) => {
            let body = without_eol(s.take(i + 2));
            let later = frames_in(s.skip(i + 2));
            if body.len() == 0 {
                later
            } else {
                seq![body] + later
            }
        },
    }
}

#[via_fn]
proof fn frames_in_decreases(s: Seq<u8>) {
    lemma_first_blank(s, 0);
}

/// How many bytes of a normalized buffer its complete frames take up.
pub open spec fn framed_len(s: Seq<u8>) -> int
    decreases s.len(),
    via framed_len_decreases
{
    match first_blank(s, 0) {
        None => 0,
        Some(i) => i + 2 + framed_len(s.skip(i + 2)),
    }
}

#[via_fn]
proof fn framed_len_decreases(s: Seq<u8>) {
    lemma_first_blank(s, 0);
}

/// What is left of a normalized buffer behind its complete frames.
pub open spec fn unframed(s: Seq<u8>) -> Seq<u8> {
    s.skip(framed_len(s))
}

/// Each byte string decoded.
pub open spec fn texts_of(frames: Seq<Seq<u8>>) -> Seq<Seq<char>> {
    frames.map_values(|f: Seq<u8>| lossy_text(f))
}

proof fn lemma_first_blank(s: Seq<u8>, from: int)
    requires
        0 <= from,
    ensures
        first_blank(s, from) matches Some(i) ==> from <= i && blank_at(s, i) && (forall|k: int|
            from <= k < i ==> !blank_at(s, k)),
        first_blank(s, from) is None ==> forall|k: int| from <= k ==> !blank_at(s, k),
    decreases s.len() - from,
{
    if from + 1 >= s.len() {
    } else if blank_at(s, from) {
    } else {
        lemma_first_blank(s, from + 1);
    }
}

/// Splits an inbound SSE byte stream into complete frames.
#[derive(Debug)]
pub struct SseFramer {
    buffer: Vec<u8>,
}

impl View for SseFramer {
    type V = Seq<u8>;

    closed spec fn view(&self) -> Seq<u8> {
        self.buffer@
    }
}

impl SseFramer {
    /// A framer with nothing buffered.
    pub fn new() -> (r: Self)
        ensures
            r@ == Seq::<u8>::empty(),
    {
        SseFramer { buffer: Vec::new() }
    }

    /// Feed one transport chunk (any byte boundary) and return every frame it
    /// completed, in order, without its trailing blank line. Each is one whole
    /// frame, whatever its bytes, and verbatim where they are UTF-8.
    pub fn push(&mut self, bytes: &[u8]) -> (r: Vec<String>)
        ensures
            views(r@) == texts_of(frames_in(extended(old(self)@, bytes@))),
            final(self)@ == unframed(extended(old(self)@, bytes@)),
            forall|k: int| 0 <= k < r@.len() ==> is_whole((#[trigger] r@[k])@),
            forall|k: int|
                0 <= k < r@.len() && valid_utf8(frames_in(extended(old(self)@, bytes@))[k])
                    ==> (#[trigger] r@[k])@ == decode_utf8(
                    frames_in(extended(old(self)@, bytes@))[k],
                ),
    {
        let mut rest: Vec<u8> = Vec::new();
        std::mem::swap(&mut rest, &mut self.buffer);
        let held: usize = rest.len();
        let mut fresh = if held > 0 && rest[held - 1] == CR {
            let _ = rest.pop();
            let mut chunk: Vec<u8> = Vec::new();
            chunk.push(CR);
            let mut j: usize = 0;
            while j < bytes.len()
                invariant
                    j <= bytes@.len(),
                    chunk@ == seq![CR] + bytes@.take(j as int),
                decreases bytes@.len() - j,
            {
                chunk.push(bytes[j]);
                j = j + 1;
                assert(bytes@.take(j as int) == bytes@.take(j - 1).push(bytes@[j - 1]));
            }
            assert(bytes@.take(bytes@.len() as int) == bytes@);
            normalize_crlf(chunk.as_slice())
        } else {
            normalize_crlf(bytes)
        };
        rest.append(&mut fresh);
        assert(rest@ == extended(old(self)@, bytes@));
        let ghost whole = rest@;
        let ghost mut found: Seq<Seq<u8>> = Seq::empty();
        let mut frames: Vec<String> = Vec::new();
        let mut done: bool = false;
        assert(found + frames_in(rest@) == frames_in(whole));
        assert(texts_of(found) == views(frames@));
        while !done
            invariant
                frames_in(whole) == found + frames_in(rest@),
                texts_of(found) == views(frames@),
                forall|k: int|
                    0 <= k < frames@.len() ==> is_faithful((#[trigger] frames@[k])@, found[k]),
                unframed(whole) == unframed(rest@),
                done ==> first_blank(rest@, 0) is None,
            decreases rest@.len(), !done as int,
        {
            match find_double_lf(rest.as_slice()) {
                None => {
                    done = true;
                },
                Some(at) => {
                    let ghost before = rest@;
                    proof {
                        lemma_first_blank(rest@, 0);
                    }
                    let have: usize = rest.len();
                    assert(at + 2 <= have);
                    let later = rest.split_off(at + 2);
                    let end = content_end(rest.as_slice());
                    let ghost body = without_eol(before.take(at + 2));
                    proof {
                        assert(rest@ == before.take(at + 2));
                        assert(later@ == before.skip(at + 2));
                        lemma_unframed_step(before);
                    }
                    if end > 0 {
                        rest.truncate(end);
                        let text = utf8_lossy(rest.as_slice());
                        let ghost shown = views(frames@);
                        let ghost sooner = found;
                        frames.push(text);
                        proof {
                            assert(rest@ == body);
                            found = sooner.push(body);
                            assert(views(frames@) == shown.push(lossy_text(body)));
                            assert(texts_of(found) == texts_of(sooner).push(lossy_text(body)));
                            assert(sooner + (seq![body] + frames_in(later@)) == found + frames_in(
                                later@,
                            ));
                        }
                    }
                    rest = later;
                },
            }
        }
        proof {
            assert(frames_in(rest@) == Seq::<Seq<u8>>::empty());
            assert(found + frames_in(rest@) == found);
            assert(unframed(rest@) == rest@);
            assert(texts_of(found).len() == found.len());
            assert forall|k: int| 0 <= k < frames@.len() implies is_whole(
                (#[trigger] frames@[k])@,
            ) by {
                assert(is_faithful(frames@[k]@, found[k]));
                law_frames_are_whole(whole, k);
                lemma_whole_text(frames@[k]@, found[k]);
            }
        }
        self.buffer = rest;
        frames
    }

    /// Whether a partial frame is buffered awaiting more bytes.
    pub fn pending(&self) -> (r: bool)
        ensures
            r == (self@.len() > 0),
    {
        self.buffer.len() > 0
    }

    /// Take whatever is buffered (used at end-of-stream).
    pub fn flush(&mut self) -> (r: Option<String>)
        ensures
            final(self)@ == Seq::<u8>::empty(),
            r is Some == (without_eol(old(self)@).len() > 0),
            r matches Some(text) ==> text@ == lossy_text(without_eol(old(self)@)),
            valid_utf8(without_eol(old(self)@)) ==> (r matches Some(text) ==> text@
                == decode_utf8(without_eol(old(self)@))),
    {
        let end = content_end(self.buffer.as_slice());
        let mut kept: Vec<u8> = Vec::new();
        std::mem::swap(&mut kept, &mut self.buffer);
        kept.truncate(end);
        let rest = utf8_lossy(kept.as_slice());
        proof {
            let cuts = choose|cuts: Seq<int>| cut_to(rest@, kept@, cuts);
            assert(cut_to(rest@, kept@, cuts));
            if rest@.len() > 0 {
                assert(rest@[0] == '\u{FFFD}' || kept@.subrange(cuts[0], cuts[1]) == encode_scalar(
                    rest@[0] as u32,
                ));
            }
        }
        if rest.as_str().is_empty() {
            None
        } else {
            Some(rest)
        }
    }
}

/// Whether a text is one whole frame: not empty, without a line end at its end,
/// and without a blank line.
pub open spec fn is_whole(text: Seq<char>) -> bool {
    &&& text.len() > 0
    &&& text.last() != '\n'
    &&& text.last() != '\r'
    &&& forall|i: int|
        0 <= i && i + 1 < text.len() ==> !((#[trigger] text[i]) == '\n' && text[i + 1] == '\n')
}

/// Whether a text is what some bytes decode to.
spec fn is_faithful(text: Seq<char>, bytes: Seq<u8>) -> bool {
    stands_for(text, bytes) && (valid_utf8(bytes) ==> text == decode_utf8(bytes))
}

/// A line end is encoded as itself, and no other character with its byte.
proof fn lemma_encoded(c: char)
    ensures
        encode_scalar(c as u32).len() > 0,
        c == '\n' ==> encode_scalar(c as u32) == seq![LF],
        c == '\r' ==> encode_scalar(c as u32) == seq![CR],
        forall|i: int|
            0 <= i < encode_scalar(c as u32).len() ==> ((#[trigger] encode_scalar(c as u32)[i])
                == LF ==> c == '\n') && (encode_scalar(c as u32)[i] == CR ==> c == '\r'),
{
    char_is_scalar(c);
    let v = c as u32;
    assert(v < 128 ==> leading_byte_width_1(v) as u32 == v) by (bit_vector);
    assert(leading_byte_width_2(v) >= 128) by (bit_vector);
    assert(leading_byte_width_3(v) >= 128) by (bit_vector);
    assert(leading_byte_width_4(v) >= 128) by (bit_vector);
    assert(last_continuation_byte(v) >= 128) by (bit_vector);
    assert(second_last_continuation_byte(v) >= 128) by (bit_vector);
    assert(third_last_continuation_byte(v) >= 128) by (bit_vector);
}

/// A line end at the end of a text is one at the end of its bytes, and a blank
/// line in it is one in its bytes.
proof fn lemma_whole_text(text: Seq<char>, bytes: Seq<u8>)
    requires
        stands_for(text, bytes),
    ensures
        bytes.len() > 0 ==> text.len() > 0,
        text.len() > 0 && text.last() == '\n' ==> bytes.len() > 0 && bytes.last() == LF,
        text.len() > 0 && text.last() == '\r' ==> bytes.len() > 0 && bytes.last() == CR,
        (forall|j: int| !blank_at(bytes, j)) ==> forall|i: int|
            0 <= i && i + 1 < text.len() ==> !((#[trigger] text[i]) == '\n' && text[i + 1]
                == '\n'),
{
    let cuts = choose|cuts: Seq<int>| cut_to(text, bytes, cuts);
    if text.len() > 0 {
        let i = text.len() - 1;
        let piece = bytes.subrange(cuts[i], cuts[i + 1]);
        assert(text[i] == text.last());
        lemma_encoded(text[i]);
        assert(piece.last() == bytes.last());
    }
    if forall|j: int| !blank_at(bytes, j) {
        assert forall|i: int| 0 <= i && i + 1 < text.len() implies !((#[trigger] text[i]) == '\n'
            && text[i + 1] == '\n') by {
            if text[i] == '\n' && text[i + 1] == '\n' {
                lemma_encoded(text[i]);
                let here = bytes.subrange(cuts[i], cuts[i + 1]);
                let next = bytes.subrange(cuts[i + 1], cuts[i + 2]);
                assert(here[0] == bytes[cuts[i]]);
                assert(next[0] == bytes[cuts[i + 1]]);
                assert(here.len() == 1);
                assert(!blank_at(bytes, cuts[i]));
            }
        }
    }
}

proof fn lemma_unframed_step(s: Seq<u8>)
    ensures
        first_blank(s, 0) matches Some(i) ==> unframed(s) == unframed(s.skip(i + 2)),
{
    lemma_first_blank(s, 0);
    if let Some(i) = first_blank(s, 0) {
        let later = s.skip(i + 2);
        lemma_framed_len(later);
        assert(s.skip(framed_len(s)) == later.skip(framed_len(later)));
    }
}

proof fn lemma_framed_len(s: Seq<u8>)
    ensures
        0 <= framed_len(s) <= s.len(),
    decreases s.len(),
{
    lemma_first_blank(s, 0);
    if let Some(i) = first_blank(s, 0) {
        lemma_framed_len(s.skip(i + 2));
    }
}

/// How long the content of a byte string is, its trailing CRs and LFs aside.
fn content_end(bytes: &[u8]) -> (r: usize)
    ensures
        r <= bytes@.len(),
        bytes@.take(r as int) == without_eol(bytes@),
{
    let mut end: usize = bytes.len();
    assert(bytes@.take(end as int) == bytes@);
    while end > 0 && (bytes[end - 1] == LF || bytes[end - 1] == CR)
        invariant
            end <= bytes@.len(),
            without_eol(bytes@.take(end as int)) == without_eol(bytes@),
        decreases end,
    {
        assert(bytes@.take(end as int).drop_last() == bytes@.take(end - 1));
        end = end - 1;
    }
    end
}

/// Replace every `\r\n` with `\n`. A lone `\r` is left in place: at the end it
/// may be the first half of a pair whose `\n` arrives in the next chunk.
pub fn normalize_crlf(bytes: &[u8]) -> (r: Vec<u8>)
    ensures
        r@ == normalized(bytes@),
{
    let mut out: Vec<u8> = Vec::new();
    let mut i: usize = 0;
    assert(bytes@.skip(0) == bytes@);
    while i < bytes.len()
        invariant
            i <= bytes@.len(),
            normalized(bytes@) == out@ + normalized(bytes@.skip(i as int)),
        decreases bytes@.len() - i,
    {
        let ghost tail = bytes@.skip(i as int);
        if bytes[i] == CR && i < bytes.len() - 1 && bytes[i + 1] == LF {
            assert(tail.skip(2) == bytes@.skip(i + 2));
            out.push(LF);
            i = i + 2;
        } else {
            assert(tail.skip(1) == bytes@.skip(i + 1));
            out.push(bytes[i]);
            i = i + 1;
        }
    }
    out
}

/// The index of the first `\n\n`.
pub fn find_double_lf(bytes: &[u8]) -> (r: Option<usize>)
    ensures
        r matches Some(i) ==> first_blank(bytes@, 0) == Some(i as int) && i + 2 <= bytes@.len(),
        r is None ==> first_blank(bytes@, 0) is None,
{
    let mut i: usize = 0;
    while i < bytes.len() && i < bytes.len() - 1
        invariant
            i <= bytes@.len(),
            first_blank(bytes@, 0) == first_blank(bytes@, i as int),
        decreases bytes@.len() - i,
    {
        if bytes[i] == LF && bytes[i + 1] == LF {
            return Some(i);
        }
        i = i + 1;
    }
    None
}

/// The payload of a `data:` line: what follows the field name, without one
/// leading space.
pub open spec fn data_of(line: Seq<char>) -> Option<Seq<char>> {
    if begins_with(line, "data:"@) {
        let rest = line.skip("data:"@.len() as int);
        Some(
            if begins_with(rest, " "@) {
                rest.skip(" "@.len() as int)
            } else {
                rest
            },
        )
    } else {
        None
    }
}

/// The payloads of the `data:` lines among `lines`, joined with line feeds.
pub open spec fn joined_data(lines: Seq<Seq<char>>) -> Option<Seq<char>>
    decreases lines.len(),
{
    if lines.len() == 0 {
        None
    } else {
        let before = joined_data(lines.drop_last());
        match data_of(lines.last()) {
            None => before,
            Some(payload) => match before {
                None => Some(payload),
                Some(data) => Some(data.push('\n') + payload),
            },
        }
    }
}

/// Extract the `data:` payload from one SSE frame, joining multiple data lines
/// with newlines.
pub fn extract_data(frame: &str) -> (r: Option<String>)
    ensures
        r is Some == joined_data(lines_of(frame@)) is Some,
        r matches Some(data) ==> joined_data(lines_of(frame@)) == Some(data@),
{
    let rows = lines(frame);
    let ghost all = lines_of(frame@);
    let mut data: String = String::new();
    let mut found: bool = false;
    let mut i: usize = 0;
    assert(all.take(0) == Seq::<Seq<char>>::empty());
    while i < rows.len()
        invariant
            i <= rows@.len(),
            views(rows@) == all,
            found == joined_data(all.take(i as int)) is Some,
            found ==> joined_data(all.take(i as int)) == Some(data@),
            !found ==> data@.len() == 0,
        decreases rows@.len() - i,
    {
        let line = &rows[i];
        assert(line@ == all[i as int]);
        assert(all.take(i + 1).drop_last() == all.take(i as int));
        if let Some(rest) = strip_prefix(line.as_str(), "data:") {
            if found {
                data.push('\n');
            }
            found = true;
            match strip_prefix(rest.as_str(), " ") {
                Some(payload) => data.append(payload.as_str()),
                None => data.append(rest.as_str()),
            }
            assert(Seq::<char>::empty() + data_of(line@).unwrap() == data_of(line@).unwrap());
        }
        i = i + 1;
    }
    assert(all.take(all.len() as int) == all);
    if found {
        Some(data)
    } else {
        None
    }
}

proof fn lemma_normalized_plain(s: Seq<u8>)
    requires
        !has_crlf(s),
    ensures
        normalized(s) == s,
    decreases s.len(),
{
    if s.len() > 0 {
        assert(!crlf_at(s, 0));
        assert forall|i: int| !crlf_at(s.skip(1), i) by {
            assert(!crlf_at(s, i + 1));
        }
        lemma_normalized_plain(s.skip(1));
        assert(seq![s[0]] + s.skip(1) == s);
    }
}

/// A pair that would span the joint aside, normalizing works piece by piece.
proof fn lemma_normalized_concat(a: Seq<u8>, b: Seq<u8>)
    requires
        a.len() == 0 || b.len() == 0 || a.last() != CR || b[0] != LF,
    ensures
        normalized(a + b) == normalized(a) + normalized(b),
    decreases a.len(),
{
    let ab = a + b;
    if a.len() == 0 {
        assert(ab == b);
    } else if a.len() >= 2 && a[0] == CR && a[1] == LF {
        assert(ab.skip(2) == a.skip(2) + b);
        lemma_normalized_concat(a.skip(2), b);
        assert(normalized(ab) == normalized(a) + normalized(b));
    } else {
        assert(ab.skip(1) == a.skip(1) + b);
        lemma_normalized_concat(a.skip(1), b);
        assert(normalized(ab) == normalized(a) + normalized(b));
    }
}

proof fn lemma_normalized_ends(s: Seq<u8>)
    requires
        s.len() > 0,
    ensures
        normalized(s).len() > 0,
        normalized(s).last() == s.last(),
    decreases s.len(),
{
    if s.len() >= 2 && s[0] == CR && s[1] == LF {
        if s.len() > 2 {
            lemma_normalized_ends(s.skip(2));
        } else {
            assert(normalized(s.skip(2)) == s.skip(2));
        }
    } else if s.len() > 1 {
        lemma_normalized_ends(s.skip(1));
    } else {
        assert(normalized(s.skip(1)) == s.skip(1));
    }
}

/// More bytes of a stream extend what is normalized of it.
proof fn lemma_normalized_extended(s: Seq<u8>, b: Seq<u8>)
    ensures
        normalized(s + b) == extended(normalized(s), b),
{
    if s.len() == 0 {
        assert(s + b == b);
        assert(normalized(s) + normalized(b) == normalized(b));
    } else {
        lemma_normalized_ends(s);
        if s.last() == CR {
            let front = s.drop_last();
            let pair = seq![CR] + b;
            assert(s == front + seq![CR]);
            assert(s + b == front + pair);
            lemma_normalized_concat(front, seq![CR]);
            lemma_normalized_concat(front, pair);
            assert forall|i: int| !crlf_at(seq![CR], i) by {}
            lemma_normalized_plain(seq![CR]);
            assert(normalized(s).drop_last() == normalized(front));
        } else {
            lemma_normalized_concat(s, b);
        }
    }
}

/// Extending twice is extending by both at once.
proof fn lemma_extended_twice(held: Seq<u8>, a: Seq<u8>, b: Seq<u8>)
    ensures
        extended(extended(held, a), b) == extended(held, a + b),
{
    if held.len() > 0 && held.last() == CR {
        let s = seq![CR] + a;
        assert(s + b == seq![CR] + (a + b));
        lemma_normalized_extended(s, b);
        lemma_normalized_ends(s);
        lemma_extended_behind(held.drop_last(), normalized(s), b);
    } else if a.len() == 0 {
        assert(normalized(a) == a);
        assert(held + a == held);
        assert(a + b == b);
    } else {
        lemma_normalized_extended(a, b);
        lemma_normalized_ends(a);
        lemma_extended_behind(held, normalized(a), b);
    }
}

/// Only the end of what is held matters to what extends it.
proof fn lemma_extended_behind(head: Seq<u8>, tail: Seq<u8>, b: Seq<u8>)
    requires
        tail.len() == 0 ==> head.len() == 0 || head.last() != CR,
    ensures
        extended(head + tail, b) == head + extended(tail, b),
{
    if tail.len() > 0 {
        assert((head + tail).last() == tail.last());
        assert((head + tail).drop_last() == head + tail.drop_last());
    } else {
        assert(head + tail == head);
    }
    assert(extended(head + tail, b) =~= head + extended(tail, b));
}

proof fn lemma_first_blank_is(s: Seq<u8>, from: int, at: int)
    requires
        0 <= from <= at,
        blank_at(s, at),
        forall|k: int| from <= k < at ==> !blank_at(s, k),
    ensures
        first_blank(s, from) == Some(at),
    decreases at - from,
{
    if from < at {
        lemma_first_blank_is(s, from + 1, at);
    }
}

/// The complete frames at the head of a buffer do not depend on what follows.
proof fn lemma_frames_resume(s: Seq<u8>, more: Seq<u8>)
    ensures
        frames_in(s.take(framed_len(s)) + more) == frames_in(s) + frames_in(more),
        framed_len(s.take(framed_len(s)) + more) == framed_len(s) + framed_len(more),
    decreases s.len(),
{
    lemma_framed_len(s);
    lemma_first_blank(s, 0);
    let n = framed_len(s);
    let joined = s.take(n) + more;
    match first_blank(s, 0) {
        None => {
            assert(joined == more);
            assert(Seq::<Seq<u8>>::empty() + frames_in(more) == frames_in(more));
        },
        Some(i) => {
            let later = s.skip(i + 2);
            lemma_framed_len(later);
            assert forall|k: int| 0 <= k < i implies !blank_at(joined, k) by {
                assert(!blank_at(s, k));
                assert(joined[k] == s[k] && joined[k + 1] == s[k + 1]);
            }
            assert(joined[i] == s[i] && joined[i + 1] == s[i + 1]);
            lemma_first_blank_is(joined, 0, i);
            assert(joined.take(i + 2) == s.take(i + 2));
            assert(joined.skip(i + 2) == later.take(framed_len(later)) + more);
            lemma_frames_resume(later, more);
            let body = without_eol(s.take(i + 2));
            if body.len() > 0 {
                assert(seq![body] + (frames_in(later) + frames_in(more)) == frames_in(s)
                    + frames_in(more));
            }
        },
    }
}

proof fn lemma_framed_ends(s: Seq<u8>)
    ensures
        framed_len(s) > 0 ==> s[framed_len(s) - 1] == LF,
    decreases s.len(),
{
    lemma_first_blank(s, 0);
    if let Some(i) = first_blank(s, 0) {
        let later = s.skip(i + 2);
        lemma_framed_len(later);
        lemma_framed_ends(later);
        if framed_len(later) > 0 {
            assert(later[framed_len(later) - 1] == s[framed_len(s) - 1]);
        }
    }
}

/// Chunk boundaries do not matter: whatever is held, pushing `a` and then `b`
/// completes the same frames and holds the same bytes as pushing both at once.
pub proof fn law_two_chunks_are_one(held: Seq<u8>, a: Seq<u8>, b: Seq<u8>)
    ensures
        ({
            let first = extended(held, a);
            let second = extended(unframed(first), b);
            let whole = extended(held, a + b);
            &&& frames_in(whole) == frames_in(first) + frames_in(second)
            &&& unframed(whole) == unframed(second)
        }),
{
    let first = extended(held, a);
    let n = framed_len(first);
    let rest = unframed(first);
    lemma_framed_len(first);
    lemma_framed_ends(first);
    let head = first.take(n);
    assert(first == head + rest);
    lemma_extended_twice(held, a, b);
    lemma_extended_behind(head, rest, b);
    let second = extended(rest, b);
    lemma_frames_resume(first, second);
    let whole = head + second;
    lemma_framed_len(second);
    assert(whole.skip(framed_len(whole)) == second.skip(framed_len(second)));
}

/// All the bytes of a list of chunks.
pub open spec fn joined(chunks: Seq<Seq<u8>>) -> Seq<u8>
    decreases chunks.len(),
{
    if chunks.len() == 0 {
        Seq::empty()
    } else {
        joined(chunks.drop_last()) + chunks.last()
    }
}

/// What a new framer holds after a list of chunks was pushed one by one.
pub open spec fn held_after(chunks: Seq<Seq<u8>>) -> Seq<u8>
    decreases chunks.len(),
{
    if chunks.len() == 0 {
        Seq::empty()
    } else {
        unframed(extended(held_after(chunks.drop_last()), chunks.last()))
    }
}

/// The frames that a new framer completes while a list of chunks is pushed one
/// by one.
pub open spec fn frames_over(chunks: Seq<Seq<u8>>) -> Seq<Seq<u8>>
    decreases chunks.len(),
{
    if chunks.len() == 0 {
        Seq::empty()
    } else {
        frames_over(chunks.drop_last()) + frames_in(
            extended(held_after(chunks.drop_last()), chunks.last()),
        )
    }
}

/// However a stream is cut into chunks, a new framer yields the frames of the
/// whole stream and keeps its unfinished tail.
pub proof fn law_any_chunking(chunks: Seq<Seq<u8>>)
    ensures
        frames_over(chunks) == frames_in(normalized(joined(chunks))),
        held_after(chunks) == unframed(normalized(joined(chunks))),
    decreases chunks.len(),
{
    if chunks.len() == 0 {
        assert(frames_in(normalized(joined(chunks))) == Seq::<Seq<u8>>::empty());
        assert(unframed(normalized(joined(chunks))) == Seq::<u8>::empty());
    } else {
        let before = joined(chunks.drop_last());
        let last = chunks.last();
        law_any_chunking(chunks.drop_last());
        lemma_extended_new(before);
        lemma_extended_new(before + last);
        law_two_chunks_are_one(Seq::empty(), before, last);
    }
}

/// A framer that holds nothing starts with the normalized bytes.
proof fn lemma_extended_new(bytes: Seq<u8>)
    ensures
        extended(Seq::empty(), bytes) == normalized(bytes),
{
    assert(Seq::<u8>::empty() + normalized(bytes) == normalized(bytes));
}

proof fn lemma_unframed_no_blank(s: Seq<u8>)
    ensures
        first_blank(unframed(s), 0) is None,
    decreases s.len(),
{
    lemma_first_blank(s, 0);
    match first_blank(s, 0) {
        None => {
            assert(unframed(s) == s);
        },
        Some(i) => {
            lemma_unframed_step(s);
            lemma_unframed_no_blank(s.skip(i + 2));
        },
    }
}

/// A push keeps no complete frame back: what stays buffered holds no blank
/// line, so it is at most one unfinished frame.
pub proof fn law_only_a_partial_frame_is_held(held: Seq<u8>, chunk: Seq<u8>, i: int)
    ensures
        !blank_at(unframed(extended(held, chunk)), i),
{
    let n = extended(held, chunk);
    lemma_unframed_no_blank(n);
    lemma_first_blank(unframed(n), 0);
}

proof fn lemma_without_eol(s: Seq<u8>)
    ensures
        without_eol(s).len() <= s.len(),
        without_eol(s) == s.take(without_eol(s).len() as int),
        without_eol(s).len() > 0 ==> without_eol(s).last() != LF && without_eol(s).last() != CR,
    decreases s.len(),
{
    if s.len() > 0 && (s.last() == LF || s.last() == CR) {
        lemma_without_eol(s.drop_last());
        let n = without_eol(s).len() as int;
        assert(s.drop_last().take(n) == s.take(n));
    } else {
        assert(s.take(s.len() as int) == s);
    }
}

/// A frame that is handed out is never empty, never ends in a line end, and
/// never holds a blank line: it is one whole frame, not two.
pub proof fn law_frames_are_whole(s: Seq<u8>, k: int)
    requires
        0 <= k < frames_in(s).len(),
    ensures
        frames_in(s)[k].len() > 0,
        frames_in(s)[k].last() != LF,
        frames_in(s)[k].last() != CR,
        forall|i: int| !blank_at(frames_in(s)[k], i),
    decreases s.len(),
{
    lemma_first_blank(s, 0);
    if let Some(i) = first_blank(s, 0) {
        let body = without_eol(s.take(i + 2));
        lemma_without_eol(s.take(i + 2));
        let later = s.skip(i + 2);
        if body.len() > 0 && k == 0 {
            assert forall|j: int| !blank_at(body, j) by {
                if blank_at(body, j) {
                    assert(blank_at(s, j));
                    assert(body.last() != LF);
                }
            }
        } else {
            let j: int = if body.len() > 0 {
                k - 1
            } else {
                k
            };
            law_frames_are_whole(later, j);
            assert(frames_in(s)[k] == frames_in(later)[j]);
        }
    }
}

/// Frames written one after the other, each with a blank line behind it.
pub open spec fn written(frames: Seq<Seq<u8>>) -> Seq<u8>
    decreases frames.len(),
{
    if frames.len() == 0 {
        Seq::empty()
    } else {
        frames[0] + seq![LF, LF] + written(frames.skip(1))
    }
}

/// A byte string with CR LF in the place of every LF.
pub open spec fn with_crlf(s: Seq<u8>) -> Seq<u8>
    decreases s.len(),
{
    if s.len() == 0 {
        s
    } else if s[0] == LF {
        seq![CR, LF] + with_crlf(s.skip(1))
    } else {
        seq![s[0]] + with_crlf(s.skip(1))
    }
}

/// Whether some bytes hold no CR.
spec fn no_cr(s: Seq<u8>) -> bool {
    forall|i: int| 0 <= i < s.len() ==> (#[trigger] s[i]) != CR
}

/// Whether some bytes are a frame that can be told from its neighbours: not
/// empty, without CR, without a blank line, and without an LF at the end.
spec fn is_frame(f: Seq<u8>) -> bool {
    &&& f.len() > 0
    &&& f.last() != LF
    &&& no_cr(f)
    &&& forall|i: int| !blank_at(f, i)
}

/// The same of a text.
pub open spec fn is_frame_text(t: Seq<char>) -> bool {
    &&& is_whole(t)
    &&& forall|i: int| 0 <= i < t.len() ==> (#[trigger] t[i]) != '\r'
}

/// The bytes of some texts.
pub open spec fn encoded(texts: Seq<Seq<char>>) -> Seq<Seq<u8>> {
    texts.map_values(|t: Seq<char>| encode_utf8(t))
}

proof fn lemma_frame_encoded(t: Seq<char>)
    requires
        forall|i: int| 0 <= i < t.len() ==> (#[trigger] t[i]) != '\r',
        forall|i: int|
            0 <= i && i + 1 < t.len() ==> !((#[trigger] t[i]) == '\n' && t[i + 1] == '\n'),
    ensures
        t.len() > 0 ==> encode_utf8(t).len() > 0 && (encode_utf8(t)[0] == LF ==> t[0] == '\n'),
        t.len() > 0 && t.last() != '\n' ==> encode_utf8(t).last() != LF,
        no_cr(encode_utf8(t)),
        forall|i: int| !blank_at(encode_utf8(t), i),
    decreases t.len(),
{
    if t.len() > 0 {
        let rest = t.drop_first();
        let head = encode_scalar(t[0] as u32);
        let tail = encode_utf8(rest);
        let all = encode_utf8(t);
        assert forall|i: int| 0 <= i < rest.len() implies (#[trigger] rest[i]) != '\r' by {
            assert(rest[i] == t[i + 1]);
        }
        assert forall|i: int| 0 <= i && i + 1 < rest.len() implies !((#[trigger] rest[i]) == '\n'
            && rest[i + 1] == '\n') by {
            assert(rest[i] == t[i + 1] && rest[i + 1] == t[i + 2]);
        }
        lemma_frame_encoded(rest);
        lemma_encoded(t[0]);
        assert(t[0] != '\r');
        assert(all == head + tail);
        assert(all[0] == head[0]);
        assert forall|i: int| 0 <= i < all.len() implies (#[trigger] all[i]) != CR by {
            if i < head.len() {
                assert(all[i] == head[i]);
            } else {
                assert(all[i] == tail[i - head.len()]);
            }
        }
        assert forall|i: int| !blank_at(all, i) by {
            if blank_at(all, i) {
                if i >= head.len() {
                    assert(all[i] == tail[i - head.len()] && all[i + 1] == tail[i + 1
                        - head.len()]);
                    assert(blank_at(tail, i - head.len()));
                } else {
                    assert(all[i] == head[i]);
                    assert(t[0] == '\n' && head.len() == 1);
                    assert(all[1] == tail[0]);
                    if rest.len() == 0 {
                        assert(tail.len() == 0);
                    }
                    assert(rest[0] == t[1]);
                }
            }
        }
        if rest.len() == 0 {
            assert(tail.len() == 0);
            assert(all == head);
            assert(head.last() == head[head.len() - 1]);
        } else {
            assert(rest.last() == t.last());
            assert(all.last() == tail.last());
        }
    }
}

proof fn lemma_written(frames: Seq<Seq<u8>>)
    requires
        forall|k: int| 0 <= k < frames.len() ==> is_frame(#[trigger] frames[k]),
    ensures
        frames_in(written(frames)) == frames,
        framed_len(written(frames)) == written(frames).len(),
        no_cr(written(frames)),
    decreases frames.len(),
{
    let s = written(frames);
    if frames.len() > 0 {
        let f = frames[0];
        let rest = frames.skip(1);
        let i = f.len() as int;
        assert forall|k: int| 0 <= k < rest.len() implies is_frame(#[trigger] rest[k]) by {
            assert(rest[k] == frames[k + 1]);
        }
        lemma_written(rest);
        let later = written(rest);
        assert(is_frame(f));
        assert(s.len() == i + 2 + later.len());
        assert forall|k: int| 0 <= k < i implies !blank_at(s, k) by {
            assert(s[k] == f[k]);
            if k + 1 < i {
                assert(s[k + 1] == f[k + 1]);
                assert(!blank_at(f, k));
            }
        }
        assert(s[i] == LF && s[i + 1] == LF);
        lemma_first_blank_is(s, 0, i);
        assert(s.skip(i + 2) == later);
        let t = s.take(i + 2);
        assert(t.last() == LF && t.drop_last().last() == LF);
        assert(t.drop_last().drop_last() == f);
        assert(without_eol(f) == f);
        assert(without_eol(t.drop_last()) == f);
        assert(seq![f] + rest == frames);
        assert forall|k: int| 0 <= k < s.len() implies (#[trigger] s[k]) != CR by {
            if k < i {
                assert(s[k] == f[k]);
            } else if k >= i + 2 {
                assert(s[k] == later[k - i - 2]);
            }
        }
    } else {
        assert(frames == Seq::<Seq<u8>>::empty());
    }
}

proof fn lemma_with_crlf(s: Seq<u8>)
    requires
        no_cr(s),
    ensures
        normalized(with_crlf(s)) == s,
    decreases s.len(),
{
    if s.len() > 0 {
        let rest = s.skip(1);
        let w = with_crlf(s);
        assert forall|i: int| 0 <= i < rest.len() implies (#[trigger] rest[i]) != CR by {
            assert(rest[i] == s[i + 1]);
        }
        lemma_with_crlf(rest);
        assert(s[0] != CR);
        if s[0] == LF {
            assert(w.skip(2) == with_crlf(rest));
        } else {
            assert(w.skip(1) == with_crlf(rest));
        }
        assert(seq![s[0]] + rest == s);
    }
}

/// Any list of frames comes back verbatim, whether their lines end in LF or in
/// CR LF, and nothing of them stays held.
pub proof fn law_frames_come_back(texts: Seq<Seq<char>>)
    requires
        forall|k: int| 0 <= k < texts.len() ==> is_frame_text(#[trigger] texts[k]),
    ensures
        ({
            let s = written(encoded(texts));
            let lf = extended(Seq::empty(), s);
            let crlf = extended(Seq::empty(), with_crlf(s));
            &&& frames_in(lf) == encoded(texts)
            &&& unframed(lf).len() == 0
            &&& frames_in(crlf) == encoded(texts)
            &&& unframed(crlf).len() == 0
        }),
        forall|k: int|
            0 <= k < texts.len() ==> valid_utf8(encoded(texts)[k]) && decode_utf8(
                encoded(texts)[k],
            ) == #[trigger] texts[k],
{
    let frames = encoded(texts);
    assert forall|k: int| 0 <= k < frames.len() implies is_frame(#[trigger] frames[k]) by {
        assert(is_frame_text(texts[k]));
        lemma_frame_encoded(texts[k]);
    }
    assert forall|k: int| 0 <= k < texts.len() implies valid_utf8(frames[k]) && decode_utf8(
        frames[k],
    ) == #[trigger] texts[k] by {
        encode_utf8_valid_utf8(texts[k]);
        encode_utf8_decode_utf8(texts[k]);
    }
    lemma_written(frames);
    let s = written(frames);
    assert forall|i: int| !crlf_at(s, i) by {}
    lemma_normalized_plain(s);
    lemma_with_crlf(s);
    lemma_extended_new(s);
    lemma_extended_new(with_crlf(s));
}

/// What a `data:` line carries is what follows the name, less one blank; a line
/// of another name carries nothing.
pub proof fn law_data_lines_carry_what_follows(x: Seq<char>, other: Seq<char>)
    requires
        other.len() < 5 || other.take(5) != "data:"@,
    ensures
        data_of("data:"@ + seq![' '] + x) == Some(x),
        x.len() == 0 || x[0] != ' ' ==> data_of("data:"@ + x) == Some(x),
        data_of(other) is None,
{
    reveal_strlit("data:");
    reveal_strlit(" ");
    assert(" "@ =~= seq![' ']);
    let a = "data:"@ + seq![' '] + x;
    assert(a.take(5) =~= "data:"@);
    assert(a.skip(5) =~= seq![' '] + x);
    assert((seq![' '] + x).take(1) =~= seq![' ']);
    assert((seq![' '] + x).skip(1) =~= x);
    let b = "data:"@ + x;
    assert(b.take(5) =~= "data:"@);
    assert(b.skip(5) =~= x);
    if x.len() > 0 && x[0] != ' ' {
        assert(x.take(1)[0] == x[0]);
    }
}

/// Every data line counts: each adds what it carries, on a line of its own, and
/// a line of another kind adds nothing.
pub proof fn law_every_data_line_counts(lines: Seq<Seq<char>>, x: Seq<char>, other: Seq<char>)
    requires
        other.len() < 5 || other.take(5) != "data:"@,
    ensures
        joined_data(Seq::empty()) is None,
        joined_data(lines.push("data:"@ + seq![' '] + x)) == Some(
            match joined_data(lines) {
                None => x,
                Some(d) => d + seq!['\n'] + x,
            },
        ),
        joined_data(lines.push(other)) == joined_data(lines),
{
    law_data_lines_carry_what_follows(x, other);
    let a = lines.push("data:"@ + seq![' '] + x);
    assert(a.drop_last() =~= lines);
    assert(lines.push(other).drop_last() =~= lines);
    if let Some(d) = joined_data(lines) {
        assert(d.push('\n') + x =~= d + seq!['\n'] + x);
    }
}

/// The end of a normalized text is where its line ends are taken off: only line
/// ends are, and all of them.
pub proof fn law_only_line_ends_are_taken_off(s: Seq<u8>)
    ensures
        without_eol(s).len() <= s.len(),
        without_eol(s) == s.take(without_eol(s).len() as int),
        without_eol(s).len() > 0 ==> without_eol(s).last() != 10 && without_eol(s).last() != 13,
        forall|k: int| without_eol(s).len() <= k < s.len() ==> (#[trigger] s[k]) == 10 || s[k] == 13,
    decreases s.len(),
{
    lemma_without_eol(s);
    if s.len() > 0 && (s.last() == LF || s.last() == CR) {
        let front = s.drop_last();
        law_only_line_ends_are_taken_off(front);
        assert forall|k: int| without_eol(s).len() <= k < s.len() implies (#[trigger] s[k]) == 10
            || s[k] == 13 by {
            if k < front.len() {
                assert(s[k] == front[k]);
            }
        }
    }
}

} // verus!
