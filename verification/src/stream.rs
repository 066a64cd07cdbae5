//! The driver of a committed response: it frames what the upstream sends, hands
//! out the payloads to decode, and keeps the account of usage and outcome.
//!
//! A failure here ends the stream. Nothing is retried and nothing is spliced.

use crate::sse::{
    encoded, extended, extract_data, frames_in, frames_over, held_after, is_frame_text, joined,
    joined_data, law_any_chunking, law_every_data_line_counts, law_frames_come_back, lossy_text,
    normalized, texts_of, unframed, with_crlf, written, SseFramer,
};
use crate::text::{law_lines_end_in_lf_or_crlf, lines_of, same, trim, trim_of, views};
use crate::types::{copy_text, merged, text_in, TokenUsage};
use vstd::prelude::*;
use vstd::utf8::encode_utf8;

verus! {

/// How a response ended.
#[derive(Debug, Clone, Copy, PartialEq, Eq, Structural)]
pub enum Ending {
    Success,
    ClientDisconnect,
    StreamError,
}

/// The name of an ending in the usage log.
pub open spec fn ending_name(e: Ending) -> Seq<char> {
    match e {
        Ending::Success => "success"@,
        Ending::ClientDisconnect => "client_disconnect"@,
        Ending::StreamError => "stream_error"@,
    }
}

/// The status code of an ending in the usage log.
pub open spec fn ending_code(e: Ending) -> i64 {
    match e {
        Ending::Success => 200,
        Ending::ClientDisconnect => 499,
        Ending::StreamError => 502,
    }
}

impl Ending {
    pub fn name(self) -> (r: &'static str)
        ensures
            r@ == ending_name(self),
    {
        match self {
            Ending::Success => "success",
            Ending::ClientDisconnect => "client_disconnect",
            Ending::StreamError => "stream_error",
        }
    }

    pub fn code(self) -> (r: i64)
        ensures
            r == ending_code(self),
    {
        match self {
            Ending::Success => 200,
            Ending::ClientDisconnect => 499,
            Ending::StreamError => 502,
        }
    }
}

/// What the driver waits for.
#[derive(Debug, Clone, Copy, PartialEq, Eq, Structural)]
pub enum StreamPhase {
    /// The upstream, or the next keepalive.
    Reading,
    /// The events of a payload.
    Parsing,
    /// The last frames on their way to the client.
    Closing,
    /// Nothing: the response has ended.
    Over,
}

/// What happened.
#[derive(Debug)]
pub enum StreamInput {
    /// A keepalive was due; the client took it or is gone.
    Keepalive { delivered: bool },
    /// The upstream sent some bytes.
    Chunk(Vec<u8>),
    /// An event of the payload was decoded and encoded to so many frames, which
    /// the client took, or it is gone.
    Decoded { usage: Option<TokenUsage>, frames: usize, elapsed_ms: i64, delivered: bool },
    /// The payload has no more events.
    PayloadDone,
    /// The payload could not be decoded.
    ParseFailed(String),
    /// The upstream ended.
    UpstreamEnd,
    /// The upstream broke off.
    UpstreamError(String),
    /// The last frames were sent; the client took them or is gone.
    Closed { delivered: bool },
}

/// What to do next.
#[derive(Debug)]
pub enum StreamAction {
    /// Read on.
    Read,
    /// Decode a payload.
    Parse(String),
    /// Go on with the events of the payload.
    Continue,
    /// Send the format's error frames with this message, and end.
    SendError(String),
    /// Send the format's last frames.
    Close,
    /// End.
    Finish,
}

/// What a `StreamAction` says.
pub enum StreamMove {
    Read,
    Parse(Seq<char>),
    Continue,
    SendError(Seq<char>),
    Close,
    Finish,
}

impl View for StreamAction {
    type V = StreamMove;

    open spec fn view(&self) -> StreamMove {
        match *self {
            StreamAction::Read => StreamMove::Read,
            StreamAction::Parse(p) => StreamMove::Parse(p@),
            StreamAction::Continue => StreamMove::Continue,
            StreamAction::SendError(m) => StreamMove::SendError(m@),
            StreamAction::Close => StreamMove::Close,
            StreamAction::Finish => StreamMove::Finish,
        }
    }
}

/// The state of a response.
#[derive(Debug)]
pub struct StreamDriver {
    framer: SseFramer,
    waiting: Vec<String>,
    phase: StreamPhase,
    ending: Ending,
    usage: TokenUsage,
    ttft_ms: Option<i64>,
    error: Option<String>,
}

/// What a `StreamDriver` holds: the bytes of an incomplete frame, the payloads
/// that wait to be decoded, what is waited for, the ending so far, the usage,
/// the time to the first frame, and the error.
pub struct StreamState {
    pub held: Seq<u8>,
    pub waiting: Seq<Seq<char>>,
    pub phase: StreamPhase,
    pub ending: Ending,
    pub usage: TokenUsage,
    pub ttft_ms: Option<i64>,
    pub error: Option<Seq<char>>,
}

impl View for StreamDriver {
    type V = StreamState;

    closed spec fn view(&self) -> StreamState {
        StreamState {
            held: self.framer@,
            waiting: views(self.waiting@),
            phase: self.phase,
            ending: self.ending,
            usage: self.usage,
            ttft_ms: self.ttft_ms,
            error: text_in(self.error),
        }
    }
}

impl StreamState {
    /// Whether something that happened is what the driver waits for.
    pub open spec fn awaits(self, input: StreamInput) -> bool {
        match input {
            StreamInput::Keepalive { .. } | StreamInput::Chunk(_) | StreamInput::UpstreamEnd
            | StreamInput::UpstreamError(_) => self.phase == StreamPhase::Reading,
            StreamInput::Decoded { .. } | StreamInput::PayloadDone | StreamInput::ParseFailed(_) =>
            self.phase == StreamPhase::Parsing,
            StreamInput::Closed { .. } => self.phase == StreamPhase::Closing,
        }
    }
}

/// The payload of a frame, where it has one to decode: the end marker has none.
pub open spec fn payload_of(frame: Seq<char>) -> Option<Seq<char>> {
    match joined_data(lines_of(frame)) {
        Some(p) => if trim_of(p) == "[DONE]"@ {
            None
        } else {
            Some(p)
        },
        None => None,
    }
}

/// The payloads of some frames, in order.
pub open spec fn payloads_of(frames: Seq<Seq<char>>) -> Seq<Seq<char>>
    decreases frames.len(),
{
    if frames.len() == 0 {
        frames
    } else {
        let before = payloads_of(frames.drop_last());
        match payload_of(frames.last()) {
            Some(p) => before.push(p),
            None => before,
        }
    }
}

/// Turns to the next payload that waits, else to the upstream.
pub open spec fn take_next(s: StreamState) -> (StreamState, StreamMove) {
    if s.waiting.len() == 0 {
        (StreamState { phase: StreamPhase::Reading, ..s }, StreamMove::Read)
    } else {
        (
            StreamState { phase: StreamPhase::Parsing, waiting: s.waiting.skip(1), ..s },
            StreamMove::Parse(s.waiting[0]),
        )
    }
}

/// The client is gone.
pub open spec fn disconnected(s: StreamState) -> (StreamState, StreamMove) {
    (
        StreamState { phase: StreamPhase::Over, ending: Ending::ClientDisconnect, ..s },
        StreamMove::Finish,
    )
}

/// The stream failed; the client is told `told`.
pub open spec fn failed(s: StreamState, error: Seq<char>, told: Seq<char>) -> (
    StreamState,
    StreamMove,
) {
    (
        StreamState {
            phase: StreamPhase::Over,
            ending: Ending::StreamError,
            error: Some(error),
            ..s
        },
        StreamMove::SendError(told),
    )
}

/// What follows something that happened.
pub open spec fn after(s: StreamState, input: StreamInput) -> (StreamState, StreamMove) {
    match input {
        StreamInput::Keepalive { delivered } => if delivered {
            (s, StreamMove::Read)
        } else {
            disconnected(s)
        },
        StreamInput::Chunk(bytes) => {
            let all = extended(s.held, bytes@);
            take_next(
                StreamState {
                    held: unframed(all),
                    waiting: payloads_of(texts_of(frames_in(all))),
                    ..s
                },
            )
        },
        StreamInput::Decoded { usage, frames, elapsed_ms, delivered } => {
            let counted = StreamState {
                usage: match usage {
                    Some(u) => merged(s.usage, u),
                    None => s.usage,
                },
                ttft_ms: if s.ttft_ms is None && frames > 0 {
                    Some(elapsed_ms)
                } else {
                    s.ttft_ms
                },
                ..s
            };
            if frames > 0 && !delivered {
                disconnected(counted)
            } else {
                (counted, StreamMove::Continue)
            }
        },
        StreamInput::PayloadDone => take_next(s),
        StreamInput::ParseFailed(message) => failed(s, message@, message@),
        StreamInput::UpstreamEnd => (
            StreamState { phase: StreamPhase::Closing, ..s },
            StreamMove::Close,
        ),
        StreamInput::UpstreamError(message) => failed(
            s,
            message@,
            "upstream stream interrupted"@,
        ),
        StreamInput::Closed { delivered } => if delivered {
            (StreamState { phase: StreamPhase::Over, ..s }, StreamMove::Finish)
        } else {
            disconnected(s)
        },
    }
}

/// The state of a response before its first byte.
pub open spec fn fresh() -> StreamState {
    StreamState {
        held: Seq::empty(),
        waiting: Seq::empty(),
        phase: StreamPhase::Reading,
        ending: Ending::Success,
        usage: TokenUsage { input: None, output: None, cached: None, thinking: None },
        ttft_ms: None,
        error: None,
    }
}

fn payloads(frames: &Vec<String>) -> (r: Vec<String>)
    ensures
        views(r@) == payloads_of(views(frames@)),
{
    let mut out: Vec<String> = Vec::new();
    let ghost all = views(frames@);
    let mut i: usize = 0;
    assert(all.take(0).len() == 0);
    assert(views(out@) =~= payloads_of(all.take(0)));
    while i < frames.len()
        invariant
            i <= frames@.len(),
            all == views(frames@),
            views(out@) == payloads_of(all.take(i as int)),
        decreases frames@.len() - i,
    {
        let ghost before = out@;
        proof {
            assert(all.take(i + 1).drop_last() =~= all.take(i as int));
            assert(all.take(i + 1).last() == frames@[i as int]@);
        }
        if let Some(p) = extract_data(frames[i].as_str()) {
            if !same(trim(p.as_str()).as_str(), "[DONE]") {
                out.push(p);
                assert(views(out@) =~= views(before).push(p@));
            }
        }
        i = i + 1;
    }
    assert(all.take(all.len() as int) =~= all);
    out
}

impl StreamDriver {
    pub fn new() -> (r: Self)
        ensures
            r@ == fresh(),
    {
        let r = StreamDriver {
            framer: SseFramer::new(),
            waiting: Vec::new(),
            phase: StreamPhase::Reading,
            ending: Ending::Success,
            usage: TokenUsage::default(),
            ttft_ms: None,
            error: None,
        };
        assert(r@.waiting =~= fresh().waiting);
        r
    }

    /// Whether something that happened is what the driver waits for.
    pub fn can_take(&self, input: &StreamInput) -> (r: bool)
        ensures
            r == self@.awaits(*input),
    {
        match input {
            StreamInput::Keepalive { .. } | StreamInput::Chunk(_) | StreamInput::UpstreamEnd
            | StreamInput::UpstreamError(_) => matches!(self.phase, StreamPhase::Reading),
            StreamInput::Decoded { .. } | StreamInput::PayloadDone | StreamInput::ParseFailed(_) =>
            matches!(self.phase, StreamPhase::Parsing),
            StreamInput::Closed { .. } => matches!(self.phase, StreamPhase::Closing),
        }
    }

    fn next_payload(&mut self) -> (r: StreamAction)
        ensures
            (final(self)@, r@) == take_next(old(self)@),
    {
        if self.waiting.len() == 0 {
            self.phase = StreamPhase::Reading;
            return StreamAction::Read;
        }
        let ghost before = views(self.waiting@);
        let p = self.waiting.remove(0);
        assert(views(self.waiting@) =~= before.skip(1));
        self.phase = StreamPhase::Parsing;
        StreamAction::Parse(p)
    }

    /// Takes what happened and says what to do next.
    pub fn step(&mut self, input: StreamInput) -> (r: StreamAction)
        requires
            old(self)@.awaits(input),
        ensures
            (final(self)@, r@) == after(old(self)@, input),
    {
        match input {
            StreamInput::Keepalive { delivered } => {
                if delivered {
                    return StreamAction::Read;
                }
                self.phase = StreamPhase::Over;
                self.ending = Ending::ClientDisconnect;
                StreamAction::Finish
            },
            StreamInput::Chunk(bytes) => {
                let frames = self.framer.push(bytes.as_slice());
                self.waiting = payloads(&frames);
                self.next_payload()
            },
            StreamInput::Decoded { usage, frames, elapsed_ms, delivered } => {
                if let Some(u) = usage {
                    self.usage.merge(&u);
                }
                if self.ttft_ms.is_none() && frames > 0 {
                    self.ttft_ms = Some(elapsed_ms);
                }
                if frames > 0 && !delivered {
                    self.phase = StreamPhase::Over;
                    self.ending = Ending::ClientDisconnect;
                    return StreamAction::Finish;
                }
                StreamAction::Continue
            },
            StreamInput::PayloadDone => self.next_payload(),
            StreamInput::ParseFailed(message) => {
                self.phase = StreamPhase::Over;
                self.ending = Ending::StreamError;
                self.error = Some(message.clone());
                StreamAction::SendError(message)
            },
            StreamInput::UpstreamEnd => {
                self.phase = StreamPhase::Closing;
                StreamAction::Close
            },
            StreamInput::UpstreamError(message) => {
                self.phase = StreamPhase::Over;
                self.ending = Ending::StreamError;
                self.error = Some(message);
                StreamAction::SendError("upstream stream interrupted".to_owned())
            },
            StreamInput::Closed { delivered } => {
                self.phase = StreamPhase::Over;
                if !delivered {
                    self.ending = Ending::ClientDisconnect;
                }
                StreamAction::Finish
            },
        }
    }

    pub fn ending(&self) -> (r: Ending)
        ensures
            r == self@.ending,
    {
        self.ending
    }

    pub fn usage(&self) -> (r: TokenUsage)
        ensures
            r == self@.usage,
    {
        self.usage
    }

    pub fn ttft_ms(&self) -> (r: Option<i64>)
        ensures
            r == self@.ttft_ms,
    {
        self.ttft_ms
    }

    pub fn error_message(&self) -> (r: Option<String>)
        ensures
            text_in(r) == self@.error,
    {
        copy_text(&self.error)
    }

    /// The message of the error that a client without streaming is answered
    /// with; `None` where the whole response is there.
    pub fn aggregate_error(&self) -> (r: Option<String>)
        ensures
            text_in(r) == (if self@.ending == Ending::Success {
                None
            } else {
                match self@.error {
                    Some(m) => Some(m),
                    None => Some("upstream stream interrupted"@),
                }
            }),
    {
        if matches!(self.ending, Ending::Success) {
            return None;
        }
        match &self.error {
            Some(m) => Some(m.clone()),
            None => Some("upstream stream interrupted".to_owned()),
        }
    }
}

/// A response that has ended takes nothing more: after an error no byte of the
/// upstream follows.
pub proof fn law_ended_is_ended(s: StreamState, input: StreamInput)
    requires
        s.awaits(input),
    ensures
        ({
            let (u, m) = after(s, input);
            &&& (m is SendError || m is Finish) == (u.phase == StreamPhase::Over)
            &&& m is SendError == (u.phase == StreamPhase::Over && (input is ParseFailed
                || input is UpstreamError))
            &&& u.phase == StreamPhase::Over ==> forall|later: StreamInput| !u.awaits(later)
        }),
{
}

/// Only whole frames are decoded, whatever the upstream's chunks: what a chunk
/// leaves incomplete is held back, and it is dropped when the upstream ends.
pub proof fn law_partial_frame_is_held(s: StreamState, bytes: Vec<u8>)
    requires
        s.phase == StreamPhase::Reading,
        frames_in(extended(s.held, bytes@)).len() == 0,
    ensures
        after(s, StreamInput::Chunk(bytes)).1 == StreamMove::Read,
        after(s, StreamInput::UpstreamEnd).1 == StreamMove::Close,
{
    assert(texts_of(frames_in(extended(s.held, bytes@))).len() == 0);
}

/// A count that no report states stays unknown, and a stated count is that of
/// the last report that states it; the time to the first frame is set once.
pub proof fn law_usage_is_what_was_reported(s: StreamState, input: StreamInput)
    ensures
        ({
            let u = after(s, input).0;
            &&& !(input is Decoded) ==> u.usage == s.usage && u.ttft_ms == s.ttft_ms
            &&& s.ttft_ms is Some ==> u.ttft_ms == s.ttft_ms
            &&& u.usage.input is Some && s.usage.input is None ==> (input matches StreamInput::Decoded {
                usage: Some(r),
                ..
            } && r.input == u.usage.input)
        }),
{
}

/// What a new driver has come to after some things happened, one after the
/// other.
pub open spec fn reached(inputs: Seq<StreamInput>) -> StreamState
    decreases inputs.len(),
{
    if inputs.len() == 0 {
        fresh()
    } else {
        after(reached(inputs.drop_last()), inputs.last()).0
    }
}

/// Whether each thing that happened was waited for.
pub open spec fn is_run(inputs: Seq<StreamInput>) -> bool
    decreases inputs.len(),
{
    inputs.len() > 0 ==> is_run(inputs.drop_last()) && reached(inputs.drop_last()).awaits(
        inputs.last(),
    )
}

/// The payloads that a new driver hands out to decode while things happen.
pub open spec fn handed_out(inputs: Seq<StreamInput>) -> Seq<Seq<char>>
    decreases inputs.len(),
{
    if inputs.len() == 0 {
        Seq::empty()
    } else {
        let before = handed_out(inputs.drop_last());
        match after(reached(inputs.drop_last()), inputs.last()).1 {
            StreamMove::Parse(p) => before.push(p),
            _ => before,
        }
    }
}

/// The chunks among the things that happened.
pub open spec fn chunks_among(inputs: Seq<StreamInput>) -> Seq<Seq<u8>>
    decreases inputs.len(),
{
    if inputs.len() == 0 {
        Seq::empty()
    } else {
        match inputs.last() {
            StreamInput::Chunk(bytes) => chunks_among(inputs.drop_last()).push(bytes@),
            _ => chunks_among(inputs.drop_last()),
        }
    }
}

proof fn lemma_payloads_concat(a: Seq<Seq<char>>, b: Seq<Seq<char>>)
    ensures
        payloads_of(a + b) == payloads_of(a) + payloads_of(b),
    decreases b.len(),
{
    if b.len() == 0 {
        assert(a + b =~= a);
        assert(payloads_of(a) + payloads_of(b) =~= payloads_of(a));
    } else {
        lemma_payloads_concat(a, b.drop_last());
        assert((a + b).drop_last() =~= a + b.drop_last());
        assert((a + b).last() == b.last());
        assert(payloads_of(a + b) =~= payloads_of(a) + payloads_of(b));
    }
}

/// No payload is lost, none is made up, and none comes out of turn: whatever
/// happens to a stream, what has been handed out and what still waits are
/// together the payloads of all the frames in the bytes that came. Nothing waits
/// any more when the driver reads on or the upstream has ended.
pub proof fn law_every_payload_is_handed_out(inputs: Seq<StreamInput>)
    requires
        is_run(inputs),
    ensures
        handed_out(inputs) + reached(inputs).waiting == payloads_of(
            texts_of(frames_in(normalized(joined(chunks_among(inputs))))),
        ),
        reached(inputs).phase == StreamPhase::Reading || reached(inputs).phase
            == StreamPhase::Closing ==> reached(inputs).waiting.len() == 0,
{
    lemma_run(inputs);
    law_any_chunking(chunks_among(inputs));
}

proof fn lemma_run(inputs: Seq<StreamInput>)
    requires
        is_run(inputs),
    ensures
        ({
            let s = reached(inputs);
            let chunks = chunks_among(inputs);
            &&& handed_out(inputs) + s.waiting == payloads_of(texts_of(frames_over(chunks)))
            &&& s.held == held_after(chunks)
            &&& s.phase == StreamPhase::Reading || s.phase == StreamPhase::Closing
                ==> s.waiting.len() == 0
        }),
    decreases inputs.len(),
{
    if inputs.len() == 0 {
        assert(texts_of(frames_over(chunks_among(inputs))).len() == 0);
        assert(handed_out(inputs) + reached(inputs).waiting =~= Seq::<Seq<char>>::empty());
    } else {
        let front = inputs.drop_last();
        let before = reached(front);
        let chunks = chunks_among(front);
        lemma_run(front);
        let s = reached(inputs);
        match inputs.last() {
            StreamInput::Chunk(bytes) => {
                let all = extended(before.held, bytes@);
                let more = chunks.push(bytes@);
                assert(more.drop_last() =~= chunks);
                assert(texts_of(frames_over(more)) =~= texts_of(frames_over(chunks)) + texts_of(
                    frames_in(all),
                ));
                lemma_payloads_concat(texts_of(frames_over(chunks)), texts_of(frames_in(all)));
                let fresh_payloads = payloads_of(texts_of(frames_in(all)));
                assert(handed_out(front) + before.waiting =~= handed_out(front));
                if fresh_payloads.len() > 0 {
                    assert(seq![fresh_payloads[0]] + fresh_payloads.skip(1) =~= fresh_payloads);
                    assert(handed_out(front).push(fresh_payloads[0]) + fresh_payloads.skip(1)
                        =~= handed_out(front) + fresh_payloads);
                }
                assert(handed_out(inputs) + s.waiting =~= handed_out(front) + fresh_payloads);
            },
            StreamInput::PayloadDone => {
                if before.waiting.len() > 0 {
                    assert(handed_out(front).push(before.waiting[0]) + before.waiting.skip(1)
                        =~= handed_out(front) + before.waiting);
                }
            },
            _ => {},
        }
    }
}

/// A frame with one data line hands out what the line carries, but for the end
/// marker with nothing but white space around it; a comment hands out nothing;
/// and each frame is judged by itself.
pub proof fn law_payloads_of_frames(
    before: Seq<Seq<char>>,
    behind: Seq<Seq<char>>,
    p: Seq<char>,
    remark: Seq<char>,
)
    requires
        !p.contains('\n'),
        !remark.contains('\n'),
    ensures
        payloads_of(before + behind) == payloads_of(before) + payloads_of(behind),
        payloads_of(seq!["data:"@ + seq![' '] + p]) == (if trim_of(p) == "[DONE]"@ {
            Seq::empty()
        } else {
            seq![p]
        }),
        payloads_of(seq![seq![':'] + remark]).len() == 0,
{
    lemma_payloads_concat(before, behind);
    reveal_strlit("data:");
    let f = "data:"@ + seq![' '] + p;
    let g = seq![':'] + remark;
    assert(!f.contains('\n')) by {
        if f.contains('\n') {
            let k = choose|k: int| 0 <= k < f.len() && f[k] == '\n';
            if k >= 6 {
                assert(p[k - 6] == '\n');
            }
        }
    }
    assert(!g.contains('\n')) by {
        if g.contains('\n') {
            let k = choose|k: int| 0 <= k < g.len() && g[k] == '\n';
            if k >= 1 {
                assert(remark[k - 1] == '\n');
            }
        }
    }
    law_lines_end_in_lf_or_crlf(f, Seq::empty());
    law_lines_end_in_lf_or_crlf(g, Seq::empty());
    if g.len() >= 5 {
        assert(g.take(5)[0] == ':');
    }
    law_every_data_line_counts(Seq::empty(), p, g);
    assert(Seq::<Seq<char>>::empty().push(f) =~= seq![f]);
    assert(Seq::<Seq<char>>::empty().push(g) =~= seq![g]);
    assert(seq![f].drop_last() =~= Seq::<Seq<char>>::empty());
    assert(seq![g].drop_last() =~= Seq::<Seq<char>>::empty());
    assert(payloads_of(Seq::<Seq<char>>::empty()) =~= Seq::<Seq<char>>::empty());
    assert(payloads_of(seq![f]) =~= (if trim_of(p) == "[DONE]"@ {
        Seq::empty()
    } else {
        seq![p]
    }));
}

/// The frames that carry some payloads, one each.
pub open spec fn frames_for(payloads: Seq<Seq<char>>) -> Seq<Seq<char>> {
    payloads.map_values(|p: Seq<char>| "data:"@ + seq![' '] + p)
}

proof fn lemma_payloads_for(payloads: Seq<Seq<char>>)
    requires
        forall|k: int|
            0 <= k < payloads.len() ==> !(#[trigger] payloads[k]).contains('\n') && trim_of(
                payloads[k],
            ) != "[DONE]"@,
    ensures
        payloads_of(frames_for(payloads)) == payloads,
    decreases payloads.len(),
{
    if payloads.len() > 0 {
        let front = payloads.drop_last();
        let last = payloads.last();
        assert forall|k: int| 0 <= k < front.len() implies !(#[trigger] front[k]).contains('\n')
            && trim_of(front[k]) != "[DONE]"@ by {
            assert(front[k] == payloads[k]);
        }
        lemma_payloads_for(front);
        assert(payloads[payloads.len() - 1] == last);
        law_payloads_of_frames(
            frames_for(front),
            seq!["data:"@ + seq![' '] + last],
            last,
            Seq::empty(),
        );
        assert(frames_for(payloads) =~= frames_for(front) + seq!["data:"@ + seq![' '] + last]);
        assert(payloads =~= front + seq![last]);
    } else {
        assert(frames_for(payloads).len() == 0);
        assert(payloads_of(frames_for(payloads)) =~= payloads);
    }
}

/// What an upstream sends is what is decoded: any payloads, written one to a
/// frame and cut into chunks anywhere, with LF or CR LF line ends, are handed
/// out one by one, as they are.
pub proof fn law_written_payloads_come_back(payloads: Seq<Seq<char>>, inputs: Seq<StreamInput>)
    requires
        is_run(inputs),
        reached(inputs).phase == StreamPhase::Reading,
        joined(chunks_among(inputs)) == written(encoded(frames_for(payloads))) || joined(
            chunks_among(inputs),
        ) == with_crlf(written(encoded(frames_for(payloads)))),
        forall|k: int|
            0 <= k < payloads.len() ==> !(#[trigger] payloads[k]).contains('\n')
                && !payloads[k].contains('\r') && trim_of(payloads[k]) != "[DONE]"@,
        forall|k: int|
            0 <= k < payloads.len() ==> lossy_text(
                encode_utf8(#[trigger] frames_for(payloads)[k]),
            ) == frames_for(payloads)[k],
    ensures
        handed_out(inputs) == payloads,
{
    law_every_payload_is_handed_out(inputs);
    let frames = frames_for(payloads);
    reveal_strlit("data:");
    assert forall|k: int| 0 <= k < frames.len() implies is_frame_text(#[trigger] frames[k]) by {
        let p = payloads[k];
        let f = frames[k];
        assert(f == "data:"@ + seq![' '] + p);
        assert forall|i: int| 0 <= i < f.len() implies (#[trigger] f[i]) != '\r' && f[i]
            != '\n' by {
            if i >= 6 {
                assert(f[i] == p[i - 6]);
                assert(p.contains(p[i - 6]));
            }
        }
        assert(f.last() == f[f.len() - 1]);
    }
    law_frames_come_back(frames);
    let all = joined(chunks_among(inputs));
    assert(extended(Seq::empty(), all) =~= normalized(all));
    assert(texts_of(encoded(frames)) =~= frames) by {
        assert forall|k: int| 0 <= k < frames.len() implies texts_of(encoded(frames))[k]
            == frames[k] by {
            assert(encoded(frames)[k] == encode_utf8(frames[k]));
        }
    }
    lemma_payloads_for(payloads);
    assert(handed_out(inputs) + reached(inputs).waiting =~= handed_out(inputs));
}

/// A count is that of the last report that states it, and one that no report
/// states stays as it was: each kind by itself.
pub proof fn law_last_report_counts(
    s: StreamState,
    report: TokenUsage,
    frames: usize,
    elapsed_ms: i64,
    delivered: bool,
)
    ensures
        ({
            let u = after(
                s,
                StreamInput::Decoded { usage: Some(report), frames, elapsed_ms, delivered },
            ).0.usage;
            &&& u.input == (if report.input is Some { report.input } else { s.usage.input })
            &&& u.output == (if report.output is Some { report.output } else { s.usage.output })
            &&& u.cached == (if report.cached is Some { report.cached } else { s.usage.cached })
            &&& u.thinking == (if report.thinking is Some {
                report.thinking
            } else {
                s.usage.thinking
            })
        }),
{
}

/// The time to the first frame is that of the first report with a frame, and a
/// report without one does not set it.
pub proof fn law_first_frame_sets_the_time(
    s: StreamState,
    usage: Option<TokenUsage>,
    frames: usize,
    elapsed_ms: i64,
    delivered: bool,
)
    ensures
        ({
            let u = after(s, StreamInput::Decoded { usage, frames, elapsed_ms, delivered }).0;
            &&& s.ttft_ms is None && frames > 0 ==> u.ttft_ms == Some(elapsed_ms)
            &&& s.ttft_ms is Some || frames == 0 ==> u.ttft_ms == s.ttft_ms
        }),
{
}

/// How a response ends: a client that does not take what is sent is gone, and
/// nothing more is sent; a payload or an upstream that fails is an error, of
/// which the client is told; anything else leaves the response a success.
pub proof fn law_endings_have_their_reasons(s: StreamState, input: StreamInput)
    ensures
        ({
            let (u, m) = after(s, input);
            let gone = match input {
                StreamInput::Keepalive { delivered } | StreamInput::Closed { delivered } =>
                !delivered,
                StreamInput::Decoded { frames, delivered, .. } => frames > 0 && !delivered,
                _ => false,
            };
            let broken = input is ParseFailed || input is UpstreamError;
            &&& gone ==> u.ending == Ending::ClientDisconnect && m == StreamMove::Finish
            &&& broken ==> u.ending == Ending::StreamError && m is SendError && u.error is Some
            &&& !gone && !broken ==> u.ending == s.ending && u.error == s.error
            &&& input matches StreamInput::ParseFailed(why) ==> u.error == Some(why@) && m
                == StreamMove::SendError(why@)
            &&& input matches StreamInput::UpstreamError(why) ==> u.error == Some(why@) && m
                != StreamMove::SendError(why@) || why@ == "upstream stream interrupted"@
            &&& input is UpstreamEnd ==> m == StreamMove::Close
        }),
{
}

/// A success is the only ending with a code below 400, and only a client that is
/// gone has one below 500 besides; no two endings share a name or a code.
pub proof fn law_endings_are_told_apart(a: Ending, b: Ending)
    ensures
        (200 <= ending_code(a) < 300) == (a == Ending::Success),
        (400 <= ending_code(a) < 500) == (a == Ending::ClientDisconnect),
        (500 <= ending_code(a) < 600) == (a == Ending::StreamError),
        a != b ==> ending_code(a) != ending_code(b) && ending_name(a) != ending_name(b),
{
    reveal_strlit("success");
    reveal_strlit("client_disconnect");
    reveal_strlit("stream_error");
    assert("success"@.len() == 7 && "client_disconnect"@.len() == 17 && "stream_error"@.len() == 12);
}

} // verus!
