//! The live view: requests in flight, and a tail of those that finished.
//!
//! It holds no bodies and no secrets, and never more than a fixed number of
//! requests.

use crate::ratelimit::{clock_start, nanos_since};
use crate::text::{same, views};
use crate::types::{copy_text, text_in};
use dashmap::DashMap;
use std::collections::VecDeque;
use std::time::Instant;
use vstd::prelude::*;

verus! {

/// A request in the live view.
#[derive(Debug)]
pub struct LiveRequest {
    pub request_id: String,
    pub key_name: Option<String>,
    pub frontend: String,
    pub requested_model: String,
    pub route_name: Option<String>,
    /// `selecting`, `streaming`, `committed` or `done`.
    pub phase: String,
    pub commit_state: String,
    pub fallback_hops: u32,
    pub retry_count: u32,
    pub input_tokens: Option<u64>,
    pub output_tokens: Option<u64>,
    pub status: String,
    pub latency_ms: u64,
    pub ttft_ms: Option<i64>,
    pub started_ms_ago: u64,
    pub finished: bool,
}

/// What a `LiveRequest` holds.
pub struct LiveEntry {
    pub request_id: Seq<char>,
    pub key_name: Option<Seq<char>>,
    pub frontend: Seq<char>,
    pub requested_model: Seq<char>,
    pub route_name: Option<Seq<char>>,
    pub phase: Seq<char>,
    pub commit_state: Seq<char>,
    pub fallback_hops: u32,
    pub retry_count: u32,
    pub input_tokens: Option<u64>,
    pub output_tokens: Option<u64>,
    pub status: Seq<char>,
    pub latency_ms: u64,
    pub ttft_ms: Option<i64>,
    pub started_ms_ago: u64,
    pub finished: bool,
}

impl View for LiveRequest {
    type V = LiveEntry;

    open spec fn view(&self) -> LiveEntry {
        LiveEntry {
            request_id: self.request_id@,
            key_name: text_in(self.key_name),
            frontend: self.frontend@,
            requested_model: self.requested_model@,
            route_name: text_in(self.route_name),
            phase: self.phase@,
            commit_state: self.commit_state@,
            fallback_hops: self.fallback_hops,
            retry_count: self.retry_count,
            input_tokens: self.input_tokens,
            output_tokens: self.output_tokens,
            status: self.status@,
            latency_ms: self.latency_ms,
            ttft_ms: self.ttft_ms,
            started_ms_ago: self.started_ms_ago,
            finished: self.finished,
        }
    }
}

impl Clone for LiveRequest {
    fn clone(&self) -> (r: Self)
        ensures
            r == *self,
    {
        LiveRequest {
            request_id: self.request_id.clone(),
            key_name: copy_text(&self.key_name),
            frontend: self.frontend.clone(),
            requested_model: self.requested_model.clone(),
            route_name: copy_text(&self.route_name),
            phase: self.phase.clone(),
            commit_state: self.commit_state.clone(),
            fallback_hops: self.fallback_hops,
            retry_count: self.retry_count,
            input_tokens: self.input_tokens,
            output_tokens: self.output_tokens,
            status: self.status.clone(),
            latency_ms: self.latency_ms,
            ttft_ms: self.ttft_ms,
            started_ms_ago: self.started_ms_ago,
            finished: self.finished,
        }
    }
}

/// The entries of a map of live requests, by request id.
pub uninterp spec fn live_entries(m: DashMap<String, LiveRequest>) -> Map<Seq<char>, LiveEntry>;

/// No entries at all.
pub open spec fn no_entries() -> Map<Seq<char>, LiveEntry> {
    Map::empty()
}

/// `DashMap::new`: a map without entries.
#[verifier::external_body]
fn new_live_map() -> (r: DashMap<String, LiveRequest>)
    ensures
        live_entries(r) == no_entries(),
{
    DashMap::new()
}

/// `DashMap::insert`: the value under the key is replaced or added.
#[verifier::external_body]
fn put_live(m: &mut DashMap<String, LiveRequest>, id: &str, e: LiveRequest)
    ensures
        live_entries(*final(m)) == live_entries(*old(m)).insert(id@, e@),
{
    let _ = m.insert(id.to_owned(), e);
}

/// `DashMap::remove`: takes the value under a key out.
#[verifier::external_body]
fn take_live(m: &mut DashMap<String, LiveRequest>, id: &str) -> (r: Option<LiveRequest>)
    ensures
        live_entries(*final(m)) == live_entries(*old(m)).remove(id@),
        match r {
            Some(e) => live_entries(*old(m)).contains_key(id@) && live_entries(*old(m))[id@] == e@,
            None => !live_entries(*old(m)).contains_key(id@),
        },
{
    m.remove(id).map(|(_, e)| e)
}

/// `DashMap::get`: a copy of the value under a key.
#[verifier::external_body]
fn get_live(m: &DashMap<String, LiveRequest>, id: &str) -> (r: Option<LiveRequest>)
    ensures
        match r {
            Some(e) => live_entries(*m).contains_key(id@) && live_entries(*m)[id@] == e@,
            None => !live_entries(*m).contains_key(id@),
        },
{
    m.get(id).map(|e| e.value().clone())
}

/// The live view: the entries by request id, the ids in the order in which they
/// started, how many may be listed, and how many were evicted.
pub struct Board {
    pub live: Map<Seq<char>, LiveEntry>,
    pub order: Seq<Seq<char>>,
    pub max_live: int,
    pub dropped: u64,
}

impl Board {
    /// Whether no more requests are listed than allowed, every entry is listed,
    /// and every entry stands under its id.
    pub open spec fn wf(self) -> bool {
        &&& self.order.len() <= self.max_live
        &&& forall|k: Seq<char>| #[trigger]
            self.live.contains_key(k) ==> self.order.contains(k) && self.live[k].request_id == k
    }
}

/// A request as it enters.
pub open spec fn entered(
    id: Seq<char>,
    frontend: Seq<char>,
    model: Seq<char>,
    key_name: Option<Seq<char>>,
    route_name: Option<Seq<char>>,
) -> LiveEntry {
    LiveEntry {
        request_id: id,
        key_name,
        frontend,
        requested_model: model,
        route_name,
        phase: "selecting"@,
        commit_state: "not_committed"@,
        fallback_hops: 0,
        retry_count: 0,
        input_tokens: None,
        output_tokens: None,
        status: "in_flight"@,
        latency_ms: 0,
        ttft_ms: None,
        started_ms_ago: 0,
        finished: false,
    }
}

/// The view after a request entered: beyond the limit the one that entered
/// first leaves.
pub open spec fn started(b: Board, e: LiveEntry) -> Board {
    let live = b.live.insert(e.request_id, e);
    let order = b.order.push(e.request_id);
    if order.len() > b.max_live {
        let first = order[0];
        Board {
            live: live.remove(first),
            order: order.skip(1),
            dropped: if live.contains_key(first) {
                b.dropped.wrapping_add(1)
            } else {
                b.dropped
            },
            ..b
        }
    } else {
        Board { live, order, ..b }
    }
}

/// The view with the entry of a request replaced, where it has one.
pub open spec fn changed(b: Board, id: Seq<char>, e: LiveEntry) -> Board {
    if b.live.contains_key(id) {
        Board { live: b.live.insert(id, e), ..b }
    } else {
        b
    }
}

/// The entries at a time, finished or not, from the newest to the oldest.
pub open spec fn part_of(b: Board, n: int, finished: bool, now_ms: u64) -> Seq<LiveEntry>
    decreases n,
{
    if n <= 0 || n > b.order.len() {
        Seq::empty()
    } else {
        let id = b.order[n - 1];
        let rest = part_of(b, n - 1, finished, now_ms);
        if b.live.contains_key(id) && !b.order.skip(n).contains(id) && b.live[id].finished
            == finished {
            seq![LiveEntry { started_ms_ago: now_ms, ..b.live[id] }] + rest
        } else {
            rest
        }
    }
}

/// What the live view shows: the requests in flight before the finished ones,
/// each part from the newest to the oldest.
pub open spec fn shown(b: Board, now_ms: u64) -> Seq<LiveEntry> {
    part_of(b, b.order.len() as int, false, now_ms) + part_of(
        b,
        b.order.len() as int,
        true,
        now_ms,
    )
}

/// The entries of a list.
pub open spec fn entry_views(v: Seq<LiveRequest>) -> Seq<LiveEntry> {
    v.map_values(|e: LiveRequest| e@)
}

/// The registry of live requests.
pub struct LiveRequests {
    live: DashMap<String, LiveRequest>,
    order: VecDeque<String>,
    max_live: usize,
    dropped: u64,
    start: Instant,
}

impl View for LiveRequests {
    type V = Board;

    closed spec fn view(&self) -> Board {
        Board {
            live: live_entries(self.live),
            order: views(self.order@),
            max_live: self.max_live as int,
            dropped: self.dropped,
        }
    }
}

impl LiveRequests {
    /// A registry of at most so many requests.
    pub fn new(max_live: usize) -> (r: Self)
        ensures
            r@.wf(),
            r@ == (Board {
                live: Map::empty(),
                order: Seq::empty(),
                max_live: max_live as int,
                dropped: 0,
            }),
    {
        let r = LiveRequests {
            live: new_live_map(),
            order: VecDeque::new(),
            max_live,
            dropped: 0,
            start: clock_start(),
        };
        assert(r@.order =~= Seq::<Seq<char>>::empty());
        r
    }

    /// Registers a request as it enters.
    pub fn start(
        &mut self,
        request_id: &str,
        frontend: &str,
        requested_model: &str,
        key_name: Option<String>,
        route_name: Option<String>,
    )
        requires
            old(self)@.wf(),
        ensures
            final(self)@.wf(),
            final(self)@ == started(
                old(self)@,
                entered(
                    request_id@,
                    frontend@,
                    requested_model@,
                    text_in(key_name),
                    text_in(route_name),
                ),
            ),
    {
        let entry = LiveRequest {
            request_id: request_id.to_owned(),
            key_name,
            frontend: frontend.to_owned(),
            requested_model: requested_model.to_owned(),
            route_name,
            phase: "selecting".to_owned(),
            commit_state: "not_committed".to_owned(),
            fallback_hops: 0,
            retry_count: 0,
            input_tokens: None,
            output_tokens: None,
            status: "in_flight".to_owned(),
            latency_ms: 0,
            ttft_ms: None,
            started_ms_ago: 0,
            finished: false,
        };
        let ghost e = entry@;
        let ghost b = self@;
        put_live(&mut self.live, request_id, entry);
        self.order.push_back(request_id.to_owned());
        let ghost order = b.order.push(request_id@);
        assert(views(self.order@) =~= order);
        if self.order.len() > self.max_live {
            if let Some(first) = self.order.pop_front() {
                proof {
                    assert(first@ == order[0]);
                    assert(views(self.order@) =~= order.skip(1));
                }
                if take_live(&mut self.live, first.as_str()).is_some() {
                    self.dropped = self.dropped.wrapping_add(1);
                }
            }
        }
        proof {
            lemma_started_wf(b, e);
        }
    }

    fn change(&mut self, id: &str, e: LiveRequest)
        requires
            old(self)@.wf(),
            e@.request_id == id@,
            old(self)@.order.contains(id@),
        ensures
            final(self)@.wf(),
            final(self)@ == (Board { live: old(self)@.live.insert(id@, e@), ..old(self)@ }),
    {
        put_live(&mut self.live, id, e);
    }

    /// Marks a request as committed: its first bytes went to the client.
    pub fn mark_committed(&mut self, request_id: &str)
        requires
            old(self)@.wf(),
        ensures
            final(self)@.wf(),
            final(self)@ == changed(
                old(self)@,
                request_id@,
                LiveEntry {
                    phase: "committed"@,
                    commit_state: "committed"@,
                    ..old(self)@.live[request_id@]
                },
            ),
    {
        if let Some(mut e) = get_live(&self.live, request_id) {
            e.phase = "committed".to_owned();
            e.commit_state = "committed".to_owned();
            self.change(request_id, e);
        }
    }

    /// Marks a request as streaming, where it was still selecting.
    pub fn mark_streaming(&mut self, request_id: &str)
        requires
            old(self)@.wf(),
        ensures
            final(self)@.wf(),
            final(self)@ == changed(
                old(self)@,
                request_id@,
                LiveEntry {
                    phase: if old(self)@.live[request_id@].phase == "selecting"@ {
                        "streaming"@
                    } else {
                        old(self)@.live[request_id@].phase
                    },
                    ..old(self)@.live[request_id@]
                },
            ),
    {
        if let Some(mut e) = get_live(&self.live, request_id) {
            if same(e.phase.as_str(), "selecting") {
                e.phase = "streaming".to_owned();
            }
            self.change(request_id, e);
        }
    }

    /// Notes the time to the first frame.
    pub fn set_ttft(&mut self, request_id: &str, ttft_ms: i64)
        requires
            old(self)@.wf(),
        ensures
            final(self)@.wf(),
            final(self)@ == changed(
                old(self)@,
                request_id@,
                LiveEntry { ttft_ms: Some(ttft_ms), ..old(self)@.live[request_id@] },
            ),
    {
        if let Some(mut e) = get_live(&self.live, request_id) {
            e.ttft_ms = Some(ttft_ms);
            self.change(request_id, e);
        }
    }

    /// Notes the fallbacks and retries so far.
    pub fn set_fallback_hops(&mut self, request_id: &str, hops: u32, retries: u32)
        requires
            old(self)@.wf(),
        ensures
            final(self)@.wf(),
            final(self)@ == changed(
                old(self)@,
                request_id@,
                LiveEntry {
                    fallback_hops: hops,
                    retry_count: retries,
                    ..old(self)@.live[request_id@]
                },
            ),
    {
        if let Some(mut e) = get_live(&self.live, request_id) {
            e.fallback_hops = hops;
            e.retry_count = retries;
            self.change(request_id, e);
        }
    }

    /// Marks a request as finished. It stays visible until newer ones push it
    /// out.
    pub fn finish(
        &mut self,
        request_id: &str,
        status: &str,
        latency_ms: u64,
        input_tokens: Option<u64>,
        output_tokens: Option<u64>,
    )
        requires
            old(self)@.wf(),
        ensures
            final(self)@.wf(),
            final(self)@ == changed(
                old(self)@,
                request_id@,
                LiveEntry {
                    phase: "done"@,
                    finished: true,
                    status: status@,
                    latency_ms,
                    input_tokens,
                    output_tokens,
                    ..old(self)@.live[request_id@]
                },
            ),
    {
        if let Some(mut e) = get_live(&self.live, request_id) {
            e.phase = "done".to_owned();
            e.finished = true;
            e.status = status.to_owned();
            e.latency_ms = latency_ms;
            e.input_tokens = input_tokens;
            e.output_tokens = output_tokens;
            self.change(request_id, e);
        }
    }

    fn listed_later(&self, n: usize) -> (r: bool)
        requires
            0 < n <= self@.order.len(),
        ensures
            r == self@.order.skip(n as int).contains(self@.order[n - 1]),
    {
        let total: usize = self.order.len();
        let at: usize = n - 1;
        assert(at < self.order@.len());
        let id = self.order[at].as_str();
        let ghost later = self@.order.skip(n as int);
        let mut i: usize = n;
        while i < total
            invariant
                n <= i <= total,
                total == self.order@.len(),
                id@ == self@.order[n - 1],
                later == self@.order.skip(n as int),
                forall|k: int| 0 <= k < i - n ==> (#[trigger] later[k]) != id@,
            decreases total - i,
        {
            assert(later[i - n] == self.order@[i as int]@);
            assert(i < self.order@.len());
            if same(self.order[i].as_str(), id) {
                assert(later.contains(id@));
                return true;
            }
            i = i + 1;
        }
        false
    }

    fn list_part(&self, finished: bool, now_ms: u64) -> (r: Vec<LiveRequest>)
        ensures
            entry_views(r@) == part_of(self@, self@.order.len() as int, finished, now_ms),
    {
        let mut out: Vec<LiveRequest> = Vec::new();
        let mut n: usize = self.order.len();
        let ghost goal = part_of(self@, self@.order.len() as int, finished, now_ms);
        assert(entry_views(out@) + goal =~= goal);
        while n > 0
            invariant
                n <= self@.order.len(),
                self@.order.len() == self.order@.len(),
                goal == entry_views(out@) + part_of(self@, n as int, finished, now_ms),
            decreases n,
        {
            let ghost before = entry_views(out@);
            let at: usize = n - 1;
            assert(at < self.order@.len());
            let id = self.order[at].as_str();
            assert(id@ == self@.order[n - 1]);
            if !self.listed_later(n) {
                if let Some(e) = get_live(&self.live, id) {
                    if e.finished == finished {
                        let mut e = e;
                        e.started_ms_ago = now_ms;
                        out.push(e);
                        assert(entry_views(out@) =~= before.push(e@));
                        assert(before + (seq![e@] + part_of(self@, n - 1, finished, now_ms))
                            =~= entry_views(out@) + part_of(self@, n - 1, finished, now_ms));
                    }
                }
            }
            n = n - 1;
        }
        assert(entry_views(out@) + part_of(self@, 0, finished, now_ms) =~= entry_views(out@));
        out
    }

    /// The live view at a time: requests in flight before finished ones, each
    /// from the newest to the oldest.
    pub fn snapshot_at(&self, now_ms: u64) -> (r: Vec<LiveRequest>)
        ensures
            entry_views(r@) == shown(self@, now_ms),
    {
        let mut out = self.list_part(false, now_ms);
        let mut rest = self.list_part(true, now_ms);
        let ghost a = entry_views(out@);
        let ghost b = entry_views(rest@);
        out.append(&mut rest);
        assert(entry_views(out@) =~= a + b);
        out
    }

    /// The live view now.
    pub fn snapshot(&self) -> (r: Vec<LiveRequest>)
        ensures
            exists|now_ms: u64| entry_views(r@) == #[trigger] shown(self@, now_ms),
    {
        let now_ms: u64 = nanos_since(&self.start) / 1_000_000;
        self.snapshot_at(now_ms)
    }

    /// How many requests are in flight.
    pub fn live_count(&self) -> (r: usize)
        ensures
            r == part_of(self@, self@.order.len() as int, false, 0).len(),
    {
        let list = self.list_part(false, 0);
        assert(entry_views(list@).len() == list@.len());
        list.len()
    }

    /// How many requests were evicted.
    pub fn dropped(&self) -> (r: u64)
        ensures
            r == self@.dropped,
    {
        self.dropped
    }
}

proof fn lemma_started_wf(b: Board, e: LiveEntry)
    requires
        b.wf(),
    ensures
        started(b, e).wf(),
{
    let order = b.order.push(e.request_id);
    let after = started(b, e);
    assert forall|k: Seq<char>| #[trigger] after.live.contains_key(k) implies after.order.contains(k)
        && after.live[k].request_id == k by {
        let i = if k == e.request_id {
            b.order.len() as int
        } else {
            assert(b.live.contains_key(k));
            choose|i: int| 0 <= i < b.order.len() && b.order[i] == k
        };
        assert(order[i] == k);
        if order.len() > b.max_live {
            assert(k != order[0]);
            assert(after.order[i - 1] == k);
        }
    }
}

/// Never more requests are kept than the limit, whatever enters.
pub proof fn law_bounded(b: Board)
    requires
        b.wf(),
        b.live.dom().finite(),
    ensures
        b.live.len() <= b.max_live,
        forall|e: LiveEntry| (#[trigger] started(b, e)).wf(),
{
    assert(b.live.dom().subset_of(b.order.to_set())) by {
        assert forall|k: Seq<char>| b.live.dom().contains(k) implies b.order.to_set().contains(k) by {
            assert(b.live.contains_key(k));
        }
    }
    vstd::seq_lib::seq_to_set_is_finite(b.order);
    b.order.lemma_cardinality_of_set();
    vstd::set_lib::lemma_len_subset(b.live.dom(), b.order.to_set());
    assert forall|e: LiveEntry| (#[trigger] started(b, e)).wf() by {
        lemma_started_wf(b, e);
    }
}

/// A request that entered is found under its id as it entered, until it is
/// pushed out; no other entry changes.
pub proof fn law_entry_is_kept(b: Board, e: LiveEntry, other: Seq<char>)
    requires
        b.wf(),
        b.order.len() < b.max_live,
    ensures
        started(b, e).live.contains_key(e.request_id),
        started(b, e).live[e.request_id] == e,
        other != e.request_id ==> started(b, e).live.contains_key(other) == b.live.contains_key(
            other,
        ),
{
}

/// A request that starts is listed last and as selecting, and nothing is known of
/// it but what it asked for.
pub proof fn law_started_requests_are_listed(
    b: Board,
    id: Seq<char>,
    frontend: Seq<char>,
    model: Seq<char>,
    key_name: Option<Seq<char>>,
    route_name: Option<Seq<char>>,
)
    requires
        b.wf(),
        b.max_live > 0,
        b.order.len() > 0 ==> b.order[0] != id,
    ensures
        ({
            let e = entered(id, frontend, model, key_name, route_name);
            let after = started(b, e);
            &&& after.order.len() > 0 && after.order.last() == id
            &&& after.live.contains_key(id) && after.live[id] == e
            &&& e.request_id == id && e.frontend == frontend && e.requested_model == model
            &&& e.key_name == key_name && e.route_name == route_name
            &&& !e.finished && e.phase == "selecting"@ && e.status == "in_flight"@
            &&& e.input_tokens is None && e.output_tokens is None && e.ttft_ms is None
            &&& e.fallback_hops == 0 && e.retry_count == 0
            &&& b.order.len() < b.max_live ==> after.order == b.order.push(id) && after.dropped
                == b.dropped
            &&& b.order.len() == b.max_live ==> after.order == b.order.push(id).skip(1)
                && !after.live.contains_key(b.order[0])
            &&& b.order.len() == b.max_live && b.live.contains_key(b.order[0]) ==> after.dropped
                == b.dropped.wrapping_add(1)
            &&& b.order.len() == b.max_live && !b.live.contains_key(b.order[0]) ==> after.dropped
                == b.dropped
        }),
{
}

/// A change is made to the request it is about, where that is listed, and to
/// nothing else.
pub proof fn law_changes_stay_with_their_request(
    b: Board,
    id: Seq<char>,
    e: LiveEntry,
    other: Seq<char>,
)
    ensures
        b.live.contains_key(id) ==> changed(b, id, e).live[id] == e,
        !b.live.contains_key(id) ==> changed(b, id, e) == b,
        other != id ==> changed(b, id, e).live.contains_key(other) == b.live.contains_key(other),
        other != id && b.live.contains_key(other) ==> changed(b, id, e).live[other] == b.live[other],
        changed(b, id, e).order == b.order,
        changed(b, id, e).dropped == b.dropped,
{
}

/// What is shown of the running or of the finished requests is as it stands, and
/// of the right ones.
pub proof fn law_shown_requests_are_live(b: Board, n: int, finished: bool, now_ms: u64, i: int)
    requires
        b.wf(),
        0 <= n <= b.order.len(),
        0 <= i < part_of(b, n, finished, now_ms).len(),
    ensures
        ({
            let e = part_of(b, n, finished, now_ms)[i];
            &&& e.finished == finished
            &&& b.live.contains_key(e.request_id)
            &&& e == (LiveEntry { started_ms_ago: now_ms, ..b.live[e.request_id] })
        }),
    decreases n,
{
    if n > 0 {
        let id = b.order[n - 1];
        let rest = part_of(b, n - 1, finished, now_ms);
        if b.live.contains_key(id) && !b.order.skip(n).contains(id) && b.live[id].finished
            == finished {
            assert(b.live[id].request_id == id);
            if i > 0 {
                law_shown_requests_are_live(b, n - 1, finished, now_ms, i - 1);
            }
        } else {
            law_shown_requests_are_live(b, n - 1, finished, now_ms, i);
        }
    }
}

/// Every live request is shown, at the place where it was listed last.
pub proof fn law_live_requests_are_shown(b: Board, n: int, finished: bool, now_ms: u64, k: int)
    requires
        0 <= k < n <= b.order.len(),
        b.live.contains_key(b.order[k]),
        !b.order.skip(k + 1).contains(b.order[k]),
        b.live[b.order[k]].finished == finished,
    ensures
        part_of(b, n, finished, now_ms).contains(
            LiveEntry { started_ms_ago: now_ms, ..b.live[b.order[k]] },
        ),
    decreases n,
{
    let e = LiveEntry { started_ms_ago: now_ms, ..b.live[b.order[k]] };
    let all = part_of(b, n, finished, now_ms);
    let rest = part_of(b, n - 1, finished, now_ms);
    if k == n - 1 {
        assert(all[0] == e);
    } else {
        law_live_requests_are_shown(b, n - 1, finished, now_ms, k);
        let j = choose|j: int| 0 <= j < rest.len() && rest[j] == e;
        if all.len() == rest.len() {
            assert(all[j] == e);
        } else {
            assert(all[j + 1] == e);
        }
    }
}

/// Running requests are shown before finished ones.
pub proof fn law_running_requests_come_first(b: Board, now_ms: u64, i: int, j: int)
    requires
        b.wf(),
        0 <= i < j < shown(b, now_ms).len(),
        shown(b, now_ms)[i].finished,
    ensures
        shown(b, now_ms)[j].finished,
{
    let n = b.order.len() as int;
    let running = part_of(b, n, false, now_ms);
    let done = part_of(b, n, true, now_ms);
    if i < running.len() {
        law_shown_requests_are_live(b, n, false, now_ms, i);
        assert(shown(b, now_ms)[i] == running[i]);
    } else {
        assert(shown(b, now_ms)[j] == done[j - running.len()]);
        law_shown_requests_are_live(b, n, true, now_ms, j - running.len());
    }
}

} // verus!
