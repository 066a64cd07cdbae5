//! What routing remembers between requests: which target a session was served
//! by, and whose turn it is in a Route.

use crate::ratelimit::{clock_start, elapsed, elapsed_ns, nanos_since};
use dashmap::DashMap;
use std::time::Instant;
use vstd::prelude::*;

verus! {

/// The target that a session was served by, and when.
#[derive(Debug)]
pub struct StickyEntry {
    /// The Route, the account and the model of the target.
    pub target_key: String,
    /// Nanoseconds since the start of the clock.
    pub at: u64,
}

/// The entries of a map of sessions: the target key and the time, by session.
pub uninterp spec fn sticky_entries(m: DashMap<String, StickyEntry>) -> Map<
    Seq<char>,
    (Seq<char>, u64),
>;

/// The entries of a map of turns: how often a Route was used, by Route id.
pub uninterp spec fn turn_entries(m: DashMap<String, u64>) -> Map<Seq<char>, u64>;

/// No sessions at all.
pub open spec fn no_sessions() -> Map<Seq<char>, (Seq<char>, u64)> {
    Map::empty()
}

/// No turns at all.
pub open spec fn no_turns() -> Map<Seq<char>, u64> {
    Map::empty()
}

/// `DashMap::new`: a map without entries.
#[verifier::external_body]
fn new_sessions() -> (r: DashMap<String, StickyEntry>)
    ensures
        sticky_entries(r) == no_sessions(),
{
    DashMap::new()
}

/// `DashMap::insert`: the value under the key is replaced or added.
#[verifier::external_body]
fn put_session(m: &mut DashMap<String, StickyEntry>, session: &str, e: StickyEntry)
    ensures
        sticky_entries(*final(m)) == sticky_entries(*old(m)).insert(
            session@,
            (e.target_key@, e.at),
        ),
{
    let _ = m.insert(session.to_owned(), e);
}

/// `DashMap::get`: a copy of what stands under a key.
#[verifier::external_body]
fn get_session(m: &DashMap<String, StickyEntry>, session: &str) -> (r: Option<(String, u64)>)
    ensures
        match r {
            Some(e) => sticky_entries(*m).contains_key(session@) && sticky_entries(*m)[session@] == (
                e.0@,
                e.1,
            ),
            None => !sticky_entries(*m).contains_key(session@),
        },
{
    m.get(session).map(|e| (e.target_key.clone(), e.at))
}

/// `DashMap::retain`: the entries stay that are `fresh` at `now`.
#[verifier::external_body]
fn keep_fresh_sessions(m: &mut DashMap<String, StickyEntry>, ttl_ns: u64, now_ns: u64)
    ensures
        sticky_entries(*final(m)) == fresh_entries(sticky_entries(*old(m)), ttl_ns, now_ns),
{
    m.retain(|_, e| is_fresh(e.at, ttl_ns, now_ns));
}

/// `DashMap::new`: a map without entries.
#[verifier::external_body]
fn new_turns() -> (r: DashMap<String, u64>)
    ensures
        turn_entries(r) == no_turns(),
{
    DashMap::new()
}

/// `DashMap::insert`: the value under the key is replaced or added.
#[verifier::external_body]
fn put_turn(m: &mut DashMap<String, u64>, route: &str, turn: u64)
    ensures
        turn_entries(*final(m)) == turn_entries(*old(m)).insert(route@, turn),
{
    let _ = m.insert(route.to_owned(), turn);
}

/// `DashMap::get`: a copy of the value under a key.
#[verifier::external_body]
fn get_turn(m: &DashMap<String, u64>, route: &str) -> (r: Option<u64>)
    ensures
        match r {
            Some(v) => turn_entries(*m).contains_key(route@) && turn_entries(*m)[route@] == v,
            None => !turn_entries(*m).contains_key(route@),
        },
{
    m.get(route).map(|e| *e.value())
}

/// Whether an entry is not older than it may be.
pub open spec fn fresh(at: u64, ttl_ns: u64, now_ns: u64) -> bool {
    elapsed(at, now_ns) <= ttl_ns
}

fn is_fresh(at: u64, ttl_ns: u64, now_ns: u64) -> (r: bool)
    ensures
        r == fresh(at, ttl_ns, now_ns),
{
    elapsed_ns(at, now_ns) <= ttl_ns
}

/// The entries that are not older than they may be.
pub open spec fn fresh_entries(
    m: Map<Seq<char>, (Seq<char>, u64)>,
    ttl_ns: u64,
    now_ns: u64,
) -> Map<Seq<char>, (Seq<char>, u64)> {
    m.restrict(Set::new(|k: Seq<char>| m.contains_key(k) && fresh(m[k].1, ttl_ns, now_ns)))
}

/// What is remembered: the sessions and the turns.
pub struct Memory {
    pub sessions: Map<Seq<char>, (Seq<char>, u64)>,
    pub turns: Map<Seq<char>, u64>,
}

/// The memory of routing.
pub struct Affinity {
    sticky: DashMap<String, StickyEntry>,
    turns: DashMap<String, u64>,
    start: Instant,
}

impl View for Affinity {
    type V = Memory;

    closed spec fn view(&self) -> Memory {
        Memory { sessions: sticky_entries(self.sticky), turns: turn_entries(self.turns) }
    }
}

/// The target that a session was served by, where that is not too long ago.
pub open spec fn remembered(m: Memory, session: Seq<char>, ttl_ns: u64, now_ns: u64) -> Option<
    Seq<char>,
> {
    if m.sessions.contains_key(session) && fresh(m.sessions[session].1, ttl_ns, now_ns) {
        Some(m.sessions[session].0)
    } else {
        None
    }
}

/// How often a Route was used.
pub open spec fn turn_of(m: Memory, route: Seq<char>) -> u64 {
    if m.turns.contains_key(route) {
        m.turns[route]
    } else {
        0
    }
}

impl Affinity {
    pub fn new() -> (r: Self)
        ensures
            r@ == (Memory { sessions: no_sessions(), turns: no_turns() }),
    {
        Affinity { sticky: new_sessions(), turns: new_turns(), start: clock_start() }
    }

    /// The nanoseconds since the memory was made, by which its entries are
    /// dated.
    pub fn now_ns(&self) -> u64 {
        nanos_since(&self.start)
    }

    /// Remembers the target that a session was served by at a time.
    pub fn sticky_remember(&mut self, session: &str, target_key: String, now_ns: u64)
        ensures
            final(self)@ == (Memory {
                sessions: old(self)@.sessions.insert(session@, (target_key@, now_ns)),
                ..old(self)@
            }),
    {
        put_session(&mut self.sticky, session, StickyEntry { target_key, at: now_ns });
    }

    /// The target that a session was served by, where that is not too long ago.
    pub fn sticky_lookup(&self, session: &str, ttl_ns: u64, now_ns: u64) -> (r: Option<String>)
        ensures
            match r {
                Some(k) => remembered(self@, session@, ttl_ns, now_ns) == Some(k@),
                None => remembered(self@, session@, ttl_ns, now_ns) is None,
            },
    {
        match get_session(&self.sticky, session) {
            Some((key, at)) => if is_fresh(at, ttl_ns, now_ns) {
                Some(key)
            } else {
                None
            },
            None => None,
        }
    }

    /// Forgets the sessions that were served too long ago.
    pub fn sticky_sweep(&mut self, ttl_ns: u64, now_ns: u64)
        ensures
            final(self)@ == (Memory {
                sessions: fresh_entries(old(self)@.sessions, ttl_ns, now_ns),
                ..old(self)@
            }),
    {
        keep_fresh_sessions(&mut self.sticky, ttl_ns, now_ns);
    }

    /// How often a Route was used before; this use is counted.
    pub fn rr_counter(&mut self, route_id: &str) -> (r: u64)
        ensures
            r == turn_of(old(self)@, route_id@),
            final(self)@ == (Memory {
                turns: old(self)@.turns.insert(route_id@, r.wrapping_add(1)),
                ..old(self)@
            }),
    {
        let turn: u64 = match get_turn(&self.turns, route_id) {
            Some(t) => t,
            None => 0,
        };
        put_turn(&mut self.turns, route_id, turn.wrapping_add(1));
        turn
    }
}

/// What was remembered of a session is found again within its time to live, and
/// remembering one session changes no other.
pub proof fn law_session_is_found_again(
    m: Memory,
    session: Seq<char>,
    target: Seq<char>,
    at: u64,
    other: Seq<char>,
    ttl_ns: u64,
    now_ns: u64,
)
    ensures
        ({
            let after = Memory { sessions: m.sessions.insert(session, (target, at)), ..m };
            &&& remembered(after, session, ttl_ns, now_ns) == (if fresh(at, ttl_ns, now_ns) {
                Some(target)
            } else {
                None
            })
            &&& other != session ==> remembered(after, other, ttl_ns, now_ns) == remembered(
                m,
                other,
                ttl_ns,
                now_ns,
            )
        }),
{
}

/// Sweeping forgets nothing that could still be found.
pub proof fn law_sweep_keeps_what_is_fresh(
    m: Memory,
    session: Seq<char>,
    ttl_ns: u64,
    now_ns: u64,
)
    ensures
        ({
            let after = Memory { sessions: fresh_entries(m.sessions, ttl_ns, now_ns), ..m };
            remembered(after, session, ttl_ns, now_ns) == remembered(m, session, ttl_ns, now_ns)
        }),
{
}

/// A session is remembered for as long as asked, the last moment included, and no
/// longer.
pub proof fn law_sessions_last_as_long_as_asked(
    m: Memory,
    session: Seq<char>,
    target: Seq<char>,
    at: u64,
    ttl_ns: u64,
    now_ns: u64,
)
    requires
        at <= now_ns,
    ensures
        ({
            let after = Memory { sessions: m.sessions.insert(session, (target, at)), ..m };
            &&& now_ns - at <= ttl_ns ==> remembered(after, session, ttl_ns, now_ns) == Some(target)
            &&& now_ns - at > ttl_ns ==> remembered(after, session, ttl_ns, now_ns) is None
        }),
        !m.sessions.contains_key(session) ==> remembered(m, session, ttl_ns, now_ns) is None,
{
}

/// A sweep throws out what is no longer fresh, and only that.
pub proof fn law_sweep_throws_out_the_stale(
    m: Memory,
    session: Seq<char>,
    ttl_ns: u64,
    now_ns: u64,
)
    requires
        m.sessions.contains_key(session),
        m.sessions[session].1 <= now_ns,
    ensures
        ({
            let after = fresh_entries(m.sessions, ttl_ns, now_ns);
            &&& after.contains_key(session) <==> now_ns - m.sessions[session].1 <= ttl_ns
            &&& after.contains_key(session) ==> after[session] == m.sessions[session]
        }),
{
}

/// The turns of a route begin at zero and are counted for each route on its own.
pub proof fn law_turns_are_counted(m: Memory, route: Seq<char>, other: Seq<char>, turn: u64)
    ensures
        ({
            let after = Memory { turns: m.turns.insert(route, turn), ..m };
            &&& turn_of(after, route) == turn
            &&& other != route ==> turn_of(after, other) == turn_of(m, other)
        }),
        !m.turns.contains_key(route) ==> turn_of(m, route) == 0,
{
}

} // verus!
