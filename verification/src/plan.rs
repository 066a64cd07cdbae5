//! Which targets a request may try, and in what order.

use crate::clock::Timestamp;
use crate::order::{comes_before, is_stable_order, order_by_key, rotate_left, rotated};
use crate::pool::{status_at, status_when, AccountStatus};
use crate::registry::ResolvedTarget;
use crate::text::{same, views};
use crate::types::{is_error, AccountRow, ErrorKind, Message, Part, ProxyError};
use rand::seq::SliceRandom;
use rand::Rng;
use vstd::prelude::*;

verus! {

/// `SliceRandom::shuffle` with the thread's generator: the items are
/// rearranged, nobody knows how.
#[verifier::external_body]
fn shuffle(items: &mut Vec<usize>)
    ensures
        final(items)@.to_multiset() == old(items)@.to_multiset(),
{
    items.shuffle(&mut rand::thread_rng());
}

/// `Rng::gen_range` with the thread's generator: some number from zero up to a
/// limit, the limit left out. It panics where there is no such number.
#[verifier::external_body]
fn random_below(limit: i64) -> (r: i64)
    requires
        limit > 0,
    ensures
        0 <= r < limit,
{
    rand::thread_rng().gen_range(0..limit)
}

/// The rows at some positions, in the order of the positions.
pub open spec fn picked<T>(rows: Seq<T>, order: Seq<usize>) -> Seq<T> {
    Seq::new(order.len(), |i: int| rows[order[i] as int])
}

/// Whether `out` holds the rows sorted by their keys, those of one key as they
/// stood.
pub open spec fn sorted_by<T>(rows: Seq<T>, keys: Seq<i128>, out: Seq<T>) -> bool {
    exists|order: Seq<usize>| #[trigger] is_stable_order(keys, order) && out == picked(rows, order)
}

/// The accounts that are healthy at a time, in order.
pub open spec fn healthy_accounts(accounts: Seq<AccountRow>, now: Timestamp) -> Seq<AccountRow> {
    accounts.filter(|a: AccountRow| status_when(a, now) == AccountStatus::Healthy)
}

/// The priorities of some accounts.
pub open spec fn account_priorities(accounts: Seq<AccountRow>) -> Seq<i128> {
    accounts.map_values(|a: AccountRow| a.priority as i128)
}

/// The positions from zero up to `n`.
pub open spec fn positions(n: nat) -> Seq<usize> {
    Seq::new(n, |i: int| i as usize)
}

/// Whether `order` lists the positions from zero up to `n`, each once.
pub open spec fn is_rearrangement(order: Seq<usize>, n: nat) -> bool {
    order.to_multiset() == positions(n).to_multiset()
}

proof fn lemma_rearrangement(order: Seq<usize>, n: nat)
    requires
        is_rearrangement(order, n),
        n <= usize::MAX,
    ensures
        order.len() == n,
        forall|i: int| 0 <= i < order.len() ==> (#[trigger] order[i]) < n,
{
    broadcast use vstd::seq_lib::group_to_multiset_ensures;

    let p = positions(n);
    assert(order.to_multiset().len() == order.len());
    assert(p.to_multiset().len() == p.len());
    assert forall|i: int| 0 <= i < order.len() implies (#[trigger] order[i]) < n by {
        assert(order.contains(order[i]));
        assert(order.to_multiset().contains(order[i]));
        assert(p.to_multiset().contains(order[i]));
        assert(p.contains(order[i]));
        let k = choose|k: int| 0 <= k < p.len() && p[k] == order[i];
        assert(p[k] == k as usize);
    }
}

fn pick_accounts(rows: &Vec<AccountRow>, order: &Vec<usize>) -> (r: Vec<AccountRow>)
    requires
        forall|i: int| 0 <= i < order@.len() ==> (#[trigger] order@[i]) < rows@.len(),
    ensures
        r@ == picked(rows@, order@),
{
    let mut out: Vec<AccountRow> = Vec::new();
    let mut i: usize = 0;
    while i < order.len()
        invariant
            i <= order@.len(),
            forall|k: int| 0 <= k < order@.len() ==> (#[trigger] order@[k]) < rows@.len(),
            out@.len() == i,
            forall|k: int| 0 <= k < i ==> (#[trigger] out@[k]) == rows@[order@[k] as int],
        decreases order@.len() - i,
    {
        assert(order@[i as int] < rows@.len());
        out.push(rows[order[i]].clone());
        i = i + 1;
    }
    assert(out@ =~= picked(rows@, order@));
    out
}

fn pick_targets(rows: &Vec<ResolvedTarget>, order: &Vec<usize>) -> (r: Vec<ResolvedTarget>)
    requires
        forall|i: int| 0 <= i < order@.len() ==> (#[trigger] order@[i]) < rows@.len(),
    ensures
        r@ == picked(rows@, order@),
{
    let mut out: Vec<ResolvedTarget> = Vec::new();
    let mut i: usize = 0;
    while i < order.len()
        invariant
            i <= order@.len(),
            forall|k: int| 0 <= k < order@.len() ==> (#[trigger] order@[k]) < rows@.len(),
            out@.len() == i,
            forall|k: int| 0 <= k < i ==> (#[trigger] out@[k]) == rows@[order@[k] as int],
        decreases order@.len() - i,
    {
        assert(order@[i as int] < rows@.len());
        out.push(rows[order[i]].clone());
        i = i + 1;
    }
    assert(out@ =~= picked(rows@, order@));
    out
}

fn keep_healthy(accounts: &Vec<AccountRow>, now: Timestamp) -> (r: Vec<AccountRow>)
    ensures
        r@ == healthy_accounts(accounts@, now),
{
    let mut out: Vec<AccountRow> = Vec::new();
    let mut i: usize = 0;
    proof {
        reveal(Seq::filter);
        assert(accounts@.take(0).len() == 0);
    }
    while i < accounts.len()
        invariant
            i <= accounts@.len(),
            out@ == healthy_accounts(accounts@.take(i as int), now),
        decreases accounts@.len() - i,
    {
        proof {
            reveal(Seq::filter);
            assert(accounts@.take(i + 1).drop_last() =~= accounts@.take(i as int));
        }
        if matches!(status_at(&accounts[i], now), AccountStatus::Healthy) {
            out.push(accounts[i].clone());
        }
        i = i + 1;
    }
    assert(accounts@.take(accounts@.len() as int) =~= accounts@);
    out
}

/// Rearranges accounts as `order` says and then sorts them by priority; those
/// of one priority stay as rearranged.
pub fn arrange_accounts(accounts: &Vec<AccountRow>, order: &Vec<usize>) -> (r: Vec<AccountRow>)
    requires
        forall|i: int| 0 <= i < order@.len() ==> (#[trigger] order@[i]) < accounts@.len(),
    ensures
        sorted_by(
            picked(accounts@, order@),
            account_priorities(picked(accounts@, order@)),
            r@,
        ),
{
    let mixed = pick_accounts(accounts, order);
    let mut keys: Vec<i128> = Vec::new();
    let mut i: usize = 0;
    while i < mixed.len()
        invariant
            i <= mixed@.len(),
            keys@.len() == i,
            forall|k: int| 0 <= k < i ==> (#[trigger] keys@[k]) == mixed@[k].priority,
        decreases mixed@.len() - i,
    {
        keys.push(mixed[i].priority as i128);
        i = i + 1;
    }
    assert(keys@ =~= account_priorities(mixed@));
    let sorted = order_by_key(&keys);
    pick_accounts(&mixed, &sorted)
}

/// Zero for the preferred account, one for any other.
pub open spec fn preference_keys(accounts: Seq<AccountRow>, preferred: Seq<char>) -> Seq<i128> {
    accounts.map_values(
        |a: AccountRow|
            if a.id@ == preferred {
                0i128
            } else {
                1i128
            },
    )
}

fn prefer_account(accounts: &Vec<AccountRow>, preferred: &str) -> (r: Vec<AccountRow>)
    ensures
        sorted_by(accounts@, preference_keys(accounts@, preferred@), r@),
{
    let mut keys: Vec<i128> = Vec::new();
    let mut i: usize = 0;
    while i < accounts.len()
        invariant
            i <= accounts@.len(),
            keys@.len() == i,
            forall|k: int|
                0 <= k < i ==> (#[trigger] keys@[k]) == (if accounts@[k].id@ == preferred@ {
                    0i128
                } else {
                    1i128
                }),
        decreases accounts@.len() - i,
    {
        keys.push(
            if same(accounts[i].id.as_str(), preferred) {
                0
            } else {
                1
            },
        );
        i = i + 1;
    }
    assert(keys@ =~= preference_keys(accounts@, preferred@));
    let sorted = order_by_key(&keys);
    pick_accounts(accounts, &sorted)
}

/// The accounts of a provider that a request may try: the healthy ones, the
/// preferred one first where there is one, else by priority and at random
/// within a priority. Where none is healthy all are listed, so that the caller
/// can say when one comes back.
pub fn select_accounts(accounts: Vec<AccountRow>, preferred: Option<&str>, now: Timestamp) -> (r: Vec<
    AccountRow,
>)
    ensures
        ({
            let healthy = healthy_accounts(accounts@, now);
            if healthy.len() == 0 {
                r@ == accounts@
            } else {
                match preferred {
                    Some(p) => sorted_by(healthy, preference_keys(healthy, p@), r@),
                    None => exists|order: Seq<usize>| #[trigger]
                        is_rearrangement(order, healthy.len()) && sorted_by(
                            picked(healthy, order),
                            account_priorities(picked(healthy, order)),
                            r@,
                        ),
                }
            }
        }),
{
    let healthy = keep_healthy(&accounts, now);
    if healthy.len() == 0 {
        return accounts;
    }
    match preferred {
        Some(p) => {
            let out = prefer_account(&healthy, p);
            assert(sorted_by(healthy@, preference_keys(healthy@, p@), out@));
            out
        },
        None => {
            let mut order: Vec<usize> = Vec::new();
            let mut i: usize = 0;
            while i < healthy.len()
                invariant
                    i <= healthy@.len(),
                    order@ == positions(i as nat),
                decreases healthy@.len() - i,
            {
                assert(positions(i as nat).push(i) =~= positions((i + 1) as nat));
                order.push(i);
                i = i + 1;
            }
            shuffle(&mut order);
            proof {
                assert(is_rearrangement(order@, healthy@.len()));
                lemma_rearrangement(order@, healthy@.len());
            }
            let out = arrange_accounts(&healthy, &order);
            assert(is_rearrangement(order@, healthy@.len()) && sorted_by(
                picked(healthy@, order@),
                account_priorities(picked(healthy@, order@)),
                out@,
            ));
            out
        },
    }
}

/// The weight of a target, at least one.
pub open spec fn weight_of(t: ResolvedTarget) -> int {
    if t.weight < 1 {
        1
    } else {
        t.weight as int
    }
}

/// The weights of some targets taken together.
pub open spec fn total_weight(targets: Seq<ResolvedTarget>) -> int
    decreases targets.len(),
{
    if targets.len() == 0 {
        0
    } else {
        total_weight(targets.drop_last()) + weight_of(targets.last())
    }
}

/// Whether `at` is the target that a number below the total weight falls on:
/// the first one whose weight, with those before it, exceeds the number.
pub open spec fn falls_on(targets: Seq<ResolvedTarget>, pick: int, at: int) -> bool {
    &&& 0 <= at < targets.len()
    &&& total_weight(targets.take(at)) <= pick < total_weight(targets.take(at + 1))
}

/// The priorities of some targets.
pub open spec fn target_priorities(targets: Seq<ResolvedTarget>) -> Seq<i128> {
    targets.map_values(|t: ResolvedTarget| t.priority as i128)
}

/// Use counts first, priorities second.
pub open spec fn use_keys(targets: Seq<ResolvedTarget>, uses: Seq<i64>) -> Seq<i128> {
    Seq::new(
        targets.len(),
        |i: int|
            (uses[i] * 0x1_0000_0000_0000_0000 + (targets[i].priority + 0x8000_0000_0000_0000)) as i128,
    )
}

/// Whether `out` holds the targets in the order of a strategy. `turn` counts
/// the requests of the Route, `pick` is the number drawn for a weighted choice,
/// and `uses` are the use counts of the targets' accounts.
pub open spec fn is_ordered(
    strategy: Seq<char>,
    targets: Seq<ResolvedTarget>,
    turn: u64,
    pick: int,
    uses: Seq<i64>,
    out: Seq<ResolvedTarget>,
) -> bool {
    if strategy == "round-robin"@ {
        out == (if targets.len() == 0 {
            targets
        } else {
            rotated(targets, turn as int % targets.len() as int)
        })
    } else if strategy == "weighted"@ {
        if targets.len() == 0 {
            out == targets
        } else {
            exists|at: int| #[trigger] falls_on(targets, pick, at) && out == rotated(targets, at)
        }
    } else if strategy == "least-used"@ {
        sorted_by(targets, use_keys(targets, uses), out)
    } else {
        sorted_by(targets, target_priorities(targets), out)
    }
}

proof fn lemma_total_weight(targets: Seq<ResolvedTarget>, i: int)
    requires
        0 <= i < targets.len(),
    ensures
        total_weight(targets.take(i + 1)) == total_weight(targets.take(i)) + weight_of(targets[i]),
{
    assert(targets.take(i + 1).drop_last() =~= targets.take(i));
}

proof fn lemma_weight_grows(targets: Seq<ResolvedTarget>, i: int, j: int)
    requires
        0 <= i <= j <= targets.len(),
    ensures
        total_weight(targets.take(i)) <= total_weight(targets.take(j)),
        i <= total_weight(targets.take(i)),
    decreases j,
{
    if i < j {
        lemma_weight_grows(targets, i, j - 1);
        lemma_total_weight(targets, j - 1);
    } else if i > 0 {
        lemma_weight_grows(targets, i - 1, i - 1);
        lemma_total_weight(targets, i - 1);
    } else {
        assert(targets.take(0).len() == 0);
    }
}

/// The weights of some targets taken together.
pub fn sum_weights(targets: &Vec<ResolvedTarget>) -> (r: i64)
    requires
        total_weight(targets@) <= i64::MAX,
    ensures
        r == total_weight(targets@),
        r >= targets@.len(),
{
    let mut sum: i64 = 0;
    let mut i: usize = 0;
    assert(targets@.take(0).len() == 0);
    while i < targets.len()
        invariant
            i <= targets@.len(),
            total_weight(targets@) <= i64::MAX,
            sum == total_weight(targets@.take(i as int)),
            sum >= i,
        decreases targets@.len() - i,
    {
        proof {
            lemma_total_weight(targets@, i as int);
            lemma_weight_grows(targets@, i + 1, targets@.len() as int);
            assert(targets@.take(targets@.len() as int) =~= targets@);
        }
        let w: i64 = if targets[i].weight < 1 {
            1
        } else {
            targets[i].weight
        };
        sum = sum + w;
        i = i + 1;
    }
    assert(targets@.take(targets@.len() as int) =~= targets@);
    sum
}

fn weighted_place(targets: &Vec<ResolvedTarget>, pick: i64) -> (r: usize)
    requires
        0 <= pick < total_weight(targets@) <= i64::MAX,
    ensures
        falls_on(targets@, pick as int, r as int),
{
    let mut sum: i64 = 0;
    let mut i: usize = 0;
    assert(targets@.take(0).len() == 0);
    while i < targets.len()
        invariant
            i <= targets@.len(),
            total_weight(targets@) <= i64::MAX,
            pick < total_weight(targets@),
            sum == total_weight(targets@.take(i as int)),
            0 <= sum <= pick,
        decreases targets@.len() - i,
    {
        proof {
            lemma_total_weight(targets@, i as int);
            lemma_weight_grows(targets@, i + 1, targets@.len() as int);
            assert(targets@.take(targets@.len() as int) =~= targets@);
        }
        let w: i64 = if targets[i].weight < 1 {
            1
        } else {
            targets[i].weight
        };
        sum = sum + w;
        if pick < sum {
            return i;
        }
        i = i + 1;
    }
    assert(targets@.take(targets@.len() as int) =~= targets@);
    0
}

/// Whether the numbers behind an ordering fit: a use count for each target, and
/// a pick below the total weight.
pub open spec fn order_inputs(
    strategy: Seq<char>,
    targets: Seq<ResolvedTarget>,
    pick: int,
    uses: Seq<i64>,
) -> bool {
    &&& strategy == "weighted"@ && targets.len() > 0 ==> 0 <= pick < total_weight(targets)
        <= i64::MAX
    &&& strategy == "least-used"@ ==> uses.len() == targets.len()
}

/// Orders the targets of a Route by its strategy, on the number drawn for a
/// weighted choice.
pub fn order_targets(
    strategy: &str,
    targets: Vec<ResolvedTarget>,
    turn: u64,
    pick: i64,
    uses: &Vec<i64>,
) -> (r: Vec<ResolvedTarget>)
    requires
        order_inputs(strategy@, targets@, pick as int, uses@),
    ensures
        is_ordered(strategy@, targets@, turn, pick as int, uses@, r@),
{
    proof {
        reveal_strlit("round-robin");
        reveal_strlit("weighted");
        reveal_strlit("least-used");
    }
    if same(strategy, "round-robin") {
        if targets.len() == 0 {
            return targets;
        }
        let offset: usize = (turn % (targets.len() as u64)) as usize;
        rotate_left(targets, offset)
    } else if same(strategy, "weighted") {
        if targets.len() == 0 {
            return targets;
        }
        let at = weighted_place(&targets, pick);
        rotate_left(targets, at)
    } else if same(strategy, "least-used") {
        let mut keys: Vec<i128> = Vec::new();
        let mut i: usize = 0;
        while i < targets.len()
            invariant
                i <= targets@.len(),
                uses@.len() == targets@.len(),
                keys@.len() == i,
                forall|k: int|
                    0 <= k < i ==> (#[trigger] keys@[k]) == uses@[k] * 0x1_0000_0000_0000_0000
                        + (targets@[k].priority + 0x8000_0000_0000_0000),
            decreases targets@.len() - i,
        {
            keys.push(
                uses[i] as i128 * 0x1_0000_0000_0000_0000 + (targets[i].priority as i128
                    + 0x8000_0000_0000_0000),
            );
            i = i + 1;
        }
        assert(keys@ =~= use_keys(targets@, uses@));
        let sorted = order_by_key(&keys);
        pick_targets(&targets, &sorted)
    } else {
        let mut keys: Vec<i128> = Vec::new();
        let mut i: usize = 0;
        while i < targets.len()
            invariant
                i <= targets@.len(),
                keys@.len() == i,
                forall|k: int| 0 <= k < i ==> (#[trigger] keys@[k]) == targets@[k].priority,
            decreases targets@.len() - i,
        {
            keys.push(targets[i].priority as i128);
            i = i + 1;
        }
        assert(keys@ =~= target_priorities(targets@));
        let sorted = order_by_key(&keys);
        pick_targets(&targets, &sorted)
    }
}

/// Orders the targets of a Route by its strategy. A weighted choice is drawn at
/// random.
pub fn order_route_targets(
    strategy: &str,
    targets: Vec<ResolvedTarget>,
    turn: u64,
    uses: &Vec<i64>,
) -> (r: Vec<ResolvedTarget>)
    requires
        strategy@ == "weighted"@ ==> total_weight(targets@) <= i64::MAX,
        strategy@ == "least-used"@ ==> uses@.len() == targets@.len(),
    ensures
        exists|pick: int| #[trigger] is_ordered(strategy@, targets@, turn, pick, uses@, r@),
{
    let pick: i64 = if same(strategy, "weighted") && targets.len() > 0 {
        let total = sum_weights(&targets);
        random_below(total)
    } else {
        0
    };
    order_targets(strategy, targets, turn, pick, uses)
}

/// Every order holds exactly the targets of the Route: none is lost and none
/// doubled.
pub proof fn law_ordering_keeps_targets(
    strategy: Seq<char>,
    targets: Seq<ResolvedTarget>,
    turn: u64,
    pick: int,
    uses: Seq<i64>,
    out: Seq<ResolvedTarget>,
)
    requires
        is_ordered(strategy, targets, turn, pick, uses, out),
        targets.len() <= usize::MAX,
    ensures
        out.len() == targets.len(),
        forall|t: ResolvedTarget| targets.contains(t) == out.contains(t),
{
    if strategy == "round-robin"@ {
        if targets.len() > 0 {
            lemma_rotated(targets, turn as int % targets.len() as int);
        }
    } else if strategy == "weighted"@ {
        if targets.len() > 0 {
            let at = choose|at: int| #[trigger]
                falls_on(targets, pick, at) && out == rotated(targets, at);
            lemma_rotated(targets, at);
        }
    } else {
        let keys = if strategy == "least-used"@ {
            use_keys(targets, uses)
        } else {
            target_priorities(targets)
        };
        let order = choose|order: Seq<usize>| #[trigger]
            is_stable_order(keys, order) && out == picked(targets, order);
        lemma_stable_order_covers(keys, order);
        assert forall|t: ResolvedTarget| targets.contains(t) == out.contains(t) by {
            if targets.contains(t) {
                let i = choose|i: int| 0 <= i < targets.len() && targets[i] == t;
                assert(order.contains(i as usize));
                let k = choose|k: int| 0 <= k < order.len() && order[k] == i as usize;
                assert(out[k] == t);
            }
            if out.contains(t) {
                let k = choose|k: int| 0 <= k < out.len() && out[k] == t;
                assert(targets[order[k] as int] == t);
            }
        }
    }
}

proof fn lemma_rotated<T>(s: Seq<T>, offset: int)
    requires
        0 <= offset <= s.len(),
    ensures
        rotated(s, offset).len() == s.len(),
        forall|t: T| s.contains(t) == rotated(s, offset).contains(t),
{
    let r = rotated(s, offset);
    assert forall|t: T| s.contains(t) == r.contains(t) by {
        if s.contains(t) {
            let i = choose|i: int| 0 <= i < s.len() && s[i] == t;
            if i >= offset {
                assert(r[i - offset] == t);
            } else {
                assert(r[s.len() - offset + i] == t);
            }
        }
        if r.contains(t) {
            let i = choose|i: int| 0 <= i < r.len() && r[i] == t;
            if i < s.len() - offset {
                assert(s[i + offset] == t);
            } else {
                assert(s[i - (s.len() - offset)] == t);
            }
        }
    }
}

proof fn lemma_stable_order_covers(keys: Seq<i128>, order: Seq<usize>)
    requires
        is_stable_order(keys, order),
    ensures
        forall|i: usize| i < keys.len() ==> order.contains(i),
{
    let n = keys.len();
    assert(order.no_duplicates()) by {
        assert forall|a: int, b: int| 0 <= a < order.len() && 0 <= b < order.len() && a != b implies order[a]
            != order[b] by {
            if a < b {
                assert(comes_before(keys, order[a], order[b]));
            } else {
                assert(comes_before(keys, order[b], order[a]));
            }
        }
    }
    let full = vstd::set_lib::set_int_range(0, n as int);
    vstd::set_lib::lemma_int_range(0, n as int);
    let seen = order.map_values(|i: usize| i as int);
    assert(seen.no_duplicates());
    seen.unique_seq_to_set();
    assert(seen.to_set().subset_of(full)) by {
        assert forall|x: int| seen.to_set().contains(x) implies full.contains(x) by {
            let k = choose|k: int| 0 <= k < seen.len() && seen[k] == x;
            assert(order[k] < keys.len());
        }
    }
    vstd::set_lib::lemma_subset_equality(seen.to_set(), full);
    assert forall|i: usize| i < n implies order.contains(i) by {
        assert(full.contains(i as int));
        assert(seen.to_set().contains(i as int));
        let k = choose|k: int| 0 <= k < seen.len() && seen[k] == i as int;
        assert(order[k] == i);
    }
}

/// What decides whether a request may try a target, besides the target itself.
#[derive(Debug, Clone, Copy, PartialEq, Eq, Structural)]
pub struct TargetFit {
    /// The Route's predicate lets the target serve.
    pub eligible: bool,
    /// The model can do what the request needs.
    pub capable: bool,
}

/// Whether a request of so many input tokens may try a target: its predicate
/// allows it, the key may use its provider, a strict provider's model can do
/// what is needed, and the request fits the context window.
pub open spec fn fits(
    t: ResolvedTarget,
    fit: TargetFit,
    allowed_providers: Seq<Seq<char>>,
    input_tokens: u64,
) -> bool {
    &&& fit.eligible
    &&& allowed_providers.len() == 0 || allowed_providers.contains(t.provider.id@)
    &&& fit.capable || t.provider.capability_mode@ != "strict"@
    &&& !(t.model.context_window matches Some(w) && w > 0 && input_tokens > w)
}

/// The targets that a request may try, in order.
pub open spec fn fitting(
    targets: Seq<ResolvedTarget>,
    facts: Seq<TargetFit>,
    allowed_providers: Seq<Seq<char>>,
    input_tokens: u64,
) -> Seq<ResolvedTarget>
    decreases targets.len(),
{
    if targets.len() == 0 {
        targets
    } else {
        let before = fitting(targets.drop_last(), facts, allowed_providers, input_tokens);
        if fits(targets.last(), facts[targets.len() - 1], allowed_providers, input_tokens) {
            before.push(targets.last())
        } else {
            before
        }
    }
}

fn holds_text(list: &Vec<String>, wanted: &str) -> (r: bool)
    ensures
        r == views(list@).contains(wanted@),
{
    let mut i: usize = 0;
    while i < list.len()
        invariant
            i <= list@.len(),
            forall|k: int| 0 <= k < i ==> (#[trigger] list@[k])@ != wanted@,
        decreases list@.len() - i,
    {
        if same(list[i].as_str(), wanted) {
            assert(views(list@)[i as int] == wanted@);
            return true;
        }
        i = i + 1;
    }
    proof {
        if views(list@).contains(wanted@) {
            let k = choose|k: int| 0 <= k < views(list@).len() && views(list@)[k] == wanted@;
            assert(list@[k]@ == wanted@);
        }
    }
    false
}

fn may_try(t: &ResolvedTarget, fit: TargetFit, allowed_providers: &Vec<String>, input_tokens: u64) -> (r:
    bool)
    ensures
        r == fits(*t, fit, views(allowed_providers@), input_tokens),
{
    if !fit.eligible {
        return false;
    }
    if allowed_providers.len() > 0 && !holds_text(allowed_providers, t.provider.id.as_str()) {
        return false;
    }
    if !fit.capable && same(t.provider.capability_mode.as_str(), "strict") {
        return false;
    }
    match t.model.context_window {
        Some(w) => !(w > 0 && input_tokens > w as u64),
        None => true,
    }
}

/// The targets that a request may try, in order; an error where there is none.
pub fn filter_targets(
    targets: &Vec<ResolvedTarget>,
    facts: &Vec<TargetFit>,
    allowed_providers: &Vec<String>,
    input_tokens: u64,
) -> (r: Result<Vec<ResolvedTarget>, ProxyError>)
    requires
        facts@.len() == targets@.len(),
    ensures
        ({
            let left = fitting(targets@, facts@, views(allowed_providers@), input_tokens);
            match r {
                Ok(v) => left.len() > 0 && v@ == left,
                Err(e) => left.len() == 0 && is_error(
                    e,
                    ErrorKind::Unsupported,
                    "no configured target can satisfy this request (capabilities or limits mismatch)"@,
                    None,
                ),
            }
        }),
{
    let mut out: Vec<ResolvedTarget> = Vec::new();
    let mut i: usize = 0;
    assert(targets@.take(0).len() == 0);
    while i < targets.len()
        invariant
            i <= targets@.len(),
            facts@.len() == targets@.len(),
            out@ == fitting(
                targets@.take(i as int),
                facts@,
                views(allowed_providers@),
                input_tokens,
            ),
        decreases targets@.len() - i,
    {
        assert(targets@.take(i + 1).drop_last() =~= targets@.take(i as int));
        if may_try(&targets[i], facts[i], allowed_providers, input_tokens) {
            out.push(targets[i].clone());
        }
        i = i + 1;
    }
    assert(targets@.take(targets@.len() as int) =~= targets@);
    if out.len() == 0 {
        return Err(
            ProxyError::new(
                ErrorKind::Unsupported,
                "no configured target can satisfy this request (capabilities or limits mismatch)".to_owned(),
            ),
        );
    }
    Ok(out)
}

/// How many targets a request may try: what the Route says, else all of them,
/// but at most five and at least one. A negative number says five.
pub open spec fn attempts_allowed(configured: Option<i64>, targets: int) -> int {
    let wanted = match configured {
        Some(m) => if m < 0 {
            5
        } else {
            m as int
        },
        None => targets,
    };
    if wanted > 5 {
        5
    } else if wanted < 1 {
        1
    } else {
        wanted
    }
}

/// How many targets a request may try.
pub fn max_attempts(configured: Option<i64>, targets: usize) -> (r: usize)
    ensures
        r == attempts_allowed(configured, targets as int),
        1 <= r <= 5,
{
    match configured {
        Some(m) => if m < 0 || m > 5 {
            5
        } else if m < 1 {
            1
        } else {
            m as usize
        },
        None => if targets > 5 {
            5
        } else if targets < 1 {
            1
        } else {
            targets
        },
    }
}

/// Whether a part is, or carries, state that only one provider understands.
pub open spec fn is_opaque(p: Part) -> bool {
    p is Thinking || (p matches Part::ToolCall { signature, .. } && signature is Some)
}

/// Whether a conversation carries state that only one provider understands.
pub open spec fn carries_opaque(messages: Seq<Message>) -> bool {
    exists|i: int, j: int|
        0 <= i < messages.len() && 0 <= j < messages[i].parts@.len() && is_opaque(
            #[trigger] messages[i].parts@[j],
        )
}

/// A part without the signature of a tool call.
pub open spec fn unsigned(p: Part) -> Part {
    match p {
        Part::ToolCall { id, name, arguments, signature: _ } => Part::ToolCall {
            id,
            name,
            arguments,
            signature: None,
        },
        other => other,
    }
}

/// The parts that every provider understands: no thinking, no signatures.
pub open spec fn portable(parts: Seq<Part>) -> Seq<Part>
    decreases parts.len(),
{
    if parts.len() == 0 {
        parts
    } else {
        let before = portable(parts.drop_last());
        if parts.last() is Thinking {
            before
        } else {
            before.push(unsigned(parts.last()))
        }
    }
}

/// Whether a continuity policy strips opaque state on a fallback to another
/// provider.
pub open spec fn strips(policy: Seq<char>) -> bool {
    policy == "convert"@ || policy == "strip"@ || policy == "strip_with_warning"@
}

/// Whether a continuity policy strips opaque state.
pub fn strips_state(policy: &str) -> (r: bool)
    ensures
        r == strips(policy@),
{
    same(policy, "convert") || same(policy, "strip") || same(policy, "strip_with_warning")
}

fn strip_parts(parts: Vec<Part>) -> (r: Vec<Part>)
    ensures
        r@ == portable(parts@),
{
    let ghost all = parts@;
    let mut out: Vec<Part> = Vec::new();
    assert(all.take(0).len() == 0);
    for p in it: parts.into_iter()
        invariant
            it.seq() == all,
            out@ == portable(all.take(it.index())),
    {
        assert(all.take(it.index() + 1).drop_last() =~= all.take(it.index()));
        assert(all.take(it.index() + 1).last() == p);
        match p {
            Part::Thinking { .. } => {},
            Part::ToolCall { id, name, arguments, signature: _ } => {
                out.push(Part::ToolCall { id, name, arguments, signature: None });
            },
            other => {
                out.push(other);
            },
        }
    }
    assert(all.take(all.len() as int) =~= all);
    out
}

/// Applies a continuity policy to a conversation that goes on with another
/// provider: a stripping policy removes what only one provider understands,
/// any other leaves the conversation as it is.
pub fn apply_continuity(messages: Vec<Message>, policy: &str) -> (r: Vec<Message>)
    ensures
        r@.len() == messages@.len(),
        !strips(policy@) ==> r@ == messages@,
        strips(policy@) ==> forall|i: int|
            0 <= i < messages@.len() ==> (#[trigger] r@[i]).role == messages@[i].role
                && r@[i].parts@ == portable(messages@[i].parts@),
{
    if !strips_state(policy) {
        return messages;
    }
    let ghost all = messages@;
    let mut out: Vec<Message> = Vec::new();
    for m in it: messages.into_iter()
        invariant
            it.seq() == all,
            out@.len() == it.index(),
            forall|i: int|
                0 <= i < it.index() ==> (#[trigger] out@[i]).role == all[i].role && out@[i].parts@
                    == portable(all[i].parts@),
    {
        out.push(Message { role: m.role, parts: strip_parts(m.parts) });
    }
    out
}

proof fn lemma_portable(parts: Seq<Part>)
    ensures
        forall|i: int| 0 <= i < portable(parts).len() ==> !is_opaque(#[trigger] portable(parts)[i]),
        (forall|i: int| 0 <= i < parts.len() ==> !is_opaque(#[trigger] parts[i])) ==> portable(
            parts,
        ) == parts,
    decreases parts.len(),
{
    if parts.len() > 0 {
        let head = parts.drop_last();
        lemma_portable(head);
        let f = portable(parts);
        assert forall|i: int| 0 <= i < f.len() implies !is_opaque(#[trigger] f[i]) by {
            if i < portable(head).len() {
                assert(f[i] == portable(head)[i]);
            }
        }
        if forall|i: int| 0 <= i < parts.len() ==> !is_opaque(#[trigger] parts[i]) {
            assert forall|i: int| 0 <= i < head.len() implies !is_opaque(#[trigger] head[i]) by {
                assert(head[i] == parts[i]);
            }
            assert(!is_opaque(parts[parts.len() - 1]));
            assert(unsigned(parts.last()) == parts.last());
            assert(f =~= parts);
        }
    }
}

/// What a stripping policy leaves carries no opaque state, and stripping twice
/// is stripping once.
pub proof fn law_stripped_is_portable(parts: Seq<Part>)
    ensures
        forall|i: int| 0 <= i < portable(parts).len() ==> !is_opaque(#[trigger] portable(parts)[i]),
        portable(portable(parts)) == portable(parts),
{
    lemma_portable(parts);
    lemma_portable(portable(parts));
}

/// Whether a conversation carries state that only one provider understands.
pub fn has_opaque_state(messages: &Vec<Message>) -> (r: bool)
    ensures
        r == carries_opaque(messages@),
{
    let mut i: usize = 0;
    while i < messages.len()
        invariant
            i <= messages@.len(),
            forall|a: int, b: int|
                0 <= a < i && 0 <= b < messages@[a].parts@.len() ==> !is_opaque(
                    #[trigger] messages@[a].parts@[b],
                ),
        decreases messages@.len() - i,
    {
        let parts = &messages[i].parts;
        let mut j: usize = 0;
        while j < parts.len()
            invariant
                i < messages@.len(),
                *parts == messages@[i as int].parts,
                j <= parts@.len(),
                forall|b: int| 0 <= b < j ==> !is_opaque(#[trigger] parts@[b]),
            decreases parts@.len() - j,
        {
            let opaque = match &parts[j] {
                Part::Thinking { .. } => true,
                Part::ToolCall { signature, .. } => signature.is_some(),
                _ => false,
            };
            if opaque {
                assert(is_opaque(messages@[i as int].parts@[j as int]));
                return true;
            }
            j = j + 1;
        }
        i = i + 1;
    }
    false
}

/// Only a strict provider asks for capabilities: a target of any other is kept or
/// dropped whatever its model can do, and one whose model can do what is needed
/// is kept or dropped whatever its provider asks.
pub proof fn law_only_strict_providers_ask_for_capabilities(
    t: ResolvedTarget,
    fit: TargetFit,
    allowed: Seq<Seq<char>>,
    tokens: u64,
)
    ensures
        t.provider.capability_mode@ != "strict"@ ==> fits(
            t,
            TargetFit { capable: true, ..fit },
            allowed,
            tokens,
        ) == fits(t, TargetFit { capable: false, ..fit }, allowed, tokens),
        t.provider.capability_mode@ == "strict"@ && !fit.capable ==> !fits(t, fit, allowed, tokens),
        fit.eligible && allowed.len() == 0 && t.model.context_window is None && (fit.capable
            || t.provider.capability_mode@ != "strict"@) ==> fits(t, fit, allowed, tokens),
        !fit.eligible ==> !fits(t, fit, allowed, tokens),
{
}

/// A key's list of providers rules out the others and nothing else, and an empty
/// list rules out nothing.
pub proof fn law_provider_lists_rule_out_the_others(
    t: ResolvedTarget,
    fit: TargetFit,
    allowed: Seq<Seq<char>>,
    tokens: u64,
)
    ensures
        allowed.contains(t.provider.id@) ==> fits(t, fit, allowed, tokens) == fits(
            t,
            fit,
            Seq::empty(),
            tokens,
        ),
        allowed.len() > 0 && !allowed.contains(t.provider.id@) ==> !fits(t, fit, allowed, tokens),
{
}

/// A request that is larger than a known context window is kept from the target,
/// and one that fits it is treated as if there were no window; a window that is
/// not above zero is not known.
pub proof fn law_windows_keep_large_requests_out(
    t: ResolvedTarget,
    free: ResolvedTarget,
    fit: TargetFit,
    allowed: Seq<Seq<char>>,
    tokens: u64,
)
    requires
        free.provider == t.provider,
        free.model.context_window is None,
    ensures
        t.model.context_window matches Some(w) ==> {
            &&& w > 0 && tokens > w ==> !fits(t, fit, allowed, tokens)
            &&& w <= 0 || tokens <= w ==> fits(t, fit, allowed, tokens) == fits(
                free,
                fit,
                allowed,
                tokens,
            )
        },
{
}

/// Filtering loses no target that fits, lets none through that does not, and
/// keeps their order: each part of a list is filtered by itself.
pub proof fn law_filtering_keeps_what_fits(
    targets: Seq<ResolvedTarget>,
    facts: Seq<TargetFit>,
    allowed: Seq<Seq<char>>,
    tokens: u64,
    at: int,
)
    requires
        0 <= at < targets.len(),
    ensures
        fitting(targets.take(at + 1), facts, allowed, tokens) == fitting(
            targets.take(at),
            facts,
            allowed,
            tokens,
        ) + (if fits(targets[at], facts[at], allowed, tokens) {
            seq![targets[at]]
        } else {
            Seq::empty()
        }),
        fits(targets[at], facts[at], allowed, tokens) ==> fitting(
            targets,
            facts,
            allowed,
            tokens,
        ).contains(targets[at]),
        forall|k: int|
            0 <= k < fitting(targets, facts, allowed, tokens).len() ==> targets.contains(
                #[trigger] fitting(targets, facts, allowed, tokens)[k],
            ),
    decreases targets.len(),
{
    let first = targets.take(at + 1);
    assert(first.drop_last() =~= targets.take(at));
    assert(first.last() == targets[at]);
    assert(fitting(first, facts, allowed, tokens) =~= fitting(
        targets.take(at),
        facts,
        allowed,
        tokens,
    ) + (if fits(targets[at], facts[at], allowed, tokens) {
        seq![targets[at]]
    } else {
        Seq::empty()
    }));
    lemma_fitting_from(targets, facts, allowed, tokens);
    if fits(targets[at], facts[at], allowed, tokens) {
        lemma_fitting_keeps(targets, facts, allowed, tokens, at);
    }
}

proof fn lemma_fitting_from(
    targets: Seq<ResolvedTarget>,
    facts: Seq<TargetFit>,
    allowed: Seq<Seq<char>>,
    tokens: u64,
)
    ensures
        forall|k: int|
            0 <= k < fitting(targets, facts, allowed, tokens).len() ==> targets.contains(
                #[trigger] fitting(targets, facts, allowed, tokens)[k],
            ),
    decreases targets.len(),
{
    if targets.len() > 0 {
        let front = targets.drop_last();
        lemma_fitting_from(front, facts, allowed, tokens);
        let f = fitting(targets, facts, allowed, tokens);
        assert forall|k: int| 0 <= k < f.len() implies targets.contains(#[trigger] f[k]) by {
            if k < fitting(front, facts, allowed, tokens).len() {
                assert(front.contains(fitting(front, facts, allowed, tokens)[k]));
                let j = choose|j: int| 0 <= j < front.len() && front[j] == f[k];
                assert(targets[j] == f[k]);
            } else {
                assert(targets[targets.len() - 1] == f[k]);
            }
        }
    }
}

proof fn lemma_fitting_keeps(
    targets: Seq<ResolvedTarget>,
    facts: Seq<TargetFit>,
    allowed: Seq<Seq<char>>,
    tokens: u64,
    at: int,
)
    requires
        0 <= at < targets.len(),
        fits(targets[at], facts[at], allowed, tokens),
    ensures
        fitting(targets, facts, allowed, tokens).contains(targets[at]),
    decreases targets.len(),
{
    let f = fitting(targets, facts, allowed, tokens);
    if at == targets.len() - 1 {
        assert(f.last() == targets[at]);
    } else {
        let front = targets.drop_last();
        lemma_fitting_keeps(front, facts, allowed, tokens, at);
        let g = fitting(front, facts, allowed, tokens);
        let j = choose|j: int| 0 <= j < g.len() && g[j] == targets[at];
        assert(f[j] == targets[at]);
    }
}

/// A Route that orders by priority, or by a strategy that is not known, lists the
/// lower numbers first, and targets of one priority as they stood.
pub proof fn law_lower_priorities_come_first(
    strategy: Seq<char>,
    targets: Seq<ResolvedTarget>,
    turn: u64,
    pick: int,
    uses: Seq<i64>,
    out: Seq<ResolvedTarget>,
)
    requires
        is_ordered(strategy, targets, turn, pick, uses, out),
        strategy != "round-robin"@ && strategy != "weighted"@ && strategy != "least-used"@,
    ensures
        forall|i: int, j: int|
            0 <= i < j < out.len() ==> (#[trigger] out[i]).priority <= (#[trigger] out[j]).priority,
        (forall|i: int, j: int|
            0 <= i < j < targets.len() ==> (#[trigger] targets[i]).priority
                <= (#[trigger] targets[j]).priority) ==> out == targets,
{
    let keys = target_priorities(targets);
    let order = choose|order: Seq<usize>| #[trigger]
        is_stable_order(keys, order) && out == picked(targets, order);
    assert forall|i: int, j: int| 0 <= i < j < out.len() implies (#[trigger] out[i]).priority <= (
    #[trigger] out[j]).priority by {
        assert(comes_before(keys, order[i], order[j]));
    }
    if forall|i: int, j: int|
        0 <= i < j < targets.len() ==> (#[trigger] targets[i]).priority <= (
        #[trigger] targets[j]).priority {
        assert forall|i: int, j: int| 0 <= i < j < order.len() implies (#[trigger] order[i]) < (
        #[trigger] order[j]) by {
            assert(comes_before(keys, order[i], order[j]));
            if order[j] < order[i] {
                assert(targets[order[j] as int].priority <= targets[order[i] as int].priority);
            }
        }
        lemma_rising_is_identity(order, order.len() as int);
        assert(out =~= targets);
    }
}

proof fn lemma_rising_is_identity(order: Seq<usize>, n: int)
    requires
        order.len() == n,
        forall|i: int| 0 <= i < n ==> (#[trigger] order[i]) < n,
        forall|i: int, j: int| 0 <= i < j < n ==> (#[trigger] order[i]) < (#[trigger] order[j]),
    ensures
        forall|i: int| 0 <= i < n ==> (#[trigger] order[i]) == i,
{
    assert forall|i: int| 0 <= i < n implies (#[trigger] order[i]) == i by {
        lemma_rising_bounds(order, n, i);
    }
}

proof fn lemma_rising_bounds(order: Seq<usize>, n: int, i: int)
    requires
        order.len() == n,
        0 <= i < n,
        forall|i: int| 0 <= i < n ==> (#[trigger] order[i]) < n,
        forall|i: int, j: int| 0 <= i < j < n ==> (#[trigger] order[i]) < (#[trigger] order[j]),
    ensures
        i <= order[i],
        order[i] <= i,
{
    lemma_rising_low(order, n, i);
    lemma_rising_high(order, n, i);
}

proof fn lemma_rising_low(order: Seq<usize>, n: int, i: int)
    requires
        order.len() == n,
        0 <= i < n,
        forall|i: int, j: int| 0 <= i < j < n ==> (#[trigger] order[i]) < (#[trigger] order[j]),
    ensures
        i <= order[i],
    decreases i,
{
    if i > 0 {
        lemma_rising_low(order, n, i - 1);
        assert(order[i - 1] < order[i]);
    }
}

proof fn lemma_rising_high(order: Seq<usize>, n: int, i: int)
    requires
        order.len() == n,
        0 <= i < n,
        forall|i: int| 0 <= i < n ==> (#[trigger] order[i]) < n,
        forall|i: int, j: int| 0 <= i < j < n ==> (#[trigger] order[i]) < (#[trigger] order[j]),
    ensures
        order[i] <= i,
    decreases n - i,
{
    if i < n - 1 {
        lemma_rising_high(order, n, i + 1);
        assert(order[i] < order[i + 1]);
    }
}

/// A Route that spreads by use lists the less used first, by priority where two
/// are used as much.
pub proof fn law_less_used_come_first(
    targets: Seq<ResolvedTarget>,
    turn: u64,
    pick: int,
    uses: Seq<i64>,
    out: Seq<ResolvedTarget>,
)
    requires
        is_ordered("least-used"@, targets, turn, pick, uses, out),
        uses.len() == targets.len(),
    ensures
        exists|from: Seq<usize>|
            from.len() == out.len() && (forall|i: int|
                0 <= i < out.len() ==> (#[trigger] from[i]) < targets.len() && out[i]
                    == targets[from[i] as int]) && (forall|i: int, j: int|
                0 <= i < j < out.len() ==> {
                    let a = #[trigger] from[i];
                    let b = #[trigger] from[j];
                    uses[a as int] < uses[b as int] || (uses[a as int] == uses[b as int]
                        && targets[a as int].priority <= targets[b as int].priority)
                }),
{
    reveal_strlit("round-robin");
    reveal_strlit("weighted");
    reveal_strlit("least-used");
    assert("least-used"@.len() == 10 && "weighted"@.len() == 8 && "round-robin"@.len() == 11);
    let keys = use_keys(targets, uses);
    let order = choose|order: Seq<usize>| #[trigger]
        is_stable_order(keys, order) && out == picked(targets, order);
    assert forall|i: int, j: int| 0 <= i < j < out.len() implies {
        let a = #[trigger] order[i];
        let b = #[trigger] order[j];
        uses[a as int] < uses[b as int] || (uses[a as int] == uses[b as int]
            && targets[a as int].priority <= targets[b as int].priority)
    } by {
        let a = order[i] as int;
        let b = order[j] as int;
        assert(comes_before(keys, order[i], order[j]));
        let ka = uses[a] * 0x1_0000_0000_0000_0000 + (targets[a].priority + 0x8000_0000_0000_0000);
        let kb = uses[b] * 0x1_0000_0000_0000_0000 + (targets[b].priority + 0x8000_0000_0000_0000);
        assert(keys[a] == ka && keys[b] == kb);
    }
    assert(forall|i: int|
        0 <= i < out.len() ==> (#[trigger] order[i]) < targets.len() && out[i]
            == targets[order[i] as int]);
}

/// Round-robin: the targets take turns. Behind the first of a turn come the
/// others in their order, the next turn begins one further on, and after as many
/// turns as there are targets it begins anew.
pub proof fn law_targets_take_turns(
    targets: Seq<ResolvedTarget>,
    turn: u64,
    pick: int,
    uses: Seq<i64>,
    out: Seq<ResolvedTarget>,
    k: int,
)
    requires
        is_ordered("round-robin"@, targets, turn, pick, uses, out),
        0 <= k < targets.len(),
    ensures
        out.len() == targets.len(),
        out[k] == targets[(turn as int + k) % targets.len() as int],
{
    let n = targets.len() as int;
    let offset = turn as int % n;
    assert((turn as int + k) % n == (if offset + k < n {
        offset + k
    } else {
        offset + k - n
    })) by {
        vstd::arithmetic::div_mod::lemma_fundamental_div_mod(turn as int, n);
        let q = turn as int / n;
        let r = if offset + k < n {
            offset + k
        } else {
            offset + k - n
        };
        let p = if offset + k < n {
            q
        } else {
            q + 1
        };
        assert(n * (q + 1) == n * q + n) by (nonlinear_arith);
        assert(turn as int + k == n * p + r);
        assert(n * p == p * n) by (nonlinear_arith);
        vstd::arithmetic::div_mod::lemma_fundamental_div_mod_converse(turn as int + k, n, p, r);
    }
}

/// Weighted choice: a target is chosen by as many of the numbers that may be
/// drawn as it has weight, at least one, and every number chooses one target.
pub proof fn law_weights_are_shares(targets: Seq<ResolvedTarget>, pick: int, at: int, other: int)
    requires
        0 <= at < targets.len(),
    ensures
        ({
            let from = total_weight(targets.take(at));
            let share = if targets[at].weight < 1 {
                1
            } else {
                targets[at].weight as int
            };
            falls_on(targets, pick, at) <==> from <= pick < from + share
        }),
        at == 0 ==> total_weight(targets.take(at)) == 0,
        at + 1 < targets.len() ==> (falls_on(targets, pick, at + 1) ==> pick >= total_weight(
            targets.take(at + 1),
        )),
        falls_on(targets, pick, at) && falls_on(targets, pick, other) ==> at == other,
        0 <= pick < total_weight(targets) ==> exists|i: int| falls_on(targets, pick, i),
{
    lemma_total_weight(targets, at);
    if at == 0 {
        assert(targets.take(0).len() == 0);
    }
    if falls_on(targets, pick, at) && falls_on(targets, pick, other) && at != other {
        if at < other {
            lemma_weight_grows(targets, at + 1, other);
        } else {
            lemma_weight_grows(targets, other + 1, at);
        }
    }
    if 0 <= pick < total_weight(targets) {
        assert(targets.take(targets.len() as int) =~= targets);
        lemma_some_falls(targets, pick, targets.len() as int);
    }
}

proof fn lemma_some_falls(targets: Seq<ResolvedTarget>, pick: int, n: int)
    requires
        0 <= n <= targets.len(),
        0 <= pick < total_weight(targets.take(n)),
    ensures
        exists|i: int| falls_on(targets, pick, i),
    decreases n,
{
    if n == 0 {
        assert(targets.take(0).len() == 0);
    } else {
        lemma_total_weight(targets, n - 1);
        if pick < total_weight(targets.take(n - 1)) {
            lemma_some_falls(targets, pick, n - 1);
        } else {
            assert(falls_on(targets, pick, n - 1));
        }
    }
}

/// A weighted choice puts the chosen target first and leaves the others in their
/// turn behind it.
pub proof fn law_the_chosen_comes_first(
    targets: Seq<ResolvedTarget>,
    turn: u64,
    pick: int,
    uses: Seq<i64>,
    out: Seq<ResolvedTarget>,
    at: int,
    k: int,
)
    requires
        is_ordered("weighted"@, targets, turn, pick, uses, out),
        falls_on(targets, pick, at),
        0 <= k < targets.len(),
    ensures
        out[0] == targets[at],
        out[k] == targets[(at + k) % targets.len() as int],
{
    reveal_strlit("round-robin");
    reveal_strlit("weighted");
    assert("weighted"@.len() == 8 && "round-robin"@.len() == 11);
    let chosen = choose|i: int| #[trigger] falls_on(targets, pick, i) && out == rotated(targets, i);
    law_weights_are_shares(targets, pick, at, chosen);
    let n = targets.len() as int;
    if at + k < n {
        vstd::arithmetic::div_mod::lemma_small_mod((at + k) as nat, n as nat);
    } else {
        vstd::arithmetic::div_mod::lemma_fundamental_div_mod_converse(at + k, n, 1, at + k - n);
    }
}

/// How many targets may be tried: what a Route asks for from one to five, five
/// where it asks for more, one where it asks for none, and by itself as many as
/// there are, within the same bounds.
pub proof fn law_attempts_are_bounded(configured: Option<i64>, targets: int)
    requires
        targets >= 0,
    ensures
        1 <= attempts_allowed(configured, targets) <= 5,
        configured matches Some(m) ==> {
            &&& 1 <= m <= 5 ==> attempts_allowed(configured, targets) == m
            &&& m > 5 || m < 0 ==> attempts_allowed(configured, targets) == 5
            &&& m == 0 ==> attempts_allowed(configured, targets) == 1
        },
        configured is None ==> attempts_allowed(configured, targets) == attempts_allowed(
            Some(if targets > 5 { 5i64 } else { targets as i64 }),
            targets,
        ),
{
}

/// A stripped conversation keeps everything but provider state: texts, images and
/// results as they are, tool calls without their signatures, and thinking not at
/// all; each part by itself.
pub proof fn law_stripping_keeps_the_rest(a: Seq<Part>, b: Seq<Part>, p: Part)
    ensures
        portable(a + b) == portable(a) + portable(b),
        p is Thinking ==> portable(seq![p]).len() == 0,
        p is Text || p is Image || p is ToolResult ==> portable(seq![p]) == seq![p],
        p matches Part::ToolCall { id, name, arguments, .. } ==> portable(seq![p]) == seq![
            Part::ToolCall { id, name, arguments, signature: None },
        ],
    decreases b.len(),
{
    assert(seq![p].drop_last() =~= Seq::<Part>::empty());
    assert(portable(Seq::<Part>::empty()) =~= Seq::<Part>::empty());
    assert(portable(seq![p]) =~= (if p is Thinking {
        Seq::empty()
    } else {
        seq![unsigned(p)]
    }));
    if b.len() == 0 {
        assert(a + b =~= a);
        assert(portable(a) + portable(b) =~= portable(a));
    } else {
        law_stripping_keeps_the_rest(a, b.drop_last(), p);
        assert((a + b).drop_last() =~= a + b.drop_last());
        assert((a + b).last() == b.last());
        assert(portable(a + b) =~= portable(a) + portable(b));
    }
}

/// A conversation carries provider state exactly where a message holds thinking
/// or a signed tool call.
pub proof fn law_opaque_state_is_thinking_or_signed(messages: Seq<Message>, i: int, j: int)
    ensures
        0 <= i < messages.len() && 0 <= j < messages[i].parts@.len() && (messages[i].parts@[j]
            is Thinking || (messages[i].parts@[j] matches Part::ToolCall { signature: Some(_), .. }))
            ==> carries_opaque(messages),
        (forall|a: int, b: int|
            0 <= a < messages.len() && 0 <= b < messages[a].parts@.len() ==> !((
            #[trigger] messages[a].parts@[b]) is Thinking) && !(messages[a].parts@[b] matches Part::ToolCall {
                signature: Some(_),
                ..
            })) ==> !carries_opaque(messages),
{
    if 0 <= i < messages.len() && 0 <= j < messages[i].parts@.len() && (messages[i].parts@[j]
        is Thinking || (messages[i].parts@[j] matches Part::ToolCall { signature: Some(_), .. })) {
        assert(is_opaque(messages[i].parts@[j]));
    }
}

/// The accounts that a request may try come in the order of their priorities, the
/// lower numbers first, and are those that were there.
pub proof fn law_accounts_by_priority(
    rows: Seq<AccountRow>,
    out: Seq<AccountRow>,
    preferred: Seq<char>,
)
    ensures
        sorted_by(rows, account_priorities(rows), out) ==> out.len() == rows.len() && (forall|
            i: int,
            j: int,
        |
            0 <= i < j < out.len() ==> (#[trigger] out[i]).priority <= (#[trigger] out[j]).priority),
        sorted_by(rows, preference_keys(rows, preferred), out) ==> out.len() == rows.len() && (forall|
            i: int,
            j: int,
        |
            0 <= i < j < out.len() && (#[trigger] out[j]).id@ == preferred ==> (
            #[trigger] out[i]).id@ == preferred),
{
    if sorted_by(rows, account_priorities(rows), out) {
        let keys = account_priorities(rows);
        let order = choose|order: Seq<usize>| #[trigger]
            is_stable_order(keys, order) && out == picked(rows, order);
        assert forall|i: int, j: int| 0 <= i < j < out.len() implies (#[trigger] out[i]).priority
            <= (#[trigger] out[j]).priority by {
            assert(comes_before(keys, order[i], order[j]));
        }
    }
    if sorted_by(rows, preference_keys(rows, preferred), out) {
        let keys = preference_keys(rows, preferred);
        let order = choose|order: Seq<usize>| #[trigger]
            is_stable_order(keys, order) && out == picked(rows, order);
        assert forall|i: int, j: int|
            0 <= i < j < out.len() && (#[trigger] out[j]).id@ == preferred implies (
        #[trigger] out[i]).id@ == preferred by {
            assert(comes_before(keys, order[i], order[j]));
        }
    }
}

/// Only accounts in service are chosen, and all of them: in the order in which
/// they stood.
pub proof fn law_healthy_accounts(accounts: Seq<AccountRow>, a: AccountRow, now: Timestamp)
    ensures
        healthy_accounts(accounts, now).contains(a) <==> accounts.contains(a) && status_when(a, now)
            == AccountStatus::Healthy,
        healthy_accounts(accounts.push(a), now) == (if status_when(a, now)
            == AccountStatus::Healthy {
            healthy_accounts(accounts, now).push(a)
        } else {
            healthy_accounts(accounts, now)
        }),
    decreases accounts.len(),
{
    reveal(Seq::filter);
    assert(accounts.push(a).drop_last() =~= accounts);
    if accounts.len() > 0 {
        let front = accounts.drop_last();
        law_healthy_accounts(front, a, now);
        let h = healthy_accounts(accounts, now);
        let g = healthy_accounts(front, now);
        if h.contains(a) {
            let k = choose|k: int| 0 <= k < h.len() && h[k] == a;
            if k < g.len() {
                assert(g[k] == a);
                let j = choose|j: int| 0 <= j < front.len() && front[j] == a;
                assert(accounts[j] == a);
            } else {
                assert(accounts[accounts.len() - 1] == a);
            }
        }
        if accounts.contains(a) && status_when(a, now) == AccountStatus::Healthy {
            let j = choose|j: int| 0 <= j < accounts.len() && accounts[j] == a;
            if j < front.len() {
                assert(front[j] == a);
                let k = choose|k: int| 0 <= k < g.len() && g[k] == a;
                assert(h[k] == a);
            } else {
                assert(h.last() == a);
            }
        }
    }
}

/// Provider state is taken out under the policies that say so and under no other;
/// a strict conversation keeps it.
pub proof fn law_strict_conversations_keep_their_state(policy: Seq<char>)
    ensures
        strips("convert"@) && strips("strip"@) && strips("strip_with_warning"@),
        !strips("strict"@),
        strips(policy) ==> policy == "convert"@ || policy == "strip"@ || policy
            == "strip_with_warning"@,
{
    reveal_strlit("strict");
    reveal_strlit("convert");
    reveal_strlit("strip");
    reveal_strlit("strip_with_warning");
    assert("strict"@.len() == 6 && "convert"@.len() == 7 && "strip"@.len() == 5
        && "strip_with_warning"@.len() == 18);
}

} // verus!
