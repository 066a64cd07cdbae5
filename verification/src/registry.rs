//! The configured providers, accounts, models, aliases and Routes, as one
//! snapshot that a request keeps for its whole life.

use crate::text::{chars_of, find_char, lemma_next_char_is, next_char, same, text_range};
use crate::types::{AccountRow, AliasRow, ModelRow, ProviderRow, RouteRow, RouteTargetRow};
use vstd::prelude::*;

verus! {

/// What a row is found by.
pub enum Id<'a> {
    One(&'a str),
    Two(&'a str, &'a str),
}

/// The characters of an `Id`.
pub enum RowKey {
    One(Seq<char>),
    Two(Seq<char>, Seq<char>),
}

impl<'a> View for Id<'a> {
    type V = RowKey;

    open spec fn view(&self) -> RowKey {
        match *self {
            Id::One(a) => RowKey::One(a@),
            Id::Two(a, b) => RowKey::Two(a@, b@),
        }
    }
}

fn same_id(a: &Id, b: &Id) -> (r: bool)
    ensures
        r == (a@ == b@),
{
    match (a, b) {
        (Id::One(x), Id::One(y)) => same(x, y),
        (Id::Two(x, v), Id::Two(y, w)) => same(x, y) && same(v, w),
        _ => false,
    }
}

/// A row with a key.
pub trait Keyed: Sized {
    /// The key of the row.
    spec fn key(&self) -> RowKey;

    /// The key of the row.
    fn id(&self) -> (r: Id<'_>)
        ensures
            r@ == self.key(),
    ;
}

impl Keyed for ProviderRow {
    open spec fn key(&self) -> RowKey {
        RowKey::One(self.id@)
    }

    fn id(&self) -> (r: Id<'_>) {
        Id::One(self.id.as_str())
    }
}

impl Keyed for AccountRow {
    open spec fn key(&self) -> RowKey {
        RowKey::One(self.id@)
    }

    fn id(&self) -> (r: Id<'_>) {
        Id::One(self.id.as_str())
    }
}

impl Keyed for ModelRow {
    open spec fn key(&self) -> RowKey {
        RowKey::One(self.id@)
    }

    fn id(&self) -> (r: Id<'_>) {
        Id::One(self.id.as_str())
    }
}

impl Keyed for AliasRow {
    open spec fn key(&self) -> RowKey {
        RowKey::One(self.alias@)
    }

    fn id(&self) -> (r: Id<'_>) {
        Id::One(self.alias.as_str())
    }
}

impl Keyed for RouteRow {
    open spec fn key(&self) -> RowKey {
        RowKey::One(self.id@)
    }

    fn id(&self) -> (r: Id<'_>) {
        Id::One(self.id.as_str())
    }
}

/// The model that a provider knows by an upstream id.
#[derive(Debug)]
pub struct UpstreamModel {
    pub provider_id: String,
    pub upstream_id: String,
    pub model_id: String,
}

impl Keyed for UpstreamModel {
    open spec fn key(&self) -> RowKey {
        RowKey::Two(self.provider_id@, self.upstream_id@)
    }

    fn id(&self) -> (r: Id<'_>) {
        Id::Two(self.provider_id.as_str(), self.upstream_id.as_str())
    }
}

/// The targets of a Route, in order.
#[derive(Debug)]
pub struct RouteTargets {
    pub route_id: String,
    pub targets: Vec<RouteTargetRow>,
}

impl Keyed for RouteTargets {
    open spec fn key(&self) -> RowKey {
        RowKey::One(self.route_id@)
    }

    fn id(&self) -> (r: Id<'_>) {
        Id::One(self.route_id.as_str())
    }
}

/// Whether no key occurs twice.
pub open spec fn distinct_keys<T: Keyed>(rows: Seq<T>) -> bool {
    forall|i: int, j: int|
        0 <= i < j < rows.len() ==> (#[trigger] rows[i]).key() != (#[trigger] rows[j]).key()
}

/// The position of the first row with a key, from `i` on; the length where
/// there is none.
pub open spec fn place_of<T: Keyed>(rows: Seq<T>, key: RowKey, i: int) -> int
    decreases rows.len() - i,
{
    if i < 0 || i >= rows.len() {
        rows.len() as int
    } else if rows[i].key() == key {
        i
    } else {
        place_of(rows, key, i + 1)
    }
}

/// The row with a key.
pub open spec fn row_of<T: Keyed>(rows: Seq<T>, key: RowKey) -> Option<T> {
    let i = place_of(rows, key, 0);
    if 0 <= i < rows.len() {
        Some(rows[i])
    } else {
        None
    }
}

/// The rows with one put in: in the place of the row with its key, else at the
/// end.
pub open spec fn put_row<T: Keyed>(rows: Seq<T>, row: T) -> Seq<T> {
    let i = place_of(rows, row.key(), 0);
    if 0 <= i < rows.len() {
        rows.update(i, row)
    } else {
        rows.push(row)
    }
}

/// The rows put in one after the other: of the rows with one key the last
/// stays.
pub open spec fn put_all<T: Keyed>(rows: Seq<T>) -> Seq<T>
    decreases rows.len(),
{
    if rows.len() == 0 {
        rows
    } else {
        put_row(put_all(rows.drop_last()), rows.last())
    }
}

proof fn lemma_place_of<T: Keyed>(rows: Seq<T>, key: RowKey, i: int)
    requires
        0 <= i <= rows.len(),
    ensures
        i <= place_of(rows, key, i) <= rows.len(),
        place_of(rows, key, i) < rows.len() ==> rows[place_of(rows, key, i)].key() == key,
        forall|k: int| i <= k < place_of(rows, key, i) ==> (#[trigger] rows[k]).key() != key,
    decreases rows.len() - i,
{
    if i < rows.len() && rows[i].key() != key {
        lemma_place_of(rows, key, i + 1);
    }
}

proof fn lemma_place_is<T: Keyed>(rows: Seq<T>, key: RowKey, i: int, at: int)
    requires
        0 <= i <= at <= rows.len(),
        at < rows.len() ==> rows[at].key() == key,
        forall|k: int| i <= k < at ==> (#[trigger] rows[k]).key() != key,
    ensures
        place_of(rows, key, i) == at,
    decreases at - i,
{
    if i < at {
        lemma_place_is(rows, key, i + 1, at);
    }
}

/// Putting a row in keeps the keys distinct, finds the row under its key, and
/// changes no other key.
pub proof fn law_put_row<T: Keyed>(rows: Seq<T>, row: T, key: RowKey)
    requires
        distinct_keys(rows),
    ensures
        distinct_keys(put_row(rows, row)),
        row_of(put_row(rows, row), row.key()) == Some(row),
        key != row.key() ==> row_of(put_row(rows, row), key) == row_of(rows, key),
{
    lemma_place_of(rows, row.key(), 0);
    lemma_place_of(rows, key, 0);
    let at = place_of(rows, row.key(), 0);
    let out = put_row(rows, row);
    assert forall|i: int, j: int| 0 <= i < j < out.len() implies (#[trigger] out[i]).key() != (
    #[trigger] out[j]).key() by {
        if at < rows.len() {
            if i != at && j != at {
                assert(rows[i].key() != rows[j].key());
            } else if i == at {
                assert(rows[at].key() != rows[j].key());
            } else {
                assert(rows[i].key() != rows[at].key());
            }
        } else if j < rows.len() {
            assert(rows[i].key() != rows[j].key());
        } else {
            assert(rows[i].key() != row.key());
        }
    }
    lemma_place_is(out, row.key(), 0, at);
    if key != row.key() {
        let k = place_of(rows, key, 0);
        if k < rows.len() {
            assert(out[k] == rows[k]);
            lemma_place_is(out, key, 0, k);
        } else {
            lemma_place_is(out, key, 0, out.len() as int);
        }
    }
}

/// Whether `i` is the last place where a key stands.
pub open spec fn is_last_with<T: Keyed>(rows: Seq<T>, i: int, key: RowKey) -> bool {
    &&& 0 <= i < rows.len()
    &&& rows[i].key() == key
    &&& forall|j: int| i < j < rows.len() ==> (#[trigger] rows[j]).key() != key
}

/// After all rows are put in, no key occurs twice, and under each key stands
/// the last row that had it.
pub proof fn law_last_row_wins<T: Keyed>(rows: Seq<T>, i: int)
    ensures
        distinct_keys(put_all(rows)),
        0 <= i < rows.len() && is_last_with(rows, i, rows[i].key()) ==> row_of(
            put_all(rows),
            rows[i].key(),
        ) == Some(rows[i]),
    decreases rows.len(),
{
    if rows.len() > 0 {
        let before = rows.drop_last();
        let key = if 0 <= i < rows.len() {
            rows[i].key()
        } else {
            rows.last().key()
        };
        law_last_row_wins(before, i);
        law_put_row(put_all(before), rows.last(), key);
        if 0 <= i < rows.len() - 1 && is_last_with(rows, i, key) {
            assert(rows[rows.len() - 1].key() != key);
            assert forall|j: int| i < j < before.len() implies (#[trigger] before[j]).key()
                != key by {
                assert(rows[j].key() != key);
            }
            assert(is_last_with(before, i, key));
        }
    }
}

fn find_place<T: Keyed>(rows: &Vec<T>, key: &Id) -> (r: usize)
    ensures
        r == place_of(rows@, key@, 0),
        r <= rows@.len(),
{
    let mut i: usize = 0;
    while i < rows.len()
        invariant
            i <= rows@.len(),
            forall|k: int| 0 <= k < i ==> (#[trigger] rows@[k]).key() != key@,
        decreases rows@.len() - i,
    {
        if same_id(&rows[i].id(), key) {
            proof {
                lemma_place_is(rows@, key@, 0, i as int);
            }
            return i;
        }
        i = i + 1;
    }
    proof {
        lemma_place_is(rows@, key@, 0, i as int);
    }
    i
}

/// The row with a key.
pub fn find_row<'a, T: Keyed>(rows: &'a Vec<T>, key: &Id) -> (r: Option<&'a T>)
    ensures
        match r {
            Some(row) => row_of(rows@, key@) == Some(*row),
            None => row_of(rows@, key@) is None,
        },
{
    let i = find_place(rows, key);
    if i < rows.len() {
        Some(&rows[i])
    } else {
        None
    }
}

fn put<T: Keyed>(rows: &mut Vec<T>, row: T)
    ensures
        final(rows)@ == put_row(old(rows)@, row),
{
    let i = find_place(rows, &row.id());
    if i < rows.len() {
        rows.set(i, row);
    } else {
        rows.push(row);
    }
}

/// The configuration that requests are routed by.
#[derive(Debug)]
pub struct Snapshot {
    pub providers: Vec<ProviderRow>,
    pub provider_order: Vec<String>,
    pub accounts: Vec<AccountRow>,
    pub models: Vec<ModelRow>,
    pub model_by_upstream: Vec<UpstreamModel>,
    pub aliases: Vec<AliasRow>,
    pub routes: Vec<RouteRow>,
    pub route_targets: Vec<RouteTargets>,
}

impl Snapshot {
    /// Whether no key occurs twice in any table.
    pub open spec fn wf(self) -> bool {
        &&& distinct_keys(self.providers@)
        &&& distinct_keys(self.accounts@)
        &&& distinct_keys(self.models@)
        &&& distinct_keys(self.model_by_upstream@)
        &&& distinct_keys(self.aliases@)
        &&& distinct_keys(self.routes@)
        &&& distinct_keys(self.route_targets@)
    }
}

impl Default for Snapshot {
    fn default() -> (r: Self)
        ensures
            r.wf(),
            r.providers@.len() == 0 && r.provider_order@.len() == 0 && r.accounts@.len() == 0,
            r.models@.len() == 0 && r.model_by_upstream@.len() == 0 && r.aliases@.len() == 0,
            r.routes@.len() == 0 && r.route_targets@.len() == 0,
    {
        Snapshot {
            providers: Vec::new(),
            provider_order: Vec::new(),
            accounts: Vec::new(),
            models: Vec::new(),
            model_by_upstream: Vec::new(),
            aliases: Vec::new(),
            routes: Vec::new(),
            route_targets: Vec::new(),
        }
    }
}

/// One target of a Route with the rows that it stands for.
#[derive(Debug)]
pub struct ResolvedTarget {
    pub account: AccountRow,
    pub model: ModelRow,
    pub provider: ProviderRow,
    pub priority: i64,
    pub weight: i64,
}

impl Clone for ResolvedTarget {
    fn clone(&self) -> (r: Self)
        ensures
            r == *self,
    {
        ResolvedTarget {
            account: self.account.clone(),
            model: self.model.clone(),
            provider: self.provider.clone(),
            priority: self.priority,
            weight: self.weight,
        }
    }
}

/// What a requested model name stands for.
#[derive(Debug)]
pub enum Resolved {
    /// One model of a provider.
    Single { provider_id: String, model_id: String },
    /// A Route with its targets in order.
    Route { route: RouteRow, targets: Vec<ResolvedTarget> },
}

/// What a `Resolved` holds.
pub enum Resolution {
    Single { provider_id: Seq<char>, model_id: Seq<char> },
    Route { route: RouteRow, targets: Seq<ResolvedTarget> },
}

impl View for Resolved {
    type V = Resolution;

    open spec fn view(&self) -> Resolution {
        match *self {
            Resolved::Single { provider_id, model_id } => Resolution::Single {
                provider_id: provider_id@,
                model_id: model_id@,
            },
            Resolved::Route { route, targets } => Resolution::Route { route, targets: targets@ },
        }
    }
}

/// Whether an account can be chosen for a provider's model: its own and not
/// disabled.
pub open spec fn is_candidate(a: AccountRow, provider_id: Seq<char>) -> bool {
    a.provider_id@ == provider_id && a.status@ != "disabled"@
}

/// The candidate with the lowest priority number; of several the first.
pub open spec fn first_account(accounts: Seq<AccountRow>, provider_id: Seq<char>) -> Option<AccountRow>
    decreases accounts.len(),
{
    if accounts.len() == 0 {
        None
    } else {
        let best = first_account(accounts.drop_last(), provider_id);
        let a = accounts.last();
        if is_candidate(a, provider_id) && (best is None || a.priority < best->0.priority) {
            Some(a)
        } else {
            best
        }
    }
}

/// A target with its rows; `None` where its model, the model's provider or an
/// account is missing.
pub open spec fn target_rows(s: Snapshot, t: RouteTargetRow) -> Option<ResolvedTarget> {
    match row_of(s.models@, RowKey::One(t.model_id@)) {
        None => None,
        Some(model) => match row_of(s.providers@, RowKey::One(model.provider_id@)) {
            None => None,
            Some(provider) => {
                let account = match t.account_id {
                    Some(aid) => row_of(s.accounts@, RowKey::One(aid@)),
                    None => first_account(s.accounts@, model.provider_id@),
                };
                match account {
                    None => None,
                    Some(account) => Some(
                        ResolvedTarget {
                            account,
                            model,
                            provider,
                            priority: t.priority,
                            weight: t.weight,
                        },
                    ),
                }
            },
        },
    }
}

/// The targets that have all their rows, in order.
pub open spec fn usable_targets(s: Snapshot, targets: Seq<RouteTargetRow>) -> Seq<ResolvedTarget>
    decreases targets.len(),
{
    if targets.len() == 0 {
        Seq::empty()
    } else {
        let before = usable_targets(s, targets.drop_last());
        match target_rows(s, targets.last()) {
            Some(t) => before.push(t),
            None => before,
        }
    }
}

/// The configured targets of a Route.
pub open spec fn targets_of(s: Snapshot, route_id: Seq<char>) -> Seq<RouteTargetRow> {
    match row_of(s.route_targets@, RowKey::One(route_id)) {
        Some(t) => t.targets@,
        None => Seq::empty(),
    }
}

/// A Route that can serve: it exists, it is enabled, and it has a usable
/// target.
pub open spec fn route_of(s: Snapshot, route_id: Seq<char>) -> Option<Resolution> {
    match row_of(s.routes@, RowKey::One(route_id)) {
        None => None,
        Some(route) => {
            let targets = usable_targets(s, targets_of(s, route_id));
            if route.enabled == 0 || targets.len() == 0 {
                None
            } else {
                Some(Resolution::Route { route, targets })
            }
        },
    }
}

/// A model as the answer to a request.
pub open spec fn single(m: ModelRow) -> Option<Resolution> {
    Some(Resolution::Single { provider_id: m.provider_id@, model_id: m.id@ })
}

/// What an alias stands for.
pub open spec fn by_alias(s: Snapshot, requested: Seq<char>) -> Option<Resolution> {
    match row_of(s.aliases@, RowKey::One(requested)) {
        None => None,
        Some(a) => if a.target_type@ == "route"@ {
            route_of(s, a.target_id@)
        } else {
            match row_of(s.models@, RowKey::One(a.target_id@)) {
                Some(m) => single(m),
                None => None,
            }
        },
    }
}

/// The first Route of a name, from `i` on.
pub open spec fn route_named(routes: Seq<RouteRow>, name: Seq<char>, i: int) -> Option<RouteRow>
    decreases routes.len() - i,
{
    if i < 0 || i >= routes.len() {
        None
    } else if routes[i].name@ == name {
        Some(routes[i])
    } else {
        route_named(routes, name, i + 1)
    }
}

/// What a Route name stands for.
pub open spec fn by_route_name(s: Snapshot, requested: Seq<char>) -> Option<Resolution> {
    match route_named(s.routes@, requested, 0) {
        Some(r) => route_of(s, r.id@),
        None => None,
    }
}

/// The first provider of a name or an id, from `i` on.
pub open spec fn provider_called(providers: Seq<ProviderRow>, name: Seq<char>, i: int) -> Option<
    ProviderRow,
>
    decreases providers.len() - i,
{
    if i < 0 || i >= providers.len() {
        None
    } else if providers[i].name@ == name || providers[i].id@ == name {
        Some(providers[i])
    } else {
        provider_called(providers, name, i + 1)
    }
}

/// What `provider/model-id` stands for, cut at the first slash.
pub open spec fn by_provider(s: Snapshot, requested: Seq<char>) -> Option<Resolution> {
    let at = next_char(requested, '/', 0);
    if at < 0 || at >= requested.len() {
        None
    } else {
        match provider_called(s.providers@, requested.take(at), 0) {
            None => None,
            Some(p) => match row_of(
                s.model_by_upstream@,
                RowKey::Two(p.id@, requested.skip(at + 1)),
            ) {
                None => None,
                Some(u) => match row_of(s.models@, RowKey::One(u.model_id@)) {
                    Some(m) => single(m),
                    None => None,
                },
            },
        }
    }
}

/// The first model with an upstream id, from `i` on; where a provider is given,
/// of that provider.
pub open spec fn upstream_model(
    models: Seq<ModelRow>,
    provider_id: Option<Seq<char>>,
    upstream_id: Seq<char>,
    i: int,
) -> Option<ModelRow>
    decreases models.len() - i,
{
    if i < 0 || i >= models.len() {
        None
    } else if models[i].upstream_id@ == upstream_id && (provider_id is None || provider_id->0
        == models[i].provider_id@) {
        Some(models[i])
    } else {
        upstream_model(models, provider_id, upstream_id, i + 1)
    }
}

/// The model of the first provider, from `i` on in the providers' order, that
/// has the upstream id.
pub open spec fn first_provider_model(
    order: Seq<String>,
    models: Seq<ModelRow>,
    upstream_id: Seq<char>,
    i: int,
) -> Option<ModelRow>
    decreases order.len() - i,
{
    if i < 0 || i >= order.len() {
        None
    } else {
        match upstream_model(models, Some(order[i]@), upstream_id, 0) {
            Some(m) => Some(m),
            None => first_provider_model(order, models, upstream_id, i + 1),
        }
    }
}

/// What a bare upstream id stands for: the model of the first enabled provider
/// that has it; else any model that has it.
pub open spec fn by_upstream(s: Snapshot, requested: Seq<char>) -> Option<Resolution> {
    match first_provider_model(s.provider_order@, s.models@, requested, 0) {
        Some(m) => single(m),
        None => match upstream_model(s.models@, None, requested, 0) {
            Some(m) => single(m),
            None => None,
        },
    }
}

/// What a requested model name stands for: an alias, a Route, `provider/model`
/// or a bare upstream id, in this order.
pub open spec fn resolution(s: Snapshot, requested: Seq<char>) -> Option<Resolution> {
    if by_alias(s, requested) is Some {
        by_alias(s, requested)
    } else if by_route_name(s, requested) is Some {
        by_route_name(s, requested)
    } else if by_provider(s, requested) is Some {
        by_provider(s, requested)
    } else {
        by_upstream(s, requested)
    }
}

fn choose_account(accounts: &Vec<AccountRow>, provider_id: &str) -> (r: Option<AccountRow>)
    ensures
        r == first_account(accounts@, provider_id@),
{
    let mut best: Option<AccountRow> = None;
    let mut i: usize = 0;
    while i < accounts.len()
        invariant
            i <= accounts@.len(),
            best == first_account(accounts@.take(i as int), provider_id@),
        decreases accounts@.len() - i,
    {
        assert(accounts@.take(i + 1).drop_last() =~= accounts@.take(i as int));
        let a = &accounts[i];
        if same(a.provider_id.as_str(), provider_id) && !same(a.status.as_str(), "disabled") {
            let better = match &best {
                None => true,
                Some(b) => a.priority < b.priority,
            };
            if better {
                best = Some(a.clone());
            }
        }
        i = i + 1;
    }
    assert(accounts@.take(accounts@.len() as int) =~= accounts@);
    best
}

fn resolve_target(s: &Snapshot, t: &RouteTargetRow) -> (r: Option<ResolvedTarget>)
    ensures
        r == target_rows(*s, *t),
{
    let model = match find_row(&s.models, &Id::One(t.model_id.as_str())) {
        Some(m) => m,
        None => {
            return None;
        },
    };
    let provider = match find_row(&s.providers, &Id::One(model.provider_id.as_str())) {
        Some(p) => p,
        None => {
            return None;
        },
    };
    let account = match &t.account_id {
        Some(aid) => match find_row(&s.accounts, &Id::One(aid.as_str())) {
            Some(a) => Some(a.clone()),
            None => None,
        },
        None => choose_account(&s.accounts, model.provider_id.as_str()),
    };
    match account {
        Some(account) => Some(
            ResolvedTarget {
                account,
                model: model.clone(),
                provider: provider.clone(),
                priority: t.priority,
                weight: t.weight,
            },
        ),
        None => None,
    }
}

fn resolve_targets(s: &Snapshot, targets: &Vec<RouteTargetRow>) -> (r: Vec<ResolvedTarget>)
    ensures
        r@ == usable_targets(*s, targets@),
{
    let mut out: Vec<ResolvedTarget> = Vec::new();
    let mut i: usize = 0;
    while i < targets.len()
        invariant
            i <= targets@.len(),
            out@ == usable_targets(*s, targets@.take(i as int)),
        decreases targets@.len() - i,
    {
        assert(targets@.take(i + 1).drop_last() =~= targets@.take(i as int));
        if let Some(t) = resolve_target(s, &targets[i]) {
            out.push(t);
        }
        i = i + 1;
    }
    assert(targets@.take(targets@.len() as int) =~= targets@);
    out
}

/// What an optional `Resolved` holds.
pub open spec fn resolved_view(r: Option<Resolved>) -> Option<Resolution> {
    match r {
        Some(v) => Some(v@),
        None => None,
    }
}

fn build_route(s: &Snapshot, route_id: &str) -> (r: Option<Resolved>)
    ensures
        resolved_view(r) == route_of(*s, route_id@),
{
    let route = match find_row(&s.routes, &Id::One(route_id)) {
        Some(r) => r,
        None => {
            return None;
        },
    };
    if route.enabled == 0 {
        return None;
    }
    let targets = match find_row(&s.route_targets, &Id::One(route_id)) {
        Some(t) => resolve_targets(s, &t.targets),
        None => Vec::new(),
    };
    if targets.len() == 0 {
        return None;
    }
    Some(Resolved::Route { route: route.clone(), targets })
}

fn single_model(m: &ModelRow) -> (r: Option<Resolved>)
    ensures
        resolved_view(r) == single(*m),
{
    Some(Resolved::Single { provider_id: m.provider_id.clone(), model_id: m.id.clone() })
}

fn resolve_alias(s: &Snapshot, requested: &str) -> (r: Option<Resolved>)
    ensures
        resolved_view(r) == by_alias(*s, requested@),
{
    match find_row(&s.aliases, &Id::One(requested)) {
        None => None,
        Some(a) => if same(a.target_type.as_str(), "route") {
            build_route(s, a.target_id.as_str())
        } else {
            match find_row(&s.models, &Id::One(a.target_id.as_str())) {
                Some(m) => single_model(m),
                None => None,
            }
        },
    }
}

fn resolve_route_name(s: &Snapshot, requested: &str) -> (r: Option<Resolved>)
    ensures
        resolved_view(r) == by_route_name(*s, requested@),
{
    let mut i: usize = 0;
    while i < s.routes.len()
        invariant
            i <= s.routes@.len(),
            route_named(s.routes@, requested@, 0) == route_named(s.routes@, requested@, i as int),
        decreases s.routes@.len() - i,
    {
        if same(s.routes[i].name.as_str(), requested) {
            return build_route(s, s.routes[i].id.as_str());
        }
        i = i + 1;
    }
    None
}

fn find_provider<'a>(s: &'a Snapshot, name: &str) -> (r: Option<&'a ProviderRow>)
    ensures
        match r {
            Some(p) => provider_called(s.providers@, name@, 0) == Some(*p),
            None => provider_called(s.providers@, name@, 0) is None,
        },
{
    let mut i: usize = 0;
    while i < s.providers.len()
        invariant
            i <= s.providers@.len(),
            provider_called(s.providers@, name@, 0) == provider_called(
                s.providers@,
                name@,
                i as int,
            ),
        decreases s.providers@.len() - i,
    {
        if same(s.providers[i].name.as_str(), name) || same(s.providers[i].id.as_str(), name) {
            return Some(&s.providers[i]);
        }
        i = i + 1;
    }
    None
}

fn resolve_provider(s: &Snapshot, requested: &str) -> (r: Option<Resolved>)
    ensures
        resolved_view(r) == by_provider(*s, requested@),
{
    let chars = chars_of(requested);
    let at = find_char(&chars, '/', 0);
    if at >= chars.len() {
        return None;
    }
    let first = text_range(&chars, 0, at);
    let rest = text_range(&chars, at + 1, chars.len());
    proof {
        assert(first@ =~= requested@.take(at as int));
        assert(rest@ =~= requested@.skip(at + 1));
    }
    match find_provider(s, first.as_str()) {
        None => None,
        Some(p) => match find_row(
            &s.model_by_upstream,
            &Id::Two(p.id.as_str(), rest.as_str()),
        ) {
            None => None,
            Some(u) => match find_row(&s.models, &Id::One(u.model_id.as_str())) {
                Some(m) => single_model(m),
                None => None,
            },
        },
    }
}

fn find_upstream<'a>(s: &'a Snapshot, provider_id: Option<&str>, upstream_id: &str) -> (r: Option<
    &'a ModelRow,
>)
    ensures
        ({
            let pid = match provider_id {
                Some(p) => Some(p@),
                None => None,
            };
            match r {
                Some(m) => upstream_model(s.models@, pid, upstream_id@, 0) == Some(*m),
                None => upstream_model(s.models@, pid, upstream_id@, 0) is None,
            }
        }),
{
    let ghost pid = match provider_id {
        Some(p) => Some(p@),
        None => None,
    };
    let mut i: usize = 0;
    while i < s.models.len()
        invariant
            i <= s.models@.len(),
            pid == (match provider_id {
                Some(p) => Some(p@),
                None => None,
            }),
            upstream_model(s.models@, pid, upstream_id@, 0) == upstream_model(
                s.models@,
                pid,
                upstream_id@,
                i as int,
            ),
        decreases s.models@.len() - i,
    {
        let m = &s.models[i];
        let of_provider = match provider_id {
            Some(p) => same(p, m.provider_id.as_str()),
            None => true,
        };
        if of_provider && same(m.upstream_id.as_str(), upstream_id) {
            return Some(m);
        }
        i = i + 1;
    }
    None
}

fn resolve_upstream(s: &Snapshot, requested: &str) -> (r: Option<Resolved>)
    ensures
        resolved_view(r) == by_upstream(*s, requested@),
{
    let mut i: usize = 0;
    while i < s.provider_order.len()
        invariant
            i <= s.provider_order@.len(),
            first_provider_model(s.provider_order@, s.models@, requested@, 0)
                == first_provider_model(s.provider_order@, s.models@, requested@, i as int),
        decreases s.provider_order@.len() - i,
    {
        if let Some(m) = find_upstream(s, Some(s.provider_order[i].as_str()), requested) {
            return single_model(m);
        }
        i = i + 1;
    }
    match find_upstream(s, None, requested) {
        Some(m) => single_model(m),
        None => None,
    }
}

/// The rows put in one after the other: of the rows with one key the last
/// stays.
fn collect_rows<T: Keyed>(rows: Vec<T>) -> (r: Vec<T>)
    ensures
        r@ == put_all(rows@),
{
    let ghost all = rows@;
    let mut out: Vec<T> = Vec::new();
    assert(put_all(all.take(0)) =~= Seq::<T>::empty());
    for row in it: rows.into_iter()
        invariant
            it.seq() == all,
            out@ == put_all(all.take(it.index())),
    {
        assert(all.take(it.index() + 1).drop_last() =~= all.take(it.index()));
        assert(all.take(it.index() + 1).last() == row);
        put(&mut out, row);
    }
    assert(all.take(all.len() as int) =~= all);
    out
}

/// The providers that are enabled, in order.
pub open spec fn enabled_providers(rows: Seq<ProviderRow>) -> Seq<ProviderRow> {
    rows.filter(|p: ProviderRow| p.enabled != 0)
}

/// What a provider knows a model by.
pub open spec fn upstream_entry(m: ModelRow) -> UpstreamModel {
    UpstreamModel { provider_id: m.provider_id, upstream_id: m.upstream_id, model_id: m.id }
}

/// What a provider knows each model by.
pub open spec fn upstream_entries(models: Seq<ModelRow>) -> Seq<UpstreamModel> {
    models.map_values(|m: ModelRow| upstream_entry(m))
}

fn keep_enabled(rows: Vec<ProviderRow>) -> (r: Vec<ProviderRow>)
    ensures
        r@ == enabled_providers(rows@),
{
    let ghost all = rows@;
    let mut out: Vec<ProviderRow> = Vec::new();
    proof {
        reveal(Seq::filter);
        assert(all.take(0).len() == 0);
    }
    for row in it: rows.into_iter()
        invariant
            it.seq() == all,
            out@ == enabled_providers(all.take(it.index())),
    {
        proof {
            reveal(Seq::filter);
            assert(all.take(it.index() + 1).drop_last() =~= all.take(it.index()));
            assert(all.take(it.index() + 1).last() == row);
        }
        if row.enabled != 0 {
            out.push(row);
        }
    }
    assert(all.take(all.len() as int) =~= all);
    out
}

fn list_ids(rows: &Vec<ProviderRow>) -> (r: Vec<String>)
    ensures
        r@ == rows@.map_values(|p: ProviderRow| p.id),
{
    let mut out: Vec<String> = Vec::new();
    let mut i: usize = 0;
    while i < rows.len()
        invariant
            i <= rows@.len(),
            out@ == rows@.take(i as int).map_values(|p: ProviderRow| p.id),
        decreases rows@.len() - i,
    {
        assert(rows@.take(i + 1) =~= rows@.take(i as int).push(rows@[i as int]));
        assert(rows@.take(i + 1).map_values(|p: ProviderRow| p.id) =~= rows@.take(
            i as int,
        ).map_values(|p: ProviderRow| p.id).push(rows@[i as int].id));
        out.push(rows[i].id.clone());
        i = i + 1;
    }
    assert(rows@.take(rows@.len() as int) =~= rows@);
    out
}

fn list_upstream(rows: &Vec<ModelRow>) -> (r: Vec<UpstreamModel>)
    ensures
        r@ == upstream_entries(rows@),
{
    let mut out: Vec<UpstreamModel> = Vec::new();
    let mut i: usize = 0;
    while i < rows.len()
        invariant
            i <= rows@.len(),
            out@ == upstream_entries(rows@.take(i as int)),
        decreases rows@.len() - i,
    {
        assert(upstream_entries(rows@.take(i + 1)) =~= upstream_entries(
            rows@.take(i as int),
        ).push(upstream_entry(rows@[i as int])));
        let m = &rows[i];
        out.push(
            UpstreamModel {
                provider_id: m.provider_id.clone(),
                upstream_id: m.upstream_id.clone(),
                model_id: m.id.clone(),
            },
        );
        i = i + 1;
    }
    assert(rows@.take(rows@.len() as int) =~= rows@);
    out
}

/// The configuration as it is stored.
#[derive(Debug)]
pub struct StoredConfig {
    pub providers: Vec<ProviderRow>,
    pub accounts: Vec<AccountRow>,
    pub models: Vec<ModelRow>,
    pub aliases: Vec<AliasRow>,
    pub routes: Vec<RouteRow>,
    pub route_targets: Vec<RouteTargets>,
}

/// Whether a snapshot is that of a stored configuration: the enabled providers
/// and everything else, of rows with one key the last.
pub open spec fn snapshot_of(s: Snapshot, c: StoredConfig) -> bool {
    &&& s.providers@ == put_all(enabled_providers(c.providers@))
    &&& s.provider_order@ == enabled_providers(c.providers@).map_values(|p: ProviderRow| p.id)
    &&& s.accounts@ == put_all(c.accounts@)
    &&& s.models@ == put_all(c.models@)
    &&& s.model_by_upstream@ == put_all(upstream_entries(c.models@))
    &&& s.aliases@ == put_all(c.aliases@)
    &&& s.routes@ == put_all(c.routes@)
    &&& s.route_targets@ == put_all(c.route_targets@)
}

/// The enabled models, in order.
pub open spec fn enabled_only(models: Seq<ModelRow>) -> Seq<ModelRow> {
    models.filter(|m: ModelRow| m.enabled != 0)
}

/// The current snapshot.
#[derive(Debug)]
pub struct Registry {
    snap: Snapshot,
}

impl View for Registry {
    type V = Snapshot;

    closed spec fn view(&self) -> Snapshot {
        self.snap
    }
}

impl Registry {
    pub fn new() -> (r: Self)
        ensures
            r@.wf(),
            r@.providers@.len() == 0 && r@.provider_order@.len() == 0 && r@.accounts@.len() == 0,
            r@.models@.len() == 0 && r@.model_by_upstream@.len() == 0 && r@.aliases@.len() == 0,
            r@.routes@.len() == 0 && r@.route_targets@.len() == 0,
    {
        Registry { snap: Snapshot::default() }
    }

    /// Replaces the snapshot by that of the stored configuration.
    pub fn reload(&mut self, stored: StoredConfig)
        ensures
            snapshot_of(final(self)@, stored),
            final(self)@.wf(),
    {
        let providers = keep_enabled(stored.providers);
        let provider_order = list_ids(&providers);
        let model_by_upstream = list_upstream(&stored.models);
        proof {
            law_last_row_wins(providers@, 0);
            law_last_row_wins(stored.accounts@, 0);
            law_last_row_wins(stored.models@, 0);
            law_last_row_wins(model_by_upstream@, 0);
            law_last_row_wins(stored.aliases@, 0);
            law_last_row_wins(stored.routes@, 0);
            law_last_row_wins(stored.route_targets@, 0);
        }
        self.snap = Snapshot {
            providers: collect_rows(providers),
            provider_order,
            accounts: collect_rows(stored.accounts),
            models: collect_rows(stored.models),
            model_by_upstream: collect_rows(model_by_upstream),
            aliases: collect_rows(stored.aliases),
            routes: collect_rows(stored.routes),
            route_targets: collect_rows(stored.route_targets),
        };
    }

    pub fn snapshot(&self) -> (r: &Snapshot)
        ensures
            *r == self@,
    {
        &self.snap
    }

    /// Resolves a client-facing model name: an alias, a Route by name,
    /// `provider/model-id`, or a bare upstream id, in this order.
    pub fn resolve(&self, requested: &str) -> (r: Option<Resolved>)
        ensures
            resolved_view(r) == resolution(self@, requested@),
    {
        let s = &self.snap;
        let r = resolve_alias(s, requested);
        if r.is_some() {
            return r;
        }
        let r = resolve_route_name(s, requested);
        if r.is_some() {
            return r;
        }
        let r = resolve_provider(s, requested);
        if r.is_some() {
            return r;
        }
        resolve_upstream(s, requested)
    }

    /// All enabled models.
    pub fn enabled_models(&self) -> (r: Vec<ModelRow>)
        ensures
            r@ == enabled_only(self@.models@),
    {
        let rows = &self.snap.models;
        let mut out: Vec<ModelRow> = Vec::new();
        let mut i: usize = 0;
        proof {
            reveal(Seq::filter);
            assert(rows@.take(0).len() == 0);
        }
        while i < rows.len()
            invariant
                i <= rows@.len(),
                out@ == enabled_only(rows@.take(i as int)),
            decreases rows@.len() - i,
        {
            proof {
                reveal(Seq::filter);
                assert(rows@.take(i + 1).drop_last() =~= rows@.take(i as int));
            }
            if rows[i].enabled != 0 {
                out.push(rows[i].clone());
            }
            i = i + 1;
        }
        assert(rows@.take(rows@.len() as int) =~= rows@);
        out
    }

    /// The provider with an id.
    pub fn provider(&self, id: &str) -> (r: Option<ProviderRow>)
        ensures
            r == row_of(self@.providers@, RowKey::One(id@)),
    {
        match find_row(&self.snap.providers, &Id::One(id)) {
            Some(p) => Some(p.clone()),
            None => None,
        }
    }

    /// The model with an id.
    pub fn model(&self, id: &str) -> (r: Option<ModelRow>)
        ensures
            r == row_of(self@.models@, RowKey::One(id@)),
    {
        match find_row(&self.snap.models, &Id::One(id)) {
            Some(m) => Some(m.clone()),
            None => None,
        }
    }

    /// The account with an id.
    pub fn account(&self, id: &str) -> (r: Option<AccountRow>)
        ensures
            r == row_of(self@.accounts@, RowKey::One(id@)),
    {
        match find_row(&self.snap.accounts, &Id::One(id)) {
            Some(a) => Some(a.clone()),
            None => None,
        }
    }

    /// The name of the Route with an id.
    pub fn route_name(&self, id: &str) -> (r: Option<String>)
        ensures
            match row_of(self@.routes@, RowKey::One(id@)) {
                Some(route) => r == Some(route.name),
                None => r is None,
            },
    {
        match find_row(&self.snap.routes, &Id::One(id)) {
            Some(route) => Some(route.name.clone()),
            None => None,
        }
    }

    /// All aliases.
    pub fn aliases(&self) -> (r: Vec<AliasRow>)
        ensures
            r@ == self@.aliases@,
    {
        let rows = &self.snap.aliases;
        let mut out: Vec<AliasRow> = Vec::new();
        let mut i: usize = 0;
        while i < rows.len()
            invariant
                i <= rows@.len(),
                out@ == rows@.take(i as int),
            decreases rows@.len() - i,
        {
            assert(rows@.take(i + 1) =~= rows@.take(i as int).push(rows@[i as int]));
            out.push(rows[i].clone());
            i = i + 1;
        }
        assert(rows@.take(rows@.len() as int) =~= rows@);
        out
    }
}

impl Default for Registry {
    fn default() -> (r: Self)
        ensures
            r@.wf(),
            r@.providers@.len() == 0 && r@.provider_order@.len() == 0 && r@.accounts@.len() == 0,
            r@.models@.len() == 0 && r@.model_by_upstream@.len() == 0 && r@.aliases@.len() == 0,
            r@.routes@.len() == 0 && r@.route_targets@.len() == 0,
    {
        Registry::new()
    }
}

/// An alias that stands for something goes before everything else of the same
/// name, a Route before a model.
pub proof fn law_resolution_order(s: Snapshot, requested: Seq<char>)
    ensures
        by_alias(s, requested) is Some ==> resolution(s, requested) == by_alias(s, requested),
        by_alias(s, requested) is None && by_route_name(s, requested) is Some ==> resolution(
            s,
            requested,
        ) == by_route_name(s, requested),
        by_alias(s, requested) is None && by_route_name(s, requested) is None && by_provider(
            s,
            requested,
        ) is Some ==> resolution(s, requested) == by_provider(s, requested),
{
}

/// A request is never resolved to a disabled Route or to a Route without a
/// target, and every target has a configured model, an enabled provider and an
/// account.
pub proof fn law_routes_can_serve(s: Snapshot, requested: Seq<char>)
    ensures
        resolution(s, requested) matches Some(Resolution::Route { route, targets }) ==> {
            &&& route.enabled != 0
            &&& targets.len() > 0
            &&& s.routes@.contains(route)
            &&& forall|i: int|
                0 <= i < targets.len() ==> {
                    &&& s.models@.contains((#[trigger] targets[i]).model)
                    &&& s.providers@.contains(targets[i].provider)
                    &&& s.accounts@.contains(targets[i].account)
                    &&& targets[i].provider.id@ == targets[i].model.provider_id@
                }
        },
{
    if let Some(Resolution::Route { route, targets }) = resolution(s, requested) {
        let alias = row_of(s.aliases@, RowKey::One(requested));
        let id = if by_alias(s, requested) is Some {
            alias->0.target_id@
        } else {
            route_named(s.routes@, requested, 0)->0.id@
        };
        lemma_place_of(s.routes@, RowKey::One(id), 0);
        lemma_usable_targets(s, targets_of(s, id));
    }
}

proof fn lemma_first_account(accounts: Seq<AccountRow>, provider_id: Seq<char>)
    ensures
        first_account(accounts, provider_id) matches Some(a) ==> accounts.contains(a),
    decreases accounts.len(),
{
    if accounts.len() > 0 {
        lemma_first_account(accounts.drop_last(), provider_id);
        if let Some(a) = first_account(accounts.drop_last(), provider_id) {
            let i = choose|i: int|
                0 <= i < accounts.drop_last().len() && accounts.drop_last()[i] == a;
            assert(accounts[i] == a);
        }
        assert(accounts[accounts.len() - 1] == accounts.last());
    }
}

proof fn lemma_usable_targets(s: Snapshot, rows: Seq<RouteTargetRow>)
    ensures
        forall|i: int|
            #![trigger usable_targets(s, rows)[i]]
            0 <= i < usable_targets(s, rows).len() ==> {
                let t = usable_targets(s, rows)[i];
                &&& s.models@.contains(t.model)
                &&& s.providers@.contains(t.provider)
                &&& s.accounts@.contains(t.account)
                &&& t.provider.id@ == t.model.provider_id@
            },
    decreases rows.len(),
{
    if rows.len() > 0 {
        lemma_usable_targets(s, rows.drop_last());
        let row = rows.last();
        if let Some(t) = target_rows(s, row) {
            lemma_place_of(s.models@, RowKey::One(row.model_id@), 0);
            lemma_place_of(s.providers@, RowKey::One(t.model.provider_id@), 0);
            lemma_first_account(s.accounts@, t.model.provider_id@);
            if let Some(aid) = row.account_id {
                lemma_place_of(s.accounts@, RowKey::One(aid@), 0);
            }
        }
    }
}

/// A row that was stored is there, and one that was not is not: of the rows with a
/// key, one is kept exactly where there is one.
pub proof fn law_no_row_is_invented<T: Keyed>(rows: Seq<T>, key: RowKey)
    ensures
        row_of(put_all(rows), key) is Some <==> exists|i: int|
            0 <= i < rows.len() && (#[trigger] rows[i]).key() == key,
    decreases rows.len(),
{
    if rows.len() == 0 {
        assert(place_of(rows, key, 0) == 0);
    } else {
        let before = rows.drop_last();
        law_no_row_is_invented(before, key);
        law_last_row_wins(before, 0);
        law_put_row(put_all(before), rows.last(), key);
        if exists|i: int| 0 <= i < before.len() && (#[trigger] before[i]).key() == key {
            let i = choose|i: int| 0 <= i < before.len() && (#[trigger] before[i]).key() == key;
            assert(rows[i].key() == key);
        }
        if rows.last().key() == key {
            assert(rows[rows.len() - 1].key() == key);
        }
        if exists|i: int| 0 <= i < rows.len() && (#[trigger] rows[i]).key() == key {
            let i = choose|i: int| 0 <= i < rows.len() && (#[trigger] rows[i]).key() == key;
            if i < before.len() {
                assert(before[i].key() == key);
            }
        }
    }
}

/// Rows are known by what identifies them: an account, a model, a provider and a
/// Route by its id, an alias by its name, a provider's model by both.
pub proof fn law_rows_have_their_keys(
    p: ProviderRow,
    a: AccountRow,
    m: ModelRow,
    l: AliasRow,
    r: RouteRow,
    t: RouteTargets,
    u: UpstreamModel,
)
    ensures
        p.key() == RowKey::One(p.id@),
        a.key() == RowKey::One(a.id@),
        m.key() == RowKey::One(m.id@),
        l.key() == RowKey::One(l.alias@),
        r.key() == RowKey::One(r.id@),
        t.key() == RowKey::One(t.route_id@),
        u.key() == RowKey::Two(u.provider_id@, u.upstream_id@),
{
}

/// The account that stands in where none is named is one of the provider that is
/// not switched off, of the lowest priority number there, and of several the
/// first; there is one wherever such an account exists.
pub proof fn law_first_account_serves(accounts: Seq<AccountRow>, provider_id: Seq<char>, j: int)
    ensures
        match first_account(accounts, provider_id) {
            Some(a) => a.provider_id@ == provider_id && a.status@ != "disabled"@
                && accounts.contains(a) && (0 <= j < accounts.len() && accounts[j].provider_id@
                == provider_id && accounts[j].status@ != "disabled"@ ==> a.priority
                <= accounts[j].priority) && first_with(accounts, provider_id, a),
            None => !(0 <= j < accounts.len() && accounts[j].provider_id@ == provider_id
                && accounts[j].status@ != "disabled"@),
        },
    decreases accounts.len(),
{
    if accounts.len() > 0 {
        let before = accounts.drop_last();
        law_first_account_serves(before, provider_id, j);
        assert(accounts[accounts.len() - 1] == accounts.last());
        if 0 <= j < before.len() {
            assert(before[j] == accounts[j]);
        }
        lemma_first_account(accounts, provider_id);
        let last = accounts.last();
        match first_account(before, provider_id) {
            None => {
                if is_candidate(last, provider_id) {
                    assert forall|k: int|
                        0 <= k < accounts.len() - 1 implies !((#[trigger] accounts[k]).provider_id@
                        == provider_id && accounts[k].status@ != "disabled"@ && accounts[k].priority
                        <= last.priority) by {
                        law_first_account_serves(before, provider_id, k);
                        assert(before[k] == accounts[k]);
                    }
                    assert(first_at(accounts, provider_id, last, accounts.len() - 1));
                }
            },
            Some(b) => {
                let i = choose|i: int| #[trigger] first_at(before, provider_id, b, i);
                if is_candidate(last, provider_id) && last.priority < b.priority {
                    assert forall|k: int|
                        0 <= k < accounts.len() - 1 implies !((#[trigger] accounts[k]).provider_id@
                        == provider_id && accounts[k].status@ != "disabled"@ && accounts[k].priority
                        <= last.priority) by {
                        law_first_account_serves(before, provider_id, k);
                        assert(before[k] == accounts[k]);
                    }
                    assert(first_at(accounts, provider_id, last, accounts.len() - 1));
                } else {
                    assert forall|k: int|
                        0 <= k < i implies !((#[trigger] accounts[k]).provider_id@ == provider_id
                        && accounts[k].status@ != "disabled"@ && accounts[k].priority
                        <= b.priority) by {
                        assert(before[k] == accounts[k]);
                    }
                    assert(first_at(accounts, provider_id, b, i));
                }
            },
        }
    }
}

/// Whether an account stands at a position, with no account before it that would
/// do as well.
pub open spec fn first_at(
    accounts: Seq<AccountRow>,
    provider_id: Seq<char>,
    a: AccountRow,
    i: int,
) -> bool {
    &&& 0 <= i < accounts.len()
    &&& accounts[i] == a
    &&& forall|k: int|
        0 <= k < i ==> !((#[trigger] accounts[k]).provider_id@ == provider_id && accounts[k].status@
            != "disabled"@ && accounts[k].priority <= a.priority)
}

/// Whether an account is the first of those that would do as well.
pub open spec fn first_with(accounts: Seq<AccountRow>, provider_id: Seq<char>, a: AccountRow) -> bool {
    exists|i: int| #[trigger] first_at(accounts, provider_id, a, i)
}

/// A target is resolved to the rows it names: its model, that model's provider,
/// and the account it names or, where it names none, the first that serves; with
/// its own priority and weight. Where one of these is missing, so is the target.
pub proof fn law_targets_resolve_to_what_they_name(
    s: Snapshot,
    t: RouteTargetRow,
    m: ModelRow,
    p: ProviderRow,
    a: AccountRow,
)
    requires
        row_of(s.models@, RowKey::One(t.model_id@)) == Some(m),
        row_of(s.providers@, RowKey::One(m.provider_id@)) == Some(p),
        t.account_id matches Some(id) ==> row_of(s.accounts@, RowKey::One(id@)) == Some(a),
        t.account_id is None ==> first_account(s.accounts@, m.provider_id@) == Some(a),
    ensures
        target_rows(s, t) == Some(
            ResolvedTarget {
                account: a,
                model: m,
                provider: p,
                priority: t.priority,
                weight: t.weight,
            },
        ),
{
}

/// A target without its model, its provider or an account is left out.
pub proof fn law_broken_targets_are_left_out(s: Snapshot, t: RouteTargetRow)
    ensures
        row_of(s.models@, RowKey::One(t.model_id@)) is None ==> target_rows(s, t) is None,
        row_of(s.models@, RowKey::One(t.model_id@)) matches Some(m) ==> (row_of(
            s.providers@,
            RowKey::One(m.provider_id@),
        ) is None ==> target_rows(s, t) is None) && (t.account_id is None && first_account(
            s.accounts@,
            m.provider_id@,
        ) is None ==> target_rows(s, t) is None),
        t.account_id matches Some(id) ==> (row_of(s.accounts@, RowKey::One(id@)) is None
            ==> target_rows(s, t) is None),
{
}

/// Targets keep their order, and each is resolved on its own.
pub proof fn law_targets_are_resolved_one_by_one(
    s: Snapshot,
    a: Seq<RouteTargetRow>,
    t: RouteTargetRow,
    b: Seq<RouteTargetRow>,
)
    ensures
        usable_targets(s, a + b) == usable_targets(s, a) + usable_targets(s, b),
        target_rows(s, t) matches Some(r) ==> usable_targets(s, seq![t]) == seq![r],
        target_rows(s, t) is None ==> usable_targets(s, seq![t]).len() == 0,
        usable_targets(s, Seq::empty()).len() == 0,
    decreases b.len(),
{
    assert(seq![t].drop_last() =~= Seq::<RouteTargetRow>::empty());
    assert(usable_targets(s, seq![t].drop_last()) =~= Seq::<ResolvedTarget>::empty());
    assert(Seq::<ResolvedTarget>::empty().push(target_rows(s, t)->0) =~= seq![target_rows(s, t)->0]);
    if b.len() == 0 {
        assert(a + b =~= a);
        assert(usable_targets(s, a) + usable_targets(s, b) =~= usable_targets(s, a));
    } else {
        law_targets_are_resolved_one_by_one(s, a, t, b.drop_last());
        assert((a + b).drop_last() =~= a + b.drop_last());
        assert((a + b).last() == b.last());
        assert(usable_targets(s, a + b) =~= usable_targets(s, a) + usable_targets(s, b));
    }
}

/// An enabled Route with a usable target is resolved, with all of its usable
/// targets; a disabled one and one without such a target are not.
pub proof fn law_enabled_routes_are_resolved(s: Snapshot, id: Seq<char>, route: RouteRow)
    requires
        row_of(s.routes@, RowKey::One(id)) == Some(route),
    ensures
        ({
            let usable = usable_targets(s, targets_of(s, id));
            &&& route.enabled != 0 && usable.len() > 0 ==> route_of(s, id) == Some(
                Resolution::Route { route, targets: usable },
            )
            &&& route.enabled == 0 || usable.len() == 0 ==> route_of(s, id) is None
        }),
{
}

/// An alias stands for the Route or the model it names, before anything else of
/// the same name.
pub proof fn law_aliases_stand_for_their_targets(
    s: Snapshot,
    requested: Seq<char>,
    alias: AliasRow,
    m: ModelRow,
)
    requires
        row_of(s.aliases@, RowKey::One(requested)) == Some(alias),
    ensures
        alias.target_type@ == "route"@ && route_of(s, alias.target_id@) is Some ==> resolution(
            s,
            requested,
        ) == route_of(s, alias.target_id@),
        alias.target_type@ != "route"@ && row_of(s.models@, RowKey::One(alias.target_id@)) == Some(m)
            ==> resolution(s, requested) == Some(
            Resolution::Single { provider_id: m.provider_id@, model_id: m.id@ },
        ),
{
}

proof fn lemma_route_named(routes: Seq<RouteRow>, name: Seq<char>, i: int, at: int)
    requires
        0 <= i <= at <= routes.len(),
        at < routes.len() ==> routes[at].name@ == name,
        forall|k: int| i <= k < at ==> (#[trigger] routes[k]).name@ != name,
    ensures
        route_named(routes, name, i) == (if at < routes.len() {
            Some(routes[at])
        } else {
            None
        }),
    decreases at - i,
{
    if i < at {
        lemma_route_named(routes, name, i + 1, at);
    }
}

/// A Route answers to its name where no alias does: the first of that name.
pub proof fn law_routes_answer_to_their_names(s: Snapshot, at: int, requested: Seq<char>)
    requires
        0 <= at < s.routes@.len(),
        s.routes@[at].name@ == requested,
        forall|k: int| 0 <= k < at ==> (#[trigger] s.routes@[k]).name@ != requested,
        by_alias(s, requested) is None,
        route_of(s, s.routes@[at].id@) is Some,
    ensures
        resolution(s, requested) == route_of(s, s.routes@[at].id@),
{
    lemma_route_named(s.routes@, requested, 0, at);
}

proof fn lemma_provider_called(providers: Seq<ProviderRow>, name: Seq<char>, i: int, at: int)
    requires
        0 <= i <= at < providers.len(),
        providers[at].name@ == name || providers[at].id@ == name,
        forall|k: int|
            i <= k < at ==> (#[trigger] providers[k]).name@ != name && providers[k].id@ != name,
    ensures
        provider_called(providers, name, i) == Some(providers[at]),
    decreases at - i,
{
    if i < at {
        lemma_provider_called(providers, name, i + 1, at);
    }
}

/// A provider's model can be asked for by the provider, by name or id, and the
/// name the provider knows the model by, with a slash between; slashes in that
/// name are part of it.
pub proof fn law_models_are_found_under_their_provider(
    s: Snapshot,
    at: int,
    called: Seq<char>,
    upstream_id: Seq<char>,
    u: UpstreamModel,
    m: ModelRow,
)
    requires
        0 <= at < s.providers@.len(),
        s.providers@[at].name@ == called || s.providers@[at].id@ == called,
        forall|k: int|
            0 <= k < at ==> (#[trigger] s.providers@[k]).name@ != called && s.providers@[k].id@
                != called,
        forall|k: int| 0 <= k < called.len() ==> called[k] != '/',
        row_of(s.model_by_upstream@, RowKey::Two(s.providers@[at].id@, upstream_id)) == Some(u),
        row_of(s.models@, RowKey::One(u.model_id@)) == Some(m),
        by_alias(s, called.push('/') + upstream_id) is None,
        by_route_name(s, called.push('/') + upstream_id) is None,
    ensures
        resolution(s, called.push('/') + upstream_id) == Some(
            Resolution::Single { provider_id: m.provider_id@, model_id: m.id@ },
        ),
{
    let requested = called.push('/') + upstream_id;
    let n = called.len() as int;
    assert forall|k: int| 0 <= k < n implies requested[k] != '/' by {
        assert(requested[k] == called[k]);
    }
    assert(requested[n] == '/');
    lemma_next_char_is(requested, '/', 0, n);
    assert(requested.take(n) =~= called);
    assert(requested.skip(n + 1) =~= upstream_id);
    lemma_provider_called(s.providers@, called, 0, at);
}

proof fn lemma_upstream_model(
    models: Seq<ModelRow>,
    provider_id: Option<Seq<char>>,
    upstream_id: Seq<char>,
    i: int,
)
    requires
        0 <= i <= models.len(),
    ensures
        match upstream_model(models, provider_id, upstream_id, i) {
            Some(m) => models.contains(m) && m.upstream_id@ == upstream_id && (
            provider_id matches Some(p) ==> m.provider_id@ == p),
            None => forall|k: int|
                i <= k < models.len() ==> (#[trigger] models[k]).upstream_id@ != upstream_id || (
                provider_id is Some && models[k].provider_id@ != provider_id->0),
        },
    decreases models.len() - i,
{
    if i < models.len() {
        lemma_upstream_model(models, provider_id, upstream_id, i + 1);
        assert(models.contains(models[i]));
    }
}

proof fn lemma_first_provider_model(
    order: Seq<String>,
    models: Seq<ModelRow>,
    upstream_id: Seq<char>,
    i: int,
    at: int,
)
    requires
        0 <= i <= at < order.len(),
        forall|k: int|
            i <= k < at ==> upstream_model(models, Some((#[trigger] order[k])@), upstream_id, 0) is None,
        upstream_model(models, Some(order[at]@), upstream_id, 0) is Some,
    ensures
        first_provider_model(order, models, upstream_id, i) == upstream_model(
            models,
            Some(order[at]@),
            upstream_id,
            0,
        ),
    decreases at - i,
{
    if i < at {
        lemma_first_provider_model(order, models, upstream_id, i + 1, at);
    }
}

/// A bare model name is looked for at the providers in their order, and the first
/// that has a model of that name gives its own.
pub proof fn law_bare_names_follow_the_provider_order(s: Snapshot, at: int, j: int, requested: Seq<char>)
    requires
        by_alias(s, requested) is None,
        by_route_name(s, requested) is None,
        by_provider(s, requested) is None,
        0 <= at < s.provider_order@.len(),
        0 <= j < s.models@.len(),
        s.models@[j].provider_id@ == s.provider_order@[at]@,
        s.models@[j].upstream_id@ == requested,
        forall|k: int, l: int|
            0 <= k < at && 0 <= l < s.models@.len() ==> !((#[trigger] s.models@[l]).provider_id@ == (
            #[trigger] s.provider_order@[k])@ && s.models@[l].upstream_id@ == requested),
    ensures
        resolution(s, requested) matches Some(Resolution::Single { provider_id, .. })
            && provider_id == s.provider_order@[at]@,
{
    let pid = s.provider_order@[at]@;
    lemma_upstream_model(s.models@, Some(pid), requested, 0);
    assert(s.models@[j].upstream_id@ == requested);
    assert forall|k: int| 0 <= k < at implies upstream_model(
        s.models@,
        Some((#[trigger] s.provider_order@[k])@),
        requested,
        0,
    ) is None by {
        lemma_upstream_model(s.models@, Some(s.provider_order@[k]@), requested, 0);
        if let Some(m) = upstream_model(s.models@, Some(s.provider_order@[k]@), requested, 0) {
            let l = choose|l: int| 0 <= l < s.models@.len() && s.models@[l] == m;
            assert(s.models@[l].upstream_id@ == requested);
        }
    }
    lemma_first_provider_model(s.provider_order@, s.models@, requested, 0, at);
}

/// A name that no alias, Route, provider or model bears is not resolved.
pub proof fn law_unknown_names_are_not_resolved(s: Snapshot, requested: Seq<char>)
    requires
        row_of(s.aliases@, RowKey::One(requested)) is None,
        forall|k: int| 0 <= k < s.routes@.len() ==> (#[trigger] s.routes@[k]).name@ != requested,
        forall|k: int| 0 <= k < requested.len() ==> requested[k] != '/',
        forall|k: int|
            0 <= k < s.models@.len() ==> (#[trigger] s.models@[k]).upstream_id@ != requested,
    ensures
        resolution(s, requested) is None,
{
    lemma_route_named(s.routes@, requested, 0, s.routes@.len() as int);
    lemma_next_char_is(requested, '/', 0, requested.len() as int);
    lemma_upstream_model(s.models@, None, requested, 0);
    if let Some(m) = upstream_model(s.models@, None, requested, 0) {
        let l = choose|l: int| 0 <= l < s.models@.len() && s.models@[l] == m;
        assert(s.models@[l].upstream_id@ != requested);
    }
    lemma_no_provider_model(s.provider_order@, s.models@, requested, 0);
}

proof fn lemma_no_provider_model(
    order: Seq<String>,
    models: Seq<ModelRow>,
    upstream_id: Seq<char>,
    i: int,
)
    requires
        0 <= i <= order.len(),
        forall|k: int| 0 <= k < models.len() ==> (#[trigger] models[k]).upstream_id@ != upstream_id,
    ensures
        first_provider_model(order, models, upstream_id, i) is None,
    decreases order.len() - i,
{
    if i < order.len() {
        lemma_upstream_model(models, Some(order[i]@), upstream_id, 0);
        if let Some(m) = upstream_model(models, Some(order[i]@), upstream_id, 0) {
            let l = choose|l: int| 0 <= l < models.len() && models[l] == m;
            assert(models[l].upstream_id@ != upstream_id);
        }
        lemma_no_provider_model(order, models, upstream_id, i + 1);
    }
}

/// Providers and models that are switched off are not offered, and all others are.
pub proof fn law_only_what_is_enabled_is_offered(
    providers: Seq<ProviderRow>,
    models: Seq<ModelRow>,
    i: int,
)
    ensures
        0 <= i < providers.len() && providers[i].enabled != 0 ==> enabled_providers(
            providers,
        ).contains(providers[i]),
        0 <= i < models.len() && models[i].enabled != 0 ==> enabled_only(models).contains(models[i]),
        0 <= i < enabled_providers(providers).len() ==> enabled_providers(providers)[i].enabled != 0
            && providers.contains(enabled_providers(providers)[i]),
        0 <= i < enabled_only(models).len() ==> enabled_only(models)[i].enabled != 0
            && models.contains(enabled_only(models)[i]),
{
    let f = |p: ProviderRow| p.enabled != 0;
    let g = |m: ModelRow| m.enabled != 0;
    if 0 <= i < providers.len() && providers[i].enabled != 0 {
        providers.lemma_filter_contains(f, i);
    }
    if 0 <= i < models.len() && models[i].enabled != 0 {
        models.lemma_filter_contains(g, i);
    }
    if 0 <= i < enabled_providers(providers).len() {
        providers.lemma_filter_pred(f, i);
        providers.lemma_filter_contains_rev(f, enabled_providers(providers)[i]);
    }
    if 0 <= i < enabled_only(models).len() {
        models.lemma_filter_pred(g, i);
        models.lemma_filter_contains_rev(g, enabled_only(models)[i]);
    }
}

/// A provider knows a model by the name it gave it, and the entry leads back to
/// the model.
pub proof fn law_upstream_entries_lead_back(models: Seq<ModelRow>, i: int)
    ensures
        upstream_entries(models).len() == models.len(),
        0 <= i < models.len() ==> upstream_entries(models)[i].key() == RowKey::Two(
            models[i].provider_id@,
            models[i].upstream_id@,
        ) && RowKey::One(upstream_entries(models)[i].model_id@) == models[i].key(),
{
}

} // verus!
