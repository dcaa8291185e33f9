//! Keeping a node in step with a panel that it polls.
use crate::error::{ErrorKind, IoError};
use crate::identity::{parse_uuid, parsed_uuid};
use crate::text::{chars_of, decimal, push_decimal, string_of};
use std::collections::HashMap;
use vstd::prelude::*;
use vstd::slice::slice_subrange;

verus! {

/// How often a panel is polled, in seconds, unless the configuration says otherwise.
pub const DEFAULT_INTERVAL_SECS: u64 = 10;

/// The shortest time between two polls, in seconds.
pub const MIN_INTERVAL_SECS: u64 = 5;

/// How a node reaches its panel.
#[derive(Debug)]
pub struct PanelSyncConfig {
    pub enabled: Option<bool>,
    pub webapi_url: Option<String>,
    pub webapi_token: Option<String>,
    pub node_id: Option<usize>,
    pub api_update_interval_secs: Option<u64>,
}

/// The number that the bytes of a client id spell, most significant first.
pub open spec fn id_value(bytes: Seq<u8>) -> int
    decreases bytes.len(),
{
    if bytes.len() == 0 {
        0
    } else {
        id_value(bytes.drop_last()) * 0x100 + bytes.last()
    }
}

proof fn id_value_is_bounded(bytes: Seq<u8>, bound: int)
    requires
        bytes.len() <= 16,
        bound == vstd::arithmetic::power::pow(0x100, bytes.len()),
    ensures
        0 <= id_value(bytes) < bound,
    decreases bytes.len(),
{
    vstd::arithmetic::power::lemma_pow0(0x100);
    if bytes.len() > 0 {
        let smaller = vstd::arithmetic::power::pow(0x100, (bytes.len() - 1) as nat);
        id_value_is_bounded(bytes.drop_last(), smaller);
        reveal(vstd::arithmetic::power::pow);
        assert(bound == 0x100 * smaller);
    }
}

/// The number of a client id.
pub fn id_number(bytes: &[u8; 16]) -> (n: u128)
    ensures
        n == id_value(bytes@),
{
    let mut n: u128 = 0;
    let mut i: usize = 0;
    while i < 16
        invariant
            i <= 16,
            n == id_value(bytes@.take(i as int)),
        decreases 16 - i,
    {
        proof {
            let shorter = bytes@.take(i as int);
            id_value_is_bounded(shorter, vstd::arithmetic::power::pow(0x100, shorter.len()));
            assert(vstd::arithmetic::power::pow(0x100, 15) == 0x1_0000_0000_0000_0000_0000_0000_0000_00)
                by {
                reveal_with_fuel(vstd::arithmetic::power::pow, 16);
            }
            if i < 15 {
                vstd::arithmetic::power::lemma_pow_increases(0x100, i as nat, 15);
            }
            assert(bytes@.take(i + 1).drop_last() =~= shorter);
        }
        n = n * 0x100 + bytes[i] as u128;
        i += 1;
    }
    assert(bytes@.take(16) =~= bytes@);
    n
}

/// What the panel says about one client.
#[derive(Debug, Clone, Copy, PartialEq, Eq, Structural)]
pub struct SyncUser {
    /// The client, if the panel names one.
    pub client_id: Option<u128>,
    /// Whether the client may pass traffic.
    pub enable: bool,
}

/// Whether a client may pass traffic of which the panel does not say so.
pub fn default_true() -> (b: bool)
    ensures
        b,
{
    true
}

/// The client that a text of the panel names; a text that is not a UUID names none.
pub fn optional_client_id(text: Option<&str>) -> (r: Option<u128>)
    ensures
        match text {
            Some(t) => match parsed_uuid(t@) {
                Ok(bytes) => r matches Some(n) && n == id_value(bytes),
                Err(_) => r is None,
            },
            None => r is None,
        },
{
    match text {
        Some(t) => match parse_uuid(t) {
            Ok(bytes) => Some(id_number(&bytes)),
            Err(_) => None,
        },
        None => None,
    }
}

/// What a node changes about its clients.
#[derive(Debug)]
pub struct SyncPlan {
    /// Clients that are added where they are missing, and whether they may pass traffic.
    pub upserts: Vec<(u128, bool)>,
    /// Clients that are removed.
    pub removals: Vec<u128>,
}

/// The clients that `users` name, in order.
pub open spec fn named_clients(users: Seq<SyncUser>) -> Seq<(u128, bool)>
    decreases users.len(),
{
    if users.len() == 0 {
        Seq::empty()
    } else {
        let earlier = named_clients(users.drop_last());
        match users.last().client_id {
            Some(id) => earlier.push((id, users.last().enable)),
            None => earlier,
        }
    }
}

/// Whether `users` name the client `id`.
pub open spec fn names(users: Seq<SyncUser>, id: u128) -> bool {
    exists|i: int| 0 <= i < users.len() && (#[trigger] users[i]).client_id == Some(id)
}

/// Those of `existing` that `users` do not name, in order.
pub open spec fn gone_clients(existing: Seq<u128>, users: Seq<SyncUser>) -> Seq<u128>
    decreases existing.len(),
{
    if existing.len() == 0 {
        Seq::empty()
    } else {
        let earlier = gone_clients(existing.drop_last(), users);
        if names(users, existing.last()) {
            earlier
        } else {
            earlier.push(existing.last())
        }
    }
}

/// `reported` without the clients `gone`.
pub open spec fn forgotten(reported: Map<u128, (u64, u64)>, gone: Seq<u128>) -> Map<
    u128,
    (u64, u64),
> {
    Map::new(|id: u128| reported.contains_key(id) && !gone.contains(id), |id: u128| reported[id])
}

/// The traffic of one client since the last report.
#[derive(Debug, Clone, Copy, PartialEq, Eq, Structural)]
pub struct TrafficRecord {
    pub client_id: u128,
    pub upstream: u64,
    pub downstream: u64,
}

/// A report to the panel, and the totals that it accounts for.
#[derive(Debug)]
pub struct TrafficReport {
    pub records: Vec<TrafficRecord>,
    pub totals: Vec<(u128, (u64, u64))>,
}

/// What has come on top of `last`. A counter that went back has nothing on top.
pub open spec fn increase(now: u64, last: u64) -> u64 {
    if now >= last {
        (now - last) as u64
    } else {
        0
    }
}

/// What was last reported for a client.
pub open spec fn last_reported(reported: Map<u128, (u64, u64)>, id: u128) -> (u64, u64) {
    if reported.contains_key(id) {
        reported[id]
    } else {
        (0, 0)
    }
}

/// The report on one client whose totals are `up` and `down`.
pub open spec fn record_of(
    reported: Map<u128, (u64, u64)>,
    id: u128,
    up: u64,
    down: u64,
) -> TrafficRecord {
    let last = last_reported(reported, id);
    TrafficRecord {
        client_id: id,
        upstream: increase(up, last.0),
        downstream: increase(down, last.1),
    }
}

/// Whether a record reports anything.
pub open spec fn is_news(r: TrafficRecord) -> bool {
    r.upstream > 0 || r.downstream > 0
}

/// The records for the totals `current`, in order: one for each client that has news.
pub open spec fn records_of(
    reported: Map<u128, (u64, u64)>,
    current: Seq<(u128, u64, u64)>,
) -> Seq<TrafficRecord>
    decreases current.len(),
{
    if current.len() == 0 {
        Seq::empty()
    } else {
        let earlier = records_of(reported, current.drop_last());
        let (id, up, down) = current.last();
        let r = record_of(reported, id, up, down);
        if is_news(r) {
            earlier.push(r)
        } else {
            earlier
        }
    }
}

/// The totals that a report on `current` accounts for, in order.
pub open spec fn totals_of(
    reported: Map<u128, (u64, u64)>,
    current: Seq<(u128, u64, u64)>,
) -> Seq<(u128, (u64, u64))>
    decreases current.len(),
{
    if current.len() == 0 {
        Seq::empty()
    } else {
        let earlier = totals_of(reported, current.drop_last());
        let (id, up, down) = current.last();
        if is_news(record_of(reported, id, up, down)) {
            earlier.push((id, (up, down)))
        } else {
            earlier
        }
    }
}

/// `reported` after a report that accounts for `totals` has arrived.
pub open spec fn acknowledged(
    reported: Map<u128, (u64, u64)>,
    totals: Seq<(u128, (u64, u64))>,
) -> Map<u128, (u64, u64)>
    decreases totals.len(),
{
    if totals.len() == 0 {
        reported
    } else {
        acknowledged(reported, totals.drop_last()).insert(totals.last().0, totals.last().1)
    }
}

/// `s` without the slashes at its end.
pub open spec fn without_slashes(s: Seq<char>) -> Seq<char>
    decreases s.len(),
{
    if s.len() > 0 && s.last() == '/' {
        without_slashes(s.drop_last())
    } else {
        s
    }
}

/// The URL of an action of the panel, for one node.
pub open spec fn action_url(
    base: Seq<char>,
    action: Seq<char>,
    token: Seq<char>,
    node_id: usize,
) -> Seq<char> {
    without_slashes(base) + "/mod_mu/"@ + action + "?key="@ + token + "&node_id="@ + decimal(
        node_id as nat,
    )
}

/// A node's side of the exchange with its panel.
#[derive(Debug)]
pub struct PanelSyncClient {
    config: PanelSyncConfig,
    reported_traffic: HashMap<u128, (u64, u64)>,
}

impl PanelSyncClient {
    /// How the node reaches its panel.
    pub closed spec fn config(&self) -> PanelSyncConfig {
        self.config
    }

    /// The totals that the panel knows of.
    pub closed spec fn reported(&self) -> Map<u128, (u64, u64)> {
        self.reported_traffic@
    }

    /// A node that has reported nothing.
    pub fn new(config: PanelSyncConfig) -> (c: PanelSyncClient)
        ensures
            c.config() == config,
            c.reported() == Map::<u128, (u64, u64)>::empty(),
    {
        PanelSyncClient { config, reported_traffic: HashMap::new() }
    }

    /// The time between two polls, in seconds.
    pub fn interval_secs(&self) -> (n: u64)
        ensures
            n == {
                let wanted = match self.config().api_update_interval_secs {
                    Some(n) => n,
                    None => DEFAULT_INTERVAL_SECS,
                };
                if wanted < MIN_INTERVAL_SECS {
                    MIN_INTERVAL_SECS
                } else {
                    wanted
                }
            },
            self.config().api_update_interval_secs is None ==> n == 10,
            self.config().api_update_interval_secs matches Some(wanted) ==> n == if wanted < 5 {
                5
            } else {
                wanted
            },
    {
        let wanted: u64 = match self.config.api_update_interval_secs {
            Some(n) => n,
            None => DEFAULT_INTERVAL_SECS,
        };
        if wanted < MIN_INTERVAL_SECS {
            MIN_INTERVAL_SECS
        } else {
            wanted
        }
    }

    /// What to change so that the clients are those that the panel names, where the node has the
    /// clients `existing`. What was reported for clients that go is forgotten.
    pub fn sync_once(&mut self, users: &[SyncUser], existing: &[u128]) -> (p: SyncPlan)
        ensures
            p.upserts@ == named_clients(users@),
            p.removals@ == gone_clients(existing@, users@),
            final(self).reported() == forgotten(old(self).reported(), p.removals@),
            final(self).config() == old(self).config(),
    {
        broadcast use vstd::std_specs::hash::group_hash_axioms;

        let mut upserts: Vec<(u128, bool)> = Vec::new();
        let mut i: usize = 0;
        assert(users@.take(0) =~= Seq::<SyncUser>::empty());
        assert(upserts@ =~= named_clients(users@.take(0)));
        while i < users.len()
            invariant
                i <= users@.len(),
                upserts@ == named_clients(users@.take(i as int)),
            decreases users@.len() - i,
        {
            assert(users@.take(i + 1).drop_last() =~= users@.take(i as int));
            if let Some(id) = users[i].client_id {
                upserts.push((id, users[i].enable));
            }
            i += 1;
        }
        assert(users@.take(i as int) =~= users@);
        let mut removals: Vec<u128> = Vec::new();
        let mut k: usize = 0;
        assert(existing@.take(0) =~= Seq::<u128>::empty());
        assert(removals@ =~= gone_clients(existing@.take(0), users@));
        assert(self.reported() =~= forgotten(old(self).reported(), removals@));
        while k < existing.len()
            invariant
                k <= existing@.len(),
                removals@ == gone_clients(existing@.take(k as int), users@),
                self.reported() == forgotten(old(self).reported(), removals@),
                self.config() == old(self).config(),
            decreases existing@.len() - k,
        {
            assert(existing@.take(k + 1).drop_last() =~= existing@.take(k as int));
            if !is_named(users, existing[k]) {
                let ghost before = removals@;
                let id: u128 = existing[k];
                removals.push(id);
                self.reported_traffic.remove(&id);
                assert forall|x: u128| removals@.contains(x) <==> before.contains(x) || x == id by {
                    if before.contains(x) {
                        let j = choose|j: int| 0 <= j < before.len() && before[j] == x;
                        assert(removals@[j] == x);
                    }
                    if x == id {
                        assert(removals@.last() == x);
                    }
                }
                assert(self.reported() =~= forgotten(old(self).reported(), removals@));
            }
            k += 1;
        }
        assert(existing@.take(k as int) =~= existing@);
        SyncPlan { upserts, removals }
    }

    /// The report on the totals `current`: what has come on top of the last report that
    /// arrived. There is nothing to send if it has no records.
    pub fn traffic_report(&self, current: &[(u128, u64, u64)]) -> (r: TrafficReport)
        ensures
            r.records@ == records_of(self.reported(), current@),
            r.totals@ == totals_of(self.reported(), current@),
    {
        broadcast use vstd::std_specs::hash::group_hash_axioms;

        let mut records: Vec<TrafficRecord> = Vec::new();
        let mut totals: Vec<(u128, (u64, u64))> = Vec::new();
        let mut i: usize = 0;
        assert(current@.take(0) =~= Seq::<(u128, u64, u64)>::empty());
        assert(records@ =~= records_of(self.reported(), current@.take(0)));
        assert(totals@ =~= totals_of(self.reported(), current@.take(0)));
        while i < current.len()
            invariant
                i <= current@.len(),
                records@ == records_of(self.reported(), current@.take(i as int)),
                totals@ == totals_of(self.reported(), current@.take(i as int)),
            decreases current@.len() - i,
        {
            assert(current@.take(i + 1).drop_last() =~= current@.take(i as int));
            let (client_id, up, down): (u128, u64, u64) = current[i];
            let last: (u64, u64) = match self.reported_traffic.get(&client_id) {
                Some(last) => *last,
                None => (0, 0),
            };
            let upstream: u64 = up.saturating_sub(last.0);
            let downstream: u64 = down.saturating_sub(last.1);
            assert(last == last_reported(self.reported(), client_id));
            if upstream > 0 || downstream > 0 {
                records.push(TrafficRecord { client_id, upstream, downstream });
                totals.push((client_id, (up, down)));
            }
            i += 1;
        }
        assert(current@.take(i as int) =~= current@);
        TrafficReport { records, totals }
    }

    /// Remembers that a report has arrived.
    pub fn acknowledge(&mut self, report: &TrafficReport)
        ensures
            final(self).reported() == acknowledged(old(self).reported(), report.totals@),
            final(self).config() == old(self).config(),
    {
        broadcast use vstd::std_specs::hash::group_hash_axioms;

        let mut i: usize = 0;
        assert(report.totals@.take(0) =~= Seq::<(u128, (u64, u64))>::empty());
        while i < report.totals.len()
            invariant
                i <= report.totals@.len(),
                self.reported() == acknowledged(
                    old(self).reported(),
                    report.totals@.take(i as int),
                ),
                self.config() == old(self).config(),
            decreases report.totals@.len() - i,
        {
            assert(report.totals@.take(i + 1).drop_last() =~= report.totals@.take(i as int));
            let (client_id, total): (u128, (u64, u64)) = report.totals[i];
            self.reported_traffic.insert(client_id, total);
            i += 1;
        }
        assert(report.totals@.take(i as int) =~= report.totals@);
    }

    /// The URL of an action of the panel.
    pub fn build_url(&self, action: &str) -> (r: Result<String, IoError>)
        ensures
            match r {
                Ok(url) => self.config().node_id is Some && self.config().webapi_url is Some
                    && url@ == action_url(
                    self.config().webapi_url->0@,
                    action@,
                    match self.config().webapi_token {
                        Some(token) => token@,
                        None => Seq::empty(),
                    },
                    self.config().node_id->0,
                ),
                Err(e) => if self.config().node_id is None {
                    e@ == (ErrorKind::Other, "panel sync node_id not set"@)
                } else {
                    self.config().webapi_url is None && e@ == (
                        ErrorKind::Other,
                        "panel sync webapi_url not set"@,
                    )
                },
            },
    {
        let node_id: usize = match self.config.node_id {
            Some(node_id) => node_id,
            None => {
                return Err(IoError::other("panel sync node_id not set"));
            },
        };
        let base = match &self.config.webapi_url {
            Some(url) => url,
            None => {
                return Err(IoError::other("panel sync webapi_url not set"));
            },
        };
        let chars = chars_of(base.as_str());
        let mut n: usize = chars.len();
        assert(chars@.take(n as int) =~= base@);
        while n > 0 && chars[n - 1] == '/'
            invariant
                n <= chars@.len(),
                without_slashes(base@) == without_slashes(chars@.take(n as int)),
            decreases n,
        {
            assert(chars@.take(n as int).drop_last() =~= chars@.take(n - 1));
            n -= 1;
        }
        let kept = slice_subrange(chars.as_slice(), 0, n);
        assert(kept@ =~= chars@.take(n as int));
        let mut url = string_of(kept);
        url.append("/mod_mu/");
        url.append(action);
        url.append("?key=");
        let ghost token = match self.config().webapi_token {
            Some(token) => token@,
            None => Seq::empty(),
        };
        match &self.config.webapi_token {
            Some(token) => {
                url.append(token.as_str());
            },
            None => {},
        }
        assert(url@ =~= without_slashes(base@) + "/mod_mu/"@ + action@ + "?key="@ + token);
        url.append("&node_id=");
        push_decimal(&mut url, node_id as u64);
        assert(url@ =~= action_url(base@, action@, token, node_id));
        Ok(url)
    }
}

fn is_named(users: &[SyncUser], id: u128) -> (r: bool)
    ensures
        r == names(users@, id),
{
    let mut i: usize = 0;
    while i < users.len()
        invariant
            i <= users@.len(),
            forall|j: int| 0 <= j < i ==> (#[trigger] users@[j]).client_id != Some(id),
        decreases users@.len() - i,
    {
        if let Some(other) = users[i].client_id {
            if other == id {
                assert(users@[i as int].client_id == Some(id));
                return true;
            }
        }
        i += 1;
    }
    false
}

/// Why a reply of the panel is of no use.
#[derive(Debug, Clone, Copy, PartialEq, Eq, Structural)]
pub enum ReplyProblem {
    /// The panel answered with another status than success.
    Status(u16),
    /// The panel did not mark its data as valid.
    WrongData,
}

/// Whether a reply of the panel is of use, given its status and the mark in its data.
pub fn check_reply(status: u16, ret: Option<i64>) -> (r: Result<(), ReplyProblem>)
    ensures
        r == if status != 200 {
            Err::<(), ReplyProblem>(ReplyProblem::Status(status))
        } else if ret is None || ret == Some(0i64) {
            Err::<(), ReplyProblem>(ReplyProblem::WrongData)
        } else {
            Ok::<(), ReplyProblem>(())
        },
{
    if status != 200 {
        return Err(ReplyProblem::Status(status));
    }
    match ret {
        None | Some(0) => Err(ReplyProblem::WrongData),
        Some(_) => Ok(()),
    }
}

/// As long as counters only grow, reports add up: what is reported first and what is reported
/// on top of it is what would be reported at once.
pub proof fn reports_add_up(last: u64, middle: u64, now: u64)
    requires
        last <= middle <= now,
    ensures
        increase(middle, last) + increase(now, middle) == increase(now, last),
        last + increase(now, last) == now,
{
}

/// A counter that went back, as after a restart, is reported as no traffic.
pub proof fn restarts_are_not_counted_twice(last: u64, now: u64)
    requires
        now < last,
    ensures
        increase(now, last) == 0,
{
}

/// Once a report has arrived, the same totals are no longer news, and what is reported next
/// counts from them.
pub proof fn arrived_reports_are_not_repeated(
    reported: Map<u128, (u64, u64)>,
    totals: Seq<(u128, (u64, u64))>,
    k: int,
)
    requires
        0 <= k < totals.len(),
        forall|j: int| k < j < totals.len() ==> (#[trigger] totals[j]).0 != totals[k].0,
    ensures
        last_reported(acknowledged(reported, totals), totals[k].0) == totals[k].1,
        !is_news(
            record_of(
                acknowledged(reported, totals),
                totals[k].0,
                totals[k].1.0,
                totals[k].1.1,
            ),
        ),
    decreases totals.len(),
{
    let shorter = totals.drop_last();
    if k < totals.len() - 1 {
        assert forall|j: int| k < j < shorter.len() implies (#[trigger] shorter[j]).0
            != shorter[k].0 by {
            assert(totals[j].0 != totals[k].0);
        }
        arrived_reports_are_not_repeated(reported, shorter, k);
        assert(totals[totals.len() - 1].0 != totals[k].0);
    }
}

/// Every client that a node has and that the panel no longer names is removed, and no client
/// that the panel names.
pub proof fn clients_follow_the_panel(existing: Seq<u128>, users: Seq<SyncUser>, id: u128)
    ensures
        gone_clients(existing, users).contains(id) <==> existing.contains(id) && !names(users, id),
    decreases existing.len(),
{
    if existing.len() > 0 {
        let shorter = existing.drop_last();
        let gone = gone_clients(existing, users);
        let earlier = gone_clients(shorter, users);
        clients_follow_the_panel(shorter, users, id);
        if existing.contains(id) {
            let j = choose|j: int| 0 <= j < existing.len() && existing[j] == id;
            if j < shorter.len() {
                assert(shorter[j] == id);
            }
        }
        if shorter.contains(id) {
            let j = choose|j: int| 0 <= j < shorter.len() && shorter[j] == id;
            assert(existing[j] == id);
        }
        if earlier.contains(id) {
            let j = choose|j: int| 0 <= j < earlier.len() && earlier[j] == id;
            assert(gone[j] == id);
        }
        if !names(users, existing.last()) {
            assert(gone.last() == existing.last());
            if gone.contains(id) {
                let j = choose|j: int| 0 <= j < gone.len() && gone[j] == id;
                if j < earlier.len() {
                    assert(earlier[j] == id);
                }
            }
        }
        assert(existing[existing.len() - 1] == existing.last());
    }
}

} // verus!
