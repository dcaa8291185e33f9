//! What reports to a panel, and the changes that it asks for, are for.
use crate::panel_sync::{
    acknowledged, action_url, forgotten, gone_clients, id_value, named_clients, records_of,
    totals_of, without_slashes, SyncUser, TrafficRecord,
};
use crate::text::decimal;
use vstd::prelude::*;

verus! {

/// The totals by client that the panel knows of.
pub type Reported = Map<u128, (u64, u64)>;

/// Clients with their totals, as they are now.
pub type Totals = Seq<(u128, u64, u64)>;

/// What the panel knows of a client: nothing means that both totals are 0.
pub open spec fn known(reported: Reported, id: u128) -> (u64, u64) {
    if reported.contains_key(id) {
        reported[id]
    } else {
        (0, 0)
    }
}

/// A report holds, in order, a record for each client of which a total is larger than the panel
/// knows, and for no other client. The record says by how much each total is larger, and the
/// report accounts for both totals as they are.
pub proof fn reports_tell_what_came_on_top(
    reported: Reported,
    current: Totals,
    id: u128,
    up: u64,
    down: u64,
)
    ensures
        ({
            let (up0, down0) = known(reported, id);
            let all = current.push((id, up, down));
            if up > up0 || down > down0 {
                &&& records_of(reported, all) == records_of(reported, current).push(
                    TrafficRecord {
                        client_id: id,
                        upstream: if up > up0 {
                            (up - up0) as u64
                        } else {
                            0
                        },
                        downstream: if down > down0 {
                            (down - down0) as u64
                        } else {
                            0
                        },
                    },
                )
                &&& totals_of(reported, all) == totals_of(reported, current).push((id, (up, down)))
            } else {
                &&& records_of(reported, all) == records_of(reported, current)
                &&& totals_of(reported, all) == totals_of(reported, current)
            }
        }),
        records_of(reported, Seq::empty()) == Seq::<TrafficRecord>::empty(),
        totals_of(reported, Seq::empty()) == Seq::<(u128, (u64, u64))>::empty(),
{
    let all = current.push((id, up, down));
    assert(all.drop_last() =~= current);
}

/// A report that has arrived makes the panel know the totals that it accounts for, and leaves
/// the other clients as they are.
pub proof fn arrived_reports_are_known(
    reported: Reported,
    totals: Seq<(u128, (u64, u64))>,
    id: u128,
    total: (u64, u64),
    other: u128,
)
    ensures
        acknowledged(reported, Seq::empty()) == reported,
        known(acknowledged(reported, totals.push((id, total))), id) == total,
        other != id ==> known(acknowledged(reported, totals.push((id, total))), other) == known(
            acknowledged(reported, totals),
            other,
        ),
{
    assert(totals.push((id, total)).drop_last() =~= totals);
}

/// The upstream of all records of `id`.
pub open spec fn upstream_of(records: Seq<TrafficRecord>, id: u128) -> nat
    decreases records.len(),
{
    if records.len() == 0 {
        0
    } else {
        upstream_of(records.drop_last(), id) + if records.last().client_id == id {
            records.last().upstream as nat
        } else {
            0
        }
    }
}

/// The downstream of all records of `id`.
pub open spec fn downstream_of(records: Seq<TrafficRecord>, id: u128) -> nat
    decreases records.len(),
{
    if records.len() == 0 {
        0
    } else {
        downstream_of(records.drop_last(), id) + if records.last().client_id == id {
            records.last().downstream as nat
        } else {
            0
        }
    }
}

/// Whether `id` is in `current` once, at `i`.
pub open spec fn is_once(current: Totals, i: int, id: u128) -> bool {
    &&& 0 <= i < current.len()
    &&& current[i].0 == id
    &&& forall|j: int| 0 <= j < current.len() && j != i ==> (#[trigger] current[j]).0 != id
}

proof fn absent_clients_are_not_reported(reported: Reported, current: Totals, id: u128)
    requires
        forall|j: int| 0 <= j < current.len() ==> (#[trigger] current[j]).0 != id,
    ensures
        upstream_of(records_of(reported, current), id) == 0,
        downstream_of(records_of(reported, current), id) == 0,
        known(acknowledged(reported, totals_of(reported, current)), id) == known(reported, id),
    decreases current.len(),
{
    if current.len() > 0 {
        let front = current.drop_last();
        let (last_id, up, down) = current.last();
        assert forall|j: int| 0 <= j < front.len() implies (#[trigger] front[j]).0 != id by {
            assert(front[j] == current[j]);
        }
        absent_clients_are_not_reported(reported, front, id);
        reports_tell_what_came_on_top(reported, front, last_id, up, down);
        assert(front.push((last_id, up, down)) =~= current);
        assert(current[current.len() - 1].0 != id);
        let records = records_of(reported, current);
        let earlier = records_of(reported, front);
        if records != earlier {
            assert(records.drop_last() =~= earlier);
        }
        arrived_reports_are_known(
            reported,
            totals_of(reported, front),
            last_id,
            (up, down),
            id,
        );
    }
}

/// A report loses nothing and adds nothing: for a client whose totals have not gone back, it
/// holds as much upstream and downstream as has come on top of what the panel knows, and once it
/// has arrived, the panel knows the totals.
pub proof fn reports_lose_nothing(reported: Reported, current: Totals, i: int, id: u128)
    requires
        is_once(current, i, id),
        known(reported, id).0 <= current[i].1,
        known(reported, id).1 <= current[i].2,
    ensures
        upstream_of(records_of(reported, current), id) == current[i].1 - known(reported, id).0,
        downstream_of(records_of(reported, current), id) == current[i].2 - known(reported, id).1,
        known(acknowledged(reported, totals_of(reported, current)), id) == (
            current[i].1,
            current[i].2,
        ),
    decreases current.len(),
{
    let front = current.drop_last();
    let (last_id, up, down) = current.last();
    reports_tell_what_came_on_top(reported, front, last_id, up, down);
    assert(front.push((last_id, up, down)) =~= current);
    let records = records_of(reported, current);
    let earlier = records_of(reported, front);
    if records != earlier {
        assert(records.drop_last() =~= earlier);
    }
    arrived_reports_are_known(reported, totals_of(reported, front), last_id, (up, down), id);
    if i == current.len() - 1 {
        assert forall|j: int| 0 <= j < front.len() implies (#[trigger] front[j]).0 != id by {
            assert(front[j] == current[j]);
        }
        absent_clients_are_not_reported(reported, front, id);
    } else {
        assert(is_once(front, i, id)) by {
            assert forall|j: int| 0 <= j < front.len() && j != i implies (#[trigger] front[j]).0
                != id by {
                assert(front[j] == current[j]);
            }
        }
        reports_lose_nothing(reported, front, i, id);
        assert(current[current.len() - 1].0 != id);
    }
}

/// What the panel knows after several reports, each of which has arrived.
pub open spec fn known_after(reported: Reported, rounds: Seq<Totals>) -> Reported
    decreases rounds.len(),
{
    if rounds.len() == 0 {
        reported
    } else {
        let earlier = known_after(reported, rounds.drop_last());
        acknowledged(earlier, totals_of(earlier, rounds.last()))
    }
}

/// What several reports, each of which has arrived, told of a client altogether.
pub open spec fn told(reported: Reported, rounds: Seq<Totals>, id: u128) -> (nat, nat)
    decreases rounds.len(),
{
    if rounds.len() == 0 {
        (0, 0)
    } else {
        let (up, down) = told(reported, rounds.drop_last(), id);
        let records = records_of(known_after(reported, rounds.drop_last()), rounds.last());
        (up + upstream_of(records, id), down + downstream_of(records, id))
    }
}

/// The totals of the client `id` in round `k`, which it is in at `places[k]`.
pub open spec fn totals_in(rounds: Seq<Totals>, places: Seq<int>, k: int) -> (u64, u64) {
    (rounds[k][places[k]].1, rounds[k][places[k]].2)
}

/// Whether `id` is in every round once and its totals only grow, starting from what the panel
/// knows.
pub open spec fn only_grows(
    reported: Reported,
    rounds: Seq<Totals>,
    places: Seq<int>,
    id: u128,
) -> bool {
    &&& rounds.len() == places.len()
    &&& forall|k: int| 0 <= k < rounds.len() ==> is_once(#[trigger] rounds[k], places[k], id)
    &&& forall|k: int|
        0 <= k < rounds.len() ==> ({
            let (up, down) = #[trigger] totals_in(rounds, places, k);
            let (up0, down0) = if k == 0 {
                known(reported, id)
            } else {
                totals_in(rounds, places, k - 1)
            };
            up0 <= up && down0 <= down
        })
}

/// What is told of a client adds up: over any number of reports the upstream and the downstream
/// that the panel is told are what the totals have grown by.
pub proof fn told_traffic_adds_up(
    reported: Reported,
    rounds: Seq<Totals>,
    places: Seq<int>,
    id: u128,
)
    requires
        rounds.len() > 0,
        only_grows(reported, rounds, places, id),
    ensures
        ({
            let last = totals_in(rounds, places, rounds.len() - 1);
            &&& told(reported, rounds, id).0 == last.0 - known(reported, id).0
            &&& told(reported, rounds, id).1 == last.1 - known(reported, id).1
            &&& known(known_after(reported, rounds), id) == last
        }),
    decreases rounds.len(),
{
    let n = rounds.len() - 1;
    let front = rounds.drop_last();
    let before = known_after(reported, front);
    let last = totals_in(rounds, places, n);
    assert(is_once(rounds[n], places[n], id));
    if n > 0 {
        let shorter = places.drop_last();
        assert(only_grows(reported, front, shorter, id)) by {
            assert forall|k: int| 0 <= k < front.len() implies is_once(
                #[trigger] front[k],
                shorter[k],
                id,
            ) by {
                assert(front[k] == rounds[k]);
            }
            assert forall|k: int| 0 <= k < front.len() implies ({
                let (up, down) = #[trigger] totals_in(front, shorter, k);
                let (up0, down0) = if k == 0 {
                    known(reported, id)
                } else {
                    totals_in(front, shorter, k - 1)
                };
                up0 <= up && down0 <= down
            }) by {
                assert(totals_in(front, shorter, k) == totals_in(rounds, places, k));
                if k > 0 {
                    assert(totals_in(front, shorter, k - 1) == totals_in(rounds, places, k - 1));
                }
            }
        }
        told_traffic_adds_up(reported, front, shorter, id);
        assert(totals_in(front, shorter, n - 1) == totals_in(rounds, places, n - 1));
    }
    assert(n == 0 ==> told(reported, front, id) == (0nat, 0nat) && before == reported);
    reports_lose_nothing(before, rounds[n], places[n], id);
    assert(rounds.last() == rounds[n]);
    let (up, down) = told(reported, front, id);
    let records = records_of(before, rounds[n]);
    assert(told(reported, rounds, id) == (
        up + upstream_of(records, id),
        down + downstream_of(records, id),
    ));
}

/// Whether `users` name the client `id`.
pub open spec fn is_listed(users: Seq<SyncUser>, id: u128) -> bool {
    exists|i: int| 0 <= i < users.len() && (#[trigger] users[i]).client_id == Some(id)
}

/// Every user that names a client is added with what the panel says about it, in order; the
/// others are passed over.
pub proof fn named_clients_are_added(users: Seq<SyncUser>, user: SyncUser)
    ensures
        named_clients(Seq::empty()) == Seq::<(u128, bool)>::empty(),
        named_clients(users.push(user)) == if user.client_id is Some {
            named_clients(users).push((user.client_id->0, user.enable))
        } else {
            named_clients(users)
        },
{
    assert(users.push(user).drop_last() =~= users);
}

/// A client that a node has is removed exactly if no user names it.
pub proof fn unnamed_clients_are_removed(existing: Seq<u128>, id: u128, users: Seq<SyncUser>)
    ensures
        gone_clients(Seq::empty(), users) == Seq::<u128>::empty(),
        gone_clients(existing.push(id), users) == if is_listed(users, id) {
            gone_clients(existing, users)
        } else {
            gone_clients(existing, users).push(id)
        },
{
    assert(existing.push(id).drop_last() =~= existing);
}

proof fn added_clients_are_named(users: Seq<SyncUser>, id: u128)
    ensures
        (exists|b: bool| #[trigger] named_clients(users).contains((id, b))) <==> is_listed(
            users,
            id,
        ),
    decreases users.len(),
{
    if users.len() > 0 {
        let front = users.drop_last();
        let user = users.last();
        let all = named_clients(users);
        let earlier = named_clients(front);
        added_clients_are_named(front, id);
        named_clients_are_added(front, user);
        assert(front.push(user) =~= users);
        if is_listed(users, id) {
            let i = choose|i: int|
                0 <= i < users.len() && (#[trigger] users[i]).client_id == Some(id);
            if i < front.len() {
                assert(front[i].client_id == Some(id));
                let b = choose|b: bool| #[trigger] earlier.contains((id, b));
                let j = choose|j: int| 0 <= j < earlier.len() && earlier[j] == (id, b);
                assert(all[j] == (id, b));
                assert(all.contains((id, b)));
            } else {
                assert(all.last() == (id, user.enable));
                assert(all.contains((id, user.enable)));
            }
        }
        if exists|b: bool| #[trigger] all.contains((id, b)) {
            let b = choose|b: bool| #[trigger] all.contains((id, b));
            let j = choose|j: int| 0 <= j < all.len() && all[j] == (id, b);
            if j < earlier.len() {
                assert(earlier[j] == (id, b));
                assert(earlier.contains((id, b)));
                let i = choose|i: int|
                    0 <= i < front.len() && (#[trigger] front[i]).client_id == Some(id);
                assert(users[i].client_id == Some(id));
            } else {
                assert(users[users.len() - 1].client_id == Some(id));
            }
        }
    } else {
        assert forall|b: bool| !(#[trigger] named_clients(users).contains((id, b))) by {}
    }
}

/// After a node has added and removed what it is told to, its clients are those that the panel
/// names, and no others.
pub proof fn the_node_has_the_clients_of_the_panel(
    existing: Seq<u128>,
    users: Seq<SyncUser>,
    id: u128,
)
    ensures
        ({
            let added = exists|b: bool| #[trigger] named_clients(users).contains((id, b));
            let kept = existing.contains(id) && !gone_clients(existing, users).contains(id);
            added || kept <==> is_listed(users, id)
        }),
        gone_clients(existing, users).contains(id) ==> existing.contains(id) && !is_listed(
            users,
            id,
        ),
{
    added_clients_are_named(users, id);
    crate::panel_sync::clients_follow_the_panel(existing, users, id);
}

/// What was reported for a client is forgotten exactly if the client is removed.
pub proof fn removed_clients_are_forgotten(reported: Reported, gone: Seq<u128>, id: u128)
    ensures
        known(forgotten(reported, gone), id) == if gone.contains(id) {
            (0u64, 0u64)
        } else {
            known(reported, id)
        },
{
}

/// `n` slashes.
pub open spec fn slashes(n: nat) -> Seq<char> {
    Seq::new(n, |i: int| '/')
}

proof fn slashes_at_the_end_do_not_count(base: Seq<char>, n: nat)
    requires
        base.len() > 0 ==> base.last() != '/',
    ensures
        without_slashes(base + slashes(n)) == base,
    decreases n,
{
    let s = base + slashes(n);
    if n > 0 {
        assert(s.last() == '/');
        assert(s.drop_last() =~= base + slashes((n - 1) as nat));
        slashes_at_the_end_do_not_count(base, (n - 1) as nat);
    } else {
        assert(s =~= base);
    }
}

/// The URL of an action, however many slashes stand at the end of the panel's own URL.
pub proof fn actions_have_their_url(
    base: Seq<char>,
    n: nat,
    action: Seq<char>,
    token: Seq<char>,
    node_id: usize,
)
    requires
        base.len() > 0 ==> base.last() != '/',
    ensures
        action_url(base + slashes(n), action, token, node_id) == base + "/mod_mu/"@ + action
            + "?key="@ + token + "&node_id="@ + decimal(node_id as nat),
{
    slashes_at_the_end_do_not_count(base, n);
}

/// Client ids are told apart by their numbers.
pub proof fn client_ids_are_told_apart(a: Seq<u8>, b: Seq<u8>)
    requires
        a.len() == b.len(),
        id_value(a) == id_value(b),
    ensures
        a == b,
    decreases a.len(),
{
    if a.len() > 0 {
        client_ids_are_told_apart(a.drop_last(), b.drop_last());
        assert(a.drop_last().push(a.last()) =~= a);
        assert(b.drop_last().push(b.last()) =~= b);
    } else {
        assert(a =~= b);
    }
}

/// The number of a client id is that of its bytes, the first of which counts most.
pub proof fn client_ids_are_numbers(a: Seq<u8>, b: Seq<u8>)
    requires
        a.len() == 16,
        b.len() == 16,
        a[0] < b[0],
    ensures
        id_value(a) < id_value(b),
{
    let unit = vstd::arithmetic::power::pow(0x100, 15);
    let (x, y) = (a[0] as int, b[0] as int);
    first_byte_counts_most(a);
    first_byte_counts_most(b);
    vstd::arithmetic::power::lemma_pow_positive(0x100, 15);
    assert((x + 1) * unit <= y * unit) by (nonlinear_arith)
        requires
            x + 1 <= y,
            unit > 0,
    ;
}

proof fn first_byte_counts_most(a: Seq<u8>)
    requires
        a.len() > 0,
    ensures
        ({
            let unit = vstd::arithmetic::power::pow(0x100, (a.len() - 1) as nat);
            a[0] * unit <= id_value(a) < (a[0] + 1) * unit
        }),
    decreases a.len(),
{
    let unit = vstd::arithmetic::power::pow(0x100, (a.len() - 1) as nat);
    vstd::arithmetic::power::lemma_pow0(0x100);
    if a.len() > 1 {
        let front = a.drop_last();
        let smaller = vstd::arithmetic::power::pow(0x100, (a.len() - 2) as nat);
        first_byte_counts_most(front);
        reveal(vstd::arithmetic::power::pow);
        assert(unit == 0x100 * smaller);
        let first = a[0] as int;
        assert(first * unit == 0x100 * (first * smaller)) by (nonlinear_arith)
            requires
                unit == 0x100 * smaller,
        ;
        assert((first + 1) * unit == 0x100 * ((first + 1) * smaller)) by (nonlinear_arith)
            requires
                unit == 0x100 * smaller,
        ;
    } else {
        assert(id_value(a.drop_last()) == 0);
    }
}

} // verus!
