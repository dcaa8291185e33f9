//! The sessions of a client over time: their numbers, who holds them, and what closing the client
//! leaves of them.
use crate::client::{
    after_client_call, cleaned, drop_count, reuse, reused_sessions_are_usable, stale_indices,
    stale_indices_are_in_order, taken_out, ClientCall, ClientView,
};
use crate::index::{keys, swap_removed};
use crate::pool::are_distinct;
use crate::text::{position, position_bounds};
use vstd::prelude::*;

verus! {

/// A client after several calls.
pub open spec fn after_client_calls(c: ClientView, calls: Seq<ClientCall>) -> ClientView
    decreases calls.len(),
{
    if calls.len() == 0 {
        c
    } else {
        after_client_call(after_client_calls(c, calls.drop_last()), calls.last())
    }
}

/// How many sessions are started.
pub open spec fn started(calls: Seq<ClientCall>) -> nat
    decreases calls.len(),
{
    if calls.len() == 0 {
        0
    } else {
        started(calls.drop_last()) + if calls.last() is Add {
            1nat
        } else {
            0
        }
    }
}

/// Whether the client is not closed.
pub open spec fn stays_open(calls: Seq<ClientCall>) -> bool {
    forall|i: int| 0 <= i < calls.len() ==> !((#[trigger] calls[i]) is Close)
}

/// Whether the session `seq` does not go idle.
pub open spec fn is_not_returned(calls: Seq<ClientCall>, seq: u64) -> bool {
    forall|i: int|
        0 <= i < calls.len() ==> !((#[trigger] calls[i]) matches ClientCall::Return(other, _)
            && other == seq)
}

/// Whether the session `seq` is among `s`.
pub open spec fn is_among(s: Seq<(u64, u64)>, seq: u64) -> bool {
    exists|i: int| 0 <= i < s.len() && (#[trigger] s[i]).0 == seq
}

proof fn keys_are_sessions(s: Seq<(u64, u64)>, seq: u64)
    ensures
        keys(s).contains(seq) <==> is_among(s, seq),
{
    if keys(s).contains(seq) {
        let i = choose|i: int| 0 <= i < keys(s).len() && keys(s)[i] == seq;
        assert(s[i].0 == seq);
    }
    if is_among(s, seq) {
        let i = choose|i: int| 0 <= i < s.len() && (#[trigger] s[i]).0 == seq;
        assert(keys(s)[i] == seq);
    }
}

proof fn fronts_are_distinct(s: Seq<(u64, u64)>, n: int)
    requires
        are_distinct(s),
        0 <= n <= s.len(),
    ensures
        are_distinct(s.take(n)),
        n < s.len() ==> !is_among(s.take(n), s[n].0),
{
    let front = s.take(n);
    assert forall|i: int, j: int| 0 <= i < j < front.len() implies (#[trigger] front[i]).0 != (
    #[trigger] front[j]).0 by {
        assert(front[i] == s[i] && front[j] == s[j]);
    }
    if n < s.len() && is_among(front, s[n].0) {
        let i = choose|i: int| 0 <= i < front.len() && (#[trigger] front[i]).0 == s[n].0;
        assert(front[i] == s[i]);
    }
}

proof fn taking_out_keeps_them_distinct(s: Seq<(u64, u64)>, indices: Seq<int>)
    requires
        are_distinct(s),
        crate::client::in_order(indices, s.len()),
    ensures
        are_distinct(taken_out(s, indices).0),
    decreases indices.len(),
{
    if indices.len() > 0 {
        let i = indices.last();
        let shorter = swap_removed(s, i);
        let earlier = indices.drop_last();
        assert(crate::client::in_order(earlier, shorter.len())) by {
            assert forall|j: int| 0 <= j < earlier.len() implies 0 <= #[trigger] earlier[j] < i by {
                assert(indices[j] < indices[indices.len() - 1]);
            }
        }
        assert(are_distinct(shorter));
        taking_out_keeps_them_distinct(shorter, earlier);
    }
}

proof fn cleaning_keeps_them_distinct(s: Seq<(u64, u64)>, now: u64, timeout: u64, min_idle: nat)
    requires
        are_distinct(s),
    ensures
        are_distinct(cleaned(s, now, timeout, min_idle).0),
{
    let stale = stale_indices(s, now, timeout, s.len());
    stale_indices_are_in_order(s, now, timeout, s.len());
    let n = drop_count(s.len(), stale.len(), min_idle) as int;
    taking_out_keeps_them_distinct(s, stale.take(n));
}

proof fn searching_keeps_them_distinct(
    s: Seq<(u64, u64)>,
    terminated: Set<u64>,
    now: u64,
    timeout: u64,
)
    requires
        are_distinct(s),
    ensures
        are_distinct(reuse(s, terminated, now, timeout).left),
        forall|seq: u64|
            #![trigger is_among(s, seq)]
            is_among(reuse(s, terminated, now, timeout).left, seq) ==> is_among(s, seq),
        reuse(s, terminated, now, timeout).session matches Some(seq) ==> is_among(s, seq) && !is_among(
            reuse(s, terminated, now, timeout).left,
            seq,
        ),
{
    reused_sessions_are_usable(s, terminated, now, timeout);
    let r = reuse(s, terminated, now, timeout);
    if r.session is Some {
        fronts_are_distinct(s, r.left.len() as int);
        assert forall|seq: u64| is_among(r.left, seq) implies #[trigger] is_among(s, seq) by {
            let i = choose|i: int| 0 <= i < r.left.len() && (#[trigger] r.left[i]).0 == seq;
            assert(s[i].0 == seq);
        }
    }
}

/// Whatever happens to a client, no two of its sessions have the same number, and no session
/// waits in its pool twice.
pub proof fn sessions_stay_distinct(c: ClientView, call: ClientCall)
    requires
        are_distinct(c.active),
        are_distinct(c.idle),
    ensures
        are_distinct(after_client_call(c, call).active),
        are_distinct(after_client_call(c, call).idle),
{
    let after = after_client_call(c, call);
    match call {
        ClientCall::Take(terminated, now) => {
            searching_keeps_them_distinct(c.idle, terminated, now, c.idle_session_timeout);
        },
        ClientCall::Find(terminated, now) => {
            searching_keeps_them_distinct(c.idle, terminated, now, c.idle_session_timeout);
        },
        ClientCall::Add(_) => {
            position_bounds(keys(c.active), c.next);
            assert(forall|i: int|
                0 <= i < c.active.len() ==> keys(c.active)[i] == #[trigger] c.active[i].0);
        },
        ClientCall::Ended(seq) => {
            position_bounds(keys(c.active), seq);
        },
        ClientCall::Return(seq, now) => {
            keys_are_sessions(c.idle, seq);
        },
        ClientCall::Clean(now) => {
            cleaning_keeps_them_distinct(
                c.idle,
                now,
                c.idle_session_timeout,
                c.min_idle_sessions,
            );
        },
        ClientCall::Close => {},
    }
}

/// The sessions that a client starts are numbered one after the other, and nothing but starting
/// one moves the number on. Its settings never change.
pub proof fn sessions_are_numbered(c: ClientView, calls: Seq<ClientCall>)
    requires
        !c.closed,
        stays_open(calls),
        c.next + started(calls) <= u64::MAX,
    ensures
        ({
            let after = after_client_calls(c, calls);
            &&& after.next == c.next + started(calls)
            &&& !after.closed
            &&& after.idle_session_timeout == c.idle_session_timeout
            &&& after.min_idle_sessions == c.min_idle_sessions
            &&& after.max_streams_per_session == c.max_streams_per_session
        }),
    decreases calls.len(),
{
    if calls.len() > 0 {
        let earlier = calls.drop_last();
        assert(stays_open(earlier)) by {
            assert forall|i: int| 0 <= i < earlier.len() implies !((
            #[trigger] earlier[i]) is Close) by {
                assert(earlier[i] == calls[i]);
            }
        }
        assert(calls[calls.len() - 1] == calls.last());
        sessions_are_numbered(c, earlier);
    }
}

/// A session that is started is among the client's from then on, under the next number, and the
/// others stay with it. One that has ended is no longer, and the others stay.
pub proof fn sessions_come_and_go(c: ClientView, session_id: u64, seq: u64, other: u64)
    requires
        are_distinct(c.active),
        !c.closed,
        other != c.next,
        other != seq,
    ensures
        ({
            let added = after_client_call(c, ClientCall::Add(session_id)).active;
            let ended = after_client_call(c, ClientCall::Ended(seq)).active;
            &&& added.contains((c.next, session_id))
            &&& is_among(added, other) == is_among(c.active, other)
            &&& !is_among(ended, seq)
            &&& is_among(ended, other) == is_among(c.active, other)
        }),
{
    let s = c.active;
    let added = after_client_call(c, ClientCall::Add(session_id)).active;
    let ended = after_client_call(c, ClientCall::Ended(seq)).active;
    assert(forall|i: int| 0 <= i < s.len() ==> keys(s)[i] == #[trigger] s[i].0);
    let i = position(keys(s), c.next);
    position_bounds(keys(s), c.next);
    if i < s.len() {
        assert(added[i] == (c.next, session_id));
    } else {
        assert(added[added.len() - 1] == (c.next, session_id));
    }
    if is_among(s, other) {
        let k = choose|k: int| 0 <= k < s.len() && (#[trigger] s[k]).0 == other;
        assert(added[k] == s[k]);
    }
    if is_among(added, other) {
        let k = choose|k: int| 0 <= k < added.len() && (#[trigger] added[k]).0 == other;
        assert(s[k] == added[k]);
    }
    let j = position(keys(s), seq);
    position_bounds(keys(s), seq);
    if j < s.len() {
        let last = s.len() - 1;
        if is_among(ended, seq) {
            let k = choose|k: int| 0 <= k < ended.len() && (#[trigger] ended[k]).0 == seq;
            if k == j {
                assert(s[last].0 == seq);
            } else {
                assert(s[k].0 == seq);
            }
        }
        if is_among(s, other) {
            let k = choose|k: int| 0 <= k < s.len() && (#[trigger] s[k]).0 == other;
            if k == last {
                assert(ended[j] == s[k]);
            } else {
                assert(ended[k] == s[k]);
            }
        }
        if is_among(ended, other) {
            let k = choose|k: int| 0 <= k < ended.len() && (#[trigger] ended[k]).0 == other;
            if k == j {
                assert(s[last].0 == other);
            } else {
                assert(s[k].0 == other);
            }
        }
    } else if is_among(s, seq) {
        let k = choose|k: int| 0 <= k < s.len() && (#[trigger] s[k]).0 == seq;
        assert(keys(s)[k] == seq);
    }
}

/// Sessions get into the pool by going idle and in no other way. One that has gone idle is the
/// next that is looked at, unless it was in the pool already.
pub proof fn sessions_go_idle(c: ClientView, seq: u64, now: u64)
    ensures
        ({
            let after = after_client_call(c, ClientCall::Return(seq, now)).idle;
            &&& is_among(after, seq)
            &&& is_among(c.idle, seq) ==> after == c.idle
            &&& !is_among(c.idle, seq) ==> after == c.idle.push((seq, now))
        }),
{
    keys_are_sessions(c.idle, seq);
    let after = after_client_call(c, ClientCall::Return(seq, now)).idle;
    if !is_among(c.idle, seq) {
        assert(after[after.len() - 1].0 == seq);
    }
}

/// A session that is handed out for reuse is not handed out again before it has gone idle again:
/// whatever else happens, it is not in the pool.
pub proof fn sessions_are_lent_once(
    c: ClientView,
    terminated: Set<u64>,
    now: u64,
    later: Seq<ClientCall>,
)
    requires
        are_distinct(c.active),
        are_distinct(c.idle),
        reuse(c.idle, terminated, now, c.idle_session_timeout).session is Some,
        is_not_returned(
            later,
            reuse(c.idle, terminated, now, c.idle_session_timeout).session->0,
        ),
    ensures
        ({
            let seq = reuse(c.idle, terminated, now, c.idle_session_timeout).session->0;
            let taken = after_client_call(c, ClientCall::Take(terminated, now));
            &&& is_among(c.idle, seq)
            &&& !is_among(after_client_calls(taken, later).idle, seq)
            &&& forall|gone: Set<u64>, at: u64|
                (#[trigger] reuse(
                    after_client_calls(taken, later).idle,
                    gone,
                    at,
                    c.idle_session_timeout,
                )).session != Some(seq)
        }),
{
    let seq = reuse(c.idle, terminated, now, c.idle_session_timeout).session->0;
    let taken = after_client_call(c, ClientCall::Take(terminated, now));
    searching_keeps_them_distinct(c.idle, terminated, now, c.idle_session_timeout);
    sessions_stay_distinct(c, ClientCall::Take(terminated, now));
    not_returned_is_not_idle(taken, later, seq);
    let after = after_client_calls(taken, later);
    assert forall|gone: Set<u64>, at: u64|
        #![trigger reuse(after.idle, gone, at, c.idle_session_timeout)]
        reuse(after.idle, gone, at, c.idle_session_timeout).session != Some(seq) by {
        searching_keeps_them_distinct(after.idle, gone, at, c.idle_session_timeout);
    }
}

proof fn not_returned_is_not_idle(c: ClientView, calls: Seq<ClientCall>, seq: u64)
    requires
        are_distinct(c.active),
        are_distinct(c.idle),
        !is_among(c.idle, seq),
        is_not_returned(calls, seq),
    ensures
        !is_among(after_client_calls(c, calls).idle, seq),
        are_distinct(after_client_calls(c, calls).active),
        are_distinct(after_client_calls(c, calls).idle),
    decreases calls.len(),
{
    if calls.len() > 0 {
        let earlier = calls.drop_last();
        let call = calls.last();
        assert(calls[calls.len() - 1] == call);
        assert(is_not_returned(earlier, seq)) by {
            assert forall|i: int| 0 <= i < earlier.len() implies !((
            #[trigger] earlier[i]) matches ClientCall::Return(other, _) && other == seq) by {
                assert(earlier[i] == calls[i]);
            }
        }
        not_returned_is_not_idle(c, earlier, seq);
        let before = after_client_calls(c, earlier);
        sessions_stay_distinct(before, call);
        let timeout = before.idle_session_timeout;
        let after = after_client_call(before, call).idle;
        assert(!is_among(before.idle, seq));
        match call {
            ClientCall::Take(terminated, now) => {
                searching_keeps_them_distinct(before.idle, terminated, now, timeout);
            },
            ClientCall::Find(terminated, now) => {
                searching_keeps_them_distinct(before.idle, terminated, now, timeout);
            },
            ClientCall::Return(other, now) => {
                if is_among(after, seq) {
                    let i = choose|i: int| 0 <= i < after.len() && (#[trigger] after[i]).0 == seq;
                    if i < before.idle.len() {
                        assert(before.idle[i].0 == seq);
                    }
                }
            },
            ClientCall::Clean(now) => {
                let stale = stale_indices(before.idle, now, timeout, before.idle.len());
                let n = drop_count(
                    before.idle.len(),
                    stale.len(),
                    before.min_idle_sessions,
                ) as int;
                stale_indices_are_in_order(before.idle, now, timeout, before.idle.len());
                crate::client::taking_out_keeps_the_rest(before.idle, stale.take(n));
                if is_among(after, seq) {
                    let i = choose|i: int| 0 <= i < after.len() && (#[trigger] after[i]).0 == seq;
                    assert(after.contains(after[i]));
                    let k = choose|k: int| 0 <= k < before.idle.len() && before.idle[k] == after[i];
                    assert(before.idle[k].0 == seq);
                }
            },
            _ => {},
        }
    }
}

/// A client that is closed has no sessions, takes none in, and stays closed.
pub proof fn closed_clients_take_nothing_in(c: ClientView, session_id: u64, later: Seq<ClientCall>)
    ensures
        ({
            let closed = after_client_call(c, ClientCall::Close);
            &&& closed.closed
            &&& !c.closed ==> closed.active.len() == 0 && closed.idle.len() == 0
            &&& after_client_call(closed, ClientCall::Add(session_id)) == closed
            &&& after_client_call(closed, ClientCall::Close) == closed
            &&& after_client_calls(closed, later).closed
            &&& after_client_calls(closed, later).active.len() <= closed.active.len()
        }),
    decreases later.len(),
{
    if later.len() > 0 {
        closed_clients_take_nothing_in(c, session_id, later.drop_last());
        let before = after_client_calls(after_client_call(c, ClientCall::Close), later.drop_last());
        if let ClientCall::Ended(seq) = later.last() {
            position_bounds(keys(before.active), seq);
        }
    }
}

} // verus!
