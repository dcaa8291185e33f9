//! What a client does with its idle sessions: which it reuses, which it drops, and which it
//! keeps.
use crate::client::{
    cleaned, drop_count, first_available, in_order, is_stale, reuse, stale_indices,
    stale_indices_are_in_order, taken_out, taking_out_keeps_the_rest,
};
use crate::index::swap_removed;
use vstd::prelude::*;

verus! {

/// Whether no session occurs twice.
pub open spec fn are_distinct(s: Seq<(u64, u64)>) -> bool {
    forall|i: int, j: int| 0 <= i < j < s.len() ==> (#[trigger] s[i]).0 != (#[trigger] s[j]).0
}

/// A session is stale once it has been idle for as long as the timeout says. One that seems to
/// have gone idle later than now has been idle for no time.
pub proof fn sessions_go_stale(seq: u64, since: u64, now: u64, timeout: u64)
    ensures
        since <= now ==> (is_stale((seq, since), now, timeout) <==> since + timeout <= now),
        since > now ==> (is_stale((seq, since), now, timeout) <==> timeout == 0),
{
}

/// The search for a session to reuse drops the sessions that it passes over: those that are
/// terminated without a word, and those that are stale to be terminated. A session that it does
/// not pass over is not dropped.
pub proof fn the_search_drops_what_it_passes(
    s: Seq<(u64, u64)>,
    terminated: Set<u64>,
    now: u64,
    timeout: u64,
)
    ensures
        ({
            let r = reuse(s, terminated, now, timeout);
            let first = if r.session is Some {
                r.left.len() + 1
            } else {
                0
            };
            &&& r.stale.len() <= s.len() - first
            &&& forall|j: int|
                first <= j < s.len() && !terminated.contains((#[trigger] s[j]).0)
                    ==> r.stale.contains(s[j].0)
            &&& forall|k: int|
                0 <= k < r.stale.len() ==> !terminated.contains(#[trigger] r.stale[k])
                    && exists|j: int|
                    first <= j < s.len() && (#[trigger] s[j]).0 == r.stale[k] && is_stale(
                        s[j],
                        now,
                        timeout,
                    )
        }),
    decreases s.len(),
{
    if s.len() > 0 {
        let last = s.last();
        let rest = s.drop_last();
        the_search_drops_what_it_passes(rest, terminated, now, timeout);
        let r = reuse(s, terminated, now, timeout);
        let before = reuse(rest, terminated, now, timeout);
        if terminated.contains(last.0) || is_stale(last, now, timeout) {
            let first = if r.session is Some {
                r.left.len() + 1
            } else {
                0
            };
            let shift: int = if terminated.contains(last.0) {
                0
            } else {
                1
            };
            assert forall|j: int|
                first <= j < s.len() && !terminated.contains(
                    (#[trigger] s[j]).0,
                ) implies r.stale.contains(s[j].0) by {
                if j < rest.len() {
                    assert(rest[j] == s[j]);
                    let k = choose|k: int|
                        0 <= k < before.stale.len() && before.stale[k] == s[j].0;
                    assert(r.stale[k + shift] == s[j].0);
                } else {
                    assert(r.stale[0] == s[j].0);
                }
            }
            assert forall|k: int| 0 <= k < r.stale.len() implies !terminated.contains(
                #[trigger] r.stale[k],
            ) && exists|j: int|
                first <= j < s.len() && (#[trigger] s[j]).0 == r.stale[k] && is_stale(
                    s[j],
                    now,
                    timeout,
                ) by {
                if shift == 1 && k == 0 {
                    assert(s[s.len() - 1].0 == r.stale[k]);
                } else {
                    assert(r.stale[k] == before.stale[k - shift]);
                    let j = choose|j: int|
                        first <= j < rest.len() && (#[trigger] rest[j]).0 == before.stale[k - shift]
                            && is_stale(rest[j], now, timeout);
                    assert(s[j] == rest[j]);
                }
            }
        }
    }
}

proof fn taken_sessions_are_gone(s: Seq<(u64, u64)>, indices: Seq<int>)
    requires
        are_distinct(s),
        in_order(indices, s.len()),
    ensures
        forall|j: int|
            0 <= j < indices.len() ==> !taken_out(s, indices).0.contains(
                s[#[trigger] indices[j]],
            ),
    decreases indices.len(),
{
    if indices.len() > 0 {
        let i = indices.last();
        let shorter = swap_removed(s, i);
        let earlier = indices.drop_last();
        assert(in_order(earlier, shorter.len())) by {
            assert forall|j: int| 0 <= j < earlier.len() implies 0 <= #[trigger] earlier[j] < i by {
                assert(indices[j] < indices[indices.len() - 1]);
            }
        }
        assert(are_distinct(shorter));
        taken_sessions_are_gone(shorter, earlier);
        taking_out_keeps_the_rest(shorter, earlier);
        let left = taken_out(s, indices).0;
        assert forall|j: int| 0 <= j < indices.len() implies !left.contains(
            s[#[trigger] indices[j]],
        ) by {
            if j < earlier.len() {
                assert(earlier[j] == indices[j]);
                assert(indices[j] < indices[indices.len() - 1]);
                assert(shorter[indices[j]] == s[indices[j]]);
            } else if left.contains(s[i]) {
                assert(shorter.contains(s[i]));
                let k = choose|k: int| 0 <= k < shorter.len() && shorter[k] == s[i];
                assert(s[k] == s[i] || s[s.len() - 1] == s[i]);
            }
        }
    }
}

/// Cleaning up drops a session or keeps it, and never both. What it drops is stale, and of two
/// stale sessions it does not keep the one that stands first and drop the other. It goes on until
/// no stale session is left, or no more sessions than are to be kept, and it never leaves fewer
/// than those.
pub proof fn cleaning_up_goes_far_enough(
    s: Seq<(u64, u64)>,
    now: u64,
    timeout: u64,
    min_idle: nat,
)
    requires
        are_distinct(s),
    ensures
        ({
            let (left, dropped) = cleaned(s, now, timeout, min_idle);
            &&& left.len() + dropped.len() == s.len()
            &&& forall|j: int|
                0 <= j < s.len() ==> (left.contains(#[trigger] s[j]) <==> !dropped.contains(s[j].0))
            &&& forall|j: int|
                0 <= j < s.len() && dropped.contains((#[trigger] s[j]).0) ==> is_stale(
                    s[j],
                    now,
                    timeout,
                )
            &&& forall|i: int, j: int|
                0 <= i < j < s.len() && dropped.contains((#[trigger] s[j]).0) && is_stale(
                    #[trigger] s[i],
                    now,
                    timeout,
                ) ==> dropped.contains(s[i].0)
            &&& s.len() <= min_idle ==> left == s
            &&& s.len() >= min_idle ==> left.len() >= min_idle
            &&& left.len() <= min_idle || forall|k: int|
                0 <= k < left.len() ==> !is_stale(#[trigger] left[k], now, timeout)
        }),
{
    let stale = stale_indices(s, now, timeout, s.len());
    let n = drop_count(s.len(), stale.len(), min_idle) as int;
    stale_indices_are_in_order(s, now, timeout, s.len());
    let chosen = stale.take(n);
    taking_out_keeps_the_rest(s, chosen);
    taken_sessions_are_gone(s, chosen);
    let (left, dropped) = cleaned(s, now, timeout, min_idle);
    assert forall|j: int| 0 <= j < s.len() implies (chosen.contains(j) <==> dropped.contains(
        (#[trigger] s[j]).0,
    )) by {
        if chosen.contains(j) {
            let k = choose|k: int| 0 <= k < chosen.len() && chosen[k] == j;
            assert(dropped[chosen.len() - 1 - k] == s[chosen[k]].0);
        }
        if dropped.contains(s[j].0) {
            let k = choose|k: int| 0 <= k < dropped.len() && dropped[k] == s[j].0;
            let i = chosen[chosen.len() - 1 - k];
            assert(s[i].0 == s[j].0);
            assert(i == j);
        }
    }
    assert forall|j: int| 0 <= j < s.len() implies (left.contains(#[trigger] s[j])
        <==> !dropped.contains(s[j].0)) by {
        if chosen.contains(j) {
            let k = choose|k: int| 0 <= k < chosen.len() && chosen[k] == j;
            assert(!left.contains(s[chosen[k]]));
        }
    }
    assert forall|j: int| 0 <= j < s.len() && dropped.contains(
        (#[trigger] s[j]).0,
    ) implies is_stale(s[j], now, timeout) by {
        let k = choose|k: int| 0 <= k < chosen.len() && chosen[k] == j;
        assert(stale.contains(stale[k]));
    }
    assert forall|i: int, j: int|
        0 <= i < j < s.len() && dropped.contains((#[trigger] s[j]).0) && is_stale(
            #[trigger] s[i],
            now,
            timeout,
        ) implies dropped.contains(s[i].0) by {
        let b = choose|k: int| 0 <= k < chosen.len() && chosen[k] == j;
        assert(stale.contains(i));
        let a = choose|k: int| 0 <= k < stale.len() && stale[k] == i;
        assert(stale[b] == j);
        if b <= a {
            assert(stale[b] <= stale[a]);
        }
        assert(chosen[a] == i);
    }
    if s.len() <= min_idle {
        assert(chosen =~= Seq::<int>::empty());
    }
    if left.len() > min_idle {
        assert(chosen =~= stale);
        assert forall|k: int| 0 <= k < left.len() implies !is_stale(
            #[trigger] left[k],
            now,
            timeout,
        ) by {
            assert(left.contains(left[k]));
            assert(s.contains(left[k]));
            let j = choose|j: int| 0 <= j < s.len() && s[j] == left[k];
            if is_stale(s[j], now, timeout) {
                assert(stale.contains(j));
            }
        }
    }
}

/// The session that gets the next stream is the first that has room for it, if one has.
pub proof fn the_first_session_with_room_is_taken(sessions: Seq<u64>, available: Set<u64>)
    ensures
        match first_available(sessions, available) {
            Some(seq) => exists|i: int|
                0 <= i < sessions.len() && #[trigger] sessions[i] == seq && available.contains(seq)
                    && forall|j: int| 0 <= j < i ==> !available.contains(#[trigger] sessions[j]),
            None => forall|j: int|
                0 <= j < sessions.len() ==> !available.contains(#[trigger] sessions[j]),
        },
    decreases sessions.len(),
{
    if sessions.len() > 0 {
        let rest = sessions.skip(1);
        if available.contains(sessions[0]) {
            assert(sessions[0] == first_available(sessions, available)->0);
        } else {
            the_first_session_with_room_is_taken(rest, available);
            match first_available(rest, available) {
                Some(seq) => {
                    let i = choose|i: int|
                        0 <= i < rest.len() && #[trigger] rest[i] == seq && available.contains(seq)
                            && forall|j: int| 0 <= j < i ==> !available.contains(#[trigger] rest[j]);
                    assert(sessions[i + 1] == seq);
                    assert forall|j: int| 0 <= j < i + 1 implies !available.contains(
                        #[trigger] sessions[j],
                    ) by {
                        if j > 0 {
                            assert(sessions[j] == rest[j - 1]);
                        }
                    }
                },
                None => {
                    assert forall|j: int| 0 <= j < sessions.len() implies !available.contains(
                        #[trigger] sessions[j],
                    ) by {
                        if j > 0 {
                            assert(sessions[j] == rest[j - 1]);
                        }
                    }
                },
            }
        }
    }
}

} // verus!
