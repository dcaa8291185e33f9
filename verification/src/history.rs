//! What holds of the users of a registry over any number of calls.
use crate::assoc::{keys, lookup, lookup_after_put, lookup_is_somewhere};
use crate::text::position_bounds;
use crate::users::{
    admits, admitted, connection_deny_reason, deny_reason_at, described_once,
    fresh_user_in_prefix, is_taken_over, new_users_start_afresh, next_user, prefix_replaces,
    quota_reset, received, released, removed_users_are_revoked, replaced,
    replacing_keeps_the_registry_valid, sent, slot_of_email, staying_users_keep_their_counters, valid, with_revoked, with_revoked_keeps,
    with_users, DenyReason, EmailIndex, EntryView, RegistryView, SpecView,
};
use vstd::prelude::*;

verus! {

/// One call that changes a registry.
pub enum Call {
    /// A client introduces itself by a digest, at a Unix time.
    Authenticate { hash: Seq<u8>, now: i64 },
    /// A connection of the user in a slot ends.
    Release { slot: int },
    /// A connection of the user in a slot has sent bytes.
    RecordUp { slot: int, bytes: u64 },
    /// A connection of the user in a slot has received bytes.
    RecordDown { slot: int, bytes: u64 },
    /// The quota of a user starts anew.
    ResetQuota { email: Seq<char> },
    /// The whole user set is replaced.
    Replace { specs: Seq<SpecView>, hashes: Seq<Seq<u8>> },
}

/// Whether there ever was a user in `slot`.
pub open spec fn has_slot(r: RegistryView, slot: int) -> bool {
    0 <= slot < r.entries.len()
}

/// The registry after one call. There is no connection of a slot that no user has, so a call
/// for such a slot changes nothing.
pub open spec fn after_call(r: RegistryView, call: Call) -> RegistryView {
    match call {
        Call::Authenticate { hash, now } => match admits(r, hash, now) {
            Some(slot) => admitted(r, slot),
            None => r,
        },
        Call::Release { slot } => if has_slot(r, slot) {
            released(r, slot)
        } else {
            r
        },
        Call::RecordUp { slot, bytes } => if has_slot(r, slot) {
            sent(r, slot, bytes)
        } else {
            r
        },
        Call::RecordDown { slot, bytes } => if has_slot(r, slot) {
            received(r, slot, bytes)
        } else {
            r
        },
        Call::ResetQuota { email } => quota_reset(r, email),
        Call::Replace { specs, hashes } => replaced(r, specs, hashes),
    }
}

/// The registry after several calls.
pub open spec fn after_calls(r: RegistryView, calls: Seq<Call>) -> RegistryView
    decreases calls.len(),
{
    if calls.len() == 0 {
        r
    } else {
        after_call(after_calls(r, calls.drop_last()), calls.last())
    }
}

/// How often the first `n` of `specs` replace the password of the user in `slot`: how many of
/// them are taken over for that user with a digest that does not lead to it.
pub open spec fn rekeyings(
    before: RegistryView,
    specs: Seq<SpecView>,
    hashes: Seq<Seq<u8>>,
    slot: int,
    n: nat,
) -> nat
    decreases n,
{
    if n == 0 {
        0
    } else {
        rekeyings(before, specs, hashes, slot, (n - 1) as nat) + if is_taken_over(
            specs,
            hashes,
            n - 1,
        ) && lookup(before.by_email, specs[n - 1].email) == Some(slot) && lookup(
            before.by_hash,
            hashes[n - 1],
        ) != Some(slot) {
            1nat
        } else {
            0nat
        }
    }
}

/// What happened to one user.
pub struct Tally {
    /// How many bytes it sent.
    pub sent: nat,
    /// How many bytes it received.
    pub received: nat,
    /// How many of its connections were let in.
    pub admissions: nat,
    /// How many of its connections ended.
    pub releases: nat,
    /// How often its password was replaced.
    pub rekeyings: nat,
}

/// Nothing happened.
pub open spec fn nothing() -> Tally {
    Tally { sent: 0, received: 0, admissions: 0, releases: 0, rekeyings: 0 }
}

/// What one call does to the user in `slot`.
pub open spec fn call_tally(r: RegistryView, call: Call, slot: int) -> Tally {
    match call {
        Call::Authenticate { hash, now } => if admits(r, hash, now) == Some(slot) {
            Tally { admissions: 1, ..nothing() }
        } else {
            nothing()
        },
        Call::Release { slot: its_slot } => if its_slot == slot && has_slot(r, slot) {
            Tally { releases: 1, ..nothing() }
        } else {
            nothing()
        },
        Call::RecordUp { slot: its_slot, bytes } => if its_slot == slot && has_slot(r, slot) {
            Tally { sent: bytes as nat, ..nothing() }
        } else {
            nothing()
        },
        Call::RecordDown { slot: its_slot, bytes } => if its_slot == slot && has_slot(r, slot) {
            Tally { received: bytes as nat, ..nothing() }
        } else {
            nothing()
        },
        Call::ResetQuota { .. } => nothing(),
        Call::Replace { specs, hashes } => Tally {
            rekeyings: rekeyings(r, specs, hashes, slot, specs.len()),
            ..nothing()
        },
    }
}

/// First `a` happened, and then `b`.
pub open spec fn joined(a: Tally, b: Tally) -> Tally {
    Tally {
        sent: a.sent + b.sent,
        received: a.received + b.received,
        admissions: a.admissions + b.admissions,
        releases: a.releases + b.releases,
        rekeyings: a.rekeyings + b.rekeyings,
    }
}

/// What several calls do to the user in `slot`.
pub open spec fn tally(r: RegistryView, calls: Seq<Call>, slot: int) -> Tally
    decreases calls.len(),
{
    if calls.len() == 0 {
        nothing()
    } else {
        joined(
            tally(r, calls.drop_last(), slot),
            call_tally(after_calls(r, calls.drop_last()), calls.last(), slot),
        )
    }
}

/// What is counted of one user.
pub struct Counters {
    pub up: int,
    pub down: int,
    pub connections: int,
    pub generation: int,
}

/// What is counted of the user in `slot`: nothing, as long as there is none.
pub open spec fn counters(r: RegistryView, slot: int) -> Counters {
    if has_slot(r, slot) {
        let e = r.entries[slot];
        Counters {
            up: e.up as int,
            down: e.down as int,
            connections: e.connections as int,
            generation: e.generation as int,
        }
    } else {
        Counters { up: 0, down: 0, connections: 0, generation: 0 }
    }
}

/// `n` in sixty-four bits without a sign.
pub open spec fn unsigned(n: int) -> int {
    n % 0x1_0000_0000_0000_0000
}

/// `n` in sixty-four bits with a sign.
pub open spec fn signed(n: int) -> int {
    unsigned(n + 0x8000_0000_0000_0000) - 0x8000_0000_0000_0000
}

/// What is counted of a user that `t` happens to.
pub open spec fn counted(c: Counters, t: Tally) -> Counters {
    Counters {
        up: unsigned(c.up + t.sent),
        down: unsigned(c.down + t.received),
        connections: signed(c.connections + t.admissions - t.releases),
        generation: unsigned(c.generation + t.rekeyings),
    }
}

proof fn wrapping_early_is_wrapping_late(n: int, m: int)
    ensures
        unsigned(unsigned(n) + m) == unsigned(n + m),
        signed(signed(n) + m) == signed(n + m),
{
}

proof fn counting_goes_on(c: Counters, a: Tally, b: Tally)
    ensures
        counted(counted(c, a), b) == counted(c, joined(a, b)),
{
    wrapping_early_is_wrapping_late(c.up + a.sent, b.sent as int);
    wrapping_early_is_wrapping_late(c.down + a.received, b.received as int);
    wrapping_early_is_wrapping_late(
        c.connections + a.admissions - a.releases,
        b.admissions - b.releases,
    );
    wrapping_early_is_wrapping_late(c.generation + a.rekeyings, b.rekeyings as int);
}

proof fn prefix_keeps_counters(
    before: RegistryView,
    specs: Seq<SpecView>,
    hashes: Seq<Seq<u8>>,
    slot: int,
    n: nat,
)
    requires
        valid(before),
        n <= specs.len(),
    ensures
        ({
            let r = with_users(before, specs, hashes, n);
            let t = Tally {
                rekeyings: rekeyings(before, specs, hashes, slot, n),
                ..nothing()
            };
            &&& counters(r, slot) == counted(counters(before, slot), t)
            &&& has_slot(before, slot) ==> r.entries[slot].revoked == before.entries[slot].revoked
                && r.entries[slot].quota_base == before.entries[slot].quota_base
        }),
    decreases n,
{
    if n > 0 {
        let m = (n - 1) as nat;
        prefix_keeps_counters(before, specs, hashes, slot, m);
        prefix_replaces(before, specs, hashes, m);
        next_user(before, specs, hashes, m);
        let s = specs[m as int];
        if lookup(before.by_email, s.email) is Some {
            slot_of_email(before, s.email);
        }
    }
}

pub(crate) proof fn replacing_keeps_counters(
    before: RegistryView,
    specs: Seq<SpecView>,
    hashes: Seq<Seq<u8>>,
    slot: int,
)
    requires
        valid(before),
    ensures
        ({
            let after = replaced(before, specs, hashes);
            let t = Tally {
                rekeyings: rekeyings(before, specs, hashes, slot, specs.len()),
                ..nothing()
            };
            &&& counters(after, slot) == counted(counters(before, slot), t)
            &&& has_slot(before, slot) ==> {
                &&& has_slot(after, slot)
                &&& after.entries[slot].email == before.entries[slot].email
                &&& after.entries[slot].quota_base == before.entries[slot].quota_base
                &&& before.entries[slot].revoked ==> after.entries[slot].revoked
            }
        }),
{
    let r = with_users(before, specs, hashes, specs.len());
    prefix_keeps_counters(before, specs, hashes, slot, specs.len());
    prefix_replaces(before, specs, hashes, specs.len());
    with_revoked_keeps(r.entries, before.by_email, r.by_email, before.by_email.len());
    let after = replaced(before, specs, hashes);
    if has_slot(r, slot) {
        assert(after.entries[slot] == (EntryView {
            revoked: after.entries[slot].revoked,
            ..r.entries[slot]
        }));
    }
}

pub(crate) proof fn admitted_users_have_a_slot(r: RegistryView, hash: Seq<u8>, now: i64)
    requires
        valid(r),
        admits(r, hash, now) is Some,
    ensures
        has_slot(r, admits(r, hash, now)->0),
{
    let i = lookup_is_somewhere(r.by_hash, hash);
    assert(r.by_hash[i].1 == admits(r, hash, now)->0);
}

/// Every call leaves a valid registry and counts what it does to a user, and nothing else. It
/// takes no user out of its slot, and it lets no revoked user back in.
pub proof fn every_call_counts(r: RegistryView, call: Call, slot: int)
    requires
        valid(r),
    ensures
        ({
            let after = after_call(r, call);
            &&& valid(after)
            &&& counters(after, slot) == counted(counters(r, slot), call_tally(r, call, slot))
            &&& has_slot(r, slot) ==> {
                &&& has_slot(after, slot)
                &&& after.entries[slot].email == r.entries[slot].email
                &&& r.entries[slot].revoked ==> after.entries[slot].revoked
            }
        }),
{
    match call {
        Call::Authenticate { hash, now } => {
            if admits(r, hash, now) is Some {
                admitted_users_have_a_slot(r, hash, now);
            }
        },
        Call::ResetQuota { email } => {
            if lookup(r.by_email, email) is Some {
                slot_of_email(r, email);
            }
        },
        Call::Replace { specs, hashes } => {
            replacing_keeps_the_registry_valid(r, specs, hashes);
            replacing_keeps_counters(r, specs, hashes, slot);
        },
        _ => {},
    }
}

/// Only a new user set changes who is served, and under which email and digest.
pub proof fn other_calls_keep_the_user_set(r: RegistryView, call: Call)
    requires
        !(call is Replace),
    ensures
        after_call(r, call).by_email == r.by_email,
        after_call(r, call).by_hash == r.by_hash,
{
}

/// After any calls the registry is valid, and what is counted of a user is what was counted
/// before and what the calls did to it. No user has left its slot, and no revoked user is back.
pub proof fn calls_are_counted(r: RegistryView, calls: Seq<Call>, slot: int)
    requires
        valid(r),
    ensures
        ({
            let after = after_calls(r, calls);
            &&& valid(after)
            &&& counters(after, slot) == counted(counters(r, slot), tally(r, calls, slot))
            &&& has_slot(r, slot) ==> {
                &&& has_slot(after, slot)
                &&& after.entries[slot].email == r.entries[slot].email
                &&& r.entries[slot].revoked ==> after.entries[slot].revoked
            }
        }),
    decreases calls.len(),
{
    if calls.len() > 0 {
        let earlier = after_calls(r, calls.drop_last());
        calls_are_counted(r, calls.drop_last(), slot);
        every_call_counts(earlier, calls.last(), slot);
        counting_goes_on(
            counters(r, slot),
            tally(r, calls.drop_last(), slot),
            call_tally(earlier, calls.last(), slot),
        );
    }
}

/// The totals of a user are the bytes that were recorded for it since it was added, in sixty-four
/// bits: no call sets them back, not the reset of its quota, nor a new password, nor its removal.
pub proof fn totals_are_never_set_back(r: RegistryView, calls: Seq<Call>, slot: int)
    requires
        valid(r),
        has_slot(after_calls(r, calls), slot),
    ensures
        ({
            let c = counters(r, slot);
            let t = tally(r, calls, slot);
            let after = after_calls(r, calls).entries[slot];
            &&& after.up == unsigned(c.up + t.sent)
            &&& after.down == unsigned(c.down + t.received)
            &&& c.up + t.sent <= u64::MAX ==> after.up == c.up + t.sent
            &&& c.down + t.received <= u64::MAX ==> after.down == c.down + t.received
        }),
{
    calls_are_counted(r, calls, slot);
}

/// The connections of a user are those that were let in and have not ended, in sixty-four bits.
/// A connection that was not let in does not count.
pub proof fn connections_are_those_let_in(r: RegistryView, calls: Seq<Call>, slot: int)
    requires
        valid(r),
        has_slot(after_calls(r, calls), slot),
    ensures
        ({
            let t = tally(r, calls, slot);
            let open = counters(r, slot).connections + t.admissions - t.releases;
            let after = after_calls(r, calls).entries[slot];
            &&& after.connections == signed(open)
            &&& i64::MIN <= open <= i64::MAX ==> after.connections == open
        }),
{
    calls_are_counted(r, calls, slot);
}

/// A user that a call adds has passed nothing and has no connections.
pub proof fn added_users_start_at_zero(r: RegistryView, call: Call, slot: int)
    requires
        valid(r),
        !has_slot(r, slot),
        has_slot(after_call(r, call), slot),
    ensures
        ({
            let e = after_call(r, call).entries[slot];
            &&& e.up == 0
            &&& e.down == 0
            &&& e.connections == 0
            &&& e.generation == 0
        }),
{
    every_call_counts(r, call, slot);
    match call {
        Call::Authenticate { hash, now } => {
            if admits(r, hash, now) is Some {
                admitted_users_have_a_slot(r, hash, now);
            }
        },
        Call::Replace { specs, hashes } => {
            no_rekeyings_without_a_user(r, specs, hashes, slot, specs.len());
        },
        _ => {},
    }
}

proof fn no_rekeyings_without_a_user(
    before: RegistryView,
    specs: Seq<SpecView>,
    hashes: Seq<Seq<u8>>,
    slot: int,
    n: nat,
)
    requires
        valid(before),
        !has_slot(before, slot),
    ensures
        rekeyings(before, specs, hashes, slot, n) == 0,
    decreases n,
{
    if n > 0 {
        no_rekeyings_without_a_user(before, specs, hashes, slot, (n - 1) as nat);
        if lookup(before.by_email, specs[n - 1].email) is Some {
            slot_of_email(before, specs[n - 1].email);
        }
    }
}

/// The generation of a user moves on by one for each time that its password is replaced, in
/// sixty-four bits, and by nothing else.
pub proof fn generations_count_rekeyings(r: RegistryView, calls: Seq<Call>, slot: int)
    requires
        valid(r),
        has_slot(after_calls(r, calls), slot),
    ensures
        after_calls(r, calls).entries[slot].generation == unsigned(
            counters(r, slot).generation + tally(r, calls, slot).rekeyings,
        ),
{
    calls_are_counted(r, calls, slot);
}

/// A connection must stop once the password that it authenticated with is replaced, and
/// otherwise whenever its user may not pass traffic.
pub proof fn connections_follow_their_user(
    r: RegistryView,
    calls: Seq<Call>,
    slot: int,
    now: i64,
)
    requires
        valid(r),
        has_slot(r, slot),
        tally(r, calls, slot).rekeyings <= u64::MAX,
    ensures
        ({
            let e = after_calls(r, calls).entries[slot];
            connection_deny_reason(e, r.entries[slot].generation, now) == if tally(
                r,
                calls,
                slot,
            ).rekeyings == 0 {
                deny_reason_at(e, now)
            } else {
                Some(DenyReason::Revoked)
            }
        }),
{
    calls_are_counted(r, calls, slot);
}

proof fn tallies_grow(r: RegistryView, calls: Seq<Call>, n: int, slot: int)
    requires
        0 <= n <= calls.len(),
    ensures
        tally(r, calls.take(n), slot).rekeyings <= tally(r, calls, slot).rekeyings,
    decreases calls.len(),
{
    if n < calls.len() {
        tallies_grow(r, calls.drop_last(), n, slot);
        assert(calls.drop_last().take(n) =~= calls.take(n));
    } else {
        assert(calls.take(n) =~= calls);
    }
}

proof fn revoked_users_stay_revoked(r: RegistryView, calls: Seq<Call>, n: int, slot: int)
    requires
        valid(r),
        has_slot(r, slot),
        0 <= n <= calls.len(),
        after_calls(r, calls.take(n)).entries[slot].revoked,
    ensures
        after_calls(r, calls).entries[slot].revoked,
    decreases calls.len(),
{
    if n < calls.len() {
        assert(calls.drop_last().take(n) =~= calls.take(n));
        revoked_users_stay_revoked(r, calls.drop_last(), n, slot);
        calls_are_counted(r, calls.drop_last(), slot);
        every_call_counts(after_calls(r, calls.drop_last()), calls.last(), slot);
    } else {
        assert(calls.take(n) =~= calls);
    }
}

/// A connection that is revoked stays revoked, whatever comes later: its old password may be
/// given back, and its email may be listed again.
pub proof fn revoked_connections_stay_revoked(
    r: RegistryView,
    calls: Seq<Call>,
    n: int,
    slot: int,
    then: i64,
    now: i64,
)
    requires
        valid(r),
        has_slot(r, slot),
        0 <= n <= calls.len(),
        tally(r, calls, slot).rekeyings <= u64::MAX,
        connection_deny_reason(
            after_calls(r, calls.take(n)).entries[slot],
            r.entries[slot].generation,
            then,
        ) == Some(DenyReason::Revoked),
    ensures
        connection_deny_reason(
            after_calls(r, calls).entries[slot],
            r.entries[slot].generation,
            now,
        ) == Some(DenyReason::Revoked),
{
    tallies_grow(r, calls, n, slot);
    connections_follow_their_user(r, calls.take(n), slot, then);
    connections_follow_their_user(r, calls, slot, now);
    if tally(r, calls.take(n), slot).rekeyings == 0 {
        revoked_users_stay_revoked(r, calls, n, slot);
    }
}

proof fn rekeying_is_counted(
    before: RegistryView,
    specs: Seq<SpecView>,
    hashes: Seq<Seq<u8>>,
    slot: int,
    k: int,
    n: nat,
)
    requires
        k < n <= specs.len(),
        is_taken_over(specs, hashes, k),
        lookup(before.by_email, specs[k].email) == Some(slot),
        lookup(before.by_hash, hashes[k]) != Some(slot),
    ensures
        rekeyings(before, specs, hashes, slot, n) > 0,
    decreases n,
{
    if k < n - 1 {
        rekeying_is_counted(before, specs, hashes, slot, k, (n - 1) as nat);
    }
}

/// Whether a new user set retires the connections of the user in `slot`: it does not take the
/// user over, or it takes it over with another password.
pub open spec fn retires(
    before: RegistryView,
    specs: Seq<SpecView>,
    hashes: Seq<Seq<u8>>,
    slot: int,
) -> bool {
    let email = before.entries[slot].email;
    &&& lookup(before.by_email, email) == Some(slot)
    &&& {
        ||| forall|k: int| #[trigger] is_taken_over(specs, hashes, k) ==> specs[k].email != email
        ||| exists|k: int| #[trigger]
            is_taken_over(specs, hashes, k) && specs[k].email == email && lookup(
                before.by_hash,
                hashes[k],
            ) != Some(slot)
    }
}

/// A connection is revoked for good once a new user set leaves its user out or gives it another
/// password, even if a later set gives the old password back or lists the email again.
pub proof fn retired_connections_never_return(
    r: RegistryView,
    calls: Seq<Call>,
    n: int,
    slot: int,
    now: i64,
)
    requires
        valid(r),
        has_slot(r, slot),
        0 <= n < calls.len(),
        calls[n] matches Call::Replace { specs, hashes } && retires(
            after_calls(r, calls.take(n)),
            specs,
            hashes,
            slot,
        ),
        tally(r, calls, slot).rekeyings <= u64::MAX,
    ensures
        connection_deny_reason(
            after_calls(r, calls).entries[slot],
            r.entries[slot].generation,
            now,
        ) == Some(DenyReason::Revoked),
{
    let before = after_calls(r, calls.take(n));
    let until = calls.take(n + 1);
    assert(until.drop_last() =~= calls.take(n));
    assert(until.last() == calls[n]);
    calls_are_counted(r, calls.take(n), slot);
    tallies_grow(r, calls, n + 1, slot);
    let specs = calls[n]->specs;
    let hashes = calls[n]->hashes;
    let email = before.entries[slot].email;
    let generation = r.entries[slot].generation;
    connections_follow_their_user(r, until, slot, now);
    if forall|k: int| #[trigger] is_taken_over(specs, hashes, k) ==> specs[k].email != email {
        removed_users_are_revoked(before, specs, hashes, email, generation, now);
    } else {
        let k = choose|k: int| #[trigger]
            is_taken_over(specs, hashes, k) && specs[k].email == email && lookup(
                before.by_hash,
                hashes[k],
            ) != Some(slot);
        rekeying_is_counted(before, specs, hashes, slot, k, specs.len());
    }
    revoked_connections_stay_revoked(r, calls, n + 1, slot, now, now);
}

proof fn emails_lead_to_the_same_slot(
    before: RegistryView,
    specs: Seq<SpecView>,
    hashes: Seq<Seq<u8>>,
    email: Seq<char>,
    n: nat,
)
    requires
        n <= specs.len(),
        lookup(before.by_email, email) is Some,
    ensures
        lookup(with_users(before, specs, hashes, n).by_email, email) == if exists|k: int|
            0 <= k < n && #[trigger] is_taken_over(specs, hashes, k) && specs[k].email == email {
            lookup(before.by_email, email)
        } else {
            None
        },
    decreases n,
{
    if n > 0 {
        let m = (n - 1) as nat;
        emails_lead_to_the_same_slot(before, specs, hashes, email, m);
        next_user(before, specs, hashes, m);
        let earlier = with_users(before, specs, hashes, m);
        let s = specs[m as int];
        let its_slot = match lookup(before.by_email, s.email) {
            Some(slot) => slot,
            None => earlier.entries.len() as int,
        };
        lookup_after_put(earlier.by_email, s.email, its_slot, email);
    } else {
        assert(keys(Seq::<(Seq<char>, int)>::empty()) =~= Seq::<Seq<char>>::empty());
        position_bounds(Seq::<Seq<char>>::empty(), email);
    }
}

/// A user keeps its slot as long as every new set takes it over, and a set that does not take
/// it over removes it.
pub proof fn users_keep_their_slot(
    before: RegistryView,
    specs: Seq<SpecView>,
    hashes: Seq<Seq<u8>>,
    email: Seq<char>,
)
    requires
        lookup(before.by_email, email) is Some,
    ensures
        lookup(replaced(before, specs, hashes).by_email, email) == if exists|k: int| #[trigger]
            is_taken_over(specs, hashes, k) && specs[k].email == email {
            lookup(before.by_email, email)
        } else {
            None
        },
{
    emails_lead_to_the_same_slot(before, specs, hashes, email, specs.len());
    assert forall|k: int| #[trigger] is_taken_over(specs, hashes, k) implies 0 <= k
        < specs.len() by {}
}

/// Whether no two of `specs` that are taken over have the same email.
pub open spec fn emails_differ(specs: Seq<SpecView>, hashes: Seq<Seq<u8>>) -> bool {
    forall|j: int, k: int| #[trigger]
        is_taken_over(specs, hashes, j) && #[trigger] is_taken_over(specs, hashes, k) && j != k
            ==> specs[j].email != specs[k].email
}

proof fn digests_lead_to_their_own_user(
    before: RegistryView,
    specs: Seq<SpecView>,
    hashes: Seq<Seq<u8>>,
    hash: Seq<u8>,
    n: nat,
)
    requires
        valid(before),
        emails_differ(specs, hashes),
        n <= specs.len(),
    ensures
        ({
            let r = with_users(before, specs, hashes, n);
            lookup(r.by_hash, hash) is Some ==> exists|j: int|
                0 <= j < n && #[trigger] is_taken_over(specs, hashes, j) && hashes[j] == hash
                    && lookup(r.by_email, specs[j].email) == lookup(r.by_hash, hash)
        }),
    decreases n,
{
    if n > 0 {
        let m = (n - 1) as nat;
        digests_lead_to_their_own_user(before, specs, hashes, hash, m);
        next_user(before, specs, hashes, m);
        let earlier = with_users(before, specs, hashes, m);
        let r = with_users(before, specs, hashes, n);
        let s = specs[m as int];
        let its_slot = match lookup(before.by_email, s.email) {
            Some(slot) => slot,
            None => earlier.entries.len() as int,
        };
        if lookup(r.by_hash, hash) is Some {
            if is_taken_over(specs, hashes, m as int) {
                lookup_after_put(earlier.by_hash, hashes[m as int], its_slot, hash);
                lookup_after_put(earlier.by_email, s.email, its_slot, s.email);
            }
            if lookup(earlier.by_hash, hash) is Some {
                let j = choose|j: int|
                    0 <= j < m && #[trigger] is_taken_over(specs, hashes, j) && hashes[j] == hash
                        && lookup(earlier.by_email, specs[j].email) == lookup(
                        earlier.by_hash,
                        hash,
                    );
                lookup_after_put(earlier.by_email, s.email, its_slot, specs[j].email);
                assert(is_taken_over(specs, hashes, j));
            }
        }
    } else {
        assert(keys(Seq::<(Seq<u8>, int)>::empty()) =~= Seq::<Seq<u8>>::empty());
        position_bounds(Seq::<Seq<u8>>::empty(), hash);
    }
}

/// A user is found under one digest only, that of the password it was last given.
pub proof fn users_have_one_password(
    before: RegistryView,
    specs: Seq<SpecView>,
    hashes: Seq<Seq<u8>>,
    k: int,
    hash: Seq<u8>,
)
    requires
        valid(before),
        emails_differ(specs, hashes),
        is_taken_over(specs, hashes, k),
    ensures
        ({
            let after = replaced(before, specs, hashes);
            &&& lookup(after.by_email, specs[k].email) is Some
            &&& lookup(after.by_hash, hash) == lookup(after.by_email, specs[k].email) <==> hash
                == hashes[k]
        }),
{
    let after = replaced(before, specs, hashes);
    assert(described_once(specs, hashes, k));
    if lookup(before.by_email, specs[k].email) is Some {
        staying_users_keep_their_counters(before, specs, hashes, k);
    } else {
        new_users_start_afresh(before, specs, hashes, k);
    }
    if lookup(after.by_hash, hash) == lookup(after.by_email, specs[k].email) {
        digests_lead_to_their_own_user(before, specs, hashes, hash, specs.len());
        let j = choose|j: int|
            0 <= j < specs.len() && #[trigger] is_taken_over(specs, hashes, j) && hashes[j] == hash
                && lookup(after.by_email, specs[j].email) == lookup(after.by_hash, hash);
        replacing_keeps_the_registry_valid(before, specs, hashes);
        slot_of_email(after, specs[j].email);
        slot_of_email(after, specs[k].email);
    }
}

/// A user that is taken over twice in a row keeps its slot, and its generation stays if it keeps
/// its password, and moves on by one if it gets another one.
pub proof fn generations_follow_passwords(
    before: RegistryView,
    first: Seq<SpecView>,
    first_hashes: Seq<Seq<u8>>,
    j: int,
    second: Seq<SpecView>,
    second_hashes: Seq<Seq<u8>>,
    k: int,
)
    requires
        valid(before),
        emails_differ(first, first_hashes),
        emails_differ(second, second_hashes),
        is_taken_over(first, first_hashes, j),
        is_taken_over(second, second_hashes, k),
        first[j].email == second[k].email,
    ensures
        ({
            let middle = replaced(before, first, first_hashes);
            let after = replaced(middle, second, second_hashes);
            let slot = lookup(middle.by_email, first[j].email)->0;
            &&& lookup(middle.by_email, first[j].email) is Some
            &&& lookup(after.by_email, first[j].email) == Some(slot)
            &&& after.entries[slot].generation == if first_hashes[j] == second_hashes[k] {
                middle.entries[slot].generation as int
            } else {
                unsigned(middle.entries[slot].generation + 1)
            }
        }),
{
    let middle = replaced(before, first, first_hashes);
    replacing_keeps_the_registry_valid(before, first, first_hashes);
    users_have_one_password(before, first, first_hashes, j, second_hashes[k]);
    assert(described_once(second, second_hashes, k));
    staying_users_keep_their_counters(middle, second, second_hashes, k);
}

proof fn second_time_in_prefix(
    before: RegistryView,
    specs: Seq<SpecView>,
    hashes: Seq<Seq<u8>>,
    n: nat,
)
    requires
        valid(before),
        emails_differ(specs, hashes),
        n <= specs.len(),
    ensures
        ({
            let first = with_users(before, specs, hashes, n);
            let after = replaced(before, specs, hashes);
            let second = with_users(after, specs, hashes, n);
            &&& second.entries == after.entries
            &&& second.by_email == first.by_email
            &&& second.by_hash == first.by_hash
        }),
    decreases n,
{
    let after = replaced(before, specs, hashes);
    if n > 0 {
        let m = (n - 1) as nat;
        let k = m as int;
        second_time_in_prefix(before, specs, hashes, m);
        next_user(before, specs, hashes, m);
        next_user(after, specs, hashes, m);
        if is_taken_over(specs, hashes, k) {
            assert(described_once(specs, hashes, k));
            let slot = lookup(after.by_email, specs[k].email)->0;
            if lookup(before.by_email, specs[k].email) is Some {
                staying_users_keep_their_counters(before, specs, hashes, k);
            } else {
                new_users_start_afresh(before, specs, hashes, k);
                fresh_user_in_prefix(before, specs, hashes, k, specs.len());
            }
            replacing_keeps_the_registry_valid(before, specs, hashes);
            slot_of_email(after, specs[k].email);
            assert(after.entries.update(slot, after.entries[slot]) =~= after.entries);
        }
    }
}

proof fn nobody_is_missing(entries: Seq<EntryView>, index: EmailIndex, n: nat)
    requires
        n <= index.len(),
    ensures
        with_revoked(entries, index, index, n) == entries,
    decreases n,
{
    if n > 0 {
        nobody_is_missing(entries, index, (n - 1) as nat);
        let email = index[n - 1].0;
        position_bounds(keys(index), email);
        assert(keys(index)[n - 1] == email);
    }
}

/// Replacing the user set by the same users a second time changes nothing.
pub proof fn replacing_twice_changes_nothing(
    before: RegistryView,
    specs: Seq<SpecView>,
    hashes: Seq<Seq<u8>>,
)
    requires
        valid(before),
        emails_differ(specs, hashes),
    ensures
        replaced(replaced(before, specs, hashes), specs, hashes) == replaced(before, specs, hashes),
{
    let after = replaced(before, specs, hashes);
    second_time_in_prefix(before, specs, hashes, specs.len());
    nobody_is_missing(after.entries, after.by_email, after.by_email.len());
}

} // verus!
