//! What the expiry date and the quota of a user are for.
use crate::assoc::{keys, lookup, lookup_is_somewhere};
use crate::history::{
    admitted_users_have_a_slot, after_call, after_calls, calls_are_counted, every_call_counts,
    has_slot, replacing_keeps_counters, tally, Call,
};
use crate::text::{position_bounds, position_is};
use crate::users::{
    admits, admitted, connection_deny_reason, deny_reason_at, described_once,
    fresh_user_in_prefix, hashes_of, new_users_start_afresh, quota_reset, quota_used, received,
    released, reopened, replaced, replacing_keeps_the_registry_valid, sent, sha256, slot_of_email,
    staying_users_keep_their_counters, valid, DenyReason, EntryView, RegistryView, SpecView,
};
use vstd::prelude::*;
use vstd::utf8::encode_utf8;

verus! {

/// How many bytes `e` has passed since its quota was last reset.
pub open spec fn passed(e: EntryView) -> int {
    if e.up + e.down <= e.quota_base {
        0
    } else {
        e.up + e.down - e.quota_base
    }
}

/// Whether the time of `e` is over at the Unix time `now`. An expiry date of 0 is none.
pub open spec fn is_expired(e: EntryView, now: i64) -> bool {
    0 < e.expires_unix <= now
}

/// Whether `e` has passed as many bytes as it may. A quota of 0 is none.
pub open spec fn is_spent(e: EntryView) -> bool {
    0 < e.quota_bytes <= passed(e)
}

/// Whether the totals of `e` together can be counted in sixty-four bits.
pub open spec fn is_countable(e: EntryView) -> bool {
    e.up + e.down <= u64::MAX
}

/// A user is denied exactly if it was revoked, its time is over or its quota is spent, and the
/// reason is the first of these that holds.
pub proof fn users_are_denied_for_a_reason(e: EntryView, now: i64)
    requires
        is_countable(e),
    ensures
        quota_used(e) == passed(e),
        deny_reason_at(e, now) == Some(DenyReason::Revoked) <==> e.revoked,
        deny_reason_at(e, now) == Some(DenyReason::Expired) <==> !e.revoked && is_expired(e, now),
        deny_reason_at(e, now) == Some(DenyReason::QuotaExceeded) <==> !e.revoked && !is_expired(
            e,
            now,
        ) && is_spent(e),
        deny_reason_at(e, now) is None <==> !e.revoked && !is_expired(e, now) && !is_spent(e),
{
}

/// Totals that can no longer be counted are taken for the largest number that can.
pub proof fn uncountable_totals_are_capped(e: EntryView)
    requires
        !is_countable(e),
    ensures
        quota_used(e) == u64::MAX - e.quota_base,
{
}

/// A connection is denied for what its user is denied for, and besides if the password that it
/// authenticated with was replaced.
pub proof fn connections_are_denied_for_a_reason(e: EntryView, generation: u64, now: i64)
    requires
        is_countable(e),
    ensures
        connection_deny_reason(e, generation, now) == Some(DenyReason::Revoked) <==> e.revoked
            || e.generation != generation,
        e.generation == generation ==> connection_deny_reason(e, generation, now)
            == deny_reason_at(e, now),
        connection_deny_reason(e, generation, now) is None <==> e.generation == generation
            && !e.revoked && !is_expired(e, now) && !is_spent(e),
{
}

/// What counts against the quota is the traffic since the last reset: after a reset and `up`
/// bytes sent and `down` bytes received, it is `up + down`, and the user is denied for its quota
/// exactly if it has one and that sum reaches it.
pub proof fn quotas_count_from_the_last_reset(e: EntryView, up: u64, down: u64, now: i64)
    requires
        e.up + e.down + up + down <= u64::MAX,
    ensures
        ({
            let reset = reopened(e);
            let after = EntryView {
                up: (e.up + up) as u64,
                down: (e.down + down) as u64,
                ..reset
            };
            &&& reset.up == e.up && reset.down == e.down
            &&& reset == (EntryView { quota_base: reset.quota_base, ..e })
            &&& quota_used(reset) == 0
            &&& quota_used(after) == up + down
            &&& deny_reason_at(after, now) == Some(DenyReason::QuotaExceeded) <==> !e.revoked
                && !is_expired(e, now) && 0 < e.quota_bytes <= up + down
        }),
{
}

/// Whether `call` resets the quota of the user with the email `email`.
pub open spec fn resets(call: Call, email: Seq<char>) -> bool {
    call matches Call::ResetQuota { email: other } && other == email
}

proof fn other_calls_keep_the_base(r: RegistryView, call: Call, slot: int)
    requires
        valid(r),
        has_slot(r, slot),
        !resets(call, r.entries[slot].email),
    ensures
        after_call(r, call).entries[slot].quota_base == r.entries[slot].quota_base,
{
    match call {
        Call::Authenticate { hash, now } => {
            if admits(r, hash, now) is Some {
                admitted_users_have_a_slot(r, hash, now);
            }
        },
        Call::ResetQuota { email } => {
            if lookup(r.by_email, email) is Some {
                slot_of_email(r, email);
            }
        },
        Call::Replace { specs, hashes } => {
            replacing_keeps_counters(r, specs, hashes, slot);
        },
        _ => {},
    }
}

proof fn bases_stay_without_a_reset(r: RegistryView, calls: Seq<Call>, slot: int)
    requires
        valid(r),
        has_slot(r, slot),
        forall|i: int|
            0 <= i < calls.len() ==> !resets(#[trigger] calls[i], r.entries[slot].email),
    ensures
        after_calls(r, calls).entries[slot].quota_base == r.entries[slot].quota_base,
    decreases calls.len(),
{
    if calls.len() > 0 {
        let front = calls.drop_last();
        assert forall|i: int| 0 <= i < front.len() implies !resets(
            #[trigger] front[i],
            r.entries[slot].email,
        ) by {
            assert(front[i] == calls[i]);
        }
        bases_stay_without_a_reset(r, front, slot);
        calls_are_counted(r, front, slot);
        assert(!resets(calls[calls.len() - 1], r.entries[slot].email));
        other_calls_keep_the_base(after_calls(r, front), calls.last(), slot);
    }
}

/// Over any calls, what counts against the quota of a user is what was recorded for it since its
/// quota was last reset, whatever happened to other users, to its password and to its limits.
pub proof fn quotas_count_what_was_recorded(
    r: RegistryView,
    email: Seq<char>,
    calls: Seq<Call>,
)
    requires
        valid(r),
        lookup(r.by_email, email) is Some,
        forall|i: int| 0 <= i < calls.len() ==> !resets(#[trigger] calls[i], email),
        ({
            let slot = lookup(r.by_email, email)->0;
            let t = tally(quota_reset(r, email), calls, slot);
            r.entries[slot].up + r.entries[slot].down + t.sent + t.received <= u64::MAX
        }),
    ensures
        ({
            let slot = lookup(r.by_email, email)->0;
            let reset = quota_reset(r, email);
            let t = tally(reset, calls, slot);
            let after = after_calls(reset, calls).entries[slot];
            &&& quota_used(after) == t.sent + t.received
            &&& is_spent(after) <==> 0 < after.quota_bytes <= t.sent + t.received
        }),
{
    let slot = lookup(r.by_email, email)->0;
    let reset = quota_reset(r, email);
    slot_of_email(r, email);
    every_call_counts(r, Call::ResetQuota { email }, slot);
    bases_stay_without_a_reset(reset, calls, slot);
    calls_are_counted(reset, calls, slot);
    let t = tally(reset, calls, slot);
    let after = after_calls(reset, calls).entries[slot];
    let e = r.entries[slot];
    assert(after.up == e.up + t.sent && after.down == e.down + t.received);
}

/// A digest lets a client in exactly if it has 32 bytes, leads to a user, and that user is not
/// denied.
pub proof fn digests_let_users_in(r: RegistryView, hash: Seq<u8>, now: i64, slot: int)
    requires
        valid(r),
        has_slot(r, slot),
        is_countable(r.entries[slot]),
    ensures
        admits(r, hash, now) == Some(slot) <==> {
            &&& hash.len() == 32
            &&& exists|i: int| 0 <= i < r.by_hash.len() && #[trigger] r.by_hash[i] == (hash, slot)
            &&& !r.entries[slot].revoked
            &&& !is_expired(r.entries[slot], now)
            &&& !is_spent(r.entries[slot])
        },
{
    let e = r.entries[slot];
    users_are_denied_for_a_reason(e, now);
    let ks = keys(r.by_hash);
    position_bounds(ks, hash);
    if lookup(r.by_hash, hash) == Some(slot) {
        let i = lookup_is_somewhere(r.by_hash, hash);
        assert(r.by_hash[i] == (hash, slot));
    }
    if exists|i: int| 0 <= i < r.by_hash.len() && #[trigger] r.by_hash[i] == (hash, slot) {
        let i = choose|i: int|
            0 <= i < r.by_hash.len() && #[trigger] r.by_hash[i] == (hash, slot);
        assert forall|j: int| 0 <= j < i implies ks[j] != hash by {
            assert(ks[i] == hash);
        }
        assert(ks[i] == hash);
        position_is(ks, hash, i);
    }
}

/// A user that a new set takes over once gets the limits of the set. If the user was there
/// before, it keeps its totals, its connections and the base of its quota, and it is not
/// revoked by that; if it was not, it starts with nothing. Either way it is found under its
/// email and under the digest of its password.
pub proof fn listed_users_get_their_limits(
    before: RegistryView,
    specs: Seq<SpecView>,
    hashes: Seq<Seq<u8>>,
    k: int,
)
    requires
        valid(before),
        described_once(specs, hashes, k),
    ensures
        ({
            let after = replaced(before, specs, hashes);
            let slot = lookup(after.by_email, specs[k].email)->0;
            let e = after.entries[slot];
            &&& lookup(after.by_email, specs[k].email) is Some
            &&& lookup(after.by_hash, hashes[k]) == Some(slot)
            &&& has_slot(after, slot)
            &&& e.email == specs[k].email
            &&& e.quota_bytes == specs[k].quota_bytes
            &&& e.expires_unix == specs[k].expires_unix
            &&& match lookup(before.by_email, specs[k].email) {
                Some(old_slot) => {
                    let old_e = before.entries[old_slot];
                    &&& slot == old_slot
                    &&& e.up == old_e.up
                    &&& e.down == old_e.down
                    &&& e.connections == old_e.connections
                    &&& e.quota_base == old_e.quota_base
                    &&& e.revoked == old_e.revoked
                },
                None => {
                    &&& !has_slot(before, slot)
                    &&& e.up == 0
                    &&& e.down == 0
                    &&& e.connections == 0
                    &&& e.quota_base == 0
                    &&& e.generation == 0
                    &&& !e.revoked
                },
            }
        }),
{
    let after = replaced(before, specs, hashes);
    replacing_keeps_the_registry_valid(before, specs, hashes);
    if lookup(before.by_email, specs[k].email) is Some {
        staying_users_keep_their_counters(before, specs, hashes, k);
        slot_of_email(before, specs[k].email);
    } else {
        new_users_start_afresh(before, specs, hashes, k);
        fresh_user_in_prefix(before, specs, hashes, k, specs.len());
    }
    slot_of_email(after, specs[k].email);
}

/// The password of a listed user lets it in as long as its time is not over and its quota is not
/// spent. A user that is new to the set has spent nothing, so it is let in at once.
pub proof fn passwords_of_listed_users_let_them_in(
    before: RegistryView,
    specs: Seq<SpecView>,
    k: int,
    now: i64,
)
    requires
        valid(before),
        described_once(specs, hashes_of(specs), k),
        sha256(encode_utf8(specs[k].password)).len() == 32,
        lookup(before.by_email, specs[k].email) is None,
    ensures
        ({
            let after = replaced(before, specs, hashes_of(specs));
            admits(after, sha256(encode_utf8(specs[k].password)), now) == if 0
                < specs[k].expires_unix <= now {
                None
            } else {
                lookup(after.by_email, specs[k].email)
            }
        }),
{
    listed_users_get_their_limits(before, specs, hashes_of(specs), k);
}

/// What is counted for one user changes nothing about another, nor who is served.
pub proof fn users_are_counted_apart(
    r: RegistryView,
    slot: int,
    other: int,
    bytes: u64,
    email: Seq<char>,
)
    requires
        valid(r),
        has_slot(r, slot),
        has_slot(r, other),
        slot != other,
        lookup(r.by_email, email) == Some(slot),
    ensures
        forall|after: RegistryView|
            #![trigger after.entries[other]]
            after == admitted(r, slot) || after == released(r, slot) || after == sent(
                r,
                slot,
                bytes,
            ) || after == received(r, slot, bytes) || after == quota_reset(r, email)
                ==> after.entries[other] == r.entries[other] && after.by_email == r.by_email
                && after.by_hash == r.by_hash,
{
}

/// Each of these changes just one thing about its user.
pub proof fn each_count_is_its_own(r: RegistryView, slot: int, bytes: u64, email: Seq<char>)
    requires
        valid(r),
        has_slot(r, slot),
        lookup(r.by_email, email) == Some(slot),
        r.entries[slot].up + bytes <= u64::MAX,
        r.entries[slot].down + bytes <= u64::MAX,
        i64::MIN < r.entries[slot].connections < i64::MAX,
    ensures
        ({
            let e = r.entries[slot];
            &&& admitted(r, slot).entries[slot] == (EntryView {
                connections: (e.connections + 1) as i64,
                ..e
            })
            &&& released(r, slot).entries[slot] == (EntryView {
                connections: (e.connections - 1) as i64,
                ..e
            })
            &&& sent(r, slot, bytes).entries[slot] == (EntryView { up: (e.up + bytes) as u64, ..e })
            &&& received(r, slot, bytes).entries[slot] == (EntryView {
                down: (e.down + bytes) as u64,
                ..e
            })
            &&& quota_reset(r, email).entries[slot] == (EntryView {
                quota_base: if e.up + e.down <= u64::MAX {
                    (e.up + e.down) as u64
                } else {
                    u64::MAX
                },
                ..e
            })
        }),
{
}

} // verus!
