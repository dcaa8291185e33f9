//! The users that a node serves.
//!
//! Every user owns a password, and the digest of the password is what a client sends to
//! introduce itself, so the digest is the identity. A connection finds its user once, when it
//! authenticates, and keeps the slot of the user from then on.
use crate::assoc::{
    distinct, keys, lookup, lookup_after_put, lookup_is_somewhere, put, put_keeps_distinct,
};
pub use crate::clock::now_unix;
use crate::text::{bytes_eq, position_bounds, position_is, text_eq};
use sha2::{Digest, Sha256};
use vstd::prelude::*;
use vstd::utf8::encode_utf8;

verus! {

/// Length of the SHA-256 digest that a client sends first.
pub const PASSWORD_HASH_LEN: usize = 32;

/// The digest of a password.
pub type PasswordHash = [u8; 32];

/// The SHA-256 digest of `data`.
pub uninterp spec fn sha256(data: Seq<u8>) -> Seq<u8>;

/// `Sha256::digest`: the SHA-256 digest of `data`.
#[verifier::external_body]
fn sha256_digest(data: &[u8]) -> (h: PasswordHash)
    ensures
        h@ == sha256(data@),
{
    Sha256::digest(data).into()
}

/// The digest of the password `password`.
pub open spec fn password_hash(password: Seq<char>) -> Seq<u8> {
    sha256(encode_utf8(password))
}

/// The digest by which a client that knows `password` introduces itself.
pub fn hash_password(password: &str) -> (h: PasswordHash)
    ensures
        h@ == password_hash(password@),
{
    sha256_digest(password.as_bytes())
}

/// One user as the panel describes it: its credential and its limits.
#[derive(Debug)]
pub struct UserSpec {
    /// The identity to which the panel attributes traffic.
    pub email: String,
    pub password: String,
    /// How many bytes, up and down together, the user may pass until its quota is reset. Zero
    /// means any number.
    pub quota_bytes: u64,
    /// The Unix time from which on the user is refused. Zero means never.
    pub expires_unix: i64,
}

/// The mathematical value of a [`UserSpec`].
pub struct SpecView {
    pub email: Seq<char>,
    pub password: Seq<char>,
    pub quota_bytes: u64,
    pub expires_unix: i64,
}

impl View for UserSpec {
    type V = SpecView;

    open spec fn view(&self) -> SpecView {
        SpecView {
            email: self.email@,
            password: self.password@,
            quota_bytes: self.quota_bytes,
            expires_unix: self.expires_unix,
        }
    }
}

/// The mathematical values of several users.
pub open spec fn specs_view(specs: Seq<UserSpec>) -> Seq<SpecView> {
    specs.map_values(|s: UserSpec| s@)
}

impl Clone for UserSpec {
    fn clone(&self) -> (s: UserSpec)
        ensures
            s@ == self@,
    {
        UserSpec {
            email: self.email.clone(),
            password: self.password.clone(),
            quota_bytes: self.quota_bytes,
            expires_unix: self.expires_unix,
        }
    }
}

/// Why a user may not pass traffic right now.
#[derive(Clone, Copy, Debug, PartialEq, Eq, Structural)]
pub enum DenyReason {
    /// The user was removed, or its password was replaced.
    Revoked,
    /// The user's time is over.
    Expired,
    /// The user has spent its bytes.
    QuotaExceeded,
}

impl DenyReason {
    /// The reason in words.
    pub fn to_string(&self) -> (s: String)
        ensures
            s@ == match self {
                DenyReason::Revoked => "revoked"@,
                DenyReason::Expired => "expired"@,
                DenyReason::QuotaExceeded => "quota exceeded"@,
            },
    {
        match self {
            DenyReason::Revoked => "revoked".to_owned(),
            DenyReason::Expired => "expired".to_owned(),
            DenyReason::QuotaExceeded => "quota exceeded".to_owned(),
        }
    }
}

/// The live state of one user.
#[derive(Debug)]
pub struct UserEntry {
    email: String,
    generation: u64,
    up: u64,
    down: u64,
    connections: i64,
    quota_bytes: u64,
    quota_base: u64,
    expires_unix: i64,
    revoked: bool,
}

/// The mathematical value of a [`UserEntry`].
pub struct EntryView {
    pub email: Seq<char>,
    /// Moves on whenever the password is replaced.
    pub generation: u64,
    pub up: u64,
    pub down: u64,
    pub connections: i64,
    pub quota_bytes: u64,
    /// How many bytes had been passed when the quota was last reset.
    pub quota_base: u64,
    pub expires_unix: i64,
    pub revoked: bool,
}

impl View for UserEntry {
    type V = EntryView;

    closed spec fn view(&self) -> EntryView {
        EntryView {
            email: self.email@,
            generation: self.generation,
            up: self.up,
            down: self.down,
            connections: self.connections,
            quota_bytes: self.quota_bytes,
            quota_base: self.quota_base,
            expires_unix: self.expires_unix,
            revoked: self.revoked,
        }
    }
}

/// `a + b` in sixty-four bits, where counting starts again at 0 behind the largest number.
pub open spec fn wrapped_sum(a: u64, b: u64) -> u64 {
    ((a + b) % 0x1_0000_0000_0000_0000) as u64
}

/// `a + b`, or the largest number where the sum is larger.
pub open spec fn capped_sum(a: u64, b: u64) -> u64 {
    if a + b > u64::MAX {
        u64::MAX
    } else {
        (a + b) as u64
    }
}

/// How many bytes count against the quota of `e`.
pub open spec fn quota_used(e: EntryView) -> u64 {
    let total = capped_sum(e.up, e.down);
    if total >= e.quota_base {
        (total - e.quota_base) as u64
    } else {
        0
    }
}

/// Why `e` may not pass traffic at the Unix time `now`, if it may not.
pub open spec fn deny_reason_at(e: EntryView, now: i64) -> Option<DenyReason> {
    if e.revoked {
        Some(DenyReason::Revoked)
    } else if e.expires_unix > 0 && now >= e.expires_unix {
        Some(DenyReason::Expired)
    } else if e.quota_bytes > 0 && quota_used(e) >= e.quota_bytes {
        Some(DenyReason::QuotaExceeded)
    } else {
        None
    }
}

/// A user that has passed nothing.
pub open spec fn new_entry(s: SpecView) -> EntryView {
    EntryView {
        email: s.email,
        generation: 0,
        up: 0,
        down: 0,
        connections: 0,
        quota_bytes: s.quota_bytes,
        quota_base: 0,
        expires_unix: s.expires_unix,
        revoked: false,
    }
}

/// `e` with a quota that starts anew.
pub open spec fn reopened(e: EntryView) -> EntryView {
    EntryView { quota_base: capped_sum(e.up, e.down), ..e }
}

/// One connection more, in sixty-four bits.
pub open spec fn one_more(connections: i64) -> i64 {
    if connections == i64::MAX {
        i64::MIN
    } else {
        (connections + 1) as i64
    }
}

/// One connection less, in sixty-four bits.
pub open spec fn one_less(connections: i64) -> i64 {
    if connections == i64::MIN {
        i64::MAX
    } else {
        (connections - 1) as i64
    }
}

impl UserEntry {
    fn new(spec: &UserSpec) -> (e: UserEntry)
        ensures
            e@ == new_entry(spec@),
    {
        UserEntry {
            email: spec.email.clone(),
            generation: 0,
            up: 0,
            down: 0,
            connections: 0,
            quota_bytes: spec.quota_bytes,
            quota_base: 0,
            expires_unix: spec.expires_unix,
            revoked: false,
        }
    }

    /// The identity of the user.
    pub fn email(&self) -> (s: &str)
        ensures
            s@ == self@.email,
    {
        self.email.as_str()
    }

    /// How often the password has been replaced.
    pub fn generation(&self) -> (n: u64)
        ensures
            n == self@.generation,
    {
        self.generation
    }

    /// Counts bytes that the user sent.
    pub fn record_up(&mut self, bytes: u64)
        ensures
            final(self)@ == (EntryView { up: wrapped_sum(old(self)@.up, bytes), ..old(self)@ }),
    {
        self.up = self.up.wrapping_add(bytes);
    }

    /// Counts bytes that the user received.
    pub fn record_down(&mut self, bytes: u64)
        ensures
            final(self)@ == (EntryView { down: wrapped_sum(old(self)@.down, bytes), ..old(self)@ }),
    {
        self.down = self.down.wrapping_add(bytes);
    }

    /// How many bytes the user sent.
    pub fn bytes_up(&self) -> (n: u64)
        ensures
            n == self@.up,
    {
        self.up
    }

    /// How many bytes the user received.
    pub fn bytes_down(&self) -> (n: u64)
        ensures
            n == self@.down,
    {
        self.down
    }

    /// How many connections the user has open.
    pub fn connections(&self) -> (n: i64)
        ensures
            n == self@.connections,
    {
        self.connections
    }

    /// How many bytes count against the quota.
    pub fn quota_used(&self) -> (n: u64)
        ensures
            n == quota_used(self@),
    {
        let total: u64 = self.up.saturating_add(self.down);
        total.saturating_sub(self.quota_base)
    }

    /// The quota in bytes, or 0 if there is none.
    pub fn quota_bytes(&self) -> (n: u64)
        ensures
            n == self@.quota_bytes,
    {
        self.quota_bytes
    }

    /// The Unix time from which on the user is refused, or 0 if there is none.
    pub fn expires_unix(&self) -> (n: i64)
        ensures
            n == self@.expires_unix,
    {
        self.expires_unix
    }

    /// Starts counting against the quota anew, and leaves the totals as they are.
    pub fn reset_quota(&mut self)
        ensures
            final(self)@ == reopened(old(self)@),
    {
        self.quota_base = self.up.saturating_add(self.down);
    }

    /// Why the user may not pass traffic at the Unix time `now_unix`.
    pub fn deny_reason_at(&self, now_unix: i64) -> (r: Option<DenyReason>)
        ensures
            r == deny_reason_at(self@, now_unix),
    {
        if self.revoked {
            return Some(DenyReason::Revoked);
        }
        if self.expires_unix > 0 && now_unix >= self.expires_unix {
            return Some(DenyReason::Expired);
        }
        if self.quota_bytes > 0 && self.quota_used() >= self.quota_bytes {
            return Some(DenyReason::QuotaExceeded);
        }
        None
    }

    /// Why the user may not pass traffic now.
    pub fn deny_reason(&self) -> (r: Option<DenyReason>)
        ensures
            exists|now: i64| r == #[trigger] deny_reason_at(self@, now),
    {
        let now: i64 = now_unix();
        self.deny_reason_at(now)
    }
}

/// A connection whose user was found when it authenticated.
///
/// It counts as one of the user's connections until it is released.
#[derive(Debug)]
pub struct AuthedUser {
    slot: usize,
    generation: u64,
}

impl AuthedUser {
    /// Where the registry keeps the user.
    pub closed spec fn slot(&self) -> int {
        self.slot as int
    }

    /// The generation of the user's password that the connection authenticated with.
    pub closed spec fn generation(&self) -> u64 {
        self.generation
    }
}

/// Slots by email.
pub type EmailIndex = Seq<(Seq<char>, int)>;

/// Slots by password digest.
pub type HashIndex = Seq<(Seq<u8>, int)>;

/// The mathematical value of a [`UserRegistry`].
#[verifier::ext_equal]
pub struct RegistryView {
    /// Every user there ever was, by slot.
    pub entries: Seq<EntryView>,
    /// The users that are served, by email.
    pub by_email: EmailIndex,
    /// The users that are served, by password digest.
    pub by_hash: HashIndex,
}

/// A registry without users.
pub open spec fn no_users() -> RegistryView {
    RegistryView { entries: Seq::empty(), by_email: Seq::empty(), by_hash: Seq::empty() }
}

/// The slot of the user whose password has the digest `hash`.
pub open spec fn found(r: RegistryView, hash: Seq<u8>) -> Option<int> {
    if hash.len() == PASSWORD_HASH_LEN {
        lookup(r.by_hash, hash)
    } else {
        None
    }
}

/// The slot of the user whose password has the digest `hash`, if that user may pass traffic at
/// the Unix time `now`.
pub open spec fn admits(r: RegistryView, hash: Seq<u8>, now: i64) -> Option<int> {
    match found(r, hash) {
        Some(slot) => if deny_reason_at(r.entries[slot], now) is None {
            Some(slot)
        } else {
            None
        },
        None => None,
    }
}

/// `r` where one connection more counts for the user in `slot`.
pub open spec fn admitted(r: RegistryView, slot: int) -> RegistryView {
    let e = r.entries[slot];
    RegistryView {
        entries: r.entries.update(
            slot,
            EntryView { connections: one_more(e.connections), ..e },
        ),
        ..r
    }
}

/// `r` where one connection less counts for the user in `slot`.
pub open spec fn released(r: RegistryView, slot: int) -> RegistryView {
    let e = r.entries[slot];
    RegistryView {
        entries: r.entries.update(
            slot,
            EntryView { connections: one_less(e.connections), ..e },
        ),
        ..r
    }
}

/// `r` where the user in `slot` has sent `bytes` bytes more.
pub open spec fn sent(r: RegistryView, slot: int, bytes: u64) -> RegistryView {
    let e = r.entries[slot];
    RegistryView {
        entries: r.entries.update(slot, EntryView { up: wrapped_sum(e.up, bytes), ..e }),
        ..r
    }
}

/// `r` where the user in `slot` has received `bytes` bytes more.
pub open spec fn received(r: RegistryView, slot: int, bytes: u64) -> RegistryView {
    let e = r.entries[slot];
    RegistryView {
        entries: r.entries.update(slot, EntryView { down: wrapped_sum(e.down, bytes), ..e }),
        ..r
    }
}

/// `r` where the quota of the user with the email `email` starts anew, if there is one.
pub open spec fn quota_reset(r: RegistryView, email: Seq<char>) -> RegistryView {
    match lookup(r.by_email, email) {
        Some(slot) => RegistryView {
            entries: r.entries.update(slot, reopened(r.entries[slot])),
            ..r
        },
        None => r,
    }
}

/// A user that stays, with the limits of `s`. Its generation moves on if its password changes.
pub open spec fn updated_entry(e: EntryView, s: SpecView, rekeyed: bool) -> EntryView {
    EntryView {
        quota_bytes: s.quota_bytes,
        expires_unix: s.expires_unix,
        generation: if rekeyed {
            wrapped_sum(e.generation, 1)
        } else {
            e.generation
        },
        ..e
    }
}

/// The registry `r` that replaces `before`, with one user more, whose password has the digest
/// `hash`. A user without an email or a password is left out, and so is one whose password
/// belongs to a user before it.
pub open spec fn with_user(
    before: RegistryView,
    r: RegistryView,
    s: SpecView,
    hash: Seq<u8>,
) -> RegistryView {
    if s.email.len() == 0 || s.password.len() == 0 || lookup(r.by_hash, hash) is Some {
        r
    } else {
        let (entries, slot) = match lookup(before.by_email, s.email) {
            Some(slot) => {
                let rekeyed = lookup(before.by_hash, hash) != Some(slot);
                (r.entries.update(slot, updated_entry(r.entries[slot], s, rekeyed)), slot)
            },
            None => (r.entries.push(new_entry(s)), r.entries.len() as int),
        };
        RegistryView {
            entries,
            by_email: put(r.by_email, s.email, slot),
            by_hash: put(r.by_hash, hash, slot),
        }
    }
}

/// The first `n` users, one after the other.
pub open spec fn with_users(
    before: RegistryView,
    specs: Seq<SpecView>,
    hashes: Seq<Seq<u8>>,
    n: nat,
) -> RegistryView
    decreases n,
{
    if n == 0 {
        RegistryView { entries: before.entries, by_email: Seq::empty(), by_hash: Seq::empty() }
    } else {
        let earlier = with_users(before, specs, hashes, (n - 1) as nat);
        with_user(before, earlier, specs[n - 1], hashes[n - 1])
    }
}

/// `entries` where those of the first `n` users of `old_index` are revoked that `new_index`
/// does not have.
pub open spec fn with_revoked(
    entries: Seq<EntryView>,
    old_index: EmailIndex,
    new_index: EmailIndex,
    n: nat,
) -> Seq<EntryView>
    decreases n,
{
    if n == 0 {
        entries
    } else {
        let earlier = with_revoked(entries, old_index, new_index, (n - 1) as nat);
        let (email, slot) = old_index[n - 1];
        if lookup(new_index, email) is Some {
            earlier
        } else {
            earlier.update(slot, EntryView { revoked: true, ..earlier[slot] })
        }
    }
}

/// The registry after the whole user set is replaced by `specs`, whose passwords have the
/// digests `hashes`.
pub open spec fn replaced(
    before: RegistryView,
    specs: Seq<SpecView>,
    hashes: Seq<Seq<u8>>,
) -> RegistryView {
    let r = with_users(before, specs, hashes, specs.len());
    RegistryView {
        entries: with_revoked(r.entries, before.by_email, r.by_email, before.by_email.len()),
        ..r
    }
}

/// The digests of the passwords of `specs`.
pub open spec fn hashes_of(specs: Seq<SpecView>) -> Seq<Seq<u8>> {
    specs.map_values(|s: SpecView| password_hash(s.password))
}

/// Whether the indices of `r` lead to users: emails and digests are distinct, and a user is
/// found under its own email.
pub open spec fn valid(r: RegistryView) -> bool {
    &&& distinct(r.by_email)
    &&& distinct(r.by_hash)
    &&& forall|i: int|
        0 <= i < r.by_email.len() ==> 0 <= (#[trigger] r.by_email[i]).1 < r.entries.len()
            && r.entries[r.by_email[i].1].email == r.by_email[i].0
    &&& forall|i: int|
        0 <= i < r.by_hash.len() ==> 0 <= (#[trigger] r.by_hash[i]).1 < r.entries.len()
}

/// The user set of a node.
#[derive(Debug)]
pub struct UserRegistry {
    entries: Vec<UserEntry>,
    by_email: Vec<(String, usize)>,
    by_hash: Vec<(PasswordHash, usize)>,
}

impl View for UserRegistry {
    type V = RegistryView;

    closed spec fn view(&self) -> RegistryView {
        RegistryView {
            entries: self.entries@.map_values(|e: UserEntry| e@),
            by_email: email_index(self.by_email@),
            by_hash: hash_index(self.by_hash@),
        }
    }
}

spec fn email_index(v: Seq<(String, usize)>) -> EmailIndex {
    v.map_values(|p: (String, usize)| (p.0@, p.1 as int))
}

spec fn hash_index(v: Seq<(PasswordHash, usize)>) -> HashIndex {
    v.map_values(|p: (PasswordHash, usize)| (p.0@, p.1 as int))
}

spec fn hash_views(hashes: Seq<PasswordHash>) -> Seq<Seq<u8>> {
    hashes.map_values(|h: PasswordHash| h@)
}

fn find_email(v: &Vec<(String, usize)>, email: &str) -> (r: Option<usize>)
    ensures
        match r {
            Some(slot) => lookup(email_index(v@), email@) == Some(slot as int),
            None => lookup(email_index(v@), email@) is None,
        },
{
    let mut i: usize = 0;
    while i < v.len()
        invariant
            i <= v@.len(),
            forall|j: int| 0 <= j < i ==> keys(email_index(v@))[j] != email@,
        decreases v@.len() - i,
    {
        assert(keys(email_index(v@))[i as int] == v@[i as int].0@);
        if text_eq(v[i].0.as_str(), email) {
            proof {
                position_is(keys(email_index(v@)), email@, i as int);
            }
            return Some(v[i].1);
        }
        i += 1;
    }
    proof {
        position_is(keys(email_index(v@)), email@, i as int);
    }
    None
}

fn find_hash(v: &Vec<(PasswordHash, usize)>, hash: &[u8]) -> (r: Option<usize>)
    ensures
        match r {
            Some(slot) => lookup(hash_index(v@), hash@) == Some(slot as int),
            None => lookup(hash_index(v@), hash@) is None,
        },
{
    let mut i: usize = 0;
    while i < v.len()
        invariant
            i <= v@.len(),
            forall|j: int| 0 <= j < i ==> keys(hash_index(v@))[j] != hash@,
        decreases v@.len() - i,
    {
        assert(keys(hash_index(v@))[i as int] == v@[i as int].0@);
        if bytes_eq(v[i].0.as_slice(), hash) {
            proof {
                position_is(keys(hash_index(v@)), hash@, i as int);
            }
            return Some(v[i].1);
        }
        i += 1;
    }
    proof {
        position_is(keys(hash_index(v@)), hash@, i as int);
    }
    None
}

fn put_email(v: &mut Vec<(String, usize)>, email: &String, slot: usize)
    ensures
        email_index(final(v)@) == put(email_index(old(v)@), email@, slot as int),
{
    let ghost expected = put(email_index(v@), email@, slot as int);
    let mut i: usize = 0;
    while i < v.len()
        invariant
            i <= v@.len(),
            v@ == old(v)@,
            expected == put(email_index(old(v)@), email@, slot as int),
            forall|j: int| 0 <= j < i ==> keys(email_index(v@))[j] != email@,
        decreases v@.len() - i,
    {
        assert(keys(email_index(v@))[i as int] == v@[i as int].0@);
        if text_eq(v[i].0.as_str(), email.as_str()) {
            proof {
                position_is(keys(email_index(v@)), email@, i as int);
            }
            v.set(i, (email.clone(), slot));
            assert(email_index(v@) =~= expected);
            return;
        }
        i += 1;
    }
    proof {
        position_is(keys(email_index(v@)), email@, i as int);
    }
    v.push((email.clone(), slot));
    assert(email_index(v@) =~= expected);
}

fn put_hash(v: &mut Vec<(PasswordHash, usize)>, hash: PasswordHash, slot: usize)
    requires
        lookup(hash_index(old(v)@), hash@) is None,
    ensures
        hash_index(final(v)@) == put(hash_index(old(v)@), hash@, slot as int),
{
    let ghost expected = put(hash_index(v@), hash@, slot as int);
    v.push((hash, slot));
    assert(hash_index(v@) =~= expected);
}

/// Whether `r` is on the way from `before` to the registry that replaces it.
pub open spec fn replaces(before: RegistryView, r: RegistryView) -> bool {
    &&& valid(r)
    &&& r.entries.len() >= before.entries.len()
    &&& forall|i: int|
        0 <= i < before.entries.len() ==> (#[trigger] r.entries[i]).email
            == before.entries[i].email
}

proof fn with_user_replaces(before: RegistryView, r: RegistryView, s: SpecView, hash: Seq<u8>)
    requires
        valid(before),
        replaces(before, r),
    ensures
        replaces(before, with_user(before, r, s, hash)),
        lookup(before.by_email, s.email) matches Some(slot) ==> 0 <= slot < before.entries.len(),
{
    if lookup(before.by_email, s.email) is Some {
        let i = lookup_is_somewhere(before.by_email, s.email);
        assert(before.by_email[i].1 == lookup(before.by_email, s.email)->0);
    }
    let after = with_user(before, r, s, hash);
    if after != r {
        position_bounds(keys(r.by_email), s.email);
        position_bounds(keys(r.by_hash), hash);
        if let Some(slot) = lookup(before.by_email, s.email) {
            assert(r.entries[slot].email == s.email);
        }
        put_keeps_distinct(
            r.by_email,
            s.email,
            match lookup(before.by_email, s.email) {
                Some(slot) => slot,
                None => r.entries.len() as int,
            },
        );
        put_keeps_distinct(
            r.by_hash,
            hash,
            match lookup(before.by_email, s.email) {
                Some(slot) => slot,
                None => r.entries.len() as int,
            },
        );
        assert forall|i: int| 0 <= i < after.by_email.len() implies 0 <= (
        #[trigger] after.by_email[i]).1 < after.entries.len()
            && after.entries[after.by_email[i].1].email == after.by_email[i].0 by {
            if i < r.by_email.len() {
                let old_pair = r.by_email[i];
                assert(0 <= old_pair.1 < r.entries.len());
            }
        }
        assert forall|i: int| 0 <= i < after.by_hash.len() implies 0 <= (
        #[trigger] after.by_hash[i]).1 < after.entries.len() by {
            if i < r.by_hash.len() {
                let old_pair = r.by_hash[i];
                assert(0 <= old_pair.1 < r.entries.len());
            }
        }
    }
}

pub(crate) proof fn with_revoked_keeps(
    entries: Seq<EntryView>,
    old_index: EmailIndex,
    new_index: EmailIndex,
    n: nat,
)
    requires
        n <= old_index.len(),
        forall|i: int|
            0 <= i < old_index.len() ==> 0 <= (#[trigger] old_index[i]).1 < entries.len(),
    ensures
        ({
            let after = with_revoked(entries, old_index, new_index, n);
            &&& after.len() == entries.len()
            &&& forall|i: int|
                0 <= i < entries.len() ==> #[trigger] after[i] == (EntryView {
                    revoked: after[i].revoked,
                    ..entries[i]
                })
            &&& forall|i: int|
                0 <= i < entries.len() ==> ((#[trigger] after[i]).revoked <==> entries[i].revoked
                    || missing(old_index, new_index, n, i))
        }),
    decreases n,
{
    let after = with_revoked(entries, old_index, new_index, n);
    if n == 0 {
        assert forall|i: int| 0 <= i < entries.len() implies ((#[trigger] after[i]).revoked
            <==> entries[i].revoked || missing(old_index, new_index, n, i)) by {}
    } else {
        let m = (n - 1) as nat;
        with_revoked_keeps(entries, old_index, new_index, m);
        let earlier = with_revoked(entries, old_index, new_index, m);
        let (email, slot) = old_index[n - 1];
        assert(0 <= slot < entries.len());
        assert forall|i: int| 0 <= i < entries.len() implies ((#[trigger] after[i]).revoked
            <==> entries[i].revoked || missing(old_index, new_index, n, i)) by {
            assert(earlier[i].revoked <==> entries[i].revoked || missing(
                old_index,
                new_index,
                m,
                i,
            ));
            if missing(old_index, new_index, m, i) {
                let j = choose|j: int|
                    0 <= j < m && (#[trigger] old_index[j]).1 == i && lookup(
                        new_index,
                        old_index[j].0,
                    ) is None;
                assert(old_index[j].1 == i);
            }
            if lookup(new_index, email) is None && i == slot {
                assert(old_index[n - 1].1 == i);
            }
        }
    }
}

/// Whether one of the first `n` users of `old_index` has the slot `slot` and is not in
/// `new_index`.
pub open spec fn missing(old_index: EmailIndex, new_index: EmailIndex, n: nat, slot: int) -> bool {
    exists|j: int|
        0 <= j < n && (#[trigger] old_index[j]).1 == slot && lookup(
            new_index,
            old_index[j].0,
        ) is None
}

impl UserRegistry {
    /// Emails and digests lead to users.
    pub open spec fn wf(&self) -> bool {
        valid(self@)
    }

    /// A registry without users.
    pub fn new() -> (r: UserRegistry)
        ensures
            r.wf(),
            r@ == no_users(),
    {
        let r = UserRegistry { entries: Vec::new(), by_email: Vec::new(), by_hash: Vec::new() };
        assert(r@ =~= no_users());
        r
    }

    /// A registry with the users `specs`.
    pub fn with_users(specs: &[UserSpec]) -> (r: UserRegistry)
        ensures
            r.wf(),
            r@ == replaced(no_users(), specs_view(specs@), hashes_of(specs_view(specs@))),
    {
        let mut r = UserRegistry::new();
        r.replace(specs);
        r
    }

    /// Whether `user` is a user of this registry.
    pub open spec fn knows(&self, user: AuthedUser) -> bool {
        0 <= user.slot() < self@.entries.len()
    }

    /// Finds the user whose password has the digest `password_hash` and who may pass traffic at
    /// the Unix time `now_unix`. The connection counts for the user until it is released.
    pub fn authenticate_at(&mut self, password_hash: &[u8], now_unix: i64) -> (r: Option<
        AuthedUser,
    >)
        requires
            old(self).wf(),
        ensures
            final(self).wf(),
            match r {
                Some(user) => {
                    &&& admits(old(self)@, password_hash@, now_unix) == Some(user.slot())
                    &&& user.generation() == old(self)@.entries[user.slot()].generation
                    &&& final(self).knows(user)
                    &&& final(self)@ == admitted(old(self)@, user.slot())
                },
                None => {
                    &&& admits(old(self)@, password_hash@, now_unix) is None
                    &&& final(self)@ == old(self)@
                },
            },
    {
        if password_hash.len() != PASSWORD_HASH_LEN {
            return None;
        }
        match find_hash(&self.by_hash, password_hash) {
            Some(slot) => {
                proof {
                    let i = lookup_is_somewhere(self@.by_hash, password_hash@);
                    assert(self@.by_hash[i].1 == slot);
                }
                if self.entries[slot].deny_reason_at(now_unix).is_some() {
                    return None;
                }
                let generation: u64 = self.entries[slot].generation;
                let ghost before = self@;
                let entry = &mut self.entries[slot];
                entry.connections = entry.connections.wrapping_add(1);
                assert(self@.entries =~= before.entries.update(slot as int, self@.entries[slot as int]));
                Some(AuthedUser { slot, generation })
            },
            None => None,
        }
    }

    /// Finds the user whose password has the digest `password_hash` and who may pass traffic
    /// now. The connection counts for the user until it is released.
    pub fn authenticate(&mut self, password_hash: &[u8]) -> (r: Option<AuthedUser>)
        requires
            old(self).wf(),
        ensures
            final(self).wf(),
            match r {
                Some(user) => {
                    &&& exists|now: i64|
                        #[trigger] admits(old(self)@, password_hash@, now) == Some(user.slot())
                    &&& user.generation() == old(self)@.entries[user.slot()].generation
                    &&& final(self).knows(user)
                    &&& final(self)@ == admitted(old(self)@, user.slot())
                },
                None => {
                    &&& exists|now: i64| #[trigger] admits(old(self)@, password_hash@, now) is None
                    &&& final(self)@ == old(self)@
                },
            },
    {
        let now: i64 = now_unix();
        self.authenticate_at(password_hash, now)
    }

    /// Ends a connection: it no longer counts for its user.
    pub fn release(&mut self, user: AuthedUser)
        requires
            old(self).wf(),
            old(self).knows(user),
        ensures
            final(self).wf(),
            final(self)@ == released(old(self)@, user.slot()),
    {
        let ghost before = self@;
        let entry = &mut self.entries[user.slot];
        entry.connections = entry.connections.wrapping_sub(1);
        assert(self@.entries =~= before.entries.update(user.slot(), self@.entries[user.slot()]));
    }

    /// Replaces the whole user set by `specs`.
    ///
    /// A user that keeps its password keeps its counters and its connections. One whose password
    /// changes keeps its counters, and its connections are retired. One that is no longer there
    /// is revoked.
    pub fn replace(&mut self, specs: &[UserSpec])
        requires
            old(self).wf(),
        ensures
            final(self).wf(),
            final(self)@ == replaced(
                old(self)@,
                specs_view(specs@),
                hashes_of(specs_view(specs@)),
            ),
    {
        let mut hashes: Vec<PasswordHash> = Vec::new();
        let mut i: usize = 0;
        while i < specs.len()
            invariant
                i <= specs@.len(),
                hash_views(hashes@) == hashes_of(specs_view(specs@)).take(i as int),
            decreases specs@.len() - i,
        {
            let hash: PasswordHash = hash_password(specs[i].password.as_str());
            assert(hash@ == hashes_of(specs_view(specs@))[i as int]);
            let ghost earlier = hash_views(hashes@);
            hashes.push(hash);
            assert(hash_views(hashes@) =~= earlier.push(hash@));
            i += 1;
            assert(hash_views(hashes@) =~= hashes_of(specs_view(specs@)).take(i as int));
        }
        assert(hash_views(hashes@) =~= hashes_of(specs_view(specs@)));
        self.replace_hashed(specs, hashes.as_slice());
    }

    /// Replaces the whole user set by `specs`, whose passwords have the digests `hashes`.
    pub fn replace_hashed(&mut self, specs: &[UserSpec], hashes: &[PasswordHash])
        requires
            old(self).wf(),
            hashes@.len() == specs@.len(),
        ensures
            final(self).wf(),
            final(self)@ == replaced(
                old(self)@,
                specs_view(specs@),
                hashes@.map_values(|h: PasswordHash| h@),
            ),
    {
        let ghost before = self@;
        let ghost users = specs_view(specs@);
        let ghost digests = hash_views(hashes@);
        let mut by_email: Vec<(String, usize)> = Vec::new();
        let mut by_hash: Vec<(PasswordHash, usize)> = Vec::new();
        let mut i: usize = 0;
        proof {
            let start = with_users(before, users, digests, 0);
            assert(email_index(by_email@) =~= start.by_email);
            assert(hash_index(by_hash@) =~= start.by_hash);
        }
        while i < specs.len()
            invariant
                i <= specs@.len(),
                hashes@.len() == specs@.len(),
                users == specs_view(specs@),
                digests == hash_views(hashes@),
                before == old(self)@,
                valid(before),
                self.by_email == old(self).by_email,
                self.by_hash == old(self).by_hash,
                ({
                    let r = with_users(before, users, digests, i as nat);
                    &&& replaces(before, r)
                    &&& self@.entries == r.entries
                    &&& email_index(by_email@) == r.by_email
                    &&& hash_index(by_hash@) == r.by_hash
                }),
            decreases specs@.len() - i,
        {
            let spec = &specs[i];
            let hash: PasswordHash = hashes[i];
            let ghost r = with_users(before, users, digests, i as nat);
            let ghost next = with_users(before, users, digests, (i + 1) as nat);
            assert(users[i as int] == spec@ && digests[i as int] == hash@);
            assert(next == with_user(before, r, spec@, hash@));
            proof {
                with_user_replaces(before, r, spec@, hash@);
            }
            i += 1;
            let unnamed = spec.email.as_str().is_empty();
            let unprotected = spec.password.as_str().is_empty();
            assert(unnamed == (spec@.email.len() == 0));
            assert(unprotected == (spec@.password.len() == 0));
            if unnamed || unprotected {
                continue;
            }
            if find_hash(&by_hash, hash.as_slice()).is_some() {
                continue;
            }
            let slot: usize = match find_email(&self.by_email, spec.email.as_str()) {
                Some(slot) => {
                    let rekeyed = match find_hash(&self.by_hash, hash.as_slice()) {
                        Some(owner) => owner != slot,
                        None => true,
                    };
                    let entry = &mut self.entries[slot];
                    entry.quota_bytes = spec.quota_bytes;
                    entry.expires_unix = spec.expires_unix;
                    if rekeyed {
                        entry.generation = entry.generation.wrapping_add(1);
                    }
                    slot
                },
                None => {
                    let slot: usize = self.entries.len();
                    self.entries.push(UserEntry::new(spec));
                    slot
                },
            };
            assert(self@.entries =~= next.entries);
            put_email(&mut by_email, &spec.email, slot);
            put_hash(&mut by_hash, hash, slot);
        }
        let ghost r = with_users(before, users, digests, specs@.len());
        assert(users.len() == specs@.len());
        let mut j: usize = 0;
        proof {
            assert forall|k: int| 0 <= k < before.by_email.len() implies 0 <= (
            #[trigger] before.by_email[k]).1 < r.entries.len() by {}
        }
        while j < self.by_email.len()
            invariant
                j <= self.by_email@.len(),
                self.by_email == old(self).by_email,
                before == old(self)@,
                valid(before),
                forall|k: int|
                    0 <= k < before.by_email.len() ==> 0 <= (#[trigger] before.by_email[k]).1
                        < r.entries.len(),
                email_index(by_email@) == r.by_email,
                self@.entries == with_revoked(r.entries, before.by_email, r.by_email, j as nat),
                self@.entries.len() == r.entries.len(),
            decreases self.by_email@.len() - j,
        {
            assert(before.by_email[j as int] == (
                self.by_email@[j as int].0@,
                self.by_email@[j as int].1 as int,
            ));
            let slot: usize = self.by_email[j].1;
            let ghost earlier = self@.entries;
            if find_email(&by_email, self.by_email[j].0.as_str()).is_none() {
                let entry = &mut self.entries[slot];
                entry.revoked = true;
                assert(self@.entries =~= earlier.update(
                    slot as int,
                    EntryView { revoked: true, ..earlier[slot as int] },
                ));
            }
            j += 1;
        }
        self.by_email = by_email;
        self.by_hash = by_hash;
        proof {
            with_revoked_keeps(r.entries, before.by_email, r.by_email, before.by_email.len());
            assert(self@ =~= replaced(before, users, digests));
        }
    }

    /// The user with the email `email`.
    pub fn get(&self, email: &str) -> (r: Option<&UserEntry>)
        requires
            self.wf(),
        ensures
            match r {
                Some(e) => lookup(self@.by_email, email@) matches Some(slot) && e@
                    == self@.entries[slot],
                None => lookup(self@.by_email, email@) is None,
            },
    {
        match find_email(&self.by_email, email) {
            Some(slot) => {
                proof {
                    let i = lookup_is_somewhere(self@.by_email, email@);
                    assert(self@.by_email[i].1 == slot);
                }
                Some(&self.entries[slot])
            },
            None => None,
        }
    }

    /// Starts the quota of a user anew, and tells whether there is such a user.
    pub fn reset_quota(&mut self, email: &str) -> (found: bool)
        requires
            old(self).wf(),
        ensures
            final(self).wf(),
            found == lookup(old(self)@.by_email, email@) is Some,
            final(self)@ == quota_reset(old(self)@, email@),
    {
        match find_email(&self.by_email, email) {
            Some(slot) => {
                proof {
                    let i = lookup_is_somewhere(self@.by_email, email@);
                    assert(self@.by_email[i].1 == slot);
                }
                let ghost before = self@;
                let entry = &mut self.entries[slot];
                entry.reset_quota();
                assert(self@.entries =~= before.entries.update(
                    slot as int,
                    self@.entries[slot as int],
                ));
                true
            },
            None => false,
        }
    }

    /// All users that are served, in the order of the index.
    pub fn entries(&self) -> (v: Vec<&UserEntry>)
        requires
            self.wf(),
        ensures
            v@.len() == self@.by_email.len(),
            forall|i: int|
                0 <= i < v@.len() ==> (#[trigger] v@[i])@ == self@.entries[self@.by_email[i].1],
    {
        let mut v: Vec<&UserEntry> = Vec::new();
        let mut i: usize = 0;
        while i < self.by_email.len()
            invariant
                self.wf(),
                i <= self.by_email@.len(),
                v@.len() == i,
                forall|j: int|
                    0 <= j < i ==> (#[trigger] v@[j])@ == self@.entries[self@.by_email[j].1],
            decreases self.by_email@.len() - i,
        {
            assert(self@.by_email[i as int].1 == self.by_email@[i as int].1);
            v.push(&self.entries[self.by_email[i].1]);
            i += 1;
        }
        v
    }

    /// Whether no user is served.
    pub fn is_empty(&self) -> (b: bool)
        ensures
            b == (self@.by_email.len() == 0),
    {
        self.by_email.len() == 0
    }

    /// How many users are served.
    pub fn len(&self) -> (n: usize)
        ensures
            n == self@.by_email.len(),
    {
        self.by_email.len()
    }
}

/// Why a connection must stop: its password was replaced, or its user may not pass traffic at
/// the Unix time `now`.
pub open spec fn connection_deny_reason(e: EntryView, generation: u64, now: i64) -> Option<
    DenyReason,
> {
    if e.generation != generation {
        Some(DenyReason::Revoked)
    } else {
        deny_reason_at(e, now)
    }
}

impl AuthedUser {
    /// The identity of the user.
    pub fn email<'a>(&self, registry: &'a UserRegistry) -> (s: &'a str)
        requires
            registry.knows(*self),
        ensures
            s@ == registry@.entries[self.slot()].email,
    {
        registry.entries[self.slot].email()
    }

    /// Counts bytes that the user sent.
    pub fn record_up(&self, registry: &mut UserRegistry, bytes: u64)
        requires
            old(registry).wf(),
            old(registry).knows(*self),
        ensures
            final(registry).wf(),
            final(registry)@ == sent(old(registry)@, self.slot(), bytes),
    {
        let ghost before = registry@;
        let entry = &mut registry.entries[self.slot];
        entry.record_up(bytes);
        assert(registry@.entries =~= before.entries.update(
            self.slot(),
            registry@.entries[self.slot()],
        ));
    }

    /// Counts bytes that the user received.
    pub fn record_down(&self, registry: &mut UserRegistry, bytes: u64)
        requires
            old(registry).wf(),
            old(registry).knows(*self),
        ensures
            final(registry).wf(),
            final(registry)@ == received(old(registry)@, self.slot(), bytes),
    {
        let ghost before = registry@;
        let entry = &mut registry.entries[self.slot];
        entry.record_down(bytes);
        assert(registry@.entries =~= before.entries.update(
            self.slot(),
            registry@.entries[self.slot()],
        ));
    }

    /// Why this connection must stop at the Unix time `now_unix`.
    pub fn deny_reason_at(&self, registry: &UserRegistry, now_unix: i64) -> (r: Option<DenyReason>)
        requires
            registry.knows(*self),
        ensures
            r == connection_deny_reason(
                registry@.entries[self.slot()],
                self.generation(),
                now_unix,
            ),
    {
        let entry = &registry.entries[self.slot];
        if entry.generation() != self.generation {
            return Some(DenyReason::Revoked);
        }
        entry.deny_reason_at(now_unix)
    }

    /// Why this connection must stop now.
    pub fn deny_reason(&self, registry: &UserRegistry) -> (r: Option<DenyReason>)
        requires
            registry.knows(*self),
        ensures
            exists|now: i64|
                r == #[trigger] connection_deny_reason(
                    registry@.entries[self.slot()],
                    self.generation(),
                    now,
                ),
    {
        let now: i64 = now_unix();
        self.deny_reason_at(registry, now)
    }
}

/// Whether user `k` of `specs` is taken over into the registry: it has an email and a password,
/// and no user before it that is taken over has the same password.
pub open spec fn is_taken_over(specs: Seq<SpecView>, hashes: Seq<Seq<u8>>, k: int) -> bool
    decreases k,
{
    &&& 0 <= k < specs.len()
    &&& specs[k].email.len() > 0
    &&& specs[k].password.len() > 0
    &&& forall|j: int|
        0 <= j < k && is_taken_over(specs, hashes, j) ==> #[trigger] hashes[j] != hashes[k]
}

/// Whether user `k` of `specs` is taken over into the registry, and no other user with its email
/// is.
pub open spec fn described_once(specs: Seq<SpecView>, hashes: Seq<Seq<u8>>, k: int) -> bool {
    &&& is_taken_over(specs, hashes, k)
    &&& forall|j: int| #[trigger]
        is_taken_over(specs, hashes, j) && j != k ==> specs[j].email != specs[k].email
}

proof fn left_out_for_an_earlier_user(specs: Seq<SpecView>, hashes: Seq<Seq<u8>>, k: int)
    requires
        0 <= k < specs.len(),
        specs[k].email.len() > 0,
        specs[k].password.len() > 0,
    ensures
        !is_taken_over(specs, hashes, k) <==> exists|j: int|
            0 <= j < k && #[trigger] is_taken_over(specs, hashes, j) && hashes[j] == hashes[k],
{
    if !is_taken_over(specs, hashes, k) {
        let j = choose|j: int|
            0 <= j < k && is_taken_over(specs, hashes, j) && #[trigger] hashes[j] == hashes[k];
        assert(is_taken_over(specs, hashes, j));
    } else {
        assert forall|j: int| 0 <= j < k && #[trigger]
            is_taken_over(specs, hashes, j) implies hashes[j] != hashes[k] by {
            assert(hashes[j] != hashes[k]);
        }
    }
}

/// A digest leads somewhere once a user with that digest is taken over.
pub proof fn digests_lead_to_users(
    before: RegistryView,
    specs: Seq<SpecView>,
    hashes: Seq<Seq<u8>>,
    hash: Seq<u8>,
    n: nat,
)
    requires
        n <= specs.len(),
    ensures
        lookup(with_users(before, specs, hashes, n).by_hash, hash) is Some <==> exists|j: int|
            0 <= j < n && #[trigger] is_taken_over(specs, hashes, j) && hashes[j] == hash,
    decreases n,
{
    if n > 0 {
        let m = (n - 1) as nat;
        let earlier = with_users(before, specs, hashes, m);
        digests_lead_to_users(before, specs, hashes, hash, m);
        digests_lead_to_users(before, specs, hashes, hashes[m as int], m);
        let its_slot = match lookup(before.by_email, specs[m as int].email) {
            Some(slot) => slot,
            None => earlier.entries.len() as int,
        };
        lookup_after_put(earlier.by_hash, hashes[m as int], its_slot, hash);
        if specs[m as int].email.len() > 0 && specs[m as int].password.len() > 0 {
            left_out_for_an_earlier_user(specs, hashes, m as int);
        }
    } else {
        assert(keys(Seq::<(Seq<u8>, int)>::empty()) =~= Seq::<Seq<u8>>::empty());
        position_bounds(Seq::<Seq<u8>>::empty(), hash);
    }
}

/// What the next user does: nothing if it is left out, and otherwise it stands behind those
/// before it.
pub(crate) proof fn next_user(
    before: RegistryView,
    specs: Seq<SpecView>,
    hashes: Seq<Seq<u8>>,
    n: nat,
)
    requires
        n < specs.len(),
    ensures
        ({
            let r = with_users(before, specs, hashes, n);
            let next = with_users(before, specs, hashes, n + 1);
            if is_taken_over(specs, hashes, n as int) {
                &&& lookup(r.by_hash, hashes[n as int]) is None
                &&& next == with_user(before, r, specs[n as int], hashes[n as int])
            } else {
                next == r
            }
        }),
{
    digests_lead_to_users(before, specs, hashes, hashes[n as int], n);
    if specs[n as int].email.len() > 0 && specs[n as int].password.len() > 0 {
        left_out_for_an_earlier_user(specs, hashes, n as int);
    }
}

pub(crate) proof fn slot_of_email(r: RegistryView, email: Seq<char>)
    requires
        valid(r),
        lookup(r.by_email, email) is Some,
    ensures
        0 <= lookup(r.by_email, email)->0 < r.entries.len(),
        r.entries[lookup(r.by_email, email)->0].email == email,
{
    let i = lookup_is_somewhere(r.by_email, email);
    assert(r.by_email[i].0 == email);
}

pub(crate) proof fn prefix_replaces(
    before: RegistryView,
    specs: Seq<SpecView>,
    hashes: Seq<Seq<u8>>,
    n: nat,
)
    requires
        valid(before),
    ensures
        replaces(before, with_users(before, specs, hashes, n)),
    decreases n,
{
    if n > 0 {
        let m = (n - 1) as nat;
        prefix_replaces(before, specs, hashes, m);
        with_user_replaces(
            before,
            with_users(before, specs, hashes, m),
            specs[n - 1],
            hashes[n - 1],
        );
    }
}

proof fn staying_user_in_prefix(
    before: RegistryView,
    specs: Seq<SpecView>,
    hashes: Seq<Seq<u8>>,
    k: int,
    n: nat,
)
    requires
        valid(before),
        described_once(specs, hashes, k),
        lookup(before.by_email, specs[k].email) is Some,
        n <= specs.len(),
    ensures
        ({
            let slot = lookup(before.by_email, specs[k].email)->0;
            let r = with_users(before, specs, hashes, n);
            let rekeyed = lookup(before.by_hash, hashes[k]) != Some(slot);
            if n <= k {
                &&& r.entries[slot] == before.entries[slot]
                &&& lookup(r.by_email, specs[k].email) is None
                &&& lookup(r.by_hash, hashes[k]) is None
            } else {
                &&& r.entries[slot] == updated_entry(before.entries[slot], specs[k], rekeyed)
                &&& lookup(r.by_email, specs[k].email) == Some(slot)
                &&& lookup(r.by_hash, hashes[k]) == Some(slot)
            }
        }),
    decreases n,
{
    let email = specs[k].email;
    let slot = lookup(before.by_email, email)->0;
    slot_of_email(before, email);
    if n == 0 {
    } else {
        let m = (n - 1) as nat;
        staying_user_in_prefix(before, specs, hashes, k, m);
        prefix_replaces(before, specs, hashes, m);
        next_user(before, specs, hashes, m);
        let earlier = with_users(before, specs, hashes, m);
        let s = specs[m as int];
        let hash = hashes[m as int];
        let its_slot = match lookup(before.by_email, s.email) {
            Some(slot) => slot,
            None => earlier.entries.len() as int,
        };
        lookup_after_put(earlier.by_email, s.email, its_slot, email);
        lookup_after_put(earlier.by_hash, hash, its_slot, hashes[k]);
        if m != k {
            if lookup(before.by_email, s.email) is Some {
                slot_of_email(before, s.email);
            }
            if m < k && is_taken_over(specs, hashes, m as int) {
                assert(hash != hashes[k]);
            }
        }
    }
}

pub(crate) proof fn fresh_user_in_prefix(
    before: RegistryView,
    specs: Seq<SpecView>,
    hashes: Seq<Seq<u8>>,
    k: int,
    n: nat,
)
    requires
        valid(before),
        described_once(specs, hashes, k),
        lookup(before.by_email, specs[k].email) is None,
        n <= specs.len(),
    ensures
        ({
            let slot = with_users(before, specs, hashes, k as nat).entries.len() as int;
            let r = with_users(before, specs, hashes, n);
            if n <= k {
                &&& lookup(r.by_email, specs[k].email) is None
                &&& lookup(r.by_hash, hashes[k]) is None
            } else {
                &&& before.entries.len() <= slot < r.entries.len()
                &&& r.entries[slot] == new_entry(specs[k])
                &&& lookup(r.by_email, specs[k].email) == Some(slot)
                &&& lookup(r.by_hash, hashes[k]) == Some(slot)
            }
        }),
    decreases n,
{
    let email = specs[k].email;
    if n > 0 {
        let m = (n - 1) as nat;
        fresh_user_in_prefix(before, specs, hashes, k, m);
        prefix_replaces(before, specs, hashes, m);
        next_user(before, specs, hashes, m);
        let earlier = with_users(before, specs, hashes, m);
        let s = specs[m as int];
        let hash = hashes[m as int];
        let its_slot = match lookup(before.by_email, s.email) {
            Some(slot) => slot,
            None => earlier.entries.len() as int,
        };
        lookup_after_put(earlier.by_email, s.email, its_slot, email);
        lookup_after_put(earlier.by_hash, hash, its_slot, hashes[k]);
        if lookup(before.by_email, s.email) is Some {
            slot_of_email(before, s.email);
        }
        if m != k {
            if m < k && is_taken_over(specs, hashes, m as int) {
                assert(hash != hashes[k]);
            }
        }
    }
}

/// A user that stays in the set keeps its counters and its connections, and gets its new
/// limits. If it keeps its password, its generation stays and its connections go on; if its
/// password changes, its generation moves on. Either way it is found under its email and under
/// the digest of its password.
pub proof fn staying_users_keep_their_counters(
    before: RegistryView,
    specs: Seq<SpecView>,
    hashes: Seq<Seq<u8>>,
    k: int,
)
    requires
        valid(before),
        described_once(specs, hashes, k),
        lookup(before.by_email, specs[k].email) is Some,
    ensures
        ({
            let slot = lookup(before.by_email, specs[k].email)->0;
            let rekeyed = lookup(before.by_hash, hashes[k]) != Some(slot);
            let after = replaced(before, specs, hashes);
            &&& after.entries[slot] == updated_entry(before.entries[slot], specs[k], rekeyed)
            &&& lookup(after.by_email, specs[k].email) == Some(slot)
            &&& lookup(after.by_hash, hashes[k]) == Some(slot)
        }),
{
    let slot = lookup(before.by_email, specs[k].email)->0;
    staying_user_in_prefix(before, specs, hashes, k, specs.len());
    prefix_replaces(before, specs, hashes, specs.len());
    slot_of_email(before, specs[k].email);
    let r = with_users(before, specs, hashes, specs.len());
    with_revoked_keeps(r.entries, before.by_email, r.by_email, before.by_email.len());
    let after = replaced(before, specs, hashes);
    assert(!missing(before.by_email, r.by_email, before.by_email.len(), slot)) by {
        assert forall|j: int|
            0 <= j < before.by_email.len() && (#[trigger] before.by_email[j]).1 == slot implies
            lookup(r.by_email, before.by_email[j].0) is Some by {
            assert(before.by_email[j].0 == specs[k].email);
        }
    }
    assert(after.entries[slot] == (EntryView {
        revoked: after.entries[slot].revoked,
        ..r.entries[slot]
    }));
}

/// When a user's password changes, every connection that authenticated with the old one must
/// stop, at any time.
pub proof fn rekeying_retires_connections(
    before: RegistryView,
    specs: Seq<SpecView>,
    hashes: Seq<Seq<u8>>,
    k: int,
    now: i64,
)
    requires
        valid(before),
        described_once(specs, hashes, k),
        lookup(before.by_email, specs[k].email) is Some,
        lookup(before.by_hash, hashes[k]) != lookup(before.by_email, specs[k].email),
    ensures
        ({
            let slot = lookup(before.by_email, specs[k].email)->0;
            connection_deny_reason(
                replaced(before, specs, hashes).entries[slot],
                before.entries[slot].generation,
                now,
            ) == Some(DenyReason::Revoked)
        }),
{
    staying_users_keep_their_counters(before, specs, hashes, k);
}

/// A user that is new to the set starts with empty counters and is found under its email and
/// under the digest of its password.
pub proof fn new_users_start_afresh(
    before: RegistryView,
    specs: Seq<SpecView>,
    hashes: Seq<Seq<u8>>,
    k: int,
)
    requires
        valid(before),
        described_once(specs, hashes, k),
        lookup(before.by_email, specs[k].email) is None,
    ensures
        ({
            let after = replaced(before, specs, hashes);
            let slot = lookup(after.by_email, specs[k].email);
            &&& slot is Some
            &&& lookup(after.by_hash, hashes[k]) == slot
            &&& after.entries[slot->0] == new_entry(specs[k])
        }),
{
    fresh_user_in_prefix(before, specs, hashes, k, specs.len());
    prefix_replaces(before, specs, hashes, specs.len());
    let r = with_users(before, specs, hashes, specs.len());
    let slot = lookup(r.by_email, specs[k].email)->0;
    with_revoked_keeps(r.entries, before.by_email, r.by_email, before.by_email.len());
    let after = replaced(before, specs, hashes);
    assert(!missing(before.by_email, r.by_email, before.by_email.len(), slot)) by {
        assert forall|j: int| 0 <= j < before.by_email.len() implies (
        #[trigger] before.by_email[j]).1 != slot by {}
    }
    assert(after.entries[slot] == (EntryView {
        revoked: after.entries[slot].revoked,
        ..r.entries[slot]
    }));
}

/// A user that the new set does not take over is revoked, whether it is missing there or left
/// out: neither it nor any of its connections may pass traffic, at any time.
pub proof fn removed_users_are_revoked(
    before: RegistryView,
    specs: Seq<SpecView>,
    hashes: Seq<Seq<u8>>,
    email: Seq<char>,
    generation: u64,
    now: i64,
)
    requires
        valid(before),
        lookup(before.by_email, email) is Some,
        forall|j: int| #[trigger]
            is_taken_over(specs, hashes, j) ==> specs[j].email != email,
    ensures
        ({
            let after = replaced(before, specs, hashes);
            let slot = lookup(before.by_email, email)->0;
            &&& lookup(after.by_email, email) is None
            &&& deny_reason_at(after.entries[slot], now) == Some(DenyReason::Revoked)
            &&& connection_deny_reason(after.entries[slot], generation, now) == Some(
                DenyReason::Revoked,
            )
        }),
{
    let slot = lookup(before.by_email, email)->0;
    let r = with_users(before, specs, hashes, specs.len());
    prefix_replaces(before, specs, hashes, specs.len());
    email_stays_out(before, specs, hashes, email, specs.len());
    let j = lookup_is_somewhere(before.by_email, email);
    slot_of_email(before, email);
    with_revoked_keeps(r.entries, before.by_email, r.by_email, before.by_email.len());
    assert(before.by_email[j].1 == slot);
    assert(missing(before.by_email, r.by_email, before.by_email.len(), slot));
    assert(replaced(before, specs, hashes).entries[slot].revoked);
}

/// A user whose password a user before it has is left out, and so it is revoked like one that is
/// missing.
pub proof fn colliding_users_are_revoked(
    before: RegistryView,
    specs: Seq<SpecView>,
    hashes: Seq<Seq<u8>>,
    j: int,
    k: int,
    generation: u64,
    now: i64,
)
    requires
        valid(before),
        0 <= j < k < specs.len(),
        is_taken_over(specs, hashes, j),
        hashes[j] == hashes[k],
        forall|i: int| #[trigger]
            is_taken_over(specs, hashes, i) && i != k ==> specs[i].email != specs[k].email,
        lookup(before.by_email, specs[k].email) is Some,
    ensures
        ({
            let after = replaced(before, specs, hashes);
            let slot = lookup(before.by_email, specs[k].email)->0;
            &&& lookup(after.by_email, specs[k].email) is None
            &&& deny_reason_at(after.entries[slot], now) == Some(DenyReason::Revoked)
            &&& connection_deny_reason(after.entries[slot], generation, now) == Some(
                DenyReason::Revoked,
            )
        }),
{
    assert(!is_taken_over(specs, hashes, k));
    removed_users_are_revoked(before, specs, hashes, specs[k].email, generation, now);
}

proof fn email_stays_out(
    before: RegistryView,
    specs: Seq<SpecView>,
    hashes: Seq<Seq<u8>>,
    email: Seq<char>,
    n: nat,
)
    requires
        n <= specs.len(),
        forall|j: int| #[trigger]
            is_taken_over(specs, hashes, j) ==> specs[j].email != email,
    ensures
        lookup(with_users(before, specs, hashes, n).by_email, email) is None,
    decreases n,
{
    if n > 0 {
        let m = (n - 1) as nat;
        email_stays_out(before, specs, hashes, email, m);
        next_user(before, specs, hashes, m);
        let earlier = with_users(before, specs, hashes, m);
        let s = specs[m as int];
        let its_slot = match lookup(before.by_email, s.email) {
            Some(slot) => slot,
            None => earlier.entries.len() as int,
        };
        lookup_after_put(earlier.by_email, s.email, its_slot, email);
    }
}

/// The new registry is a valid one: no two users share an email, and no two share a password,
/// so traffic is never attributed to the wrong user.
pub proof fn replacing_keeps_the_registry_valid(
    before: RegistryView,
    specs: Seq<SpecView>,
    hashes: Seq<Seq<u8>>,
)
    requires
        valid(before),
    ensures
        valid(replaced(before, specs, hashes)),
{
    let r = with_users(before, specs, hashes, specs.len());
    prefix_replaces(before, specs, hashes, specs.len());
    with_revoked_keeps(r.entries, before.by_email, r.by_email, before.by_email.len());
}

/// Resetting a quota reopens a user that had spent it and rewinds no total.
pub proof fn resetting_the_quota_reopens_the_user(e: EntryView, now: i64)
    requires
        deny_reason_at(e, now) == Some(DenyReason::QuotaExceeded),
    ensures
        ({
            let after = reopened(e);
            &&& quota_used(after) == 0
            &&& deny_reason_at(after, now) is None
            &&& after.up == e.up
            &&& after.down == e.down
        }),
{
}

/// Releasing a connection undoes that it was counted.
pub proof fn releasing_undoes_counting(connections: i64)
    ensures
        one_less(one_more(connections)) == connections,
{
}

/// A connection that was let in keeps running as long as nothing about its user changes: at the
/// time it was let in, nothing denies it.
pub proof fn authenticated_connections_may_pass(e: EntryView, now: i64)
    requires
        deny_reason_at(e, now) is None,
    ensures
        connection_deny_reason(
            EntryView { connections: one_more(e.connections), ..e },
            e.generation,
            now,
        ) is None,
{
}

} // verus!
