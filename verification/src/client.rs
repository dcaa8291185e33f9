//! The client side: which session carries the next stream.
//!
//! Sessions are known here by the number under which the client created them, and points in
//! time by whole units since some fixed moment.
use crate::error::{ErrorKind, IoError};
use crate::index;
use crate::index::{keys, pairs, swap_removed};
use crate::text::{position, position_bounds};
use indexmap::IndexMap;
use vstd::prelude::*;

verus! {

/// How often a client tries to open a stream.
pub const MAX_ATTEMPTS: u32 = 3;

/// How long a session that went idle at `since` has been idle at `now`.
pub open spec fn idle_time(now: u64, since: u64) -> u64 {
    if now >= since {
        (now - since) as u64
    } else {
        0
    }
}

/// Whether an idle session has been idle for too long.
pub open spec fn is_stale(p: (u64, u64), now: u64, timeout: u64) -> bool {
    idle_time(now, p.1) >= timeout
}

/// What looking for a reusable session comes to.
pub struct Reuse {
    /// The session to reuse.
    pub session: Option<u64>,
    /// Sessions that were dropped because they were idle for too long.
    pub stale: Seq<u64>,
    /// The sessions that are still idle.
    pub left: Seq<(u64, u64)>,
}

/// The session that went idle last is reused, unless it is terminated or stale; those are
/// dropped on the way to one that is neither.
pub open spec fn reuse(
    s: Seq<(u64, u64)>,
    terminated: Set<u64>,
    now: u64,
    timeout: u64,
) -> Reuse
    decreases s.len(),
{
    if s.len() == 0 {
        Reuse { session: None, stale: Seq::empty(), left: s }
    } else {
        let last = s.last();
        let rest = reuse(s.drop_last(), terminated, now, timeout);
        if terminated.contains(last.0) {
            rest
        } else if is_stale(last, now, timeout) {
            Reuse { stale: seq![last.0] + rest.stale, ..rest }
        } else {
            Reuse { session: Some(last.0), stale: Seq::empty(), left: s.drop_last() }
        }
    }
}

/// Which of the first `n` sessions are stale, in order.
pub open spec fn stale_indices(s: Seq<(u64, u64)>, now: u64, timeout: u64, n: nat) -> Seq<int>
    decreases n,
{
    if n == 0 {
        Seq::empty()
    } else {
        let before = stale_indices(s, now, timeout, (n - 1) as nat);
        if is_stale(s[n - 1], now, timeout) {
            before.push(n - 1)
        } else {
            before
        }
    }
}

/// `s` after the sessions at `indices` were taken out, the last first, and the sessions that
/// were taken out, in that order.
pub open spec fn taken_out(s: Seq<(u64, u64)>, indices: Seq<int>) -> (Seq<(u64, u64)>, Seq<u64>)
    decreases indices.len(),
{
    if indices.len() == 0 {
        (s, Seq::empty())
    } else {
        let i = indices.last();
        let (left, out) = taken_out(swap_removed(s, i), indices.drop_last());
        (left, seq![s[i].0] + out)
    }
}

/// How many stale sessions are dropped of `len` idle ones so that `min_idle` remain.
pub open spec fn drop_count(len: nat, stale: nat, min_idle: nat) -> nat {
    if len <= min_idle {
        0
    } else if stale < len - min_idle {
        stale
    } else {
        (len - min_idle) as nat
    }
}

/// The idle sessions that remain after stale ones were dropped, and those that were dropped:
/// the first of the stale ones, as many as leave `min_idle` sessions in the pool.
pub open spec fn cleaned(s: Seq<(u64, u64)>, now: u64, timeout: u64, min_idle: nat) -> (
    Seq<(u64, u64)>,
    Seq<u64>,
) {
    let stale = stale_indices(s, now, timeout, s.len());
    taken_out(s, stale.take(drop_count(s.len(), stale.len(), min_idle) as int))
}

/// What became of the search for a reusable session.
#[derive(Debug)]
pub struct Reusable {
    /// The session to reuse.
    pub session: Option<u64>,
    /// Sessions that are to be terminated because they were idle for too long.
    pub stale: Vec<u64>,
}

/// Whether `x` is one of `v`.
fn contains(v: &[u64], x: u64) -> (b: bool)
    ensures
        b == v@.contains(x),
{
    let mut i: usize = 0;
    while i < v.len()
        invariant
            i <= v@.len(),
            forall|j: int| 0 <= j < i ==> v@[j] != x,
        decreases v@.len() - i,
    {
        if v[i] == x {
            return true;
        }
        i += 1;
    }
    false
}

fn stale_at(since: u64, now: u64, timeout: u64) -> (b: bool)
    ensures
        b == (idle_time(now, since) >= timeout),
{
    now.saturating_sub(since) >= timeout
}

/// The sessions that have fully gone idle and can carry the next stream, in the order in which
/// they went idle.
pub struct IdleSessionPool {
    sessions: IndexMap<u64, u64>,
}

impl View for IdleSessionPool {
    type V = Seq<(u64, u64)>;

    closed spec fn view(&self) -> Seq<(u64, u64)> {
        pairs(self.sessions)
    }
}

impl IdleSessionPool {
    /// A pool without sessions.
    pub fn new() -> (p: IdleSessionPool)
        ensures
            p@ == Seq::<(u64, u64)>::empty(),
    {
        IdleSessionPool { sessions: index::map_new() }
    }

    /// Whether no session is idle.
    pub fn is_empty(&self) -> (b: bool)
        ensures
            b == (self@.len() == 0),
    {
        index::map_len(&self.sessions) == 0
    }

    /// Takes the session out that went idle last and can be reused at `now`. `terminated` are
    /// the sessions that are known to be over.
    pub fn take_reusable(&mut self, terminated: &[u64], now: u64, idle_session_timeout: u64) -> (r:
        Reusable)
        ensures
            ({
                let expected = reuse(old(self)@, terminated@.to_set(), now, idle_session_timeout);
                &&& r.session == expected.session
                &&& r.stale@ == expected.stale
                &&& final(self)@ == expected.left
            }),
    {
        let ghost expected = reuse(self@, terminated@.to_set(), now, idle_session_timeout);
        let mut stale: Vec<u64> = Vec::new();
        assert(stale@ + expected.stale =~= expected.stale);
        loop
            invariant
                expected == reuse(
                    old(self)@,
                    terminated@.to_set(),
                    now,
                    idle_session_timeout,
                ),
                ({
                    let rest = reuse(self@, terminated@.to_set(), now, idle_session_timeout);
                    &&& expected.session == rest.session
                    &&& expected.left == rest.left
                    &&& expected.stale == stale@ + rest.stale
                }),
            decreases self@.len(),
        {
            let n: usize = index::map_len(&self.sessions);
            let ghost before = self@;
            let ghost rest = reuse(self@, terminated@.to_set(), now, idle_session_timeout);
            let ghost done = stale@;
            if n == 0 {
                assert(stale@ + rest.stale =~= stale@);
                return Reusable { session: None, stale };
            }
            assert(swap_removed(before, n - 1) =~= before.drop_last());
            if let Some((seq, idle_since)) = index::map_swap_remove_index(
                &mut self.sessions,
                n - 1,
            ) {
                assert((seq, idle_since) == before.last());
                if contains(terminated, seq) {
                    continue;
                }
                if stale_at(idle_since, now, idle_session_timeout) {
                    stale.push(seq);
                    assert(done + rest.stale =~= stale@ + rest.stale.skip(1));
                    assert(rest.stale.skip(1) =~= reuse(
                        self@,
                        terminated@.to_set(),
                        now,
                        idle_session_timeout,
                    ).stale);
                    continue;
                }
                assert(stale@ + rest.stale =~= stale@);
                return Reusable { session: Some(seq), stale };
            }
        }
    }

    /// Puts a session into the pool that has gone idle at `now`, unless it is in it already.
    pub fn return_session(&mut self, seq: u64, now: u64)
        ensures
            final(self)@ == if keys(old(self)@).contains(seq) {
                old(self)@
            } else {
                old(self)@.push((seq, now))
            },
    {
        if index::map_contains_key(&self.sessions, seq) {
            return;
        }
        proof {
            position_bounds(keys(self@), seq);
            let i = position(keys(self@), seq);
            if i < self@.len() {
                assert(keys(self@).contains(keys(self@)[i]));
            }
        }
        index::map_insert(&mut self.sessions, seq, now);
    }

    /// Drops sessions that have been idle for `timeout` or longer, but keeps at least `min_idle`
    /// idle sessions. Returns the sessions that are to be terminated.
    pub fn cleanup_stale(&mut self, now: u64, timeout: u64, min_idle: usize) -> (dropped: Vec<u64>)
        ensures
            (final(self)@, dropped@) == cleaned(old(self)@, now, timeout, min_idle as nat),
    {
        let mut dropped: Vec<u64> = Vec::new();
        let len: usize = index::map_len(&self.sessions);
        let ghost all = self@;
        if len <= min_idle {
            assert(stale_indices(all, now, timeout, all.len()).take(0) =~= Seq::<int>::empty());
            assert(dropped@ =~= Seq::<u64>::empty());
            return dropped;
        }
        let mut timed_out: Vec<usize> = Vec::new();
        let mut i: usize = 0;
        while i < len
            invariant
                i <= len,
                len == all.len(),
                self@ == all,
                timed_out@.map_values(|i: usize| i as int) == stale_indices(
                    all,
                    now,
                    timeout,
                    i as nat,
                ),
            decreases len - i,
        {
            if let Some((_seq, idle_since)) = index::map_get_index(&self.sessions, i) {
                if stale_at(idle_since, now, timeout) {
                    let ghost before = timed_out@;
                    timed_out.push(i);
                    assert(timed_out@.map_values(|i: usize| i as int) =~= before.map_values(
                        |i: usize| i as int,
                    ).push(i as int));
                }
            }
            i += 1;
        }
        let ghost stale = stale_indices(all, now, timeout, all.len());
        assert(stale.len() == timed_out@.len());
        let max_removable: usize = len - min_idle;
        let remove_count: usize = if max_removable < timed_out.len() {
            max_removable
        } else {
            timed_out.len()
        };
        let mut k: usize = remove_count;
        proof {
            stale_indices_are_in_order(all, now, timeout, all.len());
        }
        let ghost expected = taken_out(all, stale.take(k as int));
        assert(dropped@ + expected.1 =~= expected.1);
        while k > 0
            invariant
                k <= timed_out@.len(),
                timed_out@.map_values(|i: usize| i as int) == stale,
                in_order(stale, all.len()),
                self@.len() + (remove_count - k) == all.len(),
                k <= remove_count <= stale.len(),
                forall|j: int| 0 <= j < k ==> #[trigger] stale[j] + (remove_count - k) < all.len(),
                ({
                    let (left, out) = taken_out(self@, stale.take(k as int));
                    expected.0 == left && expected.1 == dropped@ + out
                }),
            decreases k,
        {
            let ghost before = self@;
            let ghost done = dropped@;
            k -= 1;
            assert(stale[k as int] == timed_out@[k as int]);
            assert(stale.take(k + 1).drop_last() =~= stale.take(k as int));
            assert forall|j: int| 0 <= j < k implies #[trigger] stale[j] + (remove_count - k)
                < all.len() by {
                assert(stale[j] < stale[k as int]);
            }
            if let Some((seq, _idle_since)) = index::map_swap_remove_index(
                &mut self.sessions,
                timed_out[k],
            ) {
                dropped.push(seq);
            }
            let ghost out = taken_out(self@, stale.take(k as int)).1;
            assert(done + (seq![before[stale[k as int]].0] + out) =~= dropped@ + out);
        }
        assert(stale.take(0) =~= Seq::<int>::empty());
        assert(dropped@ + Seq::<u64>::empty() =~= dropped@);
        dropped
    }

    /// Takes all sessions out of the pool.
    pub fn drain(&mut self) -> (drained: Vec<u64>)
        ensures
            drained@ == keys(old(self)@),
            final(self)@ == Seq::<(u64, u64)>::empty(),
    {
        let drained = numbers(&self.sessions);
        index::map_clear(&mut self.sessions);
        drained
    }
}

/// The keys of a map, in order.
fn numbers(m: &IndexMap<u64, u64>) -> (v: Vec<u64>)
    ensures
        v@ == keys(pairs(*m)),
{
    let mut v: Vec<u64> = Vec::new();
    let mut i: usize = 0;
    let len: usize = index::map_len(m);
    while i < len
        invariant
            i <= len,
            len == pairs(*m).len(),
            v@ == keys(pairs(*m)).take(i as int),
        decreases len - i,
    {
        if let Some((seq, _)) = index::map_get_index(m, i) {
            v.push(seq);
        }
        i += 1;
        assert(v@ =~= keys(pairs(*m)).take(i as int));
    }
    assert(v@ =~= keys(pairs(*m)));
    v
}

/// Where the next stream goes.
#[derive(Debug, Clone, Copy, PartialEq, Eq, Structural)]
pub enum SessionChoice {
    /// To an idle session.
    Idle(u64),
    /// To a session that carries streams and has room for another.
    Active(u64),
    /// To a new session, for which the server has to be dialed.
    Dial,
}

/// What became of the search for a session.
#[derive(Debug)]
pub struct Found {
    /// Where the next stream goes.
    pub choice: SessionChoice,
    /// Sessions that are to be terminated because they were idle for too long.
    pub stale: Vec<u64>,
}

/// The first of `sessions` that is available.
pub open spec fn first_available(sessions: Seq<u64>, available: Set<u64>) -> Option<u64>
    decreases sessions.len(),
{
    if sessions.len() == 0 {
        None
    } else if available.contains(sessions[0]) {
        Some(sessions[0])
    } else {
        first_available(sessions.skip(1), available)
    }
}

/// Whether a session that carries `open_streams` streams can carry another.
pub fn has_stream_capacity(open_streams: usize, max_streams_per_session: usize) -> (b: bool)
    ensures
        b == (open_streams < max_streams_per_session),
{
    open_streams < max_streams_per_session
}

/// What to do with a session after a stream was opened on it.
#[derive(Debug, Clone, Copy, PartialEq, Eq, Structural)]
pub enum IdleReturn {
    /// Put it into the pool.
    Return,
    /// Wait until it is idle and ask again.
    Wait,
    /// Leave it alone.
    Leave,
}

/// What to do with a session, given whether it is over, whether it carries a stream, and
/// whether its going idle has been waited for.
pub fn idle_return(terminated: bool, stream_open: bool, waited: bool) -> (r: IdleReturn)
    ensures
        r == if terminated {
            IdleReturn::Leave
        } else if !stream_open {
            IdleReturn::Return
        } else if waited {
            IdleReturn::Leave
        } else {
            IdleReturn::Wait
        },
{
    if terminated {
        IdleReturn::Leave
    } else if !stream_open {
        IdleReturn::Return
    } else if waited {
        IdleReturn::Leave
    } else {
        IdleReturn::Wait
    }
}

/// The attempts to open one stream.
#[derive(Debug)]
pub struct StreamAttempts {
    used: u32,
    last_error: Option<IoError>,
}

impl StreamAttempts {
    /// How many attempts have failed.
    pub closed spec fn used(&self) -> nat {
        self.used as nat
    }

    /// What the last attempt failed with.
    pub closed spec fn last_error(&self) -> Option<(ErrorKind, Seq<char>)> {
        crate::pipe::error_view(self.last_error)
    }

    /// No more attempts fail than are made.
    pub closed spec fn wf(&self) -> bool {
        self.used <= MAX_ATTEMPTS && (self.used > 0 ==> self.last_error is Some)
    }

    /// No attempt has been made.
    pub fn new() -> (a: StreamAttempts)
        ensures
            a.wf(),
            a.used() == 0,
            a.last_error() is None,
    {
        StreamAttempts { used: 0, last_error: None }
    }

    /// Whether to make another attempt, or the error to give up with.
    pub fn check(&self, client_closed: bool) -> (r: Result<(), IoError>)
        requires
            self.wf(),
        ensures
            match r {
                Ok(_) => self.used() < MAX_ATTEMPTS && !client_closed,
                Err(e) => if self.used() < MAX_ATTEMPTS {
                    client_closed && e@ == (ErrorKind::BrokenPipe, "Client closed"@)
                } else {
                    self.last_error() == Some(e@)
                },
            },
    {
        if self.used < MAX_ATTEMPTS {
            if client_closed {
                return Err(IoError::new(ErrorKind::BrokenPipe, "Client closed"));
            }
            return Ok(());
        }
        match &self.last_error {
            Some(e) => Err(e.clone()),
            None => Err(IoError::other("Failed to create stream")),
        }
    }

    /// Notes that an attempt failed with `error`, and tells whether the session that it was made
    /// on is to be terminated: not if it was merely busy.
    pub fn fail(&mut self, error: IoError) -> (terminate: bool)
        requires
            old(self).wf(),
            old(self).used() < MAX_ATTEMPTS,
        ensures
            final(self).wf(),
            final(self).used() == old(self).used() + 1,
            final(self).last_error() == Some(error@),
            terminate == !(error.kind is WouldBlock),
    {
        let terminate = match error.kind {
            ErrorKind::WouldBlock => false,
            _ => true,
        };
        self.used = self.used + 1;
        self.last_error = Some(error);
        terminate
    }
}

/// A client and its sessions.
pub struct Client {
    active_sessions: IndexMap<u64, u64>,
    idle_session_pool: IdleSessionPool,
    session_seq_number: u64,
    closed: bool,
    idle_session_timeout: u64,
    min_idle_sessions: usize,
    max_streams_per_session: usize,
}

/// The mathematical value of a [`Client`].
#[verifier::ext_equal]
pub struct ClientView {
    pub active: Seq<(u64, u64)>,
    pub idle: Seq<(u64, u64)>,
    pub next: u64,
    pub closed: bool,
    pub idle_session_timeout: u64,
    pub min_idle_sessions: nat,
    pub max_streams_per_session: nat,
}

/// One thing that happens to a client.
pub enum ClientCall {
    /// A session is taken out of the pool. These sessions are over at this time.
    Take(Set<u64>, u64),
    /// A session is looked for. These sessions are over at this time.
    Find(Set<u64>, u64),
    /// A session was started.
    Add(u64),
    /// The session with this number has ended.
    Ended(u64),
    /// The session with this number has gone idle at this time.
    Return(u64, u64),
    /// The pool is cleaned up at this time.
    Clean(u64),
    /// The client is closed.
    Close,
}

/// A client after `call`.
pub open spec fn after_client_call(c: ClientView, call: ClientCall) -> ClientView {
    match call {
        ClientCall::Take(terminated, now) => ClientView {
            idle: reuse(c.idle, terminated, now, c.idle_session_timeout).left,
            ..c
        },
        ClientCall::Find(terminated, now) => if c.closed {
            c
        } else {
            ClientView {
                idle: reuse(c.idle, terminated, now, c.idle_session_timeout).left,
                ..c
            }
        },
        ClientCall::Add(session_id) => if c.closed {
            c
        } else {
            let i = position(keys(c.active), c.next);
            ClientView {
                next: if c.next == u64::MAX {
                    0
                } else {
                    (c.next + 1) as u64
                },
                active: if i < c.active.len() {
                    c.active.update(i, (c.next, session_id))
                } else {
                    c.active.push((c.next, session_id))
                },
                ..c
            }
        },
        ClientCall::Ended(seq) => {
            let i = position(keys(c.active), seq);
            if i < c.active.len() {
                ClientView { active: swap_removed(c.active, i), ..c }
            } else {
                c
            }
        },
        ClientCall::Return(seq, now) => if keys(c.idle).contains(seq) {
            c
        } else {
            ClientView { idle: c.idle.push((seq, now)), ..c }
        },
        ClientCall::Clean(now) => ClientView {
            idle: cleaned(c.idle, now, c.idle_session_timeout, c.min_idle_sessions).0,
            ..c
        },
        ClientCall::Close => if c.closed {
            c
        } else {
            ClientView { active: Seq::empty(), idle: Seq::empty(), closed: true, ..c }
        },
    }
}

impl View for Client {
    type V = ClientView;

    closed spec fn view(&self) -> ClientView {
        ClientView {
            active: pairs(self.active_sessions),
            idle: self.idle_session_pool@,
            next: self.session_seq_number,
            closed: self.closed,
            idle_session_timeout: self.idle_session_timeout,
            min_idle_sessions: self.min_idle_sessions as nat,
            max_streams_per_session: self.max_streams_per_session as nat,
        }
    }
}

impl Client {
    /// A client without sessions. A session can carry at least one stream.
    pub fn new(
        idle_session_timeout: u64,
        min_idle_sessions: usize,
        max_streams_per_session: usize,
    ) -> (c: Client)
        ensures
            c@ == (ClientView {
                active: Seq::empty(),
                idle: Seq::empty(),
                next: 0,
                closed: false,
                idle_session_timeout,
                min_idle_sessions: min_idle_sessions as nat,
                max_streams_per_session: if max_streams_per_session == 0 {
                    1
                } else {
                    max_streams_per_session as nat
                },
            }),
    {
        Client {
            active_sessions: index::map_new(),
            idle_session_pool: IdleSessionPool::new(),
            session_seq_number: 0,
            closed: false,
            idle_session_timeout,
            min_idle_sessions,
            max_streams_per_session: if max_streams_per_session == 0 {
                1
            } else {
                max_streams_per_session
            },
        }
    }

    /// Whether the client is closed.
    pub fn is_closed(&self) -> (b: bool)
        ensures
            b == self@.closed,
    {
        self.closed
    }

    /// How many streams a session may carry.
    pub fn max_streams_per_session(&self) -> (n: usize)
        ensures
            n == self@.max_streams_per_session,
    {
        self.max_streams_per_session
    }

    /// Whether no session is idle.
    pub fn has_no_idle_session(&self) -> (b: bool)
        ensures
            b == (self@.idle.len() == 0),
    {
        self.idle_session_pool.is_empty()
    }

    /// Takes an idle session out of the pool that can be reused at `now`.
    pub fn take_reusable_session(&mut self, terminated: &[u64], now: u64) -> (r: Reusable)
        ensures
            ({
                let expected = reuse(
                    old(self)@.idle,
                    terminated@.to_set(),
                    now,
                    old(self)@.idle_session_timeout,
                );
                &&& r.session == expected.session
                &&& r.stale@ == expected.stale
                &&& final(self)@ == (ClientView { idle: expected.left, ..old(self)@ })
            }),
            final(self)@ == after_client_call(
                old(self)@,
                ClientCall::Take(terminated@.to_set(), now),
            ),
    {
        self.idle_session_pool.take_reusable(terminated, now, self.idle_session_timeout)
    }

    /// Finds a session for the next stream: an idle one, or else the oldest one that has room,
    /// or else a new one. `terminated` are the sessions that are over, and `available` those
    /// that are not and have room for another stream.
    pub fn find_session(&mut self, terminated: &[u64], available: &[u64], now: u64) -> (r: Result<
        Found,
        IoError,
    >)
        ensures
            match r {
                Err(e) => old(self)@.closed && e@ == (ErrorKind::BrokenPipe, "Client closed"@)
                    && final(self)@ == old(self)@,
                Ok(found) => {
                    let idle = reuse(
                        old(self)@.idle,
                        terminated@.to_set(),
                        now,
                        old(self)@.idle_session_timeout,
                    );
                    &&& !old(self)@.closed
                    &&& found.stale@ == idle.stale
                    &&& final(self)@ == (ClientView { idle: idle.left, ..old(self)@ })
                    &&& found.choice == match idle.session {
                        Some(seq) => SessionChoice::Idle(seq),
                        None => match first_available(keys(old(self)@.active), available@.to_set()) {
                            Some(seq) => SessionChoice::Active(seq),
                            None => SessionChoice::Dial,
                        },
                    }
                },
            },
            final(self)@ == after_client_call(
                old(self)@,
                ClientCall::Find(terminated@.to_set(), now),
            ),
    {
        if self.closed {
            return Err(IoError::new(ErrorKind::BrokenPipe, "Client closed"));
        }
        let reusable = self.take_reusable_session(terminated, now);
        if let Some(seq) = reusable.session {
            return Ok(Found { choice: SessionChoice::Idle(seq), stale: reusable.stale });
        }
        let active = numbers(&self.active_sessions);
        let mut i: usize = 0;
        assert(active@.skip(0) =~= active@);
        while i < active.len()
            invariant
                i <= active@.len(),
                first_available(active@, available@.to_set()) == first_available(
                    active@.skip(i as int),
                    available@.to_set(),
                ),
                active@ == keys(old(self)@.active),
                !old(self)@.closed,
                ({
                    let idle = reuse(
                        old(self)@.idle,
                        terminated@.to_set(),
                        now,
                        old(self)@.idle_session_timeout,
                    );
                    &&& idle.session is None
                    &&& reusable.stale@ == idle.stale
                    &&& self@ == (ClientView { idle: idle.left, ..old(self)@ })
                }),
            decreases active@.len() - i,
        {
            assert(active@.skip(i as int).skip(1) =~= active@.skip(i + 1));
            if contains(available, active[i]) {
                return Ok(
                    Found { choice: SessionChoice::Active(active[i]), stale: reusable.stale },
                );
            }
            i += 1;
        }
        Ok(Found { choice: SessionChoice::Dial, stale: reusable.stale })
    }

    /// Takes in a session that was just started, under the next number. The numbers start again
    /// at 0 behind the largest.
    pub fn add_session(&mut self, session_id: u64) -> (r: Result<u64, IoError>)
        ensures
            match r {
                Err(e) => old(self)@.closed && e@ == (ErrorKind::BrokenPipe, "Client closed"@)
                    && final(self)@ == old(self)@,
                Ok(seq) => {
                    let i = position(keys(old(self)@.active), seq);
                    &&& !old(self)@.closed
                    &&& seq == old(self)@.next
                    &&& final(self)@ == (ClientView {
                        next: if seq == u64::MAX {
                            0
                        } else {
                            (seq + 1) as u64
                        },
                        active: if i < old(self)@.active.len() {
                            old(self)@.active.update(i, (seq, session_id))
                        } else {
                            old(self)@.active.push((seq, session_id))
                        },
                        ..old(self)@
                    })
                },
            },
            final(self)@ == after_client_call(old(self)@, ClientCall::Add(session_id)),
    {
        if self.closed {
            return Err(IoError::new(ErrorKind::BrokenPipe, "Client closed"));
        }
        let seq: u64 = self.session_seq_number;
        self.session_seq_number = seq.wrapping_add(1);
        index::map_insert(&mut self.active_sessions, seq, session_id);
        Ok(seq)
    }

    /// Forgets a session that has ended.
    pub fn session_ended(&mut self, seq: u64)
        ensures
            ({
                let i = position(keys(old(self)@.active), seq);
                final(self)@ == (ClientView {
                    active: if i < old(self)@.active.len() {
                        swap_removed(old(self)@.active, i)
                    } else {
                        old(self)@.active
                    },
                    ..old(self)@
                })
            }),
            final(self)@ == after_client_call(old(self)@, ClientCall::Ended(seq)),
    {
        index::map_swap_remove(&mut self.active_sessions, seq);
    }

    /// Puts a session into the pool that has gone idle at `now`, unless it is in it already.
    pub fn return_session(&mut self, seq: u64, now: u64)
        ensures
            final(self)@ == if keys(old(self)@.idle).contains(seq) {
                old(self)@
            } else {
                ClientView { idle: old(self)@.idle.push((seq, now)), ..old(self)@ }
            },
            final(self)@ == after_client_call(old(self)@, ClientCall::Return(seq, now)),
    {
        self.idle_session_pool.return_session(seq, now);
    }

    /// Drops sessions that have been idle for too long; they are to be terminated.
    pub fn cleanup_stale(&mut self, now: u64) -> (dropped: Vec<u64>)
        ensures
            ({
                let (left, out) = cleaned(
                    old(self)@.idle,
                    now,
                    old(self)@.idle_session_timeout,
                    old(self)@.min_idle_sessions,
                );
                &&& dropped@ == out
                &&& final(self)@ == (ClientView { idle: left, ..old(self)@ })
            }),
            final(self)@ == after_client_call(old(self)@, ClientCall::Clean(now)),
    {
        self.idle_session_pool.cleanup_stale(now, self.idle_session_timeout, self.min_idle_sessions)
    }

    /// Closes the client and returns the sessions that are to be terminated. A client closes
    /// once.
    pub fn close(&mut self) -> (sessions: Vec<u64>)
        ensures
            old(self)@.closed ==> sessions@ == Seq::<u64>::empty() && final(self)@ == old(self)@,
            !old(self)@.closed ==> sessions@ == keys(old(self)@.active) + keys(old(self)@.idle)
                && final(self)@ == (ClientView {
                active: Seq::empty(),
                idle: Seq::empty(),
                closed: true,
                ..old(self)@
            }),
            final(self)@ == after_client_call(old(self)@, ClientCall::Close),
    {
        if self.closed {
            return Vec::new();
        }
        self.closed = true;
        let mut sessions = numbers(&self.active_sessions);
        index::map_clear(&mut self.active_sessions);
        let mut idle = self.idle_session_pool.drain();
        sessions.append(&mut idle);
        sessions
    }
}

/// Whether `indices` are increasing and below `n`.
pub open spec fn in_order(indices: Seq<int>, n: nat) -> bool {
    &&& forall|i: int| 0 <= i < indices.len() ==> 0 <= #[trigger] indices[i] < n
    &&& forall|i: int, j: int|
        0 <= i < j < indices.len() ==> #[trigger] indices[i] < #[trigger] indices[j]
}

pub(crate) proof fn stale_indices_are_in_order(s: Seq<(u64, u64)>, now: u64, timeout: u64, n: nat)
    ensures
        in_order(stale_indices(s, now, timeout, n), n),
        forall|i: int|
            0 <= i < n ==> (stale_indices(s, now, timeout, n).contains(i) <==> is_stale(
                #[trigger] s[i],
                now,
                timeout,
            )),
    decreases n,
{
    if n > 0 {
        let m = (n - 1) as nat;
        stale_indices_are_in_order(s, now, timeout, m);
        let before = stale_indices(s, now, timeout, m);
        let all = stale_indices(s, now, timeout, n);
        assert forall|i: int| 0 <= i < n implies (all.contains(i) <==> is_stale(
            #[trigger] s[i],
            now,
            timeout,
        )) by {
            if i < m {
                if before.contains(i) {
                    let j = choose|j: int| 0 <= j < before.len() && before[j] == i;
                    assert(all[j] == i);
                }
                if all.contains(i) {
                    let j = choose|j: int| 0 <= j < all.len() && all[j] == i;
                    assert(before[j] == i);
                }
            } else if is_stale(s[i], now, timeout) {
                assert(all.last() == i);
            } else if all.contains(i) {
                let j = choose|j: int| 0 <= j < all.len() && all[j] == i;
                assert(before[j] < m);
            }
        }
    }
}

pub(crate) proof fn taking_out_keeps_the_rest(s: Seq<(u64, u64)>, indices: Seq<int>)
    requires
        in_order(indices, s.len()),
    ensures
        ({
            let (left, out) = taken_out(s, indices);
            &&& left.len() == s.len() - indices.len()
            &&& out.len() == indices.len()
            &&& forall|j: int|
                0 <= j < out.len() ==> #[trigger] out[j] == s[indices[indices.len() - 1 - j]].0
            &&& forall|j: int|
                0 <= j < s.len() && !indices.contains(j) ==> left.contains(#[trigger] s[j])
            &&& forall|p: (u64, u64)| #[trigger] left.contains(p) ==> s.contains(p)
        }),
    decreases indices.len(),
{
    let (left, out) = taken_out(s, indices);
    if indices.len() == 0 {
        assert forall|j: int| 0 <= j < s.len() implies left.contains(#[trigger] s[j]) by {}
    } else {
        let i = indices.last();
        let shorter = swap_removed(s, i);
        let earlier = indices.drop_last();
        assert forall|j: int| 0 <= j < earlier.len() implies 0 <= #[trigger] earlier[j] < i by {
            assert(indices[j] < indices[indices.len() - 1]);
        }
        taking_out_keeps_the_rest(shorter, earlier);
        let out_rest = taken_out(shorter, earlier).1;
        assert forall|j: int| 0 <= j < out.len() implies #[trigger] out[j] == s[indices[
            indices.len() - 1 - j]].0 by {
            if j > 0 {
                let e = earlier[earlier.len() - 1 - (j - 1)];
                assert(out[j] == out_rest[j - 1]);
                assert(shorter[e] == s[e]);
            }
        }
        assert forall|j: int| 0 <= j < s.len() && !indices.contains(j) implies left.contains(
            #[trigger] s[j],
        ) by {
            assert(indices.contains(indices[indices.len() - 1]));
            assert(j != i);
            let k = if j == s.len() - 1 {
                i
            } else {
                j
            };
            assert(shorter[k] == s[j]);
            if earlier.contains(k) {
                let e = choose|e: int| 0 <= e < earlier.len() && earlier[e] == k;
                assert(indices[e] == k);
            }
        }
        assert forall|p: (u64, u64)| #[trigger] left.contains(p) implies s.contains(p) by {
            assert(shorter.contains(p));
            let k = choose|k: int| 0 <= k < shorter.len() && shorter[k] == p;
            assert(s[k] == p || s[s.len() - 1] == p);
        }
    }
}

/// Cleaning up drops stale sessions only and never leaves fewer than `min_idle` idle sessions
/// where there were that many. Every session that is not stale stays. When dropping all stale
/// sessions leaves enough, none of them stays.
pub proof fn cleanup_keeps_fresh_sessions(
    s: Seq<(u64, u64)>,
    now: u64,
    timeout: u64,
    min_idle: nat,
)
    ensures
        ({
            let (left, dropped) = cleaned(s, now, timeout, min_idle);
            &&& left.len() + dropped.len() == s.len()
            &&& left.len() >= min_idle || dropped.len() == 0
            &&& forall|j: int|
                0 <= j < dropped.len() ==> exists|i: int|
                    0 <= i < s.len() && s[i].0 == #[trigger] dropped[j] && is_stale(
                        s[i],
                        now,
                        timeout,
                    )
            &&& forall|i: int|
                0 <= i < s.len() && !is_stale(#[trigger] s[i], now, timeout) ==> left.contains(s[i])
            &&& forall|p: (u64, u64)| #[trigger] left.contains(p) ==> s.contains(p)
            &&& left.len() > min_idle ==> dropped.len() == stale_indices(
                s,
                now,
                timeout,
                s.len(),
            ).len()
        }),
{
    let stale = stale_indices(s, now, timeout, s.len());
    let n = drop_count(s.len(), stale.len(), min_idle) as int;
    stale_indices_are_in_order(s, now, timeout, s.len());
    let chosen = stale.take(n);
    taking_out_keeps_the_rest(s, chosen);
    let (left, dropped) = cleaned(s, now, timeout, min_idle);
    assert forall|j: int| 0 <= j < dropped.len() implies exists|i: int|
        0 <= i < s.len() && s[i].0 == #[trigger] dropped[j] && is_stale(s[i], now, timeout) by {
        let i = chosen[chosen.len() - 1 - j];
        assert(stale.contains(stale[chosen.len() - 1 - j]));
        assert(is_stale(s[i], now, timeout));
    }
    assert forall|i: int| 0 <= i < s.len() && !is_stale(#[trigger] s[i], now, timeout) implies
        left.contains(s[i]) by {
        if chosen.contains(i) {
            let j = choose|j: int| 0 <= j < chosen.len() && chosen[j] == i;
            assert(stale.contains(stale[j]));
        }
    }
}

/// Whether an idle session can carry the next stream.
pub open spec fn is_usable(
    p: (u64, u64),
    terminated: Set<u64>,
    now: u64,
    timeout: u64,
) -> bool {
    !terminated.contains(p.0) && !is_stale(p, now, timeout)
}

/// A session that is handed out for reuse was idle, is not terminated and is not stale, and no
/// session that could have been reused went idle after it. It is out of the pool, and every
/// session before it is still in it.
pub proof fn reused_sessions_are_usable(
    s: Seq<(u64, u64)>,
    terminated: Set<u64>,
    now: u64,
    timeout: u64,
)
    ensures
        ({
            let r = reuse(s, terminated, now, timeout);
            match r.session {
                Some(seq) => {
                    let i = r.left.len() as int;
                    &&& i < s.len()
                    &&& s[i].0 == seq
                    &&& is_usable(s[i], terminated, now, timeout)
                    &&& r.left == s.take(i)
                    &&& forall|j: int|
                        i < j < s.len() ==> !is_usable(#[trigger] s[j], terminated, now, timeout)
                },
                None => {
                    &&& r.left.len() == 0
                    &&& forall|j: int|
                        0 <= j < s.len() ==> !is_usable(#[trigger] s[j], terminated, now, timeout)
                },
            }
        }),
    decreases s.len(),
{
    if s.len() > 0 {
        let last = s.last();
        let shorter = s.drop_last();
        reused_sessions_are_usable(shorter, terminated, now, timeout);
        let r = reuse(s, terminated, now, timeout);
        if is_usable(last, terminated, now, timeout) {
            assert(s.take(s.len() - 1) =~= s.drop_last());
        } else {
            let i = if r.session is Some {
                r.left.len() as int
            } else {
                -1
            };
            assert forall|j: int| i < j < s.len() implies !is_usable(
                #[trigger] s[j],
                terminated,
                now,
                timeout,
            ) by {
                if j < shorter.len() {
                    assert(s[j] == shorter[j]);
                }
            }
            if r.session is Some {
                assert(s.take(i) =~= shorter.take(i));
            }
        }
    }
}

} // verus!
