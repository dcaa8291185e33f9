//! The management API through which a panel drives a node.
//!
//! The panel owns the user list and the traffic ledger, and the node owns the live sessions.
//! Counters are reported as totals; the panel computes the differences between two reports.
use crate::assoc::lookup;
use crate::percent::{percent_decode_utf8, percent_decoded};
use crate::text::{bytes_eq, char_position, chars_of, position_bounds, string_of, text_eq};
use crate::users::{
    hashes_of, quota_reset, quota_used, replaced, specs_view, EntryView, RegistryView, SpecView,
    UserRegistry, UserSpec,
};
use vstd::prelude::*;
use vstd::seq_lib::lemma_multiset_commutative;
use vstd::slice::slice_subrange;
use vstd::utf8::{decode_utf8, encode_utf8, valid_utf8};

verus! {

/// The longest body that is accepted for a new user set, enough for a few thousand users.
pub const MAX_BODY_BYTES: u64 = 8_388_608;

/// The counters of one user.
#[derive(Debug, Clone, Copy, PartialEq, Eq, Structural)]
pub struct StatsUser {
    /// How many connections are open; the user is online if there are any.
    pub connections: i64,
    /// How many bytes the client has sent.
    pub bytes_in: u64,
    /// How many bytes the client has received.
    pub bytes_out: u64,
    /// How many bytes count against the quota.
    pub quota_used: u64,
    /// The quota in bytes, or 0 if there is none.
    pub quota_bytes: u64,
    /// The Unix time from which on the user is refused, or 0 if there is none.
    pub expires_unix: i64,
}

/// The counters of all users, by email.
#[derive(Debug)]
pub struct StatsResponse {
    pub users: Vec<(String, StatsUser)>,
}

/// The counters that are reported for the user `e`.
pub open spec fn user_stats(e: EntryView) -> StatsUser {
    StatsUser {
        connections: e.connections,
        bytes_in: e.up,
        bytes_out: e.down,
        quota_used: quota_used(e),
        quota_bytes: e.quota_bytes,
        expires_unix: e.expires_unix,
    }
}

/// The counters of all users that `r` serves, in the order of its index.
pub open spec fn all_stats(r: RegistryView) -> Seq<(Seq<char>, StatsUser)> {
    r.by_email.map_values(
        |p: (Seq<char>, int)| (r.entries[p.1].email, user_stats(r.entries[p.1])),
    )
}

/// The mathematical value of reported counters.
pub open spec fn stats_view(users: Seq<(String, StatsUser)>) -> Seq<(Seq<char>, StatsUser)> {
    users.map_values(|p: (String, StatsUser)| (p.0@, p.1))
}

impl View for StatsResponse {
    type V = Seq<(Seq<char>, StatsUser)>;

    open spec fn view(&self) -> Seq<(Seq<char>, StatsUser)> {
        stats_view(self.users@)
    }
}

/// The counters of all users.
pub fn collect_stats(registry: &UserRegistry) -> (r: StatsResponse)
    requires
        registry.wf(),
    ensures
        r@ == all_stats(registry@),
{
    let entries = registry.entries();
    let mut users: Vec<(String, StatsUser)> = Vec::new();
    let mut i: usize = 0;
    while i < entries.len()
        invariant
            i <= entries@.len(),
            entries@.len() == registry@.by_email.len(),
            forall|j: int|
                0 <= j < entries@.len() ==> (#[trigger] entries@[j])@
                    == registry@.entries[registry@.by_email[j].1],
            stats_view(users@) == all_stats(registry@).take(i as int),
        decreases entries@.len() - i,
    {
        let entry = entries[i];
        let stats = StatsUser {
            connections: entry.connections(),
            bytes_in: entry.bytes_up(),
            bytes_out: entry.bytes_down(),
            quota_used: entry.quota_used(),
            quota_bytes: entry.quota_bytes(),
            expires_unix: entry.expires_unix(),
        };
        let ghost before = stats_view(users@);
        let email = entry.email().to_owned();
        users.push((email, stats));
        assert(stats_view(users@) =~= before.push((email@, stats)));
        i += 1;
        assert(stats_view(users@) =~= all_stats(registry@).take(i as int));
    }
    assert(stats_view(users@) =~= all_stats(registry@));
    StatsResponse { users }
}

/// One user of a new user set. Its email is its key in the set.
#[derive(Debug)]
pub struct UsersPutEntry {
    pub password: String,
    pub quota_bytes: u64,
    pub expires_unix: i64,
}

/// A new user set, by email.
#[derive(Debug)]
pub struct UsersPutBody {
    pub users: Vec<(String, UsersPutEntry)>,
}

/// The user that an email and its entry describe.
pub open spec fn described(p: (String, UsersPutEntry)) -> SpecView {
    SpecView {
        email: p.0@,
        password: p.1.password@,
        quota_bytes: p.1.quota_bytes,
        expires_unix: p.1.expires_unix,
    }
}

impl View for UsersPutBody {
    type V = Seq<SpecView>;

    open spec fn view(&self) -> Seq<SpecView> {
        self.users@.map_values(|p: (String, UsersPutEntry)| described(p))
    }
}

/// Whether `a` stands before `b` in the order of bytes, or is the same.
pub open spec fn bytes_le(a: Seq<u8>, b: Seq<u8>) -> bool
    decreases a.len(),
{
    if a.len() == 0 {
        true
    } else if b.len() == 0 {
        false
    } else if a[0] == b[0] {
        bytes_le(a.skip(1), b.skip(1))
    } else {
        a[0] < b[0]
    }
}

/// Whether the email of `a` stands before that of `b`, or is the same.
pub open spec fn email_le(a: SpecView, b: SpecView) -> bool {
    bytes_le(encode_utf8(a.email), encode_utf8(b.email))
}

/// Whether `s` is ordered by email.
pub open spec fn ordered(s: Seq<SpecView>) -> bool {
    forall|i: int, j: int|
        0 <= i < j < s.len() ==> email_le(#[trigger] s[i], #[trigger] s[j])
}

proof fn bytes_le_total(a: Seq<u8>, b: Seq<u8>)
    ensures
        bytes_le(a, b) || bytes_le(b, a),
    decreases a.len(),
{
    if a.len() > 0 && b.len() > 0 && a[0] == b[0] {
        bytes_le_total(a.skip(1), b.skip(1));
    }
}

proof fn bytes_le_transitive(a: Seq<u8>, b: Seq<u8>, c: Seq<u8>)
    requires
        bytes_le(a, b),
        bytes_le(b, c),
    ensures
        bytes_le(a, c),
    decreases a.len(),
{
    if a.len() > 0 && b.len() > 0 && c.len() > 0 && a[0] == b[0] && b[0] == c[0] {
        bytes_le_transitive(a.skip(1), b.skip(1), c.skip(1));
    }
}

/// Whether `a` stands before `b` in the order of bytes, or is the same.
fn in_byte_order(a: &[u8], b: &[u8]) -> (r: bool)
    ensures
        r == bytes_le(a@, b@),
{
    let mut i: usize = 0;
    assert(a@.skip(0) =~= a@ && b@.skip(0) =~= b@);
    while i < a.len()
        invariant
            i <= a@.len(),
            i <= b@.len(),
            bytes_le(a@, b@) == bytes_le(a@.skip(i as int), b@.skip(i as int)),
        decreases a@.len() - i,
    {
        if i >= b.len() {
            return false;
        }
        if a[i] != b[i] {
            return a[i] < b[i];
        }
        assert(a@.skip(i as int).skip(1) =~= a@.skip(i + 1));
        assert(b@.skip(i as int).skip(1) =~= b@.skip(i + 1));
        i += 1;
    }
    true
}

proof fn insertion(s: Seq<SpecView>, i: int, x: SpecView)
    requires
        0 <= i <= s.len(),
    ensures
        s.insert(i, x).to_multiset() == s.to_multiset().insert(x),
{
    broadcast use vstd::seq_lib::group_to_multiset_ensures;

    let (left, right) = (s.take(i), s.skip(i));
    assert(s =~= left + right);
    assert(s.insert(i, x) =~= left.push(x) + right);
    lemma_multiset_commutative(left, right);
    lemma_multiset_commutative(left.push(x), right);
    assert(left.push(x).to_multiset() =~= left.to_multiset().insert(x));
    assert(s.insert(i, x).to_multiset() =~= s.to_multiset().insert(x));
}

impl UsersPutBody {
    /// The users of the set, ordered by email, so that every node resolves a shared password in
    /// the same way.
    pub fn into_specs(self) -> (specs: Vec<UserSpec>)
        ensures
            ordered(specs_view(specs@)),
            specs_view(specs@).to_multiset() == self@.to_multiset(),
    {
        broadcast use vstd::seq_lib::group_to_multiset_ensures;

        let ghost all = self@;
        let mut rest = self.users;
        let mut specs: Vec<UserSpec> = Vec::new();
        assert(specs_view(specs@) =~= Seq::<SpecView>::empty());
        assert(rest@.map_values(|p: (String, UsersPutEntry)| described(p)) =~= all);
        assert(all.to_multiset() =~= all.to_multiset().add(specs_view(specs@).to_multiset()));
        while rest.len() > 0
            invariant
                ordered(specs_view(specs@)),
                all.to_multiset() == rest@.map_values(
                    |p: (String, UsersPutEntry)| described(p),
                ).to_multiset().add(specs_view(specs@).to_multiset()),
            decreases rest@.len(),
        {
            let ghost before = rest@.map_values(|p: (String, UsersPutEntry)| described(p));
            let ghost sorted = specs_view(specs@);
            if let Some((email, entry)) = rest.pop() {
                let spec = UserSpec {
                    email,
                    password: entry.password,
                    quota_bytes: entry.quota_bytes,
                    expires_unix: entry.expires_unix,
                };
                let ghost after = rest@.map_values(|p: (String, UsersPutEntry)| described(p));
                assert(before =~= after.push(spec@));
                let mut i: usize = 0;
                while i < specs.len() && !in_byte_order(
                    spec.email.as_str().as_bytes(),
                    specs[i].email.as_str().as_bytes(),
                )
                    invariant
                        i <= specs@.len(),
                        specs_view(specs@) == sorted,
                        forall|j: int| 0 <= j < i ==> !email_le(spec@, #[trigger] sorted[j]),
                    decreases specs@.len() - i,
                {
                    assert(sorted[i as int] == specs@[i as int]@);
                    i += 1;
                }
                if i < specs.len() {
                    assert(sorted[i as int] == specs@[i as int]@);
                    assert(email_le(spec@, sorted[i as int]));
                }
                let ghost x = spec@;
                specs.insert(i, spec);
                let ghost now = sorted.insert(i as int, x);
                assert(specs_view(specs@) =~= now);
                proof {
                    insertion(sorted, i as int, x);
                    inserted_in_order(sorted, i as int, x);
                    insertion(after, after.len() as int, x);
                    assert(after.insert(after.len() as int, x) =~= before);
                    assert(all.to_multiset() =~= after.to_multiset().add(now.to_multiset()));
                }
            }
        }
        assert(rest@.map_values(|p: (String, UsersPutEntry)| described(p)) =~= Seq::<
            SpecView,
        >::empty());
        assert(all.to_multiset() =~= specs_view(specs@).to_multiset());
        specs
    }
}

proof fn inserted_in_order(s: Seq<SpecView>, i: int, x: SpecView)
    requires
        ordered(s),
        0 <= i <= s.len(),
        forall|j: int| 0 <= j < i ==> !email_le(x, #[trigger] s[j]),
        i < s.len() ==> email_le(x, s[i]),
    ensures
        ordered(s.insert(i, x)),
{
    let t = s.insert(i, x);
    assert forall|a: int, b: int| 0 <= a < b < t.len() implies email_le(
        #[trigger] t[a],
        #[trigger] t[b],
    ) by {
        if b == i {
            assert(t[a] == s[a]);
            bytes_le_total(encode_utf8(x.email), encode_utf8(s[a].email));
        } else if a == i {
            assert(t[b] == s[b - 1]);
            if b - 1 > i {
                assert(email_le(s[i], s[b - 1]));
                bytes_le_transitive(
                    encode_utf8(x.email),
                    encode_utf8(s[i].email),
                    encode_utf8(s[b - 1].email),
                );
            }
        } else {
            let a0 = if a < i {
                a
            } else {
                a - 1
            };
            let b0 = if b < i {
                b
            } else {
                b - 1
            };
            assert(t[a] == s[a0] && t[b] == s[b0]);
        }
    }
}

/// Whether a header value consists of visible ASCII characters, spaces and tabs.
pub open spec fn is_visible_ascii(s: Seq<u8>) -> bool {
    forall|i: int| 0 <= i < s.len() ==> 32 <= #[trigger] s[i] < 127 || s[i] == 9
}

/// A header value without the word that announces a token.
pub open spec fn presented_token(value: Seq<u8>) -> Seq<u8> {
    let prefix = encode_utf8("Bearer "@);
    if prefix.is_prefix_of(value) {
        value.skip(prefix.len() as int)
    } else {
        value
    }
}

/// Whether a request may pass: no token is required, or it presents the right one.
pub open spec fn may_pass(header: Option<Seq<u8>>, token: Option<Seq<char>>) -> bool {
    match token {
        None => true,
        Some(token) => match header {
            None => false,
            Some(value) => is_visible_ascii(value) && presented_token(value) == encode_utf8(token),
        },
    }
}

/// Whether two byte strings are the same, found out in a time that depends on their lengths
/// alone.
fn same_secret(a: &[u8], b: &[u8]) -> (r: bool)
    ensures
        r == (a@ == b@),
{
    if a.len() != b.len() {
        return false;
    }
    let mut difference: u8 = 0;
    let mut i: usize = 0;
    assert(a@.take(0) =~= b@.take(0));
    while i < a.len()
        invariant
            i <= a@.len(),
            a@.len() == b@.len(),
            difference == 0 <==> a@.take(i as int) == b@.take(i as int),
        decreases a@.len() - i,
    {
        let (x, y, before): (u8, u8, u8) = (a[i], b[i], difference);
        difference = before | (x ^ y);
        assert(before | (x ^ y) == 0 <==> before == 0 && x == y) by (bit_vector);
        assert(a@.take(i + 1) =~= a@.take(i as int).push(x));
        assert(b@.take(i + 1) =~= b@.take(i as int).push(y));
        proof {
            if a@.take(i + 1) == b@.take(i + 1) {
                assert(a@.take(i as int) =~= a@.take(i + 1).drop_last());
                assert(b@.take(i as int) =~= b@.take(i + 1).drop_last());
                assert(a@.take(i + 1).last() == b@.take(i + 1).last());
            }
        }
        i += 1;
    }
    assert(a@.take(i as int) =~= a@ && b@.take(i as int) =~= b@);
    difference == 0
}

/// Whether a header value consists of visible ASCII characters, spaces and tabs.
fn visible_ascii(value: &[u8]) -> (r: bool)
    ensures
        r == is_visible_ascii(value@),
{
    let mut i: usize = 0;
    while i < value.len()
        invariant
            i <= value@.len(),
            forall|j: int| 0 <= j < i ==> 32 <= #[trigger] value@[j] < 127 || value@[j] == 9,
        decreases value@.len() - i,
    {
        let b: u8 = value[i];
        if !((b >= 32 && b < 127) || b == 9) {
            return false;
        }
        i += 1;
    }
    true
}

/// Whether a request whose `Authorization` header is `header` may pass where `token` is
/// required.
pub fn authorized(header: Option<&[u8]>, token: Option<&str>) -> (r: bool)
    ensures
        r == may_pass(
            match header {
                Some(h) => Some(h@),
                None => None,
            },
            match token {
                Some(t) => Some(t@),
                None => None,
            },
        ),
{
    let token = match token {
        None => {
            return true;
        },
        Some(token) => token,
    };
    let value = match header {
        None => {
            return false;
        },
        Some(value) => value,
    };
    if !visible_ascii(value) {
        return false;
    }
    let prefix = "Bearer ".as_bytes();
    let n: usize = prefix.len();
    let starts = value.len() >= n && bytes_eq(slice_subrange(value, 0, n), prefix);
    assert(starts == prefix@.is_prefix_of(value@));
    let presented = if starts {
        slice_subrange(value, n, value.len())
    } else {
        value
    };
    assert(presented@ =~= presented_token(value@));
    same_secret(presented, token.as_bytes())
}

/// The part of a path between `/users/` and `/reset-quota`, if it is of that form.
pub open spec fn between(path: Seq<char>) -> Option<Seq<char>> {
    let prefix = "/users/"@;
    let suffix = "/reset-quota"@;
    if prefix.is_prefix_of(path) && suffix.is_suffix_of(path.skip(prefix.len() as int)) {
        Some(path.subrange(prefix.len() as int, path.len() - suffix.len()))
    } else {
        None
    }
}

/// The email whose quota a path asks to reset: the one segment between `/users/` and
/// `/reset-quota`, decoded.
pub open spec fn quota_target(path: Seq<char>) -> Option<Seq<char>> {
    match between(path) {
        Some(segment) => {
            let bytes = percent_decoded(encode_utf8(segment));
            if segment.len() > 0 && !segment.contains('/') && valid_utf8(bytes) {
                Some(decode_utf8(bytes))
            } else {
                None
            }
        },
        None => None,
    }
}

/// Whether `s` is `t` from index `at` on, for the length of `t`.
fn matches_at(s: &[char], at: usize, t: &[char]) -> (r: bool)
    requires
        at + t@.len() <= s@.len(),
    ensures
        r == (s@.subrange(at as int, at + t@.len()) == t@),
{
    let mut i: usize = 0;
    let end: usize = s.len();
    while i < t.len()
        invariant
            i <= t@.len(),
            at + t@.len() <= s@.len() == end,
            forall|j: int| 0 <= j < i ==> s@[at + j] == t@[j],
        decreases t@.len() - i,
    {
        if s[at + i] != t[i] {
            assert(s@.subrange(at as int, at + t@.len())[i as int] != t@[i as int]);
            return false;
        }
        i += 1;
    }
    assert(s@.subrange(at as int, at + t@.len()) =~= t@);
    true
}

/// The email whose quota a path asks to reset.
pub fn reset_quota_target(path: &str) -> (r: Option<String>)
    ensures
        match r {
            Some(email) => quota_target(path@) == Some(email@),
            None => quota_target(path@) is None,
        },
{
    let chars = chars_of(path);
    let prefix = chars_of("/users/");
    let suffix = chars_of("/reset-quota");
    let (n, p, q): (usize, usize, usize) = (chars.len(), prefix.len(), suffix.len());
    if n < p || !matches_at(chars.as_slice(), 0, prefix.as_slice()) {
        return None;
    }
    let ghost tail = path@.skip(p as int);
    if n - p < q || !matches_at(chars.as_slice(), n - q, suffix.as_slice()) {
        assert(tail.len() >= q ==> tail.subrange(tail.len() - q, tail.len() as int)
            =~= path@.subrange(n - q, n as int));
        return None;
    }
    assert(tail.subrange(tail.len() - q, tail.len() as int) =~= path@.subrange(n - q, n as int));
    let segment = slice_subrange(chars.as_slice(), p, n - q);
    let slash: usize = char_position(segment, '/');
    proof {
        position_bounds(segment@, '/');
        if slash < segment@.len() {
            assert(segment@.contains(segment@[slash as int]));
        }
    }
    if segment.len() == 0 || slash < segment.len() {
        return None;
    }
    let text = string_of(segment);
    percent_decode_utf8(text.as_str())
}

/// The methods that the API tells apart.
#[derive(Debug, Clone, Copy, PartialEq, Eq, Structural)]
pub enum Method {
    Get,
    Put,
    Post,
    Other,
}

/// What a request asks for.
#[derive(Debug)]
pub enum Endpoint {
    /// It does not present the right token.
    Unauthorized,
    /// Whether the node is there.
    Healthz,
    /// The counters of all users.
    Stats,
    /// A new user set.
    PutUsers,
    /// A new user set that is too large.
    BodyTooLarge,
    /// A new quota window for one user.
    ResetQuota { email: String },
    /// Nothing that the API has.
    NoSuchEndpoint,
}

/// The mathematical value of an [`Endpoint`].
pub enum EndpointView {
    Unauthorized,
    Healthz,
    Stats,
    PutUsers,
    BodyTooLarge,
    ResetQuota { email: Seq<char> },
    NoSuchEndpoint,
}

impl View for Endpoint {
    type V = EndpointView;

    open spec fn view(&self) -> EndpointView {
        match self {
            Endpoint::Unauthorized => EndpointView::Unauthorized,
            Endpoint::Healthz => EndpointView::Healthz,
            Endpoint::Stats => EndpointView::Stats,
            Endpoint::PutUsers => EndpointView::PutUsers,
            Endpoint::BodyTooLarge => EndpointView::BodyTooLarge,
            Endpoint::ResetQuota { email } => EndpointView::ResetQuota { email: email@ },
            Endpoint::NoSuchEndpoint => EndpointView::NoSuchEndpoint,
        }
    }
}

/// What a request that may pass asks for. `body_limit` is the largest size that its body can
/// have, if one is known.
pub open spec fn endpoint_of(method: Method, path: Seq<char>, body_limit: Option<u64>) -> EndpointView {
    if method is Get && path == "/healthz"@ {
        EndpointView::Healthz
    } else if method is Get && path == "/stats"@ {
        EndpointView::Stats
    } else if method is Put && path == "/users"@ {
        match body_limit {
            Some(n) if n <= MAX_BODY_BYTES => EndpointView::PutUsers,
            _ => EndpointView::BodyTooLarge,
        }
    } else if method is Post && quota_target(path) is Some {
        EndpointView::ResetQuota { email: quota_target(path)->0 }
    } else {
        EndpointView::NoSuchEndpoint
    }
}

/// What a request asks for.
pub fn route(
    method: Method,
    path: &str,
    authorization: Option<&[u8]>,
    token: Option<&str>,
    body_limit: Option<u64>,
) -> (r: Endpoint)
    ensures
        r@ == if may_pass(
            match authorization {
                Some(h) => Some(h@),
                None => None,
            },
            match token {
                Some(t) => Some(t@),
                None => None,
            },
        ) {
            endpoint_of(method, path@, body_limit)
        } else {
            EndpointView::Unauthorized
        },
{
    if !authorized(authorization, token) {
        return Endpoint::Unauthorized;
    }
    match method {
        Method::Get => {
            if text_eq(path, "/healthz") {
                return Endpoint::Healthz;
            }
            if text_eq(path, "/stats") {
                return Endpoint::Stats;
            }
        },
        Method::Put => {
            if text_eq(path, "/users") {
                return match body_limit {
                    Some(n) if n <= MAX_BODY_BYTES => Endpoint::PutUsers,
                    _ => Endpoint::BodyTooLarge,
                };
            }
        },
        Method::Post => {
            if let Some(email) = reset_quota_target(path) {
                return Endpoint::ResetQuota { email };
            }
        },
        Method::Other => {},
    }
    Endpoint::NoSuchEndpoint
}

/// What became of reading the body of a request.
#[derive(Debug)]
pub enum PutBody {
    /// The request asks for nothing that needs a body.
    NotRead,
    /// The body could not be read, for the given reason.
    Unreadable(String),
    /// The body is not a user set, for the given reason.
    Invalid(String),
    /// The body is a user set.
    Users(UsersPutBody),
}

/// What a reply says.
#[derive(Debug)]
pub enum ReplyBody {
    /// What is wrong.
    Error(String),
    /// The node is there.
    Healthy,
    /// The counters of all users.
    Stats(StatsResponse),
    /// How many users there are now.
    Users(usize),
    /// Whose quota was reset.
    Email(String),
}

/// The reply to a request.
#[derive(Debug)]
pub struct Reply {
    pub status: u16,
    pub body: ReplyBody,
}

/// Whether `r` is an error reply that says `message`.
pub open spec fn is_error(r: Reply, status: u16, message: Seq<char>) -> bool {
    r.status == status && (r.body matches ReplyBody::Error(m) && m@ == message)
}

fn error_reply(status: u16, message: &str) -> (r: Reply)
    ensures
        is_error(r, status, message@),
{
    Reply { status, body: ReplyBody::Error(message.to_owned()) }
}

/// Whether `r` answers a request for `endpoint` with the body `body`, where the registry is
/// `before` and `after` it.
pub open spec fn answers(
    endpoint: EndpointView,
    body: PutBody,
    before: RegistryView,
    after: RegistryView,
    r: Reply,
) -> bool {
    match endpoint {
        EndpointView::Unauthorized => is_error(r, 401, "invalid or missing bearer token"@)
            && after == before,
        EndpointView::Healthz => r.status == 200 && r.body is Healthy && after == before,
        EndpointView::Stats => r.status == 200 && (r.body matches ReplyBody::Stats(s) && s@
            == all_stats(before)) && after == before,
        EndpointView::PutUsers => match body {
            PutBody::NotRead => false,
            PutBody::Unreadable(e) => is_error(r, 400, "cannot read body: "@ + e@) && after
                == before,
            PutBody::Invalid(e) => is_error(r, 400, "invalid JSON: "@ + e@) && after == before,
            PutBody::Users(users) => r.status == 200 && (r.body matches ReplyBody::Users(n) && n
                == after.by_email.len()) && exists|specs: Seq<SpecView>|
                ordered(specs) && specs.to_multiset() == users@.to_multiset() && after
                    == #[trigger] replaced(before, specs, hashes_of(specs)),
        },
        EndpointView::BodyTooLarge => is_error(r, 413, "request body too large"@) && after
            == before,
        EndpointView::ResetQuota { email } => match lookup(before.by_email, email) {
            Some(_) => r.status == 200 && (r.body matches ReplyBody::Email(m) && m@ == email)
                && after == quota_reset(before, email),
            None => is_error(r, 404, "unknown user"@) && after == before,
        },
        EndpointView::NoSuchEndpoint => is_error(r, 404, "no such endpoint"@) && after == before,
    }
}

/// Answers a request for `endpoint` with the body `body`.
pub fn answer(endpoint: Endpoint, body: PutBody, registry: &mut UserRegistry) -> (r: Reply)
    requires
        old(registry).wf(),
        endpoint is PutUsers ==> !(body is NotRead),
    ensures
        final(registry).wf(),
        answers(endpoint@, body, old(registry)@, final(registry)@, r),
{
    match endpoint {
        Endpoint::Unauthorized => error_reply(401, "invalid or missing bearer token"),
        Endpoint::Healthz => Reply { status: 200, body: ReplyBody::Healthy },
        Endpoint::Stats => Reply { status: 200, body: ReplyBody::Stats(collect_stats(registry)) },
        Endpoint::PutUsers => match body {
            PutBody::NotRead => error_reply(400, "cannot read body"),
            PutBody::Unreadable(e) => {
                let mut message = "cannot read body: ".to_owned();
                message.append(e.as_str());
                Reply { status: 400, body: ReplyBody::Error(message) }
            },
            PutBody::Invalid(e) => {
                let mut message = "invalid JSON: ".to_owned();
                message.append(e.as_str());
                Reply { status: 400, body: ReplyBody::Error(message) }
            },
            PutBody::Users(users) => {
                let specs = users.into_specs();
                registry.replace(specs.as_slice());
                assert(registry@ == replaced(
                    old(registry)@,
                    specs_view(specs@),
                    hashes_of(specs_view(specs@)),
                ));
                Reply { status: 200, body: ReplyBody::Users(registry.len()) }
            },
        },
        Endpoint::BodyTooLarge => error_reply(413, "request body too large"),
        Endpoint::ResetQuota { email } => {
            if registry.reset_quota(email.as_str()) {
                Reply { status: 200, body: ReplyBody::Email(email) }
            } else {
                error_reply(404, "unknown user")
            }
        },
        Endpoint::NoSuchEndpoint => error_reply(404, "no such endpoint"),
    }
}

proof fn bytes_le_antisymmetric(a: Seq<u8>, b: Seq<u8>)
    requires
        bytes_le(a, b),
        bytes_le(b, a),
    ensures
        a == b,
    decreases a.len(),
{
    if a.len() > 0 && b.len() > 0 {
        bytes_le_antisymmetric(a.skip(1), b.skip(1));
        assert(a =~= seq![a[0]] + a.skip(1));
        assert(b =~= seq![b[0]] + b.skip(1));
    } else {
        assert(a =~= b);
    }
}

/// Whether no two users have the same email.
pub open spec fn distinct_emails(s: Seq<SpecView>) -> bool {
    forall|i: int, j: int|
        0 <= i < j < s.len() ==> (#[trigger] s[i]).email != (#[trigger] s[j]).email
}

/// The order of the users does not depend on the order in which a set lists them: two ordered
/// lists of the same users are the same, so every node takes over a set in the same way.
pub proof fn order_of_users_is_unique(s: Seq<SpecView>, t: Seq<SpecView>)
    requires
        ordered(s),
        ordered(t),
        distinct_emails(s),
        s.to_multiset() == t.to_multiset(),
    ensures
        s == t,
    decreases s.len(),
{
    broadcast use vstd::seq_lib::group_to_multiset_ensures;

    s.to_multiset_ensures();
    t.to_multiset_ensures();
    assert(s.len() == t.len());
    if s.len() == 0 {
        assert(s =~= t);
    } else {
        let (a, b) = (s.last(), t.last());
        assert(s.to_multiset().count(a) > 0) by {
            assert(s.contains(a));
        }
        assert(t.contains(a));
        assert(t.to_multiset().count(b) > 0) by {
            assert(t.contains(b));
        }
        assert(s.contains(b));
        let i = choose|i: int| 0 <= i < t.len() && t[i] == a;
        let j = choose|j: int| 0 <= j < s.len() && s[j] == b;
        let (x, y) = (encode_utf8(a.email), encode_utf8(b.email));
        bytes_le_total(x, x);
        if i < t.len() - 1 {
            assert(email_le(t[i], t[t.len() - 1]));
        }
        if j < s.len() - 1 {
            assert(email_le(s[j], s[s.len() - 1]));
        }
        assert(bytes_le(x, y) && bytes_le(y, x)) by {
            bytes_le_total(y, y);
        }
        bytes_le_antisymmetric(x, y);
        vstd::utf8::encode_utf8_decode_utf8(a.email);
        vstd::utf8::encode_utf8_decode_utf8(b.email);
        assert(a.email == b.email);
        if j < s.len() - 1 {
            assert(s[j].email != s[s.len() - 1].email);
        }
        assert(a == b);
        let (s0, t0) = (s.drop_last(), t.drop_last());
        assert(s =~= s0.push(a));
        assert(t =~= t0.push(a));
        insertion(s0, s0.len() as int, a);
        insertion(t0, t0.len() as int, a);
        assert(s0.insert(s0.len() as int, a) =~= s);
        assert(t0.insert(t0.len() as int, a) =~= t);
        assert(s0.to_multiset() =~= t0.to_multiset()) by {
            assert(s0.to_multiset() =~= s.to_multiset().remove(a));
            assert(t0.to_multiset() =~= t.to_multiset().remove(a));
        }
        order_of_users_is_unique(s0, t0);
    }
}

/// A request that does not present the right token learns nothing but that, and changes
/// nothing, whatever it asks for.
pub proof fn refused_requests_change_nothing(
    body: PutBody,
    before: RegistryView,
    after: RegistryView,
    r: Reply,
)
    requires
        answers(EndpointView::Unauthorized, body, before, after, r),
    ensures
        after == before,
        r.status == 401,
{
}

} // verus!
