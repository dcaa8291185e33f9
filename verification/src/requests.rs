//! What the management API does with a request: who may ask, what a path asks for, what a reply
//! says and what it changes.
use crate::api::{
    all_stats, answers, bytes_le, described, endpoint_of, is_visible_ascii, may_pass, ordered,
    quota_target, EndpointView, Method, PutBody, Reply, ReplyBody, UsersPutEntry,
};
use crate::assoc::lookup;
use crate::limits::{is_countable, passed};
use crate::percent::{percent_decoded, percent_encoded, percent_round_trip, UrlPart};
use crate::users::{RegistryView, SpecView};
use vstd::prelude::*;
use vstd::utf8::{
    decode_utf8, encode_utf8, encode_utf8_decode_utf8, encode_utf8_valid_utf8, valid_utf8,
};

verus! {

/// Whether a header can hold `s`: visible characters, spaces and tabs.
pub open spec fn is_shown(s: Seq<u8>) -> bool {
    forall|i: int| 0 <= i < s.len() ==> (32 <= #[trigger] s[i] <= 126 || s[i] == 9)
}

proof fn bearer()
    ensures
        encode_utf8("Bearer "@) == seq![66u8, 101, 97, 114, 101, 114, 32],
{
    reveal_strlit("Bearer ");
    vstd::utf8::is_ascii_chars_encode_utf8("Bearer "@);
    assert(encode_utf8("Bearer "@) =~= seq![66u8, 101, 97, 114, 101, 114, 32]);
}

/// Where no token is required every request may pass. Where one is, a request without a header
/// may not, and one with a header may if it presents the token, behind the word `Bearer` and a
/// space or on its own, and nothing else.
pub proof fn tokens_let_requests_pass(
    header: Option<Seq<u8>>,
    value: Seq<u8>,
    token: Seq<char>,
)
    ensures
        may_pass(header, None),
        !may_pass(None, Some(token)),
        may_pass(Some(value), Some(token)) ==> is_shown(value) && (value == encode_utf8(token)
            || value == seq![66u8, 101, 97, 114, 101, 114, 32] + encode_utf8(token)),
        is_shown(encode_utf8(token)) ==> may_pass(
            Some(seq![66u8, 101, 97, 114, 101, 114, 32] + encode_utf8(token)),
            Some(token),
        ),
        is_shown(encode_utf8(token)) && !seq![66u8, 101, 97, 114, 101, 114, 32].is_prefix_of(
            encode_utf8(token),
        ) ==> may_pass(Some(encode_utf8(token)), Some(token)),
{
    bearer();
    let word = seq![66u8, 101, 97, 114, 101, 114, 32];
    let secret = encode_utf8(token);
    let whole = word + secret;
    assert(whole.subrange(0, 7) =~= word);
    assert(whole.skip(7) =~= secret);
    if is_shown(secret) {
        assert forall|i: int| 0 <= i < whole.len() implies (32 <= #[trigger] whole[i] < 127
            || whole[i] == 9) by {
            if i >= 7 {
                assert(whole[i] == secret[i - 7]);
            }
        }
    }
    if may_pass(Some(value), Some(token)) {
        assert(is_visible_ascii(value));
        if word.is_prefix_of(value) {
            assert(value =~= word + value.skip(7));
        }
    }
}

/// What a request may ask for, by its method and its path. A new user set is taken if its body is
/// known to have at most eight mebibytes.
pub proof fn endpoints_have_their_paths(method: Method, path: Seq<char>, body_limit: Option<u64>)
    ensures
        ({
            let e = endpoint_of(method, path, body_limit);
            let fits = body_limit matches Some(n) && n <= 8388608;
            let sets = method is Put && path == "/users"@;
            &&& e is Healthz <==> method is Get && path == "/healthz"@
            &&& e is Stats <==> method is Get && path == "/stats"@
            &&& e is PutUsers <==> sets && fits
            &&& e is BodyTooLarge <==> sets && !fits
            &&& e is ResetQuota <==> method is Post && quota_target(path) is Some
            &&& e matches EndpointView::ResetQuota { email } ==> quota_target(path) == Some(email)
            &&& !(e is Unauthorized)
        }),
{
    reveal_strlit("/healthz");
    reveal_strlit("/stats");
    reveal_strlit("/users");
}

/// The path that asks for a new quota window for the user that `segment` stands for.
pub open spec fn quota_path(segment: Seq<char>) -> Seq<char> {
    "/users/"@ + segment + "/reset-quota"@
}

/// A path asks for a new quota window if it has one segment, and not an empty one, between
/// `/users/` and `/reset-quota`, and that segment stands for a text once its escapes are decoded.
/// That text is the email of the user.
pub proof fn quota_paths_name_their_user(path: Seq<char>, segment: Seq<char>)
    ensures
        ({
            let bytes = percent_decoded(encode_utf8(segment));
            quota_target(quota_path(segment)) == if segment.len() > 0 && !segment.contains('/')
                && valid_utf8(bytes) {
                Some(decode_utf8(bytes))
            } else {
                None
            }
        }),
        quota_target(path) is Some ==> path.len() > 19 && path == quota_path(
            path.subrange(7, path.len() - 12),
        ),
{
    reveal_strlit("/users/");
    reveal_strlit("/reset-quota");
    let (front, end) = ("/users/"@, "/reset-quota"@);
    let whole = quota_path(segment);
    assert(whole.subrange(0, 7) =~= front);
    let behind = whole.skip(7);
    assert(behind.subrange(behind.len() - 12, behind.len() as int) =~= end);
    assert(whole.subrange(7, whole.len() - 12) =~= segment);
    if quota_target(path) is Some {
        let tail = path.skip(7);
        assert(path.subrange(0, 7) =~= front);
        assert(tail.subrange(tail.len() - 12, tail.len() as int) =~= end);
        assert(path =~= quota_path(path.subrange(7, path.len() - 12)));
    }
}

/// A user's quota can be reset by any email, whatever it holds, if it is escaped in the path as a
/// credential is in a URL.
pub proof fn every_user_has_a_quota_path(email: Seq<char>)
    requires
        email.len() > 0,
    ensures
        quota_target(quota_path(percent_encoded(UrlPart::Userinfo, encode_utf8(email)))) == Some(
            email,
        ),
{
    let bytes = encode_utf8(email);
    let segment = percent_encoded(UrlPart::Userinfo, bytes);
    let none = Seq::<u8>::empty();
    quota_paths_name_their_user(segment, segment);
    percent_round_trip(UrlPart::Userinfo, bytes, none);
    assert(encode_utf8(segment) + none =~= encode_utf8(segment));
    assert(bytes + percent_decoded(none) =~= bytes);
    encode_utf8_valid_utf8(email);
    encode_utf8_decode_utf8(email);
    escaped_texts_hold_no_slash(bytes);
    if segment.len() == 0 {
        assert(encode_utf8(segment) =~= none);
        assert(bytes.len() == 0);
        assert(decode_utf8(bytes) =~= Seq::<char>::empty());
    }
}

proof fn escaped_texts_hold_no_slash(bytes: Seq<u8>)
    ensures
        !percent_encoded(UrlPart::Userinfo, bytes).contains('/'),
    decreases bytes.len(),
{
    let part = UrlPart::Userinfo;
    let text = percent_encoded(part, bytes);
    if bytes.len() > 0 {
        escaped_texts_hold_no_slash(bytes.drop_last());
        let front = percent_encoded(part, bytes.drop_last());
        let b = bytes.last();
        assert forall|i: int| 0 <= i < text.len() implies #[trigger] text[i] != '/' by {
            if i < front.len() {
                assert(text[i] == front[i]);
                assert(front.contains(front[i]));
            } else if b < 127 && b >= 32 {
                assert((b as char) as int == b);
            }
        }
    }
}

/// The counters that are reported for a user are those that are kept: as many rows as there are
/// users, each with the email of its user.
pub proof fn stats_tell_what_is_kept(r: RegistryView, i: int)
    requires
        0 <= i < r.by_email.len(),
    ensures
        ({
            let (email, stats) = all_stats(r)[i];
            let e = r.entries[r.by_email[i].1];
            &&& all_stats(r).len() == r.by_email.len()
            &&& email == e.email
            &&& stats.connections == e.connections
            &&& stats.bytes_in == e.up
            &&& stats.bytes_out == e.down
            &&& stats.quota_bytes == e.quota_bytes
            &&& stats.expires_unix == e.expires_unix
            &&& is_countable(e) ==> stats.quota_used == passed(e)
        }),
{
}

/// A reply has the status that says what became of the request.
pub proof fn replies_have_their_status(
    endpoint: EndpointView,
    body: PutBody,
    before: RegistryView,
    after: RegistryView,
    r: Reply,
)
    requires
        answers(endpoint, body, before, after, r),
    ensures
        ({
            let known = endpoint matches EndpointView::ResetQuota { email } && lookup(
                before.by_email,
                email,
            ) is Some;
            let taken_over = endpoint is PutUsers && body is Users;
            &&& r.status == 200 <==> endpoint is Healthz || endpoint is Stats || known || taken_over
            &&& r.status == 400 <==> endpoint is PutUsers && (body is Unreadable || body is Invalid)
            &&& r.status == 401 <==> endpoint is Unauthorized
            &&& r.status == 404 <==> endpoint is NoSuchEndpoint || (endpoint is ResetQuota && !known)
            &&& r.status == 413 <==> endpoint is BodyTooLarge
            &&& r.body is Error <==> r.status != 200
            &&& r.body is Stats <==> endpoint is Stats
            &&& r.body is Users <==> taken_over
            &&& r.body is Email <==> known
            &&& !known && !taken_over ==> after == before
            &&& r.body matches ReplyBody::Users(n) ==> n == after.by_email.len()
            &&& r.body matches ReplyBody::Stats(s) ==> s@ == all_stats(before)
        }),
{
}

/// A reply that refuses a request says what is wrong with it.
pub proof fn refusals_say_what_is_wrong(
    endpoint: EndpointView,
    body: PutBody,
    before: RegistryView,
    after: RegistryView,
    r: Reply,
)
    requires
        answers(endpoint, body, before, after, r),
    ensures
        r.body matches ReplyBody::Error(text) ==> text@ == match endpoint {
            EndpointView::Unauthorized => "invalid or missing bearer token"@,
            EndpointView::BodyTooLarge => "request body too large"@,
            EndpointView::NoSuchEndpoint => "no such endpoint"@,
            EndpointView::ResetQuota { .. } => "unknown user"@,
            _ => match body {
                PutBody::Unreadable(e) => "cannot read body: "@ + e@,
                PutBody::Invalid(e) => "invalid JSON: "@ + e@,
                _ => text@,
            },
        },
        r.body matches ReplyBody::Email(text) ==> endpoint == (EndpointView::ResetQuota {
            email: text@,
        }),
{
}

/// The users of a new set have what their entries say.
pub proof fn entries_describe_their_user(email: String, entry: UsersPutEntry)
    ensures
        ({
            let spec = described((email, entry));
            &&& spec.email == email@
            &&& spec.password == entry.password@
            &&& spec.quota_bytes == entry.quota_bytes
            &&& spec.expires_unix == entry.expires_unix
        }),
{
}

/// Texts are ordered by their first byte that differs, and one that another starts with comes
/// before it.
pub proof fn texts_are_ordered_by_bytes(
    common: Seq<u8>,
    x: u8,
    y: u8,
    behind_x: Seq<u8>,
    behind_y: Seq<u8>,
)
    requires
        x < y,
    ensures
        bytes_le(common + seq![x] + behind_x, common + seq![y] + behind_y),
        !bytes_le(common + seq![y] + behind_y, common + seq![x] + behind_x),
        bytes_le(common, common + behind_x),
        behind_x.len() > 0 ==> !bytes_le(common + behind_x, common),
    decreases common.len(),
{
    let a = common + seq![x] + behind_x;
    let b = common + seq![y] + behind_y;
    let c = common + behind_x;
    if common.len() > 0 {
        let rest = common.skip(1);
        texts_are_ordered_by_bytes(rest, x, y, behind_x, behind_y);
        assert(a.skip(1) =~= rest + seq![x] + behind_x);
        assert(b.skip(1) =~= rest + seq![y] + behind_y);
        assert(c.skip(1) =~= rest + behind_x);
    }
}

/// The users of a set are taken over in the order of their emails, byte by byte.
pub proof fn sets_are_ordered_by_email(s: Seq<SpecView>)
    ensures
        ordered(s) <==> forall|i: int, j: int|
            0 <= i < j < s.len() ==> bytes_le(
                encode_utf8((#[trigger] s[i]).email),
                encode_utf8((#[trigger] s[j]).email),
            ),
{
    if ordered(s) {
        assert forall|i: int, j: int| 0 <= i < j < s.len() implies bytes_le(
            encode_utf8((#[trigger] s[i]).email),
            encode_utf8((#[trigger] s[j]).email),
        ) by {
            assert(crate::api::email_le(s[i], s[j]));
        }
    }
}

} // verus!
