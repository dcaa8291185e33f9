use anytls::api::{
    answer, authorized, reset_quota_target, route, Endpoint, Method, PutBody, Reply, ReplyBody,
    UsersPutBody, UsersPutEntry, MAX_BODY_BYTES,
};
use anytls::users::{hash_password, UserRegistry, UserSpec};

fn registry_with(users: &[(&str, &str)]) -> UserRegistry {
    let specs: Vec<UserSpec> = users
        .iter()
        .map(|(email, password)| UserSpec {
            email: email.to_string(),
            password: password.to_string(),
            quota_bytes: 0,
            expires_unix: 0,
        })
        .collect();
    UserRegistry::with_users(&specs)
}

fn request_with(
    registry: &mut UserRegistry,
    method: Method,
    path: &str,
    presented: Option<&str>,
    token: Option<&str>,
    body: PutBody,
) -> Reply {
    let header = presented.map(|t| format!("Bearer {t}"));
    let endpoint = route(method, path, header.as_ref().map(|h| h.as_bytes()), token, Some(100));
    answer(endpoint, body, registry)
}

fn request(registry: &mut UserRegistry, method: Method, path: &str, body: PutBody) -> Reply {
    request_with(registry, method, path, None, None, body)
}

fn entry(password: &str, quota_bytes: u64) -> UsersPutEntry {
    UsersPutEntry { password: password.to_string(), quota_bytes, expires_unix: 0 }
}

#[test]
fn stats_reports_counters_and_live_connections() {
    let mut registry = registry_with(&[("a@x", "pw-a")]);
    let session = registry.authenticate(&hash_password("pw-a")).unwrap();
    session.record_up(&mut registry, 120);
    session.record_down(&mut registry, 340);

    let reply = request(&mut registry, Method::Get, "/stats", PutBody::NotRead);
    assert_eq!(reply.status, 200);
    let users = match reply.body {
        ReplyBody::Stats(parsed) => parsed.users,
        other => panic!("unexpected body {other:?}"),
    };
    let user = &users.iter().find(|(email, _)| email == "a@x").expect("a@x").1;
    assert_eq!(user.bytes_in, 120);
    assert_eq!(user.bytes_out, 340);
    assert_eq!(user.connections, 1);
    assert_eq!((user.quota_used, user.quota_bytes, user.expires_unix), (460, 0, 0));
}

#[test]
fn put_users_replaces_the_set_in_place() {
    let mut registry = registry_with(&[("a@x", "pw-a"), ("b@x", "pw-b")]);
    let a_session = registry.authenticate(&hash_password("pw-a")).unwrap();

    let body = UsersPutBody {
        users: vec![
            ("a@x".to_string(), entry("pw-a", 0)),
            ("c@x".to_string(), entry("pw-c", 50)),
        ],
    };
    let reply = request(&mut registry, Method::Put, "/users", PutBody::Users(body));
    assert_eq!(reply.status, 200);
    assert!(matches!(reply.body, ReplyBody::Users(2)));

    assert_eq!(a_session.deny_reason(&registry), None, "an untouched client keeps its connection");
    assert!(registry.authenticate(&hash_password("pw-b")).is_none());
    assert!(registry.authenticate(&hash_password("pw-c")).is_some());
    assert_eq!(registry.get("c@x").unwrap().quota_bytes(), 50);
}

#[test]
fn reset_quota_reopens_a_spent_user() {
    let mut registry = UserRegistry::with_users(&[UserSpec {
        email: "a@x".to_string(),
        password: "pw-a".to_string(),
        quota_bytes: 100,
        expires_unix: 0,
    }]);
    registry.authenticate(&hash_password("pw-a")).unwrap().record_up(&mut registry, 150);
    assert!(registry.authenticate(&hash_password("pw-a")).is_none());

    let reply = request(&mut registry, Method::Post, "/users/a%40x/reset-quota", PutBody::NotRead);
    assert_eq!(reply.status, 200);
    assert!(matches!(reply.body, ReplyBody::Email(email) if email == "a@x"));
    assert!(registry.authenticate(&hash_password("pw-a")).is_some());
}

#[test]
fn token_is_required_when_configured() {
    let mut registry = registry_with(&[("a@x", "pw-a")]);
    let mut stats = |presented: Option<&str>| {
        request_with(&mut registry, Method::Get, "/stats", presented, Some("s3cret"), PutBody::NotRead).status
    };

    assert_eq!(stats(None), 401);
    assert_eq!(stats(Some("wrong")), 401);
    assert_eq!(stats(Some("s3cret")), 200);
}

#[test]
fn unknown_paths_and_users_are_reported() {
    let mut registry = registry_with(&[("a@x", "pw-a")]);

    assert_eq!(request(&mut registry, Method::Get, "/nope", PutBody::NotRead).status, 404);
    assert_eq!(
        request(&mut registry, Method::Post, "/users/ghost/reset-quota", PutBody::NotRead).status,
        404
    );
    let invalid = PutBody::Invalid("expected ident at line 1 column 2".to_string());
    let reply = request(&mut registry, Method::Put, "/users", invalid);
    assert_eq!(reply.status, 400);
    assert!(matches!(reply.body, ReplyBody::Error(e) if e == "invalid JSON: expected ident at line 1 column 2"));
}

#[test]
fn reset_quota_path_is_parsed_strictly() {
    assert_eq!(reset_quota_target("/users/a%40x/reset-quota").as_deref(), Some("a@x"));
    assert_eq!(reset_quota_target("/users//reset-quota"), None);
    assert_eq!(reset_quota_target("/users/a/b/reset-quota"), None);
    assert_eq!(reset_quota_target("/users/a@x"), None);
}

#[test]
fn reset_quota_target_has_to_be_text() {
    assert_eq!(reset_quota_target("/users/%ff/reset-quota"), None);
    assert_eq!(reset_quota_target("/users/reset-quota"), None);
    assert_eq!(reset_quota_target("/users/a%2Fb/reset-quota").as_deref(), Some("a/b"));
}

#[test]
fn bearer_tokens_are_taken_as_they_stand() {
    assert!(authorized(None, None));
    assert!(authorized(Some(b"whatever"), None));
    assert!(authorized(Some(b"Bearer s3cret"), Some("s3cret")));
    assert!(!authorized(Some(b"bearer s3cret"), Some("s3cret")));
    assert!(!authorized(Some(b"Bearer s3cre"), Some("s3cret")));
    assert!(!authorized(Some(b"Bearer s3cret\xff"), Some("s3cret")));
    assert!(authorized(Some(b"s3cret"), Some("s3cret")), "the scheme may be left out");
    assert!(!authorized(Some(b"Basic s3cret"), Some("s3cret")));
}

#[test]
fn health_is_reported() {
    let mut registry = UserRegistry::new();
    let reply = request(&mut registry, Method::Get, "/healthz", PutBody::NotRead);
    assert_eq!(reply.status, 200);
    assert!(matches!(reply.body, ReplyBody::Healthy));
    assert_eq!(request(&mut registry, Method::Other, "/healthz", PutBody::NotRead).status, 404);
}

#[test]
fn large_bodies_are_refused() {
    let put = |limit: Option<u64>| route(Method::Put, "/users", None, None, limit);
    assert!(matches!(put(Some(MAX_BODY_BYTES)), Endpoint::PutUsers));
    assert!(matches!(put(Some(8 * 1024 * 1024 + 1)), Endpoint::BodyTooLarge));
    assert!(matches!(put(None), Endpoint::BodyTooLarge));
    let mut registry = registry_with(&[("a@x", "pw-a")]);
    let reply = answer(Endpoint::BodyTooLarge, PutBody::NotRead, &mut registry);
    assert_eq!(reply.status, 413);
    assert_eq!(registry.len(), 1);
}

#[test]
fn unreadable_bodies_change_nothing() {
    let mut registry = registry_with(&[("a@x", "pw-a")]);
    let reply = request(&mut registry, Method::Put, "/users", PutBody::Unreadable("reset".to_string()));
    assert_eq!(reply.status, 400);
    assert!(matches!(reply.body, ReplyBody::Error(e) if e == "cannot read body: reset"));
    assert_eq!(registry.len(), 1);
}

#[test]
fn users_are_taken_over_in_the_order_of_their_emails() {
    // Both have the same password: the first in order gets it, however they are listed.
    for emails in [["b@x", "a@x"], ["a@x", "b@x"]] {
        let body = UsersPutBody {
            users: emails.iter().map(|e| (e.to_string(), entry("same", 0))).collect(),
        };
        let specs = body.into_specs();
        assert_eq!(specs[0].email, "a@x");
        assert_eq!(specs[1].email, "b@x");
    }
}
