use anytls::clock::{now_unix, unix_seconds};
use anytls::users::{hash_password, AuthedUser, DenyReason, UserRegistry, UserSpec};

fn spec(email: &str, password: &str) -> UserSpec {
    UserSpec {
        email: email.to_string(),
        password: password.to_string(),
        quota_bytes: 0,
        expires_unix: 0,
    }
}

fn login(registry: &mut UserRegistry, password: &str) -> Option<AuthedUser> {
    registry.authenticate(&hash_password(password))
}

#[test]
fn authenticates_each_user_by_its_own_password() {
    let mut registry = UserRegistry::with_users(&[spec("a@x", "pw-a"), spec("b@x", "pw-b")]);

    let a = registry.authenticate(&hash_password("pw-a")).expect("user a");
    let b = registry.authenticate(&hash_password("pw-b")).expect("user b");
    assert_eq!(a.email(&registry), "a@x");
    assert_eq!(b.email(&registry), "b@x");
    assert!(registry.authenticate(&hash_password("pw-c")).is_none());
}

#[test]
fn traffic_is_attributed_per_user() {
    let mut registry = UserRegistry::with_users(&[spec("a@x", "pw-a"), spec("b@x", "pw-b")]);
    registry.authenticate(&hash_password("pw-a")).unwrap().record_up(&mut registry, 100);
    registry.authenticate(&hash_password("pw-b")).unwrap().record_down(&mut registry, 70);

    assert_eq!(registry.get("a@x").unwrap().bytes_up(), 100);
    assert_eq!(registry.get("a@x").unwrap().bytes_down(), 0);
    assert_eq!(registry.get("b@x").unwrap().bytes_down(), 70);
}

#[test]
fn connection_count_follows_guard_lifetime() {
    let mut registry = UserRegistry::with_users(&[spec("a@x", "pw-a")]);
    assert_eq!(registry.get("a@x").unwrap().connections(), 0);

    let first = registry.authenticate(&hash_password("pw-a")).unwrap();
    let second = registry.authenticate(&hash_password("pw-a")).unwrap();
    assert_eq!(registry.get("a@x").unwrap().connections(), 2);

    registry.release(first);
    assert_eq!(registry.get("a@x").unwrap().connections(), 1);
    registry.release(second);
    assert_eq!(registry.get("a@x").unwrap().connections(), 0);
}

#[test]
fn quota_denies_once_spent_and_reset_reopens_without_rewinding_totals() {
    let mut s = spec("a@x", "pw-a");
    s.quota_bytes = 1000;
    let mut registry = UserRegistry::with_users(&[s]);

    let session = registry.authenticate(&hash_password("pw-a")).unwrap();
    session.record_up(&mut registry, 600);
    session.record_down(&mut registry, 300);
    assert_eq!(session.deny_reason(&registry), None);
    session.record_down(&mut registry, 200);
    assert_eq!(session.deny_reason(&registry), Some(DenyReason::QuotaExceeded));
    assert!(registry.authenticate(&hash_password("pw-a")).is_none());

    assert!(registry.reset_quota("a@x"));
    assert_eq!(session.deny_reason(&registry), None);
    // Totals stay monotonic so the panel's delta accounting is unaffected.
    assert_eq!(registry.get("a@x").unwrap().bytes_up(), 600);
    assert_eq!(registry.get("a@x").unwrap().bytes_down(), 500);
}

#[test]
fn expiry_denies_authentication_and_live_sessions() {
    let mut s = spec("a@x", "pw-a");
    s.expires_unix = now_unix() + 3600;
    let mut registry = UserRegistry::with_users(&[s.clone()]);
    let session = registry.authenticate(&hash_password("pw-a")).unwrap();
    assert_eq!(session.deny_reason(&registry), None);

    s.expires_unix = now_unix() - 1;
    registry.replace(&[s]);
    assert_eq!(session.deny_reason(&registry), Some(DenyReason::Expired));
    assert!(registry.authenticate(&hash_password("pw-a")).is_none());
}

#[test]
fn replace_keeps_untouched_users_and_revokes_removed_ones() {
    let mut registry = UserRegistry::with_users(&[spec("a@x", "pw-a"), spec("b@x", "pw-b")]);
    let a_session = registry.authenticate(&hash_password("pw-a")).unwrap();
    let b_session = registry.authenticate(&hash_password("pw-b")).unwrap();
    a_session.record_up(&mut registry, 500);

    // b is dropped, a is left alone, c is added.
    registry.replace(&[spec("a@x", "pw-a"), spec("c@x", "pw-c")]);

    assert_eq!(a_session.deny_reason(&registry), None, "an untouched user keeps its live sessions");
    assert_eq!(registry.get("a@x").unwrap().bytes_up(), 500, "and its counters");
    assert_eq!(b_session.deny_reason(&registry), Some(DenyReason::Revoked));
    assert!(registry.authenticate(&hash_password("pw-b")).is_none());
    assert!(registry.authenticate(&hash_password("pw-c")).is_some());
}

#[test]
fn rekeying_retires_old_sessions_but_keeps_counters() {
    let mut registry = UserRegistry::with_users(&[spec("a@x", "pw-a")]);
    let old_session = registry.authenticate(&hash_password("pw-a")).unwrap();
    old_session.record_down(&mut registry, 400);

    registry.replace(&[spec("a@x", "pw-new")]);

    assert_eq!(old_session.deny_reason(&registry), Some(DenyReason::Revoked));
    assert!(registry.authenticate(&hash_password("pw-a")).is_none());
    let new_session = registry.authenticate(&hash_password("pw-new")).unwrap();
    assert_eq!(new_session.deny_reason(&registry), None);
    assert_eq!(registry.get("a@x").unwrap().bytes_down(), 400);
}

#[test]
fn duplicate_passwords_are_refused_so_traffic_is_never_misattributed() {
    let mut registry = UserRegistry::with_users(&[spec("a@x", "same"), spec("b@x", "same")]);
    assert_eq!(registry.len(), 1);
    assert_eq!(registry.authenticate(&hash_password("same")).unwrap().email(&registry), "a@x");
}

#[test]
fn password_digest_is_sha256() {
    assert_eq!(
        hash_password("abc"),
        [
            0xba, 0x78, 0x16, 0xbf, 0x8f, 0x01, 0xcf, 0xea, 0x41, 0x41, 0x40, 0xde, 0x5d, 0xae,
            0x22, 0x23, 0xb0, 0x03, 0x61, 0xa3, 0x96, 0x17, 0x7a, 0x9c, 0xb4, 0x10, 0xff, 0x61,
            0xf2, 0x00, 0x15, 0xad,
        ]
    );
}

#[test]
fn digests_of_another_length_name_nobody() {
    let mut registry = UserRegistry::with_users(&[spec("a@x", "pw-a")]);
    assert!(registry.authenticate(&hash_password("pw-a")[..31]).is_none());
    assert!(registry.authenticate(&[]).is_none());
}

#[test]
fn expiry_is_the_first_second_that_is_denied() {
    let mut s = spec("a@x", "pw-a");
    s.expires_unix = 100;
    let mut registry = UserRegistry::with_users(&[s]);
    let hash = hash_password("pw-a");
    let user = registry.authenticate_at(&hash, 99).expect("not expired yet");
    assert_eq!(user.deny_reason_at(&registry, 99), None);
    assert_eq!(user.deny_reason_at(&registry, 100), Some(DenyReason::Expired));
    assert!(registry.authenticate_at(&hash, 100).is_none());
}

#[test]
fn quota_is_spent_by_its_last_byte() {
    let mut s = spec("a@x", "pw-a");
    s.quota_bytes = 10;
    let mut registry = UserRegistry::with_users(&[s]);
    let user = login(&mut registry, "pw-a").unwrap();
    user.record_up(&mut registry, 9);
    assert_eq!(user.deny_reason(&registry), None);
    user.record_down(&mut registry, 1);
    assert_eq!(registry.get("a@x").unwrap().quota_used(), 10);
    assert_eq!(user.deny_reason(&registry), Some(DenyReason::QuotaExceeded));
    assert!(!registry.reset_quota("nobody"));
}

#[test]
fn reasons_are_told_in_words() {
    assert_eq!(DenyReason::Revoked.to_string(), "revoked");
    assert_eq!(DenyReason::Expired.to_string(), "expired");
    assert_eq!(DenyReason::QuotaExceeded.to_string(), "quota exceeded");
}

#[test]
fn new_users_start_without_traffic() {
    let mut registry = UserRegistry::new();
    assert!(registry.is_empty());
    registry.replace(&[spec("a@x", "pw-a")]);
    let user = login(&mut registry, "pw-a").unwrap();
    user.record_up(&mut registry, 7);
    registry.replace(&[]);
    assert!(registry.is_empty());
    registry.replace(&[spec("a@x", "pw-a")]);
    let entry = registry.get("a@x").expect("user is back");
    assert_eq!((entry.bytes_up(), entry.connections()), (0, 0));
    assert_eq!(user.deny_reason(&registry), Some(DenyReason::Revoked));
    assert_eq!(registry.entries().len(), 1);
}

#[test]
fn clock_before_the_epoch_shows_zero() {
    assert_eq!(unix_seconds(None), 0);
    assert_eq!(unix_seconds(Some(5)), 5);
    assert_eq!(unix_seconds(Some(u64::MAX)), -1);
    assert!(now_unix() > 1_600_000_000);
}

#[test]
fn only_recorded_bytes_change_the_totals() {
    let mut registry = UserRegistry::with_users(&[spec("a@x", "pw-a"), spec("b@x", "pw-b")]);
    let a = login(&mut registry, "pw-a").unwrap();
    a.record_down(&mut registry, 10);
    assert!(registry.reset_quota("a@x"));
    assert!(login(&mut registry, "pw-c").is_none());
    a.record_down(&mut registry, 20);
    registry.replace(&[spec("a@x", "pw-new")]);
    a.record_down(&mut registry, 30);
    registry.replace(&[spec("a@x", "pw-new"), spec("b@x", "pw-b")]);
    a.record_up(&mut registry, 7);
    let entry = registry.get("a@x").unwrap();
    assert_eq!((entry.bytes_up(), entry.bytes_down()), (7, 60));
    assert_eq!(registry.get("b@x").unwrap().bytes_down(), 0);
}

#[test]
fn connections_that_are_not_let_in_do_not_count() {
    let mut spent = spec("a@x", "pw-a");
    spent.quota_bytes = 5;
    let mut registry = UserRegistry::with_users(&[spent]);
    let first = login(&mut registry, "pw-a").unwrap();
    first.record_up(&mut registry, 5);
    assert!(login(&mut registry, "pw-a").is_none());
    assert_eq!(registry.get("a@x").unwrap().connections(), 1);
    registry.replace(&[spec("a@x", "pw-new")]);
    let second = login(&mut registry, "pw-new").unwrap();
    assert_eq!(registry.get("a@x").unwrap().connections(), 2);
    registry.release(first);
    registry.release(second);
    assert_eq!(registry.get("a@x").unwrap().connections(), 0);
}

#[test]
fn revoked_connections_are_not_let_back_in() {
    let mut registry = UserRegistry::with_users(&[spec("a@x", "pw-a"), spec("b@x", "pw-b")]);
    let a = login(&mut registry, "pw-a").unwrap();
    let b = login(&mut registry, "pw-b").unwrap();
    registry.replace(&[spec("a@x", "pw-new")]);
    registry.replace(&[spec("a@x", "pw-a"), spec("b@x", "pw-b")]);
    assert_eq!(a.deny_reason_at(&registry, 0), Some(DenyReason::Revoked));
    assert_eq!(b.deny_reason_at(&registry, 0), Some(DenyReason::Revoked));
    let again = login(&mut registry, "pw-b").unwrap();
    assert_eq!(again.deny_reason_at(&registry, 0), None);
    assert_eq!(registry.get("b@x").unwrap().connections(), 1);
}

#[test]
fn generations_count_new_passwords() {
    let mut registry = UserRegistry::with_users(&[spec("a@x", "pw-a"), spec("b@x", "pw-b")]);
    assert_eq!(registry.get("a@x").unwrap().generation(), 0);
    registry.replace(&[spec("a@x", "pw-a"), spec("b@x", "pw-b")]);
    assert_eq!(registry.get("a@x").unwrap().generation(), 0);
    registry.replace(&[spec("a@x", "pw-b"), spec("b@x", "pw-a")]);
    assert_eq!(registry.get("a@x").unwrap().generation(), 1);
    assert_eq!(registry.get("b@x").unwrap().generation(), 1);
    registry.replace(&[spec("a@x", "pw-1"), spec("a@x", "pw-2")]);
    assert_eq!(registry.get("a@x").unwrap().generation(), 3);
}

#[test]
fn users_whose_password_is_taken_are_revoked() {
    let mut registry = UserRegistry::with_users(&[spec("a@x", "pw-a"), spec("b@x", "pw-b")]);
    let b = login(&mut registry, "pw-b").unwrap();
    registry.replace(&[spec("a@x", "same"), spec("b@x", "same")]);
    assert!(registry.get("b@x").is_none());
    assert_eq!(b.deny_reason_at(&registry, 0), Some(DenyReason::Revoked));
    // A user that is itself left out takes no password from those behind it.
    registry.replace(&[spec("a@x", "pw-a"), spec("", "pw-b"), spec("b@x", "pw-b")]);
    assert_eq!(login(&mut registry, "pw-b").unwrap().email(&registry), "b@x");
}

#[test]
fn replacing_by_the_same_users_changes_nothing() {
    let mut registry = UserRegistry::with_users(&[spec("a@x", "pw-a"), spec("b@x", "pw-b")]);
    let list = [spec("b@x", "pw-new"), spec("c@x", "pw-c"), spec("d@x", "pw-c")];
    registry.replace(&list);
    let c = login(&mut registry, "pw-c").unwrap();
    c.record_up(&mut registry, 9);
    let before: Vec<String> = registry.entries().iter().map(|e| format!("{e:?}")).collect();
    registry.replace(&list);
    let after: Vec<String> = registry.entries().iter().map(|e| format!("{e:?}")).collect();
    assert_eq!(before, after);
    assert_eq!(c.deny_reason_at(&registry, 0), None);
}
