use anytls::client::{
    has_stream_capacity, idle_return, Client, IdleReturn, IdleSessionPool, SessionChoice,
    StreamAttempts,
};
use anytls::error::{ErrorKind, IoError};
use anytls::session::{Session, SessionEffect, DEFAULT_SID};
use anytls::state::PaddingFactory;

fn session(id: u64) -> Session {
    Session::new(id, true, false, PaddingFactory::from_parts(Vec::new(), String::new(), 0))
}

/// Opens a session the way the client does, and returns it with its number.
fn dial(client: &mut Client) -> (Session, u64) {
    let mut session = session(1);
    assert_eq!(client.find_session(&[], &[], 0).unwrap().choice, SessionChoice::Dial);
    let seq = client.add_session(session.id()).expect("open client");
    session.open_stream().expect("new session");
    (session, seq)
}

#[test]
fn closing_last_stream_returns_session_to_idle_pool() {
    let mut client = Client::new(60, 0, 5);
    let (mut session, seq) = dial(&mut client);
    assert_eq!(idle_return(false, session.is_stream_open(), false), IdleReturn::Wait);
    assert!(client.take_reusable_session(&[], 0).session.is_none());

    let mut effects = Vec::new();
    session.mark_local_stream_closed(DEFAULT_SID, &mut effects);
    assert!(effects.is_empty());
    session.close_logical_stream(DEFAULT_SID, &mut effects);
    assert!(matches!(effects[..], [SessionEffect::NotifyIdle]), "stream should close");
    assert_eq!(idle_return(false, session.is_stream_open(), true), IdleReturn::Return);
    client.return_session(seq, 10);

    let reused = client.take_reusable_session(&[], 11);
    assert_eq!(reused.session, Some(0), "the first session should be returned to the idle pool");
    assert!(
        !session.is_stream_open(),
        "reused session should still be idle when removed from the idle pool"
    );
}

#[test]
fn active_session_accepts_another_stream_without_dialing() {
    let mut client = Client::new(60, 0, 5);
    let (session, seq) = dial(&mut client);
    assert!(client.has_no_idle_session(), "first stream should still be active");

    let mut available = Vec::new();
    if has_stream_capacity(1, client.max_streams_per_session()) {
        available.push(seq);
    }
    let found = client.find_session(&[], &available, 1).expect("open client");
    assert_eq!(
        found.choice,
        SessionChoice::Active(0),
        "a live session should be reused for another multiplexed stream"
    );
    assert!(
        session.is_stream_open(),
        "reused session should still contain the first active logical stream"
    );
    assert_eq!(client.close(), vec![0]);
}

#[test]
fn remote_fin_does_not_return_session_to_idle_pool_before_local_fin() {
    let mut client = Client::new(60, 0, 5);
    let (mut session, seq) = dial(&mut client);

    let mut effects = Vec::new();
    session.close_logical_stream(DEFAULT_SID, &mut effects);
    assert!(effects.is_empty());
    assert_eq!(idle_return(false, session.is_stream_open(), false), IdleReturn::Wait);
    assert!(client.has_no_idle_session());

    session.mark_local_stream_closed(DEFAULT_SID, &mut effects);
    assert!(matches!(effects[..], [SessionEffect::NotifyIdle]));
    assert_eq!(idle_return(false, session.is_stream_open(), true), IdleReturn::Return);
    client.return_session(seq, 0);

    let reused = client.take_reusable_session(&[], 1);
    assert_eq!(reused.session, Some(0), "the first session should be returned to the idle pool");
    assert!(
        !session.is_stream_open(),
        "reused session should still be idle when removed from the idle pool"
    );
}

#[test]
fn stream_limit_opens_a_new_session_when_multiplexing_is_disabled() {
    let mut client = Client::new(60, 0, 1);
    let mut dialed = Vec::new();
    for _ in 0..2 {
        let mut available = Vec::new();
        for seq in &dialed {
            if has_stream_capacity(1, client.max_streams_per_session()) {
                available.push(*seq);
            }
        }
        assert_eq!(client.find_session(&[], &available, 0).unwrap().choice, SessionChoice::Dial);
        dialed.push(client.add_session(1).unwrap());
    }
    assert_eq!(dialed.len(), 2, "the limit should require a second session");
    assert_eq!(client.close(), vec![0, 1]);
}

#[test]
fn newest_usable_session_is_reused_first() {
    let mut pool = IdleSessionPool::new();
    pool.return_session(1, 100);
    pool.return_session(2, 50);
    pool.return_session(3, 0);
    pool.return_session(4, 100);
    pool.return_session(4, 999);
    let reused = pool.take_reusable(&[4], 110, 60);
    assert_eq!((reused.session, reused.stale), (Some(1), vec![3, 2]));
    assert!(pool.is_empty());
    assert_eq!(pool.take_reusable(&[], 0, 1).session, None);
}

#[test]
fn cleanup_drops_stale_sessions_and_keeps_some_idle() {
    let mut pool = IdleSessionPool::new();
    for (seq, since) in [(1, 0), (2, 90), (3, 5), (4, 7), (5, 95)] {
        pool.return_session(seq, since);
    }
    assert!(pool.cleanup_stale(100, 50, 5).is_empty());
    assert_eq!(pool.cleanup_stale(100, 50, 3), vec![3, 1]);
    assert_eq!(pool.cleanup_stale(100, 50, 0), vec![4]);
    let mut left = pool.drain();
    left.sort();
    assert_eq!(left, vec![2, 5]);
    assert!(pool.is_empty());
}

#[test]
fn closed_client_hands_out_nothing() {
    let mut client = Client::new(60, 0, 0);
    assert_eq!(client.max_streams_per_session(), 1);
    assert_eq!(client.add_session(8).unwrap(), 0);
    assert_eq!(client.add_session(9).unwrap(), 1);
    client.session_ended(0);
    client.return_session(1, 0);
    assert_eq!(client.close(), vec![1, 1]);
    assert!(client.is_closed());
    assert!(client.close().is_empty());
    let refused = client.find_session(&[], &[], 0).unwrap_err();
    assert_eq!((refused.kind, refused.message.as_str()), (ErrorKind::BrokenPipe, "Client closed"));
    assert!(client.add_session(1).is_err());
}

#[test]
fn streams_are_tried_three_times() {
    let mut attempts = StreamAttempts::new();
    assert!(attempts.check(false).is_ok());
    assert_eq!(attempts.check(true).unwrap_err().message, "Client closed");
    assert!(!attempts.fail(IoError::new(ErrorKind::WouldBlock, "busy")));
    assert!(attempts.fail(IoError::new(ErrorKind::BrokenPipe, "gone")));
    assert!(attempts.check(false).is_ok());
    assert!(attempts.fail(IoError::other("last")));
    assert_eq!(attempts.check(true).unwrap_err().message, "last");
}

#[test]
fn terminated_and_reopened_sessions_stay_out_of_the_pool() {
    assert_eq!(idle_return(true, false, false), IdleReturn::Leave);
    assert_eq!(idle_return(false, true, true), IdleReturn::Leave);
}

#[test]
fn cleanup_goes_by_the_clients_limits() {
    let mut client = Client::new(10, 1, 5);
    client.return_session(1, 0);
    client.return_session(2, 0);
    assert_eq!(client.cleanup_stale(20), vec![1]);
    assert!(client.cleanup_stale(20).is_empty());
}
