use anytls::panel_sync::{
    check_reply, default_true, id_number, optional_client_id, PanelSyncClient, PanelSyncConfig,
    ReplyProblem, SyncUser, TrafficRecord,
};

fn client(interval: Option<u64>) -> PanelSyncClient {
    PanelSyncClient::new(PanelSyncConfig {
        enabled: Some(true),
        webapi_url: Some("https://panel.example//".to_string()),
        webapi_token: Some("token".to_string()),
        node_id: Some(41),
        api_update_interval_secs: interval,
    })
}

#[test]
fn panel_is_polled_no_more_often_than_allowed() {
    assert_eq!(client(None).interval_secs(), 10);
    assert_eq!(client(Some(1)).interval_secs(), 5);
    assert_eq!(client(Some(60)).interval_secs(), 60);
}

#[test]
fn actions_have_urls() {
    let url = client(None).build_url("users").expect("URL");
    assert_eq!(url, "https://panel.example/mod_mu/users?key=token&node_id=41");
    let nothing = PanelSyncConfig {
        enabled: None,
        webapi_url: None,
        webapi_token: None,
        node_id: None,
        api_update_interval_secs: None,
    };
    let error = PanelSyncClient::new(nothing).build_url("users").unwrap_err();
    assert_eq!(error.message, "panel sync node_id not set");
    let half = PanelSyncConfig {
        enabled: None,
        webapi_url: None,
        webapi_token: None,
        node_id: Some(1),
        api_update_interval_secs: None,
    };
    let error = PanelSyncClient::new(half).build_url("users").unwrap_err();
    assert_eq!(error.message, "panel sync webapi_url not set");
}

#[test]
fn client_ids_are_optional() {
    let id = optional_client_id(Some("00000000-0000-0000-0000-000000000102"));
    assert_eq!(id, Some(0x102));
    assert_eq!(optional_client_id(Some("someone")), None);
    assert_eq!(optional_client_id(None), None);
    assert!(default_true());
    let mut bytes = [0u8; 16];
    bytes[0] = 1;
    assert_eq!(id_number(&bytes), 1u128 << 120);
}

#[test]
fn clients_that_the_panel_does_not_name_go() {
    let mut client = client(None);
    let first = client.traffic_report(&[(1, 10, 20), (2, 5, 0)]);
    client.acknowledge(&first);
    let users = [
        SyncUser { client_id: Some(1), enable: false },
        SyncUser { client_id: None, enable: true },
        SyncUser { client_id: Some(3), enable: true },
    ];
    let plan = client.sync_once(&users, &[1, 2]);
    assert_eq!(plan.upserts, vec![(1, false), (3, true)]);
    assert_eq!(plan.removals, vec![2]);
    // What was reported for a client that went is forgotten, the rest is not.
    let report = client.traffic_report(&[(1, 10, 20), (2, 5, 0)]);
    assert_eq!(report.records, vec![TrafficRecord { client_id: 2, upstream: 5, downstream: 0 }]);
}

#[test]
fn reports_hold_what_came_on_top() {
    let mut client = client(None);
    let first = client.traffic_report(&[(1, 10, 20), (2, 0, 0)]);
    assert_eq!(first.records, vec![TrafficRecord { client_id: 1, upstream: 10, downstream: 20 }]);
    // A report that did not arrive is repeated.
    assert_eq!(client.traffic_report(&[(1, 10, 20)]).records, first.records);
    client.acknowledge(&first);
    assert!(client.traffic_report(&[(1, 10, 20)]).records.is_empty());
    let second = client.traffic_report(&[(1, 15, 20)]);
    assert_eq!(second.records, vec![TrafficRecord { client_id: 1, upstream: 5, downstream: 0 }]);
    // Counters that went back count nothing.
    assert!(client.traffic_report(&[(1, 3, 4)]).records.is_empty());
}

#[test]
fn replies_have_to_be_marked_as_valid() {
    assert_eq!(check_reply(200, Some(1)), Ok(()));
    assert_eq!(check_reply(200, Some(0)), Err(ReplyProblem::WrongData));
    assert_eq!(check_reply(200, None), Err(ReplyProblem::WrongData));
    assert_eq!(check_reply(503, Some(1)), Err(ReplyProblem::Status(503)));
}
