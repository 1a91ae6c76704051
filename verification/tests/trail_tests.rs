use audit_trail::Error;
use audit_trail::trail::AuditTrailContract;

fn s(x: &str) -> String {
    x.to_string()
}

fn initialized_trail(admin: &str) -> AuditTrailContract {
    let mut trail = AuditTrailContract::new();
    trail.initialize(s(admin)).unwrap();
    trail
}

#[test]
fn test_initialize_and_auth() {
    let mut trail = AuditTrailContract::new();
    let admin = s("admin-identity");
    let emitter = s("emitter-identity");

    trail.initialize(admin.clone()).unwrap();

    trail.authorize_emitter(&admin, emitter.clone()).unwrap();
    assert!(trail.is_authorized(&emitter));

    trail.revoke_emitter(&admin, emitter.clone()).unwrap();
    assert!(!trail.is_authorized(&emitter));
}

#[test]
fn test_record_and_query_event() {
    let mut trail = initialized_trail("admin-identity");
    let admin = s("admin-identity");
    let emitter = s("emitter-identity");
    trail.authorize_emitter(&admin, emitter.clone()).unwrap();

    let event_type = s("TOKEN_MINTED");
    let primary_id = s("project-123");
    let event_data = s("{\"amount\": 100}");
    let tx_hash = vec![0u8; 32];
    let timestamp: u64 = 0;

    let event_id = trail
        .record_event(
            emitter.clone(),
            event_type.clone(),
            primary_id.clone(),
            None,
            event_data.clone(),
            tx_hash.clone(),
            timestamp,
        )
        .unwrap();

    let stored_event = trail.get_event(&event_id).unwrap();
    assert_eq!(stored_event.event_type, event_type);
    assert_eq!(stored_event.primary_entity_id, primary_id);

    let entity_events = trail.get_events_by_entity(&primary_id);
    assert_eq!(entity_events.len(), 1);
    assert_eq!(entity_events[0].event_id, event_id);

    let contract_events = trail.get_events_by_contract(&emitter);
    assert_eq!(contract_events.len(), 1);

    let time_events = trail.get_events_by_type_and_time(&event_type, timestamp);
    assert_eq!(time_events.len(), 1);
}

#[test]
fn test_unauthorized_emitter() {
    let mut trail = initialized_trail("admin-identity");
    let emitter = s("emitter-identity");

    let result = trail.record_event(
        emitter,
        s("TOKEN_MINTED"),
        s("project-123"),
        None,
        s("{}"),
        vec![0u8; 32],
        0,
    );
    assert_eq!(result, Err(Error::NotAuthorized));
}

#[test]
fn fresh_trail_authorizes_nobody() {
    let trail = AuditTrailContract::new();
    assert!(!trail.is_authorized(&s("anyone")));

    let trail = initialized_trail("admin-identity");
    assert!(!trail.is_authorized(&s("admin-identity")));
    assert!(!trail.is_authorized(&s("emitter-identity")));
}

#[test]
fn revoked_emitter_cannot_record() {
    let mut trail = initialized_trail("admin-identity");
    let admin = s("admin-identity");
    let emitter = s("emitter-identity");
    trail.authorize_emitter(&admin, emitter.clone()).unwrap();
    trail.revoke_emitter(&admin, emitter.clone()).unwrap();

    let result = trail.record_event(
        emitter,
        s("TOKEN_MINTED"),
        s("project-123"),
        None,
        s("{}"),
        vec![1u8; 32],
        7,
    );
    assert_eq!(result, Err(Error::NotAuthorized));
}

#[test]
fn unauthorized_write_leaves_log_unchanged() {
    let mut trail = initialized_trail("admin-identity");
    let emitter = s("emitter-identity");
    let entity = s("project-123");
    let event_type = s("TOKEN_MINTED");

    let result = trail.record_event(
        emitter.clone(),
        event_type.clone(),
        entity.clone(),
        None,
        s("{}"),
        vec![2u8; 32],
        100,
    );
    assert_eq!(result, Err(Error::NotAuthorized));

    assert!(trail.get_events_by_entity(&entity).is_empty());
    assert!(trail.get_events_by_contract(&emitter).is_empty());
    assert!(trail.get_events_by_type_and_time(&event_type, 100).is_empty());
}

#[test]
fn second_initialize_is_refused() {
    let mut trail = initialized_trail("admin-identity");
    assert_eq!(trail.initialize(s("other-identity")), Err(Error::AlreadyInitialized));
}

#[test]
fn only_admin_manages_allow_list() {
    let mut trail = initialized_trail("admin-identity");
    let outsider = s("outsider");
    let emitter = s("emitter-identity");
    assert_eq!(
        trail.authorize_emitter(&outsider, emitter.clone()),
        Err(Error::NotAuthorized)
    );
    assert_eq!(trail.revoke_emitter(&outsider, emitter), Err(Error::NotAuthorized));
}

#[test]
fn duplicate_submission_is_refused() {
    let mut trail = initialized_trail("admin-identity");
    let admin = s("admin-identity");
    let emitter = s("emitter-identity");
    trail.authorize_emitter(&admin, emitter.clone()).unwrap();

    let tx_hash = vec![9u8; 32];
    let timestamp: u64 = 1234;

    let first = trail.record_event(
        emitter.clone(),
        s("TOKEN_MINTED"),
        s("project-123"),
        None,
        s("{}"),
        tx_hash.clone(),
        timestamp,
    );
    assert!(first.is_ok());

    // The identifier depends on the origin reference and timestamp alone,
    // so even a submission about another entity collides.
    let second = trail.record_event(
        emitter,
        s("TOKEN_BURNED"),
        s("project-456"),
        None,
        s("{}"),
        tx_hash,
        timestamp,
    );
    assert_eq!(second, Err(Error::DuplicateIdentifier));
}

#[test]
fn pagination_returns_the_requested_window() {
    let mut trail = initialized_trail("admin-identity");
    let admin = s("admin-identity");
    let emitter = s("emitter-identity");
    trail.authorize_emitter(&admin, emitter.clone()).unwrap();

    let entity = s("project-123");
    let mut ids = Vec::new();
    for i in 0..3u8 {
        let id = trail
            .record_event(
                emitter.clone(),
                s("TOKEN_MINTED"),
                entity.clone(),
                None,
                s("{}"),
                vec![i; 32],
                1000 + i as u64,
            )
            .unwrap();
        ids.push(id);
    }

    let page = trail.get_events_by_entity_paged(&entity, 0, 2);
    assert_eq!(page.len(), 2);
    assert_eq!(page[0].event_id, ids[0]);
    assert_eq!(page[1].event_id, ids[1]);

    let page = trail.get_events_by_entity_paged(&entity, 1, 5);
    assert_eq!(page.len(), 2);
    assert_eq!(page[0].event_id, ids[1]);
    assert_eq!(page[1].event_id, ids[2]);

    assert!(trail.get_events_by_entity_paged(&entity, 3, 1).is_empty());
    assert!(trail.get_events_by_entity_paged(&entity, 7, 2).is_empty());
    assert!(trail.get_events_by_entity_paged(&entity, 0, 0).is_empty());

    let all = trail.get_events_by_entity(&entity);
    assert_eq!(all.len(), 3);
    assert_eq!(all[2].event_id, ids[2]);
}

#[test]
fn day_bucket_groups_a_whole_day() {
    let mut trail = initialized_trail("admin-identity");
    let admin = s("admin-identity");
    let emitter = s("emitter-identity");
    trail.authorize_emitter(&admin, emitter.clone()).unwrap();

    let event_type = s("TOKEN_MINTED");
    trail
        .record_event(
            emitter,
            event_type.clone(),
            s("project-123"),
            None,
            s("{}"),
            vec![5u8; 32],
            86399,
        )
        .unwrap();

    // Any timestamp of the same day finds the event; the next day does not.
    assert_eq!(trail.get_events_by_type_and_time(&event_type, 0).len(), 1);
    assert_eq!(trail.get_events_by_type_and_time(&event_type, 86399).len(), 1);
    assert!(trail.get_events_by_type_and_time(&event_type, 86400).is_empty());
}

#[test]
fn identifier_is_the_digest_of_reference_and_timestamp() {
    let mut trail = initialized_trail("admin-identity");
    let admin = s("admin-identity");
    let emitter = s("emitter-identity");
    trail.authorize_emitter(&admin, emitter.clone()).unwrap();

    // SHA-256 of 32 zero bytes followed by the big-endian encoding of 0.
    let expected: Vec<u8> = vec![
        44, 52, 206, 29, 242, 59, 131, 140, 90, 191, 42, 127, 100, 55, 204, 163, 211, 6, 126,
        213, 9, 255, 37, 241, 29, 246, 177, 27, 88, 43, 81, 235,
    ];
    let id = trail
        .record_event(
            emitter,
            s("TOKEN_MINTED"),
            s("project-123"),
            None,
            s("{}"),
            vec![0u8; 32],
            0,
        )
        .unwrap();
    assert_eq!(id, expected);
}

#[test]
fn record_keeps_secondary_entity_and_payload() {
    let mut trail = initialized_trail("admin-identity");
    let admin = s("admin-identity");
    let emitter = s("emitter-identity");
    trail.authorize_emitter(&admin, emitter.clone()).unwrap();

    let id = trail
        .record_event_auth(
            emitter.clone(),
            s("TOKEN_TRANSFERRED"),
            s("project-123"),
            Some(s("project-456")),
            s("{\"amount\": 7}"),
            vec![3u8; 32],
            500,
        )
        .unwrap();

    let stored = trail.get_event(&id).unwrap();
    assert_eq!(stored.secondary_entity_id, Some(s("project-456")));
    assert_eq!(stored.event_data, s("{\"amount\": 7}"));
    assert_eq!(stored.emitting_contract, emitter);
    assert_eq!(stored.timestamp, 500);
    assert_eq!(stored.tx_hash, vec![3u8; 32]);
}

#[test]
fn missing_event_is_absent_not_an_error() {
    let trail = initialized_trail("admin-identity");
    assert!(trail.get_event(&vec![0u8; 32]).is_none());
    assert!(trail.get_events_by_entity(&s("nobody")).is_empty());
    assert!(trail.get_events_by_contract(&s("nobody")).is_empty());
}
