use astroburst_server::server::activity::{
    content_length, event_ref, global_endpoint, is_excluded, pick_ref, record_global_request,
    record_session_request, record_target, ref_from_body, sniffs_body, split_session_path,
    truncate_query, ActivityEvent, ActivityLog, Recorded, Timing, ACTIVITY_CAPACITY,
    MAX_SNIFF_BODY_BYTES,
};

fn event(endpoint: &str) -> ActivityEvent {
    ActivityEvent {
        seq: 0,
        unix_ms: 0,
        method: "POST".into(),
        endpoint: endpoint.into(),
        image_ref: None,
        status: 200,
        duration_ms: 1,
    }
}

#[test]
fn ring_caps_at_capacity_and_keeps_seq_monotonic() {
    let mut log = ActivityLog::new();
    for i in 0..(ACTIVITY_CAPACITY + 50) {
        log.record(event(&format!("e{i}")));
    }
    let (events, first_seq, last_seq) = log.events_since(0, usize::MAX);
    assert_eq!(events.len(), ACTIVITY_CAPACITY);
    assert_eq!(last_seq, (ACTIVITY_CAPACITY + 50) as u64);
    assert_eq!(first_seq, 51);
    assert_eq!(events.first().unwrap().seq, 51);
    assert_eq!(events.last().unwrap().seq, last_seq);
}

#[test]
fn events_since_filters_and_limits() {
    let mut log = ActivityLog::new();
    for i in 0..10 {
        log.record(event(&format!("e{i}")));
    }
    let (events, _, last) = log.events_since(7, usize::MAX);
    assert_eq!(last, 10);
    assert_eq!(
        events.iter().map(|e| e.seq).collect::<Vec<_>>(),
        vec![8, 9, 10]
    );
    // Newest `limit` events win.
    let (events, _, _) = log.events_since(0, 2);
    assert_eq!(
        events.iter().map(|e| e.seq).collect::<Vec<_>>(),
        vec![9, 10]
    );
}

#[test]
fn path_split_and_exclusions() {
    assert_eq!(
        split_session_path("/v2/sessions/abc/wcs/pix2sky"),
        Some(("abc", "wcs/pix2sky"))
    );
    assert_eq!(
        split_session_path("/sessions/abc/fits/open"),
        Some(("abc", "fits/open"))
    );
    assert_eq!(split_session_path("/v2/sessions/abc"), Some(("abc", "")));
    assert_eq!(split_session_path("/health"), None);
    assert_eq!(split_session_path("/v2/sessions"), None);

    assert!(is_excluded("GET", ""));           // status / DELETE :sid
    assert!(is_excluded("GET", "history"));
    assert!(is_excluded("GET", "images"));
    assert!(is_excluded("POST", "keepalive"));
    assert!(is_excluded("GET", "jobs/j1"));
    assert!(is_excluded("GET", "jobs/j1/stream"));
    assert!(!is_excluded("DELETE", "jobs/j1")); // cancel is real work
    assert!(!is_excluded("POST", "open"));
    assert!(!is_excluded("GET", "structure"));  // image inspection is work
}

#[test]
fn ref_extraction_prefers_image_ref() {
    assert_eq!(
        ref_from_body(br#"{"image_ref":"img_3","quantize_level":8}"#),
        Some("img_3".into())
    );
    assert_eq!(
        ref_from_body(br#"{"target_ref":"cut_1"}"#),
        Some("cut_1".into())
    );
    assert_eq!(ref_from_body(br#"{"path":"/x.fits"}"#), None);
    assert_eq!(ref_from_body(b"not json"), None);
}

#[test]
fn global_endpoint_matches_only_fs() {
    assert!(global_endpoint("/v2/fs/raw"));
    assert!(global_endpoint("/v2/fs/list"));
    assert!(global_endpoint("/v2/fs/exists"));
    // Not recorded globally: infra + the dashboard's own polling targets.
    assert!(!global_endpoint("/health"));
    assert!(!global_endpoint("/v2/sessions"));
    assert!(!global_endpoint("/v2/activity"));
    assert!(!global_endpoint("/v2/sessions/abc/open"));
}

#[test]
fn truncate_query_shortens_and_drops_empty() {
    assert_eq!(truncate_query(""), None);
    assert_eq!(
        truncate_query("path=/data/x.fits&compress=lossless"),
        Some("path=/data/x.fits&compress=lossless".to_string())
    );
    let long = "a".repeat(200);
    let got = truncate_query(&long).unwrap();
    assert_eq!(got.chars().count(), 81); // 80 chars + ellipsis
    assert!(got.ends_with('…'));
}

#[test]
fn a_gap_shows() {
    let mut log = ActivityLog::new();
    assert_eq!(log.last_seq(), 0);
    assert_eq!(log.events_since(0, 10).1, 0);
    for i in 0..(ACTIVITY_CAPACITY + 1) {
        log.record(event(&format!("e{i}")));
    }
    // The first event is gone: the reader that saw none of them can tell.
    let (events, first, last) = log.events_since(0, 3);
    assert_eq!((first, last), (2, 201));
    assert_eq!(events.iter().map(|e| e.seq).collect::<Vec<_>>(), vec![199, 200, 201]);
    assert!(log.events_since(201, 3).0.is_empty());
}

#[test]
fn requests_are_recorded_where_they_belong() {
    assert_eq!(
        record_target("POST", "/v2/sessions/abc/open"),
        Recorded::Session { sid: "abc".into(), endpoint: "open".into() }
    );
    assert_eq!(record_target("GET", "/v2/sessions/abc/history"), Recorded::Unrecorded);
    assert_eq!(record_target("GET", "/v2/fs/raw"), Recorded::Global);
    assert_eq!(record_target("GET", "/health"), Recorded::Unrecorded);
}

#[test]
fn short_bodies_are_looked_into() {
    assert!(sniffs_body(Some(MAX_SNIFF_BODY_BYTES)));
    assert!(!sniffs_body(Some(MAX_SNIFF_BODY_BYTES + 1)));
    assert!(!sniffs_body(None));
    assert_eq!(content_length("123"), Some(123));
    assert_eq!(content_length("12x"), None);
}

#[test]
fn the_reference_of_an_event() {
    assert_eq!(pick_ref(Some("a".into()), Some("b".into())), Some("a".to_string()));
    assert_eq!(pick_ref(None, Some("b".into())), Some("b".to_string()));
    assert_eq!(event_ref(Some("a".into()), 200, &Some("c".into())), Some("a".to_string()));
    assert_eq!(event_ref(None, 200, &Some("c".into())), Some("c".to_string()));
    assert_eq!(event_ref(None, 404, &Some("c".into())), None);
}

#[test]
fn requests_become_events() {
    let mut log = ActivityLog::new();
    let timing = Timing { unix_ms: 5, duration_ms: 7, status: 200 };
    record_session_request(&mut log, "POST", "open", None, &Some("img_0".into()), timing);
    record_global_request(&mut log, "GET", "/v2/fs/raw", Some("path=/x"), timing);
    let (events, _, _) = log.events_since(0, 10);
    assert_eq!(events.len(), 2);
    assert_eq!(events[0].seq, 1);
    assert_eq!(events[0].endpoint, "open");
    assert_eq!(events[0].image_ref.as_deref(), Some("img_0"));
    assert_eq!((events[0].unix_ms, events[0].duration_ms, events[0].status), (5, 7, 200));
    assert_eq!(events[1].endpoint, "/v2/fs/raw");
    assert_eq!(events[1].image_ref.as_deref(), Some("path=/x"));
}
