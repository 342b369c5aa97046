use astroburst_server::server::supervise::TunnelEvent;
use astroburst_server::server::tui::app::{
    Action, App, Detail, Health, HistoryEvent, ImageEntry, SessionSummary, Snapshot, Tab,
    TunnelPhase, TunnelState, TUNNEL_LOG_CAP,
};
use astroburst_server::server::tui::client::{
    delete, get_json, host_port, read_answer, read_response, request_text, session_path,
};
use astroburst_server::server::tui::format::{can_shorten, fmt_age, fmt_bytes, short_id};
use astroburst_server::server::tui::poll::{Answer, Poll, Step};
use astroburst_server::server::tui::run::{
    normalize_key, run_standalone, KeyPress, DEFAULT_URL, TUI_USAGE,
};
use astroburst_server::server::tui::ui::{
    basename, confirm_area, confirm_hint, confirm_text, event_window, footer_text, global_table,
    header_pieces, history_table, image_headings, no_sessions_hint, no_tunnel_hint, overview, phase_text, session_lines, sessions_title, tab_bar, tab_title,
    tunnel_badge, tunnel_pane, Area, Look, Piece,
};

fn summary(id: &str) -> SessionSummary {
    SessionSummary {
        session_id: id.into(),
        created_unix: 1,
        idle_secs: 0,
        active_ref: None,
        image_count: 0,
        cache_bytes: 0,
        running_jobs: 0,
        last_seq: 0,
    }
}

fn app_with(ids: &[&str]) -> App {
    let mut app = App::new("http://127.0.0.1:1".into(), None);
    app.apply(Snapshot {
        sessions: ids.iter().map(|i| summary(i)).collect(),
        ..Default::default()
    });
    app
}

fn said(pieces: &[Piece]) -> String {
    pieces.iter().map(|p| p.text.as_str()).collect()
}

#[test]
fn selection_defaults_clamps_and_follows_id() {
    let mut app = app_with(&["a", "b", "c"]);
    assert_eq!(app.selected_sid.as_deref(), Some("a"));

    app.on_key("j");
    app.on_key("j");
    app.on_key("j"); // clamped at the end
    assert_eq!(app.selected_sid.as_deref(), Some("c"));
    app.on_key("k");
    assert_eq!(app.selected_sid.as_deref(), Some("b"));

    // "b" survives a reorder; detail for it is kept.
    app.detail = Some(Detail { session_id: "b".into(), ..Default::default() });
    app.apply(Snapshot {
        sessions: vec![summary("c"), summary("b"), summary("a")],
        ..Default::default()
    });
    assert_eq!(app.selected_sid.as_deref(), Some("b"));
    assert!(app.detail.is_some());

    // "b" deleted → fall back to first, stale detail dropped.
    app.apply(Snapshot {
        sessions: vec![summary("c"), summary("a")],
        ..Default::default()
    });
    assert_eq!(app.selected_sid.as_deref(), Some("c"));
    assert!(app.detail.is_none());
}

#[test]
fn mismatched_detail_from_racing_poll_is_ignored() {
    let mut app = app_with(&["a", "b"]);
    app.apply(Snapshot {
        sessions: vec![summary("a"), summary("b")],
        detail: Some(Detail { session_id: "b".into(), ..Default::default() }),
        ..Default::default()
    });
    assert!(app.detail.is_none(), "detail for unselected session adopted");
}

#[test]
fn tab_cycling_respects_tunnel_presence() {
    let mut app = app_with(&["a"]);
    app.on_key("tab");
    assert_eq!(app.tab, Tab::History);
    app.on_key("tab");
    assert_eq!(app.tab, Tab::Overview); // no Tunnel tab without a tunnel

    app.tunnel = Some(TunnelState::new("olaf1".into()));
    app.on_key("backtab");
    assert_eq!(app.tab, Tab::Tunnel);
}

#[test]
fn delete_flow_requires_confirmation() {
    let mut app = app_with(&["a", "b"]);
    assert_eq!(app.on_key("d"), Action::Nothing);
    assert_eq!(app.confirm_delete.as_deref(), Some("a"));
    // Modal swallows navigation.
    assert_eq!(app.on_key("j"), Action::Nothing);
    assert_eq!(app.selected_sid.as_deref(), Some("a"));
    // n cancels; y confirms.
    app.on_key("n");
    assert!(app.confirm_delete.is_none());
    app.on_key("d");
    assert_eq!(app.on_key("y"), Action::DeleteSession("a".into()));
    assert!(app.confirm_delete.is_none());
}

#[test]
fn quit_and_refresh_keys() {
    let mut app = app_with(&["a"]);
    assert_eq!(app.on_key("r"), Action::Refresh);
    assert!(!app.should_quit);
    app.on_key("q");
    assert!(app.should_quit);
}

#[test]
fn tunnel_events_update_phase_and_counters() {
    let mut app = App::new("http://x:1".into(), Some(TunnelState::new("olaf1".into())));
    app.apply_tunnel(TunnelEvent::Up { health: "{}".into(), reestablished: false });
    assert_eq!(app.tunnel.as_ref().unwrap().phase, TunnelPhase::Up);
    app.apply_tunnel(TunnelEvent::Retrying {
        backoff: 1,
        reason: "tunnel dropped (signal: 9)".into(),
    });
    assert!(matches!(
        app.tunnel.as_ref().unwrap().phase,
        TunnelPhase::Reconnecting { .. }
    ));
    app.apply_tunnel(TunnelEvent::Up { health: "{}".into(), reestablished: true });
    let t = app.tunnel.as_ref().unwrap();
    assert_eq!(t.phase, TunnelPhase::Up);
    assert_eq!(t.reconnects, 1);
    assert!(t.log.iter().any(|l| l.contains("re-established")));
}

#[test]
fn formatting_helpers() {
    assert_eq!(fmt_age(45), "45s");
    assert_eq!(fmt_age(180), "3m");
    assert_eq!(fmt_age(7200), "2h");
    assert_eq!(fmt_age(200_000), "2d");
    assert_eq!(fmt_bytes(512), "512B");
    assert_eq!(fmt_bytes(10 * 1024 * 1024), "10MiB");
    assert_eq!(short_id("063c3f73-9105-47e3"), "063c3f73…");
}

#[test]
fn standalone_args_default_and_explicit_url() {
    assert!(run_standalone(&["--bogus".into()]).is_err());
    assert!(run_standalone(&["--help".into()]).is_err());
    let err = run_standalone(&["ssh://olaf1".into()]).unwrap_err();
    assert!(err.contains("connect ssh://olaf1 --tui"), "{err}");
    assert_eq!(run_standalone(&[]).unwrap(), DEFAULT_URL);
    assert_eq!(run_standalone(&["http://h:1".into()]).unwrap(), "http://h:1");
    assert_eq!(run_standalone(&["--help".into()]).unwrap_err(), TUI_USAGE);
}

#[test]
fn key_normalization() {
    assert_eq!(normalize_key(KeyPress::Char('J'), false), "j");
    assert_eq!(normalize_key(KeyPress::Char('c'), true), "ctrl-c");
    assert_eq!(normalize_key(KeyPress::BackTab, false), "backtab");
    assert_eq!(normalize_key(KeyPress::Other, false), "");
    assert_eq!(normalize_key(KeyPress::Char('\u{130}'), false), "i\u{307}");
}

#[test]
fn poll_against_dead_server_reports_error_not_panic() {
    let mut poll = Poll::new(None);
    assert_eq!(poll.next_path().as_deref(), Some("/health"));
    poll.on_health(Answer::Failed("connection refused".into()));
    assert!(poll.next_path().is_none());
    let snap = poll.snapshot;
    assert!(snap.error.as_deref().unwrap_or("").contains("unreachable"));
    assert!(snap.sessions.is_empty());
}

#[test]
fn a_round_of_polling_collects_everything() {
    let mut poll = Poll::new(Some("b".into()));
    poll.on_health(Answer::Health {
        health: Some(Health { version: "0.2.0".into(), io_mode: "auto".into() }),
        latency: 3,
    });
    assert_eq!(poll.next_path().as_deref(), Some("/v2/sessions"));
    poll.on_sessions(Answer::Sessions(vec![summary("a"), summary("b")]));
    assert_eq!(poll.next_path().as_deref(), Some("/v2/sessions/b/images"));
    poll.on_images(Answer::Failed("GET → 500".into()));
    assert_eq!(poll.next_path().as_deref(), Some("/v2/sessions/b/history"));
    poll.on_history(Answer::History(vec![]));
    assert_eq!(poll.step, Step::Done);
    assert!(poll.next_path().is_none());
    assert_eq!(poll.snapshot.latency, Some(3));
    let detail = poll.snapshot.detail.unwrap();
    assert_eq!(detail.session_id, "b");
    assert!(detail.images.is_empty());
}

#[test]
fn a_round_ends_where_nothing_is_selected() {
    let mut poll = Poll::new(Some("gone".into()));
    poll.on_health(Answer::Health { health: None, latency: 3 });
    poll.on_sessions(Answer::Sessions(vec![summary("a")]));
    assert_eq!(poll.step, Step::Done);
    assert!(poll.snapshot.detail.is_none());
    let mut poll = Poll::new(None);
    poll.on_health(Answer::Health { health: None, latency: 3 });
    poll.on_sessions(Answer::Failed("GET /v2/sessions → 500".into()));
    assert_eq!(poll.snapshot.error.as_deref(), Some("list failed: GET /v2/sessions → 500"));
}

#[test]
fn get_json_parses_body_and_status() {
    let reply = read_response(
        "HTTP/1.0 200 OK\r\ncontent-type: application/json\r\n\r\n{\"count\":2}",
        "h:1",
    )
    .unwrap();
    let body = get_json("/v2/sessions", reply).unwrap();
    let json: serde_json::Value = serde_json::from_str(&body).unwrap();
    assert_eq!(json["count"], 2);
}

#[test]
fn non_2xx_is_an_error_with_status() {
    let reply =
        read_response("HTTP/1.0 404 Not Found\r\n\r\n{\"error\":\"nope\"}", "h:1").unwrap();
    let err = get_json("/v2/sessions/x/history", reply).unwrap_err();
    assert!(err.contains("404"), "{err}");
}

#[test]
fn delete_accepts_204_empty_body() {
    let reply = read_response("HTTP/1.1 204 No Content\r\n\r\n", "h:1").unwrap();
    delete("/v2/sessions/x", &reply).unwrap();
    let reply = read_response("HTTP/1.1 404 Not Found\r\n\r\n", "h:1").unwrap();
    assert_eq!(delete("/v2/sessions/x", &reply).unwrap_err(), "DELETE /v2/sessions/x → 404");
}

#[test]
fn rejects_non_http_urls() {
    assert!(host_port("https://example.com").is_err());
    assert!(host_port("http://").is_err());
}

#[test]
fn requests_and_answers() {
    assert_eq!(host_port("http://127.0.0.1:8097/").unwrap(), "127.0.0.1:8097");
    assert_eq!(host_port("http://example.com").unwrap(), "example.com");
    assert_eq!(
        request_text("GET", "/health", "h:1"),
        "GET /health HTTP/1.0\r\nHost: h:1\r\nConnection: close\r\n\r\n"
    );
    assert_eq!(read_response("nonsense", "h:1").unwrap_err(), "malformed HTTP response from h:1");
    assert_eq!(
        read_response("HTTP/1.0 what\r\n\r\n", "h:1").unwrap_err(),
        "unparseable status line from h:1"
    );
}

#[test]
fn sizes_are_given_in_units() {
    assert_eq!(fmt_bytes(0), "0B");
    assert_eq!(fmt_bytes(1023), "1023B");
    assert_eq!(fmt_bytes(1024), "1KiB");
    assert_eq!(fmt_bytes(1536), "1KiB");
    assert_eq!(fmt_bytes(2560), "2KiB");
    assert_eq!(fmt_bytes(1024 * 1024 - 1), "1023KiB");
    assert_eq!(fmt_bytes(5 * 1024 * 1024 * 1024), "5.0GiB");
    // Ties go to the even digit.
    assert_eq!(fmt_bytes(1024 * 1024 * 1024 * 5 / 4), "1.2GiB");
    assert_eq!(fmt_bytes(1024 * 1024 * 1024 * 7 / 4), "1.8GiB");
    for n in [1_073_741_824u64, 1_181_116_006, 1_181_116_007, 9_999_999_999_999_999_999] {
        assert_eq!(fmt_bytes(n), format!("{:.1}GiB", n as f64 / (1024.0 * 1024.0 * 1024.0)));
    }
    assert_eq!(fmt_bytes(u64::MAX), "17179869184.0GiB");
}

#[test]
fn ids_are_cut_between_characters() {
    assert_eq!(short_id("short"), "short");
    assert_eq!(short_id("12345678"), "12345678");
    assert!(can_shorten("063c3f73-9105"));
    assert!(!can_shorten("1234567éé"));
}

#[test]
fn the_tunnel_log_is_bounded() {
    let mut t = TunnelState::new("olaf1".into());
    for i in 0..(TUNNEL_LOG_CAP + 5) {
        t.push_log(format!("line {i}"));
    }
    assert_eq!(t.log.len(), TUNNEL_LOG_CAP);
    assert_eq!(t.log[0], "line 5");
}

fn populated_app() -> App {
    let mut app = App::new("http://127.0.0.1:8097".into(), None);
    app.apply(Snapshot {
        health: Some(Health { version: "0.2.0".into(), io_mode: "auto".into() }),
        latency: Some(3),
        sessions: vec![SessionSummary {
            session_id: "063c3f73-9105-47e3".into(),
            created_unix: 1,
            idle_secs: 42,
            active_ref: Some("img_0".into()),
            image_count: 1,
            cache_bytes: 10 * 1024 * 1024,
            running_jobs: 0,
            last_seq: 2,
        }],
        detail: Some(Detail {
            session_id: "063c3f73-9105-47e3".into(),
            images: vec![ImageEntry {
                image_ref: "img_0".into(),
                width: 1600,
                height: 1600,
                hdu: Some(0),
                extname: None,
                source: Some("/data/656nmos.fits".into()),
            }],
            history: vec![HistoryEvent {
                seq: 1,
                unix_ms: 1,
                method: "POST".into(),
                endpoint: "open".into(),
                image_ref: Some("img_0".into()),
                status: 200,
                duration_ms: 249,
            }],
        }),
        global_activity: vec![HistoryEvent {
            seq: 1,
            unix_ms: 1,
            method: "GET".into(),
            endpoint: "/v2/fs/raw".into(),
            image_ref: Some("path=/data/656nmos.fits&compress=lossless".into()),
            status: 200,
            duration_ms: 612,
        }],
        error: None,
    });
    app
}

#[test]
fn overview_renders_session_and_images() {
    let app = populated_app();
    let lines = session_lines(&app);
    assert!(said(&lines[0]).contains("063c3f73…"));
    assert!(said(&lines[0]).contains("idle 42s"));
    assert!(sessions_title(&app).contains("Sessions (1)"));
    let header = said(&header_pieces(&app));
    assert!(header.contains("v0.2.0"));
    assert!(header.contains("io:auto"));
    let o = overview(&app, 61).unwrap();
    assert_eq!(o.images, vec![vec!["img_0", "1600×1600", "0", "—", "656nmos.fits"]]);
    assert_eq!(o.status[0], "session   063c3f73-9105-47e3");
    assert_eq!(o.status[1], "created   1m ago     idle 42s");
    assert_eq!(o.status[2], "images    1     cache 10MiB     running jobs 0");
    assert_eq!(o.status[3], "active    img_0");
}

#[test]
fn history_tab_renders_events() {
    let app = populated_app();
    let t = history_table(&app, 20, 100);
    assert_eq!(t.rows.len(), 1);
    let row: Vec<&str> = t.rows[0].iter().map(|p| p.text.as_str()).collect();
    assert_eq!(row, vec!["    1", "  1m ago", "POST  ", "open", "img_0", "200", "249ms"]);
    assert_eq!(t.rows[0][5].look, Look::Green);
    assert!(t.title.contains("History (1 events)"));
}

#[test]
fn global_tab_renders_fs_activity() {
    let app = populated_app();
    let t = global_table(&app, 20, 100);
    assert!(t.title.contains("Global activity (1 events)"));
    assert!(said(&t.rows[0]).contains("/v2/fs/raw"));
    assert!(said(&t.rows[0]).contains("612ms"));
    assert!(t.headings.contains(&"query"), "query column header missing");
}

#[test]
fn tunnel_tab_and_badge_render() {
    let mut app = populated_app();
    app.tunnel = Some(TunnelState::new("olaf1".into()));
    app.apply_tunnel(TunnelEvent::Up { health: "{}".into(), reestablished: false });
    app.tab = Tab::Tunnel;
    let header = said(&header_pieces(&app));
    assert!(header.contains("tunnel: up"), "{header}");
    let pane = tunnel_pane(app.tunnel.as_ref().unwrap(), 10);
    assert_eq!(pane.destination, "destination  olaf1");
    assert_eq!(said(&pane.state), "state        up");
    assert_eq!(pane.reconnects, "reconnects   0");
    assert_eq!(tab_bar(&app), (vec!["Overview", "History", "Tunnel"], 2));
}

#[test]
fn confirm_modal_renders_over_content() {
    let mut app = populated_app();
    app.on_key("d");
    let sid = app.confirm_delete.clone().unwrap();
    assert_eq!(confirm_text(&sid), "Delete session 063c3f73…?");
    assert!(confirm_hint().contains("y = delete"));
    assert_eq!(footer_text(&app), " y confirm delete · n cancel");
    assert_eq!(
        confirm_area(Area { x: 0, y: 0, width: 100, height: 24 }),
        Area { x: 20, y: 9, width: 60, height: 5 }
    );
    assert_eq!(
        confirm_area(Area { x: 0, y: 0, width: 10, height: 3 }),
        Area { x: 2, y: 0, width: 6, height: 3 }
    );
}

#[test]
fn empty_server_renders_hint() {
    let app = App::new("http://127.0.0.1:8097".into(), None);
    assert!(overview(&app, 0).is_none());
    assert!(no_sessions_hint().contains("no sessions"));
    assert!(session_lines(&app).is_empty());
    assert!(footer_text(&app).contains("q quit"));
}

#[test]
fn fixed_texts_of_the_screen() {
    let app = populated_app();
    assert_eq!(no_sessions_hint(), "no sessions — POST /v2/sessions to create one");
    assert_eq!(no_tunnel_hint(), "no tunnel (direct connection)");
    assert_eq!(confirm_hint(), "y = delete    n = cancel");
    assert_eq!(image_headings(), vec!["ref", "dims", "hdu", "extname", "source"]);
    assert_eq!(
        history_table(&app, 20, 100).headings,
        vec!["seq", "when", "meth", "endpoint", "ref", "st", "took"]
    );
    assert_eq!(
        global_table(&app, 20, 100).headings,
        vec!["seq", "when", "meth", "endpoint", "query", "st", "took"]
    );
}

#[test]
fn windows_follow_the_newest_events() {
    assert_eq!(event_window(100, 0, 13), (90, 100));
    assert_eq!(event_window(100, 5, 13), (85, 95));
    assert_eq!(event_window(3, 10, 13), (0, 0));
    assert_eq!(event_window(3, 0, 2), (3, 3));
    let mut app = populated_app();
    app.history_scroll = 2;
    let t = history_table(&app, 20, 100);
    assert!(t.rows.is_empty());
    assert!(t.title.contains("(1 events, ↑2)"));
}

#[test]
fn names_and_phases() {
    assert_eq!(basename("/data/x.fits"), "x.fits");
    assert_eq!(basename("x.fits"), "x.fits");
    assert_eq!(tab_title(Tab::Global), "Global");
    let p = phase_text(&TunnelPhase::Reconnecting { backoff: 4 });
    assert_eq!((p.text.as_str(), p.look), ("reconnecting (next attempt in 4s)", Look::Yellow));
    let p = phase_text(&TunnelPhase::Fatal("why".into()));
    assert_eq!((p.text.as_str(), p.look), ("FAILED: why", Look::Red));
    let mut t = TunnelState::new("h".into());
    t.phase = TunnelPhase::Reconnecting { backoff: 2 };
    assert_eq!(tunnel_badge(&t).text, "· tunnel: reconnecting (2s) ");
}

#[test]
fn tunnels_can_fail() {
    let mut app = App::new("http://x:1".into(), Some(TunnelState::new("olaf1".into())));
    app.apply_tunnel(TunnelEvent::Fatal { reason: "no route".into() });
    assert_eq!(app.tunnel.as_ref().unwrap().phase, TunnelPhase::Fatal("no route".into()));
    app.apply_tunnel(TunnelEvent::SshLine("hello".into()));
    assert!(app.tunnel.as_ref().unwrap().log.iter().any(|l| l.contains("hello")));
}

#[test]
fn answers_to_requests_are_read_from_bytes() {
    let reply = read_answer(b"HTTP/1.1 200 OK\r\n\r\n {\xff} ", "h:1").unwrap();
    assert_eq!((reply.status, reply.body.as_str()), (200, "{\u{fffd}}"));
    assert!(read_answer(b"", "h:1").is_err());
}

#[test]
fn failed_deletions_are_shown() {
    let mut app = app_with(&["a"]);
    assert_eq!(session_path("a"), "/v2/sessions/a");
    app.delete_failed("DELETE /v2/sessions/a → 500");
    assert_eq!(app.error.as_deref(), Some("delete failed: DELETE /v2/sessions/a → 500"));
    assert_eq!(app.selected_sid.as_deref(), Some("a"));
}
