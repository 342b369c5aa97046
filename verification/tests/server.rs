use astroburst_server::fits::file_bytes::IoMode;
use astroburst_server::server::activity::ActivityLog;
use astroburst_server::server::cli::{command, usage, Command};
use astroburst_server::server::config::{env_or, ServerConfig, ServerVars};
use astroburst_server::server::error::AppError;
use astroburst_server::server::jobs::{Job, Jobs};
use astroburst_server::server::order::{order, text_at_most, Key};
use astroburst_server::server::session::{ImageMeta, Session, V2SessionState};
use astroburst_server::server::sessions::{not_found, SessionManager};
use astroburst_server::server::state::{created_reply, health, request_id, AppState};

const SECOND: u64 = 1_000_000_000;

fn meta(image_ref: &str, source: Option<&str>) -> ImageMeta {
    ImageMeta {
        image_ref: image_ref.into(),
        source: source.map(|s| s.to_string()),
        hdu: None,
        width: 4,
        height: 3,
        wcs_present: false,
        extname: None,
    }
}

#[test]
fn ttl_skips_session_with_running_job() {
    let mut session = Session::new("sid-ttl".into(), 0, 0);
    assert!(!session.has_active_jobs(), "fresh session: no active jobs");

    session.jobs.insert(Job { id: "bg-work".into(), running: true });
    assert!(session.has_active_jobs(), "running job: session is active");
    assert!(!session.is_expired(10_000 * SECOND, 900));

    assert!(session.jobs.set_done("bg-work"));
    assert!(!session.has_active_jobs(), "done job: session no longer active");
    assert!(session.is_expired(10_000 * SECOND, 900));
}

#[test]
fn config_env_var_parsed_and_invalid_falls_back() {
    let d = ServerConfig::default();
    assert_eq!(d.session_max, 8);
    assert_eq!(d.jobs_max, 4);
    assert_eq!(d.cache_max_entries, 32);
    assert_eq!(d.cache_max_bytes, 2 * 1024 * 1024 * 1024);
    assert_eq!(d.session_ttl, 900);
    assert_eq!(d.cleanup_interval, 60);
    assert_eq!(d.log_level, "info");
    assert_eq!(d.bind, "127.0.0.1:8097");
}

#[test]
fn unreadable_variables_are_named() {
    let vars = ServerVars {
        bind: Some(("0.0.0.0:1".into(), true)),
        session_ttl: Some("10".into()),
        session_max: Some("many".into()),
        jobs_max: None,
        cache_max_entries: Some("-1".into()),
        cache_max_bytes: Some("18446744073709551616".into()),
        cleanup_interval: None,
        log_level: Some("debug".into()),
    };
    let (c, names) = ServerConfig::from_vars(&vars);
    assert_eq!(c.bind, "0.0.0.0:1");
    assert_eq!(c.session_ttl, 10);
    assert_eq!(c.session_max, 8);
    assert_eq!(c.cache_max_entries, 32);
    assert_eq!(c.cache_max_bytes, 2147483648);
    assert_eq!(c.log_level, "debug");
    assert_eq!(
        names,
        vec!["ASTROBURST_SESSION_MAX", "ASTROBURST_CACHE_MAX_ENTRIES", "ASTROBURST_CACHE_MAX_BYTES"]
    );
    assert_eq!(env_or(&Some("7".into()), 10, 3), 7);
    assert_eq!(env_or(&Some("11".into()), 10, 3), 3);
    assert_eq!(env_or(&None, 10, 3), 3);
}

#[test]
fn the_first_argument_is_a_command() {
    assert!(matches!(command(None), Command::Serve));
    assert!(matches!(command(Some("connect")), Command::Connect));
    assert!(matches!(command(Some("tui")), Command::Tui));
    assert!(matches!(command(Some("--help")), Command::Help));
    assert!(matches!(command(Some("-V")), Command::Version));
    match command(Some("--port")) {
        Command::Unknown(m) => assert_eq!(m, "astroburst-server: unknown flag '--port'\n"),
        other => panic!("{other:?}"),
    }
    match command(Some("serve")) {
        Command::Unknown(m) => assert_eq!(m, "astroburst-server: unknown command 'serve'\n"),
        other => panic!("{other:?}"),
    }
    let want = "\
astroburst-server 0.2.1

USAGE:
    astroburst-server                 Start the HTTP server (config via env vars)
    astroburst-server connect <target>  Open an SSH tunnel to a remote server
    astroburst-server tui [URL]         Run the live dashboard against a server
    astroburst-server --help            Print this help
    astroburst-server --version         Print the version

The server takes no flags; it is configured through environment variables:

    ASTROBURST_BIND             TCP address to listen on   [default: 127.0.0.1:8097]
    ASTROBURST_SESSION_TTL      idle seconds before evict  [default: 900]
    ASTROBURST_SESSION_MAX      max concurrent sessions    [default: 8]
    ASTROBURST_JOBS_MAX         max concurrent CPU jobs    [default: 4]
    ASTROBURST_CACHE_MAX_ENTRIES per-session LRU slots     [default: 32]
    ASTROBURST_CACHE_MAX_BYTES  per-session LRU byte cap   [default: 2147483648]
    ASTROBURST_CLEANUP_INTERVAL TTL sweep interval (secs)  [default: 60]
    ASTROBURST_LOG_LEVEL        log level (RUST_LOG wins)   [default: info]
";
    assert_eq!(usage("0.2.1", &ServerConfig::default()), want);
}

#[test]
fn errors_have_replies() {
    let reply = |e: AppError| {
        let r = e.reply();
        (r.status, r.code, r.message, r.hint)
    };
    let text = |s: &str| s.to_string();
    assert_eq!(
        reply(AppError::NotFound(text("x"))),
        (404, text("not_found"), text("x"), None)
    );
    assert_eq!(reply(AppError::Conflict(text("x"))), (409, text("conflict"), text("x"), None));
    assert_eq!(
        reply(AppError::TooManyRequests),
        (429, text("too_many_requests"), text("job queue full (max 4 concurrent)"), None)
    );
    assert_eq!(reply(AppError::BadRequest(text("x"))), (400, text("bad_request"), text("x"), None));
    assert_eq!(
        reply(AppError::BadRequestWithHint {
            code: "c",
            message: text("m"),
            hint: Some(text("h"))
        }),
        (400, text("c"), text("m"), Some(text("h")))
    );
    assert_eq!(
        reply(AppError::ServiceUnavailable(text("x"))),
        (503, text("service_unavailable"), text("x"), None)
    );
    assert_eq!(
        reply(AppError::Internal(text("x"))),
        (500, text("internal_error"), text("x"), None)
    );
}

#[test]
fn keys_are_ordered_by_rank_and_name() {
    let key = |rank: u64, name: &str| Key { rank, name: name.into() };
    assert_eq!(
        order(&vec![key(1, "b"), key(1, "a"), key(0, "z"), key(1, "a")]),
        vec![2, 1, 3, 0]
    );
    assert!(order(&vec![]).is_empty());
    assert!(text_at_most("", "a"));
    assert!(text_at_most("a", "ab"));
    assert!(!text_at_most("é", "z"));
    // The order of characters is that of their bytes in UTF-8.
    for (a, b) in [("\u{ffff}", "\u{10000}"), ("é", "z"), ("Z", "a")] {
        assert_eq!(text_at_most(a, b), a <= b);
        assert_eq!(text_at_most(b, a), b <= a);
    }
}

#[test]
fn images_of_a_session() {
    let mut v2 = V2SessionState::new();
    assert_eq!(v2.image_count(), 0);
    assert!(v2.active_ref().is_none());
    assert!(matches!(
        v2.target_ref(None),
        Err(AppError::BadRequest(m)) if m == "no active image in this session; open a file first"
    ));
    assert!(matches!(
        v2.hdu_source(),
        Err(AppError::BadRequest(m)) if m == "no active image in this session; open a file first"
    ));
    let name = v2.ref_for_open(None, "/a.fits", None).unwrap();
    assert_eq!(name, "img_0");
    v2.open(meta(&name, Some("/a.fits"))).unwrap();
    assert_eq!(v2.active_ref().as_deref(), Some("img_0"));
    assert_eq!(v2.hdu_source().unwrap(), "/a.fits");
    assert_eq!(v2.target_ref(Some("other".into())).unwrap(), "other");
    assert_eq!(v2.target_ref(None).unwrap(), "img_0");
    assert_eq!(v2.ref_for_open(Some("mine".into()), "/b.fits", None).unwrap(), "mine");
    assert_eq!(v2.next_ref("cut"), "cut_1");
    assert!(v2.register(meta("cut_1", None)));
    assert_eq!(v2.image_count(), 2);
    assert_eq!(v2.active_ref().as_deref(), Some("img_0"));
    v2.open(meta("bare", None)).unwrap();
    assert_eq!(v2.image_count(), 3);
    assert!(matches!(
        v2.hdu_source(),
        Err(AppError::BadRequest(m)) if m == "active ref bare has no source file to re-open"
    ));
    assert_eq!(v2.get("img_0").unwrap().source.as_deref(), Some("/a.fits"));
    assert!(v2.get("none").is_none());
}

#[test]
fn a_name_of_another_file_is_refused() {
    let mut v2 = V2SessionState::new();
    v2.open(meta("img_0", Some("/a.fits"))).unwrap();
    v2.open(meta("img_2", Some("/c.fits"))).unwrap();
    assert!(matches!(
        v2.ref_for_open(Some("img_0".into()), "/b.fits", None),
        Err(AppError::Conflict(m)) if m == "image ref img_0 already exists in session"
    ));
    // Another unit of the file is another image.
    assert!(v2.ref_for_open(Some("img_0".into()), "/a.fits", Some(1)).is_err());
    assert!(matches!(v2.open(meta("img_0", Some("/b.fits"))), Err(AppError::Conflict(_))));
    assert!(matches!(v2.open(meta("img_0", None)), Err(AppError::Conflict(_))));
    assert!(!v2.register(meta("img_0", Some("/b.fits"))));
    // Nothing has changed.
    assert_eq!(v2.image_count(), 2);
    assert_eq!(v2.active_ref().as_deref(), Some("img_2"));
    assert_eq!(v2.get("img_0").unwrap().source.as_deref(), Some("/a.fits"));
    // A name that is made up passes over those in use.
    assert_eq!(v2.ref_for_open(None, "/d.fits", None).unwrap(), "img_1");
    assert_eq!(v2.ref_for_open(None, "/d.fits", None).unwrap(), "img_3");
}

#[test]
fn a_file_is_opened_again_under_its_name() {
    let mut v2 = V2SessionState::new();
    v2.open(meta("img_0", Some("/a.fits"))).unwrap();
    v2.open(meta("img_1", Some("/b.fits"))).unwrap();
    let hdu = v2.get("img_0").unwrap().hdu;
    assert_eq!(v2.ref_for_open(Some("img_0".into()), "/a.fits", hdu).unwrap(), "img_0");
    let mut again = meta("img_0", Some("/a.fits"));
    again.width += 5;
    let width = v2.get("img_0").unwrap().width;
    v2.open(again).unwrap();
    // The image is in use again, and as it was.
    assert_eq!(v2.active_ref().as_deref(), Some("img_0"));
    assert_eq!(v2.image_count(), 2);
    assert_eq!(v2.get("img_0").unwrap().width, width);
}

#[test]
fn the_health_is_told() {
    let mut state = AppState::new(&ServerConfig::default());
    state.create_session(1, 0);
    let gone = state.create_session(1, 0).unwrap();
    state.sessions.take(&gone);
    let h = health(&state, "0.2.1", IoMode::Mmap);
    assert_eq!((h.status, h.version.as_str(), h.io_mode), ("ok", "0.2.1", "mmap"));
    assert_eq!((h.sessions_active, h.sessions_total), (1, 2));
}

#[test]
fn sessions_are_touched() {
    let mut s = Session::new("a".into(), 5, 10 * SECOND);
    assert_eq!(s.idle_secs(12 * SECOND + 1), 2);
    assert_eq!(s.idle_secs(0), 0);
    s.touch(12 * SECOND);
    assert_eq!(s.idle_secs(13 * SECOND), 1);
    assert_eq!(s.running_jobs(), 0);
    // Fresh sessions stay.
    assert!(!s.is_expired(13 * SECOND, 900));
}

#[test]
fn the_cap_on_sessions_holds() {
    let mut m = SessionManager::new(2, 900);
    let a = m.create(1, 0).unwrap();
    let b = m.create(2, 0).unwrap();
    assert_ne!(a, b);
    assert_eq!(a.len(), 36);
    assert!(m.create(3, 0).is_none());
    assert_eq!(m.len(), 2);
    assert_eq!(m.get(&b).unwrap().created_unix, 2);
    let s = m.take(&a).unwrap();
    assert_eq!(s.id, a);
    assert_eq!(m.len(), 1);
    assert!(m.take(&a).is_none());
    m.put(s);
    assert_eq!(m.len(), 2);
}

#[test]
fn requests_find_their_session() {
    let mut m = SessionManager::new(8, 900);
    assert!(m.create_with("sid".into(), 1, 0));
    m.resolve(Some("sid"), 5 * SECOND).unwrap();
    assert_eq!(m.get("sid").unwrap().last_accessed, 5 * SECOND);
    assert!(matches!(
        m.resolve(Some("x"), 6 * SECOND),
        Err(AppError::NotFound(t)) if t == "session x not found"
    ));
    assert!(matches!(
        m.resolve(None, 6 * SECOND),
        Err(AppError::BadRequest(t)) if t == "route missing :sid segment"
    ));
    assert_eq!(not_found("x"), "session x not found");
}

#[test]
fn idle_sessions_go() {
    let mut m = SessionManager::new(8, 900);
    m.create_with("old".into(), 1, 0);
    m.create_with("busy".into(), 2, 0);
    m.create_with("new".into(), 3, 0);
    let mut busy = m.take("busy").unwrap();
    busy.jobs.insert(Job { id: "j".into(), running: true });
    m.put(busy);
    m.resolve(Some("new"), 500 * SECOND).unwrap();
    assert_eq!(m.evict_idle(901 * SECOND), vec!["old".to_string()]);
    assert_eq!(m.len(), 2);
    assert!(m.get("old").is_none());
    assert!(m.evict_idle(901 * SECOND).is_empty());
}

#[test]
fn sessions_are_listed_oldest_first() {
    let mut m = SessionManager::new(8, 900);
    m.create_with("b".into(), 3, 0);
    m.create_with("c".into(), 1, 0);
    m.create_with("a".into(), 3, 0);
    assert_eq!(m.listed_ids()[0], "c");
    assert_eq!(m.listed_ids().len(), 3);
}

#[test]
fn created_sessions_are_counted() {
    let mut config = ServerConfig::default();
    config.session_max = 1;
    let mut state = AppState::new(&config);
    let id = state.create_session(1, 0);
    assert!(id.is_some());
    assert_eq!(state.created_total, 1);
    let (status, text) = created_reply(id.clone()).unwrap();
    assert_eq!((status, Some(text)), (201, id));
    let none = state.create_session(1, 0);
    assert_eq!(state.created_total, 1);
    assert!(matches!(
        created_reply(none),
        Err(AppError::ServiceUnavailable(m)) if m == "session cap reached (max 8)"
    ));
    assert_eq!(state.global_activity.last_seq(), ActivityLog::new().last_seq());
}

#[test]
fn answers_carry_an_id() {
    assert_eq!(request_id(Some("given")), "given");
    let id = request_id(None);
    assert_eq!(id.len(), 36);
    assert_eq!(id.as_bytes()[14], b'4');
    assert_ne!(id, request_id(None));
}

#[test]
fn jobs_are_kept_by_id() {
    let mut jobs = Jobs::new();
    assert!(!jobs.any_running());
    jobs.insert(Job { id: "a".into(), running: true });
    jobs.insert(Job { id: "b".into(), running: true });
    jobs.insert(Job { id: "a".into(), running: true });
    assert_eq!(jobs.running(), 2);
    assert!(jobs.set_done("a"));
    assert!(!jobs.set_done("c"));
    assert_eq!(jobs.running(), 1);
    assert!(jobs.any_running());
    jobs.set_done("b");
    assert_eq!((jobs.running(), jobs.any_running()), (0, false));
}
