use astroburst_server::server::connect::{
    build_ssh_args, chosen_local_port, extract_health_version, is_channel_refused_noise,
    major_minor, parse_args, parse_target, probe_answer, probe_request, read_probe, shell_quote, start_args,
    start_failure, start_script, versions_compatible, ConnectOptions, HealthWait, ProbeResult, SshTarget,
    BACKOFF_INITIAL, USAGE,
};
use astroburst_server::server::supervise::{
    next_backoff, print_event, start_lines, Decision, Next, Supervisor, TunnelEvent,
};

fn args(words: &[&str]) -> Vec<String> {
    words.iter().map(|s| s.to_string()).collect()
}

fn options(words: &[&str]) -> ConnectOptions {
    parse_args(&args(words)).unwrap()
}

#[test]
fn health_version_is_extracted() {
    let body = r#"{"status":"ok","version":"0.2.1","sessions_active":0}"#;
    assert_eq!(extract_health_version(body).as_deref(), Some("0.2.1"));
    assert_eq!(extract_health_version("not json"), None);
    assert_eq!(extract_health_version(r#"{"status":"ok"}"#), None);
}

#[test]
fn version_compatibility_uses_major_minor() {
    // Patch differences are compatible.
    assert!(versions_compatible("0.2.1", "0.2.9"));
    assert!(versions_compatible("1.4.0", "1.4.7"));
    // Minor / major differences are not.
    assert!(!versions_compatible("0.2.1", "0.3.0"));
    assert!(!versions_compatible("0.2.1", "1.2.1"));
    // Unparseable falls back to exact-string compare.
    assert!(versions_compatible("weird", "weird"));
    assert!(!versions_compatible("0.2.1", "weird"));
}

#[test]
fn channel_refused_noise_is_detected() {
    // ssh's real wording, with and without leading whitespace.
    assert!(is_channel_refused_noise(
        "channel 3: open failed: connect failed: Connection refused"
    ));
    assert!(is_channel_refused_noise(
        "  channel 12: open failed: connect failed: Connection refused"
    ));
    // Genuinely useful lines must NOT be filtered.
    assert!(!is_channel_refused_noise("Permission denied (publickey)."));
    assert!(!is_channel_refused_noise(
        "ssh: connect to host olaf1 port 22: Connection refused"
    ));
    assert!(!is_channel_refused_noise(
        "astroburst-connect: remote binary 'astroburst-server' not found on PATH and is not an executable path"
    ));
}

#[test]
fn parse_target_bare_alias() {
    assert_eq!(
        parse_target("olaf1").unwrap(),
        SshTarget { destination: "olaf1".into(), ssh_port: None }
    );
}

#[test]
fn parse_target_ssh_url_with_user_and_port() {
    assert_eq!(
        parse_target("ssh://jjlee@olaf1.ibs.re.kr:4022").unwrap(),
        SshTarget { destination: "jjlee@olaf1.ibs.re.kr".into(), ssh_port: Some(4022) }
    );
}

#[test]
fn parse_target_ssh_url_without_port() {
    assert_eq!(
        parse_target("ssh://user@host").unwrap(),
        SshTarget { destination: "user@host".into(), ssh_port: None }
    );
}

#[test]
fn parse_target_rejects_garbage() {
    assert!(parse_target("").is_err());
    assert!(parse_target("--json").is_err());
    assert!(parse_target("ssh://").is_err());
}

#[test]
fn build_ssh_args_shape() {
    let t = SshTarget { destination: "user@host".into(), ssh_port: Some(4022) };
    let args = build_ssh_args(&t, 18123, 8080);
    let joined = args.join(" ");
    assert!(joined.contains("-N"));
    assert!(joined.contains("-L 127.0.0.1:18123:127.0.0.1:8080"));
    assert!(joined.contains("ExitOnForwardFailure=yes"));
    assert!(joined.contains("ServerAliveInterval=15"));
    assert!(joined.contains("-p 4022"));
    assert!(joined.ends_with("user@host"));
    // The local bind must be the v4 loopback, never [::1] or a bare port.
    assert!(!joined.contains("::1"));
}

#[test]
fn parse_args_full() {
    let args: Vec<String> = [
        "ssh://u@h:2222", "--remote-port", "9090", "--local-port", "17000",
        "--json", "--no-reconnect", "--max-retries", "5", "--start",
        "--remote-bin", "/opt/ab/astroburst-server",
    ]
    .iter()
    .map(|s| s.to_string())
    .collect();
    let o = parse_args(&args).unwrap();
    assert_eq!(o.target.destination, "u@h");
    assert_eq!(o.target.ssh_port, Some(2222));
    assert_eq!(o.remote_port, 9090);
    assert_eq!(o.local_port, Some(17000));
    assert!(o.json);
    assert!(!o.reconnect);
    assert_eq!(o.max_retries, Some(5));
    assert!(o.start);
    assert_eq!(o.remote_bin, "/opt/ab/astroburst-server");
}

#[test]
fn parse_args_requires_target() {
    assert!(parse_args(&["--json".to_string()]).is_err());
}

#[test]
fn parse_args_tui_flag_and_json_conflict() {
    let o = parse_args(&["host".to_string(), "--tui".to_string()]).unwrap();
    assert!(o.tui);
    assert!(!parse_args(&["host".to_string()]).unwrap().tui);
    let err =
        parse_args(&["host".to_string(), "--tui".to_string(), "--json".to_string()])
            .unwrap_err();
    assert!(err.contains("mutually exclusive"), "{err}");
}

#[test]
fn backoff_doubles_and_caps() {
    let mut b = BACKOFF_INITIAL;
    let seq: Vec<u64> = (0..7)
        .map(|_| {
            let cur = b;
            b = next_backoff(b);
            cur
        })
        .collect();
    assert_eq!(seq, vec![1, 2, 4, 8, 16, 30, 30]);
}

#[test]
fn probe_health_against_mock_server() {
    let body = r#"{"status":"ok","version":"0.2.0"}"#;
    let resp = format!(
        "HTTP/1.1 200 OK\r\ncontent-type: application/json\r\ncontent-length: {}\r\nconnection: close\r\n\r\n{}",
        body.len(),
        body
    );
    match read_probe(&resp) {
        ProbeResult::Healthy(body) => assert!(body.contains("\"status\":\"ok\"")),
        other => panic!("expected Healthy, got {other:?}"),
    }
    // Closed without an answer.
    assert_eq!(read_probe(""), ProbeResult::RemoteNotListening);
}

#[test]
fn probes_ask_for_the_health() {
    assert_eq!(
        probe_request(18123),
        "GET /health HTTP/1.1\r\nHost: 127.0.0.1:18123\r\nConnection: close\r\n\r\n"
    );
    assert_eq!(read_probe("HTTP/1.1 500 Oops\r\n\r\n{}"), ProbeResult::RemoteNotListening);
}

#[test]
fn versions_need_two_numbers() {
    assert_eq!(major_minor("1.22.3"), Some((1, 22)));
    assert_eq!(major_minor("v1.22"), None);
    assert_eq!(major_minor("1"), None);
    // The law of symmetry on two values.
    assert_eq!(versions_compatible("weird", "0.2.1"), versions_compatible("0.2.1", "weird"));
}

#[test]
fn defaults_of_the_options() {
    let o = options(&["host"]);
    assert_eq!(o.remote_port, 8097);
    assert_eq!(o.local_port, None);
    assert_eq!(chosen_local_port(o.local_port), Some(8097));
    assert!(o.reconnect && !o.json && !o.start && !o.tui);
    assert_eq!(o.max_retries, None);
    assert_eq!(o.remote_bin, "astroburst-server");
}

#[test]
fn bad_arguments_are_named() {
    let err = |words: &[&str]| parse_args(&args(words)).unwrap_err();
    assert_eq!(err(&[]), "missing ssh target (try --help)");
    assert_eq!(err(&["--help"]), USAGE);
    assert_eq!(err(&["host", "--remote-port"]), "--remote-port requires a value");
    assert_eq!(err(&["host", "--remote-port", "70000"]), "invalid --remote-port");
    assert_eq!(err(&["host", "--local-port", "-1"]), "invalid --local-port");
    assert_eq!(err(&["host", "--max-retries", "x"]), "invalid --max-retries");
    assert_eq!(err(&["host", "--what"]), "unexpected argument '--what'");
    assert_eq!(err(&["host", "other"]), "unexpected argument 'other'");
    assert!(parse_target("ssh://host:99999").is_err());
}

#[test]
fn no_local_port_means_a_free_one() {
    assert_eq!(chosen_local_port(Some(0)), None);
    assert_eq!(chosen_local_port(Some(17000)), Some(17000));
}

#[test]
fn quoted_texts_read_back() {
    assert_eq!(shell_quote("/opt/ab/server"), "/opt/ab/server");
    assert_eq!(shell_quote("it's"), "'it'\\''s'");
    assert_eq!(shell_quote("a b"), "'a b'");
}

#[test]
fn the_start_script_is_exact() {
    let o = options(&["ssh://u@h:2222", "--start", "--remote-port", "9090", "--remote-bin", "/opt/a b"]);
    let want = r#"bin='/opt/a b'; log="${TMPDIR:-/tmp}/astroburst-server-9090.log"; \
if ! command -v "$bin" >/dev/null 2>&1 && [ ! -x "$bin" ]; then \
  echo "astroburst-connect: remote binary '$bin' not found on PATH and is not an executable path" >&2; \
  echo "astroburst-connect: pass --remote-bin with an absolute path (a non-login ssh shell often omits ~/.cargo/bin, ~/.local/bin)" >&2; \
  exit 127; \
fi; \
nohup env ASTROBURST_BIND=127.0.0.1:9090 "$bin" >"$log" 2>&1 & \
pid=$!; sleep 1; \
if ! kill -0 "$pid" 2>/dev/null; then \
  echo "astroburst-connect: remote server exited immediately (see $log on u@h); last lines:" >&2; \
  tail -n 20 "$log" >&2 2>/dev/null || true; \
  exit 1; \
fi; \
echo "astroburst-connect: remote server started (pid $pid, logging to $log)" >&2"#;
    assert_eq!(start_script(&o), want);
    let a = start_args(&o);
    assert_eq!(&a[..5], &args(&["-o", "BatchMode=yes", "-p", "2222", "u@h"])[..]);
    assert_eq!(a[5], want);
    assert!(start_failure(&o).contains("u@h"));
}

fn reason(d: &Decision) -> String {
    match &d.next {
        Next::Fail { reason } => reason.clone(),
        other => panic!("expected an end, got {other:?}"),
    }
}

#[test]
fn a_tunnel_comes_up_drops_and_comes_back() {
    let o = options(&["host"]);
    let mut st = Supervisor::new();
    st.begin_attempt();
    let healthy = ProbeResult::Healthy(r#"{"version":"0.3.0"}"#.to_string());
    let d = st.on_probe(&o, false, &healthy, "0.2.1");
    assert!(!d.kill);
    assert!(matches!(d.next, Next::AwaitExit));
    assert_eq!(d.events.len(), 2);
    assert!(matches!(d.events[0], TunnelEvent::Up { reestablished: false, .. }));
    match &d.events[1] {
        TunnelEvent::VersionMismatch { local, remote } => {
            assert_eq!((local.as_str(), remote.as_str()), ("0.2.1", "0.3.0"))
        }
        other => panic!("{other:?}"),
    }
    let d = st.on_exit(&o, "signal: 9");
    assert!(matches!(d.next, Next::Retry { backoff: 1 }));
    match &d.events[0] {
        TunnelEvent::Retrying { backoff, reason } => {
            assert_eq!((*backoff, reason.as_str()), (1, "tunnel dropped (signal: 9)"))
        }
        other => panic!("{other:?}"),
    }
    st.begin_attempt();
    // The version is checked once.
    let d = st.on_probe(&o, false, &healthy, "0.2.1");
    assert_eq!(d.events.len(), 1);
    assert!(matches!(d.events[0], TunnelEvent::Up { reestablished: true, .. }));
    assert_eq!(st.backoff, 1);
}

#[test]
fn retries_end_with_the_budget() {
    let o = options(&["host", "--max-retries", "2"]);
    let mut st = Supervisor::new();
    let mut sleeps = Vec::new();
    loop {
        st.begin_attempt();
        let d = st.on_probe(&o, false, &ProbeResult::TunnelNotUp, "0.2.1");
        assert!(d.kill);
        match d.next {
            Next::Retry { backoff } => sleeps.push(backoff),
            Next::Fail { reason } => {
                assert_eq!(
                    reason,
                    "could not establish tunnel to host within 20s (check `ssh host` works non-interactively)"
                );
                break;
            }
            other => panic!("{other:?}"),
        }
    }
    assert_eq!(sleeps, vec![1, 2]);
    let mut st = Supervisor::new();
    st.begin_attempt();
    st.begin_attempt();
    let d = st.on_exit(&o, "exit status: 255");
    assert_eq!(reason(&d), "ssh tunnel exited (exit status: 255); retry budget exhausted");
    let d = st.on_exit(&options(&["host", "--no-reconnect"]), "exit status: 0");
    assert_eq!(reason(&d), "ssh tunnel exited (exit status: 0); reconnect disabled");
    // An end is an event as well.
    assert!(matches!(&d.events[0], TunnelEvent::Fatal { reason } if reason.contains("disabled")));
}

#[test]
fn a_silent_remote_is_started_once() {
    let o = options(&["host", "--start"]);
    let mut st = Supervisor::new();
    st.begin_attempt();
    let d = st.on_probe(&o, false, &ProbeResult::RemoteNotListening, "0.2.1");
    assert!(matches!(d.next, Next::StartRemote));
    assert!(matches!(&d.events[0], TunnelEvent::StartingRemote { dest, .. } if dest == "host"));
    let d = st.on_probe(&o, true, &ProbeResult::RemoteNotListening, "0.2.1");
    assert!(d.kill);
    assert!(reason(&d).contains("8097"));
    let d = st.on_probe(&options(&["host"]), false, &ProbeResult::RemoteNotListening, "0.2.1");
    assert_eq!(
        reason(&d),
        "the SSH tunnel to host is up, but nothing is listening on the remote's 127.0.0.1:8097. \
         The astroburst-server is not running there (or is on a different port). Start it with \
         --start, or if it is already running on another port pass --remote-port N."
    );
    assert_eq!(reason(&st.on_start_failed("no such host")), "no such host");
}

#[test]
fn every_end_is_the_last_event() {
    let st = Supervisor::new();
    for d in [
        st.on_spawn_failed("failed to spawn ssh (is OpenSSH installed?)"),
        st.on_wait_failed("waiting on ssh child failed"),
        st.on_start_failed("no such host"),
    ] {
        let end = reason(&d);
        assert!(matches!(d.events.last(), Some(TunnelEvent::Fatal { reason }) if *reason == end));
    }
    assert_eq!(
        reason(&st.on_spawn_failed("failed to spawn ssh (is OpenSSH installed?)")),
        "failed to spawn ssh (is OpenSSH installed?)"
    );
    assert!(!st.on_spawn_failed("x").kill);
    assert!(!st.on_wait_failed("x").kill);
    assert!(st.on_start_failed("x").kill);
}

#[test]
fn events_are_printed() {
    let up = TunnelEvent::Up { health: "{}".into(), reestablished: false };
    let p = print_event(&up, true, 18123, "host");
    assert!(p.stdout);
    assert_eq!(
        p.lines,
        vec![
            r#"{"url":"http://127.0.0.1:18123","local_port":18123,"target":"host","health":{}}"#
                .to_string()
        ]
    );
    let p = print_event(&up, false, 18123, "host");
    assert!(!p.stdout);
    assert_eq!(p.lines.len(), 2);
    assert_eq!(p.lines[0], "connect: tunnel up -- server URL: http://127.0.0.1:18123");
    let p = print_event(
        &TunnelEvent::Retrying { backoff: 4, reason: "gone".into() },
        false,
        18123,
        "host",
    );
    assert_eq!(p.lines, vec!["connect: gone; reconnecting in 4s".to_string()]);
    assert!(print_event(&TunnelEvent::Fatal { reason: "x".into() }, false, 1, "h").lines.is_empty());
    assert_eq!(
        print_event(&TunnelEvent::SshLine("hello".into()), false, 1, "h").lines,
        vec!["hello".to_string()]
    );
}

#[test]
fn answers_are_read_from_bytes() {
    assert_eq!(probe_answer(b""), ProbeResult::RemoteNotListening);
    assert_eq!(
        probe_answer(b"HTTP/1.0 200 OK\r\n\r\n {\xff} \r\n"),
        ProbeResult::Healthy("{\u{fffd}}".to_string())
    );
}

#[test]
fn waits_end_with_the_last_probe() {
    assert_eq!(HealthWait::new().outcome(), ProbeResult::TunnelNotUp);
    let mut w = HealthWait::new();
    assert!(!w.on_probe(ProbeResult::RemoteNotListening));
    assert!(!w.on_probe(ProbeResult::TunnelNotUp));
    assert!(w.on_probe(ProbeResult::Healthy("{}".into())));
    assert_eq!(w.outcome(), ProbeResult::Healthy("{}".into()));
    let mut w = HealthWait::new();
    w.on_probe(ProbeResult::RemoteNotListening);
    assert_eq!(w.outcome(), ProbeResult::RemoteNotListening);
}

#[test]
fn what_the_start_prints_is_forwarded() {
    let lines: Vec<String> = start_lines(b"one\r\ntwo\n\nlast \xff\r")
        .into_iter()
        .map(|e| match e {
            TunnelEvent::SshLine(line) => line,
            other => panic!("{other:?}"),
        })
        .collect();
    assert_eq!(lines, vec!["one", "two", "", "last \u{fffd}\r"]);
    assert!(start_lines(b"").is_empty());
}

#[test]
fn json_and_the_dashboard_exclude_each_other() {
    for words in [["host", "--json"], ["host", "--tui"]] {
        let o = options(&words);
        assert!(!(o.json && o.tui));
    }
}
