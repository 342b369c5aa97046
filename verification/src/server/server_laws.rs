//! What the server promises of its log, its sessions, its listings and its settings.

use vstd::prelude::*;
use vstd::string::*;
use crate::fits::file_bytes::{is_network_magic, mode_of, IoMode};
use crate::server::activity::{
    first_seq_of, is_event, named_ref, newer, newest, recorded_at, session_parts, session_path,
    shown_query, ActivityEvent, ActivityLog, RecordedView, Timing, ACTIVITY_CAPACITY,
    MAX_SNIFF_BODY_BYTES,
};
use crate::server::cli::{is_command, usage_of, Command, USAGE_COMMANDS};
use crate::server::config::{
    is_default, named_if, number_or, refused, unreadable, ServerConfig, ServerVars,
};
use crate::server::error::{code_of, hint_of, message_of, status_of, AppError};
use crate::server::jobs::{running_ids, some_run};
use crate::server::order::{is_order, key_le, text_le, text_le_is_total, Key};
use crate::server::session::{
    can_open, count_on, expired, idle_nanos, is_active, is_first_free, is_fresh, is_minted,
    is_taken_error, minted_name, number_after, ImageMeta, Session,
};
use crate::server::sessions::{after_eviction, after_request, is_session_list, is_uuid_text};
use crate::server::tui::app::SessionSummary;
use crate::server::v2::images::{is_image_list, is_meta, is_opened, Loaded, Opened};
use crate::server::v2::sessions::{bytes_of, is_summary, CacheSize};
use crate::text::{
    decimal, lowered, occurs, occurs_at, parsed_unsigned, trimmed, without_trailing,
};
use crate::text_laws::{
    lemma_first_is, lemma_trimmed_whole, only_the_trailing_characters_go,
    written_numbers_are_read_back,
};

verus! {

/// The newest events are the last ones, in their order, as many as are asked for or all there are.
pub proof fn the_newest_events_are_the_last(events: Seq<ActivityEvent>, limit: nat, i: int)
    ensures
        newest(events, limit).len() == if events.len() < limit {
            events.len()
        } else {
            limit
        },
        0 <= i < newest(events, limit).len() ==> newest(events, limit)[i] == events[events.len()
            - newest(events, limit).len() + i],
{
}

/// The newer events are those of greater number, all of them and in their order.
pub proof fn newer_events_have_greater_numbers(events: Seq<ActivityEvent>, since: u64)
    ensures
        newer(events, since) == events.filter(|e: ActivityEvent| e.seq > since),
    decreases events.len(),
{
    reveal(Seq::filter);
    if events.len() > 0 {
        newer_events_have_greater_numbers(events.drop_last(), since);
    }
}

/// A log holds the last two hundred events, under the numbers from the first it still has to the
/// number of events recorded.
pub proof fn a_log_holds_two_hundred_events(log: ActivityLog, i: int)
    requires
        log.wf(),
        0 <= i < log.held().len(),
    ensures
        ACTIVITY_CAPACITY == 200,
        log.held().len() == if log.recorded() < 200 {
            log.recorded() as int
        } else {
            200
        },
        log.held()[i].seq == log.recorded() - (log.held().len() - 1 - i),
        log.held().last().seq == log.recorded(),
        first_seq_of(log.held()) == log.recorded() - log.held().len() + 1,
{
}

proof fn lemma_parts(sid: Seq<char>, endpoint: Seq<char>, slashes: Seq<char>)
    requires
        forall|i: int| 0 <= i < sid.len() ==> #[trigger] sid[i] != '/',
        forall|i: int| 0 <= i < slashes.len() ==> #[trigger] slashes[i] == '/',
        endpoint.len() > 0 ==> endpoint.last() != '/',
    ensures
        session_parts(sid + "/"@ + endpoint + slashes) == (sid, endpoint),
        session_parts(sid) == (sid, Seq::<char>::empty()),
{
    reveal_strlit("/");
    let rest = sid + "/"@ + endpoint + slashes;
    let n = sid.len() as int;
    assert(rest[n] == '/');
    assert forall|j: int| 0 <= j < n implies #[trigger] rest[j] != '/' by {
        assert(rest[j] == sid[j]);
    }
    lemma_first_is(rest, '/', n);
    lemma_first_is(sid, '/', n);
    assert(rest.take(n) =~= sid);
    let behind = rest.skip(n + 1);
    assert(behind =~= endpoint + slashes);
    let t = without_trailing(behind, '/');
    only_the_trailing_characters_go(behind, '/');
    if t.len() > endpoint.len() {
        assert(t.last() == behind[t.len() - 1]);
        assert(behind[t.len() - 1] == slashes[t.len() - 1 - endpoint.len()]);
    }
    if t.len() < endpoint.len() {
        assert(behind[endpoint.len() - 1] == endpoint.last());
    }
    assert(t =~= endpoint);
}

/// A request to a session's endpoint is found by the session's id and the endpoint, under either
/// version of the API, whatever slashes end the path.
pub proof fn paths_name_a_session_and_an_endpoint(
    sid: Seq<char>,
    endpoint: Seq<char>,
    slashes: Seq<char>,
)
    requires
        forall|i: int| 0 <= i < sid.len() ==> #[trigger] sid[i] != '/',
        forall|i: int| 0 <= i < slashes.len() ==> #[trigger] slashes[i] == '/',
        endpoint.len() > 0 ==> endpoint.last() != '/',
    ensures
        session_path("/v2/sessions/"@ + (sid + "/"@ + endpoint + slashes)) == Some(
            (sid, endpoint),
        ),
        session_path("/sessions/"@ + (sid + "/"@ + endpoint + slashes)) == Some((sid, endpoint)),
        session_path("/v2/sessions/"@ + sid) == Some((sid, Seq::<char>::empty())),
        session_path("/sessions/"@ + sid) == Some((sid, Seq::<char>::empty())),
{
    reveal_strlit("/v2/sessions/");
    reveal_strlit("/sessions/");
    lemma_parts(sid, endpoint, slashes);
    let rest = sid + "/"@ + endpoint + slashes;
    let a = "/v2/sessions/"@;
    let b = "/sessions/"@;
    assert forall|tail: Seq<char>|
        a.is_prefix_of(#[trigger] (a + tail)) && (a + tail).skip(13) == tail by {
        assert((a + tail).subrange(0, 13) =~= a);
        assert((a + tail).skip(13) =~= tail);
    }
    assert forall|tail: Seq<char>|
        b.is_prefix_of(#[trigger] (b + tail)) && !a.is_prefix_of(b + tail) && (b + tail).skip(10)
            == tail by {
        assert((b + tail).subrange(0, 10) =~= b);
        assert((b + tail)[1] == 's');
        assert((b + tail).skip(10) =~= tail);
        if a.is_prefix_of(b + tail) {
            assert((b + tail).subrange(0, 13)[1] == a[1]);
        }
    }
}

/// What a session's log records: every request to an endpoint, but those that a dashboard asks for
/// in a loop and the polling of jobs.
pub proof fn requests_are_recorded_with_their_session(
    method: Seq<char>,
    sid: Seq<char>,
    endpoint: Seq<char>,
    slashes: Seq<char>,
)
    requires
        forall|i: int| 0 <= i < sid.len() ==> #[trigger] sid[i] != '/',
        forall|i: int| 0 <= i < slashes.len() ==> #[trigger] slashes[i] == '/',
        endpoint.len() > 0,
        endpoint.last() != '/',
    ensures
        ({
            let watched = endpoint == "history"@ || endpoint == "images"@ || endpoint
                == "keepalive"@ || (method == "GET"@ && "jobs/"@.is_prefix_of(endpoint));
            let at = recorded_at(method, "/v2/sessions/"@ + (sid + "/"@ + endpoint + slashes));
            let old = recorded_at(method, "/sessions/"@ + (sid + "/"@ + endpoint + slashes));
            &&& !watched ==> at == (RecordedView::Session { sid, endpoint })
            &&& watched ==> at is Unrecorded
            &&& old == at
        }),
        recorded_at(method, "/v2/sessions/"@ + sid) is Unrecorded,
        recorded_at(method, "/sessions/"@ + sid) is Unrecorded,
{
    reveal_strlit("/v2/sessions/");
    reveal_strlit("/sessions/");
    reveal_strlit("/v2/fs/");
    paths_name_a_session_and_an_endpoint(sid, endpoint, slashes);
    let path = "/v2/sessions/"@ + (sid + "/"@ + endpoint + slashes);
    let own = "/v2/sessions/"@ + sid;
    let old = "/sessions/"@ + (sid + "/"@ + endpoint + slashes);
    let old_own = "/sessions/"@ + sid;
    assert(path[4] == 's' && own[4] == 's' && old[1] == 's' && old_own[1] == 's');
    if "/v2/fs/"@.is_prefix_of(path) {
        assert(path.subrange(0, 7)[4] == "/v2/fs/"@[4]);
    }
    if "/v2/fs/"@.is_prefix_of(own) {
        assert(own.subrange(0, 7)[4] == "/v2/fs/"@[4]);
    }
    if "/v2/fs/"@.is_prefix_of(old) {
        assert(old.subrange(0, 7)[1] == "/v2/fs/"@[1]);
    }
    if "/v2/fs/"@.is_prefix_of(old_own) {
        assert(old_own.subrange(0, 7)[1] == "/v2/fs/"@[1]);
    }
}

/// What the log of the process records: every request to the file system, and nothing else that
/// names no session.
pub proof fn file_system_requests_are_recorded_globally(method: Seq<char>, path: Seq<char>)
    ensures
        "/v2/fs/"@.is_prefix_of(path) ==> recorded_at(method, path) is Global,
        !"/v2/fs/"@.is_prefix_of(path) && !"/v2/sessions/"@.is_prefix_of(path)
            && !"/sessions/"@.is_prefix_of(path) ==> recorded_at(method, path) is Unrecorded,
{
    reveal_strlit("/v2/sessions/");
    reveal_strlit("/sessions/");
    reveal_strlit("/v2/fs/");
    if "/v2/fs/"@.is_prefix_of(path) {
        assert(path.subrange(0, 7)[4] == path[4] && path.subrange(0, 7)[1] == path[1]);
        assert("/v2/fs/"@[4] == 'f' && "/v2/fs/"@[1] == 'v');
        if "/v2/sessions/"@.is_prefix_of(path) {
            assert(path.subrange(0, 13)[4] == path[4]);
            assert("/v2/sessions/"@[4] == 's');
        }
        if "/sessions/"@.is_prefix_of(path) {
            assert(path.subrange(0, 10)[1] == path[1]);
            assert("/sessions/"@[1] == 's');
        }
    }
}

/// A query is shown whole up to eighty characters, cut there with an ellipsis behind, and not at
/// all where it is empty.
pub proof fn long_queries_are_cut(query: Seq<char>)
    ensures
        query.len() == 0 ==> shown_query(query) is None,
        0 < query.len() <= 80 ==> shown_query(query) == Some(query),
        query.len() > 80 ==> (shown_query(query) matches Some(s) && s.len() == 81 && s.last() == '…'
            && s.take(80) == query.take(80)),
        MAX_SNIFF_BODY_BYTES == 64 * 1024,
{
    if query.len() > 80 {
        assert(query.take(80).push('…').take(80) =~= query.take(80));
    }
}

/// An event names the image of the request's body; without one, the image in use where the request
/// succeeded, with a status from 200 to 299, and none where it failed.
pub proof fn events_name_their_image(
    body: Option<String>,
    status: u16,
    active: Option<String>,
)
    ensures
        body is Some ==> named_ref(body, status, active) == body,
        body is None && 200 <= status <= 299 ==> named_ref(body, status, active) == active,
        body is None && (status < 200 || status > 299) ==> named_ref(body, status, active) is None,
{
}

/// A session is evicted if and only if none of its jobs runs and its last request lies more than
/// `ttl` seconds of a thousand million nanoseconds back.
pub proof fn sessions_expire_when_idle(s: Session, now: u64, ttl: u64)
    ensures
        expired(s, now, ttl) <==> (forall|id: Seq<char>| #[trigger]
            s.jobs.states().dom().contains(id) ==> !s.jobs.states()[id]) && now
            > s.last_accessed + ttl * 1_000_000_000,
        idle_nanos(s, now) == if now >= s.last_accessed {
            now - s.last_accessed
        } else {
            0
        },
{
    if expired(s, now, ttl) {
        assert forall|id: Seq<char>| #[trigger]
            s.jobs.states().dom().contains(id) implies !s.jobs.states()[id] by {
            assert(!some_run(s.jobs.states()));
        }
    }
}

/// A sweep keeps the sessions that do not expire as they are, and lets the others go; a request
/// changes when its session was last touched and nothing else.
pub proof fn sweeps_and_requests_leave_the_rest(
    table: Map<Seq<char>, Session>,
    id: Seq<char>,
    other: Seq<char>,
    now: u64,
    ttl: u64,
)
    requires
        table.dom().contains(id),
        table.dom().contains(other),
        other != id,
    ensures
        after_eviction(table, now, ttl).dom().contains(id) <==> !expired(table[id], now, ttl),
        after_eviction(table, now, ttl).dom().contains(id) ==> after_eviction(table, now, ttl)[id]
            == table[id],
        forall|k: Seq<char>| #[trigger]
            after_eviction(table, now, ttl).dom().contains(k) ==> table.dom().contains(k),
        after_request(table, id, now).dom() == table.dom(),
        after_request(table, id, now)[id].id == table[id].id,
        after_request(table, id, now)[id].created_unix == table[id].created_unix,
        after_request(table, id, now)[other] == table[other],
        after_request(table, id, now)[id].last_accessed == now,
        after_request(table, id, now)[id].v2 == table[id].v2,
        after_request(table, id, now)[id].jobs == table[id].jobs,
        after_request(table, id, now)[id].activity == table[id].activity,
{
    assert(after_request(table, id, now).dom() =~= table.dom());
}

/// Minted names count up from the last one: the name is the prefix, an underscore and the first
/// number, from the next one on, that no image has.
pub proof fn names_count_up(
    name: Seq<char>,
    prefix: Seq<char>,
    from: u64,
    next: u64,
    taken: Set<Seq<char>>,
    free: u64,
)
    requires
        is_minted(name, prefix, from, next, taken),
    ensures
        !taken.contains(name),
        from <= free && !taken.contains(prefix + "_"@ + decimal(free as nat)) && (forall|n: u64|
            from <= n < free ==> taken.contains(prefix + "_"@ + #[trigger] decimal(n as nat)))
            ==> name == prefix + "_"@ + decimal(free as nat) && next == if free == u64::MAX {
            0
        } else {
            free + 1
        },
        exists|n: nat| n <= u64::MAX && name == #[trigger] (prefix + "_"@ + decimal(n)),
{
    let k = choose|k: nat| #[trigger]
        is_first_free(prefix, from, taken, k) && name == minted_name(
            prefix,
            number_after(from, k) as nat,
        ) && next == count_on(number_after(from, k));
    let n = number_after(from, k) as nat;
    assert(name == prefix + "_"@ + decimal(n));
    if from <= free && !taken.contains(prefix + "_"@ + decimal(free as nat)) && (forall|n: u64|
        from <= n < free ==> taken.contains(prefix + "_"@ + #[trigger] decimal(n as nat))) {
        let steps = (free - from) as nat;
        assert(number_after(from, steps) == free);
        if k > steps {
            assert(taken.contains(minted_name(prefix, number_after(from, steps) as nat)));
        }
        if k < steps {
            let m = number_after(from, k);
            assert(m == from + k);
            assert(taken.contains(prefix + "_"@ + decimal(m as nat)));
        }
    }
}

/// A name opens a unit of a file where it is free, or where its image came from that file and that
/// unit; an image of another file or unit is never touched.
pub proof fn a_taken_name_opens_its_own_unit_alone(
    meta: Map<Seq<char>, ImageMeta>,
    name: Seq<char>,
    source: Seq<char>,
    hdu: Option<usize>,
)
    ensures
        !meta.dom().contains(name) ==> can_open(meta, name, Some(source), hdu),
        meta.dom().contains(name) ==> (can_open(meta, name, Some(source), hdu) <==> (
        meta[name].source matches Some(s) && s@ == source) && meta[name].hdu == hdu),
        meta.dom().contains(name) ==> (can_open(meta, name, None, hdu) <==> meta[name].source
            is None && meta[name].hdu == hdu),
        !meta.dom().contains(name) ==> can_open(meta, name, None, hdu),
{
}

/// Texts are ordered by the first character that differs, and a text before those that it begins.
pub proof fn texts_are_ordered_by_their_characters(
    p: Seq<char>,
    c: char,
    d: char,
    x: Seq<char>,
    y: Seq<char>,
)
    ensures
        c < d ==> text_le(p + seq![c] + x, p + seq![d] + y) && !text_le(
            p + seq![d] + y,
            p + seq![c] + x,
        ),
        text_le(p, p + x),
        !text_le(p + seq![c] + x, p),
    decreases p.len(),
{
    let a = p + seq![c] + x;
    let b = p + seq![d] + y;
    if p.len() == 0 {
        assert(a[0] == c && b[0] == d);
    } else {
        let q = p.skip(1);
        texts_are_ordered_by_their_characters(q, c, d, x, y);
        assert(a.skip(1) =~= q + seq![c] + x);
        assert(b.skip(1) =~= q + seq![d] + y);
        assert((p + x).skip(1) =~= q + x);
        assert(a[0] == p[0] && b[0] == p[0] && (p + x)[0] == p[0]);
    }
}

/// A listing has lower ranks first, and within a rank the texts in their order; what has the same
/// rank and the same text stays in the order in which it came.
pub proof fn listings_go_by_rank_and_name(places: Seq<usize>, keys: Seq<Key>, i: int, j: int)
    requires
        is_order(places, keys),
        0 <= i < j < places.len(),
    ensures
        keys[places[i] as int].rank <= keys[places[j] as int].rank,
        keys[places[i] as int].rank == keys[places[j] as int].rank ==> text_le(
            keys[places[i] as int].name@,
            keys[places[j] as int].name@,
        ),
        keys[places[i] as int].rank == keys[places[j] as int].rank && keys[places[i] as int].name@
            == keys[places[j] as int].name@ ==> places[i] < places[j],
        places[i] != places[j],
        places.len() == keys.len(),
{
    text_le_is_total(keys[places[i] as int].name@, keys[places[j] as int].name@);
    assert(key_le(keys[places[i] as int], keys[places[j] as int]));
}

/// Every error has its status: 400 for what is wrong in a request, 404 for what is not there, 409
/// for a name that is taken, 429 where too much runs, 500 and 503 for the server's own troubles.
pub proof fn errors_have_their_status(m: String, code: &'static str, hint: Option<String>)
    ensures
        status_of(AppError::NotFound(m)) == 404 && code_of(AppError::NotFound(m)) == "not_found"@,
        status_of(AppError::Conflict(m)) == 409 && code_of(AppError::Conflict(m)) == "conflict"@,
        status_of(AppError::TooManyRequests) == 429 && code_of(AppError::TooManyRequests)
            == "too_many_requests"@,
        status_of(AppError::BadRequest(m)) == 400 && code_of(AppError::BadRequest(m))
            == "bad_request"@,
        status_of((AppError::BadRequestWithHint { code, message: m, hint })) == 400 && code_of(
            (AppError::BadRequestWithHint { code, message: m, hint }),
        ) == code@,
        status_of(AppError::ServiceUnavailable(m)) == 503 && code_of(
            AppError::ServiceUnavailable(m),
        ) == "service_unavailable"@,
        status_of(AppError::Internal(m)) == 500 && code_of(AppError::Internal(m))
            == "internal_error"@,
        message_of(AppError::NotFound(m)) == m@ && message_of(AppError::Conflict(m)) == m@,
        message_of(AppError::BadRequest(m)) == m@ && message_of(AppError::Internal(m)) == m@,
        message_of(AppError::ServiceUnavailable(m)) == m@,
        message_of((AppError::BadRequestWithHint { code, message: m, hint })) == m@,
        hint_of((AppError::BadRequestWithHint { code, message: m, hint })) == hint,
        message_of(AppError::TooManyRequests) == "job queue full (max 4 concurrent)"@,
        hint_of(AppError::BadRequest(m)) is None && hint_of(AppError::NotFound(m)) is None,
        hint_of(AppError::Conflict(m)) is None && hint_of(AppError::Internal(m)) is None,
        hint_of(AppError::ServiceUnavailable(m)) is None && hint_of(AppError::TooManyRequests)
            is None,
{
}

/// A setting is the number in its variable where that can be read and is allowed; where it is
/// missing or cannot be read the default holds, and only the latter is reported.
pub proof fn settings_are_read_or_default(text: String, n: nat, max: nat, default: nat)
    ensures
        text@ == decimal(n) && n <= max ==> number_or(Some(text), max, default) == n && !unreadable(
            Some(text),
            max,
        ),
        text@ == decimal(n) && n > max ==> number_or(Some(text), max, default) == default
            && unreadable(Some(text), max),
        text@.len() == 0 ==> number_or(Some(text), max, default) == default && unreadable(
            Some(text),
            max,
        ),
        parsed_unsigned(text@, max) is None ==> number_or(Some(text), max, default) == default
            && unreadable(Some(text), max),
        number_or(None, max, default) == default && !unreadable(None, max),
{
    written_numbers_are_read_back(n, max);
}

/// The server's defaults: the loopback at port 8097, sessions of fifteen minutes, eight of them,
/// four jobs, caches of 32 images and two gibibytes, and a sweep every minute.
pub proof fn the_defaults_are_known(c: ServerConfig)
    requires
        is_default(c),
    ensures
        c.bind@ == "127.0.0.1:8097"@,
        c.session_ttl == 15 * 60,
        c.session_max == 8,
        c.jobs_max == 4,
        c.cache_max_entries == 32,
        c.cache_max_bytes == 2 * 1024 * 1024 * 1024,
        c.cleanup_interval == 60,
        c.log_level@ == "info"@,
{
}

/// What the first argument of the program asks for.
pub proof fn arguments_name_commands(c: Command, arg: Seq<char>)
    requires
        is_command(c, Some(arg)),
    ensures
        arg == "connect"@ ==> c is Connect,
        arg == "tui"@ ==> c is Tui,
        arg == "-h"@ || arg == "--help"@ || arg == "help"@ ==> c is Help,
        arg == "-V"@ || arg == "--version"@ ==> c is Version,
        arg != "connect"@ && arg != "tui"@ && arg != "-h"@ && arg != "--help"@ && arg != "help"@
            && arg != "-V"@ && arg != "--version"@ ==> c is Unknown,
        c is Unknown && arg.len() > 0 && arg[0] == '-' ==> c->Unknown_0@
            == "astroburst-server: unknown flag '"@ + arg + "'\n"@,
        c is Unknown && (arg.len() == 0 || arg[0] != '-') ==> c->Unknown_0@
            == "astroburst-server: unknown command '"@ + arg + "'\n"@,
{
    reveal_strlit("connect");
    reveal_strlit("tui");
    reveal_strlit("-h");
    reveal_strlit("--help");
    reveal_strlit("help");
    reveal_strlit("-V");
    reveal_strlit("--version");
    reveal_strlit("-");
    assert("connect"@.len() == 7 && "tui"@.len() == 3 && "-h"@.len() == 2 && "--help"@.len() == 6
        && "help"@.len() == 4 && "-V"@.len() == 2 && "--version"@.len() == 9);
    assert("-h"@[1] == 'h' && "-V"@[1] == 'V');
    assert("-"@.is_prefix_of(arg) <==> arg.len() > 0 && arg[0] == '-') by {
        if arg.len() > 0 && arg[0] == '-' {
            assert("-"@ =~= arg.subrange(0, 1));
        }
        if "-"@.is_prefix_of(arg) {
            assert(arg.subrange(0, 1)[0] == arg[0]);
        }
    }
    if c is Unknown {
        reveal_strlit("astroburst-server: unknown ");
        reveal_strlit("flag");
        reveal_strlit("command");
        reveal_strlit(" '");
        reveal_strlit("astroburst-server: unknown flag '");
        reveal_strlit("astroburst-server: unknown command '");
        assert("astroburst-server: unknown "@ + "flag"@ + " '"@
            =~= "astroburst-server: unknown flag '"@);
        assert("astroburst-server: unknown "@ + "command"@ + " '"@
            =~= "astroburst-server: unknown command '"@);
    }
}

/// Without an argument the server runs.
pub proof fn no_argument_serves(c: Command)
    ensures
        is_command(c, None) <==> c is Serve,
{
}

/// The three ways to read a file are named in whatever letters, with white space around them.
pub proof fn reading_modes_are_named(s: Seq<char>)
    ensures
        lowered(trimmed(s)) == "auto"@ ==> mode_of(s) == Ok::<IoMode, Seq<char>>(IoMode::Auto),
        lowered(trimmed(s)) == "mmap"@ ==> mode_of(s) == Ok::<IoMode, Seq<char>>(IoMode::Mmap),
        lowered(trimmed(s)) == "read"@ ==> mode_of(s) == Ok::<IoMode, Seq<char>>(IoMode::Read),
        mode_of(s) is Ok ==> lowered(trimmed(s)) == "auto"@ || lowered(trimmed(s)) == "mmap"@
            || lowered(trimmed(s)) == "read"@,
        mode_of(s) matches Err(e) ==> e == "invalid io mode '"@ + lowered(trimmed(s))
            + "' (expected auto|mmap|read)"@,
        mode_of("auto"@) == Ok::<IoMode, Seq<char>>(IoMode::Auto),
        mode_of("MMAP"@) == Ok::<IoMode, Seq<char>>(IoMode::Mmap),
        mode_of("Read"@) == Ok::<IoMode, Seq<char>>(IoMode::Read),
{
    reveal_strlit("auto");
    reveal_strlit("mmap");
    reveal_strlit("read");
    reveal_strlit("MMAP");
    reveal_strlit("Read");
    assert("auto"@[0] == 'a' && "mmap"@[0] == 'm' && "read"@[0] == 'r');
    lemma_trimmed_whole("auto"@);
    lemma_trimmed_whole("MMAP"@);
    lemma_trimmed_whole("Read"@);
    assert(lowered("auto"@) =~= "auto"@);
    assert(lowered("MMAP"@) =~= "mmap"@);
    assert(lowered("Read"@) =~= "read"@);
}

/// The file systems that lie behind a network, by the numbers that Linux gives them.
pub proof fn network_file_systems_have_their_numbers(magic: u64)
    ensures
        is_network_magic(magic) <==> seq![
            0x6969u64,
            0x517Bu64,
            0xFE534D42u64,
            0xFF534D42u64,
            0x0BD00BD0u64,
            0x00C36400u64,
            0x65735546u64,
            0x01021997u64,
            0x47504653u64,
            0x01161970u64,
            0x7461636Fu64,
            0x5346414Fu64,
            0x73757245u64,
        ].contains(magic),
{
    let all = seq![
        0x6969u64,
        0x517Bu64,
        0xFE534D42u64,
        0xFF534D42u64,
        0x0BD00BD0u64,
        0x00C36400u64,
        0x65735546u64,
        0x01021997u64,
        0x47504653u64,
        0x01161970u64,
        0x7461636Fu64,
        0x5346414Fu64,
        0x73757245u64,
    ];
    assert(all[0] == 0x6969 && all[1] == 0x517B && all[2] == 0xFE534D42 && all[3] == 0xFF534D42
        && all[4] == 0x0BD00BD0 && all[5] == 0x00C36400 && all[6] == 0x65735546 && all[7]
        == 0x01021997 && all[8] == 0x47504653 && all[9] == 0x01161970 && all[10] == 0x7461636F
        && all[11] == 0x5346414F && all[12] == 0x73757245);
}

/// The jobs that run are those whose state says so; some run where one does.
pub proof fn running_jobs_are_those_that_run(states: Map<Seq<char>, bool>, id: Seq<char>)
    ensures
        running_ids(states).contains(id) <==> states.dom().contains(id) && states[id],
        states.dom().contains(id) && states[id] ==> some_run(states),
        running_ids(states) == Set::<Seq<char>>::empty() ==> !some_run(states),
{
    if some_run(states) {
        let runs = choose|id: Seq<char>| #[trigger] states.dom().contains(id) && states[id];
        assert(running_ids(states).contains(runs));
    }
}

/// The id of a session is a UUID of version 4: 32 small hexadecimal digits and four hyphens.
pub proof fn ids_are_uuids(s: Seq<char>, i: int)
    requires
        is_uuid_text(s),
        0 <= i < 36,
    ensures
        s.len() == 36,
        s[8] == '-' && s[13] == '-' && s[18] == '-' && s[23] == '-',
        i != 8 && i != 13 && i != 18 && i != 23 ==> ('0' <= s[i] <= '9') || ('a' <= s[i] <= 'f'),
        s[14] == '4',
{
    assert(s[8] == '-' && s[13] == '-' && s[18] == '-' && s[23] == '-');
}

/// A variable is reported if and only if it holds something that cannot be read, under its name.
pub proof fn unreadable_variables_are_reported(vars: ServerVars, name: Seq<char>)
    ensures
        refused(vars).contains(name) <==> {
            ||| name == "ASTROBURST_BIND"@ && vars.bind is Some && !(vars.bind->0).1
            ||| name == "ASTROBURST_SESSION_TTL"@ && unreadable(vars.session_ttl, u64::MAX as nat)
            ||| name == "ASTROBURST_SESSION_MAX"@ && unreadable(vars.session_max, usize::MAX as nat)
            ||| name == "ASTROBURST_JOBS_MAX"@ && unreadable(vars.jobs_max, usize::MAX as nat)
            ||| name == "ASTROBURST_CACHE_MAX_ENTRIES"@ && unreadable(
                vars.cache_max_entries,
                usize::MAX as nat,
            )
            ||| name == "ASTROBURST_CACHE_MAX_BYTES"@ && unreadable(
                vars.cache_max_bytes,
                u64::MAX as nat,
            )
            ||| name == "ASTROBURST_CLEANUP_INTERVAL"@ && unreadable(
                vars.cleanup_interval,
                u64::MAX as nat,
            )
        },
{
    let bind = if vars.bind matches Some((_, ok)) && !ok {
        seq!["ASTROBURST_BIND"@]
    } else {
        Seq::<Seq<char>>::empty()
    };
    let a = named_if(unreadable(vars.session_ttl, u64::MAX as nat), "ASTROBURST_SESSION_TTL"@);
    let b = named_if(unreadable(vars.session_max, usize::MAX as nat), "ASTROBURST_SESSION_MAX"@);
    let c = named_if(unreadable(vars.jobs_max, usize::MAX as nat), "ASTROBURST_JOBS_MAX"@);
    let d = named_if(
        unreadable(vars.cache_max_entries, usize::MAX as nat),
        "ASTROBURST_CACHE_MAX_ENTRIES"@,
    );
    let e = named_if(
        unreadable(vars.cache_max_bytes, u64::MAX as nat),
        "ASTROBURST_CACHE_MAX_BYTES"@,
    );
    let f = named_if(
        unreadable(vars.cleanup_interval, u64::MAX as nat),
        "ASTROBURST_CLEANUP_INTERVAL"@,
    );
    lemma_in_either(bind, a, name);
    lemma_in_either(bind + a, b, name);
    lemma_in_either(bind + a + b, c, name);
    lemma_in_either(bind + a + b + c, d, name);
    lemma_in_either(bind + a + b + c + d, e, name);
    lemma_in_either(bind + a + b + c + d + e, f, name);
    lemma_named(unreadable(vars.session_ttl, u64::MAX as nat), "ASTROBURST_SESSION_TTL"@, name);
    lemma_named(unreadable(vars.session_max, usize::MAX as nat), "ASTROBURST_SESSION_MAX"@, name);
    lemma_named(unreadable(vars.jobs_max, usize::MAX as nat), "ASTROBURST_JOBS_MAX"@, name);
    lemma_named(
        unreadable(vars.cache_max_entries, usize::MAX as nat),
        "ASTROBURST_CACHE_MAX_ENTRIES"@,
        name,
    );
    lemma_named(
        unreadable(vars.cache_max_bytes, u64::MAX as nat),
        "ASTROBURST_CACHE_MAX_BYTES"@,
        name,
    );
    lemma_named(
        unreadable(vars.cleanup_interval, u64::MAX as nat),
        "ASTROBURST_CLEANUP_INTERVAL"@,
        name,
    );
    lemma_named(vars.bind is Some && !(vars.bind->0).1, "ASTROBURST_BIND"@, name);
    assert(bind == named_if(vars.bind is Some && !(vars.bind->0).1, "ASTROBURST_BIND"@));
}

proof fn lemma_in_either(a: Seq<Seq<char>>, b: Seq<Seq<char>>, name: Seq<char>)
    ensures
        (a + b).contains(name) <==> a.contains(name) || b.contains(name),
{
    let all = a + b;
    if all.contains(name) {
        let i = choose|i: int| 0 <= i < all.len() && all[i] == name;
        if i < a.len() {
            assert(a[i] == name);
        } else {
            assert(b[i - a.len()] == name);
        }
    }
    if a.contains(name) {
        let i = choose|i: int| 0 <= i < a.len() && a[i] == name;
        assert(all[i] == name);
    }
    if b.contains(name) {
        let i = choose|i: int| 0 <= i < b.len() && b[i] == name;
        assert(all[a.len() + i] == name);
    }
}

proof fn lemma_named(b: bool, own: Seq<char>, name: Seq<char>)
    ensures
        named_if(b, own).contains(name) <==> b && name == own,
{
    if b {
        assert(seq![own][0] == own);
    }
}

/// The sessions are listed each once, the oldest first.
pub proof fn sessions_are_listed_by_age(
    ids: Seq<String>,
    table: Map<Seq<char>, Session>,
    i: int,
    j: int,
)
    requires
        is_session_list(ids, table),
        0 <= i < j < ids.len(),
    ensures
        table[ids[i]@].created_unix <= table[ids[j]@].created_unix,
        table[ids[i]@].created_unix == table[ids[j]@].created_unix ==> text_le(
            table[ids[i]@].id@,
            table[ids[j]@].id@,
        ),
        ids[i]@ != ids[j]@,
        table.dom().contains(ids[i]@) && table.dom().contains(ids[j]@),
{
}

/// A session's summary: its id, when it was made, the whole seconds since its last request, the
/// image in use, the number of its images and of its running jobs, the bytes it caches, and the
/// number of its last event.
pub proof fn summaries_tell_of_their_session(r: SessionSummary, s: Session, now: u64, cached: u64)
    requires
        is_summary(r, s, now, cached),
    ensures
        r.session_id == s.id && r.created_unix == s.created_unix,
        now >= s.last_accessed ==> 1_000_000_000 * r.idle_secs <= now - s.last_accessed
            < 1_000_000_000 * (r.idle_secs + 1),
        now < s.last_accessed ==> r.idle_secs == 0,
        r.running_jobs == running_ids(s.jobs.states()).len(),
        r.active_ref == s.v2.active(),
        r.image_count == s.v2.meta().dom().len(),
        r.cache_bytes == cached,
        r.last_seq == s.activity.recorded(),
{
}

/// The bytes that a session caches are the first that are given for its id, and none where none
/// are.
pub proof fn cached_bytes_are_found_by_id(sizes: Seq<CacheSize>, id: Seq<char>, i: int)
    requires
        forall|j: int| 0 <= j < i ==> (#[trigger] sizes[j]).session_id@ != id,
        0 <= i <= sizes.len(),
    ensures
        i < sizes.len() && sizes[i].session_id@ == id ==> bytes_of(sizes, id) == sizes[i].bytes,
        i == sizes.len() ==> bytes_of(sizes, id) == 0,
    decreases i,
{
    if i > 0 {
        let tail = sizes.skip(1);
        assert(sizes[0].session_id@ != id);
        assert forall|j: int| 0 <= j < i - 1 implies (#[trigger] tail[j]).session_id@ != id by {
            assert(tail[j] == sizes[j + 1]);
        }
        cached_bytes_are_found_by_id(tail, id, i - 1);
    }
}

/// What is known of an image is what loading it found: its columns are its width and its rows its
/// height; the answer tells the same, with the image as the one in use.
pub proof fn images_are_known_as_loaded(
    m: ImageMeta,
    name: Seq<char>,
    source: Option<String>,
    hdu: Option<usize>,
    loaded: Loaded,
    r: Opened,
)
    requires
        is_meta(m, name, source, hdu, loaded),
        is_opened(r, m),
    ensures
        m.width == loaded.cols && m.height == loaded.rows,
        m.source == source && m.hdu == hdu && m.extname == loaded.extname,
        r.image_ref@ == name && r.active_ref@ == name,
        r.dims.0 == loaded.cols && r.dims.1 == loaded.rows,
        r.hdu == hdu && r.extname == loaded.extname && r.wcs_present == loaded.wcs_present,
{
}

/// The images of a session are listed each once, by their names.
pub proof fn images_are_listed_by_name(
    images: Seq<ImageMeta>,
    meta: Map<Seq<char>, ImageMeta>,
    name: Seq<char>,
    i: int,
    j: int,
)
    requires
        is_image_list(images, meta),
        meta.dom().contains(name),
    ensures
        exists|k: int| 0 <= k < images.len() && #[trigger] images[k] == meta[name],
        0 <= i < images.len() ==> meta.dom().contains(images[i].image_ref@)
            && meta[images[i].image_ref@] == images[i],
        0 <= i < j < images.len() ==> text_le(images[i].image_ref@, images[j].image_ref@)
            && images[i].image_ref@ != images[j].image_ref@,
{
    let k = choose|k: int| 0 <= k < images.len() && (#[trigger] images[k]).image_ref@ == name;
    assert(images[k] == meta[name]);
}

/// Every session is listed.
pub proof fn every_session_is_listed(
    ids: Seq<String>,
    table: Map<Seq<char>, Session>,
    id: Seq<char>,
)
    requires
        is_session_list(ids, table),
    ensures
        table.dom().contains(id) <==> exists|i: int|
            0 <= i < ids.len() && (#[trigger] ids[i])@ == id,
{
}

/// A new session has the id that it was given, was made and used now, and holds no image, no job
/// and no event.
pub proof fn new_sessions_are_empty(s: Session, id: String, created_unix: u64, now: u64)
    requires
        is_fresh(s, id, created_unix, now),
    ensures
        s.id == id && s.created_unix == created_unix && s.last_accessed == now,
        s.v2.active() is None && s.v2.minted() == 0 && s.v2.meta().dom() == Set::<
            Seq<char>,
        >::empty(),
        s.activity.recorded() == 0,
        s.jobs.states().dom() == Set::<Seq<char>>::empty(),
        !is_active(s),
        !expired(s, now, 0),
{
}

/// A name that is taken is refused with it in words.
pub proof fn taken_names_are_refused_in_words(e: AppError, name: Seq<char>)
    requires
        is_taken_error(e, name),
    ensures
        status_of(e) == 409,
        message_of(e) == "image ref "@ + name + " already exists in session"@,
{
}

/// An event says what was asked and how it went: the method, the endpoint, the image, when it was,
/// the status, and how long it took.
pub proof fn events_say_what_was_asked(
    e: ActivityEvent,
    seq: int,
    method: Seq<char>,
    endpoint: Seq<char>,
    image: Option<Seq<char>>,
    timing: Timing,
)
    requires
        is_event(e, seq, method, endpoint, image, timing),
    ensures
        e.seq == seq && e.method@ == method && e.endpoint@ == endpoint,
        e.unix_ms == timing.unix_ms,
        e.status == timing.status,
        e.duration_ms == timing.duration_ms,
        image matches Some(name) ==> e.image_ref is Some && e.image_ref->0@ == name,
        image is None ==> e.image_ref is None,
{
}

/// A log without events has none that comes first, and a path of no session names none.
pub proof fn nothing_is_made_up(path: Seq<char>)
    ensures
        first_seq_of(Seq::empty()) == 0,
        !"/v2/sessions/"@.is_prefix_of(path) && !"/sessions/"@.is_prefix_of(path) ==> session_path(
            path,
        ) is None,
{
}

/// Whether every one of some texts stands in a text.
pub open spec fn all_occur(s: Seq<char>, parts: Seq<Seq<char>>) -> bool {
    forall|i: int| 0 <= i < parts.len() ==> occurs(s, #[trigger] parts[i])
}

proof fn lemma_one_more(
    front: Seq<char>,
    name: Seq<char>,
    value: Seq<char>,
    next: Seq<char>,
    parts: Seq<Seq<char>>,
)
    requires
        all_occur(front + name, parts),
        next.len() > 0,
        next[0] == ']',
    ensures
        all_occur(front + name + value + next, parts.push(name + value + "]"@)),
{
    reveal_strlit("]");
    let s = front + name;
    let longer = s + value + next;
    let all = parts.push(name + value + "]"@);
    assert forall|i: int| 0 <= i < all.len() implies occurs(longer, #[trigger] all[i]) by {
        let part = all[i];
        if i < parts.len() {
            assert(occurs(s, parts[i]));
            let at = choose|at: int| #[trigger] occurs_at(s, part, at);
            assert(longer.subrange(at, at + part.len()) =~= s.subrange(at, at + part.len()));
            assert(occurs_at(longer, part, at));
        } else {
            let at = front.len() as int;
            assert(longer.subrange(at, at + part.len()) =~= part);
            assert(occurs_at(longer, part, at));
        }
    }
}

/// The help begins with the program and its version, and names every variable with its default.
pub proof fn the_help_names_the_defaults(version: Seq<char>, d: ServerConfig)
    ensures
        ("astroburst-server "@ + version).is_prefix_of(usage_of(version, d)),
        occurs(
            usage_of(version, d),
            "ASTROBURST_BIND             TCP address to listen on   [default: "@ + d.bind@ + "]"@,
        ),
        occurs(
            usage_of(version, d),
            "ASTROBURST_SESSION_TTL      idle seconds before evict  [default: "@ + decimal(d.session_ttl as nat) + "]"@,
        ),
        occurs(
            usage_of(version, d),
            "ASTROBURST_SESSION_MAX      max concurrent sessions    [default: "@ + decimal(d.session_max as nat) + "]"@,
        ),
        occurs(
            usage_of(version, d),
            "ASTROBURST_JOBS_MAX         max concurrent CPU jobs    [default: "@ + decimal(d.jobs_max as nat) + "]"@,
        ),
        occurs(
            usage_of(version, d),
            "ASTROBURST_CACHE_MAX_ENTRIES per-session LRU slots     [default: "@ + decimal(d.cache_max_entries as nat) + "]"@,
        ),
        occurs(
            usage_of(version, d),
            "ASTROBURST_CACHE_MAX_BYTES  per-session LRU byte cap   [default: "@ + decimal(d.cache_max_bytes as nat) + "]"@,
        ),
        occurs(
            usage_of(version, d),
            "ASTROBURST_CLEANUP_INTERVAL TTL sweep interval (secs)  [default: "@ + decimal(d.cleanup_interval as nat) + "]"@,
        ),
        occurs(
            usage_of(version, d),
            "ASTROBURST_LOG_LEVEL        log level (RUST_LOG wins)   [default: "@ + d.log_level@ + "]"@,
        ),
{
    reveal_strlit("\n\nUSAGE:\n    astroburst-server                 Start the HTTP server (config via env vars)\n    astroburst-server connect <target>  Open an SSH tunnel to a remote server\n    astroburst-server tui [URL]         Run the live dashboard against a server\n    astroburst-server --help            Print this help\n    astroburst-server --version         Print the version\n\nThe server takes no flags; it is configured through environment variables:\n\n    ASTROBURST_BIND             TCP address to listen on   [default: ");
    reveal_strlit("ASTROBURST_BIND             TCP address to listen on   [default: ");
    reveal_strlit("ASTROBURST_SESSION_TTL      idle seconds before evict  [default: ");
    reveal_strlit("ASTROBURST_SESSION_MAX      max concurrent sessions    [default: ");
    reveal_strlit("ASTROBURST_JOBS_MAX         max concurrent CPU jobs    [default: ");
    reveal_strlit("ASTROBURST_CACHE_MAX_ENTRIES per-session LRU slots     [default: ");
    reveal_strlit("ASTROBURST_CACHE_MAX_BYTES  per-session LRU byte cap   [default: ");
    reveal_strlit("ASTROBURST_CLEANUP_INTERVAL TTL sweep interval (secs)  [default: ");
    reveal_strlit("ASTROBURST_LOG_LEVEL        log level (RUST_LOG wins)   [default: ");
    reveal_strlit("]\n    ASTROBURST_SESSION_TTL      idle seconds before evict  [default: ");
    reveal_strlit("]\n    ASTROBURST_SESSION_MAX      max concurrent sessions    [default: ");
    reveal_strlit("]\n    ASTROBURST_JOBS_MAX         max concurrent CPU jobs    [default: ");
    reveal_strlit("]\n    ASTROBURST_CACHE_MAX_ENTRIES per-session LRU slots     [default: ");
    reveal_strlit("]\n    ASTROBURST_CACHE_MAX_BYTES  per-session LRU byte cap   [default: ");
    reveal_strlit("]\n    ASTROBURST_CLEANUP_INTERVAL TTL sweep interval (secs)  [default: ");
    reveal_strlit("]\n    ASTROBURST_LOG_LEVEL        log level (RUST_LOG wins)   [default: ");
    reveal_strlit("]\n");
    reveal_strlit("]\n    ");
    let lead = "]\n    "@;
    let opening = "astroburst-server "@ + version;
    let commands = USAGE_COMMANDS@;
    let p0 = Seq::<Seq<char>>::empty();
    let n0 = "ASTROBURST_BIND             TCP address to listen on   [default: "@;
    let f0 = opening + commands.take(commands.len() - n0.len());
    assert(f0 + n0 =~= opening + commands);
    let v0 = d.bind@;
    let l0 = "]\n    ASTROBURST_SESSION_TTL      idle seconds before evict  [default: "@;
    lemma_one_more(f0, n0, v0, l0, p0);
    let p1 = p0.push(n0 + v0 + "]"@);
    let n1 = "ASTROBURST_SESSION_TTL      idle seconds before evict  [default: "@;
    let f1 = f0 + n0 + v0 + lead;
    assert(f1 + n1 =~= f0 + n0 + v0 + l0);
    let v1 = decimal(d.session_ttl as nat);
    let l1 = "]\n    ASTROBURST_SESSION_MAX      max concurrent sessions    [default: "@;
    lemma_one_more(f1, n1, v1, l1, p1);
    let p2 = p1.push(n1 + v1 + "]"@);
    let n2 = "ASTROBURST_SESSION_MAX      max concurrent sessions    [default: "@;
    let f2 = f1 + n1 + v1 + lead;
    assert(f2 + n2 =~= f1 + n1 + v1 + l1);
    let v2 = decimal(d.session_max as nat);
    let l2 = "]\n    ASTROBURST_JOBS_MAX         max concurrent CPU jobs    [default: "@;
    lemma_one_more(f2, n2, v2, l2, p2);
    let p3 = p2.push(n2 + v2 + "]"@);
    let n3 = "ASTROBURST_JOBS_MAX         max concurrent CPU jobs    [default: "@;
    let f3 = f2 + n2 + v2 + lead;
    assert(f3 + n3 =~= f2 + n2 + v2 + l2);
    let v3 = decimal(d.jobs_max as nat);
    let l3 = "]\n    ASTROBURST_CACHE_MAX_ENTRIES per-session LRU slots     [default: "@;
    lemma_one_more(f3, n3, v3, l3, p3);
    let p4 = p3.push(n3 + v3 + "]"@);
    let n4 = "ASTROBURST_CACHE_MAX_ENTRIES per-session LRU slots     [default: "@;
    let f4 = f3 + n3 + v3 + lead;
    assert(f4 + n4 =~= f3 + n3 + v3 + l3);
    let v4 = decimal(d.cache_max_entries as nat);
    let l4 = "]\n    ASTROBURST_CACHE_MAX_BYTES  per-session LRU byte cap   [default: "@;
    lemma_one_more(f4, n4, v4, l4, p4);
    let p5 = p4.push(n4 + v4 + "]"@);
    let n5 = "ASTROBURST_CACHE_MAX_BYTES  per-session LRU byte cap   [default: "@;
    let f5 = f4 + n4 + v4 + lead;
    assert(f5 + n5 =~= f4 + n4 + v4 + l4);
    let v5 = decimal(d.cache_max_bytes as nat);
    let l5 = "]\n    ASTROBURST_CLEANUP_INTERVAL TTL sweep interval (secs)  [default: "@;
    lemma_one_more(f5, n5, v5, l5, p5);
    let p6 = p5.push(n5 + v5 + "]"@);
    let n6 = "ASTROBURST_CLEANUP_INTERVAL TTL sweep interval (secs)  [default: "@;
    let f6 = f5 + n5 + v5 + lead;
    assert(f6 + n6 =~= f5 + n5 + v5 + l5);
    let v6 = decimal(d.cleanup_interval as nat);
    let l6 = "]\n    ASTROBURST_LOG_LEVEL        log level (RUST_LOG wins)   [default: "@;
    lemma_one_more(f6, n6, v6, l6, p6);
    let p7 = p6.push(n6 + v6 + "]"@);
    let n7 = "ASTROBURST_LOG_LEVEL        log level (RUST_LOG wins)   [default: "@;
    let f7 = f6 + n6 + v6 + lead;
    assert(f7 + n7 =~= f6 + n6 + v6 + l6);
    let v7 = d.log_level@;
    let l7 = "]\n"@;
    lemma_one_more(f7, n7, v7, l7, p7);
    let p8 = p7.push(n7 + v7 + "]"@);
    let u = usage_of(version, d);
    assert(u == f7 + n7 + v7 + l7);
    assert(p8[0] == n0 + v0 + "]"@);
    assert(p8[1] == n1 + v1 + "]"@);
    assert(p8[2] == n2 + v2 + "]"@);
    assert(p8[3] == n3 + v3 + "]"@);
    assert(p8[4] == n4 + v4 + "]"@);
    assert(p8[5] == n5 + v5 + "]"@);
    assert(p8[6] == n6 + v6 + "]"@);
    assert(p8[7] == n7 + v7 + "]"@);
    assert(opening =~= u.subrange(0, opening.len() as int));
}

} // verus!
