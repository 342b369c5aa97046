//! What the dashboard shows and does, in units, places and keys.

use vstd::prelude::*;
use vstd::string::*;
use vstd::utf8::{encode_utf8, is_ascii_chars, is_ascii_chars_encode_utf8};
use crate::server::supervise::EventView;
use crate::server::tui::app::{
    after_key, event_line, history_len, is_tunnel_after, logged, moved, place_of_session,
    redetailed, reselected, selected_place, tab_beside, tabs_of, Action, App, Detail, HistoryEvent,
    ImageEntry, SessionSummary, Snapshot, Tab, TunnelPhase, TunnelState, TUNNEL_LOG_CAP,
};
use crate::server::tui::client::{accepted, answer_of, host_of};
use crate::server::tui::format::{age_text, bytes_text, nearest, short_text, step_at, to_53_digits};
use crate::server::tui::poll::{is_blank, is_blank_detail, is_listed, path_of, Step};
use crate::server::tui::run::{key_name, url_of_args, KeyPress};
use crate::server::tui::ui::{
    age_of, badge_of, base_of, blanks, event_row_of, events_title_of, footer_of, header_of,
    heading_texts, history_of, image_row_of, is_event_table, left_in, lines, overview_images_of,
    phase_text_of, pieces, right_in, session_line_of, shown, status_lines_of, title_of, window_of,
    EventTable, Look, PieceView,
};
use crate::text::{
    decimal, is_space, parsed_unsigned, place_of, second_word, texts, trimmed, without_trailing,
};
use crate::text_laws::{
    a_part_is_found_where_it_first_stands, decimals_spell_their_number, lemma_last_is,
    only_the_trailing_characters_go, the_second_word_is_found, written_numbers_are_read_back,
};

verus! {

/// An age is written in seconds below a minute, in whole minutes below an hour, in whole hours
/// below a day, and in whole days.
pub proof fn ages_are_whole_units(secs: u64, n: nat)
    ensures
        secs < 60 ==> age_text(secs) == decimal(secs as nat) + "s"@,
        60 <= secs < 3600 && 60 * n <= secs < 60 * (n + 1) ==> age_text(secs) == decimal(n) + "m"@,
        3600 <= secs < 86400 && 3600 * n <= secs < 3600 * (n + 1) ==> age_text(secs) == decimal(n)
            + "h"@,
        86400 <= secs && 86400 * n <= secs < 86400 * (n + 1) ==> age_text(secs) == decimal(n)
            + "d"@,
{
}

/// To the nearest whole number is at most half a unit off, and from the middle it is even.
pub proof fn rounding_goes_to_the_nearest(n: nat, d: nat)
    requires
        d > 0,
    ensures
        2 * (nearest(n, d) * d - n) <= d,
        2 * (n - nearest(n, d) * d) <= d,
        2 * (nearest(n, d) * d - n) == d || 2 * (n - nearest(n, d) * d) == d ==> nearest(n, d) % 2
            == 0,
{
    vstd::arithmetic::div_mod::lemma_fundamental_div_mod(n as int, d as int);
    let q = (n / d) as int;
    let di = d as int;
    assert(q * di == di * q && (q + 1) * di == di * q + di) by (nonlinear_arith);
}

/// A size is written in bytes below a kibibyte, in whole kibibytes below a mebibyte, and in whole
/// mebibytes below a gibibyte.
pub proof fn small_sizes_are_whole_units(bytes: u64, n: nat)
    ensures
        bytes < 1024 ==> bytes_text(bytes) == decimal(bytes as nat) + "B"@,
        1024 <= bytes < 1024 * 1024 && 1024 * n <= bytes < 1024 * (n + 1) ==> bytes_text(bytes)
            == decimal(n) + "KiB"@,
        1024 * 1024 <= bytes < 1024 * 1024 * 1024 && 1048576 * n <= bytes < 1048576 * (n + 1)
            ==> bytes_text(bytes) == decimal(n) + "MiB"@,
{
}

/// From a gibibyte on a size is written in tenths of one, to the nearest, as far as 53 binary
/// digits hold it.
pub proof fn large_sizes_have_one_decimal(bytes: u64, tenths: nat)
    requires
        1073741824 <= bytes,
        2 * (to_53_digits(bytes as nat) * 10 - tenths * 1073741824) < 1073741824,
        2 * (tenths * 1073741824 - to_53_digits(bytes as nat) * 10) < 1073741824,
    ensures
        bytes_text(bytes) == decimal(tenths / 10) + "."@ + decimal(tenths % 10) + "GiB"@,
        bytes < 9007199254740992 ==> to_53_digits(bytes as nat) == bytes,
{
    rounding_goes_to_the_nearest(to_53_digits(bytes as nat) * 10, 1073741824);
    let n = bytes as nat;
    if n < 9007199254740992 {
        assert(step_at(n) == 1);
        assert(nearest(n, 1) == n);
    }
}

/// A size of more than 53 binary digits is taken to the nearest number of 53 digits.
pub proof fn long_sizes_keep_53_digits(n: nat)
    ensures
        step_at(n) > 0,
        n >= 9007199254740992 ==> 4503599627370496 * step_at(n) <= n < 9007199254740992 * step_at(
            n,
        ),
        to_53_digits(n) % step_at(n) == 0,
        2 * (to_53_digits(n) - n) <= step_at(n),
        2 * (n - to_53_digits(n)) <= step_at(n),
    decreases n,
{
    lemma_step(n);
    rounding_goes_to_the_nearest(n, step_at(n));
    vstd::arithmetic::div_mod::lemma_mod_multiples_basic(
        nearest(n, step_at(n)) as int,
        step_at(n) as int,
    );
}

proof fn lemma_step(n: nat)
    ensures
        step_at(n) > 0,
        n >= 9007199254740992 ==> 4503599627370496 * step_at(n) <= n < 9007199254740992 * step_at(
            n,
        ),
    decreases n,
{
    if n >= 9007199254740992 {
        lemma_step(n / 2);
        if n / 2 < 9007199254740992 {
            assert(step_at(n / 2) == 1);
        }
    }
}

/// An id in ASCII is shown whole up to eight characters, and cut behind the eighth with an ellipsis.
pub proof fn ids_are_cut_behind_eight_characters(sid: Seq<char>)
    requires
        forall|i: int| 0 <= i < sid.len() ==> '\0' <= #[trigger] sid[i] <= '\u{7f}',
    ensures
        sid.len() <= 8 ==> short_text(sid) == sid,
        sid.len() > 8 ==> short_text(sid) == sid.take(8).push('…'),
{
    assert(is_ascii_chars(sid));
    is_ascii_chars_encode_utf8(sid);
    if sid.len() > 8 {
        let front = sid.take(8);
        assert forall|i: int| 0 <= i < front.len() implies '\0' <= #[trigger] front[i]
            <= '\u{7f}' by {
            assert(front[i] == sid[i]);
        }
        assert(is_ascii_chars(front));
        is_ascii_chars_encode_utf8(front);
        assert(encode_utf8(sid).subrange(0, 8) =~= encode_utf8(front)) by {
            assert forall|i: int| 0 <= i < 8 implies encode_utf8(sid).subrange(0, 8)[i]
                == encode_utf8(front)[i] by {
                assert(front[i] == sid[i]);
            }
        }
        vstd::utf8::encode_utf8_decode_utf8(front);
    }
}

proof fn lemma_encoded_in_parts(a: Seq<char>, b: Seq<char>)
    ensures
        encode_utf8(a + b) == encode_utf8(a) + encode_utf8(b),
    decreases a.len(),
{
    if a.len() == 0 {
        assert(a + b =~= b);
    } else {
        assert((a + b).drop_first() =~= a.drop_first() + b);
        lemma_encoded_in_parts(a.drop_first(), b);
    }
}

/// An id of other characters is cut where its first eight bytes end.
pub proof fn ids_are_cut_behind_eight_bytes(front: Seq<char>, rest: Seq<char>)
    ensures
        encode_utf8(front).len() == 8 && rest.len() > 0 ==> short_text(front + rest)
            == front.push('…'),
        encode_utf8(front).len() <= 8 ==> short_text(front) == front,
{
    if encode_utf8(front).len() == 8 && rest.len() > 0 {
        lemma_encoded_in_parts(front, rest);
        vstd::utf8::encode_utf8_first_scalar(rest);
        assert(encode_utf8(front + rest).subrange(0, 8) =~= encode_utf8(front));
        vstd::utf8::encode_utf8_decode_utf8(front);
    }
}

/// The tunnel's log keeps its last two hundred lines, the newest last.
pub proof fn the_log_keeps_two_hundred_lines<A>(log: Seq<A>, line: A, i: int)
    requires
        log.len() <= 200,
    ensures
        TUNNEL_LOG_CAP == 200,
        logged(log, line).len() == if log.len() < 200 {
            log.len() + 1
        } else {
            200
        },
        logged(log, line).last() == line,
        0 <= i < logged(log, line).len() - 1 ==> logged(log, line)[i] == log[log.len() + 1
            - logged(log, line).len() + i],
{
}

/// A session is found at the first place of the list that has its id, and not found where none has.
pub proof fn sessions_are_found_by_their_id(sessions: Seq<SessionSummary>, sid: Seq<char>)
    ensures
        0 <= place_of_session(sessions, sid) <= sessions.len(),
        place_of_session(sessions, sid) < sessions.len() ==> sessions[place_of_session(
            sessions,
            sid,
        )].session_id@ == sid,
        forall|i: int|
            0 <= i < place_of_session(sessions, sid) ==> (#[trigger] sessions[i]).session_id@ != sid,
    decreases sessions.len(),
{
    if sessions.len() > 0 && sessions[0].session_id@ != sid {
        let tail = sessions.skip(1);
        sessions_are_found_by_their_id(tail, sid);
        assert forall|i: int| 0 <= i < place_of_session(sessions, sid) implies (
        #[trigger] sessions[i]).session_id@ != sid by {
            if i > 0 {
                assert(tail[i - 1] == sessions[i]);
            }
        }
    }
}

/// After a new list the selection stays with its session where that is listed, wherever it stands
/// now; else the first session is selected, and none where there is none.
pub proof fn the_selection_follows_its_session(
    sessions: Seq<SessionSummary>,
    selected: Option<String>,
    at: int,
)
    ensures
        selected is Some && 0 <= at < sessions.len() && sessions[at].session_id@ == selected->0@
            ==> reselected(sessions, selected) == selected,
        sessions.len() > 0 && (selected is None || forall|i: int|
            0 <= i < sessions.len() ==> (#[trigger] sessions[i]).session_id@ != selected->0@)
            ==> reselected(sessions, selected) == Some(sessions[0].session_id),
        sessions.len() == 0 ==> reselected(sessions, selected) is None,
{
    if selected is Some {
        sessions_are_found_by_their_id(sessions, selected->0@);
        if 0 <= at < sessions.len() && sessions[at].session_id@ == selected->0@ {
            let k = place_of_session(sessions, selected->0@);
            if k == sessions.len() {
                assert(sessions[at].session_id@ != selected->0@);
            }
        }
        if sessions.len() > 0 && forall|i: int|
            0 <= i < sessions.len() ==> (#[trigger] sessions[i]).session_id@ != selected->0@ {
            let k = place_of_session(sessions, selected->0@);
            if k < sessions.len() {
                assert(sessions[k].session_id@ != selected->0@);
            }
        }
    }
}

/// The detail that is shown is the newest one of the selected session.
pub proof fn the_newest_detail_is_shown(
    new: Option<Detail>,
    held: Option<Detail>,
    sid: String,
)
    ensures
        new is Some && new->0.session_id@ == sid@ ==> redetailed(new, held, Some(sid)) == new,
        (new is None || new->0.session_id@ != sid@) && held is Some && held->0.session_id@ == sid@
            ==> redetailed(new, held, Some(sid)) == held,
        (new is None || new->0.session_id@ != sid@) && (held is None || held->0.session_id@ != sid@)
            ==> redetailed(new, held, Some(sid)) is None,
        redetailed(new, held, None) is None,
{
}

/// An event of the tunnel leaves its line in the log and sets the phase: up, waiting for so many
/// seconds, or over for a reason; only a tunnel that came back counts as a reconnection.
pub proof fn events_move_the_tunnel(
    before: TunnelState,
    event: EventView,
    after: TunnelState,
)
    requires
        is_tunnel_after(before, event, after),
    ensures
        after.destination == before.destination,
        event is Up ==> after.phase is Up && after.reconnects == before.reconnects
            + if event->reestablished {
            1int
        } else {
            0
        },
        event is Retrying ==> after.phase == (TunnelPhase::Reconnecting { backoff: event->backoff }),
        event is Fatal ==> after.phase is Fatal && after.phase->Fatal_0@ == event->Fatal_reason,
        event is SshLine || event is StartingRemote || event is VersionMismatch ==> after.phase
            == before.phase,
        !(event is Up) ==> after.reconnects == before.reconnects,
        texts(after.log@) == logged(texts(before.log@), event_line(event)),
{
}

/// The lines of the tunnel's log.
pub proof fn events_are_logged_in_words(a: Seq<char>, b: Seq<char>, n: u64)
    ensures
        event_line((EventView::Up { health: a, reestablished: false })) == "tunnel up"@,
        event_line((EventView::Up { health: a, reestablished: true })) == "tunnel re-established"@,
        event_line((EventView::StartingRemote { bin: a, dest: b })) == "starting remote server ("@
            + a + " on "@ + b + ")"@,
        event_line((EventView::Retrying { backoff: n, reason: a })) == a + "; reconnecting in "@
            + decimal(n as nat) + "s"@,
        event_line(EventView::SshLine(a)) == "ssh: "@ + a,
        event_line((EventView::VersionMismatch { local: a, remote: b }))
            == "WARNING version mismatch: remote "@ + b + " vs client "@ + a,
        event_line((EventView::Fatal { reason: a })) == "FATAL: "@ + a,
{
}

proof fn lemma_keys()
    ensures
        "j"@ != "q"@ && "j"@ != "ctrl-c"@ && "down"@ != "q"@ && "down"@ != "ctrl-c"@,
        "k"@ != "q"@ && "k"@ != "ctrl-c"@ && "k"@ != "j"@ && "k"@ != "down"@,
        "up"@ != "q"@ && "up"@ != "ctrl-c"@ && "up"@ != "j"@ && "up"@ != "down"@,
        "r"@ != "q"@ && "r"@ != "ctrl-c"@ && "r"@ != "j"@ && "r"@ != "down"@ && "r"@ != "k"@ && "r"@
            != "up"@ && "r"@ != "tab"@ && "r"@ != "l"@ && "r"@ != "backtab"@ && "r"@ != "h"@,
        "d"@ != "q"@ && "d"@ != "ctrl-c"@ && "d"@ != "j"@ && "d"@ != "down"@ && "d"@ != "k"@ && "d"@
            != "up"@ && "d"@ != "tab"@ && "d"@ != "l"@ && "d"@ != "backtab"@ && "d"@ != "h"@ && "d"@
            != "r"@,
        "l"@ != "q"@ && "l"@ != "ctrl-c"@ && "l"@ != "j"@ && "l"@ != "down"@ && "l"@ != "k"@ && "l"@
            != "up"@,
        "h"@ != "q"@ && "h"@ != "ctrl-c"@ && "h"@ != "j"@ && "h"@ != "down"@ && "h"@ != "k"@ && "h"@
            != "up"@ && "h"@ != "tab"@ && "h"@ != "l"@,
        "tab"@ != "q"@ && "tab"@ != "ctrl-c"@ && "tab"@ != "j"@ && "tab"@ != "down"@ && "tab"@
            != "k"@ && "tab"@ != "up"@,
        "backtab"@ != "q"@ && "backtab"@ != "ctrl-c"@ && "backtab"@ != "j"@ && "backtab"@ != "down"@
            && "backtab"@ != "k"@ && "backtab"@ != "up"@ && "backtab"@ != "tab"@ && "backtab"@
            != "l"@,
        "pageup"@ != "q"@ && "pageup"@ != "ctrl-c"@ && "pageup"@ != "j"@ && "pageup"@ != "down"@
            && "pageup"@ != "k"@ && "pageup"@ != "up"@ && "pageup"@ != "tab"@ && "pageup"@ != "l"@
            && "pageup"@ != "backtab"@ && "pageup"@ != "h"@ && "pageup"@ != "r"@ && "pageup"@ != "d"@,
        "pagedown"@ != "q"@ && "pagedown"@ != "ctrl-c"@ && "pagedown"@ != "j"@ && "pagedown"@
            != "down"@ && "pagedown"@ != "k"@ && "pagedown"@ != "up"@ && "pagedown"@ != "tab"@
            && "pagedown"@ != "l"@ && "pagedown"@ != "backtab"@ && "pagedown"@ != "h"@
            && "pagedown"@ != "r"@ && "pagedown"@ != "d"@ && "pagedown"@ != "pageup"@,
        "end"@ != "q"@ && "end"@ != "ctrl-c"@ && "end"@ != "j"@ && "end"@ != "down"@ && "end"@
            != "k"@ && "end"@ != "up"@ && "end"@ != "tab"@ && "end"@ != "l"@ && "end"@ != "backtab"@
            && "end"@ != "h"@ && "end"@ != "r"@ && "end"@ != "d"@ && "end"@ != "pageup"@ && "end"@
            != "pagedown"@,
        "n"@ != "y"@ && "esc"@ != "y"@ && "q"@ != "y"@,
{
    reveal_strlit("q");
    reveal_strlit("ctrl-c");
    reveal_strlit("j");
    reveal_strlit("down");
    reveal_strlit("k");
    reveal_strlit("up");
    reveal_strlit("tab");
    reveal_strlit("l");
    reveal_strlit("backtab");
    reveal_strlit("h");
    reveal_strlit("r");
    reveal_strlit("d");
    reveal_strlit("pageup");
    reveal_strlit("pagedown");
    reveal_strlit("end");
    reveal_strlit("y");
    reveal_strlit("n");
    reveal_strlit("esc");
    assert("q"@.len() == 1 && "q"@[0] == 'q');
    assert("ctrl-c"@.len() == 6 && "ctrl-c"@[0] == 'c');
    assert("j"@.len() == 1 && "j"@[0] == 'j');
    assert("down"@.len() == 4 && "up"@.len() == 2 && "tab"@.len() == 3 && "backtab"@.len() == 7);
    assert("k"@.len() == 1 && "k"@[0] == 'k');
    assert("l"@.len() == 1 && "l"@[0] == 'l');
    assert("h"@.len() == 1 && "h"@[0] == 'h');
    assert("r"@.len() == 1 && "r"@[0] == 'r');
    assert("d"@.len() == 1 && "d"@[0] == 'd');
    assert("pageup"@.len() == 6 && "pageup"@[0] == 'p' && "pagedown"@.len() == 8);
    assert("tab"@[0] == 't' && "end"@.len() == 3 && "end"@[0] == 'e');
    assert("y"@.len() == 1 && "y"@[0] == 'y');
    assert("n"@.len() == 1 && "n"@[0] == 'n');
    assert("esc"@.len() == 3);
}

/// `j` and the down key select the session below, `k` and the up key the one above; at the ends of
/// the list the selection stays. A new selection forgets the old one's detail and scrolls to the
/// newest events, and the server is asked anew.
pub proof fn arrows_move_the_selection(app: App, at: int, code: Seq<char>)
    requires
        app.confirm_delete is None,
        selected_place(app.sessions@, app.selected_sid) == Some(at),
        code == "j"@ || code == "down"@ || code == "k"@ || code == "up"@,
    ensures
        ({
            let (after, action) = after_key(app, code);
            let len = app.sessions@.len();
            let to = if code == "j"@ || code == "down"@ {
                if at + 1 < len {
                    at + 1
                } else {
                    len - 1
                }
            } else {
                if at > 0 {
                    at - 1
                } else {
                    0
                }
            };
            &&& action is Refresh
            &&& after.sessions == app.sessions
            &&& after.selected_sid is Some
            &&& after.selected_sid->0@ == app.sessions@[to].session_id@
            &&& app.sessions@[to].session_id@ != app.selected_sid->0@ ==> after.detail is None
                && after.history_scroll == 0
            &&& app.sessions@[to].session_id@ == app.selected_sid->0@ ==> after == app
        }),
{
    lemma_keys();
    sessions_are_found_by_their_id(app.sessions@, app.selected_sid->0@);
}

/// The selection moves by as many sessions as it is told to, down or up, and stops at the first and
/// at the last; where nothing is selected it moves from the first. What is shown of a session goes
/// when another one is selected.
pub proof fn the_selection_moves_by_as_many_as_told(app: App, at: int, delta: int)
    requires
        app.sessions@.len() > 0,
        selected_place(app.sessions@, app.selected_sid) == Some(at) || (selected_place(
            app.sessions@,
            app.selected_sid,
        ) is None && at == 0),
        0 <= at < app.sessions@.len(),
    ensures
        ({
            let after = moved(app, delta);
            let last = app.sessions@.len() - 1;
            let sid = if at + delta < 0 {
                app.sessions@[0].session_id
            } else if at + delta > last {
                app.sessions@[last].session_id
            } else {
                app.sessions@[at + delta].session_id
            };
            &&& after.selected_sid matches Some(now) && now@ == sid@
            &&& app.selected_sid is Some && app.selected_sid->0@ == sid@ ==> after == app
            &&& app.selected_sid is None || app.selected_sid->0@ != sid@ ==> after == (App {
                selected_sid: Some(sid),
                detail: None,
                history_scroll: 0,
                ..app
            })
        }),
{
}

/// Without sessions nothing is selected.
pub proof fn nothing_is_selected_of_nothing(app: App, delta: int)
    requires
        app.sessions@.len() == 0,
    ensures
        moved(app, delta) == (App { selected_sid: None, ..app }),
{
}

/// A key that means nothing does nothing.
pub proof fn other_keys_do_nothing(app: App, code: Seq<char>)
    requires
        app.confirm_delete is Some ==> code != "y"@ && code != "n"@ && code != "esc"@ && code
            != "q"@,
        app.confirm_delete is None ==> {
            &&& code != "q"@ && code != "ctrl-c"@ && code != "r"@ && code != "d"@
            &&& code != "j"@ && code != "down"@ && code != "k"@ && code != "up"@
            &&& code != "tab"@ && code != "l"@ && code != "backtab"@ && code != "h"@
            &&& code != "pageup"@ && code != "pagedown"@ && code != "end"@
        },
    ensures
        after_key(app, code) == (app, Action::Nothing),
{
}

/// A page of the history has ten events: the page keys scroll by ten, not beyond the oldest event
/// nor below the newest, and the end key goes to the newest. Nothing else changes.
pub proof fn pages_scroll_by_ten(app: App)
    requires
        app.confirm_delete is None,
        history_len(app) <= usize::MAX,
    ensures
        ({
            let last = if history_len(app) == 0 {
                0
            } else {
                history_len(app) - 1
            };
            let up = after_key(app, "pageup"@);
            let down = after_key(app, "pagedown"@);
            let end = after_key(app, "end"@);
            &&& up.0 == (App { history_scroll: up.0.history_scroll, ..app }) && up.1 is Nothing
            &&& down.0 == (App { history_scroll: down.0.history_scroll, ..app }) && down.1 is Nothing
            &&& end.0 == (App { history_scroll: 0, ..app }) && end.1 is Nothing
            &&& up.0.history_scroll == if app.history_scroll + 10 <= last {
                app.history_scroll + 10
            } else {
                last
            }
            &&& down.0.history_scroll == if app.history_scroll >= 10 {
                app.history_scroll - 10
            } else {
                0
            }
        }),
{
    lemma_keys();
}

/// `q` and control-C quit, `r` asks the server anew, `d` asks whether to delete the selected
/// session, and only then `y` deletes it, while `n`, escape and `q` take the question back.
pub proof fn keys_do_what_the_footer_says(app: App, at: int, sid: String)
    ensures
        app.confirm_delete is None ==> after_key(app, "q"@) == (
            App { should_quit: true, ..app },
            Action::Nothing,
        ),
        app.confirm_delete is None ==> after_key(app, "ctrl-c"@) == (
            App { should_quit: true, ..app },
            Action::Nothing,
        ),
        app.confirm_delete is None ==> after_key(app, "r"@) == (app, Action::Refresh),
        app.confirm_delete is None && selected_place(app.sessions@, app.selected_sid) == Some(at)
            ==> after_key(app, "d"@) == (
            App { confirm_delete: Some(app.sessions@[at].session_id), ..app },
            Action::Nothing,
        ),
        app.confirm_delete is None && selected_place(app.sessions@, app.selected_sid) is None
            ==> after_key(app, "d"@) == (app, Action::Nothing),
        app.confirm_delete == Some(sid) ==> after_key(app, "y"@) == (
            App { confirm_delete: None, ..app },
            Action::DeleteSession(sid),
        ),
        app.confirm_delete == Some(sid) ==> after_key(app, "n"@) == (
            App { confirm_delete: None, ..app },
            Action::Nothing,
        ) && after_key(app, "esc"@) == after_key(app, "n"@) && after_key(app, "q"@) == after_key(
            app,
            "n"@,
        ),
{
    lemma_keys();
}

/// The panes go round: the overview, the history and, where there is a tunnel, the tunnel.
pub proof fn panes_follow_one_another(tunnel: bool)
    ensures
        tab_beside(Tab::Overview, tunnel, true) == Tab::History,
        tab_beside(Tab::History, false, true) == Tab::Overview,
        tab_beside(Tab::History, true, true) == Tab::Tunnel,
        tab_beside(Tab::Tunnel, true, true) == Tab::Overview,
        tab_beside(Tab::History, tunnel, false) == Tab::Overview,
        tab_beside(Tab::Tunnel, true, false) == Tab::History,
        tab_beside(Tab::Overview, true, false) == Tab::Tunnel,
        tab_beside(Tab::Overview, false, false) == Tab::History,
{
    assert(tabs_of(true).len() == 3 && tabs_of(false).len() == 2);
    assert(1int % 3 == 1 && 2int % 3 == 2 && 3int % 3 == 0 && 4int % 3 == 1 && 1int % 2 == 1 && 2int
        % 2 == 0);
}

/// The tab key goes to the next pane and the back-tab key to the one before.
pub proof fn tabs_go_round_the_panes(app: App)
    requires
        app.confirm_delete is None,
    ensures
        after_key(app, "tab"@) == (
            App { tab: tab_beside(app.tab, app.tunnel is Some, true), ..app },
            Action::Nothing,
        ),
        after_key(app, "backtab"@) == (
            App { tab: tab_beside(app.tab, app.tunnel is Some, false), ..app },
            Action::Nothing,
        ),
        after_key(app, "l"@) == after_key(app, "tab"@),
        after_key(app, "h"@) == after_key(app, "backtab"@),
{
    lemma_keys();
}

/// An event table shows the events before the `scroll` newest, as many as there are lines between
/// the frame and under the heading, which take three; the newest shown stands last.
pub proof fn the_window_shows_what_fits(total: nat, scroll: nat, height: nat)
    ensures
        ({
            let (start, end) = window_of(total, scroll, height);
            let room = if height > 3 {
                height - 3
            } else {
                0
            };
            &&& end == if scroll < total {
                total - scroll
            } else {
                0
            }
            &&& start <= end
            &&& end - start == if end < room {
                end as int
            } else {
                room
            }
        }),
{
}

/// A text fills its column from the left or from the right, with blanks on the other side; one that
/// is too long stays whole.
pub proof fn columns_are_filled_with_blanks(s: Seq<char>, width: nat, i: int)
    ensures
        s.len() >= width ==> left_in(s, width) == s && right_in(s, width) == s,
        s.len() < width ==> left_in(s, width).len() == width && right_in(s, width).len() == width,
        0 <= i < s.len() ==> left_in(s, width)[i] == s[i] && right_in(
            s,
            width,
        )[right_in(s, width).len() - s.len() + i] == s[i],
        s.len() <= i < width ==> left_in(s, width)[i] == ' ',
        0 <= i < width - s.len() ==> right_in(s, width)[i] == ' ',
{
    if s.len() >= width {
        assert(left_in(s, width) =~= s);
        assert(right_in(s, width) =~= s);
    }
}

/// The age of an event is the whole seconds from it to now, and nothing for one that lies ahead.
pub proof fn events_age_in_whole_seconds(e: HistoryEvent, now: u64, secs: nat)
    requires
        now * 1000 <= u64::MAX,
    ensures
        now * 1000 >= e.unix_ms && 1000 * secs <= now * 1000 - e.unix_ms < 1000 * (secs + 1)
            ==> age_of(e, now) == secs,
        now * 1000 < e.unix_ms ==> age_of(e, now) == 0,
{
}

/// An event's row: its number, its age, its method, its endpoint, its image, its status in green or
/// from 400 on in red, and how long it took.
pub proof fn rows_show_their_event(e: HistoryEvent, now: u64)
    ensures
        ({
            let row = event_row_of(e, now);
            &&& row.len() == 7
            &&& row[0].text == right_in(decimal(e.seq as nat), 5)
            &&& row[1].text == right_in(age_text(age_of(e, now)), 4) + " ago"@
            &&& row[2].text == left_in(e.method@, 6)
            &&& row[3].text == e.endpoint@
            &&& e.image_ref matches Some(r) ==> row[4].text == r@
            &&& e.image_ref is None ==> row[4].text == "—"@
            &&& row[5].text == decimal(e.status as nat)
            &&& row[5].look == if e.status >= 400 {
                Look::Red
            } else {
                Look::Green
            }
            &&& row[6].text == decimal(e.duration_ms as nat) + "ms"@
        }),
{
}

/// A session's line: its short id, and its jobs where some run, one or many, else how long it has
/// been idle.
pub proof fn lines_show_their_session(s: SessionSummary)
    ensures
        ({
            let line = session_line_of(s);
            &&& line.len() == 2
            &&& line[0].text == left_in(short_text(s.session_id@), 9) + " "@
            &&& s.running_jobs == 0 ==> line[1].text == "idle "@ + age_text(s.idle_secs)
            &&& s.running_jobs == 1 ==> line[1].text == "● 1 job"@
            &&& s.running_jobs > 1 ==> line[1].text == "● "@ + decimal(s.running_jobs as nat)
                + " jobs"@
        }),
{
    reveal_strlit("● ");
    reveal_strlit(" job");
    reveal_strlit(" jobs");
    reveal_strlit("s");
    reveal_strlit("● 1 job");
    let none = Seq::<char>::empty();
    assert("● "@ + decimal(1) + " job"@ + none =~= "● 1 job"@);
    assert("● "@ + decimal(s.running_jobs as nat) + " job"@ + "s"@ =~= "● "@ + decimal(
        s.running_jobs as nat,
    ) + " jobs"@);
}

/// The lines on a session: its id, how long ago it was made and how long it is idle, its images, the
/// bytes it caches, its running jobs, and the image in use.
pub proof fn status_shows_the_session(s: SessionSummary, now: u64)
    ensures
        ({
            let lines = status_lines_of(s, now);
            let age = if now > s.created_unix {
                (now - s.created_unix) as u64
            } else {
                0u64
            };
            &&& lines.len() == 4
            &&& lines[0] == "session   "@ + s.session_id@
            &&& lines[1] == "created   "@ + age_text(age) + " ago     idle "@ + age_text(
                s.idle_secs,
            )
            &&& lines[2] == "images    "@ + decimal(s.image_count as nat) + "     cache "@
                + bytes_text(s.cache_bytes) + "     running jobs "@ + decimal(
                s.running_jobs as nat,
            )
            &&& s.active_ref matches Some(r) ==> lines[3] == "active    "@ + r@
            &&& s.active_ref is None ==> lines[3] == "active    "@ + "—"@
        }),
{
}

/// The name of a file is what stands behind the last slash of its path.
pub proof fn names_stand_behind_the_last_slash(before: Seq<char>, name: Seq<char>)
    requires
        forall|i: int| 0 <= i < name.len() ==> #[trigger] name[i] != '/',
    ensures
        base_of(before + "/"@ + name) == name,
        base_of(name) == name,
{
    reveal_strlit("/");
    let path = before + "/"@ + name;
    let n = before.len() as int;
    assert(path[n] == '/');
    assert forall|j: int| n < j < path.len() implies #[trigger] path[j] != '/' by {
        assert(path[j] == name[j - n - 1]);
    }
    lemma_last_is(path, '/', n);
    lemma_last_is(name, '/', -1);
    assert(path.skip(n + 1) =~= name);
    assert(name.skip(0) =~= name);
}

/// An image's row: its name, its columns and rows, its unit and extension, and its file.
pub proof fn rows_show_their_image(img: ImageEntry)
    ensures
        ({
            let row = image_row_of(img);
            &&& row.len() == 5
            &&& row[0] == img.image_ref@
            &&& row[1] == decimal(img.width as nat) + "×"@ + decimal(img.height as nat)
            &&& img.hdu matches Some(h) ==> row[2] == decimal(h as nat)
            &&& img.hdu is None ==> row[2] == "—"@
            &&& img.extname matches Some(n) ==> row[3] == n@
            &&& img.extname is None ==> row[3] == "—"@
            &&& img.source matches Some(p) ==> row[4] == base_of(p@)
            &&& img.source is None ==> row[4] == "(derived)"@
        }),
{
}

proof fn lemma_host(host: Seq<char>, slashes: Seq<char>)
    requires
        host.len() > 0,
        host.last() != '/',
        forall|i: int| 0 <= i < slashes.len() ==> #[trigger] slashes[i] == '/',
    ensures
        without_trailing(host + slashes, '/') == host,
{
    let all = host + slashes;
    let t = without_trailing(all, '/');
    only_the_trailing_characters_go(all, '/');
    if t.len() > host.len() {
        assert(t.last() == all[t.len() - 1]);
        assert(all[t.len() - 1] == slashes[t.len() - 1 - host.len()]);
    }
    if t.len() < host.len() {
        assert(all[host.len() - 1] == host.last());
    }
    assert(t =~= host);
}

/// The server's address is what stands in a URL between `http://` and the slashes at its end; no
/// other kind of URL has one.
pub proof fn urls_name_a_host(host: Seq<char>, slashes: Seq<char>, other: Seq<char>)
    requires
        host.len() > 0,
        host.last() != '/',
        forall|i: int| 0 <= i < slashes.len() ==> #[trigger] slashes[i] == '/',
    ensures
        host_of("http://"@ + host + slashes) == Ok::<Seq<char>, Seq<char>>(host),
        !"http://"@.is_prefix_of(other) ==> host_of(other) == Err::<Seq<char>, Seq<char>>(
            "unsupported URL '"@ + other + "' (http:// only)"@,
        ),
{
    reveal_strlit("http://");
    let url = "http://"@ + host + slashes;
    assert("http://"@ =~= url.subrange(0, 7));
    assert(url.skip(7) =~= host + slashes);
    lemma_host(host, slashes);
}

/// The dashboard shows the server that its one argument names, without the slashes at its end, and
/// the one at the loopback's port 8097 where none is named.
pub proof fn the_dashboard_is_told_its_server(url: Seq<char>, slashes: Seq<char>, second: Seq<char>)
    requires
        url.len() > 0,
        url[0] != '-',
        url.last() != '/',
        !"ssh://"@.is_prefix_of(url + slashes),
        forall|i: int| 0 <= i < slashes.len() ==> #[trigger] slashes[i] == '/',
        second != "--help"@ && second != "-h"@,
    ensures
        url_of_args(Seq::empty(), None) == Ok::<Seq<char>, Seq<char>>("http://127.0.0.1:8097"@),
        url_of_args(seq![url + slashes], None) == Ok::<Seq<char>, Seq<char>>(url),
        url_of_args(seq![url + slashes, second], None) == Err::<Seq<char>, Seq<char>>(
            "unexpected argument '"@ + second + "' (try --help)"@,
        ),
{
    reveal_strlit("-");
    reveal_strlit("--help");
    reveal_strlit("-h");
    let arg = url + slashes;
    assert(arg[0] == url[0]);
    assert("--help"@[0] == '-' && "-h"@[0] == '-');
    if "-"@.is_prefix_of(arg) {
        assert(arg.subrange(0, 1)[0] == arg[0]);
    }
    lemma_host(url, slashes);
    assert(seq![arg].skip(1) =~= Seq::<Seq<char>>::empty());
    assert(seq![arg, second].skip(1) =~= seq![second]);
    reveal_with_fuel(url_of_args, 3);
}

/// An answer has its status in the second word of its first line, and its body behind the first
/// empty line; it succeeded with a status from 200 to 299.
pub proof fn answers_have_a_status_and_a_body(
    version: Seq<char>,
    status: u16,
    more: Seq<char>,
    body: Seq<char>,
    host: Seq<char>,
)
    requires
        version.len() > 0,
        forall|i: int| 0 <= i < version.len() ==> !is_space(#[trigger] version[i]),
        more.len() > 0 ==> is_space(more[0]),
        ({
            let head = version + " "@ + decimal(status as nat) + more;
            forall|i: int|
                0 <= i < head.len() ==> #[trigger] (head + "\r\n\r\n"@).subrange(i, i + 4)
                    != "\r\n\r\n"@
        }),
    ensures
        answer_of(
            (version + " "@ + decimal(status as nat) + more) + "\r\n\r\n"@ + body,
            host,
        ) == Ok::<(u16, Seq<char>), Seq<char>>((status, trimmed(body))),
{
    reveal_strlit("\r\n\r\n");
    reveal_strlit(" ");
    let none = Seq::<char>::empty();
    let digits = decimal(status as nat);
    let head = version + " "@ + digits + more;
    let gap = "\r\n\r\n"@;
    let all = head + gap + body;
    let n = head.len() as int;
    lemma_head_ends(head, body);
    assert(all.take(n) =~= head);
    assert(all.skip(n + 4) =~= body);
    decimals_spell_their_number(status as nat);
    the_second_word_is_found(none, version, " "@, digits, more);
    assert(none + version + " "@ + digits + more =~= head);
    written_numbers_are_read_back(status as nat, u16::MAX as nat);
}

/// A request succeeded with a status from 200 to 299 and with no other.
pub proof fn only_success_is_accepted(method: Seq<char>, path: Seq<char>, status: u16)
    ensures
        accepted(method, path, status) is Ok <==> 200 <= status <= 299,
        accepted(method, path, status) is Err ==> accepted(method, path, status)->Err_0 == method
            + " "@ + path + " → "@ + decimal(status as nat),
{
}

/// A round of polling asks for the health, the sessions, and of the selected session the images and
/// the history.
pub proof fn a_round_asks_for_four_paths(sid: String)
    ensures
        path_of(Step::Health, Some(sid)) == Some("/health"@),
        path_of(Step::Sessions, Some(sid)) == Some("/v2/sessions"@),
        path_of(Step::Images, Some(sid)) == Some("/v2/sessions/"@ + sid@ + "/images"@),
        path_of(Step::History, Some(sid)) == Some("/v2/sessions/"@ + sid@ + "/history"@),
        path_of(Step::Done, Some(sid)) is None,
        path_of(Step::Health, None) == Some("/health"@),
        path_of(Step::Sessions, None) == Some("/v2/sessions"@),
        path_of(Step::Images, None) is None && path_of(Step::History, None) is None,
        path_of(Step::Done, None) is None,
{
}

/// The tunnel's phase in words and colours: green where it is up, red where it failed, yellow while
/// it is being made.
pub proof fn phases_have_their_colours(n: u64, reason: String)
    ensures
        badge_of(TunnelPhase::Up).look == Look::Green && phase_text_of(TunnelPhase::Up).look
            == Look::Green,
        badge_of(TunnelPhase::Up).text == "· tunnel: up "@ && phase_text_of(TunnelPhase::Up).text
            == "up"@,
        badge_of(TunnelPhase::Connecting).look == Look::Yellow && phase_text_of(
            TunnelPhase::Connecting,
        ).look == Look::Yellow,
        badge_of(TunnelPhase::Connecting).text == "· tunnel: connecting "@ && phase_text_of(
            TunnelPhase::Connecting,
        ).text == "connecting…"@,
        badge_of((TunnelPhase::Reconnecting { backoff: n })).look == Look::Yellow && phase_text_of(
            (TunnelPhase::Reconnecting { backoff: n }),
        ).look == Look::Yellow,
        badge_of((TunnelPhase::Reconnecting { backoff: n })).text == "· tunnel: reconnecting ("@
            + decimal(n as nat) + "s) "@,
        phase_text_of((TunnelPhase::Reconnecting { backoff: n })).text
            == "reconnecting (next attempt in "@ + decimal(n as nat) + "s)"@,
        badge_of(TunnelPhase::Fatal(reason)) == (PieceView {
            text: "· tunnel: FAILED "@,
            look: Look::Red,
        }),
        phase_text_of(TunnelPhase::Fatal(reason)) == (PieceView {
            text: "FAILED: "@ + reason@,
            look: Look::Red,
        }),
{
}

/// The header names the server's URL and, where they are known, the destination of the tunnel, the
/// version and the way of reading, the milliseconds of an answer, and what failed, in red.
pub proof fn the_header_tells_of_the_server(app: App)
    ensures
        ({
            let h = header_of(app);
            let t = if app.tunnel is Some {
                1int
            } else {
                0
            };
            let v = if app.health is Some {
                1int
            } else {
                0
            };
            let l = if app.latency is Some {
                1int
            } else {
                0
            };
            let e = if app.error is Some {
                1int
            } else {
                0
            };
            &&& h.len() == 2 + 2 * t + v + l + e
            &&& h[0] == (PieceView { text: " astroburst-server "@, look: Look::Bold })
            &&& app.tunnel is Some ==> h[1].text == "@ "@ + app.tunnel->0.destination@ + " (ssh) "@
                && h.last() == badge_of(app.tunnel->0.phase)
            &&& h[1 + t].text == "· "@ + app.base_url@ + " "@
            &&& app.health matches Some(x) ==> h[2 + t].text == "· v"@ + x.version@ + " · io:"@
                + x.io_mode@ + " "@
            &&& app.latency matches Some(ms) ==> h[2 + t + v].text == "· "@ + decimal(ms as nat)
                + "ms "@
            &&& app.error matches Some(x) ==> h[2 + t + v + l] == (PieceView {
                text: "· "@ + x@ + " "@,
                look: Look::Red,
            })
        }),
{
}

/// The title of an event table tells how many events there are and how far it is scrolled back.
pub proof fn titles_count_the_events(label: Seq<char>, total: nat, scroll: nat)
    ensures
        events_title_of(label, total, 0) == " "@ + label + " ("@ + decimal(total) + " events) "@,
        scroll > 0 ==> events_title_of(label, total, scroll) == " "@ + label + " ("@ + decimal(total)
            + " events, ↑"@ + decimal(scroll) + ") "@,
{
}

/// The overview shows the images of its own session alone.
pub proof fn images_are_those_of_the_session(d: Detail, sid: Seq<char>)
    ensures
        d.session_id@ == sid ==> overview_images_of(Some(d), sid) == d.images@,
        d.session_id@ != sid ==> overview_images_of(Some(d), sid).len() == 0,
        overview_images_of(None, sid).len() == 0,
{
}

/// While a deletion waits to be confirmed the footer names the keys that answer; else those of the
/// dashboard.
pub proof fn the_footer_names_the_keys(tunnel: bool)
    ensures
        footer_of(true, tunnel) == " y confirm delete · n cancel"@,
        footer_of(false, false)
            == " j/k select · tab pane · d delete · r refresh · PgUp/PgDn scroll · q quit"@,
        footer_of(false, true) == footer_of(false, false) + " · tab panes incl. Tunnel"@,
{
    assert(footer_of(false, false)
        =~= " j/k select · tab pane · d delete · r refresh · PgUp/PgDn scroll · q quit"@);
}

/// An event table has as many rows as events fit, each showing its event, and its headings name the
/// columns.
pub proof fn tables_show_their_events(
    t: EventTable,
    events: Seq<HistoryEvent>,
    scroll: nat,
    label: Seq<char>,
    ref_heading: Seq<char>,
    height: nat,
    now: u64,
    i: int,
)
    requires
        is_event_table(t, events, scroll, label, ref_heading, height, now),
    ensures
        t.headings@.len() == 7 && t.headings@[0]@ == "seq"@ && t.headings@[1]@ == "when"@
            && t.headings@[2]@ == "meth"@ && t.headings@[3]@ == "endpoint"@ && t.headings@[4]@
            == ref_heading && t.headings@[5]@ == "st"@ && t.headings@[6]@ == "took"@,
        t.title@ == events_title_of(label, events.len(), scroll),
        t.rows@.len() == if scroll >= events.len() || height <= 3 {
            0
        } else if events.len() - scroll < height - 3 {
            events.len() - scroll
        } else {
            height - 3
        },
        0 <= i < t.rows@.len() ==> pieces(t.rows@[i]@) == event_row_of(
            events[events.len() - scroll - t.rows@.len() + i],
            now,
        ),
{
    let h = heading_texts(t.headings@);
    assert(h.len() == 7);
    assert(h[0] == t.headings@[0]@ && h[1] == t.headings@[1]@ && h[2] == t.headings@[2]@ && h[6]
        == t.headings@[6]@ && h[3] == t.headings@[3]@ && h[4] == t.headings@[4]@ && h[5]
        == t.headings@[5]@);
    let rows = lines(t.rows@);
    assert(rows.len() == t.rows@.len());
    if 0 <= i < t.rows@.len() {
        assert(rows[i] == pieces(t.rows@[i]@));
    }
}

/// The keys of the terminal have the names that the dashboard takes.
pub proof fn keys_have_their_names()
    ensures
        key_name(KeyPress::Up) == "up"@ && key_name(KeyPress::Down) == "down"@,
        key_name(KeyPress::Tab) == "tab"@ && key_name(KeyPress::BackTab) == "backtab"@,
        key_name(KeyPress::PageUp) == "pageup"@ && key_name(KeyPress::PageDown) == "pagedown"@,
        key_name(KeyPress::End) == "end"@ && key_name(KeyPress::Esc) == "esc"@,
        key_name(KeyPress::Other).len() == 0,
{
}

/// The panes have their titles.
pub proof fn panes_have_their_titles()
    ensures
        title_of(Tab::Overview) == "Overview"@ && title_of(Tab::History) == "History"@ && title_of(
            Tab::Tunnel,
        ) == "Tunnel"@ && title_of(Tab::Global) == "Global"@,
        tabs_of(true) == seq![Tab::Overview, Tab::History, Tab::Tunnel],
        tabs_of(false) == seq![Tab::Overview, Tab::History],
{
}

/// The selection has a place in the list where its session is listed, the first of its id, and the
/// history that is shown is that of the detail.
pub proof fn the_selection_has_a_place(sessions: Seq<SessionSummary>, sid: String, d: Detail)
    ensures
        selected_place(sessions, None) is None,
        selected_place(sessions, Some(sid)) matches Some(i) ==> 0 <= i < sessions.len()
            && sessions[i].session_id@ == sid@,
        selected_place(sessions, Some(sid)) is None ==> forall|i: int|
            0 <= i < sessions.len() ==> (#[trigger] sessions[i]).session_id@ != sid@,
        history_of(Some(d)) == d.history@,
        history_of(None).len() == 0,
{
    sessions_are_found_by_their_id(sessions, sid@);
}

/// What is no answer of a server is refused with the server's name: a text in which no head ends,
/// and a head whose second word is no status.
pub proof fn other_answers_are_refused(
    text: Seq<char>,
    head: Seq<char>,
    body: Seq<char>,
    host: Seq<char>,
)
    requires
        forall|i: int|
            0 <= i && i + 4 <= text.len() ==> #[trigger] text.subrange(i, i + 4) != "\r\n\r\n"@,
        forall|i: int|
            0 <= i < head.len() ==> #[trigger] (head + "\r\n\r\n"@).subrange(i, i + 4)
                != "\r\n\r\n"@,
        parsed_unsigned(second_word(head), 65535) is None,
    ensures
        answer_of(text, host) == Err::<(u16, Seq<char>), Seq<char>>(
            "malformed HTTP response from "@ + host,
        ),
        answer_of(head + "\r\n\r\n"@ + body, host) == Err::<(u16, Seq<char>), Seq<char>>(
            "unparseable status line from "@ + host,
        ),
{
    reveal_strlit("\r\n\r\n");
    let gap = "\r\n\r\n"@;
    a_part_is_found_where_it_first_stands(text, gap, 0);
    lemma_head_ends(head, body);
    assert((head + gap + body).take(head.len() as int) =~= head);
}

proof fn lemma_head_ends(head: Seq<char>, body: Seq<char>)
    requires
        forall|i: int|
            0 <= i < head.len() ==> #[trigger] (head + "\r\n\r\n"@).subrange(i, i + 4)
                != "\r\n\r\n"@,
    ensures
        place_of(head + "\r\n\r\n"@ + body, "\r\n\r\n"@, 0) == head.len(),
{
    reveal_strlit("\r\n\r\n");
    let gap = "\r\n\r\n"@;
    let all = head + gap + body;
    let n = head.len() as int;
    let k = place_of(all, gap, 0);
    a_part_is_found_where_it_first_stands(all, gap, 0);
    assert(all.subrange(n, n + 4) =~= gap);
    assert forall|i: int| 0 <= i < n implies #[trigger] all.subrange(i, i + 4) != gap by {
        assert(all.subrange(i, i + 4) =~= (head + gap).subrange(i, i + 4));
    }
    if k < 0 || k > n {
        assert(all.subrange(n, n + gap.len()) != gap);
    }
    if 0 <= k < n {
        assert(all.subrange(k, k + 4) == gap);
    }
}

/// A URL without a host is refused, and so are, of the dashboard's arguments, a target for ssh and
/// a flag that it does not know.
pub proof fn other_servers_are_refused(slashes: Seq<char>, word: Seq<char>)
    requires
        forall|i: int| 0 <= i < slashes.len() ==> #[trigger] slashes[i] == '/',
    ensures
        host_of("http://"@ + slashes) == Err::<Seq<char>, Seq<char>>(
            "empty host in '"@ + ("http://"@ + slashes) + "'"@,
        ),
        "ssh://"@.is_prefix_of(word) ==> url_of_args(seq![word], None) == Err::<
            Seq<char>,
            Seq<char>,
        >("for ssh targets use: astroburst-server connect "@ + word + " --tui"@),
        word.len() > 0 && word[0] == '-' && word != "--help"@ && word != "-h"@ ==> url_of_args(
            seq![word],
            None,
        ) == Err::<Seq<char>, Seq<char>>("unexpected argument '"@ + word + "' (try --help)"@),
{
    reveal_strlit("http://");
    reveal_strlit("ssh://");
    reveal_strlit("-");
    reveal_strlit("--help");
    reveal_strlit("-h");
    let url = "http://"@ + slashes;
    assert("http://"@ =~= url.subrange(0, 7));
    assert(url.skip(7) =~= slashes);
    only_the_trailing_characters_go(slashes, '/');
    assert(without_trailing(slashes, '/').len() == 0);
    if "ssh://"@.is_prefix_of(word) {
        assert(word.subrange(0, 6)[0] == word[0]);
        assert("ssh://"@[0] == 's' && "--help"@[0] == '-' && "-h"@[0] == '-' && "-"@[0] == '-');
        if "-"@.is_prefix_of(word) {
            assert(word.subrange(0, 1)[0] == word[0]);
        }
    }
    if word.len() > 0 && word[0] == '-' {
        assert("-"@ =~= word.subrange(0, 1));
    }
}

/// A session is listed if and only if a line of the list has its id, and what is known of it before
/// it was asked for is nothing.
pub proof fn rounds_start_with_nothing(
    sessions: Seq<SessionSummary>,
    i: int,
    sid: Seq<char>,
    d: Detail,
    s: Snapshot,
)
    ensures
        0 <= i < sessions.len() ==> is_listed(sessions, sessions[i].session_id@),
        sessions.len() == 0 ==> !is_listed(sessions, sid),
        is_listed(sessions, sid) <==> exists|j: int|
            0 <= j < sessions.len() && (#[trigger] sessions[j]).session_id@ == sid,
        is_blank_detail(d, sid) ==> d.session_id@ == sid && d.images@.len() == 0 && d.history@.len()
            == 0,
        is_blank(s) ==> s.health is None && s.latency is None && s.error is None && s.detail is None
            && s.sessions@.len() == 0 && s.global_activity@.len() == 0,
{
}

} // verus!
