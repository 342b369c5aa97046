//! What the dashboard shows: the texts of its parts with their looks, and where they go. Drawing
//! them is the terminal library's.

use vstd::prelude::*;
use vstd::string::*;
use crate::server::connect::around;
use crate::server::tui::app::{
    selected_place, tabs_of, App, Detail, HistoryEvent, ImageEntry, SessionSummary, Tab,
    TunnelPhase, TunnelState,
};
use crate::server::tui::format::{
    age_text, bytes_text, cuts_cleanly, fmt_age, fmt_bytes, short_id, short_text,
};
use crate::text::{decimal, format_unsigned, last_of, rsplit_once, same, texts};

verus! {

/// How a piece of text looks.
#[derive(Debug, Clone, Copy, PartialEq, Eq, Structural)]
pub enum Look {
    Plain,
    Bold,
    Red,
    Green,
    Yellow,
    Gray,
}

/// A piece of text in one look.
#[derive(Debug)]
pub struct Piece {
    pub text: String,
    pub look: Look,
}

/// What a `Piece` says.
pub struct PieceView {
    pub text: Seq<char>,
    pub look: Look,
}

impl View for Piece {
    type V = PieceView;

    open spec fn view(&self) -> PieceView {
        PieceView { text: self.text@, look: self.look }
    }
}

/// What each piece says.
pub open spec fn pieces(v: Seq<Piece>) -> Seq<PieceView> {
    Seq::new(v.len(), |i: int| v[i]@)
}

/// A piece of that text and look.
pub open spec fn shown(text: Seq<char>, look: Look) -> PieceView {
    PieceView { text, look }
}

/// Spaces.
pub open spec fn blanks(n: int) -> Seq<char> {
    Seq::new(
        if n > 0 {
            n as nat
        } else {
            0
        },
        |i: int| ' ',
    )
}

/// A text with spaces behind it, up to a width.
pub open spec fn left_in(s: Seq<char>, width: nat) -> Seq<char> {
    s + blanks(width - s.len())
}

/// A text with spaces before it, up to a width.
pub open spec fn right_in(s: Seq<char>, width: nat) -> Seq<char> {
    blanks(width - s.len()) + s
}

fn spaces(n: usize) -> (s: String)
    ensures
        s@ == blanks(n as int),
{
    let mut s = String::new();
    let mut i: usize = 0;
    assert(s@ =~= blanks(0));
    while i < n
        invariant
            i <= n,
            s@ == blanks(i as int),
        decreases n - i,
    {
        s.push(' ');
        i = i + 1;
        assert(s@ =~= blanks(i as int));
    }
    s
}

fn pad_right(s: &str, width: usize) -> (r: String)
    ensures
        r@ == left_in(s@, width as nat),
{
    let n: usize = s.unicode_len();
    let mut r = s.to_owned();
    if n < width {
        let fill = spaces(width - n);
        r.append(fill.as_str());
    } else {
        assert(s@ + blanks(width - s@.len()) =~= s@);
    }
    r
}

fn pad_left(s: &str, width: usize) -> (r: String)
    ensures
        r@ == right_in(s@, width as nat),
{
    let n: usize = s.unicode_len();
    if n < width {
        let mut r = spaces(width - n);
        r.append(s);
        r
    } else {
        assert(blanks(width - s@.len()) + s@ =~= s@);
        s.to_owned()
    }
}

/// The title of a pane.
pub open spec fn title_of(tab: Tab) -> Seq<char> {
    match tab {
        Tab::Overview => "Overview"@,
        Tab::History => "History"@,
        Tab::Global => "Global"@,
        Tab::Tunnel => "Tunnel"@,
    }
}

/// The title of a pane.
pub fn tab_title(tab: Tab) -> (s: &'static str)
    ensures
        s@ == title_of(tab),
{
    match tab {
        Tab::Overview => "Overview",
        Tab::History => "History",
        Tab::Global => "Global",
        Tab::Tunnel => "Tunnel",
    }
}

/// The tunnel's badge in the header.
pub open spec fn badge_of(phase: TunnelPhase) -> PieceView {
    match phase {
        TunnelPhase::Connecting => shown("· tunnel: connecting "@, Look::Yellow),
        TunnelPhase::Up => shown("· tunnel: up "@, Look::Green),
        TunnelPhase::Reconnecting { backoff } => shown(
            "· tunnel: reconnecting ("@ + decimal(backoff as nat) + "s) "@,
            Look::Yellow,
        ),
        TunnelPhase::Fatal(_) => shown("· tunnel: FAILED "@, Look::Red),
    }
}

/// The tunnel's badge in the header.
pub fn tunnel_badge(t: &TunnelState) -> (p: Piece)
    ensures
        p@ == badge_of(t.phase),
{
    match &t.phase {
        TunnelPhase::Connecting => Piece {
            text: "· tunnel: connecting ".to_owned(),
            look: Look::Yellow,
        },
        TunnelPhase::Up => Piece { text: "· tunnel: up ".to_owned(), look: Look::Green },
        TunnelPhase::Reconnecting { backoff } => {
            let digits = format_unsigned(*backoff);
            Piece {
                text: around("· tunnel: reconnecting (", digits.as_str(), "s) "),
                look: Look::Yellow,
            }
        },
        TunnelPhase::Fatal(_) => Piece { text: "· tunnel: FAILED ".to_owned(), look: Look::Red },
    }
}

/// The header: the server, where it is, its health, how fast it answers, what failed, the tunnel.
pub open spec fn header_of(app: App) -> Seq<PieceView> {
    seq![shown(" astroburst-server "@, Look::Bold)] + (match app.tunnel {
        Some(t) => seq![shown("@ "@ + t.destination@ + " (ssh) "@, Look::Plain)],
        None => Seq::empty(),
    }) + seq![shown("· "@ + app.base_url@ + " "@, Look::Plain)] + (match app.health {
        Some(h) => seq![
            shown("· v"@ + h.version@ + " · io:"@ + h.io_mode@ + " "@, Look::Plain),
        ],
        None => Seq::empty(),
    }) + (match app.latency {
        Some(ms) => seq![shown("· "@ + decimal(ms as nat) + "ms "@, Look::Plain)],
        None => Seq::empty(),
    }) + (match app.error {
        Some(e) => seq![shown("· "@ + e@ + " "@, Look::Red)],
        None => Seq::empty(),
    }) + (match app.tunnel {
        Some(t) => seq![badge_of(t.phase)],
        None => Seq::empty(),
    })
}

/// The pieces of the header.
pub fn header_pieces(app: &App) -> (v: Vec<Piece>)
    ensures
        pieces(v@) == header_of(*app),
{
    let mut v: Vec<Piece> = Vec::new();
    v.push(Piece { text: " astroburst-server ".to_owned(), look: Look::Bold });
    if let Some(t) = &app.tunnel {
        v.push(
            Piece { text: around("@ ", t.destination.as_str(), " (ssh) "), look: Look::Plain },
        );
    }
    v.push(Piece { text: around("· ", app.base_url.as_str(), " "), look: Look::Plain });
    if let Some(h) = &app.health {
        let mut text = around("· v", h.version.as_str(), " · io:");
        text.append(h.io_mode.as_str());
        text.append(" ");
        v.push(Piece { text, look: Look::Plain });
    }
    if let Some(ms) = app.latency {
        let digits = format_unsigned(ms);
        v.push(Piece { text: around("· ", digits.as_str(), "ms "), look: Look::Plain });
    }
    if let Some(e) = &app.error {
        v.push(Piece { text: around("· ", e.as_str(), " "), look: Look::Red });
    }
    if let Some(t) = &app.tunnel {
        v.push(tunnel_badge(t));
    }
    assert(pieces(v@) =~= header_of(*app));
    v
}

/// A session's line in the list: its short id, then its running jobs or how long it is idle.
pub open spec fn session_line_of(s: SessionSummary) -> Seq<PieceView> {
    seq![
        shown(left_in(short_text(s.session_id@), 9) + " "@, Look::Plain),
        if s.running_jobs > 0 {
            shown(
                "● "@ + decimal(s.running_jobs as nat) + " job"@ + if s.running_jobs == 1 {
                    Seq::empty()
                } else {
                    "s"@
                },
                Look::Yellow,
            )
        } else {
            shown("idle "@ + age_text(s.idle_secs), Look::Gray)
        },
    ]
}

/// The pieces of a session's line in the list.
pub fn session_line(s: &SessionSummary) -> (v: Vec<Piece>)
    requires
        cuts_cleanly(s.session_id@),
    ensures
        pieces(v@) == session_line_of(*s),
{
    let mut v: Vec<Piece> = Vec::new();
    let id = short_id(s.session_id.as_str());
    let mut name = pad_right(id.as_str(), 9);
    name.append(" ");
    v.push(Piece { text: name, look: Look::Plain });
    if s.running_jobs > 0 {
        let digits = format_unsigned(s.running_jobs as u64);
        let mut text = around("● ", digits.as_str(), " job");
        if s.running_jobs != 1 {
            text.append("s");
        } else {
            assert(text@ + Seq::<char>::empty() =~= text@);
        }
        v.push(Piece { text, look: Look::Yellow });
    } else {
        let age = fmt_age(s.idle_secs);
        let mut text = "idle ".to_owned();
        text.append(age.as_str());
        v.push(Piece { text, look: Look::Gray });
    }
    assert(pieces(v@) =~= session_line_of(*s));
    v
}

/// The pieces of each line.
pub open spec fn lines(rows: Seq<Vec<Piece>>) -> Seq<Seq<PieceView>> {
    Seq::new(rows.len(), |i: int| pieces(rows[i]@))
}

/// The lines of the list of sessions.
pub fn session_lines(app: &App) -> (v: Vec<Vec<Piece>>)
    requires
        forall|i: int|
            0 <= i < app.sessions@.len() ==> cuts_cleanly((#[trigger] app.sessions@[i]).session_id@),
    ensures
        lines(v@) == Seq::new(app.sessions@.len(), |i: int| session_line_of(app.sessions@[i])),
{
    let mut v: Vec<Vec<Piece>> = Vec::new();
    let mut i: usize = 0;
    while i < app.sessions.len()
        invariant
            i <= app.sessions@.len(),
            forall|j: int|
                0 <= j < app.sessions@.len() ==> cuts_cleanly(
                    (#[trigger] app.sessions@[j]).session_id@,
                ),
            v@.len() == i,
            forall|j: int|
                0 <= j < i ==> pieces((#[trigger] v@[j])@) == session_line_of(app.sessions@[j]),
        decreases app.sessions.len() - i,
    {
        v.push(session_line(&app.sessions[i]));
        i = i + 1;
    }
    assert(lines(v@) =~= Seq::new(
        app.sessions@.len(),
        |j: int| session_line_of(app.sessions@[j]),
    ));
    v
}

/// The title of the list.
pub fn sessions_title(app: &App) -> (s: String)
    ensures
        s@ == " Sessions ("@ + decimal(app.sessions@.len()) + ") "@,
{
    let digits = format_unsigned(app.sessions.len() as u64);
    around(" Sessions (", digits.as_str(), ") ")
}

/// The lines on the selected session.
pub open spec fn status_lines_of(s: SessionSummary, now: u64) -> Seq<Seq<char>> {
    let age: u64 = if now > s.created_unix {
        (now - s.created_unix) as u64
    } else {
        0
    };
    seq![
        "session   "@ + s.session_id@,
        "created   "@ + age_text(age) + " ago     idle "@ + age_text(s.idle_secs),
        "images    "@ + decimal(s.image_count as nat) + "     cache "@ + bytes_text(s.cache_bytes)
            + "     running jobs "@ + decimal(s.running_jobs as nat),
        "active    "@ + (match s.active_ref {
            Some(r) => r@,
            None => "—"@,
        }),
    ]
}

/// The lines on a session; `now` is in seconds since the Unix epoch.
pub fn status_lines(s: &SessionSummary, now: u64) -> (v: Vec<String>)
    ensures
        texts(v@) == status_lines_of(*s, now),
{
    let age: u64 = if now > s.created_unix {
        now - s.created_unix
    } else {
        0
    };
    let mut v: Vec<String> = Vec::new();
    let mut session = "session   ".to_owned();
    session.append(s.session_id.as_str());
    v.push(session);
    let age_word = fmt_age(age);
    let idle_word = fmt_age(s.idle_secs);
    let mut created = around("created   ", age_word.as_str(), " ago     idle ");
    created.append(idle_word.as_str());
    v.push(created);
    let count = format_unsigned(s.image_count as u64);
    let cache = fmt_bytes(s.cache_bytes);
    let jobs = format_unsigned(s.running_jobs as u64);
    let mut images = around("images    ", count.as_str(), "     cache ");
    images.append(cache.as_str());
    images.append("     running jobs ");
    images.append(jobs.as_str());
    v.push(images);
    let mut active = "active    ".to_owned();
    match &s.active_ref {
        Some(r) => active.append(r.as_str()),
        None => active.append("—"),
    }
    v.push(active);
    assert(texts(v@) =~= status_lines_of(*s, now));
    v
}

/// What stands behind the last slash of a path.
pub open spec fn base_of(path: Seq<char>) -> Seq<char> {
    path.skip(last_of(path, '/') + 1)
}

/// The last part of a path.
pub fn basename(path: &str) -> (s: String)
    ensures
        s@ == base_of(path@),
{
    match rsplit_once(path, '/') {
        Some((_, name)) => name.to_owned(),
        None => {
            assert(path@.skip(0) =~= path@);
            path.to_owned()
        },
    }
}

/// The cells of an image's row.
pub open spec fn image_row_of(img: ImageEntry) -> Seq<Seq<char>> {
    seq![
        img.image_ref@,
        decimal(img.width as nat) + "×"@ + decimal(img.height as nat),
        match img.hdu {
            Some(h) => decimal(h as nat),
            None => "—"@,
        },
        match img.extname {
            Some(n) => n@,
            None => "—"@,
        },
        match img.source {
            Some(p) => base_of(p@),
            None => "(derived)"@,
        },
    ]
}

/// The cells of an image's row.
pub fn image_row(img: &ImageEntry) -> (v: Vec<String>)
    ensures
        texts(v@) == image_row_of(*img),
{
    let mut v: Vec<String> = Vec::new();
    v.push(img.image_ref.clone());
    let mut dims = format_unsigned(img.width as u64);
    let height = format_unsigned(img.height as u64);
    dims.append("×");
    dims.append(height.as_str());
    v.push(dims);
    v.push(
        match img.hdu {
            Some(h) => format_unsigned(h as u64),
            None => "—".to_owned(),
        },
    );
    v.push(
        match &img.extname {
            Some(n) => n.clone(),
            None => "—".to_owned(),
        },
    );
    v.push(
        match &img.source {
            Some(p) => basename(p.as_str()),
            None => "(derived)".to_owned(),
        },
    );
    assert(texts(v@) =~= image_row_of(*img));
    v
}

/// The images that the overview shows of session `sid`: those of the detail, where it is that
/// session's.
pub open spec fn overview_images_of(detail: Option<Detail>, sid: Seq<char>) -> Seq<ImageEntry> {
    match detail {
        Some(d) => if d.session_id@ == sid {
            d.images@
        } else {
            Seq::empty()
        },
        None => Seq::empty(),
    }
}

/// The overview pane.
pub struct Overview {
    pub status: Vec<String>,
    pub images: Vec<Vec<String>>,
}

/// The rows of some images.
pub open spec fn rows_of(images: Seq<ImageEntry>) -> Seq<Seq<Seq<char>>> {
    Seq::new(images.len(), |i: int| image_row_of(images[i]))
}

/// The cells of each row.
pub open spec fn cells(rows: Seq<Vec<String>>) -> Seq<Seq<Seq<char>>> {
    Seq::new(rows.len(), |i: int| texts(rows[i]@))
}

/// The overview pane of the selected session; none where no session is selected.
pub fn overview(app: &App, now: u64) -> (r: Option<Overview>)
    ensures
        match r {
            Some(o) => {
                &&& selected_place(app.sessions@, app.selected_sid) is Some
                &&& ({
                    let s = app.sessions@[selected_place(app.sessions@, app.selected_sid)->0];
                    &&& texts(o.status@) == status_lines_of(s, now)
                    &&& cells(o.images@) == rows_of(overview_images_of(app.detail, s.session_id@))
                })
            },
            None => selected_place(app.sessions@, app.selected_sid) is None,
        },
{
    match app.selected_session() {
        None => None,
        Some(s) => {
            let mut rows: Vec<Vec<String>> = Vec::new();
            let ghost images = overview_images_of(app.detail, s.session_id@);
            if let Some(d) = &app.detail {
                if same(d.session_id.as_str(), s.session_id.as_str()) {
                    let mut i: usize = 0;
                    while i < d.images.len()
                        invariant
                            i <= d.images@.len(),
                            cells(rows@) == rows_of(d.images@.take(i as int)),
                        decreases d.images.len() - i,
                    {
                        let ghost before = cells(rows@);
                        rows.push(image_row(&d.images[i]));
                        i = i + 1;
                        assert(cells(rows@) =~= rows_of(d.images@.take(i as int))) by {
                            assert(cells(rows@) =~= before.push(image_row_of(d.images@[i - 1])));
                            assert(rows_of(d.images@.take(i as int)) =~= rows_of(
                                d.images@.take(i - 1),
                            ).push(image_row_of(d.images@[i - 1])));
                        }
                    }
                    assert(d.images@.take(i as int) =~= d.images@);
                }
            }
            assert(cells(rows@) =~= rows_of(images));
            Some(Overview { status: status_lines(s, now), images: rows })
        },
    }
}

/// The rows that an event table shows: the last ones, `scroll` of them left out, as many as fit
/// between the frame and under the heading.
pub open spec fn window_of(total: nat, scroll: nat, height: nat) -> (nat, nat) {
    let visible: int = if height > 3 {
        height - 3
    } else {
        0
    };
    let end: int = if total > scroll {
        total - scroll
    } else {
        0
    };
    let start: int = if end > visible {
        end - visible
    } else {
        0
    };
    (start as nat, end as nat)
}

/// The rows that an event table shows, from the first to behind the last.
pub fn event_window(total: usize, scroll: usize, height: u16) -> (w: (usize, usize))
    ensures
        (w.0 as nat, w.1 as nat) == window_of(total as nat, scroll as nat, height as nat),
        w.0 <= w.1 <= total,
{
    let visible: usize = if height > 3 {
        (height - 3) as usize
    } else {
        0
    };
    let end: usize = if total > scroll {
        total - scroll
    } else {
        0
    };
    let start: usize = if end > visible {
        end - visible
    } else {
        0
    };
    (start, end)
}

/// Without scrolling, the window ends with the newest event; it never shows more rows than fit.
pub proof fn the_window_follows_the_newest(total: nat, scroll: nat, height: nat)
    ensures
        window_of(total, 0, height).1 == total,
        window_of(total, scroll, height).0 <= window_of(total, scroll, height).1 <= total,
        window_of(total, scroll, height).1 - window_of(total, scroll, height).0 <= height,
{
}

/// The title of an event table.
pub open spec fn events_title_of(label: Seq<char>, total: nat, scroll: nat) -> Seq<char> {
    if scroll > 0 {
        " "@ + label + " ("@ + decimal(total) + " events, ↑"@ + decimal(scroll) + ") "@
    } else {
        " "@ + label + " ("@ + decimal(total) + " events) "@
    }
}

/// The title of an event table.
pub fn events_title(label: &str, total: usize, scroll: usize) -> (s: String)
    ensures
        s@ == events_title_of(label@, total as nat, scroll as nat),
{
    let count = format_unsigned(total as u64);
    let mut s = around(" ", label, " (");
    s.append(count.as_str());
    if scroll > 0 {
        let back = format_unsigned(scroll as u64);
        s.append(" events, ↑");
        s.append(back.as_str());
        s.append(") ");
    } else {
        s.append(" events) ");
    }
    s
}

/// Whole seconds since an event.
pub open spec fn age_of(e: HistoryEvent, now: u64) -> u64 {
    if now * 1000 > e.unix_ms {
        ((now * 1000 - e.unix_ms) / 1000) as u64
    } else {
        0
    }
}

/// The cells of an event's row.
pub open spec fn event_row_of(e: HistoryEvent, now: u64) -> Seq<PieceView> {
    seq![
        shown(right_in(decimal(e.seq as nat), 5), Look::Plain),
        shown(right_in(age_text(age_of(e, now)), 4) + " ago"@, Look::Gray),
        shown(left_in(e.method@, 6), Look::Plain),
        shown(e.endpoint@, Look::Plain),
        shown(
            match e.image_ref {
                Some(r) => r@,
                None => "—"@,
            },
            Look::Plain,
        ),
        shown(
            decimal(e.status as nat),
            if e.status < 400 {
                Look::Green
            } else {
                Look::Red
            },
        ),
        shown(decimal(e.duration_ms as nat) + "ms"@, Look::Plain),
    ]
}

/// The cells of an event's row; `now` is in seconds since the Unix epoch.
pub fn event_row(e: &HistoryEvent, now: u64) -> (v: Vec<Piece>)
    requires
        now * 1000 <= u64::MAX,
    ensures
        pieces(v@) == event_row_of(*e, now),
{
    let now_ms: u64 = now * 1000;
    let age: u64 = if now_ms > e.unix_ms {
        (now_ms - e.unix_ms) / 1000
    } else {
        0
    };
    let mut v: Vec<Piece> = Vec::new();
    let seq_digits = format_unsigned(e.seq);
    v.push(Piece { text: pad_left(seq_digits.as_str(), 5), look: Look::Plain });
    let age_word = fmt_age(age);
    let mut when = pad_left(age_word.as_str(), 4);
    when.append(" ago");
    v.push(Piece { text: when, look: Look::Gray });
    v.push(Piece { text: pad_right(e.method.as_str(), 6), look: Look::Plain });
    v.push(Piece { text: e.endpoint.clone(), look: Look::Plain });
    v.push(
        Piece {
            text: match &e.image_ref {
                Some(r) => r.clone(),
                None => "—".to_owned(),
            },
            look: Look::Plain,
        },
    );
    v.push(
        Piece {
            text: format_unsigned(e.status as u64),
            look: if e.status < 400 {
                Look::Green
            } else {
                Look::Red
            },
        },
    );
    let mut took = format_unsigned(e.duration_ms);
    took.append("ms");
    v.push(Piece { text: took, look: Look::Plain });
    assert(pieces(v@) =~= event_row_of(*e, now));
    v
}

/// What stands in the overview where there is no session.
pub fn no_sessions_hint() -> (s: &'static str)
    ensures
        s@ == "no sessions — POST /v2/sessions to create one"@,
{
    "no sessions — POST /v2/sessions to create one"
}

/// What stands in the tunnel pane where there is no tunnel.
pub fn no_tunnel_hint() -> (s: &'static str)
    ensures
        s@ == "no tunnel (direct connection)"@,
{
    "no tunnel (direct connection)"
}

/// The answers to the question whether to delete a session.
pub fn confirm_hint() -> (s: &'static str)
    ensures
        s@ == "y = delete    n = cancel"@,
{
    "y = delete    n = cancel"
}

/// The texts of some headings.
pub open spec fn heading_texts(v: Seq<&'static str>) -> Seq<Seq<char>> {
    Seq::new(v.len(), |i: int| v[i]@)
}

/// The headings of the image table.
pub fn image_headings() -> (v: Vec<&'static str>)
    ensures
        heading_texts(v@) == seq!["ref"@, "dims"@, "hdu"@, "extname"@, "source"@],
{
    let v: Vec<&'static str> = vec!["ref", "dims", "hdu", "extname", "source"];
    assert(heading_texts(v@) =~= seq!["ref"@, "dims"@, "hdu"@, "extname"@, "source"@]);
    v
}

/// The headings of an event table, whose fifth column is called `ref_heading`.
pub open spec fn event_headings_of(ref_heading: Seq<char>) -> Seq<Seq<char>> {
    seq!["seq"@, "when"@, "meth"@, "endpoint"@, ref_heading, "st"@, "took"@]
}

/// An event table.
pub struct EventTable {
    pub title: String,
    pub headings: Vec<&'static str>,
    pub rows: Vec<Vec<Piece>>,
}

/// Whether a table shows the newest of `events` but for `scroll` of them, in a pane of that height.
pub open spec fn is_event_table(
    t: EventTable,
    events: Seq<HistoryEvent>,
    scroll: nat,
    label: Seq<char>,
    ref_heading: Seq<char>,
    height: nat,
    now: u64,
) -> bool {
    let (start, end) = window_of(events.len(), scroll, height);
    &&& heading_texts(t.headings@) == event_headings_of(ref_heading)
    &&& t.title@ == events_title_of(label, events.len(), scroll)
    &&& lines(t.rows@) == Seq::new(
        (end - start) as nat,
        |i: int| event_row_of(events[start + i], now),
    )
}

/// The table of some events; `now` is in seconds since the Unix epoch.
pub fn event_table(
    events: &Vec<HistoryEvent>,
    scroll: usize,
    label: &str,
    ref_heading: &'static str,
    height: u16,
    now: u64,
) -> (t: EventTable)
    requires
        now * 1000 <= u64::MAX,
    ensures
        is_event_table(t, events@, scroll as nat, label@, ref_heading@, height as nat, now),
{
    let (start, end) = event_window(events.len(), scroll, height);
    let mut rows: Vec<Vec<Piece>> = Vec::new();
    let mut i: usize = start;
    while i < end
        invariant
            start <= i <= end <= events@.len(),
            now * 1000 <= u64::MAX,
            rows@.len() == i - start,
            forall|j: int|
                0 <= j < rows@.len() ==> pieces((#[trigger] rows@[j])@) == event_row_of(
                    events@[start + j],
                    now,
                ),
        decreases end - i,
    {
        rows.push(event_row(&events[i], now));
        i = i + 1;
    }
    assert(lines(rows@) =~= Seq::new(
        (end - start) as nat,
        |j: int| event_row_of(events@[start + j], now),
    ));
    let headings: Vec<&'static str> = vec![
        "seq",
        "when",
        "meth",
        "endpoint",
        ref_heading,
        "st",
        "took",
    ];
    assert(heading_texts(headings@) =~= event_headings_of(ref_heading@));
    EventTable { title: events_title(label, events.len(), scroll), headings, rows }
}

/// The events of the session that is shown.
pub open spec fn history_of(detail: Option<Detail>) -> Seq<HistoryEvent> {
    match detail {
        Some(d) => d.history@,
        None => Seq::empty(),
    }
}

/// The history pane.
pub fn history_table(app: &App, height: u16, now: u64) -> (t: EventTable)
    requires
        now * 1000 <= u64::MAX,
    ensures
        is_event_table(
            t,
            history_of(app.detail),
            app.history_scroll as nat,
            "History"@,
            "ref"@,
            height as nat,
            now,
        ),
{
    match &app.detail {
        Some(d) => event_table(&d.history, app.history_scroll, "History", "ref", height, now),
        None => {
            let events: Vec<HistoryEvent> = Vec::new();
            assert(events@ =~= history_of(app.detail));
            event_table(&events, app.history_scroll, "History", "ref", height, now)
        },
    }
}

/// The pane of the requests outside every session.
pub fn global_table(app: &App, height: u16, now: u64) -> (t: EventTable)
    requires
        now * 1000 <= u64::MAX,
    ensures
        is_event_table(
            t,
            app.global_activity@,
            app.global_scroll as nat,
            "Global activity"@,
            "query"@,
            height as nat,
            now,
        ),
{
    event_table(&app.global_activity, app.global_scroll, "Global activity", "query", height, now)
}

/// The heading of the pane bar: the titles of the panes, and which one is shown; the first one
/// where the pane shown is not among them.
pub fn tab_bar(app: &App) -> (r: (Vec<&'static str>, usize))
    ensures
        r.0@.len() == tabs_of(app.tunnel is Some).len(),
        forall|i: int|
            0 <= i < r.0@.len() ==> (#[trigger] r.0@[i])@ == title_of(
                tabs_of(app.tunnel is Some)[i],
            ),
        if tabs_of(app.tunnel is Some).contains(app.tab) {
            r.1 < r.0@.len() && tabs_of(app.tunnel is Some)[r.1 as int] == app.tab
        } else {
            r.1 == 0
        },
{
    let tabs = app.tabs();
    let mut titles: Vec<&'static str> = Vec::new();
    let mut shown_at: usize = 0;
    let mut i: usize = 0;
    while i < tabs.len()
        invariant
            i <= tabs@.len(),
            titles@.len() == i,
            forall|j: int| 0 <= j < i ==> (#[trigger] titles@[j])@ == title_of(tabs@[j]),
            if exists|j: int| 0 <= j < i && #[trigger] tabs@[j] == app.tab {
                shown_at < i && tabs@[shown_at as int] == app.tab
            } else {
                shown_at == 0
            },
        decreases tabs.len() - i,
    {
        titles.push(tab_title(tabs[i]));
        if tabs[i] == app.tab {
            shown_at = i;
        }
        i = i + 1;
    }
    (titles, shown_at)
}

/// The tunnel's state in words.
pub open spec fn phase_text_of(phase: TunnelPhase) -> PieceView {
    match phase {
        TunnelPhase::Connecting => shown("connecting…"@, Look::Yellow),
        TunnelPhase::Up => shown("up"@, Look::Green),
        TunnelPhase::Reconnecting { backoff } => shown(
            "reconnecting (next attempt in "@ + decimal(backoff as nat) + "s)"@,
            Look::Yellow,
        ),
        TunnelPhase::Fatal(reason) => shown("FAILED: "@ + reason@, Look::Red),
    }
}

/// The tunnel's state in words.
pub fn phase_text(phase: &TunnelPhase) -> (p: Piece)
    ensures
        p@ == phase_text_of(*phase),
{
    match phase {
        TunnelPhase::Connecting => Piece { text: "connecting…".to_owned(), look: Look::Yellow },
        TunnelPhase::Up => Piece { text: "up".to_owned(), look: Look::Green },
        TunnelPhase::Reconnecting { backoff } => {
            let digits = format_unsigned(*backoff);
            Piece {
                text: around("reconnecting (next attempt in ", digits.as_str(), "s)"),
                look: Look::Yellow,
            }
        },
        TunnelPhase::Fatal(reason) => {
            let mut text = "FAILED: ".to_owned();
            text.append(reason.as_str());
            Piece { text, look: Look::Red }
        },
    }
}

/// The lines on the tunnel: where it goes, its state, how often it came back.
pub struct TunnelPane {
    pub destination: String,
    pub state: Vec<Piece>,
    pub reconnects: String,
    /// The first line of the log that is shown.
    pub log_start: usize,
}

/// The tunnel pane, with a log area of that height.
pub fn tunnel_pane(t: &TunnelState, log_height: u16) -> (p: TunnelPane)
    ensures
        p.destination@ == "destination  "@ + t.destination@,
        pieces(p.state@) == seq![
            shown("state        "@, Look::Plain),
            phase_text_of(t.phase),
        ],
        p.reconnects@ == "reconnects   "@ + decimal(t.reconnects as nat),
        ({
            let visible: int = if log_height > 2 {
                log_height - 2
            } else {
                0
            };
            p.log_start == if t.log@.len() > visible {
                t.log@.len() - visible
            } else {
                0
            }
        }),
{
    let mut destination = "destination  ".to_owned();
    destination.append(t.destination.as_str());
    let mut state: Vec<Piece> = Vec::new();
    state.push(Piece { text: "state        ".to_owned(), look: Look::Plain });
    state.push(phase_text(&t.phase));
    assert(pieces(state@) =~= seq![
        shown("state        "@, Look::Plain),
        phase_text_of(t.phase),
    ]);
    let digits = format_unsigned(t.reconnects as u64);
    let mut reconnects = "reconnects   ".to_owned();
    reconnects.append(digits.as_str());
    let visible: usize = if log_height > 2 {
        (log_height - 2) as usize
    } else {
        0
    };
    let log_start: usize = if t.log.len() > visible {
        t.log.len() - visible
    } else {
        0
    };
    TunnelPane { destination, state, reconnects, log_start }
}

/// The hints in the footer.
pub open spec fn footer_of(confirming: bool, tunnel: bool) -> Seq<char> {
    if confirming {
        " y confirm delete · n cancel"@
    } else {
        " j/k select · tab pane · d delete · r refresh · PgUp/PgDn scroll · q quit"@ + if tunnel {
            " · tab panes incl. Tunnel"@
        } else {
            Seq::empty()
        }
    }
}

/// The hints in the footer.
pub fn footer_text(app: &App) -> (s: String)
    ensures
        s@ == footer_of(app.confirm_delete is Some, app.tunnel is Some),
{
    if app.confirm_delete.is_some() {
        " y confirm delete · n cancel".to_owned()
    } else {
        let mut s =
            " j/k select · tab pane · d delete · r refresh · PgUp/PgDn scroll · q quit".to_owned();
        if app.tunnel.is_some() {
            s.append(" · tab panes incl. Tunnel");
        } else {
            assert(s@ + Seq::<char>::empty() =~= s@);
        }
        s
    }
}

/// A rectangle of the screen.
#[derive(Debug, Clone, Copy, PartialEq, Eq)]
pub struct Area {
    pub x: u16,
    pub y: u16,
    pub width: u16,
    pub height: u16,
}

/// Where the question whether to delete goes: in the middle, at most 60 wide and five high.
pub fn confirm_area(screen: Area) -> (a: Area)
    requires
        screen.x + screen.width <= u16::MAX,
        screen.y + screen.height <= u16::MAX,
    ensures
        a.width == if screen.width > 64 {
            60
        } else if screen.width > 4 {
            screen.width - 4
        } else {
            0
        },
        a.height == if screen.height < 5 {
            screen.height as int
        } else {
            5
        },
        a.x == screen.x + (screen.width - a.width) / 2,
        a.y == screen.y + if screen.height > 5 {
            (screen.height - 5) / 2
        } else {
            0
        },
        a.x + a.width <= screen.x + screen.width,
        a.y + a.height <= screen.y + screen.height,
{
    let width: u16 = if screen.width > 64 {
        60
    } else if screen.width > 4 {
        screen.width - 4
    } else {
        0
    };
    let height: u16 = if screen.height < 5 {
        screen.height
    } else {
        5
    };
    let above: u16 = if screen.height > 5 {
        (screen.height - 5) / 2
    } else {
        0
    };
    Area { x: screen.x + (screen.width - width) / 2, y: screen.y + above, width, height }
}

/// The question whether to delete a session.
pub fn confirm_text(sid: &str) -> (s: String)
    requires
        cuts_cleanly(sid@),
    ensures
        s@ == "Delete session "@ + short_text(sid@) + "?"@,
{
    let id = short_id(sid);
    around("Delete session ", id.as_str(), "?")
}

} // verus!
