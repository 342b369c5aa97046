//! The `tui` command line, and the names of keys.

use vstd::prelude::*;
use vstd::string::*;
use crate::server::connect::around;
use crate::server::tui::client::is_text;
use crate::text::{lower_char, same, starts_with, texts, trim_end_matches, without_trailing};

verus! {

/// The server that the dashboard shows where none is named.
pub const DEFAULT_URL: &'static str = "http://127.0.0.1:8097";

/// What `tui --help` prints.
pub const TUI_USAGE: &'static str =
    "usage: astroburst-server tui [URL]\nURL: server base URL (default http://127.0.0.1:8097)\nFor remote servers use: astroburst-server connect <ssh-target> --tui";

/// The URL that a command line names, or why it is refused; `url` is the one read so far.
pub open spec fn url_of_args(args: Seq<Seq<char>>, url: Option<Seq<char>>) -> Result<
    Seq<char>,
    Seq<char>,
>
    decreases args.len(),
{
    if args.len() == 0 {
        Ok(
            match url {
                Some(u) => u,
                None => DEFAULT_URL@,
            },
        )
    } else if args[0] == "--help"@ || args[0] == "-h"@ {
        Err(TUI_USAGE@)
    } else if url is None && !"-"@.is_prefix_of(args[0]) {
        if "ssh://"@.is_prefix_of(args[0]) {
            Err("for ssh targets use: astroburst-server connect "@ + args[0] + " --tui"@)
        } else {
            url_of_args(args.skip(1), Some(without_trailing(args[0], '/')))
        }
    } else {
        Err("unexpected argument '"@ + args[0] + "' (try --help)"@)
    }
}

/// Reads the command line of `tui`: the base URL to run the dashboard on.
pub fn run_standalone(args: &[String]) -> (r: Result<String, String>)
    ensures
        is_text(r, url_of_args(texts(args@), None)),
{
    let ghost all = texts(args@);
    let mut url: Option<String> = None;
    let mut i: usize = 0;
    assert(all.skip(0) =~= all);
    while i < args.len()
        invariant
            i <= args@.len(),
            all == texts(args@),
            url_of_args(all, None) == url_of_args(
                all.skip(i as int),
                match url {
                    Some(u) => Some(u@),
                    None => None,
                },
            ),
        decreases args.len() - i,
    {
        let arg = args[i].as_str();
        assert(all.skip(i as int)[0] == arg@);
        assert(all.skip(i as int).skip(1) =~= all.skip(i + 1));
        if same(arg, "--help") || same(arg, "-h") {
            return Err(TUI_USAGE.to_owned());
        }
        if url.is_none() && !starts_with(arg, "-") {
            if starts_with(arg, "ssh://") {
                return Err(
                    around("for ssh targets use: astroburst-server connect ", arg, " --tui"),
                );
            }
            url = Some(trim_end_matches(arg, '/').to_owned());
        } else {
            return Err(around("unexpected argument '", arg, "' (try --help)"));
        }
        i = i + 1;
    }
    match url {
        Some(u) => Ok(u),
        None => Ok(DEFAULT_URL.to_owned()),
    }
}

/// A key as the terminal reports it.
#[derive(Debug, Clone, Copy, PartialEq, Eq)]
pub enum KeyPress {
    Char(char),
    Up,
    Down,
    Tab,
    BackTab,
    Esc,
    PageUp,
    PageDown,
    End,
    Other,
}

/// The lowercase of a character, as `char::to_lowercase` gives it.
pub uninterp spec fn lowercase_of(c: char) -> Seq<char>;

/// `char::to_lowercase`, collected into a text. The mapping is Unicode's; on an ASCII character it
/// is the plain one.
#[verifier::external_body]
fn lowercase(c: char) -> (s: String)
    ensures
        s@ == lowercase_of(c),
        (c as u32) < 128 ==> s@ == seq![lower_char(c)],
{
    c.to_lowercase().to_string()
}

/// The name of a key that is no character.
pub open spec fn key_name(key: KeyPress) -> Seq<char> {
    match key {
        KeyPress::Char(c) => lowercase_of(c),
        KeyPress::Up => "up"@,
        KeyPress::Down => "down"@,
        KeyPress::Tab => "tab"@,
        KeyPress::BackTab => "backtab"@,
        KeyPress::Esc => "esc"@,
        KeyPress::PageUp => "pageup"@,
        KeyPress::PageDown => "pagedown"@,
        KeyPress::End => "end"@,
        KeyPress::Other => Seq::empty(),
    }
}

/// The name of a key, as the dashboard takes it; a key without one has the empty name.
pub fn normalize_key(key: KeyPress, control: bool) -> (s: String)
    ensures
        s@ == if control && key == KeyPress::Char('c') {
            "ctrl-c"@
        } else {
            key_name(key)
        },
        match key {
            KeyPress::Char(c) => (c as u32) < 128 && !(control && c == 'c') ==> s@ == seq![
                lower_char(c),
            ],
            _ => true,
        },
{
    match key {
        KeyPress::Char(c) => if control && c == 'c' {
            "ctrl-c".to_owned()
        } else {
            lowercase(c)
        },
        KeyPress::Up => "up".to_owned(),
        KeyPress::Down => "down".to_owned(),
        KeyPress::Tab => "tab".to_owned(),
        KeyPress::BackTab => "backtab".to_owned(),
        KeyPress::Esc => "esc".to_owned(),
        KeyPress::PageUp => "pageup".to_owned(),
        KeyPress::PageDown => "pagedown".to_owned(),
        KeyPress::End => "end".to_owned(),
        KeyPress::Other => String::new(),
    }
}

} // verus!
