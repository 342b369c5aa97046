//! The file system endpoints: listing a directory, looking at a path, and serving a file's bytes.

use vstd::prelude::*;
use vstd::string::*;
use crate::server::connect::around;
use crate::server::error::AppError;
use crate::server::order::{is_order, order, Key};
use crate::server::v2::glob::{fits, wildcard};
use crate::text::{
    chars_of, decimal, find, first_of, format_unsigned, parse_unsigned, parsed_unsigned, same,
    split_once, starts_with, strip_prefix, trim, trimmed,
};

verus! {

/// What to list.
#[derive(Debug)]
pub struct ListParams {
    pub path: String,
    /// A pattern that the names have to match, letter case counting.
    pub glob: Option<String>,
    /// Whether to list names that begin with a dot.
    pub include_hidden: bool,
}

/// What to look at.
#[derive(Debug)]
pub struct ExistsParams {
    pub path: String,
}

/// Which file to serve.
#[derive(Debug)]
pub struct RawParams {
    pub path: String,
}

/// How a `Range` header comes out against a file.
#[derive(Debug, Clone, Copy, PartialEq, Eq)]
pub enum RangeOutcome {
    /// Serve that many bytes from that one on.
    Satisfiable(u64, u64),
    /// No byte of the file lies in the range.
    Unsatisfiable,
    /// No range that is served: serve the whole file.
    Ignore,
}

/// The outcome for the two ends of a range, either of which may be missing.
pub open spec fn range_between(first: Seq<char>, last: Seq<char>, total: u64) -> RangeOutcome {
    if first.len() == 0 {
        match parsed_unsigned(last, u64::MAX as nat) {
            None => RangeOutcome::Ignore,
            Some(n) => {
                let count: u64 = if n < total {
                    n as u64
                } else {
                    total
                };
                if count == 0 {
                    RangeOutcome::Unsatisfiable
                } else {
                    RangeOutcome::Satisfiable((total - count) as u64, count)
                }
            },
        }
    } else {
        match parsed_unsigned(first, u64::MAX as nat) {
            None => RangeOutcome::Ignore,
            Some(start) => if last.len() == 0 {
                if start >= total {
                    RangeOutcome::Unsatisfiable
                } else {
                    RangeOutcome::Satisfiable(start as u64, (total - start) as u64)
                }
            } else {
                match parsed_unsigned(last, u64::MAX as nat) {
                    None => RangeOutcome::Ignore,
                    Some(end) => if end < start {
                        RangeOutcome::Ignore
                    } else if start >= total {
                        RangeOutcome::Unsatisfiable
                    } else if end < total {
                        RangeOutcome::Satisfiable(start as u64, (end - start + 1) as u64)
                    } else {
                        RangeOutcome::Satisfiable(start as u64, (total - start) as u64)
                    },
                }
            },
        }
    }
}

/// The outcome of a header: one range in bytes, `S-`, `S-E` or `-N`; anything else is ignored.
pub open spec fn range_of(spec_text: Seq<char>, total: u64) -> RangeOutcome {
    let header = trimmed(spec_text);
    let body = trimmed(header.skip("bytes="@.len() as int));
    let i = first_of(body, '-');
    if !"bytes="@.is_prefix_of(header) || first_of(body, ',') < body.len() || i == body.len() {
        RangeOutcome::Ignore
    } else {
        range_between(trimmed(body.take(i)), trimmed(body.skip(i + 1)), total)
    }
}

fn between(first: &str, last: &str, total: u64) -> (r: RangeOutcome)
    ensures
        r == range_between(first@, last@, total),
{
    if first.unicode_len() == 0 {
        return match parse_unsigned(last, u64::MAX) {
            None => RangeOutcome::Ignore,
            Some(n) => {
                let count: u64 = if n < total {
                    n
                } else {
                    total
                };
                if count == 0 {
                    RangeOutcome::Unsatisfiable
                } else {
                    RangeOutcome::Satisfiable(total - count, count)
                }
            },
        };
    }
    match parse_unsigned(first, u64::MAX) {
        None => RangeOutcome::Ignore,
        Some(start) => if last.unicode_len() == 0 {
            if start >= total {
                RangeOutcome::Unsatisfiable
            } else {
                RangeOutcome::Satisfiable(start, total - start)
            }
        } else {
            match parse_unsigned(last, u64::MAX) {
                None => RangeOutcome::Ignore,
                Some(end) => if end < start {
                    RangeOutcome::Ignore
                } else if start >= total {
                    RangeOutcome::Unsatisfiable
                } else if end < total {
                    RangeOutcome::Satisfiable(start, end - start + 1)
                } else {
                    RangeOutcome::Satisfiable(start, total - start)
                },
            }
        },
    }
}

/// Reads a `Range` header against a file of `total` bytes.
pub fn parse_range(spec_text: &str, total: u64) -> (r: RangeOutcome)
    ensures
        r == range_of(spec_text@, total),
{
    match strip_prefix(trim(spec_text), "bytes=") {
        None => RangeOutcome::Ignore,
        Some(rest) => {
            let body = trim(rest);
            if find(body, ',') < body.unicode_len() {
                return RangeOutcome::Ignore;
            }
            match split_once(body, '-') {
                None => RangeOutcome::Ignore,
                Some((first, last)) => between(trim(first), trim(last), total),
            }
        },
    }
}

/// A range that is served lies within the file and has at least one byte.
pub proof fn a_served_range_lies_in_the_file(spec_text: Seq<char>, total: u64)
    ensures
        range_of(spec_text, total) matches RangeOutcome::Satisfiable(start, len) ==> {
            &&& len >= 1
            &&& start + len <= total
        },
{
}

/// An empty file has no range to serve.
pub proof fn an_empty_file_has_no_range(spec_text: Seq<char>)
    ensures
        !(range_of(spec_text, 0) is Satisfiable),
{
    a_served_range_lies_in_the_file(spec_text, 0);
}

/// How a file's bytes are served: the status, the window, and the `Content-Range` header.
#[derive(Debug)]
pub struct RawPlan {
    pub status: u16,
    pub start: u64,
    pub len: u64,
    pub content_range: Option<String>,
}

/// Whether `p` serves a file of `total` bytes under an outcome.
pub open spec fn is_plan(p: RawPlan, outcome: RangeOutcome, total: u64) -> bool {
    match outcome {
        RangeOutcome::Satisfiable(start, len) => {
            &&& p.status == 206
            &&& p.start == start && p.len == len
            &&& p.content_range matches Some(text) && text@ == "bytes "@ + decimal(start as nat)
                + "-"@ + decimal((start + len - 1) as nat) + "/"@ + decimal(total as nat)
        },
        RangeOutcome::Unsatisfiable => {
            &&& p.status == 416
            &&& p.start == 0 && p.len == 0
            &&& p.content_range matches Some(text) && text@ == "bytes */"@ + decimal(total as nat)
        },
        RangeOutcome::Ignore => {
            &&& p.status == 200
            &&& p.start == 0 && p.len == total
            &&& p.content_range is None
        },
    }
}

/// Decides how a file of `total` bytes is served, with the `Range` header where there is one.
pub fn raw_plan(range: Option<&str>, total: u64) -> (p: RawPlan)
    ensures
        is_plan(
            p,
            match range {
                Some(text) => range_of(text@, total),
                None => RangeOutcome::Ignore,
            },
            total,
        ),
{
    let outcome = match range {
        Some(text) => parse_range(text, total),
        None => RangeOutcome::Ignore,
    };
    proof {
        if let Some(text) = range {
            a_served_range_lies_in_the_file(text@, total);
        }
    }
    let all = format_unsigned(total);
    match outcome {
        RangeOutcome::Satisfiable(start, len) => {
            let first = format_unsigned(start);
            let last = format_unsigned(start + (len - 1));
            let mut text = around("bytes ", first.as_str(), "-");
            text.append(last.as_str());
            text.append("/");
            text.append(all.as_str());
            RawPlan { status: 206, start, len, content_range: Some(text) }
        },
        RangeOutcome::Unsatisfiable => {
            let mut text = "bytes */".to_owned();
            text.append(all.as_str());
            RawPlan { status: 416, start: 0, len: 0, content_range: Some(text) }
        },
        RangeOutcome::Ignore => RawPlan {
            status: 200,
            start: 0,
            len: total,
            content_range: None,
        },
    }
}

/// The error for a file that cannot be looked at.
pub fn stat_error(path: &str, missing: bool, reason: &str) -> (e: AppError)
    ensures
        missing ==> e is NotFound && e->NotFound_0@ == "no such file: "@ + path@,
        !missing ==> e is BadRequest && e->BadRequest_0@ == "cannot stat "@ + path@ + ": "@ + reason@,
{
    if missing {
        let mut m = "no such file: ".to_owned();
        m.append(path);
        AppError::NotFound(m)
    } else {
        let mut m = around("cannot stat ", path, ": ");
        m.append(reason);
        AppError::BadRequest(m)
    }
}

/// The error for a directory whose bytes were asked for.
pub fn is_a_directory(path: &str) -> (e: AppError)
    ensures
        match e {
            AppError::BadRequestWithHint { code, message, hint } => {
                &&& code@ == "not_a_directory"@
                &&& message@ == path@ + " is a directory"@
                &&& hint matches Some(h) && h@
                    == "fs/raw serves file bytes; use fs/list to browse a directory"@
            },
            _ => false,
        },
{
    let mut message = path.to_owned();
    message.append(" is a directory");
    AppError::BadRequestWithHint {
        code: "not_a_directory",
        message,
        hint: Some("fs/raw serves file bytes; use fs/list to browse a directory".to_owned()),
    }
}

/// The error for a directory that cannot be looked at.
pub fn list_stat_error(path: &str, reason: &str) -> (e: AppError)
    ensures
        match e {
            AppError::BadRequestWithHint { code, message, hint } => {
                &&& code@ == "fs_not_found"@
                &&& message@ == "cannot stat "@ + path@ + ": "@ + reason@
                &&& hint matches Some(h) && h@ == "provide a path to an existing directory"@
            },
            _ => false,
        },
{
    let mut message = around("cannot stat ", path, ": ");
    message.append(reason);
    AppError::BadRequestWithHint {
        code: "fs_not_found",
        message,
        hint: Some("provide a path to an existing directory".to_owned()),
    }
}

/// The error for a path to list that is no directory.
pub fn is_not_a_directory(path: &str) -> (e: AppError)
    ensures
        match e {
            AppError::BadRequestWithHint { code, message, hint } => {
                &&& code@ == "not_a_directory"@
                &&& message@ == path@ + " is not a directory"@
                &&& hint matches Some(h) && h@
                    == "fs/list lists directories; use fs/exists to stat a file"@
            },
            _ => false,
        },
{
    let mut message = path.to_owned();
    message.append(" is not a directory");
    AppError::BadRequestWithHint {
        code: "not_a_directory",
        message,
        hint: Some("fs/list lists directories; use fs/exists to stat a file".to_owned()),
    }
}

/// The word for a kind of file; a link is called a link.
pub open spec fn type_of(is_symlink: bool, is_dir: bool, is_file: bool) -> Seq<char> {
    if is_symlink {
        "symlink"@
    } else if is_dir {
        "dir"@
    } else if is_file {
        "file"@
    } else {
        "other"@
    }
}

/// The word for a kind of file.
pub fn type_str(is_symlink: bool, is_dir: bool, is_file: bool) -> (s: &'static str)
    ensures
        s@ == type_of(is_symlink, is_dir, is_file),
{
    if is_symlink {
        "symlink"
    } else if is_dir {
        "dir"
    } else if is_file {
        "file"
    } else {
        "other"
    }
}

/// Whether a pattern matches a name, letter case counting.
pub fn glob_match(pattern: &str, text: &str) -> (r: bool)
    ensures
        r == fits(pattern@, text@),
{
    wildcard(&chars_of(pattern), &chars_of(text))
}

/// What a directory holds under one name.
#[derive(Debug)]
pub struct Found {
    pub name: String,
    /// Whether it is a link, a directory, a file; none where that cannot be told.
    pub file_type: Option<(bool, bool, bool)>,
    /// The bytes of what the name leads to.
    pub len: Option<u64>,
    /// When that was modified, in seconds since the Unix epoch.
    pub modified: Option<i64>,
}

/// One line of a listing.
#[derive(Debug)]
pub struct Entry {
    pub name: String,
    pub kind: &'static str,
    /// The size, of files alone.
    pub size: Option<u64>,
    pub modified: Option<i64>,
}

/// The word for what was found.
pub open spec fn kind_of(f: Found) -> Seq<char> {
    match f.file_type {
        Some((link, dir, file)) => type_of(link, dir, file),
        None => "other"@,
    }
}

/// Whether what was found is listed.
pub open spec fn is_kept(f: Found, glob: Option<String>, include_hidden: bool) -> bool {
    &&& include_hidden || !"."@.is_prefix_of(f.name@)
    &&& glob matches Some(g) ==> fits(g@, f.name@)
}

/// What is listed, in the order in which it was found.
pub open spec fn kept_of(found: Seq<Found>, glob: Option<String>, include_hidden: bool) -> Seq<
    Found,
>
    decreases found.len(),
{
    if found.len() == 0 {
        Seq::empty()
    } else {
        let before = kept_of(found.drop_last(), glob, include_hidden);
        if is_kept(found.last(), glob, include_hidden) {
            before.push(found.last())
        } else {
            before
        }
    }
}

/// What a listing is ordered by: directories first, then names.
pub open spec fn list_key(f: Found) -> Key {
    Key {
        rank: if kind_of(f) == "dir"@ {
            0
        } else {
            1
        },
        name: f.name,
    }
}

/// What a listing is ordered by: directories first, then the names.
pub open spec fn list_keys(kept: Seq<Found>) -> Seq<Key> {
    Seq::new(kept.len(), |i: int| list_key(kept[i]))
}

/// Whether an entry shows what was found.
pub open spec fn is_entry(e: Entry, f: Found) -> bool {
    &&& e.name == f.name
    &&& e.kind@ == kind_of(f)
    &&& e.size == if kind_of(f) == "file"@ {
        f.len
    } else {
        None
    }
    &&& e.modified == f.modified
}

/// Whether `entries` lists what is kept of `found`, in order.
pub open spec fn is_listing(entries: Seq<Entry>, kept: Seq<Found>) -> bool {
    exists|places: Seq<usize>|
        {
            &&& #[trigger] is_order(places, list_keys(kept))
            &&& entries.len() == places.len()
            &&& forall|i: int|
                0 <= i < entries.len() ==> is_entry(
                    #[trigger] entries[i],
                    kept[places[i] as int],
                )
        }
}

fn keeps(f: &Found, glob: &Option<String>, include_hidden: bool) -> (b: bool)
    ensures
        b == is_kept(*f, *glob, include_hidden),
{
    if !include_hidden && starts_with(f.name.as_str(), ".") {
        return false;
    }
    match glob {
        Some(g) => glob_match(g.as_str(), f.name.as_str()),
        None => true,
    }
}

fn kind_word(f: &Found) -> (s: &'static str)
    ensures
        s@ == kind_of(*f),
{
    match f.file_type {
        Some((link, dir, file)) => type_str(link, dir, file),
        None => "other",
    }
}

fn entry_of(f: &Found) -> (e: Entry)
    ensures
        is_entry(e, *f),
{
    let kind = kind_word(f);
    Entry {
        name: f.name.clone(),
        kind,
        size: if same(kind, "file") {
            f.len
        } else {
            None
        },
        modified: f.modified,
    }
}

/// Lists what a directory holds: hidden names and names that do not match are left out,
/// directories come first, and each group is sorted by name.
pub fn list_dir(found: &Vec<Found>, glob: &Option<String>, include_hidden: bool) -> (entries: Vec<
    Entry,
>)
    ensures
        is_listing(entries@, kept_of(found@, *glob, include_hidden)),
{
    let ghost kept = kept_of(found@, *glob, include_hidden);
    let mut keys: Vec<Key> = Vec::new();
    let mut origins: Vec<usize> = Vec::new();
    let mut i: usize = 0;
    assert(found@.take(0) =~= Seq::<Found>::empty());
    while i < found.len()
        invariant
            i <= found@.len(),
            origins@.len() == keys@.len(),
            keys@.len() == kept_of(found@.take(i as int), *glob, include_hidden).len(),
            forall|j: int|
                0 <= j < keys@.len() ==> #[trigger] keys@[j] == list_key(
                    kept_of(found@.take(i as int), *glob, include_hidden)[j],
                ),
            forall|j: int|
                0 <= j < keys@.len() ==> {
                    &&& #[trigger] origins@[j] < found@.len()
                    &&& found@[origins@[j] as int] == kept_of(
                        found@.take(i as int),
                        *glob,
                        include_hidden,
                    )[j]
                },
        decreases found.len() - i,
    {
        assert(found@.take(i + 1).drop_last() =~= found@.take(i as int));
        if keeps(&found[i], glob, include_hidden) {
            let rank: u64 = if same(kind_word(&found[i]), "dir") {
                0
            } else {
                1
            };
            keys.push(Key { rank, name: found[i].name.clone() });
            origins.push(i);
        }
        i = i + 1;
    }
    assert(found@.take(i as int) =~= found@);
    let places = order(&keys);
    assert(keys@ =~= list_keys(kept));
    let mut entries: Vec<Entry> = Vec::new();
    let mut k: usize = 0;
    while k < places.len()
        invariant
            k <= places@.len(),
            is_order(places@, keys@),
            keys@.len() == kept.len(),
            origins@.len() == kept.len(),
            forall|j: int|
                0 <= j < kept.len() ==> #[trigger] origins@[j] < found@.len()
                    && found@[origins@[j] as int] == kept[j],
            entries@.len() == k,
            forall|j: int|
                0 <= j < k ==> is_entry(#[trigger] entries@[j], kept[places@[j] as int]),
        decreases places.len() - k,
    {
        let at: usize = places[k];
        assert(origins@[at as int] < found@.len());
        entries.push(entry_of(&found[origins[at]]));
        k = k + 1;
    }
    assert(is_order(places@, list_keys(kept)));
    entries
}

/// What a path leads to.
#[derive(Debug)]
pub struct PathStat {
    pub exists: bool,
    pub kind: Option<&'static str>,
    pub size: Option<u64>,
    pub modified: Option<i64>,
}

/// What is known of a file that a path leads to.
#[derive(Debug, Clone, Copy)]
pub struct FileFacts {
    pub is_dir: bool,
    pub is_file: bool,
    pub len: u64,
    pub modified: Option<i64>,
}

/// Says what a path leads to; a path that leads nowhere does not exist.
pub fn stat_path(facts: Option<FileFacts>) -> (s: PathStat)
    ensures
        match facts {
            Some(f) => {
                &&& s.exists
                &&& s.kind matches Some(k) && k@ == type_of(false, f.is_dir, f.is_file)
                &&& s.size == if f.is_file {
                    Some(f.len)
                } else {
                    None
                }
                &&& s.modified == f.modified
            },
            None => !s.exists && s.kind is None && s.size is None && s.modified is None,
        },
{
    match facts {
        Some(f) => PathStat {
            exists: true,
            kind: Some(type_str(false, f.is_dir, f.is_file)),
            size: if f.is_file {
                Some(f.len)
            } else {
                None
            },
            modified: f.modified,
        },
        None => PathStat { exists: false, kind: None, size: None, modified: None },
    }
}

} // verus!
