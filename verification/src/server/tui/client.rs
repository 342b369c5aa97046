//! The dashboard's HTTP client: the text of a request, and what an answer says.
//!
//! Requests are HTTP/1.0 and close the connection, so that an answer's body is everything up to
//! its end.

use vstd::prelude::*;
use vstd::string::*;
use crate::server::connect::around;
use crate::text::{
    decimal, format_unsigned, lossy, lossy_of, parse_unsigned, parsed_unsigned, place_of, second_word,
    split_once_text, strip_prefix, trim, trim_end_matches, trimmed, without_trailing, word_two,
};

verus! {

/// The host and port of a base URL, or why it has none.
pub open spec fn host_of(base_url: Seq<char>) -> Result<Seq<char>, Seq<char>> {
    if !"http://"@.is_prefix_of(base_url) {
        Err("unsupported URL '"@ + base_url + "' (http:// only)"@)
    } else {
        let host = without_trailing(base_url.skip("http://"@.len() as int), '/');
        if host.len() == 0 {
            Err("empty host in '"@ + base_url + "'"@)
        } else {
            Ok(host)
        }
    }
}

/// Whether a text or an error is the one wanted.
pub open spec fn is_text(r: Result<String, String>, want: Result<Seq<char>, Seq<char>>) -> bool {
    match (r, want) {
        (Ok(s), Ok(w)) => s@ == w,
        (Err(e), Err(w)) => e@ == w,
        _ => false,
    }
}

/// Finds the host and port of a base URL; only plain HTTP is spoken.
pub fn host_port(base_url: &str) -> (r: Result<String, String>)
    ensures
        is_text(r, host_of(base_url@)),
{
    match strip_prefix(base_url, "http://") {
        None => Err(around("unsupported URL '", base_url, "' (http:// only)")),
        Some(rest) => {
            let host = trim_end_matches(rest, '/');
            if host.unicode_len() == 0 {
                Err(around("empty host in '", base_url, "'"))
            } else {
                Ok(host.to_owned())
            }
        },
    }
}

/// The text of a request.
pub fn request_text(method: &str, path: &str, host: &str) -> (s: String)
    ensures
        s@ == method@ + " "@ + path@ + " HTTP/1.0\r\nHost: "@ + host@
            + "\r\nConnection: close\r\n\r\n"@,
{
    let mut s = around(method, " ", path);
    s.append(" HTTP/1.0\r\nHost: ");
    s.append(host);
    s.append("\r\nConnection: close\r\n\r\n");
    s
}

/// What an answer says.
#[derive(Debug)]
pub struct Reply {
    pub status: u16,
    /// The body, without the white space around it.
    pub body: String,
}

/// The status and the body of an answer, or why it cannot be read.
pub open spec fn answer_of(text: Seq<char>, host: Seq<char>) -> Result<(u16, Seq<char>), Seq<char>> {
    let i = place_of(text, "\r\n\r\n"@, 0);
    if i < 0 {
        Err("malformed HTTP response from "@ + host)
    } else {
        match parsed_unsigned(second_word(text.take(i)), u16::MAX as nat) {
            None => Err("unparseable status line from "@ + host),
            Some(status) => Ok(
                (status as u16, trimmed(text.skip(i + "\r\n\r\n"@.len()))),
            ),
        }
    }
}

/// Reads an answer: the status is the second word of its head.
pub fn read_response(text: &str, host: &str) -> (r: Result<Reply, String>)
    ensures
        match (r, answer_of(text@, host@)) {
            (Ok(reply), Ok(want)) => reply.status == want.0 && reply.body@ == want.1,
            (Err(e), Err(want)) => e@ == want,
            _ => false,
        },
{
    match split_once_text(text, "\r\n\r\n") {
        None => {
            let mut e = "malformed HTTP response from ".to_owned();
            e.append(host);
            Err(e)
        },
        Some((head, body)) => match parse_unsigned(word_two(head), u16::MAX as u64) {
            None => {
                let mut e = "unparseable status line from ".to_owned();
                e.append(host);
                Err(e)
            },
            Some(status) => Ok(Reply { status: status as u16, body: trim(body).to_owned() }),
        },
    }
}

/// Reads the bytes of an answer.
pub fn read_answer(raw: &[u8], host: &str) -> (r: Result<Reply, String>)
    ensures
        match (r, answer_of(lossy_of(raw@), host@)) {
            (Ok(reply), Ok(want)) => reply.status == want.0 && reply.body@ == want.1,
            (Err(e), Err(want)) => e@ == want,
            _ => false,
        },
{
    let text = lossy(raw);
    read_response(text.as_str(), host)
}

/// The path of a session.
pub fn session_path(sid: &str) -> (path: String)
    ensures
        path@ == "/v2/sessions/"@ + sid@,
{
    let mut path = "/v2/sessions/".to_owned();
    path.append(sid);
    path
}

/// Whether an answer succeeded, or why not.
pub open spec fn accepted(method: Seq<char>, path: Seq<char>, status: u16) -> Result<(), Seq<char>> {
    if 200 <= status < 300 {
        Ok(())
    } else {
        Err(method + " "@ + path + " → "@ + decimal(status as nat))
    }
}

fn accept(method: &str, path: &str, status: u16) -> (r: Result<(), String>)
    ensures
        match (r, accepted(method@, path@, status)) {
            (Ok(_), Ok(_)) => true,
            (Err(e), Err(want)) => e@ == want,
            _ => false,
        },
{
    if 200 <= status && status < 300 {
        return Ok(());
    }
    let mut e = around(method, " ", path);
    e.append(" → ");
    let digits = format_unsigned(status as u64);
    e.append(digits.as_str());
    Err(e)
}

/// The body of an answer to `GET path`, where it succeeded.
pub fn get_json(path: &str, reply: Reply) -> (r: Result<String, String>)
    ensures
        match (r, accepted("GET"@, path@, reply.status)) {
            (Ok(body), Ok(_)) => body == reply.body,
            (Err(e), Err(want)) => e@ == want,
            _ => false,
        },
{
    match accept("GET", path, reply.status) {
        Ok(_) => Ok(reply.body),
        Err(e) => Err(e),
    }
}

/// Whether the answer to `DELETE path` succeeded.
pub fn delete(path: &str, reply: &Reply) -> (r: Result<(), String>)
    ensures
        match (r, accepted("DELETE"@, path@, reply.status)) {
            (Ok(_), Ok(_)) => true,
            (Err(e), Err(want)) => e@ == want,
            _ => false,
        },
{
    accept("DELETE", path, reply.status)
}

} // verus!
