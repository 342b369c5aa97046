//! The download of a compressed copy of an image's file.

use vstd::prelude::*;
use vstd::string::*;
use crate::server::connect::around;
use crate::server::error::AppError;
use crate::server::session::V2SessionState;
use crate::text::{chars_of, opt_text};

verus! {

/// The characters that a name keeps in a header.
pub open spec fn is_safe(c: char) -> bool {
    ||| 'a' <= c <= 'z'
    ||| 'A' <= c <= 'Z'
    ||| '0' <= c <= '9'
    ||| c == '_'
    ||| c == '-'
}

/// A name with an underscore for each character that may not stand in a header.
pub open spec fn sanitized(s: Seq<char>) -> Seq<char> {
    Seq::new(
        s.len(),
        |i: int|
            if is_safe(s[i]) {
                s[i]
            } else {
                '_'
            },
    )
}

/// Makes a name safe to stand in a header.
pub fn sanitize_filename_component(s: &str) -> (r: String)
    ensures
        r@ == sanitized(s@),
{
    let v = chars_of(s);
    let mut r = String::new();
    let mut i: usize = 0;
    while i < v.len()
        invariant
            i <= v@.len(),
            v@ == s@,
            r@ == sanitized(s@).take(i as int),
        decreases v.len() - i,
    {
        let c: char = v[i];
        if ('a' <= c && c <= 'z') || ('A' <= c && c <= 'Z') || ('0' <= c && c <= '9') || c == '_'
            || c == '-' {
            r.push(c);
        } else {
            r.push('_');
        }
        i = i + 1;
        assert(r@ =~= sanitized(s@).take(i as int));
    }
    assert(sanitized(s@).take(i as int) =~= sanitized(s@));
    r
}

/// A name that was made safe holds only safe characters, as many as before, and stays as it is when
/// it is made safe again.
pub proof fn sanitizing_is_final(s: Seq<char>)
    ensures
        sanitized(s).len() == s.len(),
        forall|i: int| 0 <= i < s.len() ==> is_safe(#[trigger] sanitized(s)[i]),
        sanitized(sanitized(s)) == sanitized(s),
{
    assert(sanitized(sanitized(s)) =~= sanitized(s));
}

/// The `Content-Disposition` of the download for an image.
pub fn content_disposition(target: &str) -> (s: String)
    ensures
        s@ == "attachment; filename=\""@ + sanitized(target@) + "_compressed.fits\""@,
{
    let name = sanitize_filename_component(target);
    around("attachment; filename=\"", name.as_str(), "_compressed.fits\"")
}

/// Finds the file that a download compresses, with the image it is for.
pub fn export_source(state: &V2SessionState, explicit: Option<String>) -> (r: Result<
    (String, String),
    AppError,
>)
    requires
        state.wf(),
    ensures
        ({
            let target = if explicit is Some {
                opt_text(explicit)
            } else {
                opt_text(state.active())
            };
            match r {
                Ok((name, source)) => {
                    &&& target == Some(name@)
                    &&& state.meta().dom().contains(name@)
                    &&& opt_text(state.meta()[name@].source) == Some(source@)
                },
                Err(AppError::BadRequest(m)) => if target is None {
                    m@ == "no active image in this session; open a file first"@
                } else {
                    &&& state.meta().dom().contains(target->0)
                    &&& state.meta()[target->0].source is None
                    &&& m@ == "ref "@ + target->0
                        + " has no source file to compress (derived/cutout refs aren't supported)"@
                },
                Err(AppError::NotFound(m)) => {
                    &&& target is Some
                    &&& !state.meta().dom().contains(target->0)
                    &&& m@ == "image ref "@ + target->0 + " not found in session"@
                },
                Err(_) => false,
            }
        }),
{
    let target = match state.target_ref(explicit) {
        Ok(name) => name,
        Err(e) => {
            return Err(e);
        },
    };
    match state.get(target.as_str()) {
        None => Err(AppError::NotFound(not_in_session(target.as_str()))),
        Some(meta) => match &meta.source {
            Some(source) => Ok((target, source.clone())),
            None => Err(
                AppError::BadRequest(
                    around(
                        "ref ",
                        target.as_str(),
                        " has no source file to compress (derived/cutout refs aren't supported)",
                    ),
                ),
            ),
        },
    }
}

/// The message about a name that no image of the session has.
pub fn not_in_session(image_ref: &str) -> (s: String)
    ensures
        s@ == "image ref "@ + image_ref@ + " not found in session"@,
{
    around("image ref ", image_ref, " not found in session")
}

} // verus!
