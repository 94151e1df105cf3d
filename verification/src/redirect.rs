//! Where a visitor who asks for a challenge without naming a language is
//! sent.

use vstd::prelude::*;
use vstd::string::StringExecFns;
use crate::error::Error;
use crate::text::{push_decimal, spec_decimal};

verus! {

/// The language of the page that a visitor is sent to: the one asked for,
/// else the one that the visitor's account prefers, else Python.
pub open spec fn spec_redirect_language(
    language: Option<Seq<char>>,
    preferred: Option<Seq<char>>,
) -> Seq<char> {
    match language {
        Some(asked) => asked,
        None => match preferred {
            Some(liked) => liked,
            None => "python"@,
        },
    }
}

/// The path of the page of challenge `id`, whose name gives `slug`, in
/// `language`.
pub open spec fn spec_solve_path(id: int, slug: Seq<char>, language: Seq<char>) -> Seq<char> {
    "/challenge/"@ + spec_decimal(id) + "/"@ + slug + "/solve/"@ + language
}

/// The view of a text that may be absent.
pub open spec fn text_of(text: Option<&str>) -> Option<Seq<char>> {
    match text {
        Some(t) => Some(t@),
        None => None,
    }
}

/// The language of the page that a visitor is sent to.
pub fn redirect_language<'a>(language: Option<&'a str>, preferred: Option<&'a str>) -> (chosen:
    &'a str)
    ensures
        chosen@ == spec_redirect_language(text_of(language), text_of(preferred)),
{
    match language {
        Some(asked) => asked,
        None => match preferred {
            Some(liked) => liked,
            None => "python",
        },
    }
}

/// The path that a request for challenge `id` is sent on to.
///
/// `language` is the language named in the request, `preferred` the one
/// that the visitor's account prefers (`None` without an account), and
/// `slug` the slug of the challenge's name, `None` where there is no
/// challenge `id`: then the request fails with `NotFound`.
pub fn challenge_redirect_no_slug(
    id: i32,
    language: Option<&str>,
    preferred: Option<&str>,
    slug: Option<&str>,
) -> (location: Result<String, Error>)
    ensures
        match location {
            Ok(path) => slug matches Some(s) && path@ == spec_solve_path(
                id as int,
                s@,
                spec_redirect_language(text_of(language), text_of(preferred)),
            ),
            Err(e) => e == Error::NotFound && slug is None,
        },
{
    let language = redirect_language(language, preferred);
    match slug {
        None => Err(Error::NotFound),
        Some(slug) => {
            let mut path = String::from_str("/challenge/");
            push_decimal(&mut path, id);
            path.append("/");
            path.append(slug);
            path.append("/solve/");
            path.append(language);
            Ok(path)
        },
    }
}

/// The path that a request for challenge `id` which names no language is
/// sent on to: as `challenge_redirect_no_slug` without a language.
pub fn challenge_redirect(id: i32, preferred: Option<&str>, slug: Option<&str>) -> (location:
    Result<String, Error>)
    ensures
        match location {
            Ok(path) => slug matches Some(s) && path@ == spec_solve_path(
                id as int,
                s@,
                spec_redirect_language(None, text_of(preferred)),
            ),
            Err(e) => e == Error::NotFound && slug is None,
        },
{
    challenge_redirect_no_slug(id, None, preferred, slug)
}

/// The path that a request for challenge `id` which names a slug but no
/// language is sent on to. The slug of the request has no say: the path
/// holds `slug`, the slug of the challenge's name.
pub fn challenge_redirect_with_slug(
    id: i32,
    requested_slug: &str,
    preferred: Option<&str>,
    slug: Option<&str>,
) -> (location: Result<String, Error>)
    ensures
        match location {
            Ok(path) => slug matches Some(s) && path@ == spec_solve_path(
                id as int,
                s@,
                spec_redirect_language(None, text_of(preferred)),
            ),
            Err(e) => e == Error::NotFound && slug is None,
        },
{
    challenge_redirect_no_slug(id, None, preferred, slug)
}

} // verus!
