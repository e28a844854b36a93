//! The addresses that lists and databases are downloaded from.
use crate::problem::{self, Problem, Report};
use crate::text::{cat3, same_text};
use vstd::prelude::*;
use vstd::string::*;

verus! {

/// What `reqwest::Url::parse` makes of a text: the scheme of the URL, or the words for
/// why it is none.
pub uninterp spec fn parsed_scheme(text: Seq<char>) -> Result<Seq<char>, Seq<char>>;

/// The texts of an outcome that holds strings.
pub open spec fn outcome_texts(outcome: Result<String, String>) -> Result<Seq<char>, Seq<char>> {
    match outcome {
        Ok(text) => Ok(text@),
        Err(text) => Err(text@),
    }
}

/// Calls `reqwest::Url::parse` and hands out the scheme of the URL, or the error's words.
/// Which texts are URLs is left to the parser: the outcome is named `parsed_scheme`.
#[verifier::external_body]
fn url_scheme(text: &str) -> (scheme: Result<String, String>)
    ensures
        outcome_texts(scheme) == parsed_scheme(text@),
{
    match reqwest::Url::parse(text) {
        Ok(url) => Ok(url.scheme().to_owned()),
        Err(error) => Err(error.to_string()),
    }
}

/// What is wrong with the value of a field that has to be an HTTP URL, where `scheme` is
/// what the URL parser made of the value.
pub open spec fn scheme_problem(
    field: Seq<char>,
    value: Seq<char>,
    scheme: Result<Seq<char>, Seq<char>>,
) -> Option<Report> {
    match scheme {
        Err(cause) => Some(
            Report { message: field + " is not a valid URL: "@ + value, cause: Some(cause) },
        ),
        Ok(scheme) => if scheme == "http"@ || scheme == "https"@ {
            None
        } else {
            Some(problem::plain(field + " must use http or https, got "@ + scheme))
        },
    }
}

/// Judges what the URL parser made of a field's value.
pub fn check_scheme(field: &str, value: &str, scheme: Result<String, String>) -> (outcome: Result<
    (),
    Problem,
>)
    ensures
        problem::failure(outcome) == scheme_problem(field@, value@, outcome_texts(scheme)),
{
    match scheme {
        Err(cause) => Err(Problem::caused_by(cat3(field, " is not a valid URL: ", value), cause)),
        Ok(scheme) => {
            if same_text(scheme.as_str(), "http") || same_text(scheme.as_str(), "https") {
                Ok(())
            } else {
                Err(Problem::new(cat3(field, " must use http or https, got ", scheme.as_str())))
            }
        },
    }
}

/// What is wrong with the value of a field that has to be an HTTP URL.
pub open spec fn url_problem(field: Seq<char>, value: Seq<char>) -> Option<Report> {
    scheme_problem(field, value, parsed_scheme(value))
}

/// Checks that the value of a field is an HTTP URL.
pub fn validate_http_url(field: &str, value: &str) -> (outcome: Result<(), Problem>)
    ensures
        problem::failure(outcome) == url_problem(field@, value@),
{
    check_scheme(field, value, url_scheme(value))
}

/// A value is accepted exactly when it is a URL whose scheme is `http` or `https`.
pub proof fn lemma_accepted_urls(
    field: &str,
    value: &str,
    scheme: Result<String, String>,
    outcome: Result<(), Problem>,
)
    requires
        call_ensures(check_scheme, (field, value, scheme), outcome),
    ensures
        outcome is Ok <==> scheme is Ok && (scheme->Ok_0@ == "http"@ || scheme->Ok_0@ == "https"@),
{
}

} // verus!
