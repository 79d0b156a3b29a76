//! The boundary to the `ini` crate, which reads the INI syntax.
//!
//! Nothing in this module is proved: the contracts say what the rest of the
//! crate takes on trust about `ini`.

use vstd::prelude::*;

verus! {

/// The error with which `ini` rejects a text, carried through as it is.
#[verifier::external_type_specification]
#[verifier::external_body]
pub struct ExParseError(ini::ParseError);

/// What `ini::Ini::load_from_str` makes of `text`: `None` where it rejects the
/// text, else the sections in the order in which it hands them out, each with
/// its header (`None` for the properties that stand before any header) and
/// its key-value pairs in order.
pub uninterp spec fn ini_document(text: Seq<char>) -> Option<
    Seq<(Option<Seq<char>>, Seq<(Seq<char>, Seq<char>)>)>,
>;

/// Parses `text` with `ini::Ini::load_from_str` and copies out what
/// `Ini::iter` and `Properties::iter` yield. The result is claimed to depend
/// on the text alone; what it is for a given text is not claimed.
#[verifier::external_body]
pub(crate) fn parse_document(
    text: &str,
) -> (result: Result<Vec<(Option<String>, Vec<(String, String)>)>, ini::ParseError>)
    ensures
        match result {
            Ok(sections) => ini_document(text@) == Some(sections.deep_view()),
            Err(_) => ini_document(text@) is None,
        },
{
    let document = ini::Ini::load_from_str(text)?;
    Ok(
        document.iter().map(
            |(header, properties)|
                (
                    header.map(String::from),
                    properties.iter().map(
                        |(key, value)| (String::from(key), String::from(value)),
                    ).collect(),
                ),
        ).collect(),
    )
}

/// The line, the column and the message of an `ini::ParseError`, moved out of
/// its fields. Nothing is claimed of them.
#[verifier::external_body]
pub(crate) fn error_details(error: ini::ParseError) -> (details: (usize, usize, String)) {
    (error.line, error.col, error.msg.into_owned())
}

} // verus!
