//! Lists of texts as they are stored in one column: JSON arrays of strings.

use vstd::prelude::*;
use vstd::string::*;

use crate::text;

verus! {

/// What `serde_json::from_str` makes of a text as a list of strings, if it is
/// one.
pub uninterp spec fn json_list(s: Seq<char>) -> Option<Seq<Seq<char>>>;

/// What `serde_json::to_string` makes of a list of strings.
pub uninterp spec fn list_json(l: Seq<Seq<char>>) -> Seq<char>;

/// `serde_json::from_str` into a `Vec<String>`: whether a text is a JSON array
/// of strings, and which, depends on the text alone.
#[verifier::external_body]
fn parse_list(s: &str) -> (r: Result<Vec<String>, serde_json::Error>)
    ensures
        match r {
            Ok(v) => json_list(s@) == Some(text::texts(v@)),
            Err(_) => json_list(s@) is None,
        },
{
    serde_json::from_str(s)
}

/// `serde_json::to_string` of a list of strings: never fails, and what it
/// writes is read back as the list.
#[verifier::external_body]
fn write_list(v: &Vec<String>) -> (r: Result<String, serde_json::Error>)
    ensures
        r is Ok,
        r->Ok_0@ == list_json(text::texts(v@)),
        json_list(r->Ok_0@) == Some(text::texts(v@)),
{
    serde_json::to_string(v)
}

/// The list that a column holds; a column that holds none counts as empty.
pub open spec fn stored_list(s: Seq<char>) -> Seq<Seq<char>> {
    match json_list(s) {
        Some(l) => l,
        None => seq![],
    }
}

/// The list, where there is one.
pub fn list_or_empty(list: Option<Vec<String>>) -> (out: Vec<String>)
    ensures
        text::texts(out@) == (match list {
            Some(l) => text::texts(l@),
            None => seq![],
        }),
{
    match list {
        Some(l) => l,
        None => {
            let none: Vec<String> = Vec::new();
            assert(text::texts(none@) =~= seq![]);
            none
        },
    }
}

/// Reads a column. The tags of todos and notes are stored so, and the
/// arguments of a launch.
pub fn parse_extra_args(json: &str) -> (out: Vec<String>)
    ensures
        text::texts(out@) == stored_list(json@),
{
    match parse_list(json) {
        Ok(l) => list_or_empty(Some(l)),
        Err(_) => list_or_empty(None),
    }
}

/// Writes a column. What is written is read back.
pub fn render_list(v: &Vec<String>) -> (r: String)
    ensures
        r@ == list_json(text::texts(v@)),
        stored_list(r@) == text::texts(v@),
{
    match write_list(v) {
        Ok(s) => s,
        Err(_) => String::new(),
    }
}

} // verus!
