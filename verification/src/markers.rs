//! The block delimiters of the two input file roles. A ground-truth file
//! opens a query block with a `GTRel` marker carrying the query id and closes
//! it with the matching end marker; a results file uses `Rel` markers of the
//! same shape. Marker recognition is the one place the library leans on the
//! regex crate; everything around it is verified against the named capture
//! result below.

use vstd::prelude::*;

verus! {

/// The first capture of the leftmost match of `pattern` on `line`, as the
/// regex crate computes it: `None` when the line does not match, the first
/// capture group's text when it does, and the empty sequence for a matching
/// pattern without a capture group. For a fixed pattern this is a function
/// of the line alone.
pub uninterp spec fn marker_capture(pattern: Seq<char>, line: Seq<char>) -> Option<Seq<char>>;

/// The marker opening a ground-truth query block, capturing the query id.
pub open spec fn gt_start_pattern() -> Seq<char> {
    "<GTRel queryid=\"([\\s\\S]*?)\">"@
}

/// The marker closing a ground-truth query block.
pub open spec fn gt_end_pattern() -> Seq<char> {
    "</GTRel>"@
}

/// The marker opening a results query block, capturing the query id.
pub open spec fn res_start_pattern() -> Seq<char> {
    "<Rel queryid=\"([\\s\\S]*?)\">"@
}

/// The marker closing a results query block.
pub open spec fn res_end_pattern() -> Seq<char> {
    "</Rel>"@
}

/// The four marker patterns of the two file roles; each of them compiles as
/// a regular expression.
pub open spec fn is_marker_pattern(p: Seq<char>) -> bool {
    ||| p == gt_start_pattern()
    ||| p == gt_end_pattern()
    ||| p == res_start_pattern()
    ||| p == res_end_pattern()
}

/// Run one marker pattern over one line.
///
/// Relies on regex::Regex::new, regex::Regex::captures, regex::Captures::get
/// and regex::Match::as_str: the pattern is one of the four fixed marker
/// patterns, all of which compile; `captures` returns the leftmost match or
/// `None`; group 1 of a match is the marker's query-id capture, absent for
/// the end markers, for which the empty string stands in.
#[verifier::external_body]
pub(crate) fn first_capture(pattern: &str, line: &str) -> (r: Option<String>)
    requires
        is_marker_pattern(pattern@),
    ensures
        marker_capture(pattern@, line@) == match r {
            Some(ref c) => Some(c@),
            None => None::<Seq<char>>,
        },
{
    match regex::Regex::new(pattern) {
        Ok(re) => re.captures(line).map(
            |caps|
                match caps.get(1) {
                    Some(m) => m.as_str().to_owned(),
                    None => String::new(),
                },
        ),
        Err(_) => None,
    }
}

} // verus!
