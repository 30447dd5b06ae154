//! The record line parser: one text line holds one token record as a row of
//! quoted fields. The five leading quoted spans are positional and mandatory
//! (document, x, y, width, height); up to two trailing spans are optional and
//! are classified by the single character standing two places before the
//! span's opening quote — the last letter of the attribute name. `'e'` marks
//! a relevance value, `'t'` a transcription. The classification deliberately
//! reads only that one character, so an attribute name damaged elsewhere
//! still parses; this tolerance is part of the format and is kept as is.

use vstd::prelude::*;

use crate::numerals::all_digits;
use crate::numerals::digits_val;
use crate::numerals::parse_digits_opt;
use crate::numerals::pow10;
use crate::rectangles::Point;
use crate::rectangles::Rectangle;
use crate::tokens::Relevance;
use crate::tokens::RelevantToken;
use crate::tokens::TokenId;
use crate::tokens::TokenModel;
use crate::tokens::relevance_valid;

verus! {

/// Why a record line was rejected. Any of these aborts the whole run.
#[derive(Debug, Clone, Copy, PartialEq, Eq, Structural)]
pub enum ParseError {
    /// Fewer than the five mandatory quoted fields are present.
    MissingFields,
    /// More than seven quoted fields are present.
    TooManyFields,
    /// A numeric field is empty, holds a non-digit, or is out of range.
    MalformedNumber,
    /// The character before a trailing span's quote marks neither a
    /// relevance nor a transcription field.
    UnknownTrailingField,
    /// A relevance value outside (0, 1].
    InvalidRelevance,
    /// A bounding box with a zero extent or one running past `u32`.
    InvalidDimensions,
}

/// The positions at which `c` occurs in `s`, in increasing order.
pub open spec fn char_positions(s: Seq<char>, c: char) -> Seq<int>
    decreases s.len(),
{
    if s.len() == 0 {
        Seq::empty()
    } else if s.last() == c {
        char_positions(s.drop_last(), c).push(s.len() - 1)
    } else {
        char_positions(s.drop_last(), c)
    }
}

/// Occurrence positions are in range, increasing, and carry `c`.
pub proof fn lemma_char_positions_props(s: Seq<char>, c: char)
    ensures
        forall|i: int|
            0 <= i < char_positions(s, c).len() ==> 0 <= #[trigger] char_positions(s, c)[i]
                < s.len() && s[char_positions(s, c)[i]] == c,
        forall|i: int, j: int|
            0 <= i < j < char_positions(s, c).len() ==> char_positions(s, c)[i]
                < char_positions(s, c)[j],
    decreases s.len(),
{
    if s.len() > 0 {
        lemma_char_positions_props(s.drop_last(), c);
        let pre = char_positions(s.drop_last(), c);
        assert(forall|i: int| 0 <= i < s.len() - 1 ==> s.drop_last()[i] == #[trigger] s[i]);
        assert forall|i: int| 0 <= i < char_positions(s, c).len() implies 0
            <= #[trigger] char_positions(s, c)[i] < s.len() && s[char_positions(s, c)[i]]
            == c by {
            if i < pre.len() {
                assert(char_positions(s, c)[i] == pre[i]);
            }
        }
    }
}

/// Occurrence positions distribute over concatenation.
pub proof fn lemma_char_positions_concat(a: Seq<char>, b: Seq<char>, c: char)
    ensures
        char_positions(a + b, c) =~= char_positions(a, c) + char_positions(b, c).map_values(
            |p: int| p + a.len(),
        ),
    decreases b.len(),
{
    if b.len() == 0 {
        assert(a + b =~= a);
        assert(char_positions(b, c) =~= Seq::<int>::empty());
    } else {
        lemma_char_positions_concat(a, b.drop_last(), c);
        let s = a + b;
        assert(s.len() == a.len() + b.len());
        assert(s.drop_last() =~= a + b.drop_last());
        assert(s.last() == b.last());
        if b.last() == c {
            assert(char_positions(b, c) =~= char_positions(b.drop_last(), c).push(b.len() - 1));
        } else {
            assert(char_positions(b, c) =~= char_positions(b.drop_last(), c));
        }
    }
}

/// A sequence without `c` has no occurrence positions.
pub proof fn lemma_char_positions_none(s: Seq<char>, c: char)
    requires
        forall|i: int| 0 <= i < s.len() ==> #[trigger] s[i] != c,
    ensures
        char_positions(s, c) =~= Seq::<int>::empty(),
{
    lemma_char_positions_props(s, c);
    if char_positions(s, c).len() > 0 {
        assert(s[char_positions(s, c)[0]] == c);
    }
}

/// The text of the `k`-th quoted span: the characters strictly between its
/// opening and closing quotes.
pub open spec fn span_text(s: Seq<char>, q: Seq<int>, k: int) -> Seq<char>
    recommends
        0 <= 2 * k + 1 < q.len(),
{
    s.subrange(q[2 * k] + 1, q[2 * k + 1])
}

/// Reading a mandatory numeric field as `u32`.
pub open spec fn spec_parse_u32_field(t: Seq<char>) -> Result<u32, ParseError> {
    if t.len() == 0 || !all_digits(t) || digits_val(t) > u32::MAX {
        Err(ParseError::MalformedNumber)
    } else {
        Ok(digits_val(t) as u32)
    }
}

/// Reading a relevance field as an exact decimal in (0, 1]: an optional
/// single decimal point between two digit runs, at least one of them
/// non-empty.
pub open spec fn spec_parse_relevance(t: Seq<char>) -> Result<Relevance, ParseError> {
    let dots = char_positions(t, '.');
    if dots.len() == 0 {
        if t.len() == 0 || !all_digits(t) || digits_val(t) > u64::MAX {
            Err(ParseError::MalformedNumber)
        } else if !relevance_valid(Relevance { num: digits_val(t) as u64, places: 0 }) {
            Err(ParseError::InvalidRelevance)
        } else {
            Ok(Relevance { num: digits_val(t) as u64, places: 0 })
        }
    } else if dots.len() == 1 {
        let d1 = t.subrange(0, dots[0]);
        let d2 = t.subrange(dots[0] + 1, t.len() as int);
        if t.len() == 1 || !all_digits(d1) || !all_digits(d2) || d2.len() > u32::MAX
            || digits_val(d1) * pow10(d2.len()) + digits_val(d2) > u64::MAX {
            Err(ParseError::MalformedNumber)
        } else {
            let r = Relevance {
                num: (digits_val(d1) * pow10(d2.len()) + digits_val(d2)) as u64,
                places: d2.len() as u32,
            };
            if !relevance_valid(r) {
                Err(ParseError::InvalidRelevance)
            } else {
                Ok(r)
            }
        }
    } else {
        Err(ParseError::MalformedNumber)
    }
}

/// A classified trailing field.
pub enum TrailingField {
    Rel(Relevance),
    Text(Seq<char>),
}

/// Classify the `k`-th quoted span by the character two places before its
/// opening quote and read its text accordingly.
pub open spec fn spec_classify_span(s: Seq<char>, q: Seq<int>, k: int) -> Result<
    TrailingField,
    ParseError,
> {
    let open = q[2 * k];
    if open < 2 {
        Err(ParseError::UnknownTrailingField)
    } else if s[open - 2] == 'e' {
        match spec_parse_relevance(span_text(s, q, k)) {
            Ok(r) => Ok(TrailingField::Rel(r)),
            Err(e) => Err(e),
        }
    } else if s[open - 2] == 't' {
        Ok(TrailingField::Text(span_text(s, q, k)))
    } else {
        Err(ParseError::UnknownTrailingField)
    }
}

/// Classification reads nothing of a trailing field's attribute name but the
/// single character before the opening quote: two lines that agree on that
/// character and on the span's text classify the span alike, however the
/// rest of the attribute name is damaged.
pub proof fn lemma_classification_reads_one_char(
    s1: Seq<char>,
    s2: Seq<char>,
    q: Seq<int>,
    k: int,
)
    requires
        0 <= 2 * k + 1 < q.len(),
        q[2 * k] < 2 || s1[q[2 * k] - 2] == s2[q[2 * k] - 2],
        span_text(s1, q, k) == span_text(s2, q, k),
    ensures
        spec_classify_span(s1, q, k) == spec_classify_span(s2, q, k),
{
}

/// Fold one classified trailing field into the optional record fields; a
/// later field of the same kind replaces an earlier one.
pub open spec fn apply_field(
    rel: Option<Relevance>,
    tr: Option<Seq<char>>,
    f: TrailingField,
) -> (Option<Relevance>, Option<Seq<char>>) {
    match f {
        TrailingField::Rel(r) => (Some(r), tr),
        TrailingField::Text(t) => (rel, Some(t)),
    }
}

/// Read the optional trailing spans: span five if it is complete, then span
/// six if it is complete.
pub open spec fn spec_trailing_fields(s: Seq<char>, q: Seq<int>) -> Result<
    (Option<Relevance>, Option<Seq<char>>),
    ParseError,
> {
    if q.len() < 12 {
        Ok((None, None))
    } else {
        match spec_classify_span(s, q, 5) {
            Err(e) => Err(e),
            Ok(f5) => {
                let a5 = apply_field(None, None, f5);
                if q.len() < 14 {
                    Ok(a5)
                } else {
                    match spec_classify_span(s, q, 6) {
                        Err(e) => Err(e),
                        Ok(f6) => Ok(apply_field(a5.0, a5.1, f6)),
                    }
                }
            },
        }
    }
}

/// What parsing one record line yields: the whole contract of
/// `parse_tokenstring_fast`.
pub open spec fn spec_parse_record(s: Seq<char>) -> Result<TokenModel, ParseError> {
    let q = char_positions(s, '"');
    if q.len() >= 15 {
        Err(ParseError::TooManyFields)
    } else if q.len() < 10 {
        Err(ParseError::MissingFields)
    } else {
        match spec_parse_u32_field(span_text(s, q, 1)) {
            Err(e) => Err(e),
            Ok(x) => match spec_parse_u32_field(span_text(s, q, 2)) {
                Err(e) => Err(e),
                Ok(y) => match spec_parse_u32_field(span_text(s, q, 3)) {
                    Err(e) => Err(e),
                    Ok(w) => match spec_parse_u32_field(span_text(s, q, 4)) {
                        Err(e) => Err(e),
                        Ok(h) => match spec_trailing_fields(s, q) {
                            Err(e) => Err(e),
                            Ok((rel, tr)) => {
                                if w == 0 || h == 0 || x + w - 1 > u32::MAX || y + h - 1
                                    > u32::MAX {
                                    Err(ParseError::InvalidDimensions)
                                } else {
                                    Ok(
                                        TokenModel {
                                            id: TokenId::BoundingBox(
                                                Rectangle {
                                                    min: Point { x: Some(x), y: Some(y) },
                                                    max: Point {
                                                        x: Some((x + w - 1) as u32),
                                                        y: Some((y + h - 1) as u32),
                                                    },
                                                },
                                            ),
                                            document: Some(span_text(s, q, 0)),
                                            transcription: tr,
                                            relevance: rel,
                                        },
                                    )
                                }
                            },
                        },
                    },
                },
            },
        }
    }
}

/// Collect the quote positions of `line`, in order.
fn collect_quote_positions(line: &str) -> (r: Vec<usize>)
    ensures
        r@.map_values(|p: usize| p as int) == char_positions(line@, '"'),
        forall|i: int| 0 <= i < r@.len() ==> #[trigger] r@[i] < line@.len(),
{
    let n = line.unicode_len();
    let mut r: Vec<usize> = Vec::new();
    let mut i: usize = 0;
    while i < n
        invariant
            i <= n == line@.len(),
            r@.map_values(|p: usize| p as int) == char_positions(
                line@.subrange(0, i as int),
                '"',
            ),
            forall|j: int| 0 <= j < r@.len() ==> #[trigger] r@[j] < i,
        decreases n - i,
    {
        let ghost pre = line@.subrange(0, i as int);
        let c = line.get_char(i);
        proof {
            let post = line@.subrange(0, i + 1);
            assert(post.drop_last() =~= pre);
            assert(post.last() == c);
        }
        if c == '"' {
            r.push(i);
            proof {
                assert(r@.map_values(|p: usize| p as int) =~= char_positions(
                    line@.subrange(0, i + 1),
                    '"',
                ));
            }
        } else {
            proof {
                assert(r@.map_values(|p: usize| p as int) =~= char_positions(
                    line@.subrange(0, i + 1),
                    '"',
                ));
            }
        }
        i = i + 1;
    }
    proof {
        assert(line@.subrange(0, n as int) =~= line@);
    }
    r
}

/// Read a mandatory numeric field between `from` and `to` as `u32`.
fn parse_u32_field(line: &str, from: usize, to: usize) -> (r: Result<u32, ParseError>)
    requires
        from <= to <= line@.len(),
    ensures
        r == spec_parse_u32_field(line@.subrange(from as int, to as int)),
{
    if from == to {
        return Err(ParseError::MalformedNumber);
    }
    match parse_digits_opt(line, from, to) {
        None => Err(ParseError::MalformedNumber),
        Some(v) => {
            if v > u32::MAX as u64 {
                Err(ParseError::MalformedNumber)
            } else {
                Ok(v as u32)
            }
        },
    }
}

/// Read a relevance field between `from` and `to` as an exact decimal in
/// (0, 1].
fn parse_relevance_field(line: &str, from: usize, to: usize) -> (r: Result<Relevance, ParseError>)
    requires
        from <= to <= line@.len(),
    ensures
        r == spec_parse_relevance(line@.subrange(from as int, to as int)),
{
    let ghost t = line@.subrange(from as int, to as int);
    // Locate the decimal points of the span.
    let mut ndots: usize = 0;
    let mut first_dot: usize = 0;
    let mut i: usize = from;
    while i < to
        invariant
            from <= i <= to <= line@.len(),
            t == line@.subrange(from as int, to as int),
            ndots == char_positions(t.subrange(0, i - from), '.').len(),
            ndots <= i,
            ndots >= 1 ==> from <= first_dot < i && first_dot - from == char_positions(
                t.subrange(0, i - from),
                '.',
            )[0],
        decreases to - i,
    {
        let ghost pre = t.subrange(0, i - from);
        let c = line.get_char(i);
        proof {
            let post = t.subrange(0, i + 1 - from);
            assert(post.drop_last() =~= pre);
            assert(post.last() == line@[i as int]);
            assert(post.last() == c);
        }
        if c == '.' {
            if ndots == 0 {
                first_dot = i;
            }
            ndots = ndots + 1;
        }
        i = i + 1;
    }
    proof {
        assert(t.subrange(0, to - from) =~= t);
        lemma_char_positions_props(t, '.');
    }
    let ghost dots = char_positions(t, '.');
    if ndots == 0 {
        if from == to {
            return Err(ParseError::MalformedNumber);
        }
        match parse_digits_opt(line, from, to) {
            None => Err(ParseError::MalformedNumber),
            Some(v) => {
                let r = Relevance { num: v, places: 0 };
                if r.is_valid() {
                    Ok(r)
                } else {
                    Err(ParseError::InvalidRelevance)
                }
            },
        }
    } else if ndots == 1 {
        if to - from == 1 {
            return Err(ParseError::MalformedNumber);
        }
        let ghost d1 = t.subrange(0, dots[0]);
        let ghost d2 = t.subrange(dots[0] + 1, t.len() as int);
        proof {
            assert(d1 =~= line@.subrange(from as int, first_dot as int));
            assert(d2 =~= line@.subrange(first_dot + 1, to as int));
        }
        let v1 = match parse_digits_opt(line, from, first_dot) {
            None => {
                proof {
                    crate::numerals::lemma_pow10_pos(d2.len());
                    if all_digits(d1) {
                        assert(digits_val(d1) > u64::MAX);
                        assert(digits_val(d1) * pow10(d2.len()) >= digits_val(d1) * 1) by (
                        nonlinear_arith)
                            requires
                                pow10(d2.len()) >= 1,
                        ;
                    }
                }
                return Err(ParseError::MalformedNumber);
            },
            Some(v) => v,
        };
        let v2 = match parse_digits_opt(line, first_dot + 1, to) {
            None => {
                proof {
                    crate::numerals::lemma_pow10_pos(d2.len());
                    if all_digits(d2) {
                        assert(digits_val(d2) > u64::MAX);
                        assert(digits_val(d1) * pow10(d2.len()) >= 0) by (nonlinear_arith);
                    }
                }
                return Err(ParseError::MalformedNumber);
            },
            Some(v) => v,
        };
        let places_len: usize = to - (first_dot + 1);
        proof {
            assert(d2.len() == places_len);
        }
        if places_len as u64 > u32::MAX as u64 {
            return Err(ParseError::MalformedNumber);
        }
        let places: u32 = places_len as u32;
        proof {
            assert(places as nat == d2.len());
        }
        // Combine the two digit runs: num = v1 * 10^places + v2.
        let num: u64 = if places >= 20 {
            if v1 > 0 {
                proof {
                    crate::numerals::lemma_pow10_increases(20, d2.len());
                    assert(pow10(20) == 100_000_000_000_000_000_000) by {
                        reveal_with_fuel(pow10, 21);
                    }
                    assert(digits_val(d1) * pow10(d2.len()) >= 1 * pow10(d2.len())) by (
                    nonlinear_arith)
                        requires
                            digits_val(d1) >= 1,
                            pow10(d2.len()) >= 0,
                    ;
                    assert(digits_val(d1) * pow10(d2.len()) + digits_val(d2) > u64::MAX);
                }
                return Err(ParseError::MalformedNumber);
            }
            proof {
                assert(digits_val(d1) * pow10(d2.len()) == 0) by (nonlinear_arith)
                    requires
                        digits_val(d1) == 0,
                ;
            }
            v2
        } else {
            let pw = crate::numerals::pow10_u64(places);
            proof {
                crate::numerals::lemma_pow10_pos(d2.len());
            }
            if v1 > (u64::MAX - v2) / pw {
                proof {
                    assert(digits_val(d1) * pow10(d2.len()) + digits_val(d2) > u64::MAX) by (
                    nonlinear_arith)
                        requires
                            digits_val(d1) > (u64::MAX - digits_val(d2)) / (pow10(d2.len()) as int),
                            digits_val(d2) <= u64::MAX,
                            pow10(d2.len()) >= 1,
                    ;
                }
                return Err(ParseError::MalformedNumber);
            }
            proof {
                assert(digits_val(d1) * pow10(d2.len()) + digits_val(d2) <= u64::MAX) by (
                nonlinear_arith)
                    requires
                        digits_val(d1) <= (u64::MAX - digits_val(d2)) / (pow10(d2.len()) as int),
                        digits_val(d2) <= u64::MAX,
                        pow10(d2.len()) >= 1,
                ;
            }
            v1 * pw + v2
        };
        let r = Relevance { num, places };
        if r.is_valid() {
            Ok(r)
        } else {
            Err(ParseError::InvalidRelevance)
        }
    } else {
        Err(ParseError::MalformedNumber)
    }
}

/// Parse one record line by its quoted spans.
///
/// The result is exactly `spec_parse_record` of the line; a parsed record
/// carries a well-formed bounding box and, when present, a valid relevance.
pub fn parse_tokenstring_fast(line: &str) -> (r: Result<RelevantToken, ParseError>)
    ensures
        match r {
            Ok(t) => spec_parse_record(line@) == Ok::<TokenModel, ParseError>(t@),
            Err(e) => spec_parse_record(line@) == Err::<TokenModel, ParseError>(e),
        },
        r matches Ok(t) ==> crate::tokens::token_model_wf(t@),
{
    let ghost s = line@;
    let ghost q = char_positions(s, '"');
    proof {
        lemma_char_positions_props(s, '"');
    }
    let qs = collect_quote_positions(line);
    if qs.len() >= 15 {
        return Err(ParseError::TooManyFields);
    }
    if qs.len() < 10 {
        return Err(ParseError::MissingFields);
    }
    let x = match parse_u32_field(line, qs[2] + 1, qs[3]) {
        Ok(v) => v,
        Err(e) => {
            return Err(e);
        },
    };
    let y = match parse_u32_field(line, qs[4] + 1, qs[5]) {
        Ok(v) => v,
        Err(e) => {
            return Err(e);
        },
    };
    let w = match parse_u32_field(line, qs[6] + 1, qs[7]) {
        Ok(v) => v,
        Err(e) => {
            return Err(e);
        },
    };
    let h = match parse_u32_field(line, qs[8] + 1, qs[9]) {
        Ok(v) => v,
        Err(e) => {
            return Err(e);
        },
    };
    let mut relevance: Option<Relevance> = None;
    let mut transcription: Option<String> = None;
    if qs.len() >= 12 {
        let open = qs[10];
        if open < 2 {
            return Err(ParseError::UnknownTrailingField);
        }
        let c = line.get_char(open - 2);
        if c == 'e' {
            match parse_relevance_field(line, open + 1, qs[11]) {
                Ok(v) => {
                    relevance = Some(v);
                },
                Err(e) => {
                    return Err(e);
                },
            }
        } else if c == 't' {
            transcription = Some(line.substring_char(open + 1, qs[11]).to_owned());
        } else {
            return Err(ParseError::UnknownTrailingField);
        }
        if qs.len() >= 14 {
            let open6 = qs[12];
            if open6 < 2 {
                return Err(ParseError::UnknownTrailingField);
            }
            let c6 = line.get_char(open6 - 2);
            if c6 == 'e' {
                match parse_relevance_field(line, open6 + 1, qs[13]) {
                    Ok(v) => {
                        relevance = Some(v);
                    },
                    Err(e) => {
                        return Err(e);
                    },
                }
            } else if c6 == 't' {
                transcription = Some(line.substring_char(open6 + 1, qs[13]).to_owned());
            } else {
                return Err(ParseError::UnknownTrailingField);
            }
        }
    }
    proof {
        assert(spec_trailing_fields(s, q) == Ok::<(Option<Relevance>, Option<Seq<char>>),
        ParseError>((relevance, transcription.deep_view())));
    }
    if w == 0 || h == 0 {
        return Err(ParseError::InvalidDimensions);
    }
    if (x as u64) + (w as u64) - 1 > u32::MAX as u64 {
        return Err(ParseError::InvalidDimensions);
    }
    if (y as u64) + (h as u64) - 1 > u32::MAX as u64 {
        return Err(ParseError::InvalidDimensions);
    }
    let document = line.substring_char(qs[0] + 1, qs[1]).to_owned();
    let rect = Rectangle {
        min: Point { x: Some(x), y: Some(y) },
        max: Point { x: Some(x + (w - 1)), y: Some(y + (h - 1)) },
    };
    Ok(
        RelevantToken {
            id: TokenId::BoundingBox(rect),
            document: Some(document),
            transcription,
            relevance,
        },
    )
}

} // verus!
