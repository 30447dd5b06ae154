//! Re-serializing a token record as a record line, and the round-trip law:
//! parsing a serialized record yields the record back, field for field.

use vstd::prelude::*;

use crate::numerals::all_digits;
use crate::numerals::digits_of;
use crate::numerals::digits_val;
use crate::numerals::is_digit_char;
use crate::numerals::lemma_digits_of_all_digits;
use crate::numerals::lemma_digits_of_val;
use crate::numerals::lemma_padded_digits_all_digits;
use crate::numerals::lemma_padded_digits_len;
use crate::numerals::lemma_padded_digits_val;
use crate::numerals::lemma_pow10_increases;
use crate::numerals::lemma_pow10_pos;
use crate::numerals::padded_digits;
use crate::numerals::pow10;
use crate::numerals::pow10_u64;
use crate::numerals::push_digits;
use crate::numerals::push_digits_padded;
use crate::record_line::ParseError;
use crate::record_line::char_positions;
use crate::record_line::lemma_char_positions_concat;
use crate::record_line::lemma_char_positions_none;
use crate::record_line::spec_parse_record;
use crate::record_line::spec_parse_relevance;
use crate::rectangles::rect_wf;
use crate::rectangles::spec_height;
use crate::rectangles::spec_width;
use crate::tokens::Relevance;
use crate::tokens::RelevantToken;
use crate::tokens::TokenId;
use crate::tokens::TokenModel;
use crate::tokens::relevance_valid;

verus! {

/// `c` occurs nowhere in `s`.
pub open spec fn free_of(s: Seq<char>, c: char) -> bool {
    forall|i: int| 0 <= i < s.len() ==> #[trigger] s[i] != c
}

/// A payload between its two quotes.
pub open spec fn quoted(p: Seq<char>) -> Seq<char> {
    seq!['"'] + p + seq!['"']
}

/// The decimal text of a relevance value: the integer part, and for a value
/// with decimal places the point and the fraction digits, zero-padded to the
/// full number of places.
pub open spec fn spec_relevance_text(r: Relevance) -> Seq<char> {
    if r.places == 0 {
        digits_of(r.num as nat)
    } else {
        digits_of((r.num as nat) / pow10(r.places as nat)) + seq!['.'] + padded_digits(
            (r.num as nat) % pow10(r.places as nat),
            r.places as nat,
        )
    }
}

/// A record that can be written as a record line: a well-formed bounding-box
/// identity, a document name without quote characters, a transcription
/// without quote characters if present, and a valid relevance if present.
pub open spec fn serializable(m: TokenModel) -> bool {
    &&& m.id matches TokenId::BoundingBox(r) && rect_wf(r)
    &&& m.document matches Some(d) && free_of(d, '"')
    &&& (m.transcription matches Some(t) ==> free_of(t, '"'))
    &&& (m.relevance matches Some(v) ==> relevance_valid(v))
}

/// The record line a record is written as.
pub open spec fn spec_serialize_record(m: TokenModel) -> Seq<char> {
    let r = m.id->BoundingBox_0;
    let x = r.min.x->0 as nat;
    let y = r.min.y->0 as nat;
    let w = spec_width(r) as nat;
    let h = spec_height(r) as nat;
    "<word document="@ + quoted(m.document->0) + " x="@ + quoted(digits_of(x)) + " y="@ + quoted(
        digits_of(y),
    ) + " width="@ + quoted(digits_of(w)) + " height="@ + quoted(digits_of(h)) + (
    match m.relevance {
        Some(v) => " Relevance="@ + quoted(spec_relevance_text(v)),
        None => Seq::<char>::empty(),
    }) + (match m.transcription {
        Some(t) => " Text="@ + quoted(t),
        None => Seq::<char>::empty(),
    }) + " />"@
}

/// Digits are not quotes, points, or markers: a digit run is free of them.
proof fn lemma_digits_free(s: Seq<char>)
    requires
        all_digits(s),
    ensures
        free_of(s, '"'),
        free_of(s, '.'),
{
    assert forall|i: int| 0 <= i < s.len() implies #[trigger] s[i] != '"' && s[i] != '.' by {
        assert(is_digit_char(s[i]));
    }
}

/// Appending quote-free text leaves the quote positions unchanged.
proof fn lemma_qp_append_lit(s: Seq<char>, lit: Seq<char>)
    requires
        free_of(lit, '"'),
    ensures
        char_positions(s + lit, '"') =~= char_positions(s, '"'),
{
    lemma_char_positions_concat(s, lit, '"');
    lemma_char_positions_none(lit, '"');
    assert(char_positions(lit, '"').map_values(|p: int| p + s.len()) =~= Seq::<int>::empty());
}

/// Appending a quoted quote-free payload appends exactly the two quote
/// positions around it.
proof fn lemma_qp_append_quoted(s: Seq<char>, p: Seq<char>)
    requires
        free_of(p, '"'),
    ensures
        char_positions(s + quoted(p), '"') =~= char_positions(s, '"') + seq![
            s.len() as int,
            s.len() + p.len() + 1int,
        ],
{
    let q1 = seq!['"'];
    assert(char_positions(q1, '"') =~= seq![0int]) by {
        assert(char_positions(Seq::<char>::empty(), '"') =~= Seq::<int>::empty());
        assert(q1.drop_last() =~= Seq::<char>::empty());
    }
    lemma_char_positions_none(p, '"');
    lemma_char_positions_concat(q1, p, '"');
    assert(char_positions(q1 + p, '"') =~= seq![0int]);
    lemma_char_positions_concat(q1 + p, q1, '"');
    assert(char_positions(quoted(p), '"') =~= char_positions(q1 + p + q1, '"')) by {
        assert(quoted(p) =~= q1 + p + q1);
    }
    assert(char_positions(q1 + p + q1, '"') =~= seq![0int, p.len() + 1int]);
    lemma_char_positions_concat(s, quoted(p), '"');
    assert(char_positions(quoted(p), '"').map_values(|q: int| q + s.len()) =~= seq![
        s.len() as int,
        s.len() + p.len() + 1int,
    ]);
}

/// The decimal text of a valid relevance value is quote-free and parses back
/// to the value.
proof fn lemma_relevance_text_roundtrip(r: Relevance)
    requires
        relevance_valid(r),
    ensures
        free_of(spec_relevance_text(r), '"'),
        spec_parse_relevance(spec_relevance_text(r)) == Ok::<Relevance, ParseError>(r),
{
    let t = spec_relevance_text(r);
    let num = r.num as nat;
    let places = r.places as nat;
    lemma_pow10_pos(places);
    if r.places == 0 {
        lemma_digits_of_all_digits(num);
        lemma_digits_of_val(num);
        lemma_digits_free(t);
        lemma_char_positions_none(t, '.');
        assert(char_positions(t, '.').len() == 0);
        assert(t.len() >= 1);
        assert(digits_val(t) == num);
        assert(relevance_valid(Relevance { num: r.num, places: 0 }));
    } else {
        let p = pow10(places);
        let ipart = num / p;
        let frac = num % p;
        let d1 = digits_of(ipart);
        let d2 = padded_digits(frac, places);
        lemma_digits_of_all_digits(ipart);
        lemma_padded_digits_all_digits(frac, places);
        vstd::arithmetic::div_mod::lemma_mod_bound(num as int, p as int);
        lemma_padded_digits_len(frac, places);
        lemma_digits_of_val(ipart);
        lemma_padded_digits_val(frac, places);
        lemma_digits_free(d1);
        lemma_digits_free(d2);
        let dot = seq!['.'];
        assert(t =~= d1 + dot + d2);
        // The quote positions: none anywhere.
        assert forall|i: int| 0 <= i < t.len() implies #[trigger] t[i] != '"' by {
            if i < d1.len() {
                assert(t[i] == d1[i]);
            } else if i == d1.len() {
                assert(t[i] == '.');
            } else {
                assert(t[i] == d2[i - d1.len() - 1]);
            }
        }
        // The dot positions: exactly one, after the integer digits.
        lemma_char_positions_none(d1, '.');
        lemma_char_positions_concat(d1, dot, '.');
        assert(char_positions(dot, '.') =~= seq![0int]) by {
            assert(char_positions(Seq::<char>::empty(), '.') =~= Seq::<int>::empty());
            assert(dot.drop_last() =~= Seq::<char>::empty());
        }
        assert(char_positions(d1 + dot, '.') =~= seq![d1.len() as int]);
        lemma_char_positions_none(d2, '.');
        lemma_char_positions_concat(d1 + dot, d2, '.');
        assert(char_positions(t, '.') =~= seq![d1.len() as int]);
        let dots = char_positions(t, '.');
        assert(dots.len() == 1 && dots[0] == d1.len());
        assert(t.subrange(0, dots[0]) =~= d1);
        assert(t.subrange(dots[0] + 1, t.len() as int) =~= d2);
        assert(t.len() >= 3);
        // The reread value: ipart shifted by the places, plus the fraction.
        assert(digits_val(d1) == ipart && digits_val(d2) == frac);
        assert(d2.len() == places);
        assert(ipart * p + frac == num) by (nonlinear_arith)
            requires
                p > 0,
                ipart == num / p,
                frac == num % p,
        ;
        assert(digits_val(d1) * pow10(d2.len()) + digits_val(d2) == num);
        assert(d2.len() == r.places <= u32::MAX);
        assert(relevance_valid(Relevance { num: r.num, places: r.places }));
    }
}

/// Parsing a serialized record yields exactly the record: the round trip
/// preserves the document, the bounding box, and the relevance and
/// transcription when present.
/// A subrange lying inside the left part of a concatenation reads from the
/// left part alone.
proof fn lemma_subrange_prefix(a: Seq<char>, b: Seq<char>, i: int, j: int)
    requires
        0 <= i <= j <= a.len(),
    ensures
        (a + b).subrange(i, j) =~= a.subrange(i, j),
{
}

/// The payload appended last, between its two quotes.
proof fn lemma_last_payload(a: Seq<char>, p: Seq<char>)
    ensures
        (a + quoted(p)).subrange(a.len() + 1int, a.len() + 1int + p.len()) =~= p,
{
}

/// The quote positions and quoted payloads of the five mandatory fields.
proof fn lemma_prefix_spans(doc: Seq<char>, dx: Seq<char>, dy: Seq<char>, dw: Seq<char>, dh: Seq<
    char,
>)
    requires
        free_of(doc, '"'),
        free_of(dx, '"'),
        free_of(dy, '"'),
        free_of(dw, '"'),
        free_of(dh, '"'),
    ensures
        ({
            let l0 = "<word document="@;
            let lx = " x="@;
            let ly = " y="@;
            let lw = " width="@;
            let lh = " height="@;
            let s1 = l0 + quoted(doc);
            let s3 = s1 + lx + quoted(dx);
            let s5 = s3 + ly + quoted(dy);
            let s7 = s5 + lw + quoted(dw);
            let s9 = s7 + lh + quoted(dh);
            let q9 = char_positions(s9, '"');
            &&& q9 =~= seq![
                l0.len() as int,
                l0.len() + doc.len() + 1int,
                s1.len() + lx.len() as int,
                s1.len() + lx.len() + dx.len() + 1int,
                s3.len() + ly.len() as int,
                s3.len() + ly.len() + dy.len() + 1int,
                s5.len() + lw.len() as int,
                s5.len() + lw.len() + dw.len() + 1int,
                s7.len() + lh.len() as int,
                s7.len() + lh.len() + dh.len() + 1int,
            ]
            &&& s9.subrange(q9[0] + 1, q9[1]) =~= doc
            &&& s9.subrange(q9[2] + 1, q9[3]) =~= dx
            &&& s9.subrange(q9[4] + 1, q9[5]) =~= dy
            &&& s9.subrange(q9[6] + 1, q9[7]) =~= dw
            &&& s9.subrange(q9[8] + 1, q9[9]) =~= dh
        }),
{
    reveal_strlit("<word document=");
    reveal_strlit(" x=");
    reveal_strlit(" y=");
    reveal_strlit(" width=");
    reveal_strlit(" height=");
    let l0 = "<word document="@;
    let lx = " x="@;
    let ly = " y="@;
    let lw = " width="@;
    let lh = " height="@;
    assert(free_of(l0, '"') && free_of(lx, '"') && free_of(ly, '"') && free_of(lw, '"')
        && free_of(lh, '"'));
    let s1 = l0 + quoted(doc);
    let s3 = s1 + lx + quoted(dx);
    let s5 = s3 + ly + quoted(dy);
    let s7 = s5 + lw + quoted(dw);
    let s9 = s7 + lh + quoted(dh);
    lemma_char_positions_none(l0, '"');
    lemma_qp_append_quoted(l0, doc);
    lemma_qp_append_lit(s1, lx);
    lemma_qp_append_quoted(s1 + lx, dx);
    lemma_qp_append_lit(s3, ly);
    lemma_qp_append_quoted(s3 + ly, dy);
    lemma_qp_append_lit(s5, lw);
    lemma_qp_append_quoted(s5 + lw, dw);
    lemma_qp_append_lit(s7, lh);
    lemma_qp_append_quoted(s7 + lh, dh);
    let q9 = char_positions(s9, '"');
    assert(s9.subrange(q9[0] + 1, q9[1]) =~= doc) by {
        lemma_last_payload(l0, doc);
        lemma_subrange_prefix(s1, lx, l0.len() + 1int, l0.len() + 1int + doc.len());
        lemma_subrange_prefix(s1 + lx, quoted(dx), l0.len() + 1int, l0.len() + 1int + doc.len());
        lemma_subrange_prefix(s3, ly, l0.len() + 1int, l0.len() + 1int + doc.len());
        lemma_subrange_prefix(s3 + ly, quoted(dy), l0.len() + 1int, l0.len() + 1int + doc.len());
        lemma_subrange_prefix(s5, lw, l0.len() + 1int, l0.len() + 1int + doc.len());
        lemma_subrange_prefix(s5 + lw, quoted(dw), l0.len() + 1int, l0.len() + 1int + doc.len());
        lemma_subrange_prefix(s7, lh, l0.len() + 1int, l0.len() + 1int + doc.len());
        lemma_subrange_prefix(s7 + lh, quoted(dh), l0.len() + 1int, l0.len() + 1int + doc.len());
    }
    assert(s9.subrange(q9[2] + 1, q9[3]) =~= dx) by {
        let i: int = s1.len() + lx.len() + 1int;
        lemma_last_payload(s1 + lx, dx);
        lemma_subrange_prefix(s3, ly, i, i + dx.len());
        lemma_subrange_prefix(s3 + ly, quoted(dy), i, i + dx.len());
        lemma_subrange_prefix(s5, lw, i, i + dx.len());
        lemma_subrange_prefix(s5 + lw, quoted(dw), i, i + dx.len());
        lemma_subrange_prefix(s7, lh, i, i + dx.len());
        lemma_subrange_prefix(s7 + lh, quoted(dh), i, i + dx.len());
    }
    assert(s9.subrange(q9[4] + 1, q9[5]) =~= dy) by {
        let i: int = s3.len() + ly.len() + 1int;
        lemma_last_payload(s3 + ly, dy);
        lemma_subrange_prefix(s5, lw, i, i + dy.len());
        lemma_subrange_prefix(s5 + lw, quoted(dw), i, i + dy.len());
        lemma_subrange_prefix(s7, lh, i, i + dy.len());
        lemma_subrange_prefix(s7 + lh, quoted(dh), i, i + dy.len());
    }
    assert(s9.subrange(q9[6] + 1, q9[7]) =~= dw) by {
        let i: int = s5.len() + lw.len() + 1int;
        lemma_last_payload(s5 + lw, dw);
        lemma_subrange_prefix(s7, lh, i, i + dw.len());
        lemma_subrange_prefix(s7 + lh, quoted(dh), i, i + dw.len());
    }
    assert(s9.subrange(q9[8] + 1, q9[9]) =~= dh) by {
        lemma_last_payload(s7 + lh, dh);
    }
}

/// Parsing a serialized record yields exactly the record: the round trip
/// preserves the document, the bounding box, and the relevance and
/// transcription when present.
#[verifier::rlimit(100)]
pub proof fn lemma_parse_serialize_roundtrip(m: TokenModel)
    requires
        serializable(m),
    ensures
        spec_parse_record(spec_serialize_record(m)) == Ok::<TokenModel, ParseError>(m),
{
    reveal_strlit("<word document=");
    reveal_strlit(" x=");
    reveal_strlit(" y=");
    reveal_strlit(" width=");
    reveal_strlit(" height=");
    reveal_strlit(" Relevance=");
    reveal_strlit(" Text=");
    reveal_strlit(" />");
    let r = m.id->BoundingBox_0;
    let xn = r.min.x->0 as nat;
    let yn = r.min.y->0 as nat;
    let wn = spec_width(r) as nat;
    let hn = spec_height(r) as nat;
    let doc = m.document->0;
    let dx = digits_of(xn);
    let dy = digits_of(yn);
    let dw = digits_of(wn);
    let dh = digits_of(hn);
    lemma_digits_of_all_digits(xn);
    lemma_digits_of_all_digits(yn);
    lemma_digits_of_all_digits(wn);
    lemma_digits_of_all_digits(hn);
    lemma_digits_of_val(xn);
    lemma_digits_of_val(yn);
    lemma_digits_of_val(wn);
    lemma_digits_of_val(hn);
    lemma_digits_free(dx);
    lemma_digits_free(dy);
    lemma_digits_free(dw);
    lemma_digits_free(dh);
    let l0 = "<word document="@;
    let lx = " x="@;
    let ly = " y="@;
    let lw = " width="@;
    let lh = " height="@;
    let lr = " Relevance="@;
    let lt = " Text="@;
    let tail = " />"@;
    assert(free_of(lr, '"') && free_of(lt, '"') && free_of(tail, '"'));
    let s1 = l0 + quoted(doc);
    let s3 = s1 + lx + quoted(dx);
    let s5 = s3 + ly + quoted(dy);
    let s7 = s5 + lw + quoted(dw);
    let s9 = s7 + lh + quoted(dh);
    lemma_prefix_spans(doc, dx, dy, dw, dh);
    let q9 = char_positions(s9, '"');
    let sr = match m.relevance {
        Some(v) => s9 + lr + quoted(spec_relevance_text(v)),
        None => s9,
    };
    let st = match m.transcription {
        Some(t) => sr + lt + quoted(t),
        None => sr,
    };
    let s = st + tail;
    assert(s =~= spec_serialize_record(m));
    if m.relevance is Some {
        let v = m.relevance->0;
        lemma_relevance_text_roundtrip(v);
        lemma_qp_append_lit(s9, lr);
        lemma_qp_append_quoted(s9 + lr, spec_relevance_text(v));
    }
    if m.transcription is Some {
        lemma_qp_append_lit(sr, lt);
        lemma_qp_append_quoted(sr + lt, m.transcription->0);
    }
    lemma_qp_append_lit(st, tail);
    let q = char_positions(s, '"');
    // Lift the five mandatory spans from the prefix to the whole line.
    assert(s.subrange(q[0] + 1, q[1]) =~= doc) by {
        lemma_lift_prefix_span(s9, sr, st, tail, q9[0] + 1, q9[1], doc, m);
    }
    assert(s.subrange(q[2] + 1, q[3]) =~= dx) by {
        lemma_lift_prefix_span(s9, sr, st, tail, q9[2] + 1, q9[3], dx, m);
    }
    assert(s.subrange(q[4] + 1, q[5]) =~= dy) by {
        lemma_lift_prefix_span(s9, sr, st, tail, q9[4] + 1, q9[5], dy, m);
    }
    assert(s.subrange(q[6] + 1, q[7]) =~= dw) by {
        lemma_lift_prefix_span(s9, sr, st, tail, q9[6] + 1, q9[7], dw, m);
    }
    assert(s.subrange(q[8] + 1, q[9]) =~= dh) by {
        lemma_lift_prefix_span(s9, sr, st, tail, q9[8] + 1, q9[9], dh, m);
    }
    assert(crate::record_line::spec_parse_u32_field(dx) == Ok::<u32, ParseError>(r.min.x->0));
    assert(crate::record_line::spec_parse_u32_field(dy) == Ok::<u32, ParseError>(r.min.y->0));
    assert(crate::record_line::spec_parse_u32_field(dw) == Ok::<u32, ParseError>(
        spec_width(r) as u32,
    ));
    assert(crate::record_line::spec_parse_u32_field(dh) == Ok::<u32, ParseError>(
        spec_height(r) as u32,
    ));
    // The trailing spans and their classification characters.
    match (m.relevance, m.transcription) {
        (None, None) => {
            assert(q.len() == 10);
        },
        (Some(v), None) => {
            assert(q.len() == 12);
            assert(q[10] == s9.len() + lr.len());
            assert(s[q[10] - 2] == lr[lr.len() - 2]);
            assert(lr[9] == 'e');
            assert(s.subrange(q[10] + 1, q[11]) =~= spec_relevance_text(v)) by {
                lemma_last_payload(s9 + lr, spec_relevance_text(v));
                lemma_subrange_prefix(
                    sr,
                    tail,
                    s9.len() + lr.len() + 1int,
                    s9.len() + lr.len() + 1int + spec_relevance_text(v).len(),
                );
            }
        },
        (None, Some(t)) => {
            assert(q.len() == 12);
            assert(q[10] == s9.len() + lt.len());
            assert(s[q[10] - 2] == lt[lt.len() - 2]);
            assert(lt[4] == 't');
            assert(s.subrange(q[10] + 1, q[11]) =~= t) by {
                lemma_last_payload(s9 + lt, t);
                lemma_subrange_prefix(
                    st,
                    tail,
                    s9.len() + lt.len() + 1int,
                    s9.len() + lt.len() + 1int + t.len(),
                );
            }
        },
        (Some(v), Some(t)) => {
            assert(q.len() == 14);
            assert(q[10] == s9.len() + lr.len());
            assert(s[q[10] - 2] == lr[lr.len() - 2]);
            assert(lr[9] == 'e');
            assert(s.subrange(q[10] + 1, q[11]) =~= spec_relevance_text(v)) by {
                let i: int = s9.len() + lr.len() + 1int;
                lemma_last_payload(s9 + lr, spec_relevance_text(v));
                lemma_subrange_prefix(sr, lt, i, i + spec_relevance_text(v).len());
                lemma_subrange_prefix(sr + lt, quoted(t), i, i + spec_relevance_text(v).len());
                lemma_subrange_prefix(st, tail, i, i + spec_relevance_text(v).len());
            }
            assert(q[12] == sr.len() + lt.len());
            assert(s[q[12] - 2] == lt[lt.len() - 2]);
            assert(lt[4] == 't');
            assert(s.subrange(q[12] + 1, q[13]) =~= t) by {
                lemma_last_payload(sr + lt, t);
                lemma_subrange_prefix(
                    st,
                    tail,
                    sr.len() + lt.len() + 1int,
                    sr.len() + lt.len() + 1int + t.len(),
                );
            }
        },
    }
    // The reconstructed record equals the one written.
    let parsed = spec_parse_record(s);
    assert(parsed is Ok);
    assert(parsed->Ok_0.id == m.id) by {
        assert(r.min.x == Some(r.min.x->0) && r.min.y == Some(r.min.y->0));
        assert(r.max.x == Some((r.min.x->0 + spec_width(r) - 1) as u32));
        assert(r.max.y == Some((r.min.y->0 + spec_height(r) - 1) as u32));
    }
    assert(parsed->Ok_0.document == m.document);
    assert(parsed->Ok_0.transcription == m.transcription);
    assert(parsed->Ok_0.relevance == m.relevance);
}

/// Lift a subrange of the mandatory prefix through the optional segments and
/// the closing literal.
proof fn lemma_lift_prefix_span(
    s9: Seq<char>,
    sr: Seq<char>,
    st: Seq<char>,
    tail: Seq<char>,
    i: int,
    j: int,
    p: Seq<char>,
    m: TokenModel,
)
    requires
        0 <= i <= j <= s9.len(),
        s9.subrange(i, j) =~= p,
        sr == match m.relevance {
            Some(v) => s9 + " Relevance="@ + quoted(spec_relevance_text(v)),
            None => s9,
        },
        st == match m.transcription {
            Some(t) => sr + " Text="@ + quoted(t),
            None => sr,
        },
    ensures
        (st + tail).subrange(i, j) =~= p,
{
    let lr = " Relevance="@;
    let lt = " Text="@;
    if m.relevance is Some {
        let v = m.relevance->0;
        lemma_subrange_prefix(s9, lr, i, j);
        lemma_subrange_prefix(s9 + lr, quoted(spec_relevance_text(v)), i, j);
    }
    assert(sr.subrange(i, j) =~= p);
    if m.transcription is Some {
        let t = m.transcription->0;
        lemma_subrange_prefix(sr, lt, i, j);
        lemma_subrange_prefix(sr + lt, quoted(t), i, j);
    }
    assert(st.subrange(i, j) =~= p);
    lemma_subrange_prefix(st, tail, i, j);
}

/// Write a record as one record line, exactly as `spec_serialize_record`
/// states it. Parsing the line gives the record back
/// (`lemma_parse_serialize_roundtrip`).
#[verifier::rlimit(100)]
pub fn serialize_token(tok: &RelevantToken) -> (out: String)
    requires
        serializable(tok@),
    ensures
        out@ == spec_serialize_record(tok@),
{
    proof {
        reveal_strlit("\"");
    }
    let mut out = String::new();
    let rect = match &tok.id {
        TokenId::BoundingBox(r) => r,
        TokenId::NumericId(_) => unreached(),
    };
    let doc = match &tok.document {
        Some(d) => d,
        None => unreached(),
    };
    out.append("<word document=");
    out.append("\"");
    out.append(doc.as_str());
    out.append("\"");
    out.append(" x=");
    out.append("\"");
    push_digits(&mut out, rect.min.get_x() as u64);
    out.append("\"");
    out.append(" y=");
    out.append("\"");
    push_digits(&mut out, rect.min.get_y() as u64);
    out.append("\"");
    out.append(" width=");
    out.append("\"");
    push_digits(&mut out, rect.width() as u64);
    out.append("\"");
    out.append(" height=");
    out.append("\"");
    push_digits(&mut out, rect.height() as u64);
    out.append("\"");
    match tok.relevance {
        Some(v) => {
            out.append(" Relevance=");
            out.append("\"");
            push_relevance_text(&mut out, v);
            out.append("\"");
        },
        None => {},
    }
    match &tok.transcription {
        Some(t) => {
            out.append(" Text=");
            out.append("\"");
            out.append(t.as_str());
            out.append("\"");
        },
        None => {},
    }
    out.append(" />");
    proof {
        assert(out@ =~= spec_serialize_record(tok@));
    }
    out
}

/// Append the decimal text of a valid relevance value.
fn push_relevance_text(out: &mut String, v: Relevance)
    requires
        relevance_valid(v),
    ensures
        final(out)@ == old(out)@ + spec_relevance_text(v),
{
    proof {
        reveal_strlit(".");
        lemma_pow10_pos(v.places as nat);
    }
    if v.places == 0 {
        push_digits(out, v.num);
    } else if v.places >= 20 {
        // The value is below one: 10^places exceeds any u64.
        proof {
            lemma_pow10_increases(20, v.places as nat);
            assert(pow10(20) == 100_000_000_000_000_000_000) by {
                reveal_with_fuel(pow10, 21);
            }
            assert((v.num as nat) / pow10(v.places as nat) == 0) by (nonlinear_arith)
                requires
                    (v.num as nat) < pow10(v.places as nat),
            ;
            assert((v.num as nat) % pow10(v.places as nat) == v.num) by (nonlinear_arith)
                requires
                    (v.num as nat) < pow10(v.places as nat),
            ;
        }
        push_digits(out, 0);
        out.append(".");
        push_digits_padded(out, v.num, v.places);
        proof {
            assert(final(out)@ =~= old(out)@ + spec_relevance_text(v));
        }
    } else {
        let pw = pow10_u64(v.places);
        push_digits(out, v.num / pw);
        out.append(".");
        push_digits_padded(out, v.num % pw, v.places);
        proof {
            assert(final(out)@ =~= old(out)@ + spec_relevance_text(v));
        }
    }
}

} // verus!
