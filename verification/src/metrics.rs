//! The retrieval metrics engine: hit determination by exact bounding-box
//! equality, precision at a cutoff, uninterpolated average precision, and
//! cross-query means.
//!
//! Scores are exact scaled integers: a score of `SCORE_SCALE` means 1.0, and
//! every score is the floor of the corresponding exact fraction scaled by
//! `SCORE_SCALE`.

use vstd::arithmetic::div_mod::lemma_div_is_ordered;
use vstd::arithmetic::div_mod::lemma_div_multiples_vanish;
use vstd::prelude::*;

use crate::record_line::ParseError;
use crate::rectangles::Rectangle;
use crate::tokens::RelevantToken;
use crate::tokens::TokenId;
use crate::tokens::TokenModel;
use crate::tokens::token_model_wf;

verus! {

/// A score of this value means 1.0; every score is the floor of the exact
/// fraction times this scale.
pub const SCORE_SCALE: u64 = 1_000_000;

/// The largest ranked list the engine scores; keeps every intermediate scaled
/// sum comfortably inside `u64`.
pub const MAX_RANKED_RESULTS: usize = 0x4000_0000;

/// Why an evaluation failed. Any of these aborts the whole run.
#[derive(Debug, Clone, Copy, PartialEq, Eq, Structural)]
pub enum EvalError {
    /// A record line could not be parsed.
    Record(ParseError),
    /// A query was scored without a ground-truth entry, or before any
    /// relevance file was loaded.
    UnknownQuery,
    /// A record with a numeric identity reached the matcher, which only
    /// compares bounding boxes.
    UnsupportedIdentity,
    /// Precision at `x` was requested of a ranked list shorter than `x`.
    PrecisionCutoffTooLarge,
    /// A score whose exact value would be a division by zero.
    UndefinedScore,
    /// A metric name outside the fixed metric set.
    UnknownMetric,
    /// The input ended inside a query block.
    UnterminatedBlock,
}

/// The three scores computed for one query.
#[derive(Debug, Clone, Copy, PartialEq, Eq, Structural)]
pub struct QueryScores {
    pub prec_at_5: u64,
    pub prec_at_10: u64,
    pub ap: u64,
}

impl DeepView for QueryScores {
    type V = QueryScores;

    open spec fn deep_view(&self) -> QueryScores {
        *self
    }
}

/// A query index as the contracts see it: query name to token records, in
/// file order.
pub type IndexModel = Seq<(Seq<char>, Seq<TokenModel>)>;

/// A metrics table as the contracts see it.
pub type TableModel = Seq<(Seq<char>, QueryScores)>;

/// Every record of every entry is well formed.
pub open spec fn index_wf(ix: IndexModel) -> bool {
    forall|i: int, j: int|
        0 <= i < ix.len() && 0 <= j < ix[i].1.len() ==> token_model_wf(#[trigger] ix[i].1[j])
}

/// The first entry stored under `key`, scanning in file order.
pub open spec fn spec_lookup(ix: IndexModel, key: Seq<char>) -> Option<Seq<TokenModel>>
    decreases ix.len(),
{
    if ix.len() == 0 {
        None
    } else if ix[0].0 == key {
        Some(ix[0].1)
    } else {
        spec_lookup(ix.skip(1), key)
    }
}

/// Replace the first entry stored under `key`, or append one; how both the
/// metrics table and the query indexes store a completed block.
pub open spec fn spec_upsert<V>(t: Seq<(Seq<char>, V)>, key: Seq<char>, v: V) -> Seq<
    (Seq<char>, V),
>
    decreases t.len(),
{
    if t.len() == 0 {
        seq![(key, v)]
    } else if t[0].0 == key {
        seq![(key, v)] + t.skip(1)
    } else {
        seq![t[0]] + spec_upsert(t.skip(1), key, v)
    }
}

/// Storing a block of well-formed records keeps a query index well formed.
pub proof fn lemma_upsert_index_wf(ix: IndexModel, key: Seq<char>, v: Seq<TokenModel>)
    requires
        index_wf(ix),
        forall|j: int| 0 <= j < v.len() ==> token_model_wf(#[trigger] v[j]),
    ensures
        index_wf(spec_upsert(ix, key, v)),
    decreases ix.len(),
{
    let out = spec_upsert(ix, key, v);
    if ix.len() == 0 {
        assert forall|i: int, j: int|
            0 <= i < out.len() && 0 <= j < out[i].1.len() implies token_model_wf(
            #[trigger] out[i].1[j],
        ) by {
            assert(out[i] == (key, v));
        }
    } else if ix[0].0 == key {
        assert forall|i: int, j: int|
            0 <= i < out.len() && 0 <= j < out[i].1.len() implies token_model_wf(
            #[trigger] out[i].1[j],
        ) by {
            if i > 0 {
                assert(out[i] == ix[i]);
                assert(token_model_wf(ix[i].1[j]));
            }
        }
    } else {
        assert forall|i: int, j: int|
            0 <= i < ix.skip(1).len() && 0 <= j < ix.skip(1)[i].1.len() implies token_model_wf(
            #[trigger] ix.skip(1)[i].1[j],
        ) by {
            assert(ix.skip(1)[i] == ix[i + 1]);
            assert(token_model_wf(ix[i + 1].1[j]));
        }
        lemma_upsert_index_wf(ix.skip(1), key, v);
        let rest = spec_upsert(ix.skip(1), key, v);
        assert forall|i: int, j: int|
            0 <= i < out.len() && 0 <= j < out[i].1.len() implies token_model_wf(
            #[trigger] out[i].1[j],
        ) by {
            if i == 0 {
                assert(out[0] == ix[0]);
                assert(token_model_wf(ix[0].1[j]));
            } else {
                assert(out[i] == rest[i - 1]);
                assert(token_model_wf(rest[i - 1].1[j]));
            }
        }
    }
}

/// Whether two records stand at the same document position: both must carry
/// bounding boxes, and the matcher has no rule for numeric identities.
pub open spec fn tokens_match_spec(a: TokenModel, b: TokenModel) -> Result<bool, EvalError> {
    match (a.id, b.id) {
        (TokenId::BoundingBox(ra), TokenId::BoundingBox(rb)) => Ok(rects_same_position(ra, rb)),
        _ => Err(EvalError::UnsupportedIdentity),
    }
}

/// Exact equality of position and size.
pub open spec fn rects_same_position(a: Rectangle, b: Rectangle) -> bool {
    &&& a.min.x->0 == b.min.x->0
    &&& a.min.y->0 == b.min.y->0
    &&& crate::rectangles::spec_width(a) == crate::rectangles::spec_width(b)
    &&& crate::rectangles::spec_height(a) == crate::rectangles::spec_height(b)
}

/// Whether `t` matches some ground-truth record, scanning in order and
/// stopping at the first match; a numeric identity seen before any match is
/// an error.
pub open spec fn spec_is_hit(gt: Seq<TokenModel>, t: TokenModel) -> Result<bool, EvalError>
    decreases gt.len(),
{
    if gt.len() == 0 {
        Ok(false)
    } else {
        match tokens_match_spec(gt[0], t) {
            Err(e) => Err(e),
            Ok(true) => Ok(true),
            Ok(false) => spec_is_hit(gt.skip(1), t),
        }
    }
}

/// The number of hits among the first `k` ranked results.
pub open spec fn spec_hits(gt: Seq<TokenModel>, res: Seq<TokenModel>, k: int) -> Result<
    int,
    EvalError,
>
    decreases k,
{
    if k <= 0 {
        Ok(0)
    } else {
        match spec_hits(gt, res, k - 1) {
            Err(e) => Err(e),
            Ok(c) => match spec_is_hit(gt, res[k - 1]) {
                Err(e) => Err(e),
                Ok(b) => Ok(
                    c + if b {
                        1int
                    } else {
                        0int
                    },
                ),
            },
        }
    }
}

/// A hit-count error at some cutoff stays the same at every larger cutoff.
pub proof fn lemma_hits_err_propagates(
    gt: Seq<TokenModel>,
    res: Seq<TokenModel>,
    j: int,
    k: int,
)
    requires
        0 <= j <= k,
        spec_hits(gt, res, j) is Err,
    ensures
        spec_hits(gt, res, k) == spec_hits(gt, res, j),
    decreases k - j,
{
    if k > j {
        lemma_hits_err_propagates(gt, res, j, k - 1);
    }
}

/// An average-precision error at some cutoff stays the same at every larger
/// cutoff.
pub proof fn lemma_ap_terms_err_propagates(
    gt: Seq<TokenModel>,
    res: Seq<TokenModel>,
    j: int,
    k: int,
)
    requires
        0 <= j <= k,
        spec_ap_terms(gt, res, j) is Err,
    ensures
        spec_ap_terms(gt, res, k) == spec_ap_terms(gt, res, j),
    decreases k - j,
{
    if k > j {
        lemma_ap_terms_err_propagates(gt, res, j, k - 1);
    }
}

/// Precision at cutoff `x` of a ranked list against a ground-truth list,
/// scaled: the hits among the first `x` results over `min(x, |gt|)`.
pub open spec fn spec_precision_at_x(
    rel: Option<IndexModel>,
    q: Seq<char>,
    res: Seq<TokenModel>,
    x: int,
) -> Result<u64, EvalError> {
    if x > res.len() {
        Err(EvalError::PrecisionCutoffTooLarge)
    } else {
        match rel {
            None => Err(EvalError::UnknownQuery),
            Some(ix) => match spec_lookup(ix, q) {
                None => Err(EvalError::UnknownQuery),
                Some(gt) => match spec_hits(gt, res, x) {
                    Err(e) => Err(e),
                    Ok(h) => {
                        let den: int = if gt.len() < x {
                            gt.len() as int
                        } else {
                            x
                        };
                        if den <= 0 {
                            Err(EvalError::UndefinedScore)
                        } else {
                            Ok((h * SCORE_SCALE / den) as u64)
                        }
                    },
                },
            },
        }
    }
}

/// The scaled average-precision terms over the first `k` ranks: at each rank
/// that is a hit, the scaled running precision at that rank.
pub open spec fn spec_ap_terms(gt: Seq<TokenModel>, res: Seq<TokenModel>, k: int) -> Result<
    int,
    EvalError,
>
    decreases k,
{
    if k <= 0 {
        Ok(0)
    } else {
        match spec_ap_terms(gt, res, k - 1) {
            Err(e) => Err(e),
            Ok(sum) => match spec_is_hit(gt, res[k - 1]) {
                Err(e) => Err(e),
                Ok(b) => {
                    if b {
                        Ok(sum + spec_hits(gt, res, k)->Ok_0 * SCORE_SCALE / k)
                    } else {
                        Ok(sum)
                    }
                },
            },
        }
    }
}

/// Uninterpolated average precision over the entire ranked list, scaled: the
/// sum of the scaled running precisions at the hit ranks over the number of
/// ground-truth records.
pub open spec fn spec_average_precision(
    rel: Option<IndexModel>,
    q: Seq<char>,
    res: Seq<TokenModel>,
) -> Result<u64, EvalError> {
    match rel {
        None => Err(EvalError::UnknownQuery),
        Some(ix) => match spec_lookup(ix, q) {
            None => Err(EvalError::UnknownQuery),
            Some(gt) => match spec_ap_terms(gt, res, res.len() as int) {
                Err(e) => Err(e),
                Ok(terms) => {
                    if gt.len() == 0 {
                        Err(EvalError::UndefinedScore)
                    } else {
                        Ok((terms / gt.len() as int) as u64)
                    }
                },
            },
        },
    }
}

/// Scoring one query: its three metrics, stored under its name.
pub open spec fn spec_score_query(
    rel: Option<IndexModel>,
    table: TableModel,
    q: Seq<char>,
    res: Seq<TokenModel>,
) -> Result<TableModel, EvalError> {
    match spec_precision_at_x(rel, q, res, 5) {
        Err(e) => Err(e),
        Ok(p5) => match spec_precision_at_x(rel, q, res, 10) {
            Err(e) => Err(e),
            Ok(p10) => match spec_average_precision(rel, q, res) {
                Err(e) => Err(e),
                Ok(ap) => Ok(
                    spec_upsert(table, q, QueryScores { prec_at_5: p5, prec_at_10: p10, ap }),
                ),
            },
        },
    }
}

/// The score an entry holds for a metric name of the fixed set.
pub open spec fn score_for(s: QueryScores, name: Seq<char>) -> u64 {
    if name == "precAt5"@ {
        s.prec_at_5
    } else if name == "precAt10"@ {
        s.prec_at_10
    } else {
        s.ap
    }
}

/// The sum of a metric's scores over a table.
pub open spec fn spec_score_sum(t: TableModel, name: Seq<char>) -> int
    decreases t.len(),
{
    if t.len() == 0 {
        0
    } else {
        spec_score_sum(t.drop_last(), name) + score_for(t.last().1, name)
    }
}

/// The unweighted mean of a metric over all scored queries, floored.
pub open spec fn spec_mean(t: TableModel, name: Seq<char>) -> Result<u64, EvalError> {
    if name != "precAt5"@ && name != "precAt10"@ && name != "ap"@ {
        Err(EvalError::UnknownMetric)
    } else if t.len() == 0 {
        Err(EvalError::UndefinedScore)
    } else {
        Ok((spec_score_sum(t, name) / t.len() as int) as u64)
    }
}

/// The evaluator: the loaded ground truth, the parsed ranked results, and
/// the scores computed so far.
pub struct RetrievalData {
    pub relevant_tokens: Option<Vec<(String, Vec<RelevantToken>)>>,
    pub result_tokens: Option<Vec<(String, Vec<RelevantToken>)>>,
    pub benchmark_results: Vec<(String, QueryScores)>,
}

impl RetrievalData {
    /// The loaded ground truth as the contracts see it.
    pub open spec fn rel_model(&self) -> Option<IndexModel> {
        match self.relevant_tokens {
            Some(ref v) => Some(v.deep_view()),
            None => None,
        }
    }

    /// The parsed ranked results as the contracts see it.
    pub open spec fn res_model(&self) -> Option<IndexModel> {
        match self.result_tokens {
            Some(ref v) => Some(v.deep_view()),
            None => None,
        }
    }

    /// The metrics table as the contracts see it.
    pub open spec fn table_model(&self) -> TableModel {
        self.benchmark_results.deep_view()
    }

    /// Every loaded record is well formed.
    pub open spec fn wf(&self) -> bool {
        self.rel_model() matches Some(ix) ==> index_wf(ix)
    }

    /// A fresh evaluator: nothing loaded, nothing scored.
    pub fn new() -> (r: RetrievalData)
        ensures
            r.relevant_tokens is None,
            r.result_tokens is None,
            r.table_model() =~= Seq::<(Seq<char>, QueryScores)>::empty(),
            r.wf(),
    {
        RetrievalData { relevant_tokens: None, result_tokens: None, benchmark_results: Vec::new() }
    }

    /// The number of recall points a configuration may ask for; accepted but
    /// not used by the average-precision formula, which runs over all ranks.
    pub fn num_recall_points(&self) -> (r: usize)
        ensures
            r == 11,
    {
        11
    }

    /// Whether two records stand at the same document position. Matching has
    /// no rule for numeric identities: those are an error.
    pub fn tokens_match(&self, a: &RelevantToken, b: &RelevantToken) -> (r: Result<bool, EvalError>)
        requires
            token_model_wf(a@),
            token_model_wf(b@),
        ensures
            r == tokens_match_spec(a@, b@),
    {
        let a_box = match a.id {
            TokenId::BoundingBox(ref r) => r,
            TokenId::NumericId(_) => {
                return Err(EvalError::UnsupportedIdentity);
            },
        };
        let b_box = match b.id {
            TokenId::BoundingBox(ref r) => r,
            TokenId::NumericId(_) => {
                return Err(EvalError::UnsupportedIdentity);
            },
        };
        Ok(
            a_box.min.get_x() == b_box.min.get_x() && a_box.min.get_y() == b_box.min.get_y()
                && a_box.width() == b_box.width() && a_box.height() == b_box.height(),
        )
    }

    /// Whether `token` matches some ground-truth record in `gt`, in scan
    /// order, stopping at the first match.
    fn hit_in_list(&self, gt: &Vec<RelevantToken>, token: &RelevantToken) -> (r: Result<
        bool,
        EvalError,
    >)
        requires
            forall|j: int| 0 <= j < gt@.len() ==> token_model_wf(#[trigger] gt@[j]@),
            token_model_wf(token@),
        ensures
            r == spec_is_hit(gt.deep_view(), token@),
    {
        let ghost gtm = gt.deep_view();
        proof {
            assert(gtm.skip(0) =~= gtm);
        }
        let n = gt.len();
        let mut k: usize = 0;
        while k < n
            invariant
                k <= n == gt@.len(),
                gtm == gt.deep_view(),
                forall|j: int| 0 <= j < gt@.len() ==> token_model_wf(#[trigger] gt@[j]@),
                token_model_wf(token@),
                spec_is_hit(gtm, token@) == spec_is_hit(gtm.skip(k as int), token@),
            decreases n - k,
        {
            proof {
                assert(gtm.skip(k as int)[0] == gtm[k as int]);
                assert(gtm.skip(k as int).skip(1) =~= gtm.skip(k + 1));
                assert(gtm[k as int] == gt@[k as int]@);
            }
            match self.tokens_match(&gt[k], token) {
                Err(e) => {
                    return Err(e);
                },
                Ok(true) => {
                    return Ok(true);
                },
                Ok(false) => {},
            }
            k = k + 1;
        }
        proof {
            assert(gtm.skip(n as int) =~= Seq::<TokenModel>::empty());
        }
        Ok(false)
    }

    /// Find the ground-truth records of a query in the loaded relevance
    /// index, scanning in file order.
    fn lookup_relevants(&self, queryname: &String) -> (r: Result<&Vec<RelevantToken>, EvalError>)
        ensures
            match r {
                Ok(gt) => self.rel_model() matches Some(ix) && spec_lookup(ix, queryname@)
                    == Some(gt.deep_view()),
                Err(e) => e == EvalError::UnknownQuery && (self.rel_model() matches Some(ix)
                    ==> spec_lookup(ix, queryname@) is None) && (self.rel_model() is None
                    ==> e == EvalError::UnknownQuery),
            },
            self.wf() ==> (r matches Ok(gt) ==> forall|j: int|
                0 <= j < gt@.len() ==> token_model_wf(#[trigger] gt@[j]@)),
    {
        let ix = match self.relevant_tokens {
            Some(ref v) => v,
            None => {
                return Err(EvalError::UnknownQuery);
            },
        };
        let ghost ixm = ix.deep_view();
        proof {
            assert(self.rel_model() == Some(ixm));
            assert(ixm.skip(0) =~= ixm);
        }
        let n = ix.len();
        let mut k: usize = 0;
        while k < n
            invariant
                k <= n == ix@.len(),
                ixm == ix.deep_view(),
                self.rel_model() == Some(ixm),
                spec_lookup(ixm, queryname@) == spec_lookup(ixm.skip(k as int), queryname@),
            decreases n - k,
        {
            proof {
                assert(ixm.skip(k as int)[0] == ixm[k as int]);
                assert(ixm.skip(k as int).skip(1) =~= ixm.skip(k + 1));
                assert(ixm[k as int] == (ix@[k as int].0@, ix@[k as int].1.deep_view()));
            }
            if ix[k].0.eq(queryname) {
                proof {
                    assert(spec_lookup(ixm, queryname@) == Some(ix@[k as int].1.deep_view()));
                    if self.wf() {
                        assert(index_wf(ixm));
                        assert forall|j: int| 0 <= j < ix@[k as int].1@.len() implies
                            token_model_wf(#[trigger] ix@[k as int].1@[j]@) by {
                            assert(ixm[k as int].1[j] == ix@[k as int].1@[j]@);
                            assert(token_model_wf(ixm[k as int].1[j]));
                        }
                    }
                }
                return Ok(&ix[k].1);
            }
            k = k + 1;
        }
        proof {
            assert(ixm.skip(n as int) =~= Seq::<(Seq<char>, Seq<TokenModel>)>::empty());
        }
        Err(EvalError::UnknownQuery)
    }

    /// Whether `token` matches some ground-truth record of the query. The
    /// relevance index must already be loaded and hold the query.
    pub fn is_this_a_hit(&self, queryname: &String, token: &RelevantToken) -> (r: Result<
        bool,
        EvalError,
    >)
        requires
            self.wf(),
            token_model_wf(token@),
        ensures
            r == match self.rel_model() {
                None => Err::<bool, EvalError>(EvalError::UnknownQuery),
                Some(ix) => match spec_lookup(ix, queryname@) {
                    None => Err::<bool, EvalError>(EvalError::UnknownQuery),
                    Some(gt) => spec_is_hit(gt, token@),
                },
            },
    {
        let gt = match self.lookup_relevants(queryname) {
            Ok(gt) => gt,
            Err(e) => {
                return Err(e);
            },
        };
        self.hit_in_list(gt, token)
    }

    /// Precision at cutoff `x`: the hits among the first `x` ranked results,
    /// scaled by `SCORE_SCALE` and divided by `min(x, |ground truth|)`. A
    /// list shorter than `x` is an error, never truncated or padded.
    pub fn precision_at_x(&self, queryname: &String, results: &Vec<RelevantToken>, x: usize) -> (r:
        Result<u64, EvalError>)
        requires
            self.wf(),
            forall|j: int| 0 <= j < results@.len() ==> token_model_wf(#[trigger] results@[j]@),
            results@.len() <= MAX_RANKED_RESULTS,
        ensures
            r == spec_precision_at_x(self.rel_model(), queryname@, results.deep_view(), x as int),
    {
        let ghost resm = results.deep_view();
        if x > results.len() {
            return Err(EvalError::PrecisionCutoffTooLarge);
        }
        let gt = match self.lookup_relevants(queryname) {
            Ok(gt) => gt,
            Err(e) => {
                return Err(e);
            },
        };
        let ghost gtm = gt.deep_view();
        let mut hits: usize = 0;
        let mut i: usize = 0;
        while i < x
            invariant
                i <= x <= results@.len() <= MAX_RANKED_RESULTS,
                hits <= i,
                resm == results.deep_view(),
                gtm == gt.deep_view(),
                self.wf(),
                forall|j: int| 0 <= j < gt@.len() ==> token_model_wf(#[trigger] gt@[j]@),
                forall|j: int| 0 <= j < results@.len() ==> token_model_wf(#[trigger] results@[j]@),
                self.rel_model() matches Some(ixq) && spec_lookup(ixq, queryname@) == Some(gtm),
                spec_hits(gtm, resm, i as int) == Ok::<int, EvalError>(hits as int),
            decreases x - i,
        {
            proof {
                assert(resm[i as int] == results@[i as int]@);
            }
            match self.hit_in_list(gt, &results[i]) {
                Err(e) => {
                    proof {
                        assert(spec_hits(gtm, resm, i + 1) == Err::<int, EvalError>(e));
                        lemma_hits_err_propagates(gtm, resm, i + 1, x as int);
                    }
                    return Err(e);
                },
                Ok(true) => {
                    hits = hits + 1;
                },
                Ok(false) => {},
            }
            i = i + 1;
        }
        let den: usize = if gt.len() < x {
            gt.len()
        } else {
            x
        };
        if den == 0 {
            return Err(EvalError::UndefinedScore);
        }
        proof {
            assert((hits as u64) * SCORE_SCALE <= MAX_RANKED_RESULTS * SCORE_SCALE) by (
            nonlinear_arith)
                requires
                    hits <= MAX_RANKED_RESULTS,
            ;
        }
        Ok((hits as u64) * SCORE_SCALE / (den as u64))
    }

    /// Precision at cutoff 5.
    pub fn precision_at_5(&self, queryname: &String, results: &Vec<RelevantToken>) -> (r: Result<
        u64,
        EvalError,
    >)
        requires
            self.wf(),
            forall|j: int| 0 <= j < results@.len() ==> token_model_wf(#[trigger] results@[j]@),
            results@.len() <= MAX_RANKED_RESULTS,
        ensures
            r == spec_precision_at_x(self.rel_model(), queryname@, results.deep_view(), 5),
    {
        self.precision_at_x(queryname, results, 5)
    }

    /// Precision at cutoff 10.
    pub fn precision_at_10(&self, queryname: &String, results: &Vec<RelevantToken>) -> (r: Result<
        u64,
        EvalError,
    >)
        requires
            self.wf(),
            forall|j: int| 0 <= j < results@.len() ==> token_model_wf(#[trigger] results@[j]@),
            results@.len() <= MAX_RANKED_RESULTS,
        ensures
            r == spec_precision_at_x(self.rel_model(), queryname@, results.deep_view(), 10),
    {
        self.precision_at_x(queryname, results, 10)
    }

    /// Uninterpolated average precision over the entire ranked list: the
    /// scaled running precision at each hit rank, summed and divided by the
    /// number of ground-truth records.
    pub fn average_precision(&self, queryname: &String, results: &Vec<RelevantToken>) -> (r: Result<
        u64,
        EvalError,
    >)
        requires
            self.wf(),
            forall|j: int| 0 <= j < results@.len() ==> token_model_wf(#[trigger] results@[j]@),
            results@.len() <= MAX_RANKED_RESULTS,
        ensures
            r == spec_average_precision(self.rel_model(), queryname@, results.deep_view()),
    {
        let ghost resm = results.deep_view();
        let gt = match self.lookup_relevants(queryname) {
            Ok(gt) => gt,
            Err(e) => {
                return Err(e);
            },
        };
        let ghost gtm = gt.deep_view();
        let n = results.len();
        let mut hits: usize = 0;
        let mut sum: u64 = 0;
        let mut i: usize = 0;
        while i < n
            invariant
                i <= n == results@.len(),
                results@.len() <= MAX_RANKED_RESULTS,
                hits <= i,
                sum <= (i as int) * SCORE_SCALE,
                resm == results.deep_view(),
                gtm == gt.deep_view(),
                self.wf(),
                forall|j: int| 0 <= j < gt@.len() ==> token_model_wf(#[trigger] gt@[j]@),
                forall|j: int| 0 <= j < results@.len() ==> token_model_wf(#[trigger] results@[j]@),
                self.rel_model() matches Some(ixq) && spec_lookup(ixq, queryname@) == Some(gtm),
                spec_hits(gtm, resm, i as int) == Ok::<int, EvalError>(hits as int),
                spec_ap_terms(gtm, resm, i as int) == Ok::<int, EvalError>(sum as int),
            decreases n - i,
        {
            proof {
                assert(resm[i as int] == results@[i as int]@);
                assert((i as int) * SCORE_SCALE <= (MAX_RANKED_RESULTS - 1) * SCORE_SCALE) by (
                nonlinear_arith)
                    requires
                        i <= MAX_RANKED_RESULTS - 1,
                ;
            }
            match self.hit_in_list(gt, &results[i]) {
                Err(e) => {
                    proof {
                        assert(spec_ap_terms(gtm, resm, i + 1) == Err::<int, EvalError>(e));
                        lemma_ap_terms_err_propagates(gtm, resm, i + 1, n as int);
                        assert(resm.len() == n as int);
                    }
                    return Err(e);
                },
                Ok(true) => {
                    hits = hits + 1;
                    let rank = (i + 1) as u64;
                    proof {
                        assert((hits as u64) * SCORE_SCALE <= rank * SCORE_SCALE) by (
                        nonlinear_arith)
                            requires
                                hits <= rank,
                        ;
                        assert(rank * SCORE_SCALE <= MAX_RANKED_RESULTS * SCORE_SCALE) by (
                        nonlinear_arith)
                            requires
                                rank <= MAX_RANKED_RESULTS,
                        ;
                        lemma_div_is_ordered(
                            (hits as u64) * SCORE_SCALE,
                            rank * SCORE_SCALE,
                            rank as int,
                        );
                        lemma_div_multiples_vanish(SCORE_SCALE as int, rank as int);
                        assert(rank * SCORE_SCALE == (rank as int) * (SCORE_SCALE as int));
                        assert(((rank as int) * (SCORE_SCALE as int)) / (rank as int)
                            == SCORE_SCALE);
                    }
                    let term = (hits as u64) * SCORE_SCALE / rank;
                    assert(term <= SCORE_SCALE);
                    sum = sum + term;
                },
                Ok(false) => {},
            }
            i = i + 1;
        }
        if gt.len() == 0 {
            return Err(EvalError::UndefinedScore);
        }
        proof {
            assert(resm.len() == n as int);
        }
        Ok(sum / (gt.len() as u64))
    }

    /// Score one completed query block: compute its three metrics and store
    /// them under the query name, replacing any earlier entry for it.
    pub fn store_all_numerical_results(
        &mut self,
        queryname: &String,
        hitlist: &Vec<RelevantToken>,
    ) -> (r: Result<(), EvalError>)
        requires
            old(self).wf(),
            forall|j: int| 0 <= j < hitlist@.len() ==> token_model_wf(#[trigger] hitlist@[j]@),
            hitlist@.len() <= MAX_RANKED_RESULTS,
        ensures
            final(self).relevant_tokens == old(self).relevant_tokens,
            final(self).result_tokens == old(self).result_tokens,
            final(self).wf(),
            match r {
                Ok(()) => spec_score_query(
                    old(self).rel_model(),
                    old(self).table_model(),
                    queryname@,
                    hitlist.deep_view(),
                ) == Ok::<TableModel, EvalError>(final(self).table_model()),
                Err(e) => spec_score_query(
                    old(self).rel_model(),
                    old(self).table_model(),
                    queryname@,
                    hitlist.deep_view(),
                ) == Err::<TableModel, EvalError>(e) && final(self).table_model() == old(
                    self,
                ).table_model(),
            },
    {
        let p5 = match self.precision_at_x(queryname, hitlist, 5) {
            Ok(v) => v,
            Err(e) => {
                return Err(e);
            },
        };
        let p10 = match self.precision_at_x(queryname, hitlist, 10) {
            Ok(v) => v,
            Err(e) => {
                return Err(e);
            },
        };
        let ap = match self.average_precision(queryname, hitlist) {
            Ok(v) => v,
            Err(e) => {
                return Err(e);
            },
        };
        let scores = QueryScores { prec_at_5: p5, prec_at_10: p10, ap };
        self.upsert_scores(queryname, scores);
        Ok(())
    }

    /// Store `scores` under `queryname`, replacing any earlier entry.
    fn upsert_scores(&mut self, queryname: &String, scores: QueryScores)
        ensures
            final(self).relevant_tokens == old(self).relevant_tokens,
            final(self).result_tokens == old(self).result_tokens,
            final(self).table_model() == spec_upsert(
                old(self).table_model(),
                queryname@,
                scores,
            ),
    {
        upsert_entry(&mut self.benchmark_results, queryname, scores);
    }

    /// The fixed metric set, in the order reports render it.
    pub fn computed_benchmarks(&self) -> (r: Vec<String>)
        ensures
            r@.len() == 3,
            r@[0]@ == "precAt5"@,
            r@[1]@ == "precAt10"@,
            r@[2]@ == "ap"@,
    {
        let mut r: Vec<String> = Vec::new();
        r.push("precAt5".to_owned());
        r.push("precAt10".to_owned());
        r.push("ap".to_owned());
        r
    }

    /// The unweighted mean of one metric over all scored queries; the metric
    /// must be of the fixed set and at least one query must have been
    /// scored.
    pub fn compute_average_benchmark(&self, benchmark: &str) -> (r: Result<u64, EvalError>)
        ensures
            r == spec_mean(self.table_model(), benchmark@),
    {
        let is_p5 = str_eq(benchmark, "precAt5");
        let is_p10 = str_eq(benchmark, "precAt10");
        let is_ap = str_eq(benchmark, "ap");
        if !is_p5 && !is_p10 && !is_ap {
            return Err(EvalError::UnknownMetric);
        }
        let n = self.benchmark_results.len();
        if n == 0 {
            return Err(EvalError::UndefinedScore);
        }
        let ghost t = self.benchmark_results.deep_view();
        let mut sum: u128 = 0;
        let mut k: usize = 0;
        while k < n
            invariant
                k <= n == self.benchmark_results@.len(),
                t == self.benchmark_results.deep_view(),
                is_p5 == (benchmark@ == "precAt5"@),
                is_p10 == (benchmark@ == "precAt10"@),
                sum == spec_score_sum(t.take(k as int), benchmark@),
                sum <= (k as int) * (u64::MAX as int),
            decreases n - k,
        {
            proof {
                assert(t.take(k + 1).drop_last() =~= t.take(k as int));
                assert(t.take(k + 1).last() == t[k as int]);
                assert(t[k as int] == (self.benchmark_results@[k as int].0@,
                self.benchmark_results@[k as int].1));
                assert((k as int) * (u64::MAX as int) + u64::MAX <= (k + 1) * (u64::MAX as int))
                    by (nonlinear_arith);
            }
            let entry = &self.benchmark_results[k];
            let v: u64 = if is_p5 {
                entry.1.prec_at_5
            } else if is_p10 {
                entry.1.prec_at_10
            } else {
                entry.1.ap
            };
            sum = sum + v as u128;
            k = k + 1;
        }
        proof {
            assert(t.take(n as int) =~= t);
            assert(sum <= (n as int) * (u64::MAX as int));
            lemma_div_is_ordered(sum as int, (n as int) * (u64::MAX as int), n as int);
            lemma_div_multiples_vanish(u64::MAX as int, n as int);
            assert(((n as int) * (u64::MAX as int)) / (n as int) == u64::MAX);
        }
        Ok((sum / (n as u128)) as u64)
    }
}

/// Replace the first entry stored under `key` in `table`, or append one:
/// the store discipline of both the metrics table and the query indexes.
pub(crate) fn upsert_entry<V: DeepView>(table: &mut Vec<(String, V)>, key: &String, val: V)
    ensures
        final(table).deep_view() == spec_upsert(old(table).deep_view(), key@, val.deep_view()),
{
    let ghost vm = val.deep_view();
    let ghost t0 = table.deep_view();
    proof {
        assert(t0.skip(0) =~= t0);
        assert(t0.take(0) =~= Seq::<(Seq<char>, V::V)>::empty());
        assert(t0.take(0) + spec_upsert(t0.skip(0), key@, vm) =~= spec_upsert(t0, key@, vm));
    }
    let n = table.len();
    let mut k: usize = 0;
    while k < n
        invariant
            k <= n == table@.len(),
            t0 == table.deep_view(),
            table@ == old(table)@,
            vm == val.deep_view(),
            spec_upsert(t0, key@, vm) =~= t0.take(k as int) + spec_upsert(
                t0.skip(k as int),
                key@,
                vm,
            ),
            forall|j: int| 0 <= j < k ==> t0[j].0 != key@,
        decreases n - k,
    {
        proof {
            assert(t0.skip(k as int)[0] == t0[k as int]);
            assert(t0.skip(k as int).skip(1) =~= t0.skip(k + 1));
            assert(t0[k as int] == (table@[k as int].0@, table@[k as int].1.deep_view()));
        }
        if table[k].0.eq(key) {
            table.set(k, (key.clone(), val));
            proof {
                assert(table.deep_view() =~= t0.take(k as int) + (seq![(key@, vm)] + t0.skip(
                    k + 1,
                )));
                assert(spec_upsert(t0.skip(k as int), key@, vm) =~= seq![(key@, vm)] + t0.skip(
                    k + 1,
                ));
            }
            return ;
        }
        proof {
            assert(spec_upsert(t0.skip(k as int), key@, vm) =~= seq![t0[k as int]] + spec_upsert(
                t0.skip(k + 1),
                key@,
                vm,
            ));
            assert(t0.take(k as int).push(t0[k as int]) =~= t0.take(k + 1));
            assert(t0.take(k as int) + (seq![t0[k as int]] + spec_upsert(t0.skip(k + 1), key@, vm))
                =~= t0.take(k + 1) + spec_upsert(t0.skip(k + 1), key@, vm));
        }
        k = k + 1;
    }
    proof {
        assert(t0.skip(n as int) =~= Seq::<(Seq<char>, V::V)>::empty());
    }
    table.push((key.clone(), val));
    proof {
        assert(table.deep_view() =~= t0.take(n as int) + seq![(key@, vm)]);
        assert(t0.take(n as int) =~= t0);
    }
}

/// Character-by-character string equality.
pub(crate) fn str_eq(a: &str, b: &str) -> (r: bool)
    ensures
        r == (a@ == b@),
{
    let na = a.unicode_len();
    let nb = b.unicode_len();
    if na != nb {
        proof {
            assert(a@ != b@);
        }
        return false;
    }
    let mut i: usize = 0;
    while i < na
        invariant
            i <= na == a@.len(),
            na == nb == b@.len(),
            forall|j: int| 0 <= j < i ==> a@[j] == b@[j],
        decreases na - i,
    {
        if a.get_char(i) != b.get_char(i) {
            return false;
        }
        i = i + 1;
    }
    proof {
        assert(a@ =~= b@);
    }
    true
}

} // verus!
