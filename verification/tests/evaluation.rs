use retrieval_eval::metrics::EvalError;
use retrieval_eval::metrics::SCORE_SCALE;
use retrieval_eval::FileType;
use retrieval_eval::Relevance;
use retrieval_eval::RelevantToken;
use retrieval_eval::RetrievalData;
use retrieval_eval::TokenId;

fn record_line(doc: &str, x: u32, y: u32, w: u32, h: u32, rel: Option<&str>) -> String {
    match rel {
        Some(r) => format!(
            "<word document=\"{}\" x=\"{}\" y=\"{}\" width=\"{}\" height=\"{}\" Relevance=\"{}\" />",
            doc, x, y, w, h, r
        ),
        None => format!(
            "<word document=\"{}\" x=\"{}\" y=\"{}\" width=\"{}\" height=\"{}\" />",
            doc, x, y, w, h
        ),
    }
}

/// Two ground-truth blocks of nine records each. The first block's x
/// coordinates sum to 6435; the second block's y coordinates sum to 10921,
/// its widths to 2175 and its heights to 987; the relevance values of each
/// block sum to 8.0, one record per block relying on the default.
fn ground_truth_lines() -> Vec<String> {
    let mut lines = vec![String::from("<GTRel queryid=\"sb0000\">")];
    for i in 0..9u32 {
        let rel = match i {
            0 | 1 => Some("0.5"),
            2 => None,
            _ => Some("1.0"),
        };
        lines.push(record_line("pageA", 715, 100 + i, 10 + i, 20, rel));
    }
    lines.push(String::from("</GTRel>"));
    lines.push(String::from("<GTRel queryid=\"sb0001\">"));
    for i in 0..9u32 {
        let rel = match i {
            0 | 1 => Some("0.5"),
            2 => None,
            _ => Some("1.0"),
        };
        let y = if i < 8 { 1213 } else { 1217 };
        let w = if i < 8 { 242 } else { 239 };
        let h = if i < 8 { 110 } else { 107 };
        lines.push(record_line("pageB", 50 + i, y, w, h, rel));
    }
    lines.push(String::from("</GTRel>"));
    lines
}

/// Ranked results: ten per query. For sb0000 the first five are hits and the
/// rest are misses; for sb0001 the first four are hits.
fn results_lines() -> Vec<String> {
    let mut lines = vec![String::from("<Rel queryid=\"sb0000\">")];
    for i in 0..5u32 {
        lines.push(record_line("pageA", 715, 100 + i, 10 + i, 20, None));
    }
    for i in 0..5u32 {
        lines.push(record_line("pageA", 9000, 9000 + i, 5, 5, None));
    }
    lines.push(String::from("</Rel>"));
    lines.push(String::from("<Rel queryid=\"sb0001\">"));
    for i in 0..4u32 {
        lines.push(record_line("pageB", 50 + i, 1213, 242, 110, None));
    }
    for i in 0..6u32 {
        lines.push(record_line("pageB", 9000, 9000 + i, 5, 5, None));
    }
    lines.push(String::from("</Rel>"));
    lines
}

fn loaded() -> RetrievalData {
    let mut f = RetrievalData::new();
    f.parse_lines(FileType::RelevantTokensFile, &ground_truth_lines())
        .unwrap();
    f
}

fn find<'a, V>(entries: &'a [(String, V)], key: &str) -> &'a V {
    &entries.iter().find(|e| e.0 == key).unwrap().1
}

fn relevance_as_f64(r: Relevance) -> f64 {
    r.num as f64 / 10f64.powi(r.places as i32)
}

#[test]
fn test_two_query_blocks_checksums() {
    let f = loaded();
    let res = f.relevant_tokens.as_ref().unwrap();
    assert_eq!(res.len(), 2);
    assert!(res.iter().any(|e| e.0 == "sb0000"));
    assert!(res.iter().any(|e| e.0 == "sb0001"));
    let q0 = find(res, "sb0000");
    let q1 = find(res, "sb0001");
    assert_eq!(q0.len(), 9);
    assert_eq!(q1.len(), 9);
    let sum_x: u64 = q0
        .iter()
        .map(|t| match t.id {
            TokenId::BoundingBox(ref bb) => bb.min.get_x() as u64,
            TokenId::NumericId(_) => 0,
        })
        .sum();
    assert_eq!(sum_x, 6435);
    let sum_y: u64 = q1
        .iter()
        .map(|t| match t.id {
            TokenId::BoundingBox(ref bb) => bb.min.get_y() as u64,
            TokenId::NumericId(_) => 0,
        })
        .sum();
    assert_eq!(sum_y, 10921);
    let sum_w: u64 = q1
        .iter()
        .map(|t| match t.id {
            TokenId::BoundingBox(ref bb) => bb.width() as u64,
            TokenId::NumericId(_) => 0,
        })
        .sum();
    assert_eq!(sum_w, 2175);
    let sum_h: u64 = q1
        .iter()
        .map(|t| match t.id {
            TokenId::BoundingBox(ref bb) => bb.height() as u64,
            TokenId::NumericId(_) => 0,
        })
        .sum();
    assert_eq!(sum_h, 987);
    for q in [q0, q1] {
        let sum_rel: f64 = q.iter().map(|t| relevance_as_f64(t.get_relevance())).sum();
        assert!((sum_rel - 8.0).abs() < 1e-9);
    }
}

#[test]
fn test_precision_scores_per_query() {
    let mut f = loaded();
    f.parse_lines(FileType::ResultsFile, &results_lines()).unwrap();
    let q0 = find(&f.benchmark_results, "sb0000");
    let q1 = find(&f.benchmark_results, "sb0001");
    // precision@5 = 5/5 and 4/5; precision@10 = 5/9 and 4/9.
    assert_eq!(q0.prec_at_5, SCORE_SCALE);
    assert_eq!(q1.prec_at_5, 800_000);
    assert!((q0.prec_at_10 as f64 / SCORE_SCALE as f64 - 0.55555).abs() < 0.001);
    assert!((q1.prec_at_10 as f64 / SCORE_SCALE as f64 - 0.44444).abs() < 0.001);
    assert_eq!(q0.prec_at_10, 555_555);
    assert_eq!(q1.prec_at_10, 444_444);
    // Average precision: all hits lead the ranking, so each hit rank has
    // running precision one; 5/9 and 4/9 of the scale.
    assert_eq!(q0.ap, 555_555);
    assert_eq!(q1.ap, 444_444);
}

#[test]
fn test_mean_of_each_metric() {
    let mut f = loaded();
    f.parse_lines(FileType::ResultsFile, &results_lines()).unwrap();
    assert_eq!(f.compute_average_benchmark("precAt5"), Ok(900_000));
    assert_eq!(f.compute_average_benchmark("precAt10"), Ok(499_999));
    assert_eq!(f.compute_average_benchmark("ap"), Ok(499_999));
}

#[test]
fn test_unknown_metric_and_empty_table() {
    let mut f = loaded();
    assert_eq!(
        f.compute_average_benchmark("precAt5"),
        Err(EvalError::UndefinedScore)
    );
    f.parse_lines(FileType::ResultsFile, &results_lines()).unwrap();
    assert_eq!(
        f.compute_average_benchmark("bogus"),
        Err(EvalError::UnknownMetric)
    );
}

#[test]
fn test_computed_benchmarks_fixed_set() {
    let f = RetrievalData::new();
    let names = f.computed_benchmarks();
    assert_eq!(names, vec!["precAt5", "precAt10", "ap"]);
    assert_eq!(f.num_recall_points(), 11);
}

#[test]
fn test_precision_cutoff_exceeds_length() {
    let f = loaded();
    let results: Vec<RelevantToken> = find(f.relevant_tokens.as_ref().unwrap(), "sb0000").clone();
    let q = String::from("sb0000");
    assert_eq!(
        f.precision_at_x(&q, &results, 10),
        Err(EvalError::PrecisionCutoffTooLarge)
    );
    assert!(f.precision_at_x(&q, &results, 9).is_ok());
}

#[test]
fn test_precision_with_zero_cutoff_is_undefined() {
    let f = loaded();
    let results: Vec<RelevantToken> = find(f.relevant_tokens.as_ref().unwrap(), "sb0000").clone();
    let q = String::from("sb0000");
    assert_eq!(f.precision_at_x(&q, &results, 0), Err(EvalError::UndefinedScore));
}

#[test]
fn test_unknown_query_is_fatal() {
    let mut f = loaded();
    let mut lines = vec![String::from("<Rel queryid=\"nosuch\">")];
    lines.push(record_line("pageA", 715, 100, 10, 20, None));
    lines.push(record_line("pageA", 715, 101, 11, 20, None));
    lines.push(record_line("pageA", 715, 102, 12, 20, None));
    lines.push(record_line("pageA", 715, 103, 13, 20, None));
    lines.push(record_line("pageA", 715, 104, 14, 20, None));
    lines.push(String::from("</Rel>"));
    assert_eq!(
        f.parse_lines(FileType::ResultsFile, &lines),
        Err(EvalError::UnknownQuery)
    );
}

#[test]
fn test_unterminated_block_is_fatal() {
    let mut f = RetrievalData::new();
    let lines = vec![
        String::from("<GTRel queryid=\"sb0000\">"),
        record_line("pageA", 1, 2, 3, 4, None),
    ];
    assert_eq!(
        f.parse_lines(FileType::RelevantTokensFile, &lines),
        Err(EvalError::UnterminatedBlock)
    );
    assert!(f.relevant_tokens.is_none());
}

#[test]
fn test_record_error_is_fatal() {
    let mut f = RetrievalData::new();
    let lines = vec![
        String::from("<GTRel queryid=\"sb0000\">"),
        String::from("<word document=\"p\" x=\"oops\" y=\"2\" width=\"3\" height=\"4\" />"),
        String::from("</GTRel>"),
    ];
    let r = f.parse_lines(FileType::RelevantTokensFile, &lines);
    assert!(matches!(r, Err(EvalError::Record(_))));
}

#[test]
fn test_lines_outside_blocks_are_ignored() {
    let mut f = RetrievalData::new();
    let lines = vec![
        String::from("<?xml version=\"1.0\"?>"),
        String::from("<GTRel queryid=\"q\">"),
        record_line("p", 1, 2, 3, 4, None),
        String::from("</GTRel>"),
        String::from("trailing noise"),
    ];
    f.parse_lines(FileType::RelevantTokensFile, &lines).unwrap();
    let res = f.relevant_tokens.as_ref().unwrap();
    assert_eq!(res.len(), 1);
    assert_eq!(res[0].0, "q");
    assert_eq!(res[0].1.len(), 1);
}

#[test]
fn test_tokens_match_and_hits() {
    let f = loaded();
    let gt = find(f.relevant_tokens.as_ref().unwrap(), "sb0000");
    let a = &gt[0];
    let b = &gt[1];
    assert_eq!(f.tokens_match(a, a), Ok(true));
    assert_eq!(f.tokens_match(a, b), Ok(false));
    let q = String::from("sb0000");
    assert_eq!(f.is_this_a_hit(&q, a), Ok(true));
    let other = String::from("nosuch");
    assert_eq!(f.is_this_a_hit(&other, a), Err(EvalError::UnknownQuery));
}

#[test]
fn test_numeric_identity_unsupported() {
    let f = loaded();
    let mut tok = RelevantToken::new();
    tok.set_tokenid(TokenId::NumericId(3));
    let gt = find(f.relevant_tokens.as_ref().unwrap(), "sb0000");
    assert_eq!(
        f.tokens_match(&gt[0], &tok),
        Err(EvalError::UnsupportedIdentity)
    );
    let q = String::from("sb0000");
    assert_eq!(f.is_this_a_hit(&q, &tok), Err(EvalError::UnsupportedIdentity));
}
