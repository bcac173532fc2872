//! Scoring: confusion counts, page costs, token spend, confidences, and the rendered report.

use doc_router::bench::collect::{
    are_alike, caveats_for, cost_caveat, judge_report, run_caveats, Caveat, DocumentFailure,
    DocumentReport, GroupReport, JudgeReport, JudgeRows, ALL_SOURCES,
};
use doc_router::bench::layout::{byte_len, push_paragraph, split_words, wrap};
use doc_router::bench::meter::{JudgeMeter, TokenUsage};
use doc_router::bench::registry::SkippedJudge;
use doc_router::bench::report::{
    ceiling_verdict, one_line, render, skipped_reason, BenchReport, BucketFigures, CostFigures,
    JudgeFigures, JudgeSection, RowFigures,
};
use doc_router::bench::score::{
    bucket_index, confidence_report, cost, judge_spend, score_confidences, score_pages, Confusion,
    ConfidenceReport, ConfidenceValue, Cost, JudgeSpend, ReliabilityBucket, ScoredConfidence,
    SpendCost,
};
use doc_router::jev::judge::CallRecord;
use doc_router::judge::PageVerdict;
use doc_router::number::Real32;

fn single(value: f32) -> Real32 {
    Real32 { bits: value.to_bits() }
}

fn number(value: Real32) -> f32 {
    f32::from_bits(value.bits)
}

/// A verdict with a page number, a decision and a confidence.
fn verdict(page: u32, needs_ocr: bool, confidence: f32) -> PageVerdict {
    PageVerdict { page, needs_ocr, confidence: single(confidence), reason: "test".to_string() }
}

/// Verdicts for `0..n`, sending exactly `ocr` to OCR, all at confidence 1.0.
fn verdicts(n: u32, ocr: &[u32]) -> Vec<PageVerdict> {
    (0..n).map(|page| verdict(page, ocr.contains(&page), 1.0)).collect()
}

fn confusion(correct_ocr: u32, correct_local: u32, missed_ocr: u32, wasted_ocr: u32) -> Confusion {
    Confusion { correct_ocr, correct_local, missed_ocr, wasted_ocr }
}

const NO_USAGE: TokenUsage =
    TokenUsage { calls: 0, calls_reporting_usage: 0, input_tokens: 0, output_tokens: 0 };

/// A share of two counts, when there is one.
fn share(part: u32, whole: u32) -> Option<f64> {
    if whole == 0 {
        None
    } else {
        Some(f64::from(part) / f64::from(whole))
    }
}

fn precision(c: &Confusion) -> Option<f64> {
    share(c.correct_ocr, c.correct_ocr + c.wasted_ocr)
}

fn recall(c: &Confusion) -> Option<f64> {
    share(c.correct_ocr, c.truly_needs_ocr())
}

// confusion counts

#[test]
fn a_perfect_judge_has_no_errors_of_either_kind() {
    let scores = score_pages(&[1, 3], &verdicts(4, &[1, 3]));
    assert_eq!(scores.confusion, confusion(2, 2, 0, 0));
    assert!(scores.missed_ocr_pages.is_empty());
    assert!(scores.wasted_ocr_pages.is_empty());
    assert_eq!(scores.ocr_pages, vec![1, 3]);
    assert!(scores.route_exact);
}

#[test]
fn the_two_error_types_are_counted_separately_and_name_their_pages() {
    let scores = score_pages(&[1, 3], &verdicts(4, &[2, 3]));
    assert_eq!(scores.confusion, confusion(1, 1, 1, 1));
    assert_eq!(scores.missed_ocr_pages, vec![1]);
    assert_eq!(scores.wasted_ocr_pages, vec![2]);
    assert!(!scores.route_exact);
    assert_eq!(scores.confusion.pages(), 4);
}

#[test]
fn missing_every_ocr_page_is_recall_zero_and_no_precision() {
    let scores = score_pages(&[0, 1], &verdicts(2, &[]));
    assert_eq!(scores.confusion.missed_ocr, 2);
    assert_eq!(scores.confusion.wasted_ocr, 0);
    assert_eq!(recall(&scores.confusion), Some(0.0));
    assert_eq!(precision(&scores.confusion), None);
}

#[test]
fn sending_every_page_of_an_all_text_document_is_precision_zero() {
    let scores = score_pages(&[], &verdicts(3, &[0, 1, 2]));
    assert_eq!(scores.confusion.wasted_ocr, 3);
    assert_eq!(precision(&scores.confusion), Some(0.0));
    assert_eq!(recall(&scores.confusion), None);
}

#[test]
fn a_zero_page_document_scores_nothing_and_divides_by_nothing() {
    let scores = score_pages(&[], &[]);
    assert_eq!(scores.confusion, Confusion::default());
    assert_eq!(scores.confusion.pages(), 0);
    assert_eq!(precision(&scores.confusion), None);
    assert_eq!(recall(&scores.confusion), None);
    assert!(scores.route_exact);
}

#[test]
fn confusions_add_up_across_documents() {
    let mut total = Confusion::default();
    total.add(&score_pages(&[1], &verdicts(2, &[1])).confusion);
    total.add(&score_pages(&[0, 1], &verdicts(2, &[0])).confusion);
    assert_eq!(total, confusion(2, 1, 1, 0));
}

#[test]
fn routed_pages_come_back_in_page_order() {
    let scores =
        score_pages(&[4], &[verdict(9, true, 1.0), verdict(4, true, 0.5), verdict(5, true, 1.0)]);
    assert_eq!(scores.ocr_pages, vec![4, 5, 9]);
    assert_eq!(scores.wasted_ocr_pages, vec![9, 5]);
}

#[test]
fn ground_truth_is_the_same_for_every_judge_over_the_same_pages() {
    let judges = [
        confusion(59, 59, 28, 9),
        confusion(76, 59, 11, 9),
        confusion(87, 68, 0, 0),
        confusion(0, 68, 87, 0),
    ];
    for judge in &judges {
        assert_eq!(judge.truly_needs_ocr(), 87, "{judge:?}");
        assert_eq!(judge.truly_local(), 68, "{judge:?}");
        assert_eq!(
            judge.truly_needs_ocr() + judge.truly_local(),
            judge.pages(),
            "the two sides of truth are every page, once each: {judge:?}"
        );
    }
}

#[test]
fn a_judge_that_agrees_everywhere_still_has_two_sides_of_truth() {
    let all_text = confusion(0, 12, 0, 0);
    assert_eq!(all_text.truly_needs_ocr(), 0);
    assert_eq!(all_text.truly_local(), 12);
    assert_eq!(Confusion::default().truly_needs_ocr(), 0);
    assert_eq!(Confusion::default().truly_local(), 0);
}

#[test]
fn ground_truth_survives_a_change_of_judge() {
    let truth = [0, 2];
    for routed in [vec![], vec![0], vec![1, 3], vec![0, 1, 2, 3]] {
        let scores = score_pages(&truth, &verdicts(4, &routed));
        assert_eq!(scores.confusion.truly_needs_ocr(), 2);
        assert_eq!(scores.confusion.truly_local(), 2);
        assert_eq!(scores.route_exact, routed == truth);
    }
}

// costs

#[test]
fn cost_splits_over_and_underspend_and_never_nets_them_off() {
    let cost = cost(&confusion(4, 10, 2, 3));
    assert_eq!(cost.ocr_pages, 7);
    assert_eq!(cost.ideal_ocr_pages, 6);
    assert_eq!(cost.overspend_pages, 3);
    assert_eq!(cost.underspend_pages, 2);
    assert_eq!(cost.all_pages, 19);
    assert_eq!(cost.saving_beyond_ceiling_pages, -1);
}

#[test]
fn cost_of_a_perfect_judge_is_the_ideal_spend_and_nothing_else() {
    let cost = cost(&confusion(8, 16, 0, 0));
    assert_eq!((cost.ocr_pages, cost.ideal_ocr_pages), (8, 8));
    assert_eq!(cost.overspend_pages, 0);
    assert_eq!(cost.underspend_pages, 0);
}

#[test]
fn the_saving_is_measured_against_ocring_every_page() {
    let cost = cost(&confusion(59, 59, 28, 9));
    assert_eq!(cost.all_pages, 155);
    assert_eq!(cost.ocr_pages, 68, "68 pages routed to OCR");
    assert_eq!(cost.ideal_ocr_pages, 87, "87 pages a correct router must buy");
    assert_eq!(
        cost.saving_beyond_ceiling_pages, 19,
        "under the ceiling by 28 missed less 9 wasted"
    );
    assert_eq!(share(cost.ocr_pages, cost.all_pages), Some(68.0 / 155.0));
}

#[test]
fn a_judge_that_routes_nothing_saves_everything_and_is_visibly_broken() {
    let cost = cost(&confusion(0, 68, 87, 0));
    assert_eq!(cost.ocr_pages, 0, "infinitely cheap");
    assert_eq!(cost.all_pages, 155);
    assert_eq!(cost.all_pages - cost.ideal_ocr_pages, 68);
    assert_eq!(
        cost.saving_beyond_ceiling_pages, 87,
        "every page it should have bought is a page it 'saved'"
    );
}

#[test]
fn a_judge_sitting_exactly_on_the_ceiling_can_still_be_wrong_everywhere() {
    let c = confusion(10, 10, 5, 5);
    let cost = cost(&c);
    assert_eq!(cost.saving_beyond_ceiling_pages, 0);
    assert_eq!(cost.ocr_pages, cost.ideal_ocr_pages);
    assert!(!c.is_perfect(), "and it is not a correct router");
}

#[test]
fn a_zero_page_run_has_no_share_and_nothing_to_save() {
    let cost = cost(&Confusion::default());
    assert_eq!(cost.all_pages, 0);
    assert_eq!(cost.ocr_pages, 0);
    assert_eq!(cost.ideal_ocr_pages, 0);
    assert_eq!(cost.saving_beyond_ceiling_pages, 0);
    assert_eq!(share(cost.ocr_pages, cost.all_pages), None);
}

// token spend

fn call(input: Option<u64>, output: Option<u64>) -> CallRecord {
    CallRecord {
        pages: vec![0],
        elapsed_ms: 1,
        status: Some(200),
        input_tokens: input,
        output_tokens: output,
    }
}

#[test]
fn a_judge_that_has_not_been_called_reports_an_empty_usage() {
    assert_eq!(JudgeMeter::new(Vec::new()).usage(), NO_USAGE);
    assert_eq!(TokenUsage::default(), NO_USAGE);
}

#[test]
fn a_call_that_reported_nothing_still_counts_as_a_call() {
    let usage = JudgeMeter::new(vec![call(Some(100), Some(7)), call(None, None)]).usage();
    assert_eq!(usage.calls, 2);
    assert_eq!(usage.calls_reporting_usage, 1);
    assert_eq!(usage.input_tokens, 100);
    assert_eq!(usage.output_tokens, 7);
}

#[test]
fn the_meter_reads_the_judges_own_log_and_not_a_snapshot_of_it() {
    let mut meter = JudgeMeter::new(Vec::new());
    assert_eq!(meter.usage().calls, 0);
    meter.log.push(call(Some(5), None));
    assert_eq!(meter.usage().calls, 1);
    assert_eq!(meter.usage().input_tokens, 5);
}

#[test]
fn either_count_makes_a_call_one_that_reported() {
    let usage = JudgeMeter::new(vec![call(None, Some(3)), call(Some(2), None)]).usage();
    assert_eq!(usage.calls_reporting_usage, 2);
    assert_eq!((usage.input_tokens, usage.output_tokens), (2, 3));
}

#[test]
fn a_judge_that_made_no_calls_has_a_measured_cost_of_nothing() {
    let spend = judge_spend(&NO_USAGE, false);
    assert_eq!(spend.calls, 0);
    assert_eq!(
        spend.cost,
        SpendCost::Nothing,
        "zero tokens cost zero at every price, so this zero is measured"
    );
    assert!(spend.usage_complete);
}

#[test]
fn tokens_without_a_price_are_counted_and_left_unpriced() {
    let usage = TokenUsage {
        calls: 4,
        calls_reporting_usage: 4,
        input_tokens: 2_500_000,
        output_tokens: 400,
    };
    let unpriced = judge_spend(&usage, false);
    assert_eq!(unpriced.input_tokens, 2_500_000);
    assert_eq!(
        unpriced.cost,
        SpendCost::Unknown,
        "nothing here knows what a million tokens costs"
    );
    let priced = judge_spend(&usage, true);
    assert_eq!(priced.cost, SpendCost::Priced);
    assert_eq!(priced.input_tokens as f64 / 1_000_000.0 * 3.0, 7.5);
}

#[test]
fn a_call_that_reported_no_usage_makes_the_totals_a_floor() {
    let usage = TokenUsage {
        calls: 3,
        calls_reporting_usage: 2,
        input_tokens: 1_000_000,
        output_tokens: 0,
    };
    let spend = judge_spend(&usage, true);
    assert!(!spend.usage_complete);
    assert_eq!(spend.cost, SpendCost::Priced, "priced on what was reported");

    let silent = judge_spend(
        &TokenUsage { calls: 3, calls_reporting_usage: 0, input_tokens: 0, output_tokens: 0 },
        false,
    );
    assert!(!silent.usage_complete);
    assert_eq!(
        silent.cost,
        SpendCost::Unknown,
        "three calls that said nothing are unknown, not zero"
    );
}

// confidences

/// Scored verdicts from `(confidence, correct)` pairs.
fn scored(pairs: &[(f32, bool)]) -> Vec<ScoredConfidence> {
    pairs
        .iter()
        .map(|(confidence, correct)| ScoredConfidence {
            confidence: single(*confidence),
            correct: *correct,
        })
        .collect()
}

#[test]
fn a_constant_confidence_judge_takes_the_degenerate_path() {
    let report =
        confidence_report(&scored(&[(1.0, true), (1.0, true), (1.0, false), (1.0, true)]));
    assert!(report.degenerate);
    assert_eq!(report.constant, Some(single(1.0)));
    assert_eq!(report.distinct.len(), 1);
    assert_eq!(report.distinct[0].count, 4);
    assert!(report.buckets.is_empty());
}

#[test]
fn a_constant_confidence_below_one_is_equally_degenerate() {
    let report = confidence_report(&scored(&[(0.42, true), (0.42, false)]));
    assert!(report.degenerate);
    assert_eq!(report.constant, Some(single(0.42)));
    assert!(report.buckets.is_empty());
}

#[test]
fn no_verdicts_at_all_is_degenerate_with_no_constant() {
    let report = confidence_report(&[]);
    assert!(report.degenerate);
    assert_eq!(report.constant, None);
    assert_eq!(report.verdicts, 0);
}

#[test]
fn a_varying_confidence_judge_gets_a_reliability_table_and_a_brier_score() {
    let report =
        confidence_report(&scored(&[(0.95, true), (0.95, true), (0.55, true), (0.55, false)]));
    assert!(!report.degenerate);
    assert_eq!(report.constant, None);
    assert_eq!(report.distinct.len(), 2);
    assert_eq!(report.distinct[0].value, single(0.55));
    assert_eq!(report.distinct[1].value, single(0.95));

    // Only non-empty buckets are kept: [0.5,0.6) and [0.9,1.0].
    assert_eq!(report.buckets.len(), 2);
    assert_eq!(report.buckets[0], ReliabilityBucket { index: 5, count: 2, correct: 1 });
    assert_eq!(report.buckets[1], ReliabilityBucket { index: 9, count: 2, correct: 2 });
    assert_eq!(report.verdicts, 4);
}

#[test]
fn distinct_confidences_are_told_apart_by_their_bits() {
    let report = confidence_report(&scored(&[(0.0, true), (-0.0, true), (0.5, false)]));
    assert_eq!(
        report.distinct,
        vec![
            ConfidenceValue { value: single(-0.0), count: 1 },
            ConfidenceValue { value: single(0.0), count: 1 },
            ConfidenceValue { value: single(0.5), count: 1 },
        ]
    );
}

#[test]
fn confidences_land_in_the_bucket_they_belong_to() {
    assert_eq!(bucket_index(single(0.0)), 0);
    assert_eq!(bucket_index(single(0.0999)), 0);
    assert_eq!(bucket_index(single(0.1)), 1);
    assert_eq!(bucket_index(single(0.999)), 9);
    assert_eq!(bucket_index(single(1.0)), 9);
    // Out of contract, but must not panic or index out of bounds.
    assert_eq!(bucket_index(single(1.5)), 9);
    assert_eq!(bucket_index(single(-0.5)), 0);
}

/// The bucket by arithmetic on the value itself.
fn scaled_bucket(confidence: f32) -> usize {
    let scaled = (f64::from(confidence) * 10.0).floor();
    if scaled < 0.0 {
        return 0;
    }
    (scaled as usize).min(9)
}

#[test]
fn a_bucket_is_the_floor_of_ten_times_the_value() {
    for k in 0..=10u32 {
        let edge = (k as f32 / 10.0).to_bits();
        for bits in edge.saturating_sub(300)..=edge + 300 {
            let value = f32::from_bits(bits);
            assert_eq!(bucket_index(single(value)), scaled_bucket(value), "{value}");
            assert_eq!(bucket_index(single(-value)), scaled_bucket(-value), "-{value}");
        }
    }
    let mut bits: u32 = 0;
    while bits < 0x4100_0000 {
        let value = f32::from_bits(bits);
        assert_eq!(bucket_index(single(value)), scaled_bucket(value), "{value}");
        bits += 7919;
    }
    for odd in [f32::INFINITY, f32::NEG_INFINITY, f32::NAN, f32::MAX, f32::MIN_POSITIVE] {
        assert_eq!(bucket_index(single(odd)), scaled_bucket(odd), "{odd}");
    }
}

#[test]
fn a_verdict_is_right_when_it_agrees_with_the_truth() {
    let mut out = Vec::new();
    score_confidences(&mut out, &[1], &[verdict(0, false, 0.25), verdict(1, false, 0.75)]);
    assert_eq!(out, scored(&[(0.25, true), (0.75, false)]));
}

// the rendered report

fn document(file: &str, missed: Vec<u32>, wasted: Vec<u32>) -> DocumentReport {
    // A 4-page document: 2 pages truly need OCR, 2 truly do not, and the arguments say which
    // of them the judge got wrong.
    let confusion = confusion(
        2 - missed.len() as u32,
        2 - wasted.len() as u32,
        missed.len() as u32,
        wasted.len() as u32,
    );
    DocumentReport {
        file: file.to_string(),
        source: "synthetic".to_string(),
        page_count: 4,
        pdf_type: "mixed".to_string(),
        route_exact: missed.is_empty() && wasted.is_empty(),
        cost: cost(&confusion),
        confusion,
        missed_ocr_pages: missed,
        wasted_ocr_pages: wasted,
        samples: vec![1_500_000],
    }
}

fn group(source: &str, documents: &[DocumentReport]) -> GroupReport {
    let mut confusion = Confusion::default();
    for row in documents {
        confusion.add(&row.confusion);
    }
    GroupReport {
        source: source.to_string(),
        documents: documents.len() as u32,
        route_exact: documents.iter().filter(|row| row.route_exact).count() as u32,
        cost: cost(&confusion),
        confusion,
    }
}

fn rate(value: Option<f64>) -> Option<String> {
    value.map(|value| format!("{value:.3}"))
}

fn money(cost: &Cost, price: f64, judge_cost: f64) -> CostFigures {
    let naive = f64::from(cost.all_pages) * price;
    let routed = f64::from(cost.ocr_pages) * price;
    let ideal = f64::from(cost.ideal_ocr_pages) * price;
    let saving = naive - routed;
    let ceiling_saving = naive - ideal;
    CostFigures {
        overspend: format!("{:.4}", f64::from(cost.overspend_pages) * price),
        underspend: format!("{:.4}", f64::from(cost.underspend_pages) * price),
        naive: format!("{naive:.4}"),
        routed: format!("{routed:.4}"),
        routed_share: rate(share(cost.ocr_pages, cost.all_pages)),
        saving: format!("{saving:.4}"),
        ceiling_saving: format!("{ceiling_saving:.4}"),
        beyond_ceiling: format!("{:.4}", saving - ceiling_saving),
        short_of_ceiling: format!("{:.4}", ceiling_saving - saving),
        judge_cost: format!("{judge_cost:.4}"),
        net: format!("{:.4}", saving - judge_cost),
    }
}

/// The figures of a report, at a price per page and a cost of the judge's own.
fn figures(report: &JudgeReport, price: f64, judge_cost: f64) -> JudgeFigures {
    let c = &report.overall.confusion;
    let f1 = match (precision(c), recall(c)) {
        (Some(p), Some(r)) if p + r > 0.0 => Some(2.0 * p * r / (p + r)),
        (Some(_), Some(_)) => Some(0.0),
        _ => None,
    };
    let constant = report.confidence.constant.map(|value| f64::from(number(value)));
    JudgeFigures {
        documents: report
            .documents
            .iter()
            .map(|_| RowFigures { millis: "1.500".to_string(), delta: None })
            .collect(),
        precision: rate(precision(c)),
        recall: rate(recall(c)),
        f1: rate(f1),
        cost: money(&report.overall.cost, price, judge_cost),
        p50: "1.500".to_string(),
        p95: "1.500".to_string(),
        slowest: "1.500".to_string(),
        overhead: None,
        distinct: report
            .confidence
            .distinct
            .iter()
            .map(|value| format!("{:.3}", number(value.value)))
            .collect(),
        constant: constant.map(|value| format!("{value:.3}")),
        constant_short: constant.map(|value| format!("{value:.2}")),
        buckets: report
            .confidence
            .buckets
            .iter()
            .map(|bucket| BucketFigures {
                accuracy: format!("{:.3}", f64::from(bucket.correct) / f64::from(bucket.count)),
                mean_confidence: "0.500".to_string(),
            })
            .collect(),
        brier: if report.confidence.degenerate { None } else { Some("0.1250".to_string()) },
    }
}

fn section(report: JudgeReport) -> JudgeSection {
    let figures = figures(&report, 1.0, 0.0);
    JudgeSection { report, figures }
}

fn report_with(documents: Vec<DocumentReport>, scored: &[ScoredConfidence]) -> BenchReport {
    let count = documents.len() as u32;
    let report = JudgeReport {
        judge: "heuristic".to_string(),
        baseline: true,
        by_source: vec![group("synthetic", &documents)],
        overall: group("all", &documents),
        confidence: confidence_report(scored),
        documents,
        spend: None,
    };
    BenchReport {
        corpus: "/tmp/rows.json".to_string(),
        repeat: 3,
        cost_per_page: "1.0000".to_string(),
        cost_per_million_input_tokens: None,
        documents_scored: count,
        documents_in_corpus: count,
        failures: Vec::new(),
        skipped_judges: Vec::new(),
        judges: vec![section(report)],
        caveats: Vec::new(),
    }
}

fn one(missed: Vec<u32>, wasted: Vec<u32>) -> BenchReport {
    report_with(vec![document("mixed.pdf", missed, wasted)], &scored(&[(1.0, true)]))
}

/// The report with this spend of the judge's own, at a price per million input tokens.
fn spending(mut report: BenchReport, usage: TokenUsage, price: Option<f64>) -> BenchReport {
    let spend = judge_spend(&usage, price.is_some());
    let judge_cost = match price {
        Some(price) => usage.input_tokens as f64 / 1_000_000.0 * price,
        None => 0.0,
    };
    report.cost_per_million_input_tokens = price.map(|price| format!("{price:.4}"));
    let section = &mut report.judges[0];
    section.report.spend = Some(spend);
    section.figures = figures(&section.report, 1.0, judge_cost);
    report
}

#[test]
fn a_clean_run_leads_with_the_two_error_counts_and_never_adds_them_together() {
    let text = render(&one(vec![], vec![]));
    let errors = text.find("ERRORS").expect("errors block");
    let rates = text.find("DERIVED RATES").expect("rates block");
    assert!(errors < rates, "raw counts must come before derived rates");
    assert!(text.contains("missed OCR       0"), "{text}");
    assert!(text.contains("wasted OCR       0"), "{text}");
    assert!(!text.contains("total errors"), "the two kinds must never be summed: {text}");
}

#[test]
fn offending_page_numbers_are_printed_under_the_document_that_owns_them() {
    let report =
        report_with(vec![document("mixed.pdf", vec![1], vec![2, 3])], &scored(&[(1.0, false)]));
    let text = render(&report);
    assert!(text.contains("missed OCR on 0-indexed page(s) [1]"), "{text}");
    assert!(text.contains("wasted OCR on 0-indexed page(s) [2, 3]"), "{text}");
}

#[test]
fn a_degenerate_confidence_prints_the_constant_and_no_reliability_table() {
    let report = report_with(
        vec![document("mixed.pdf", vec![1], vec![])],
        &scored(&[(1.0, true), (1.0, false)]),
    );
    let text = render(&report);
    assert!(text.contains("degenerate -- constant 1.000"), "{text}");
    assert!(!text.contains("RELIABILITY"), "{text}");
    assert!(!text.contains("Brier"), "{text}");
}

#[test]
fn varying_confidence_prints_the_reliability_table_and_a_brier_score() {
    let report = report_with(
        vec![document("mixed.pdf", vec![], vec![])],
        &scored(&[(0.9, true), (0.2, false)]),
    );
    let text = render(&report);
    assert!(text.contains("RELIABILITY"), "{text}");
    assert!(text.contains("Brier"), "{text}");
    assert!(text.contains("  [0.2, 0.3)        1        0     0.000       0.500\n"), "{text}");
    // The nearest value to nine tenths is below it.
    assert!(text.contains("  [0.8, 0.9)        1        1     1.000       0.500\n"), "{text}");
}

#[test]
fn an_undefined_rate_says_so_instead_of_printing_zero() {
    let mut report = one(vec![], vec![]);
    let section = &mut report.judges[0];
    section.report.overall.confusion = confusion(0, 2, 0, 0);
    section.figures = figures(&section.report, 1.0, 0.0);
    let text = render(&report);
    assert!(text.contains("n/a (no pages routed to OCR)"), "{text}");
    assert!(text.contains("n/a (no page needed OCR)"), "{text}");
}

#[test]
fn an_excluded_document_is_called_out_before_any_score() {
    let mut report = one(vec![], vec![]);
    report.failures.push(DocumentFailure {
        file: "wrong.pdf".to_string(),
        path: "/tmp/wrong.pdf".to_string(),
        judge: Some("heuristic".to_string()),
        error: "page_count mismatch: the manifest declares 3 page(s)".to_string(),
    });
    let text = render(&report);
    let excluded = text.find("EXCLUDED DOCUMENTS").expect("excluded block");
    let judge = text.find("judge: heuristic").expect("judge section");
    assert!(excluded < judge, "{text}");
    assert!(text.contains("page_count mismatch"), "{text}");
    assert!(!report.ok());
}

#[test]
fn a_skipped_judge_is_named_before_any_score_and_is_not_a_failure() {
    let mut report = one(vec![], vec![]);
    report.skipped_judges.push(SkippedJudge {
        judge: "jev".to_string(),
        reason: "no API key in the environment: set TYPESAFE_API_KEY".to_string(),
    });
    let text = render(&report);
    let skipped = text.find("SKIPPED JUDGES").expect("skipped block");
    let judge = text.find("judge: heuristic").expect("judge section");
    assert!(skipped < judge, "{text}");
    assert!(text.contains("TYPESAFE_API_KEY"), "{text}");
    assert!(!text.contains("EXCLUDED DOCUMENTS"), "a skip is not a failure");
    assert!(report.ok(), "a skip must not change the exit code");
}

#[test]
fn the_synthetic_caveat_is_printed_when_there_is_one() {
    let mut report = one(vec![], vec![]);
    report.caveats.push(Caveat {
        judge: Some("heuristic".to_string()),
        source: Some("synthetic".to_string()),
        documents: 1,
        lines: vec!["measures non-regression only".to_string()],
    });
    let text = render(&report);
    assert!(text.contains("WHAT THIS RUN CANNOT TELL YOU"), "{text}");
    assert!(text.contains("measures non-regression only"), "{text}");
}

fn ground_truth_line(text: &str) -> String {
    text.lines()
        .find(|line| line.contains("truly need OCR"))
        .expect("the headline ground-truth line")
        .to_string()
}

#[test]
fn the_ground_truth_line_does_not_change_with_the_judge() {
    let judges = [
        (vec![], vec![]),
        (vec![0], vec![]),
        (vec![0, 1], vec![2, 3]),
        (vec![], vec![2]),
        (vec![1], vec![3]),
    ];
    let lines: Vec<String> = judges
        .into_iter()
        .map(|(missed, wasted)| ground_truth_line(&render(&one(missed, wasted))))
        .collect();
    assert!(
        lines.windows(2).all(|pair| pair[0] == pair[1]),
        "the corpus does not change with the judge: {lines:#?}"
    );
    assert!(lines[0].contains("2 truly need OCR, 2 truly do not"), "{}", lines[0]);
    assert!(
        lines[0].contains("pages            4"),
        "and the two sides add up to the page count: {}",
        lines[0]
    );
}

#[test]
fn a_free_page_price_never_prints_a_signed_zero() {
    let mut report = one(vec![0, 1], vec![]);
    report.cost_per_page = "0.0000".to_string();
    for section in &mut report.judges {
        section.figures = figures(&section.report, 0.0, 0.0);
    }
    let text = render(&report);
    assert!(!text.contains("-0.0000"), "{text}");
    assert!(
        text.contains("MORE than the ceiling, which no correct router can do"),
        "the page counts still say it undercut the ceiling: {text}"
    );
}

#[test]
fn a_judge_that_routes_nothing_is_not_reported_as_impressively_frugal() {
    let text = render(&one(vec![0, 1], vec![]));
    assert!(text.contains("VS OCR EVERYTHING"), "{text}");
    assert!(text.contains("this judge           0 page(s)"), "{text}");
    assert!(text.contains("MORE than the ceiling, which no correct router can do"), "{text}");
    assert!(
        text.contains("silent quality failures, not"),
        "the excess has to be named as the quality failure it is: {text}"
    );
}

#[test]
fn a_judge_on_the_ceiling_with_errors_is_told_apart_from_a_correct_one() {
    let cancelling = render(&one(vec![0], vec![2]));
    assert!(
        cancelling.contains("lands exactly on the ceiling and is NOT exact"),
        "{cancelling}"
    );
    let exact = render(&one(vec![], vec![]));
    assert!(exact.contains("made no error of either kind"), "{exact}");
    assert!(
        !exact.contains("NOT exact"),
        "a correct router must not be accused of coincidence: {exact}"
    );
}

#[test]
fn overspending_is_reported_as_a_shortfall_against_the_ceiling() {
    let text = render(&one(vec![], vec![2]));
    assert!(text.contains("less than the ceiling"), "{text}");
    assert!(
        text.contains("still correct"),
        "wasted OCR costs money and nothing else: {text}"
    );
}

#[test]
fn a_run_that_scored_nothing_has_no_bill_to_compare_against() {
    let text = render(&report_with(Vec::new(), &[]));
    assert!(
        text.contains("n/a (nothing was scored, so there is no bill to compare against)"),
        "{text}"
    );
    assert!(
        !text.contains("MORE than the ceiling"),
        "nothing was scored, so nothing beat anything: {text}"
    );
}

#[test]
fn a_judge_with_no_token_data_says_so_rather_than_printing_a_zero() {
    let text = render(&one(vec![0], vec![]));
    assert!(text.contains("THE JUDGE ITSELF"), "{text}");
    assert!(text.contains("reports no token usage to the harness"), "{text}");
    assert!(text.contains("which is not the same as free"), "{text}");
    assert!(
        text.contains("net      n/a (the saving above is not net of the judge)"),
        "{text}"
    );
}

#[test]
fn a_judge_that_made_no_call_prints_a_zero_and_says_it_is_a_measurement() {
    let text = render(&spending(one(vec![0], vec![]), NO_USAGE, Some(3.0)));
    assert!(text.contains("This zero is a measurement"), "{text}");
    assert!(text.contains("cost         0.0000"), "{text}");
}

#[test]
fn a_metered_judge_prints_its_tokens_and_nets_them_off_the_saving() {
    let usage = TokenUsage {
        calls: 2,
        calls_reporting_usage: 2,
        input_tokens: 500_000,
        output_tokens: 40,
    };
    let text = render(&spending(one(vec![], vec![]), usage, Some(2.0)));
    assert!(text.contains("calls             2"), "{text}");
    assert!(text.contains("input        500000 token(s)"), "{text}");
    assert!(text.contains("output           40 token(s)  counted, not priced"), "{text}");
    assert!(text.contains("cost         1.0000"), "{text}");
    // A perfect judge on this corpus routes 2 of 4 pages, saving 2.0000.
    assert!(text.contains("net          1.0000   saved on OCR (2.0000)"), "{text}");
    assert!(
        !text.contains("(a floor)"),
        "every call reported, so nothing here is a floor: {text}"
    );
}

#[test]
fn an_unpriced_token_count_is_counted_and_not_guessed_at() {
    let usage = TokenUsage {
        calls: 1,
        calls_reporting_usage: 1,
        input_tokens: 1_234,
        output_tokens: 5,
    };
    let text = render(&spending(one(vec![], vec![]), usage, None));
    assert!(text.contains("input          1234 token(s)"), "{text}");
    assert!(text.contains("no --cost-per-million-input-tokens was given"), "{text}");
    assert!(text.contains("no vendor's rate is baked"), "{text}");
    assert!(
        text.contains("net      n/a"),
        "an unpriced judge cannot be netted off: {text}"
    );
}

#[test]
fn a_call_that_reported_no_usage_makes_the_printed_totals_a_floor() {
    let usage = TokenUsage {
        calls: 3,
        calls_reporting_usage: 1,
        input_tokens: 1_000_000,
        output_tokens: 0,
    };
    let text = render(&spending(one(vec![], vec![]), usage, Some(2.0)));
    assert!(text.contains("(a floor)"), "{text}");
    assert!(
        text.contains("2 of 3 call(s) came back with no usage attached"),
        "{text}"
    );
}

#[test]
fn netting_a_judge_off_a_saving_that_beats_the_ceiling_says_so() {
    let usage = TokenUsage {
        calls: 1,
        calls_reporting_usage: 1,
        input_tokens: 100_000,
        output_tokens: 1,
    };
    let text = render(&spending(one(vec![0, 1], vec![]), usage, Some(1.0)));
    assert!(text.contains("under-buys OCR does not make the"), "{text}");
}

#[test]
fn the_token_price_is_echoed_in_the_header_only_when_one_was_given() {
    let mut report = one(vec![], vec![]);
    assert!(!render(&report).contains("per million input tokens"));
    report.cost_per_million_input_tokens = Some("2.5000".to_string());
    assert!(render(&report).contains("2.5000 per million input tokens"));
}

#[test]
fn a_group_summarises_in_one_line() {
    let report = report_with(vec![document("mixed.pdf", vec![1], vec![])], &[]);
    let line = one_line(&report.judges[0].report.by_source[0]);
    assert_eq!(line, "synthetic: 1 doc(s), 4 page(s), 1 missed, 0 wasted");
}

#[test]
fn a_report_opens_with_what_was_scored() {
    let mut report = one(vec![1], vec![]);
    report.documents_in_corpus = 2;
    report.failures.push(DocumentFailure {
        file: "gone.pdf".to_string(),
        path: "/tmp/gone.pdf".to_string(),
        judge: None,
        error: "could not read".to_string(),
    });
    let text = render(&report);
    let lines: Vec<&str> = text.lines().collect();
    assert_eq!(lines[0], "doc-router bench");
    assert_eq!(lines[1], "corpus   /tmp/rows.json");
    assert_eq!(lines[2], "scored   1 of 2 document(s), 1 excluded (see below)");
    assert!(text.contains("judges   heuristic (baseline)\n"), "{text}");
    assert!(text.ends_with('\n'));
}

#[test]
fn the_sentence_on_the_ceiling_has_four_forms() {
    let figures = |cost: &Cost| money(cost, 1.0, 0.0);
    let beyond = cost(&confusion(0, 2, 2, 1));
    assert_eq!(
        ceiling_verdict(&beyond, &figures(&beyond)),
        "-> this judge saves 1.0000 MORE than the ceiling, which no correct router can do. The \
         excess is 2 page(s) of OCR it needed and did not buy, less 1 page(s) it bought and did \
         not need. Those 2 page(s) are silent quality failures, not savings, and they are why \
         this row looks frugal."
    );
    let short = cost(&confusion(2, 2, 0, 3));
    assert_eq!(
        ceiling_verdict(&short, &figures(&short)),
        "-> this judge saves 3.0000 less than the ceiling. That shortfall is the overspend above: \
         3 page(s) of OCR bought and not needed. It costs money and the output is still correct."
    );
    let exact = cost(&confusion(2, 2, 0, 0));
    assert!(ceiling_verdict(&exact, &figures(&exact)).contains("no error of either kind"));
    let lucky = cost(&confusion(2, 2, 1, 1));
    assert!(ceiling_verdict(&lucky, &figures(&lucky)).contains("1 missed page(s) and 1 wasted"));
}

#[test]
fn a_skipped_table_says_why() {
    assert_eq!(skipped_reason(&None), "no verdicts were scored");
    assert_eq!(
        skipped_reason(&Some("1.00".to_string())),
        "every verdict carried the same confidence (1.00), so there is nothing to calibrate: one \
         value cannot be split into buckets and scores only itself"
    );
}

// one judge's report

fn row(file: &str, source: &str, confusion: Confusion) -> DocumentReport {
    let mut row = document(file, vec![], vec![]);
    row.source = source.to_string();
    row.page_count = confusion.pages();
    row.route_exact = confusion.is_perfect();
    row.confusion = confusion;
    row.cost = cost(&confusion);
    row
}

fn rows() -> JudgeRows {
    JudgeRows {
        documents: vec![
            row("a.pdf", "synthetic", confusion(1, 2, 0, 0)),
            row("b.pdf", "real", confusion(0, 1, 1, 0)),
            row("c.pdf", "synthetic", confusion(0, 0, 0, 2)),
        ],
        confidences: scored(&[(1.0, true), (1.0, false)]),
    }
}

fn two_sources() -> Vec<String> {
    vec!["synthetic".to_string(), "real".to_string(), "unused".to_string()]
}

#[test]
fn a_judges_rows_are_grouped_by_source() {
    let report = judge_report("heuristic", true, rows(), &two_sources(), None);
    let groups: Vec<(&str, u32, u32, Confusion)> = report
        .by_source
        .iter()
        .map(|group| (group.source.as_str(), group.documents, group.route_exact, group.confusion))
        .collect();
    assert_eq!(
        groups,
        vec![
            ("synthetic", 2, 1, confusion(1, 2, 0, 2)),
            ("real", 1, 0, confusion(0, 1, 1, 0)),
        ],
        "a source with no row has no group"
    );
    assert_eq!(report.overall.source, ALL_SOURCES);
    assert_eq!(report.overall.confusion, confusion(1, 3, 1, 2));
    assert_eq!(report.overall.cost, cost(&confusion(1, 3, 1, 2)));
    assert_eq!(report.overall.documents, 3);
    assert_eq!(report.confidence.verdicts, 2);
    assert!(rows().is_countable());
}

#[test]
fn the_groups_add_up_to_the_whole() {
    let report = judge_report("heuristic", true, rows(), &two_sources(), None);
    let pages: u32 = report.by_source.iter().map(|group| group.confusion.pages()).sum();
    assert_eq!(pages, report.overall.confusion.pages());
}

#[test]
fn counts_that_do_not_fit_are_told_apart() {
    let mut huge = JudgeRows::new();
    huge.documents.push(row("a.pdf", "real", confusion(u32::MAX, 0, 0, 0)));
    assert!(huge.is_countable());
    huge.documents.push(row("b.pdf", "real", confusion(0, 1, 0, 0)));
    assert!(!huge.is_countable());
}

fn perfect(source: &str) -> JudgeRows {
    JudgeRows {
        documents: vec![row("a.pdf", source, confusion(1, 1, 0, 0))],
        confidences: Vec::new(),
    }
}

#[test]
fn a_perfect_baseline_on_a_synthetic_corpus_is_a_caveat() {
    let sources = vec!["Synthetic".to_string()];
    let report = judge_report("heuristic", true, perfect("Synthetic"), &sources, None);
    let caveats = caveats_for(&report);
    assert_eq!(caveats.len(), 1);
    assert_eq!(caveats[0].judge, Some("heuristic".to_string()));
    assert_eq!(caveats[0].source, Some("Synthetic".to_string()));
    assert_eq!(caveats[0].documents, 1);
    let all = run_caveats(&vec![report], 1);
    assert_eq!(all.len(), 2, "and the money is a caveat of its own");
    assert_eq!(all[1], cost_caveat(1));
}

#[test]
fn a_synthetic_source_is_known_in_any_case() {
    assert!(are_alike("Synthetic", "sYNTHETIC"));
    assert!(!are_alike("synthetic", "synthetics"));
    assert!(!are_alike("\u{c9}", "\u{e9}"), "only ASCII letters lose their case");
}

#[test]
fn a_run_that_scored_nothing_has_no_caveats() {
    let report = judge_report("heuristic", true, JudgeRows::new(), &vec![], None);
    assert!(run_caveats(&vec![report], 0).is_empty());
}

#[test]
fn a_confidence_report_of_no_rows_is_empty() {
    let report: JudgeReport = judge_report("x", false, JudgeRows::new(), &vec![], None);
    let confidence: &ConfidenceReport = &report.confidence;
    assert!(confidence.degenerate && confidence.distinct.is_empty());
    let spend: Option<JudgeSpend> = report.spend;
    assert_eq!(spend, None);
}

// the layout of paragraphs

#[test]
fn words_are_what_stands_between_blanks() {
    assert_eq!(split_words("  one\ttwo\n\u{2003}three "), vec!["one", "two", "three"]);
    assert!(split_words(" \n").is_empty());
}

#[test]
fn a_line_breaks_before_it_is_too_long() {
    assert_eq!(wrap("aa bb cc", 5), vec!["aa bb", "cc"]);
    assert_eq!(wrap("aa bb cc", 4), vec!["aa", "bb", "cc"]);
    assert_eq!(wrap("a toolongword b", 4), vec!["a", "toolongword", "b"]);
    assert!(wrap("   ", 10).is_empty());
}

#[test]
fn a_line_is_measured_in_bytes() {
    assert_eq!(byte_len("a\u{e9}\u{2003}\u{1f600}"), 1 + 2 + 3 + 4);
    assert_eq!(wrap("\u{e9}\u{e9} bb", 6), vec!["\u{e9}\u{e9}", "bb"]);
    assert_eq!(wrap("\u{e9}\u{e9} bb", 7), vec!["\u{e9}\u{e9} bb"]);
}

#[test]
fn a_paragraph_is_indented_line_by_line() {
    let mut out = vec!["head".to_string()];
    push_paragraph(&mut out, "  ", "aa bb cc", 5);
    assert_eq!(out, vec!["head", "  aa bb", "  cc"]);
}

#[test]
fn truth_is_a_count_of_distinct_judged_pages() {
    // Page 3 is listed twice and page 9 is not judged.
    let truth = [1, 3, 3, 9];
    for sent in [vec![], vec![1, 3], vec![0, 2, 4]] {
        let confusion = score_pages(&truth, &verdicts(5, &sent)).confusion;
        assert_eq!(confusion.truly_needs_ocr(), 2);
        assert_eq!(confusion.truly_local(), 3);
    }
}
