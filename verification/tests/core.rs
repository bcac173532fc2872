//! The routing core on hand-built values.

use doc_router::classify::{
    classify, is_pdf, label_from_pages, normalize_ocr_reasons, normalize_pages,
    pages_from_verdicts, Classification, PageOcrReasons, PdfType,
};
use doc_router::config::{Config, OcrTier, Tier, Tiers};
use doc_router::error::Error;
use doc_router::extract::{OcrResult, Page, LOCAL_MODEL};
use doc_router::inspector::FlaggedPage;
use doc_router::judge::{
    HeuristicJudge, PageEvidence, PageJudge, PageVerdict, REASON_CLEAR, REASON_FLAGGED,
};
use doc_router::merge::merge;
use doc_router::metadata::{LegSummary, BYPASS_TIER};
use doc_router::number::Real32;
use doc_router::policy::{decide, plan_route, Bypass, Decision, Leg, Reason};
use doc_router::split::{remap_pages, split_pdf};

const LOCAL: &str = "local_pdf/extract";
const STANDARD: &str = "mistral-ocr";
const PREMIUM: &str = "gpt-5-ocr";

fn single(value: f32) -> Real32 {
    Real32 { bits: value.to_bits() }
}

fn classified(page_count: u32, pages_needing_ocr: Vec<u32>) -> Classification {
    Classification {
        pdf_type: PdfType::Mixed,
        confidence: single(0.9),
        page_count,
        pages_needing_ocr,
        is_complex_layout: false,
        has_encoding_issues: false,
        ocr_reasons: Vec::new(),
        classify_nanos: 0,
    }
}

fn classification(
    page_count: u32,
    ocr: Vec<u32>,
    complex: bool,
    confidence: f32,
) -> Classification {
    Classification {
        confidence: single(confidence),
        is_complex_layout: complex,
        classify_nanos: 1_000_000,
        ..classified(page_count, ocr)
    }
}

fn tiers() -> Tiers {
    Tiers::new(LOCAL, STANDARD).with_premium(PREMIUM)
}

fn cfg_with_premium() -> Config {
    Config::new(tiers())
}

fn cfg_without_premium() -> Config {
    Config::new(Tiers::new(LOCAL, STANDARD))
}

// classify

#[test]
fn is_pdf_checks_the_magic_number() {
    assert!(is_pdf(b"%PDF-1.7\n..."));
    assert!(!is_pdf(b"PDF-1.7"));
    assert!(!is_pdf(b""));
    assert!(!is_pdf(b"%PD"));
    assert!(!is_pdf(b"not a pdf at all"));
}

#[test]
fn normalize_shifts_sorts_and_dedupes() {
    assert_eq!(normalize_pages(&[3, 1, 2, 1], 5), vec![0, 1, 2]);
}

#[test]
fn normalize_drops_out_of_range_pages() {
    assert_eq!(normalize_pages(&[0, 1, 9], 3), vec![0]);
    assert_eq!(normalize_pages(&[1, 2, 3], 0), Vec::<u32>::new());
    assert_eq!(normalize_pages(&[], 4), Vec::<u32>::new());
}

fn raw_reasons(pages: &[(u32, &str)]) -> Vec<FlaggedPage> {
    pages
        .iter()
        .map(|(page, reason)| FlaggedPage { page: *page, reasons: vec![(*reason).to_string()] })
        .collect()
}

fn ours(page: u32, reason: &str) -> PageOcrReasons {
    PageOcrReasons { page, reasons: vec![reason.to_string()] }
}

#[test]
fn normalize_reasons_shifts_and_sorts() {
    assert_eq!(
        normalize_ocr_reasons(&raw_reasons(&[(3, "scanned"), (1, "no_text")]), 5),
        vec![ours(0, "no_text"), ours(2, "scanned")]
    );
}

#[test]
fn normalize_reasons_drops_out_of_range_pages() {
    assert_eq!(
        normalize_ocr_reasons(
            &raw_reasons(&[(0, "scanned"), (1, "no_text"), (9, "scanned")]),
            3
        ),
        vec![ours(0, "no_text")]
    );
    assert_eq!(
        normalize_ocr_reasons(&raw_reasons(&[(1, "scanned")]), 0),
        Vec::<PageOcrReasons>::new()
    );
    assert_eq!(normalize_ocr_reasons(&Vec::new(), 4), Vec::<PageOcrReasons>::new());
}

#[test]
fn label_from_pages_calls_an_empty_ocr_list_text_based() {
    assert_eq!(label_from_pages(PdfType::Mixed, &[], 5), PdfType::TextBased);
    assert_eq!(label_from_pages(PdfType::TextBased, &[], 5), PdfType::TextBased);
}

#[test]
fn label_from_pages_keeps_the_reported_label_when_every_page_needs_ocr() {
    assert_eq!(label_from_pages(PdfType::Scanned, &[0, 1, 2], 3), PdfType::Scanned);
    assert_eq!(label_from_pages(PdfType::ImageBased, &[0, 1, 2], 3), PdfType::ImageBased);
}

#[test]
fn label_from_pages_calls_a_partial_ocr_list_mixed() {
    assert_eq!(label_from_pages(PdfType::TextBased, &[2, 5, 8], 24), PdfType::Mixed);
    assert_eq!(label_from_pages(PdfType::Scanned, &[0], 2), PdfType::Mixed);
}

#[test]
fn label_from_pages_keeps_the_reported_label_for_an_empty_document() {
    assert_eq!(label_from_pages(PdfType::Scanned, &[], 0), PdfType::Scanned);
}

#[test]
fn needs_ocr_everywhere_requires_pages() {
    assert!(classified(2, vec![0, 1]).needs_ocr_everywhere());
    assert!(!classified(2, vec![1]).needs_ocr_everywhere());
    assert!(!classified(0, vec![]).needs_ocr_everywhere());
}

#[test]
fn text_layer_pages_is_the_complement() {
    assert_eq!(classified(4, vec![1, 3]).text_layer_pages(), vec![0, 2]);
    assert_eq!(classified(3, vec![]).text_layer_pages(), vec![0, 1, 2]);
    assert_eq!(classified(2, vec![0, 1]).text_layer_pages(), Vec::<u32>::new());
}

#[test]
fn parse_loose_ignores_case_and_underscores() {
    assert_eq!(PdfType::parse_loose("TextBased"), PdfType::TextBased);
    assert_eq!(PdfType::parse_loose("text_based"), PdfType::TextBased);
    assert_eq!(PdfType::parse_loose("IMAGE_BASED"), PdfType::ImageBased);
    assert_eq!(PdfType::parse_loose("something else"), PdfType::Unknown);
}

#[test]
fn every_pdf_type_reads_back_from_its_wire_string() {
    for (value, wire) in [
        (PdfType::TextBased, "text_based"),
        (PdfType::Scanned, "scanned"),
        (PdfType::ImageBased, "image_based"),
        (PdfType::Mixed, "mixed"),
        (PdfType::Unknown, "unknown"),
    ] {
        assert_eq!(value.as_str(), wire);
        assert_eq!(PdfType::parse_loose(wire), value);
    }
}

#[test]
fn classify_rejects_non_pdf_bytes() {
    assert!(matches!(classify(b"hello world"), Err(Error::NotPdf)));
}

#[test]
fn classify_reports_a_pdf_error_for_broken_pdfs() {
    let err = classify(b"%PDF-1.7\nbut not really").expect_err("broken pdf");
    assert!(matches!(err, Error::Pdf(_)), "{}", err.message());
}

// config

#[test]
fn defaults_match_the_reference() {
    let cfg = Config::new(tiers());
    assert_eq!(cfg.min_confidence, single(0.6));
    assert_eq!(cfg.complex_layout_tier, OcrTier::Premium);
    assert_eq!(cfg.max_document_bytes, 50 * 1024 * 1024);
    assert_eq!(cfg.fetch_timeout_seconds, single(20.0));
    assert!(cfg.split_pages);
    assert!(cfg.validate("0.6", "20").is_ok());
}

#[test]
fn premium_downgrades_when_unconfigured() {
    let cfg = Config::new(Tiers::new("local_pdf/extract", "mistral-ocr"));
    assert_eq!(cfg.complex_layout_tier, OcrTier::Premium);
    assert_eq!(cfg.resolved_complex_layout_tier(), OcrTier::Standard);
    assert_eq!(cfg.model_for(Tier::Premium), None);

    let cfg = Config::new(tiers());
    assert_eq!(cfg.resolved_complex_layout_tier(), OcrTier::Premium);
    assert_eq!(cfg.model_for(Tier::Premium), Some("gpt-5-ocr"));
}

#[test]
fn model_for_returns_each_tier() {
    let cfg = Config::new(tiers());
    assert_eq!(cfg.model_for(Tier::Local), Some("local_pdf/extract"));
    assert_eq!(cfg.model_for(Tier::Standard), Some("mistral-ocr"));
}

fn config_with(
    local: &str,
    standard: &str,
    premium: Option<&str>,
    min_confidence: f32,
    max_document_bytes: u64,
    fetch_timeout_seconds: f32,
) -> Config {
    let tiers = match premium {
        Some(premium) => Tiers::new(local, standard).with_premium(premium),
        None => Tiers::new(local, standard),
    };
    Config {
        min_confidence: single(min_confidence),
        max_document_bytes,
        fetch_timeout_seconds: single(fetch_timeout_seconds),
        ..Config::new(tiers)
    }
}

fn fault(cfg: &Config) -> Option<String> {
    let confidence = format!("{}", f32::from_bits(cfg.min_confidence.bits));
    let timeout = format!("{}", f32::from_bits(cfg.fetch_timeout_seconds.bits));
    match cfg.validate(&confidence, &timeout) {
        Ok(()) => None,
        Err(Error::InvalidConfig(text)) => Some(text),
        Err(other) => panic!("unexpected error: {}", other.message()),
    }
}

#[test]
fn validation_rejects_bad_values() {
    let bad = [
        config_with("", "s", None, 0.6, 1, 20.0),
        config_with("l", "   ", None, 0.6, 1, 20.0),
        config_with("l", "s", Some(""), 0.6, 1, 20.0),
        config_with("l", "s", None, -0.1, 1, 20.0),
        config_with("l", "s", None, 1.5, 1, 20.0),
        config_with("l", "s", None, 0.6, 0, 20.0),
        config_with("l", "s", None, 0.6, 1, 0.0),
        config_with("l", "s", None, 0.6, 1, -1.0),
    ];
    for cfg in bad {
        assert!(fault(&cfg).is_some(), "{cfg:?}");
    }
}

#[test]
fn validation_names_what_is_wrong() {
    let text = fault(&config_with("l", "s", None, 1.5, 1, 20.0)).expect("out of range");
    assert!(text.contains("min_confidence") && text.contains("1.5"), "{text}");
    assert_eq!(
        fault(&config_with("", "s", None, 0.6, 1, 20.0)).as_deref(),
        Some("tiers.local must not be empty")
    );
    for bad in [f32::NAN, f32::INFINITY] {
        assert!(fault(&config_with("l", "s", None, bad, 1, 20.0)).is_some());
        assert!(fault(&config_with("l", "s", None, 0.6, 1, bad)).is_some());
    }
    assert_eq!(fault(&config_with("l", "s", None, 0.0, 1, 0.5)), None);
    assert_eq!(fault(&config_with("l", "s", None, 1.0, 1, 0.5)), None);
}

#[test]
fn model_for_tier_errors_when_unconfigured() {
    let cfg = Config::new(Tiers::new("l", "s"));
    assert!(matches!(cfg.model_for_tier(Tier::Premium), Err(Error::InvalidConfig(_))));
}

// judge

fn evidence(page: u32, flagged: bool, reasons: &[&str]) -> PageEvidence {
    PageEvidence {
        page,
        text: None,
        reasons: reasons.iter().map(|r| (*r).to_string()).collect(),
        flagged_by_inspector: flagged,
        has_tables: false,
        has_columns: false,
        has_encoding_issues: false,
    }
}

fn judged(pages: &[PageEvidence]) -> Vec<PageVerdict> {
    HeuristicJudge.judge(pages).expect("heuristic never fails")
}

#[test]
fn heuristic_names_itself() {
    assert_eq!(HeuristicJudge.name(), "heuristic");
    assert!(!HeuristicJudge.needs_text());
}

#[test]
fn heuristic_flags_every_page_when_the_inspector_did() {
    let pages =
        vec![evidence(0, true, &["scanned_page"]), evidence(1, true, &["no_text_layer"])];
    let verdicts = judged(&pages);
    assert_eq!(verdicts.len(), 2);
    assert_eq!(verdicts.iter().map(|v| v.page).collect::<Vec<_>>(), vec![0, 1]);
    assert!(verdicts.iter().all(|v| v.needs_ocr));
    assert_eq!(verdicts[0].reason, "scanned_page");
    assert_eq!(verdicts[1].reason, "no_text_layer");
    assert!(verdicts.iter().all(|v| v.confidence == single(1.0)));
}

#[test]
fn heuristic_flags_no_page_when_the_inspector_did_not() {
    let pages = vec![evidence(0, false, &[]), evidence(1, false, &[])];
    let verdicts = judged(&pages);
    assert_eq!(verdicts.len(), 2);
    assert!(verdicts.iter().all(|v| !v.needs_ocr));
    assert!(verdicts.iter().all(|v| v.reason == REASON_CLEAR));
    assert!(verdicts.iter().all(|v| v.confidence == single(1.0)));
}

#[test]
fn heuristic_returns_one_verdict_per_page_in_order_for_a_partial_flagging() {
    let pages = vec![
        evidence(0, false, &[]),
        evidence(1, true, &["image_only"]),
        evidence(2, false, &[]),
        evidence(3, true, &[]),
    ];
    let verdicts = judged(&pages);
    assert_eq!(verdicts.iter().map(|v| v.page).collect::<Vec<_>>(), vec![0, 1, 2, 3]);
    assert_eq!(
        verdicts.iter().map(|v| v.needs_ocr).collect::<Vec<_>>(),
        vec![false, true, false, true]
    );
    assert_eq!(verdicts[1].reason, "image_only");
    assert_eq!(verdicts[3].reason, REASON_FLAGGED);
    assert_eq!(verdicts[0].reason, REASON_CLEAR);
}

#[test]
fn heuristic_returns_nothing_for_no_pages() {
    assert_eq!(judged(&[]), Vec::<PageVerdict>::new());
}

fn verdict(page: u32, needs_ocr: bool) -> PageVerdict {
    PageVerdict { page, needs_ocr, confidence: single(0.5), reason: "test".to_string() }
}

#[test]
fn verdicts_become_the_page_list_or_say_what_is_wrong() {
    let pages = vec![evidence(0, false, &[]), evidence(1, true, &[]), evidence(2, true, &[])];
    let good = vec![verdict(0, true), verdict(1, false), verdict(2, true)];
    assert_eq!(pages_from_verdicts("j", &pages, &good, 3).expect("usable"), vec![0, 2]);

    let short = vec![verdict(0, true)];
    let err = pages_from_verdicts("j", &pages, &short, 3).expect_err("short");
    assert_eq!(err.message(), "page judge error: judge `j` returned 1 verdict(s) for 3 page(s)");

    let stray = vec![verdict(0, true), verdict(1, true), verdict(9, true)];
    let err = pages_from_verdicts("j", &pages, &stray, 3).expect_err("stray");
    assert!(err.message().contains("page 9 of a 3-page document"), "{}", err.message());

    let swapped = vec![verdict(1, true), verdict(0, true), verdict(2, true)];
    let err = pages_from_verdicts("j", &pages, &swapped, 3).expect_err("swapped");
    assert!(err.message().contains("page 1 where page 0 was expected"), "{}", err.message());
}

// merge

fn result(pages: &[(u32, &str)], model: &str, processed: u32, size: Option<u64>) -> OcrResult {
    OcrResult {
        pages: pages.iter().map(|(index, md)| Page::new(*index, md, model)).collect(),
        model: model.to_string(),
        pages_processed: processed,
        doc_size_bytes: size,
    }
}

#[test]
fn merge_orders_pages_and_joins_models() {
    let local = Leg::subset(LOCAL_MODEL, Tier::Local, vec![0, 2]);
    let ocr = Leg::subset("mistral-ocr", Tier::Standard, vec![1, 3]);
    let merged = merge(&[
        (local, result(&[(0, "page zero"), (2, "page two")], LOCAL_MODEL, 2, Some(120))),
        (ocr, result(&[(1, "page one"), (3, "page three")], "mistral-ocr", 2, Some(500))),
    ]);

    assert_eq!(merged.pages.iter().map(|p| p.index).collect::<Vec<_>>(), vec![0, 1, 2, 3]);
    assert_eq!(
        merged.pages.iter().map(|p| p.model.as_str()).collect::<Vec<_>>(),
        vec![LOCAL_MODEL, "mistral-ocr", LOCAL_MODEL, "mistral-ocr"]
    );
    assert_eq!(merged.pages[3].markdown, "page three");
    assert_eq!(merged.model, "local_pdf/extract,mistral-ocr");
    assert_eq!(merged.pages_processed, 4);
    assert_eq!(merged.doc_size_bytes, Some(500));
}

#[test]
fn merge_overwrites_page_models_with_the_leg_model() {
    let leg = Leg::whole("mistral-ocr", Tier::Standard);
    let merged =
        merge(&[(leg, result(&[(0, "x")], "provider-said-something-else", 1, None))]);
    assert_eq!(merged.pages[0].model, "mistral-ocr");
    assert_eq!(merged.model, "mistral-ocr");
    assert_eq!(merged.doc_size_bytes, None);
}

#[test]
fn merge_is_stable_for_duplicate_indices() {
    let first = Leg::subset("a", Tier::Local, vec![0]);
    let second = Leg::subset("b", Tier::Standard, vec![0]);
    let merged = merge(&[
        (first, result(&[(0, "first")], "a", 1, None)),
        (second, result(&[(0, "second")], "b", 1, None)),
    ]);
    assert_eq!(
        merged.pages.iter().map(|p| p.markdown.as_str()).collect::<Vec<_>>(),
        vec!["first", "second"]
    );
}

#[test]
fn merge_of_nothing_is_empty() {
    let merged = merge(&[]);
    assert!(merged.pages.is_empty());
    assert_eq!(merged.model, "");
    assert_eq!(merged.pages_processed, 0);
    assert_eq!(merged.doc_size_bytes, None);
}

#[test]
fn merge_takes_the_max_doc_size_from_either_side() {
    let a = Leg::whole("a", Tier::Local);
    let b = Leg::whole("b", Tier::Standard);
    let merged = merge(&[(a, result(&[], "a", 0, None)), (b, result(&[], "b", 0, Some(42)))]);
    assert_eq!(merged.doc_size_bytes, Some(42));
}

// metadata

fn mixed() -> Classification {
    Classification {
        confidence: single(0.7),
        classify_nanos: 2_500_000,
        ..classified(4, vec![1, 3])
    }
}

fn route() -> Decision {
    let cfg = Config::new(Tiers::new("local_pdf/extract", "mistral-ocr"));
    let classification = mixed();
    let plan = plan_route(&classification, &cfg).expect("plan");
    Decision::Route { plan, classification }
}

#[test]
fn route_metadata_has_the_python_keys_in_order() {
    let metadata = route().metadata();
    assert_eq!(metadata.tier, "standard");
    assert_eq!(metadata.reason, "mixed_split");
    assert_eq!(metadata.pdf_type.as_deref(), Some("mixed"));
    assert_eq!(metadata.confidence, Some(single(0.7)));
    assert_eq!(metadata.page_count, Some(4));
    assert_eq!(metadata.pages_needing_ocr, Some(vec![1, 3]));
    assert_eq!(metadata.classify_nanos, Some(2_500_000));
    assert_eq!(metadata.routed_model, "mistral-ocr");
    assert_eq!(metadata.split, Some(true));
    assert_eq!(metadata.fallback_reason, None);
    assert_eq!(
        metadata.legs,
        Some(vec![
            LegSummary {
                model: "local_pdf/extract".to_string(),
                tier: Tier::Local,
                pages: Some(vec![0, 2]),
            },
            LegSummary {
                model: "mistral-ocr".to_string(),
                tier: Tier::Standard,
                pages: Some(vec![1, 3]),
            },
        ])
    );
}

#[test]
fn single_leg_metadata_reports_pages_null_and_split_false() {
    let cfg = Config::new(Tiers::new("local_pdf/extract", "mistral-ocr"));
    let classification = Classification { pages_needing_ocr: vec![], ..mixed() };
    let plan = plan_route(&classification, &cfg).expect("plan");
    let metadata = Decision::Route { plan, classification }.metadata();
    assert_eq!(metadata.split, Some(false));
    assert_eq!(metadata.tier, "local");
    assert_eq!(metadata.legs.expect("legs")[0].pages, None);
}

#[test]
fn bypass_metadata_is_exactly_the_python_bypass_dict() {
    let decision = Decision::Bypass {
        reason: Bypass::NotPdf,
        model: "mistral-ocr".to_string(),
        detail: Some("ignored in metadata".to_string()),
    };
    let metadata = decision.metadata();
    assert_eq!(metadata.tier, BYPASS_TIER);
    assert_eq!(metadata.tier, "bypass");
    assert_eq!(metadata.reason, "not_pdf");
    assert_eq!(metadata.routed_model, "mistral-ocr");
    assert_eq!(metadata.pdf_type, None);
    assert_eq!(metadata.confidence, None);
    assert_eq!(metadata.page_count, None);
    assert_eq!(metadata.pages_needing_ocr, None);
    assert_eq!(metadata.classify_nanos, None);
    assert_eq!(metadata.legs, None);
    assert_eq!(metadata.split, None);
    assert_eq!(metadata.fallback_reason, None);
}

#[test]
fn classifier_failure_uses_the_python_reason_string() {
    let metadata = Decision::Bypass {
        reason: Bypass::ClassifierFailed,
        model: "m".to_string(),
        detail: None,
    }
    .metadata();
    assert_eq!(metadata.reason, "classifier_unavailable");
}

// policy

#[test]
fn row1_low_confidence_goes_to_standard() {
    for cfg in [cfg_with_premium(), cfg_without_premium()] {
        let c = classification(4, vec![1], true, 0.2);
        let plan = plan_route(&c, &cfg).expect("plan");
        assert_eq!(plan.reason, Reason::LowConfidence);
        assert_eq!(plan.tier, Tier::Standard);
        assert_eq!(plan.routed_model, STANDARD);
        assert_eq!(plan.legs, vec![Leg::whole(STANDARD, Tier::Standard)]);
        assert!(!plan.is_split());
    }
}

#[test]
fn row1_fires_even_with_splitting_disabled() {
    let cfg = Config { split_pages: false, ..cfg_with_premium() };
    let plan = plan_route(&classification(4, vec![1], false, 0.1), &cfg).expect("plan");
    assert_eq!(plan.reason, Reason::LowConfidence);
}

#[test]
fn confidence_exactly_at_the_threshold_is_not_low() {
    let cfg = cfg_with_premium();
    let c = Classification {
        confidence: cfg.min_confidence,
        ..classification(2, vec![], false, 0.0)
    };
    let plan = plan_route(&c, &cfg).expect("plan");
    assert_eq!(plan.reason, Reason::TextLayer);
}

#[test]
fn row3_text_layer_stays_local() {
    for cfg in [cfg_with_premium(), cfg_without_premium()] {
        for complex in [false, true] {
            for split in [false, true] {
                let cfg = Config { split_pages: split, ..cfg.clone() };
                let plan =
                    plan_route(&classification(3, vec![], complex, 0.99), &cfg).expect("plan");
                assert_eq!(plan.reason, Reason::TextLayer);
                assert_eq!(plan.tier, Tier::Local);
                assert_eq!(plan.routed_model, LOCAL);
                assert_eq!(plan.legs, vec![Leg::whole(LOCAL, Tier::Local)]);
            }
        }
    }
}

#[test]
fn row4_scanned_takes_the_whole_document() {
    let plan =
        plan_route(&classification(3, vec![0, 1, 2], false, 0.95), &cfg_with_premium())
            .expect("plan");
    assert_eq!(plan.reason, Reason::Scanned);
    assert_eq!(plan.tier, Tier::Standard);
    assert_eq!(plan.legs, vec![Leg::whole(STANDARD, Tier::Standard)]);

    let plan = plan_route(&classification(3, vec![0, 1, 2], true, 0.95), &cfg_with_premium())
        .expect("plan");
    assert_eq!(plan.tier, Tier::Premium);
    assert_eq!(plan.routed_model, PREMIUM);

    let plan =
        plan_route(&classification(3, vec![0, 1, 2], true, 0.95), &cfg_without_premium())
            .expect("plan");
    assert_eq!(plan.tier, Tier::Standard);
    assert_eq!(plan.routed_model, STANDARD);
}

#[test]
fn row5_mixed_unsplit_takes_the_whole_document() {
    let cfg = Config { split_pages: false, ..cfg_with_premium() };
    let plan = plan_route(&classification(4, vec![1, 3], false, 0.7), &cfg).expect("plan");
    assert_eq!(plan.reason, Reason::MixedUnsplit);
    assert_eq!(plan.tier, Tier::Standard);
    assert_eq!(plan.legs, vec![Leg::whole(STANDARD, Tier::Standard)]);
    assert!(!plan.is_split());

    let cfg = Config { split_pages: false, ..cfg_with_premium() };
    let plan = plan_route(&classification(4, vec![1, 3], true, 0.7), &cfg).expect("plan");
    assert_eq!(plan.reason, Reason::MixedUnsplit);
    assert_eq!(plan.tier, Tier::Premium);
    assert_eq!(plan.routed_model, PREMIUM);
}

#[test]
fn row6_mixed_split_has_a_local_leg_and_an_ocr_leg() {
    let plan = plan_route(&classification(4, vec![1, 3], false, 0.7), &cfg_with_premium())
        .expect("plan");
    assert_eq!(plan.reason, Reason::MixedSplit);
    assert_eq!(plan.tier, Tier::Standard);
    assert_eq!(plan.routed_model, STANDARD);
    assert!(plan.is_split());
    assert_eq!(
        plan.legs,
        vec![
            Leg::subset(LOCAL, Tier::Local, vec![0, 2]),
            Leg::subset(STANDARD, Tier::Standard, vec![1, 3]),
        ]
    );
}

#[test]
fn row6_complex_layout_promotes_only_the_ocr_leg() {
    let plan = plan_route(&classification(4, vec![1, 3], true, 0.7), &cfg_with_premium())
        .expect("plan");
    assert_eq!(plan.tier, Tier::Premium);
    assert_eq!(plan.routed_model, PREMIUM);
    assert_eq!(
        plan.legs,
        vec![
            Leg::subset(LOCAL, Tier::Local, vec![0, 2]),
            Leg::subset(PREMIUM, Tier::Premium, vec![1, 3]),
        ]
    );

    let plan = plan_route(&classification(4, vec![1, 3], true, 0.7), &cfg_without_premium())
        .expect("plan");
    assert_eq!(plan.tier, Tier::Standard);
    assert_eq!(plan.legs[1].model, STANDARD);
}

#[test]
fn complex_layout_tier_standard_never_promotes() {
    let cfg = Config { complex_layout_tier: OcrTier::Standard, ..cfg_with_premium() };
    let plan = plan_route(&classification(4, vec![1, 3], true, 0.7), &cfg).expect("plan");
    assert_eq!(plan.tier, Tier::Standard);
    assert_eq!(plan.routed_model, STANDARD);
}

#[test]
fn empty_document_reads_as_text_layer() {
    let plan =
        plan_route(&classification(0, vec![], false, 0.9), &cfg_with_premium()).expect("plan");
    assert_eq!(plan.reason, Reason::TextLayer);
}

#[test]
fn out_of_range_ocr_pages_are_ignored() {
    let plan =
        plan_route(&classification(2, vec![7], false, 0.9), &cfg_with_premium()).expect("plan");
    assert_eq!(plan.reason, Reason::TextLayer);
}

#[test]
fn reasons_and_bypasses_serialise_as_specified() {
    for (reason, wire) in [
        (Reason::LowConfidence, "low_confidence"),
        (Reason::TextLayer, "text_layer"),
        (Reason::Scanned, "scanned"),
        (Reason::MixedSplit, "mixed_split"),
        (Reason::MixedUnsplit, "mixed_unsplit"),
    ] {
        assert_eq!(reason.as_str(), wire);
    }
    for (bypass, wire) in [
        (Bypass::NotPdf, "not_pdf"),
        (Bypass::Oversize, "oversize"),
        (Bypass::Image, "image"),
        (Bypass::ClassifierFailed, "classifier_unavailable"),
    ] {
        assert_eq!(bypass.as_str(), wire);
    }
}

#[test]
fn decide_bypasses_non_pdf_bytes() {
    let cfg = cfg_with_premium();
    match decide(b"just some text", &cfg, None) {
        Decision::Bypass { reason, model, .. } => {
            assert_eq!(reason, Bypass::NotPdf);
            assert_eq!(model, STANDARD);
        }
        other => panic!("expected bypass, got {other:?}"),
    }
    match decide(b"just some text", &cfg, Some("fallback-model")) {
        Decision::Bypass { model, .. } => assert_eq!(model, "fallback-model"),
        other => panic!("expected bypass, got {other:?}"),
    }
}

#[test]
fn decide_bypasses_oversize_documents() {
    let cfg = Config { max_document_bytes: 4, ..cfg_with_premium() };
    match decide(b"%PDF-1.7 and then some", &cfg, None) {
        Decision::Bypass { reason, detail, .. } => {
            assert_eq!(reason, Bypass::Oversize);
            assert!(detail.expect("detail").contains("max_document_bytes"));
        }
        other => panic!("expected bypass, got {other:?}"),
    }
}

#[test]
fn decide_bypasses_unreadable_pdfs() {
    match decide(b"%PDF-1.7\nnot actually a pdf", &cfg_with_premium(), None) {
        Decision::Bypass { reason, detail, .. } => {
            assert_eq!(reason, Bypass::ClassifierFailed);
            assert!(detail.is_some());
        }
        other => panic!("expected bypass, got {other:?}"),
    }
}

#[test]
fn bypass_image_is_available_to_hosts() {
    let cfg = cfg_with_premium();
    match Decision::bypass_image(&cfg, Some("vision-model")) {
        Decision::Bypass { reason, model, .. } => {
            assert_eq!(reason, Bypass::Image);
            assert_eq!(model, "vision-model");
        }
        other => panic!("expected bypass, got {other:?}"),
    }
}

// split

fn provider_result(indices: &[u32]) -> OcrResult {
    OcrResult {
        pages: indices.iter().map(|index| Page::new(*index, "", "mistral-ocr")).collect(),
        model: "mistral-ocr".to_string(),
        pages_processed: indices.len() as u32,
        doc_size_bytes: None,
    }
}

#[test]
fn remap_maps_split_positions_back_to_originals() {
    let mut ocr = provider_result(&[0, 1]);
    remap_pages(&mut ocr, &[1, 3]);
    assert_eq!(ocr.pages.iter().map(|p| p.index).collect::<Vec<_>>(), vec![1, 3]);
}

#[test]
fn remap_preserves_provider_order() {
    let mut ocr = provider_result(&[1, 0]);
    remap_pages(&mut ocr, &[4, 9]);
    assert_eq!(ocr.pages.iter().map(|p| p.index).collect::<Vec<_>>(), vec![9, 4]);
}

#[test]
fn remap_leaves_unknown_indices_alone() {
    let mut ocr = provider_result(&[5]);
    remap_pages(&mut ocr, &[1, 3]);
    assert_eq!(ocr.pages[0].index, 5);

    let mut ocr = provider_result(&[0, 1]);
    remap_pages(&mut ocr, &[]);
    assert_eq!(ocr.pages.iter().map(|p| p.index).collect::<Vec<_>>(), vec![0, 1]);
}

#[test]
fn split_rejects_non_pdfs_and_empty_page_lists() {
    assert!(matches!(split_pdf(b"nope", &[0]), Err(Error::NotPdf)));
    assert!(matches!(split_pdf(b"%PDF-1.7", &[]), Err(Error::Split(_))));
}

#[test]
fn errors_read_as_sentences() {
    let inner = Error::Host("mistral is down".to_string());
    let err = Error::LegFailed { model: "mistral-ocr".to_string(), source: Box::new(inner) };
    assert_eq!(
        err.message(),
        "leg for model mistral-ocr failed: OCR host error: mistral is down"
    );
    assert_eq!(Error::NotPdf.message(), "document is not a PDF");
    assert_eq!(Error::Split("x".to_string()).message(), "PDF split failed: x");
}

#[test]
fn bit_patterns_compare_as_the_numbers_they_stand_for() {
    let samples = [
        0.0f32,
        -0.0,
        0.1,
        0.5,
        1.0,
        1.5,
        -1.0,
        f32::MAX,
        f32::MIN_POSITIVE,
        f32::INFINITY,
        f32::NEG_INFINITY,
        f32::NAN,
    ];
    for a in samples {
        for b in samples {
            assert_eq!(single(a).is_below(single(b)), a < b, "{a} < {b}");
            assert_eq!(single(a).is_at_least(single(b)), a >= b, "{a} >= {b}");
            assert_eq!(
                single(a).total_position() < single(b).total_position(),
                a.total_cmp(&b).is_lt(),
                "{a} {b}"
            );
        }
        assert_eq!(single(a).is_finite(), a.is_finite());
        assert_eq!(single(a).is_nan(), a.is_nan());
        assert_eq!(single(a).is_in_unit_interval(), (0.0..=1.0).contains(&a));
    }
}

#[test]
fn only_a_leg_of_the_local_tier_runs_in_process() {
    assert!(Leg::whole("local_pdf/extract", Tier::Local).is_local());
    assert!(!Leg::subset("mistral-ocr", Tier::Standard, vec![1]).is_local());
}

#[test]
fn legs_that_share_the_pages_out_come_back_in_page_order() {
    let page = |index: u32, markdown: &str| Page::new(index, markdown, "whoever");
    let local = OcrResult {
        pages: vec![page(0, "a"), page(2, "c")],
        model: "local_pdf/extract".to_string(),
        pages_processed: 2,
        doc_size_bytes: None,
    };
    let ocr = OcrResult {
        pages: vec![page(1, "b"), page(3, "d")],
        model: "mistral-ocr".to_string(),
        pages_processed: 2,
        doc_size_bytes: Some(9),
    };
    let merged = merge(&[
        (Leg::subset("local_pdf/extract", Tier::Local, vec![0, 2]), local),
        (Leg::subset("mistral-ocr", Tier::Standard, vec![1, 3]), ocr),
    ]);
    let pages: Vec<(u32, &str, &str)> = merged
        .pages
        .iter()
        .map(|page| (page.index, page.markdown.as_str(), page.model.as_str()))
        .collect();
    assert_eq!(
        pages,
        vec![
            (0, "a", "local_pdf/extract"),
            (1, "b", "mistral-ocr"),
            (2, "c", "local_pdf/extract"),
            (3, "d", "mistral-ocr"),
        ]
    );
}

#[test]
fn the_clock_and_the_label_do_not_move_a_plan() {
    let cfg = cfg_with_premium();
    let quick = classification(4, vec![1, 3], true, 0.95);
    let slow = Classification {
        pdf_type: PdfType::Unknown,
        classify_nanos: 9_000_000_000,
        has_encoding_issues: true,
        ..classification(4, vec![1, 3], true, 0.95)
    };
    assert_eq!(
        plan_route(&quick, &cfg).expect("plan"),
        plan_route(&slow, &cfg).expect("plan")
    );
}
