//! Classification, extraction, splitting and execution on small PDFs built here.

use base64::Engine;
use doc_router::bench::collect::{judge_report, Progress};
use doc_router::bench::corpus::{Corpus, CorpusDocument, DocumentSpec, Manifest};
use doc_router::bench::run::{check_run, run_document, run_judges, Repeats};
use doc_router::classify::{classify, classify_with, is_pdf, Classification, PdfType};
use doc_router::cli::default_config;
use doc_router::cli::host::{
    call_record, CallRecord, LiteLlmHost, OcrResponse, OcrResponsePage, Reply, Upload, UsageInfo,
};
use doc_router::cli::judge::{
    judge_by_name, record_fallbacks, unavailable_judge, JudgeLookup, JudgeProvenance, OnApiFailure,
};
use doc_router::config::{Config, Tier, Tiers};
use doc_router::error::Error;
use doc_router::extract::{extract_local, OcrResult, Page, LOCAL_MODEL};
use doc_router::judge::{HeuristicJudge, PageEvidence, PageJudge, PageVerdict};
use doc_router::number::Real32;
use doc_router::jev::judge::{
    read_exchange, Breaker, Exchange, JevJudge, Opening, Step, REASON_FALLBACK_HTTP,
};
use doc_router::policy::{decide, decide_with, plan_route, Decision, Leg, Reason};
use doc_router::run::{run, OcrHost};
use doc_router::split::{remap_pages, split_pdf};
use serde_json::Value;
use std::sync::Mutex;

const LOCAL: &str = "local_pdf/extract";
const STANDARD: &str = "mistral-ocr";
const PREMIUM: &str = "gpt-5-ocr";

/// A page with this heading in a text layer, or a page that is one image.
enum Kind {
    Text(&'static str),
    Image,
}

/// A document with these pages: text in a base font, or one full-bleed gray image.
fn document(pages: &[Kind]) -> Vec<u8> {
    let mut objects: Vec<Vec<u8>> = Vec::new();
    let first_page = 4;
    let kids: Vec<String> =
        (0..pages.len()).map(|i| format!("{} 0 R", first_page + 3 * i)).collect();
    objects.push(b"<< /Type /Catalog /Pages 2 0 R >>".to_vec());
    objects.push(
        format!("<< /Type /Pages /Kids [{}] /Count {} >>", kids.join(" "), pages.len())
            .into_bytes(),
    );
    objects.push(b"<< /Type /Font /Subtype /Type1 /BaseFont /Helvetica >>".to_vec());
    for (i, page) in pages.iter().enumerate() {
        let page_id = first_page + 3 * i;
        let resources = match page {
            Kind::Text(_) => "<< /Font << /F1 3 0 R >> >>".to_string(),
            Kind::Image => format!("<< /XObject << /Im0 {} 0 R >> >>", page_id + 2),
        };
        objects.push(
            format!(
                "<< /Type /Page /Parent 2 0 R /MediaBox [0 0 612 792] /Resources {resources} /Contents {} 0 R >>",
                page_id + 1
            )
            .into_bytes(),
        );
        let content = match page {
            Kind::Text(heading) => {
                let mut content = format!("BT /F1 24 Tf 72 720 Td ({heading}) Tj ET\n");
                for line in 0..12 {
                    content.push_str(&format!(
                        "BT /F1 12 Tf 72 {} Td (The quick brown fox jumps over the lazy dog, line {line} of this page.) Tj ET\n",
                        680 - 20 * line
                    ));
                }
                content
            }
            Kind::Image => "q 612 0 0 792 0 0 cm /Im0 Do Q\n".to_string(),
        };
        let mut stream = format!("<< /Length {} >>\nstream\n", content.len()).into_bytes();
        stream.extend_from_slice(content.as_bytes());
        stream.extend_from_slice(b"\nendstream");
        objects.push(stream);
        match page {
            Kind::Text(_) => objects.push(b"null".to_vec()),
            Kind::Image => {
                let mut image = b"<< /Type /XObject /Subtype /Image /Width 50 /Height 50 /ColorSpace /DeviceGray /BitsPerComponent 8 /Length 2500 >>\nstream\n".to_vec();
                image.extend((0..2500u32).map(|n| (n % 251) as u8));
                image.extend_from_slice(b"\nendstream");
                objects.push(image);
            }
        }
    }
    let mut out = b"%PDF-1.4\n".to_vec();
    let mut offsets: Vec<usize> = Vec::new();
    for (i, object) in objects.iter().enumerate() {
        offsets.push(out.len());
        out.extend_from_slice(format!("{} 0 obj\n", i + 1).as_bytes());
        out.extend_from_slice(object);
        out.extend_from_slice(b"\nendobj\n");
    }
    let xref = out.len();
    out.extend_from_slice(format!("xref\n0 {}\n0000000000 65535 f \n", objects.len() + 1).as_bytes());
    for offset in &offsets {
        out.extend_from_slice(format!("{offset:010} 00000 n \n").as_bytes());
    }
    out.extend_from_slice(
        format!(
            "trailer\n<< /Size {} /Root 1 0 R >>\nstartxref\n{xref}\n%%EOF\n",
            objects.len() + 1
        )
        .as_bytes(),
    );
    out
}

fn text_pdf() -> Vec<u8> {
    document(&[Kind::Text("TEXT DOC PAGE ONE"), Kind::Text("TEXT DOC PAGE TWO")])
}

fn scanned_pdf() -> Vec<u8> {
    document(&[Kind::Image, Kind::Image])
}

fn mixed_pdf() -> Vec<u8> {
    document(&[
        Kind::Text("MIXED DOC PAGE ONE"),
        Kind::Image,
        Kind::Text("MIXED DOC PAGE THREE"),
        Kind::Image,
    ])
}

fn single_image_pdf() -> Vec<u8> {
    document(&[Kind::Image])
}

fn config() -> Config {
    Config::new(Tiers::new(LOCAL, STANDARD).with_premium(PREMIUM))
}

fn run_config() -> Config {
    Config::new(Tiers::new(LOCAL, STANDARD))
}

fn is_confident(c: &Classification) -> bool {
    !c.confidence.is_below(config().min_confidence)
}

#[test]
fn text_pdf_stays_local() {
    let c = classify(&text_pdf()).expect("classify text.pdf");
    assert_eq!(c.pdf_type, PdfType::TextBased);
    assert_eq!(c.page_count, 2);
    assert_eq!(c.pages_needing_ocr, Vec::<u32>::new());
    assert!(!c.needs_ocr_everywhere());
    assert_eq!(c.text_layer_pages(), vec![0, 1]);

    let plan = plan_route(&c, &config()).expect("plan");
    if !is_confident(&c) {
        assert_eq!(plan.reason, Reason::LowConfidence);
    } else {
        assert_eq!(plan.reason, Reason::TextLayer);
        assert_eq!(plan.tier, Tier::Local);
        assert_eq!(plan.legs, vec![Leg::whole(LOCAL, Tier::Local)]);
    }
}

#[test]
fn scanned_pdf_goes_to_ocr_whole() {
    let c = classify(&scanned_pdf()).expect("classify scanned.pdf");
    assert_eq!(c.pdf_type, PdfType::Scanned);
    assert_eq!(c.page_count, 2);
    assert_eq!(c.pages_needing_ocr, vec![0, 1]);
    assert!(c.needs_ocr_everywhere());

    let plan = plan_route(&c, &config()).expect("plan");
    if !is_confident(&c) {
        assert_eq!(plan.reason, Reason::LowConfidence);
    } else {
        assert_eq!(plan.reason, Reason::Scanned);
        assert_eq!(plan.tier, Tier::Standard);
        assert_eq!(plan.legs, vec![Leg::whole(STANDARD, Tier::Standard)]);
    }
}

#[test]
fn mixed_pdf_splits_by_page() {
    let c = classify(&mixed_pdf()).expect("classify mixed.pdf");
    assert_eq!(c.pdf_type, PdfType::Mixed);
    assert_eq!(c.page_count, 4);
    assert_eq!(c.pages_needing_ocr, vec![1, 3]);
    assert_eq!(c.text_layer_pages(), vec![0, 2]);

    let plan = plan_route(&c, &config()).expect("plan");
    if !is_confident(&c) {
        assert_eq!(plan.reason, Reason::LowConfidence);
    } else {
        assert_eq!(plan.reason, Reason::MixedSplit);
        assert!(plan.is_split());
        assert_eq!(
            plan.legs,
            vec![
                Leg::subset(LOCAL, Tier::Local, vec![0, 2]),
                Leg::subset(STANDARD, Tier::Standard, vec![1, 3]),
            ]
        );
    }
}

#[test]
fn every_third_page_an_image_is_found_page_by_page() {
    let mut pages = Vec::new();
    for _ in 0..8 {
        pages.push(Kind::Text("LONG DOC TEXT PAGE"));
        pages.push(Kind::Text("LONG DOC TEXT PAGE"));
        pages.push(Kind::Image);
    }
    let c = classify(&document(&pages)).expect("classify");
    assert_eq!(c.page_count, 24);
    assert_eq!(c.pages_needing_ocr, vec![2, 5, 8, 11, 14, 17, 20, 23]);
    assert_eq!(c.pdf_type, PdfType::Mixed);
}

#[test]
fn local_extraction_returns_original_page_indices() {
    let bytes = mixed_pdf();
    let all = extract_local(&bytes, None).expect("extract all");
    assert_eq!(all.pages.len(), 4);
    assert_eq!(all.pages.iter().map(|p| p.index).collect::<Vec<_>>(), vec![0, 1, 2, 3]);
    assert!(all.pages.iter().all(|p| p.model == LOCAL));
    assert_eq!(all.model, LOCAL);
    assert_eq!(all.pages_processed, 4);
    assert_eq!(all.doc_size_bytes, Some(bytes.len() as u64));

    let subset = extract_local(&bytes, Some(&[0, 2])).expect("extract subset");
    assert_eq!(subset.pages.iter().map(|p| p.index).collect::<Vec<_>>(), vec![0, 2]);
    assert_eq!(subset.pages[0].markdown, all.pages[0].markdown);
    assert_eq!(subset.pages[1].markdown, all.pages[2].markdown);
    assert!(all.pages[0].markdown.contains("MIXED DOC PAGE ONE"), "{}", all.pages[0].markdown);
}

#[test]
fn extracting_what_is_no_document_is_an_error() {
    assert!(extract_local(b"hello world", None).is_err());
}

#[test]
fn split_of_the_ocr_pages_round_trips_through_classification() {
    let split = split_pdf(&mixed_pdf(), &[1, 3]).expect("split");
    let c = classify(&split).expect("classify the split");
    assert_eq!(c.page_count, 2);
    assert_eq!(c.pages_needing_ocr, vec![0, 1], "both extracted pages still need OCR");
}

#[test]
fn split_of_a_text_page_extracts_the_same_markdown() {
    let bytes = text_pdf();
    let original = extract_local(&bytes, Some(&[0])).expect("extract page 0");

    let split = split_pdf(&bytes, &[0]).expect("split");
    let extracted = extract_local(&split, None).expect("extract the split");
    assert_eq!(extracted.pages.len(), 1);
    assert_eq!(extracted.pages[0].index, 0);
    assert_eq!(extracted.pages[0].markdown, original.pages[0].markdown);
}

#[test]
fn split_preserves_the_requested_order() {
    let bytes = text_pdf();
    let whole = extract_local(&bytes, None).expect("extract");

    let reversed = split_pdf(&bytes, &[1, 0]).expect("split");
    let extracted = extract_local(&reversed, None).expect("extract the split");
    assert_eq!(extracted.pages.len(), 2);
    assert_eq!(extracted.pages[0].markdown, whole.pages[1].markdown);
    assert_eq!(extracted.pages[1].markdown, whole.pages[0].markdown);
    assert_ne!(extracted.pages[0].markdown, extracted.pages[1].markdown);
}

#[test]
fn split_may_repeat_a_page() {
    let bytes = text_pdf();
    let twice = split_pdf(&bytes, &[1, 1]).expect("split");
    let extracted = extract_local(&twice, None).expect("extract the split");
    assert_eq!(extracted.pages.len(), 2);
    assert_eq!(extracted.pages[0].markdown, extracted.pages[1].markdown);
    assert!(extracted.pages[0].markdown.contains("TEXT DOC PAGE TWO"));
}

#[test]
fn split_rejects_pages_past_the_end() {
    let err = split_pdf(&text_pdf(), &[0, 7]).expect_err("out of range");
    assert!(err.message().contains("out of range"), "{}", err.message());
}

#[test]
fn a_split_document_loads_with_its_pages_and_nothing_else() {
    let split = split_pdf(&mixed_pdf(), &[2]).expect("split");
    let loaded = lopdf::Document::load_mem(&split).expect("load the split");
    assert_eq!(loaded.get_pages().len(), 1);
    // The catalog, the page tree, the page, its content, its font and the cross-reference
    // stream.
    assert_eq!(loaded.objects.len(), 6, "{:?}", loaded.objects);
}

/// The complement of `pages` within a `page_count`-page document.
fn complement(pages: &[u32], page_count: u32) -> Vec<u32> {
    (0..page_count).filter(|p| !pages.contains(p)).collect()
}

fn verdict(page: u32, needs_ocr: bool) -> PageVerdict {
    PageVerdict {
        page,
        needs_ocr,
        confidence: Real32 { bits: 0.5f32.to_bits() },
        reason: "test".to_string(),
    }
}

/// Says the opposite of the inspector about every page, and keeps what it saw.
#[derive(Default)]
struct InvertingJudge {
    wants_text: bool,
    seen: Mutex<Vec<PageEvidence>>,
}

impl InvertingJudge {
    fn with_text() -> Self {
        InvertingJudge { wants_text: true, seen: Mutex::new(Vec::new()) }
    }

    fn seen(&self) -> Vec<PageEvidence> {
        self.seen.lock().expect("evidence mutex").clone()
    }
}

impl PageJudge for InvertingJudge {
    fn judge(&self, evidence: &[PageEvidence]) -> Result<Vec<PageVerdict>, Error> {
        self.seen.lock().expect("evidence mutex").extend_from_slice(evidence);
        Ok(evidence.iter().map(|page| verdict(page.page, !page.flagged_by_inspector)).collect())
    }

    fn name(&self) -> &'static str {
        "inverting"
    }

    fn needs_text(&self) -> bool {
        self.wants_text
    }
}

/// Returns whatever it is told to, contract or no contract.
struct BrokenJudge(fn(&[PageEvidence]) -> Vec<PageVerdict>);

impl PageJudge for BrokenJudge {
    fn judge(&self, evidence: &[PageEvidence]) -> Result<Vec<PageVerdict>, Error> {
        Ok((self.0)(evidence))
    }

    fn name(&self) -> &'static str {
        "broken"
    }

    fn needs_text(&self) -> bool {
        false
    }
}

/// Fails outright, the way a hosted judge would when the network is down.
struct FailingJudge;

impl PageJudge for FailingJudge {
    fn judge(&self, _evidence: &[PageEvidence]) -> Result<Vec<PageVerdict>, Error> {
        Err(Error::Judge("no answer from the classifier".to_string()))
    }

    fn name(&self) -> &'static str {
        "failing"
    }

    fn needs_text(&self) -> bool {
        false
    }
}

#[test]
fn the_default_judge_is_the_heuristic_one() {
    for (name, bytes) in [
        ("text.pdf", text_pdf()),
        ("mixed.pdf", mixed_pdf()),
        ("scanned.pdf", scanned_pdf()),
        ("single_image.pdf", single_image_pdf()),
    ] {
        let default = classify(&bytes).expect(name);
        let explicit = classify_with(&bytes, &HeuristicJudge).expect(name);
        assert_eq!(default.pdf_type, explicit.pdf_type, "{name}");
        assert_eq!(default.pages_needing_ocr, explicit.pages_needing_ocr, "{name}");
        assert_eq!(default.page_count, explicit.page_count, "{name}");
        assert_eq!(default.is_complex_layout, explicit.is_complex_layout, "{name}");
        assert_eq!(default.has_encoding_issues, explicit.has_encoding_issues, "{name}");
        assert_eq!(default.ocr_reasons, explicit.ocr_reasons, "{name}");
    }
}

#[test]
fn an_inverting_judge_produces_the_complement_page_set() {
    let bytes = mixed_pdf();
    let default = classify(&bytes).expect("classify mixed.pdf");
    assert_eq!(default.pages_needing_ocr, vec![1, 3]);

    let inverted = classify_with(&bytes, &InvertingJudge::default()).expect("inverted mixed.pdf");
    assert_eq!(
        inverted.pages_needing_ocr,
        complement(&default.pages_needing_ocr, default.page_count)
    );
    assert_eq!(inverted.pages_needing_ocr, vec![0, 2]);
    assert_eq!(inverted.page_count, default.page_count);
}

#[test]
fn an_inverting_judge_moves_the_document_label_with_the_pages() {
    let bytes = scanned_pdf();
    let default = classify(&bytes).expect("classify scanned.pdf");
    assert_eq!(default.pdf_type, PdfType::Scanned);
    assert_eq!(default.pages_needing_ocr, vec![0, 1]);

    let inverted =
        classify_with(&bytes, &InvertingJudge::default()).expect("inverted scanned.pdf");
    assert_eq!(inverted.pages_needing_ocr, Vec::<u32>::new());
    assert_eq!(inverted.pdf_type, PdfType::TextBased);
    assert_ne!(inverted.pdf_type, default.pdf_type);
}

#[test]
fn every_page_is_judged_not_only_the_flagged_ones() {
    let judge = InvertingJudge::default();
    let c = classify_with(&mixed_pdf(), &judge).expect("classify mixed.pdf");
    let seen = judge.seen();
    assert_eq!(seen.len() as u32, c.page_count);
    assert_eq!(
        seen.iter().map(|page| page.page).collect::<Vec<_>>(),
        (0..c.page_count).collect::<Vec<_>>()
    );
    assert_eq!(
        seen.iter().map(|page| page.flagged_by_inspector).collect::<Vec<_>>(),
        vec![false, true, false, true]
    );
    assert!(!seen[1].reasons.is_empty(), "{:?}", seen[1]);
    assert!(seen[0].reasons.is_empty(), "{:?}", seen[0]);
}

#[test]
fn text_is_populated_only_when_the_judge_asks_for_it() {
    let bytes = mixed_pdf();

    let silent = InvertingJudge::default();
    classify_with(&bytes, &silent).expect("classify without text");
    assert!(silent.seen().iter().all(|page| page.text.is_none()));

    let hungry = InvertingJudge::with_text();
    classify_with(&bytes, &hungry).expect("classify with text");
    let seen = hungry.seen();
    assert!(seen.iter().all(|page| page.text.is_some()));
    let first = seen[0].text.as_deref().expect("page 0 text");
    assert!(first.contains("MIXED DOC PAGE ONE"), "page 0 text should be page 0's: {first:?}");
}

#[test]
fn a_judge_that_returns_too_few_verdicts_is_an_error() {
    let judge = BrokenJudge(|evidence| {
        evidence.iter().skip(1).map(|page| verdict(page.page, true)).collect()
    });
    let err = classify_with(&mixed_pdf(), &judge).expect_err("short verdict list");
    assert!(matches!(err, Error::Judge(_)), "{}", err.message());
    let message = err.message();
    assert!(message.contains("broken"), "{message}");
    assert!(message.contains("3 verdict(s) for 4 page(s)"), "{message}");
}

#[test]
fn a_judge_that_returns_too_many_verdicts_is_an_error() {
    let judge = BrokenJudge(|evidence| {
        evidence
            .iter()
            .map(|page| verdict(page.page, true))
            .chain(std::iter::once(verdict(0, true)))
            .collect()
    });
    let err = classify_with(&mixed_pdf(), &judge).expect_err("long verdict list");
    assert!(matches!(err, Error::Judge(_)), "{}", err.message());
    assert!(err.message().contains("5 verdict(s) for 4 page(s)"), "{}", err.message());
}

#[test]
fn a_judge_that_names_a_page_out_of_range_is_an_error() {
    let judge = BrokenJudge(|evidence| {
        evidence
            .iter()
            .enumerate()
            .map(|(index, page)| verdict(if index == 2 { 99 } else { page.page }, true))
            .collect()
    });
    let err = classify_with(&mixed_pdf(), &judge).expect_err("page out of range");
    assert!(matches!(err, Error::Judge(_)), "{}", err.message());
    let message = err.message();
    assert!(message.contains("page 99"), "{message}");
    assert!(message.contains("4-page document"), "{message}");
}

#[test]
fn a_judge_that_answers_out_of_order_is_an_error() {
    let judge = BrokenJudge(|evidence| {
        evidence.iter().rev().map(|page| verdict(page.page, true)).collect()
    });
    let err = classify_with(&mixed_pdf(), &judge).expect_err("out of order");
    assert!(matches!(err, Error::Judge(_)), "{}", err.message());
    assert!(err.message().contains("page 3 where page 0 was expected"), "{}", err.message());
}

#[test]
fn a_judges_own_failure_surfaces_unchanged() {
    let err = classify_with(&mixed_pdf(), &FailingJudge).expect_err("failing judge");
    assert!(matches!(err, Error::Judge(_)), "{}", err.message());
    assert!(err.message().contains("no answer from the classifier"), "{}", err.message());
}

#[test]
fn a_judge_never_sees_bytes_that_are_not_a_pdf() {
    let judge = InvertingJudge::default();
    let err = classify_with(b"hello world", &judge).expect_err("not a pdf");
    assert!(matches!(err, Error::NotPdf), "{}", err.message());
    assert!(judge.seen().is_empty());
}

/// One `ocr` call as the mock saw it.
#[derive(Debug, Clone, PartialEq, Eq)]
struct Call {
    model: String,
    pages: Option<Vec<u32>>,
    doc_len: usize,
}

/// A host that records what it was asked for and fabricates pages in return.
struct MockHost {
    calls: Mutex<Vec<Call>>,
    fail_for: Vec<String>,
}

impl MockHost {
    fn new() -> Self {
        MockHost { calls: Mutex::new(Vec::new()), fail_for: Vec::new() }
    }

    fn failing_for(model: &str) -> Self {
        MockHost { calls: Mutex::new(Vec::new()), fail_for: vec![model.to_string()] }
    }

    fn calls(&self) -> Vec<Call> {
        self.calls.lock().expect("mock host lock").clone()
    }
}

impl OcrHost for MockHost {
    fn ocr(&self, model: &str, document: &[u8], pages: Option<&[u32]>) -> Result<OcrResult, Error> {
        self.calls.lock().expect("mock host lock").push(Call {
            model: model.to_string(),
            pages: pages.map(|p| p.to_vec()),
            doc_len: document.len(),
        });
        if self.fail_for.iter().any(|m| m == model) {
            return Err(Error::Host(format!("{model} is down")));
        }
        let indices: Vec<u32> = match pages {
            Some(pages) => pages.to_vec(),
            None => (0..classify(document).map(|c| c.page_count).unwrap_or(1)).collect(),
        };
        Ok(OcrResult {
            pages: indices
                .iter()
                .map(|index| Page::new(*index, &format!("OCR page {index}"), model))
                .collect(),
            model: model.to_string(),
            pages_processed: indices.len() as u32,
            doc_size_bytes: Some(document.len() as u64),
        })
    }
}

#[test]
fn mixed_split_runs_the_local_leg_in_process_and_ocrs_the_rest() {
    let bytes = mixed_pdf();
    let host = MockHost::new();
    let outcome = run(&bytes, &run_config(), None, &host).expect("run");

    assert_eq!(
        host.calls(),
        vec![Call {
            model: STANDARD.to_string(),
            pages: Some(vec![1, 3]),
            doc_len: bytes.len(),
        }]
    );

    assert!(matches!(outcome.decision, Decision::Route { .. }));
    assert_eq!(
        outcome.result.pages.iter().map(|p| p.index).collect::<Vec<_>>(),
        vec![0, 1, 2, 3]
    );
    assert_eq!(
        outcome.result.pages.iter().map(|p| p.model.as_str()).collect::<Vec<_>>(),
        vec![LOCAL_MODEL, STANDARD, LOCAL_MODEL, STANDARD]
    );
    assert_eq!(outcome.result.model, "local_pdf/extract,mistral-ocr");
    assert_eq!(outcome.result.pages_processed, 4);
    assert_eq!(outcome.result.pages[1].markdown, "OCR page 1");
    assert!(!outcome.result.pages[0].markdown.is_empty());

    assert_eq!(outcome.metadata.tier, "standard");
    assert_eq!(outcome.metadata.reason, "mixed_split");
    assert_eq!(outcome.metadata.split, Some(true));
    assert_eq!(outcome.metadata.fallback_reason, None);
}

#[test]
fn scanned_documents_go_to_the_host_whole() {
    let bytes = scanned_pdf();
    let host = MockHost::new();
    let outcome = run(&bytes, &run_config(), None, &host).expect("run");

    assert_eq!(
        host.calls(),
        vec![Call { model: STANDARD.to_string(), pages: None, doc_len: bytes.len() }]
    );
    assert_eq!(outcome.result.pages.len(), 2);
    assert_eq!(outcome.result.model, STANDARD);
    assert_eq!(outcome.metadata.reason, "scanned");
}

#[test]
fn text_documents_never_reach_the_host() {
    let bytes = text_pdf();
    let host = MockHost::new();
    let outcome = run(&bytes, &run_config(), None, &host).expect("run");

    assert!(host.calls().is_empty());
    assert_eq!(outcome.result.model, LOCAL_MODEL);
    assert_eq!(outcome.result.pages.len(), 2);
    assert_eq!(outcome.metadata.reason, "text_layer");
}

#[test]
fn a_failed_leg_reruns_the_whole_document_on_the_default_model() {
    let bytes = mixed_pdf();
    let host = MockHost::failing_for(STANDARD);
    let outcome = run(&bytes, &run_config(), Some("fallback-ocr"), &host).expect("run");

    assert_eq!(
        host.calls(),
        vec![
            Call {
                model: STANDARD.to_string(),
                pages: Some(vec![1, 3]),
                doc_len: bytes.len(),
            },
            Call { model: "fallback-ocr".to_string(), pages: None, doc_len: bytes.len() },
        ]
    );
    assert_eq!(outcome.metadata.fallback_reason.as_deref(), Some("leg_failed"));
    assert_eq!(outcome.metadata.routed_model, "fallback-ocr");
    assert_eq!(outcome.result.model, "fallback-ocr");
    assert_eq!(outcome.result.pages.len(), 4);
}

#[test]
fn the_fallback_defaults_to_the_standard_tier() {
    let bytes = mixed_pdf();
    let host = MockHost::failing_for(STANDARD);
    let err = run(&bytes, &run_config(), None, &host).expect_err("both attempts fail");
    assert!(matches!(err, Error::LegFailed { .. }), "{}", err.message());
    let calls = host.calls();
    assert_eq!(calls.len(), 2);
    assert_eq!(calls[1].pages, None);
    assert_eq!(calls[1].model, STANDARD);
}

#[test]
fn bypassed_documents_go_straight_to_the_bypass_model() {
    let host = MockHost::new();
    let bytes = b"this is plainly not a pdf".to_vec();
    let outcome = run(&bytes, &run_config(), Some("bypass-model"), &host).expect("run");

    assert_eq!(
        host.calls(),
        vec![Call { model: "bypass-model".to_string(), pages: None, doc_len: bytes.len() }]
    );
    assert!(matches!(outcome.decision, Decision::Bypass { .. }));
    assert_eq!(outcome.metadata.tier, "bypass");
    assert_eq!(outcome.metadata.reason, "not_pdf");
    assert_eq!(outcome.metadata.routed_model, "bypass-model");
}

/// What a provider without page-list support does inside `ocr`.
struct SplittingHost;

impl OcrHost for SplittingHost {
    fn ocr(&self, model: &str, document: &[u8], pages: Option<&[u32]>) -> Result<OcrResult, Error> {
        let pages = pages.expect("this test only sends subsets");
        let subset = split_pdf(document, pages)?;
        let mut result = OcrResult {
            pages: (0..pages.len() as u32)
                .map(|i| Page::new(i, &format!("subset page {i}"), model))
                .collect(),
            model: model.to_string(),
            pages_processed: pages.len() as u32,
            doc_size_bytes: Some(subset.len() as u64),
        };
        remap_pages(&mut result, pages);
        Ok(result)
    }
}

#[test]
fn a_host_that_splits_pages_itself_still_reports_original_indices() {
    let outcome = run(&mixed_pdf(), &run_config(), None, &SplittingHost).expect("run");
    assert_eq!(
        outcome.result.pages.iter().map(|p| p.index).collect::<Vec<_>>(),
        vec![0, 1, 2, 3]
    );
    assert_eq!(outcome.result.pages[1].markdown, "subset page 0");
    assert_eq!(outcome.result.pages[3].markdown, "subset page 1");
}

// scoring documents

fn corpus_document(file: &str, page_count: u32, needs_ocr: &[u32]) -> CorpusDocument {
    let row = DocumentSpec {
        file: file.to_string(),
        source: "synthetic".to_string(),
        page_count,
        needs_ocr: needs_ocr.to_vec(),
        note: None,
    };
    let manifest = Manifest { documents: vec![row] };
    let mut corpus = Corpus::parse("/corpus/rows.json", manifest).expect("a valid row");
    corpus.documents.remove(0)
}

fn heuristic_only() -> Vec<Box<HeuristicJudge>> {
    vec![Box::new(HeuristicJudge)]
}

#[test]
fn a_document_is_run_as_often_as_asked() {
    let document = corpus_document("mixed.pdf", 4, &[1, 3]);
    let run = run_document(&mixed_pdf(), &HeuristicJudge, 3, &document).expect("runs");
    assert_eq!(run.samples.len(), 3);
    assert_eq!(run.classification.page_count, 4);
    assert_eq!(run.classification.pages_needing_ocr, vec![1, 3]);
    let routed: Vec<bool> = run.verdicts.iter().map(|verdict| verdict.needs_ocr).collect();
    assert_eq!(routed, vec![false, true, false, true]);
}

#[test]
fn a_wrong_page_count_excludes_the_document_and_fails_the_run() {
    let document = corpus_document("mixed.pdf", 3, &[1]);
    let mut progress = Progress::new(1);
    progress.record(&document, run_judges(&mixed_pdf(), &heuristic_only(), 1, &document));
    assert_eq!(progress.scored, 0);
    assert_eq!(progress.failures.len(), 1);
    let error = &progress.failures[0].error;
    assert!(error.contains("page_count mismatch"), "{error}");
    assert!(error.contains("declares 3"), "{error}");
    assert!(error.contains("reports 4"), "{error}");
    assert_eq!(progress.failures[0].judge, Some("heuristic".to_string()));
    assert_eq!(progress.judges.len(), 1);
    assert!(progress.judges[0].documents.is_empty());
}

#[test]
fn one_bad_document_does_not_stop_the_good_ones() {
    let bad = corpus_document("scanned.pdf", 99, &[0]);
    let good = corpus_document("mixed.pdf", 4, &[1, 3]);
    let mut progress = Progress::new(1);
    progress.record(&bad, run_judges(&scanned_pdf(), &heuristic_only(), 1, &bad));
    progress.record(&good, run_judges(&mixed_pdf(), &heuristic_only(), 1, &good));
    assert_eq!(progress.scored, 1);
    assert_eq!(progress.failures.len(), 1);
    let rows = progress.judges.remove(0);
    assert_eq!(rows.documents.len(), 1);
    assert_eq!(rows.documents[0].file, "mixed.pdf");
    assert_eq!(rows.documents[0].pdf_type, "mixed");
    assert!(rows.documents[0].route_exact);
    let report =
        judge_report("heuristic", true, rows, &vec!["synthetic".to_string()], None);
    assert_eq!(report.overall.confusion.pages(), 4);
    assert_eq!(report.confidence.constant, Some(Real32 { bits: 1f32.to_bits() }));
}

#[test]
fn a_missing_file_is_a_harness_failure_not_a_score() {
    let document = corpus_document("nope.pdf", 1, &[]);
    let mut progress = Progress::new(1);
    progress.exclude_unreadable(&document, "No such file or directory (os error 2)");
    assert_eq!(progress.scored, 0);
    assert_eq!(progress.failures.len(), 1);
    assert!(
        progress.failures[0].error.contains("could not read"),
        "{}",
        progress.failures[0].error
    );
    // Resolved relative to the manifest, not the working directory.
    assert_eq!(progress.failures[0].path, "/corpus/nope.pdf");
    assert_eq!(progress.failures[0].judge, None);
}

#[test]
fn a_judge_that_fails_excludes_its_document_by_name() {
    let document = corpus_document("mixed.pdf", 4, &[1, 3]);
    let judges: Vec<Box<dyn PageJudge>> = vec![Box::new(HeuristicJudge), Box::new(FailingJudge)];
    let (judge, error) =
        run_judges(&mixed_pdf(), &judges, 1, &document).expect_err("one judge failed");
    assert_eq!(judge, "failing");
    assert!(error.contains("no answer from the classifier"), "{error}");
}

#[test]
fn a_run_is_held_to_its_verdicts() {
    let document = corpus_document("mixed.pdf", 4, &[1, 3]);
    let run = run_document(&mixed_pdf(), &HeuristicJudge, 1, &document).expect("runs");
    assert_eq!(check_run("heuristic", &document, &run.classification, &run.verdicts), None);
    let few: Vec<PageVerdict> = vec![verdict(0, false)];
    assert!(check_run("heuristic", &document, &run.classification, &few).is_some());
}

// a proxy that a script answers

const FALLBACK: &str = "gpt-4o-mini";
const API_KEY: &str = "sk-test-1234";

/// A configured proxy whose calls a script answers, by what the request asks for.
struct Proxy {
    host: LiteLlmHost,
    script: fn(&Value) -> Reply,
    bodies: Mutex<Vec<Value>>,
    calls: Mutex<Vec<CallRecord>>,
}

impl Proxy {
    fn new(host: LiteLlmHost, script: fn(&Value) -> Reply) -> Self {
        Proxy { host, script, bodies: Mutex::new(Vec::new()), calls: Mutex::new(Vec::new()) }
    }

    fn bodies(&self) -> Vec<Value> {
        self.bodies.lock().expect("request log").clone()
    }

    fn post(&self, model: &str, document: &[u8], pages: Option<&[u32]>) -> Result<OcrResult, Error> {
        let body = LiteLlmHost::request_body(model, document, pages).to_wire();
        let body: Value = serde_json::from_str(&body).expect("a request body is JSON");
        let reply = (self.script)(&body);
        self.bodies.lock().expect("request log").push(body);
        self.calls.lock().expect("call log").push(call_record(model, pages, 5, &reply));
        self.host.read_reply(model, reply)
    }
}

impl OcrHost for Proxy {
    fn ocr(&self, model: &str, document: &[u8], pages: Option<&[u32]>) -> Result<OcrResult, Error> {
        let result = match self.host.upload(document, pages)? {
            Upload::Whole => self.post(model, document, pages)?,
            Upload::Subset(subset) => self.post(model, &subset, None)?,
        };
        Ok(self.host.deliver(result, pages))
    }
}

fn proxy_host() -> LiteLlmHost {
    LiteLlmHost::new("http://127.0.0.1:4000").with_api_key(Some(API_KEY))
}

/// A successful reply that carries these pages.
fn ocr_response(model: &str, pages: &[(u32, &str)]) -> Reply {
    Reply::Answered {
        status: 200,
        text: String::new(),
        parsed: Ok(OcrResponse {
            pages: pages
                .iter()
                .map(|(index, markdown)| OcrResponsePage {
                    index: *index,
                    markdown: (*markdown).to_string(),
                })
                .collect(),
            model: Some(model.to_string()),
            usage_info: Some(UsageInfo {
                pages_processed: Some(pages.len() as u32),
                doc_size_bytes: Some(4096),
            }),
        }),
    }
}

fn exploded() -> Reply {
    Reply::Answered {
        status: 500,
        text: "ocr backend exploded".to_string(),
        parsed: Err("expected value at line 1 column 1".to_string()),
    }
}

/// The document a request carries.
fn uploaded(body: &Value) -> Vec<u8> {
    let url = body["document"]["document_url"].as_str().expect("document_url is a string");
    let encoded = url
        .strip_prefix("data:application/pdf;base64,")
        .expect("document_url is a base64 PDF data URI");
    base64::engine::general_purpose::STANDARD.decode(encoded).expect("document_url decodes")
}

fn page_numbers(value: Option<&Value>) -> Vec<u64> {
    value
        .and_then(Value::as_array)
        .expect("a page list")
        .iter()
        .map(|page| page.as_u64().expect("a page number"))
        .collect()
}

#[test]
fn a_mixed_pdf_sends_exactly_one_ocr_call_for_the_ocr_pages() {
    let proxy = Proxy::new(proxy_host(), |_| {
        ocr_response(STANDARD, &[(1, "scan of page two"), (3, "scan of page four")])
    });
    let bytes = mixed_pdf();
    let outcome = run(&bytes, &run_config(), None, &proxy).expect("run succeeds");

    // Exactly one call: the local leg never leaves the process.
    let calls = proxy.bodies();
    assert_eq!(calls.len(), 1);
    assert_eq!(calls[0]["model"], STANDARD);
    assert_eq!(page_numbers(calls[0].get("pages")), vec![1, 3]);
    assert_eq!(proxy.host.api_key.as_deref(), Some("sk-test-1234"));
    assert_eq!(uploaded(&calls[0]), bytes, "the whole document goes on the wire");

    let pages = &outcome.result.pages;
    assert_eq!(pages.iter().map(|p| p.index).collect::<Vec<_>>(), vec![0, 1, 2, 3]);
    assert_eq!(
        pages.iter().map(|p| p.model.as_str()).collect::<Vec<_>>(),
        vec![LOCAL_MODEL, STANDARD, LOCAL_MODEL, STANDARD]
    );
    assert_eq!(pages[1].markdown, "scan of page two");
    assert_eq!(pages[3].markdown, "scan of page four");
    assert!(!pages[0].markdown.is_empty(), "page 0 came from the text layer");
    assert!(!pages[2].markdown.is_empty(), "page 2 came from the text layer");

    assert_eq!(outcome.result.model, format!("{LOCAL_MODEL},{STANDARD}"));
    assert_eq!(outcome.metadata.reason, "mixed_split");
    assert_eq!(outcome.metadata.split, Some(true));
    assert_eq!(outcome.metadata.fallback_reason, None);
}

#[test]
fn a_scanned_pdf_sends_one_whole_document_call_with_no_pages_field() {
    let proxy = Proxy::new(proxy_host(), |_| {
        ocr_response(STANDARD, &[(0, "scan of page one"), (1, "scan of page two")])
    });
    let outcome = run(&scanned_pdf(), &run_config(), None, &proxy).expect("run succeeds");

    let calls = proxy.bodies();
    assert_eq!(calls.len(), 1);
    assert_eq!(calls[0]["model"], STANDARD);
    assert_eq!(calls[0].get("pages"), None, "a whole-document leg must not send a `pages` key");

    assert_eq!(outcome.metadata.reason, "scanned");
    assert_eq!(outcome.result.model, STANDARD);
    assert_eq!(
        outcome.result.pages.iter().map(|p| p.markdown.as_str()).collect::<Vec<_>>(),
        vec!["scan of page one", "scan of page two"]
    );
}

#[test]
fn a_text_pdf_never_touches_the_network() {
    let proxy = Proxy::new(proxy_host(), |_| ocr_response(STANDARD, &[]));
    let outcome = run(&text_pdf(), &run_config(), None, &proxy).expect("run succeeds");

    assert!(proxy.bodies().is_empty());
    assert_eq!(outcome.metadata.reason, "text_layer");
    assert_eq!(outcome.result.model, LOCAL_MODEL);
    assert_eq!(outcome.result.pages.len(), 2);
}

#[test]
fn a_failing_leg_reruns_the_whole_document_on_the_default_model() {
    // The split leg is the only call that carries `pages`.
    let proxy = Proxy::new(proxy_host(), |body| {
        if body.get("pages").is_some() {
            exploded()
        } else {
            ocr_response(FALLBACK, &[(0, "a"), (1, "b"), (2, "c"), (3, "d")])
        }
    });
    let outcome =
        run(&mixed_pdf(), &run_config(), Some(FALLBACK), &proxy).expect("run succeeds");

    let calls = proxy.bodies();
    assert_eq!(calls.len(), 2);
    assert!(calls[0].get("pages").is_some());
    assert!(calls[1].get("pages").is_none());
    assert_eq!(calls[1]["model"], FALLBACK);
    assert_eq!(outcome.metadata.fallback_reason.as_deref(), Some("leg_failed"));
    assert_eq!(outcome.metadata.routed_model, FALLBACK);
    assert_eq!(outcome.result.model, FALLBACK);
    assert_eq!(outcome.result.pages.len(), 4);
}

#[test]
fn a_failing_fallback_surfaces_the_http_status() {
    let proxy = Proxy::new(proxy_host(), |_| exploded());
    let error = run(&mixed_pdf(), &run_config(), Some(FALLBACK), &proxy)
        .expect_err("both calls fail, so run fails");

    // The split leg, and then the whole-document retry.
    assert_eq!(proxy.bodies().len(), 2);
    let message = error.message();
    assert!(message.contains("500"), "{message}");
    assert!(message.contains("ocr backend exploded"), "{message}");
}

#[test]
fn split_subset_uploads_a_subset_pdf_and_remaps_the_pages_back() {
    // A provider that ignores `pages` numbers the subset it was given from 0.
    let proxy = Proxy::new(proxy_host().with_split_subset(true), |_| {
        ocr_response(STANDARD, &[(0, "subset page one"), (1, "subset page two")])
    });
    let bytes = mixed_pdf();
    let outcome = run(&bytes, &run_config(), None, &proxy).expect("run succeeds");

    let calls = proxy.bodies();
    assert_eq!(calls.len(), 1);
    assert_eq!(
        calls[0].get("pages"),
        None,
        "a split subset replaces the `pages` field, it does not accompany it"
    );
    let document = uploaded(&calls[0]);
    assert_ne!(document, bytes, "the subset is not the original document");
    let uploaded_class = classify(&document).expect("the uploaded subset is a readable PDF");
    assert_eq!(uploaded_class.page_count, 2);

    // The provider's 0 and 1 became 1 and 3 again.
    let pages = &outcome.result.pages;
    assert_eq!(pages.iter().map(|p| p.index).collect::<Vec<_>>(), vec![0, 1, 2, 3]);
    assert_eq!(pages[1].markdown, "subset page one");
    assert_eq!(pages[3].markdown, "subset page two");
    assert_eq!(
        pages.iter().map(|p| p.model.as_str()).collect::<Vec<_>>(),
        vec![LOCAL_MODEL, STANDARD, LOCAL_MODEL, STANDARD]
    );
}

#[test]
fn a_host_without_a_key_sends_no_authorization_header() {
    let host = LiteLlmHost::new("http://127.0.0.1:4000").with_api_key(None);
    let proxy = Proxy::new(host, |_| ocr_response(STANDARD, &[(0, "a"), (1, "b")]));
    run(&scanned_pdf(), &run_config(), None, &proxy).expect("run succeeds");

    assert_eq!(proxy.bodies().len(), 1);
    assert_eq!(proxy.host.api_key, None, "there is nothing to send");
    let recorded = proxy.calls.lock().expect("call log");
    assert_eq!(recorded.len(), 1);
    assert_eq!(recorded[0].model, STANDARD);
    assert_eq!(recorded[0].pages, None);
    assert_eq!(recorded[0].status, Some(200));
}

// what the subcommands report

#[test]
fn classify_json_reports_the_pages_that_need_ocr() {
    let c = classify(&mixed_pdf()).expect("a readable PDF");
    assert_eq!(c.pdf_type.as_str(), "mixed");
    assert_eq!(c.page_count, 4);
    assert_eq!(c.pages_needing_ocr, vec![1, 3]);
    assert!(!c.is_complex_layout);
}

#[test]
fn plan_json_prints_the_decision_and_its_metadata() {
    let decision = decide(&mixed_pdf(), &default_config(), None);
    let metadata = decision.metadata();
    let (plan, classification) = match &decision {
        Decision::Route { plan, classification } => (plan, classification),
        Decision::Bypass { .. } => panic!("a mixed document is routed"),
    };
    assert_eq!(plan.reason.as_str(), "mixed_split");
    assert_eq!(plan.routed_model, "mistral-ocr");
    assert_eq!(classification.page_count, 4);

    assert_eq!(plan.legs.len(), 2);
    assert_eq!(plan.legs[0].model, "local_pdf/extract");
    assert_eq!(plan.legs[0].pages, Some(vec![0, 2]));
    assert_eq!(plan.legs[1].model, "mistral-ocr");
    assert_eq!(plan.legs[1].pages, Some(vec![1, 3]));

    assert_eq!(metadata.reason, "mixed_split");
    assert_eq!(metadata.tier, "standard");
    assert_eq!(metadata.page_count, Some(4));
    assert_eq!(metadata.pages_needing_ocr, Some(vec![1, 3]));
    assert_eq!(metadata.split, Some(true));
}

#[test]
fn plan_honours_default_model_and_exits_zero_on_a_bypass() {
    let decision =
        decide(b"this is plainly not a pdf", &default_config(), Some("gpt-4o-mini"));
    match &decision {
        Decision::Bypass { reason, .. } => assert_eq!(reason.as_str(), "not_pdf"),
        Decision::Route { .. } => panic!("what is no PDF is bypassed"),
    }
    let metadata = decision.metadata();
    assert_eq!(metadata.tier, "bypass");
    assert_eq!(metadata.reason, "not_pdf");
    assert_eq!(metadata.routed_model, "gpt-4o-mini");
}

#[test]
fn split_writes_a_pdf_that_classifies_to_the_kept_pages() {
    let bytes = split_pdf(&mixed_pdf(), &[1, 3]).expect("two pages of four");
    assert!(!bytes.is_empty());
    let classification = classify(&bytes).expect("the subset is a readable PDF");
    assert_eq!(classification.page_count, 2);
}

#[test]
fn a_hosted_judge_without_a_key_names_the_variables_and_does_not_fall_back() {
    let keys = vec![None, None];
    match judge_by_name("jev", OnApiFailure::FallBack, &keys, None, None) {
        Some(JudgeLookup::Unavailable { name, reason }) => {
            let message = unavailable_judge(name, &reason);
            assert!(message.contains("judge `jev` is unavailable"), "{message}");
            assert!(message.contains("TYPESAFE_API_KEY"), "{message}");
            assert!(message.contains("JEV_API_KEY"), "{message}");
            // Not a typo, and not a run that quietly used the heuristic instead.
            assert!(!message.contains("unknown judge"), "{message}");
            assert!(!message.contains("heuristic"), "{message}");
        }
        _ => panic!("a hosted judge without a key is unavailable"),
    }
}

/// A hosted judge whose every call is refused.
struct DownJudge {
    judge: JevJudge,
    calls: Mutex<usize>,
}

impl PageJudge for DownJudge {
    fn judge(&self, evidence: &[PageEvidence]) -> Result<Vec<PageVerdict>, Error> {
        let mut breaker = Breaker::default();
        let mut inquiry = match self.judge.open(&mut breaker, 0, evidence) {
            Opening::Answered(answer) => return answer,
            Opening::Ask(inquiry) => inquiry,
        };
        loop {
            *self.calls.lock().expect("call count") += 1;
            let chunk = inquiry.next_chunk().expect("an open inquiry has a chunk left");
            let pages = chunk.iter().map(|page| page.page).collect();
            let exchange = Exchange::Answered {
                status: 503,
                text: "service unavailable".to_string(),
                parsed: Err("expected value at line 1 column 1".to_string()),
            };
            let (_, outcome) = read_exchange(&self.judge.endpoint(), pages, 1, exchange);
            match self.judge.advance(&mut breaker, 0, inquiry, outcome) {
                Step::Continue(rest) => inquiry = rest,
                Step::Finished(answer) => return answer,
            }
        }
    }

    fn name(&self) -> &'static str {
        self.judge.mode().judge_name()
    }

    fn needs_text(&self) -> bool {
        true
    }
}

#[test]
fn a_hosted_judge_that_cannot_answer_falls_back_visibly() {
    let keys = vec![Some("sk-not-a-real-key".to_string()), None];
    let judge = match judge_by_name("jev", OnApiFailure::FallBack, &keys, None, None) {
        Some(JudgeLookup::Hosted(judge)) => judge,
        _ => panic!("a hosted judge with a key can be built"),
    };
    let down = DownJudge { judge, calls: Mutex::new(0) };
    let bytes = mixed_pdf();
    let c = classify_with(&bytes, &down).expect("the document still routes");
    assert!(*down.calls.lock().expect("call count") >= 1, "the judge never called its API");

    // The heuristic's answer, because that is what the fallback produces.
    assert_eq!(c.pages_needing_ocr, vec![1, 3]);

    // Under the name that was asked for, with the fallback recorded.
    let evidence: Vec<PageEvidence> = (0..c.page_count)
        .map(|page| PageEvidence {
            page,
            text: None,
            reasons: Vec::new(),
            flagged_by_inspector: c.pages_needing_ocr.contains(&page),
            has_tables: false,
            has_columns: false,
            has_encoding_issues: false,
        })
        .collect();
    let verdicts = down.judge(&evidence).expect("non-strict");
    let mut fallbacks = Vec::new();
    record_fallbacks(&mut fallbacks, &verdicts);
    assert_eq!(fallbacks.len(), 1);
    assert_eq!(fallbacks[0].reason, REASON_FALLBACK_HTTP);
    assert_eq!(fallbacks[0].pages, 4);
    let provenance = JudgeProvenance { name: down.name().to_string(), fallbacks };
    assert_eq!(provenance.name, "jev");
    let note = provenance.fallback_note().expect("a fallback is reported");
    assert!(note.contains("fell back to the heuristic"), "{note}");
}

#[test]
fn asking_for_the_default_judge_by_name_changes_nothing() {
    let bytes = mixed_pdf();
    let implicit = decide(&bytes, &default_config(), None);
    let lookup = judge_by_name("heuristic", OnApiFailure::FallBack, &vec![None, None], None, None);
    assert!(matches!(lookup, Some(JudgeLookup::Heuristic)));
    let explicit = decide_with(&bytes, &default_config(), None, &HeuristicJudge);
    assert_eq!(
        implicit.metadata().pages_needing_ocr,
        explicit.metadata().pages_needing_ocr
    );
}

// what a split carries over

/// The object a key of a dictionary leads to.
fn follow<'a>(
    document: &'a lopdf::Document,
    dictionary: &'a lopdf::Dictionary,
    key: &[u8],
) -> &'a lopdf::Object {
    let value = dictionary.get(key).expect("the key is there");
    document.dereference(value).expect("it resolves").1
}

#[test]
fn a_split_is_a_pdf_that_carries_contents_fonts_and_images_over() {
    let split = split_pdf(&mixed_pdf(), &[3, 0]).expect("split");
    assert!(is_pdf(&split));
    let loaded = lopdf::Document::load_mem(&split).expect("load the split");
    let ids: Vec<_> = loaded.get_pages().into_values().collect();
    assert_eq!(ids.len(), 2);

    let scan = loaded.get_dictionary(ids[0]).expect("a page");
    let resources = follow(&loaded, scan, b"Resources").as_dict().expect("resources");
    let images = follow(&loaded, resources, b"XObject").as_dict().expect("images");
    let image = follow(&loaded, images, b"Im0").as_stream().expect("an image");
    let pixels: Vec<u8> = (0..2500u32).map(|n| (n % 251) as u8).collect();
    let content = image.decompressed_content().unwrap_or_else(|_| image.content.clone());
    assert_eq!(content, pixels);
    let content = follow(&loaded, scan, b"Contents").as_stream().expect("a content stream");
    let content = content.decompressed_content().unwrap_or_else(|_| content.content.clone());
    assert!(content.starts_with(b"q 612 0 0 792 0 0 cm /Im0 Do Q"));

    let text = loaded.get_dictionary(ids[1]).expect("a page");
    let resources = follow(&loaded, text, b"Resources").as_dict().expect("resources");
    let fonts = follow(&loaded, resources, b"Font").as_dict().expect("fonts");
    let font = follow(&loaded, fonts, b"F1").as_dict().expect("a font");
    assert_eq!(font.get(b"BaseFont").expect("a name").as_name().expect("a name"), b"Helvetica");
}

#[test]
fn a_page_tree_that_overstates_its_pages_can_be_split() {
    let mut bytes = b"%PDF-1.4\n".to_vec();
    let objects = [
        "<< /Type /Catalog /Pages 2 0 R >>",
        "<< /Type /Pages /Kids [3 0 R] /Count 9223372036854775807 >>",
        "<< /Type /Pages /Parent 2 0 R /Kids [4 0 R] /Count 9223372036854775807 >>",
        "<< /Type /Page /Parent 3 0 R /MediaBox [0 0 10 10] >>",
    ];
    let mut offsets = Vec::new();
    for (i, object) in objects.iter().enumerate() {
        offsets.push(bytes.len());
        bytes.extend_from_slice(format!("{} 0 obj\n{object}\nendobj\n", i + 1).as_bytes());
    }
    let xref = bytes.len();
    bytes.extend_from_slice(b"xref\n0 5\n0000000000 65535 f \n");
    for offset in offsets {
        bytes.extend_from_slice(format!("{offset:010} 00000 n \n").as_bytes());
    }
    bytes.extend_from_slice(
        format!("trailer\n<< /Size 5 /Root 1 0 R >>\nstartxref\n{xref}\n%%EOF\n").as_bytes(),
    );
    let split = split_pdf(&bytes, &[0]).expect("the one page there is");
    assert!(is_pdf(&split));
    assert!(split_pdf(&bytes, &[1]).is_err());
}

#[test]
fn every_document_of_a_run_is_counted_once() {
    let documents = [
        (corpus_document("mixed.pdf", 4, &[1, 3]), mixed_pdf()),
        (corpus_document("scanned.pdf", 99, &[0]), scanned_pdf()),
        (corpus_document("text.pdf", 2, &[]), text_pdf()),
    ];
    let judges = vec![Box::new(HeuristicJudge), Box::new(HeuristicJudge)];
    let mut progress = Progress::new(2);
    for (document, bytes) in &documents {
        progress.record(document, run_judges(bytes, &judges, 1, document));
    }
    progress.exclude_unreadable(&corpus_document("nope.pdf", 1, &[]), "no such file");
    assert_eq!(progress.scored as usize + progress.failures.len(), 4);
    let names: Vec<Vec<&str>> = progress
        .judges
        .iter()
        .map(|rows| rows.documents.iter().map(|row| row.file.as_str()).collect())
        .collect();
    assert_eq!(names, vec![vec!["mixed.pdf", "text.pdf"]; 2]);
    let lost: Vec<&str> = progress.failures.iter().map(|f| f.file.as_str()).collect();
    assert_eq!(lost, vec!["scanned.pdf", "nope.pdf"]);
}

#[test]
fn repeated_classifications_are_folded_one_by_one() {
    let document = corpus_document("mixed.pdf", 4, &[1, 3]);
    let judged = |nanos: u64| {
        let verdicts = (0..4).map(|page| verdict(page, page == 1 || page == 3)).collect();
        let classification =
            Classification { classify_nanos: nanos, ..classify(&mixed_pdf()).expect("classify") };
        (classification, verdicts)
    };
    let mut repeats = Repeats::new();
    assert_eq!(repeats.take(&document, Ok(judged(7))), None);
    assert_eq!(repeats.take(&document, Ok(judged(5))), None);
    assert_eq!(repeats.samples, vec![7, 5]);
    let text = repeats.take(&document, Err(Error::NotPdf)).expect("a failure");
    assert!(text.starts_with("could not classify "), "{text}");
    assert!(text.ends_with(&Error::NotPdf.message()), "{text}");
    assert_eq!(repeats.samples, vec![7, 5], "a failure adds no sample");

    let run = repeats.finish("heuristic", &document).expect("the row agrees");
    assert_eq!(run.samples, vec![7, 5]);
    assert_eq!(run.classification.classify_nanos, 5);

    let stale = corpus_document("mixed.pdf", 3, &[1]);
    let mut repeats = Repeats::new();
    assert_eq!(repeats.take(&stale, Ok(judged(1))), None);
    let text = repeats.finish("heuristic", &stale).expect_err("another page count");
    assert!(text.contains("page_count mismatch"), "{text}");
}
