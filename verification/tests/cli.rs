//! The command-line tool's decisions and its output.

use base64::Engine;
use doc_router::classify::{Classification, PdfType};
use doc_router::cli::host::{
    call_record, resolve_api_key, CallRecord, LiteLlmHost, OcrResponse, OcrResponsePage, Reply,
    Upload, UsageInfo,
};
use doc_router::cli::judge::{
    judge_by_name, judge_help, judge_names, record_fallbacks, unavailable_judge, unknown_judge,
    JudgeFallback, JudgeLookup, JudgeProvenance, OnApiFailure, ALTERNATE_API_KEY_ENV_VAR,
    API_KEY_ENV_VAR, BASELINE_JUDGE,
};
use doc_router::cli::output::{
    describe_classification, describe_decision, describe_result, describe_run, format_pages,
    judge_line,
};
use doc_router::cli::{default_config, ConfigLoadError};
use doc_router::config::{Config, Tiers};
use doc_router::error::Error;
use doc_router::extract::{OcrResult, Page, LOCAL_MODEL};
use doc_router::jev::judge::{
    JevMode, JUDGE_NAME_ALWAYS, JUDGE_NAME_GATED, REASON_FALLBACK_HTTP, REASON_FALLBACK_TIMEOUT,
};
use doc_router::json::Json;
use doc_router::judge::{PageVerdict, REASON_CLEAR};
use doc_router::number::Real32;
use doc_router::policy::{plan_route, Bypass, Decision};
use doc_router::text::truncate;

fn single(value: f32) -> Real32 {
    Real32 { bits: value.to_bits() }
}

fn at<'a>(json: &'a Json, name: &str) -> Option<&'a Json> {
    match json {
        Json::Object(members) => {
            members.iter().find(|member| member.name == name).map(|member| &member.value)
        }
        other => panic!("not an object: {other:?}"),
    }
}

fn text(json: Option<&Json>) -> &str {
    match json {
        Some(Json::Text(text)) => text,
        other => panic!("not a text: {other:?}"),
    }
}

// the host

#[test]
fn request_body_omits_pages_when_none() {
    let body = LiteLlmHost::request_body("mistral-ocr", b"%PDF-1.4", None);
    assert_eq!(text(at(&body, "model")), "mistral-ocr");
    let document = at(&body, "document").expect("document");
    assert_eq!(text(at(document, "type")), "document_url");
    assert_eq!(
        text(at(document, "document_url")),
        format!(
            "data:application/pdf;base64,{}",
            base64::engine::general_purpose::STANDARD.encode(b"%PDF-1.4")
        )
    );
    assert!(at(&body, "pages").is_none());
}

#[test]
fn a_document_goes_out_in_padded_standard_base64() {
    let body = LiteLlmHost::request_body("m", &[0xfb, 0xff, 0xfe, 0x00], None);
    let document = at(&body, "document").expect("document");
    assert_eq!(
        text(at(document, "document_url")),
        "data:application/pdf;base64,+//+AA=="
    );
}

#[test]
fn request_body_includes_a_page_subset() {
    let body = LiteLlmHost::request_body("mistral-ocr", b"%PDF-1.4", Some(&[1, 3]));
    assert_eq!(
        at(&body, "pages"),
        Some(&Json::List(vec![
            Json::Number("1".to_string()),
            Json::Number("3".to_string())
        ]))
    );
}

#[test]
fn response_falls_back_to_the_requested_model_and_page_count() {
    let parsed = OcrResponse {
        pages: vec![OcrResponsePage { index: 0, markdown: "hi".to_string() }],
        model: None,
        usage_info: None,
    };
    let result = parsed.into_result("mistral-ocr");
    assert_eq!(result.model, "mistral-ocr");
    assert_eq!(result.pages_processed, 1);
    assert_eq!(result.pages[0].model, "mistral-ocr");
    assert_eq!(result.doc_size_bytes, None);
}

#[test]
fn response_prefers_its_own_model_and_usage_info() {
    let parsed = OcrResponse {
        pages: vec![OcrResponsePage { index: 2, markdown: "hi".to_string() }],
        model: Some("mistral-ocr-2505".to_string()),
        usage_info: Some(UsageInfo { pages_processed: Some(7), doc_size_bytes: Some(42) }),
    };
    let result = parsed.into_result("mistral-ocr");
    assert_eq!(result.model, "mistral-ocr-2505");
    assert_eq!(result.pages[0].model, "mistral-ocr-2505");
    assert_eq!(result.pages_processed, 7);
    assert_eq!(result.doc_size_bytes, Some(42));
}

#[test]
fn a_blank_model_in_a_reply_does_not_count() {
    let parsed = OcrResponse { pages: vec![], model: Some(" ".to_string()), usage_info: None };
    assert_eq!(parsed.into_result("asked-for").model, "asked-for");
}

#[test]
fn api_keys_that_are_blank_are_dropped() {
    let host = LiteLlmHost::new("http://localhost:4000/").with_api_key(Some("  "));
    assert!(host.api_key.is_none());
    assert_eq!(host.endpoint(), "http://localhost:4000/v1/ocr");
}

#[test]
fn host_truncate_marks_the_cut() {
    assert_eq!(truncate("abc", 10), "abc");
    assert_eq!(truncate("abcdef", 3), "abc…");
}

#[test]
fn a_reply_is_a_result_or_a_host_error_that_names_the_endpoint() {
    let host = LiteLlmHost::new("http://localhost:4000");
    let url = "http://localhost:4000/v1/ocr";
    let err = host
        .read_reply("m", Reply::NoResponse { detail: "connection refused".to_string() })
        .expect_err("no response");
    assert_eq!(
        err.message(),
        format!("OCR host error: POST {url} failed: connection refused")
    );
    let err = host
        .read_reply("m", Reply::Unreadable { status: 502, detail: "cut".to_string() })
        .expect_err("unreadable");
    assert_eq!(
        err.message(),
        format!("OCR host error: POST {url} returned HTTP 502, unreadable body: cut")
    );
    let err = host
        .read_reply(
            "m",
            Reply::Answered {
                status: 500,
                text: "ocr backend exploded".to_string(),
                parsed: Err("unused".to_string()),
            },
        )
        .expect_err("not a success");
    assert_eq!(
        err.message(),
        format!("OCR host error: POST {url} returned HTTP 500: ocr backend exploded")
    );
    let err = host
        .read_reply(
            "m",
            Reply::Answered {
                status: 200,
                text: "<html>".to_string(),
                parsed: Err("expected value".to_string()),
            },
        )
        .expect_err("unparseable");
    assert!(matches!(err, Error::Host(_)));
    assert!(
        err.message().ends_with("HTTP 200 with unparseable JSON (expected value): <html>"),
        "{}",
        err.message()
    );
    let reply = Reply::Answered {
        status: 200,
        text: "{}".to_string(),
        parsed: Ok(OcrResponse {
            pages: vec![OcrResponsePage { index: 4, markdown: "four".to_string() }],
            model: None,
            usage_info: None,
        }),
    };
    let record = call_record("m", Some(&[4]), 9, &reply);
    assert_eq!(
        record,
        CallRecord {
            model: "m".to_string(),
            pages: Some(vec![4]),
            elapsed_ms: 9,
            status: Some(200)
        }
    );
    let result = host.read_reply("m", reply).expect("a result");
    assert_eq!(result.pages, vec![Page::new(4, "four", "m")]);
}

#[test]
fn a_subset_is_uploaded_only_by_a_host_that_splits() {
    let host = LiteLlmHost::new("http://localhost:4000");
    assert!(matches!(host.upload(b"nope", Some(&[0])), Ok(Upload::Whole)));
    let host = host.with_split_subset(true);
    assert!(matches!(host.upload(b"nope", None), Ok(Upload::Whole)));
    assert!(matches!(host.upload(b"nope", Some(&[0])), Err(Error::NotPdf)));

    let provider = || OcrResult {
        pages: vec![Page::new(0, "a", "m"), Page::new(1, "b", "m")],
        model: "m".to_string(),
        pages_processed: 2,
        doc_size_bytes: None,
    };
    let delivered = host.deliver(provider(), Some(&[1, 3]));
    assert_eq!(delivered.pages.iter().map(|p| p.index).collect::<Vec<_>>(), vec![1, 3]);
    let untouched = host.with_split_subset(false).deliver(provider(), Some(&[1, 3]));
    assert_eq!(untouched, provider());
}

// configuration and keys

#[test]
fn the_default_config_is_valid_and_local_first() {
    let cfg = default_config();
    cfg.validate("0.6", "20").expect("default config validates");
    assert_eq!(cfg.tiers.local, LOCAL_MODEL);
    assert!(cfg.split_pages);
    assert_eq!(cfg.tiers.standard, "mistral-ocr");
}

#[test]
fn config_load_errors_name_the_file() {
    let read = ConfigLoadError::Read {
        path: "/nope/nothing.json".to_string(),
        detail: "No such file".to_string(),
    };
    assert_eq!(read.message(), "could not read config /nope/nothing.json: No such file");
    let parse = ConfigLoadError::Parse {
        path: "c.json".to_string(),
        error: Error::InvalidConfig("missing field `tiers`".to_string()),
    };
    assert_eq!(
        parse.message(),
        "invalid config c.json: invalid doc_router config: missing field `tiers`"
    );
}

#[test]
fn the_flag_beats_the_environment() {
    let set = vec![None, Some("sk-env".to_string())];
    assert_eq!(resolve_api_key(Some("sk-flag"), &set).as_deref(), Some("sk-flag"));
    assert_eq!(resolve_api_key(Some("   "), &set), resolve_api_key(None, &set));
    assert_eq!(resolve_api_key(None, &set).as_deref(), Some("sk-env"));
    let blank_first = vec![Some(" ".to_string()), Some("sk-env".to_string())];
    assert_eq!(resolve_api_key(None, &blank_first), None);
    assert_eq!(resolve_api_key(None, &vec![None, None]), None);
}

// judges

fn no_keys() -> Vec<Option<String>> {
    vec![None, None]
}

fn a_key() -> Vec<Option<String>> {
    vec![None, Some("not-a-real-key".to_string())]
}

#[test]
fn the_baseline_resolves_and_names_itself() {
    let lookup = judge_by_name(BASELINE_JUDGE, OnApiFailure::FallBack, &no_keys(), None, None)
        .expect("the baseline is always registered");
    assert!(matches!(lookup, JudgeLookup::Heuristic));
}

#[test]
fn every_advertised_name_resolves() {
    for name in judge_names() {
        for keys in [no_keys(), a_key()] {
            match judge_by_name(&name, OnApiFailure::FallBack, &keys, None, None)
                .unwrap_or_else(|| panic!("`{name}` is advertised"))
            {
                JudgeLookup::Heuristic => assert_eq!(name, BASELINE_JUDGE),
                JudgeLookup::Hosted(judge) => {
                    assert_eq!(judge.mode().judge_name(), name);
                    assert!(!judge.is_strict());
                }
                JudgeLookup::Unavailable { name: reported, reason } => {
                    assert_eq!(reported, name);
                    assert!(!reason.is_empty(), "`{name}` must say what is missing");
                }
            }
        }
    }
}

#[test]
fn an_unknown_name_is_none_rather_than_a_silent_fallback_to_the_baseline() {
    for name in ["heuristik", "", "jev-gated"] {
        assert!(judge_by_name(name, OnApiFailure::FallBack, &a_key(), None, None).is_none());
    }
}

#[test]
fn the_baseline_is_advertised() {
    assert!(judge_names().iter().any(|name| name == BASELINE_JUDGE));
}

#[test]
fn the_hosted_judge_is_advertised_under_both_of_its_modes() {
    assert!(judge_names().iter().any(|name| name == JUDGE_NAME_ALWAYS));
    assert!(judge_names().iter().any(|name| name == JUDGE_NAME_GATED));
}

#[test]
fn a_hosted_judge_is_a_known_name_with_or_without_a_key() {
    match judge_by_name(JUDGE_NAME_ALWAYS, OnApiFailure::FallBack, &a_key(), None, None) {
        Some(JudgeLookup::Hosted(judge)) => assert_eq!(judge.mode(), JevMode::Always),
        _ => panic!("`jev` is a registered name with a key"),
    }
    match judge_by_name(JUDGE_NAME_ALWAYS, OnApiFailure::FallBack, &no_keys(), None, None) {
        Some(JudgeLookup::Unavailable { reason, .. }) => {
            assert!(reason.contains(API_KEY_ENV_VAR), "{reason}");
            assert!(reason.contains(ALTERNATE_API_KEY_ENV_VAR), "{reason}");
        }
        _ => panic!("`jev` is a registered name without a key"),
    }
}

#[test]
fn a_judge_that_must_fail_is_strict() {
    match judge_by_name(JUDGE_NAME_GATED, OnApiFailure::Fail, &a_key(), None, None) {
        Some(JudgeLookup::Hosted(judge)) => {
            assert!(judge.is_strict());
            assert_eq!(judge.mode(), JevMode::Gated);
        }
        _ => panic!("a key is set"),
    }
}

#[test]
fn an_unknown_judge_is_an_error_that_lists_the_registered_names() {
    assert_eq!(
        unknown_judge("heuristik"),
        "unknown judge `heuristik`; registered judges are: heuristic, jev, jev_gated"
    );
    assert_eq!(
        unavailable_judge("jev", "no key"),
        "judge `jev` is unavailable: no key"
    );
}

#[test]
fn the_help_text_lists_every_registered_name() {
    let help = judge_help("Judge to use.", "default");
    for name in judge_names() {
        assert!(help.contains(&name), "{help}");
    }
    assert!(help.starts_with("Judge to use. One of: "), "{help}");
    assert!(help.ends_with(&format!("(default: {BASELINE_JUDGE})")), "{help}");
}

fn verdicts(reasons: &[&str]) -> Vec<PageVerdict> {
    reasons
        .iter()
        .enumerate()
        .map(|(page, reason)| PageVerdict {
            page: page as u32,
            needs_ocr: true,
            confidence: single(1.0),
            reason: (*reason).to_string(),
        })
        .collect()
}

#[test]
fn recording_passes_verdicts_through_unchanged() {
    let mut fallbacks: Vec<JudgeFallback> = Vec::new();
    record_fallbacks(&mut fallbacks, &verdicts(&[REASON_CLEAR; 2]));
    let provenance = JudgeProvenance { name: "fake".to_string(), fallbacks };
    assert_eq!(provenance.fallbacks, Vec::new());
    assert_eq!(provenance.fallback_note(), None);
}

#[test]
fn recording_counts_fallback_pages_by_reason() {
    let mut fallbacks: Vec<JudgeFallback> = Vec::new();
    record_fallbacks(
        &mut fallbacks,
        &verdicts(&[
            REASON_FALLBACK_HTTP,
            REASON_CLEAR,
            REASON_FALLBACK_HTTP,
            REASON_FALLBACK_TIMEOUT,
        ]),
    );
    let provenance = JudgeProvenance { name: "fake".to_string(), fallbacks };
    assert_eq!(
        provenance.fallbacks,
        vec![
            JudgeFallback { reason: REASON_FALLBACK_HTTP.to_string(), pages: 2 },
            JudgeFallback { reason: REASON_FALLBACK_TIMEOUT.to_string(), pages: 1 },
        ]
    );
    let note = provenance.fallback_note().expect("a fallback happened");
    assert_eq!(
        note,
        "judge `fake` fell back to the heuristic: 2 page(s) jev_fallback_http, 1 page(s) jev_fallback_timeout"
    );
}

// output

#[test]
fn page_lists_read_as_all_none_or_the_pages() {
    assert_eq!(format_pages(None), "all");
    assert_eq!(format_pages(Some(&[])), "none");
    assert_eq!(format_pages(Some(&[0, 12])), "[0,12]");
}

fn mixed() -> Classification {
    Classification {
        pdf_type: PdfType::Mixed,
        confidence: single(0.7),
        page_count: 4,
        pages_needing_ocr: vec![1, 3],
        is_complex_layout: false,
        has_encoding_issues: false,
        ocr_reasons: Vec::new(),
        classify_nanos: 2_500_000,
    }
}

fn config() -> Config {
    Config::new(Tiers::new("local_pdf/extract", "mistral-ocr"))
}

#[test]
fn a_classification_is_described_in_one_line() {
    let line = "mixed (confidence 0.70), 4 page(s), 2 needing OCR [1,3], simple layout, classified in 2.5 ms";
    assert_eq!(describe_classification(&mixed(), "0.70", "2.5"), line);
    let complex = Classification { is_complex_layout: true, ..mixed() };
    assert!(describe_classification(&complex, "0.70", "2.5").contains(", complex layout, "));
}

#[test]
fn a_decision_is_described_leg_by_leg() {
    let classification = mixed();
    let plan = plan_route(&classification, &config()).expect("plan");
    let decision = Decision::Route { plan, classification };
    assert_eq!(
        describe_decision("mixed.pdf", &decision, "0.70", "2.5"),
        vec![
            "mixed.pdf: route mixed_split -> mistral-ocr (tier standard)".to_string(),
            format!("  {}", describe_classification(&mixed(), "0.70", "2.5")),
            "  leg local_pdf/extract        local     pages [0,2]".to_string(),
            "  leg mistral-ocr              standard  pages [1,3]".to_string(),
        ]
    );
    let bypass = Decision::Bypass {
        reason: Bypass::NotPdf,
        model: "gpt-4o-mini".to_string(),
        detail: Some("not a pdf".to_string()),
    };
    assert_eq!(
        describe_decision("x.bin", &bypass, "", ""),
        vec!["x.bin: bypass not_pdf -> gpt-4o-mini".to_string(), "  not a pdf".to_string()]
    );
}

#[test]
fn the_default_judge_is_not_announced_in_the_human_summary() {
    let quiet = JudgeProvenance { name: BASELINE_JUDGE.to_string(), fallbacks: Vec::new() };
    assert_eq!(judge_line(&quiet), None);
    let hosted = JudgeProvenance { name: "jev".to_string(), fallbacks: Vec::new() };
    assert_eq!(judge_line(&hosted).as_deref(), Some("  judge: jev"));
}

#[test]
fn a_run_is_described_with_its_calls_and_its_pages() {
    let classification = mixed();
    let plan = plan_route(&classification, &config()).expect("plan");
    let mut metadata = Decision::Route { plan, classification }.metadata();
    let result = OcrResult {
        pages: vec![
            Page::new(0, "\n  \r\nFirst line\nsecond", "local_pdf/extract"),
            Page::new(1, "   ", "mistral-ocr"),
            Page::new(2, &"x".repeat(90), "local_pdf/extract"),
        ],
        model: "local_pdf/extract,mistral-ocr".to_string(),
        pages_processed: 3,
        doc_size_bytes: None,
    };
    let calls = vec![CallRecord {
        model: "mistral-ocr".to_string(),
        pages: Some(vec![1, 3]),
        elapsed_ms: 321,
        status: Some(200),
    }];
    let lines = describe_run("mixed.pdf", &metadata, &result, &calls, 400);
    assert_eq!(
        lines,
        vec![
            "mixed.pdf: mixed_split -> mistral-ocr (tier standard) in 400 ms".to_string(),
            "  leg local_pdf/extract        local     pages [0,2]        in-process".to_string(),
            "  leg mistral-ocr              standard  pages [1,3]        321 ms".to_string(),
            "  3 page(s) via local_pdf/extract,mistral-ocr:".to_string(),
            "       0  local_pdf/extract        First line".to_string(),
            "       1  mistral-ocr              (empty)".to_string(),
            format!("       2  local_pdf/extract        {}…", "x".repeat(80)),
        ]
    );
    assert_eq!(describe_result(&result), lines[3..].to_vec());

    metadata.fallback_reason = Some("leg_failed".to_string());
    metadata.routed_model = "fallback-ocr".to_string();
    let lines = describe_run("mixed.pdf", &metadata, &result, &calls, 400);
    assert_eq!(
        lines[1],
        "  fallback: leg_failed (whole document rerun on fallback-ocr)"
    );
}
