//! The hosted judge: what goes on the wire, what comes back, and what it comes to.

use doc_router::error::Error;
use doc_router::jev::judge::{
    is_ambiguous, protocol_failure, read_exchange, Breaker, Exchange, Failure, FailureClass,
    JevJudge, JevMode, Opening, Step, DEFAULT_COOL_OFF_NANOS, DEFAULT_THRESHOLD,
    JUDGE_NAME_ALWAYS, JUDGE_NAME_GATED, REASON_CLEAR, REASON_FALLBACK_BREAKER_OPEN,
    REASON_FALLBACK_PROTOCOL, REASON_FALLBACK_TIMEOUT, REASON_NEEDS_OCR, REASON_NOT_ESCALATED,
};
use doc_router::jev::wire::{
    chunks, page_state, question_key, request_body, wire_size, Answer, NamedAnswer, Noul,
    ProtocolError, Reading, SystemOneResponse, Usage, MAX_PAGES_PER_REQUEST, MAX_REQUEST_BYTES,
    MAX_TEXT_CHARS,
};
use doc_router::json::Json;
use doc_router::judge::{HeuristicJudge, PageEvidence, PageVerdict};
use doc_router::number::{Real32, Real64};
use doc_router::text::truncate;

fn single(value: f32) -> Real32 {
    Real32 { bits: value.to_bits() }
}

fn number(value: Real32) -> f32 {
    f32::from_bits(value.bits)
}

/// A number as an answer carries it.
fn noul(value: f64) -> Noul {
    let probability = value as f32;
    Noul {
        value: Real64 { bits: value.to_bits() },
        probability: single(probability),
        complement: single(1.0 - probability.clamp(0.0, 1.0)),
    }
}

fn reading(probability: f32) -> Reading {
    Reading {
        probability: single(probability),
        complement: single(1.0 - probability.clamp(0.0, 1.0)),
    }
}

fn answer(page: u32, kind: Option<&str>, value: Option<f64>) -> NamedAnswer {
    NamedAnswer {
        key: question_key(page),
        answer: Answer { kind: kind.map(str::to_string), noul: value.map(noul) },
    }
}

fn response(answers: Vec<NamedAnswer>) -> SystemOneResponse {
    SystemOneResponse { model: None, answers, usage: None }
}

/// The member of an object.
fn at<'a>(json: &'a Json, name: &str) -> &'a Json {
    match json {
        Json::Object(members) => members
            .iter()
            .find(|member| member.name == name)
            .map(|member| &member.value)
            .unwrap_or(&Json::Null),
        other => panic!("not an object: {other:?}"),
    }
}

fn has(json: &Json, name: &str) -> bool {
    match json {
        Json::Object(members) => members.iter().any(|member| member.name == name),
        other => panic!("not an object: {other:?}"),
    }
}

fn text(json: &Json) -> &str {
    match json {
        Json::Text(text) => text,
        other => panic!("not a text: {other:?}"),
    }
}

fn items(json: &Json) -> &[Json] {
    match json {
        Json::List(items) => items,
        other => panic!("not a list: {other:?}"),
    }
}

fn numeral(n: usize) -> Json {
    Json::Number(n.to_string())
}

fn page(page: u32, text: Option<&str>) -> PageEvidence {
    PageEvidence {
        page,
        text: text.map(str::to_string),
        reasons: vec!["garbled_text".to_string()],
        flagged_by_inspector: true,
        has_tables: false,
        has_columns: true,
        has_encoding_issues: false,
    }
}

// the wire

#[test]
fn question_keys_are_the_zero_indexed_page_number() {
    assert_eq!(question_key(0), "page_0");
    assert_eq!(question_key(73), "page_73");
}

#[test]
fn page_state_carries_both_the_text_and_the_inspector_flags() {
    let state = page_state(&page(4, Some("hello")));
    assert_eq!(at(&state, "page"), &numeral(4));
    assert_eq!(text(at(&state, "text")), "hello");
    assert_eq!(at(&state, "text_chars"), &numeral(5));
    assert_eq!(at(&state, "text_truncated"), &Json::Bool(false));
    assert_eq!(at(&state, "inspector_flagged"), &Json::Bool(true));
    assert_eq!(
        at(&state, "inspector_reasons"),
        &Json::List(vec![Json::Text("garbled_text".to_string())])
    );
    assert_eq!(at(&state, "has_columns"), &Json::Bool(true));
    assert_eq!(at(&state, "has_tables"), &Json::Bool(false));
    assert_eq!(at(&state, "has_encoding_issues"), &Json::Bool(false));
}

#[test]
fn missing_text_is_null_and_distinct_from_empty_text() {
    assert_eq!(at(&page_state(&page(0, None)), "text"), &Json::Null);
    assert_eq!(text(at(&page_state(&page(0, Some(""))), "text")), "");
}

#[test]
fn long_text_is_clipped_and_says_so() {
    let long = "x".repeat(MAX_TEXT_CHARS + 500);
    let state = page_state(&page(0, Some(&long)));
    assert_eq!(text(at(&state, "text")).len(), MAX_TEXT_CHARS);
    assert_eq!(at(&state, "text_truncated"), &Json::Bool(true));
    assert_eq!(at(&state, "text_chars"), &numeral(MAX_TEXT_CHARS + 500));
}

#[test]
fn text_is_clipped_on_a_character_boundary() {
    let long = "あ".repeat(MAX_TEXT_CHARS + 10);
    let state = page_state(&page(0, Some(&long)));
    let clipped = text(at(&state, "text"));
    assert_eq!(clipped.chars().count(), MAX_TEXT_CHARS);
    assert_eq!(clipped.len(), MAX_TEXT_CHARS * 3);
}

#[test]
fn the_request_body_asks_one_noul_question_per_page() {
    let pages = vec![page(0, Some("a")), page(7, Some("b"))];
    let body = request_body("jev-latest", &pages);
    assert_eq!(text(at(&body, "model")), "jev-latest");
    assert_eq!(items(at(&body, "state")).len(), 2);
    assert_eq!(at(&items(at(&body, "state"))[1], "page"), &numeral(7));
    let questions = at(&body, "questions");
    match questions {
        Json::Object(members) => assert_eq!(members.len(), 2),
        other => panic!("not an object: {other:?}"),
    }
    assert_eq!(text(at(at(questions, "page_0"), "type")), "noul");
    assert_eq!(text(at(at(questions, "page_7"), "type")), "noul");
    assert!(text(at(at(questions, "page_7"), "instructions")).contains("page` field is 7"));
}

#[test]
fn a_request_body_is_written_as_json() {
    let body = request_body("jev-latest", &[page(3, Some("a \"quoted\" word"))]);
    let wire = body.to_wire();
    let value: serde_json::Value = serde_json::from_str(&wire).expect("valid JSON");
    assert_eq!(value["model"], "jev-latest");
    assert_eq!(value["state"][0]["page"], 3);
    assert_eq!(value["state"][0]["text"], "a \"quoted\" word");
    assert_eq!(value["questions"]["page_3"]["type"], "noul");
}

#[test]
fn a_short_document_is_one_chunk() {
    let pages: Vec<_> =
        (0..MAX_PAGES_PER_REQUEST as u32).map(|p| page(p, Some("short"))).collect();
    let chunks = chunks(&pages);
    assert_eq!(chunks.len(), 1);
    assert_eq!(chunks[0].len(), MAX_PAGES_PER_REQUEST);
}

#[test]
fn a_long_document_splits_on_the_page_count_and_keeps_page_identity() {
    let pages: Vec<_> =
        (0..(MAX_PAGES_PER_REQUEST as u32 * 2 + 3)).map(|p| page(p, Some("short"))).collect();
    let chunks = chunks(&pages);
    assert_eq!(chunks.len(), 3);
    assert_eq!(chunks[0].len(), MAX_PAGES_PER_REQUEST);
    assert_eq!(chunks[1].len(), MAX_PAGES_PER_REQUEST);
    assert_eq!(chunks[2].len(), 3);
    let body = request_body("jev-latest", chunks[1]);
    let questions = at(&body, "questions");
    assert!(has(questions, &question_key(MAX_PAGES_PER_REQUEST as u32)));
    assert!(!has(questions, "page_0"));
    let seen: Vec<u32> =
        chunks.iter().flat_map(|chunk| chunk.iter().map(|p| p.page)).collect();
    assert_eq!(seen, (0..pages.len() as u32).collect::<Vec<_>>());
}

#[test]
fn a_heavy_document_splits_on_size_before_the_page_count() {
    let fat = "\u{3042}".repeat(MAX_TEXT_CHARS);
    let pages: Vec<_> = (0..MAX_PAGES_PER_REQUEST as u32).map(|p| page(p, Some(&fat))).collect();
    let chunks = chunks(&pages);
    assert!(chunks.len() > 1, "a full page of CJK times {MAX_PAGES_PER_REQUEST}");
    let mut seen = Vec::new();
    for chunk in &chunks {
        assert!(!chunk.is_empty());
        assert!(chunk.len() < MAX_PAGES_PER_REQUEST);
        let body = request_body("jev-latest", chunk).to_wire().len() as u128;
        assert!(body <= MAX_REQUEST_BYTES as u128 + wire_size(&pages[0]));
        seen.extend(chunk.iter().map(|p| p.page));
    }
    assert_eq!(seen, (0..pages.len() as u32).collect::<Vec<_>>());
}

#[test]
fn no_pages_is_no_chunks() {
    assert!(chunks(&[]).is_empty());
}

#[test]
fn answers_are_found_by_key_not_by_position() {
    let response =
        response(vec![answer(9, Some("noul"), Some(0.9)), answer(0, Some("noul"), Some(0.1))]);
    assert_eq!(number(response.noul_for(0).expect("page 0").probability), 0.1);
    assert_eq!(number(response.noul_for(9).expect("page 9").probability), 0.9);
}

#[test]
fn a_missing_answer_is_an_error_not_a_false() {
    let response = response(vec![answer(0, Some("noul"), Some(0.1))]);
    assert_eq!(
        response.noul_for(1),
        Err(ProtocolError::MissingAnswer { key: "page_1".to_string() })
    );
}

#[test]
fn an_answer_of_the_wrong_question_type_is_an_error() {
    let response = response(vec![answer(0, Some("choice"), None)]);
    assert_eq!(
        response.noul_for(0),
        Err(ProtocolError::WrongType {
            key: "page_0".to_string(),
            found: "choice".to_string()
        })
    );
}

#[test]
fn a_noul_answer_with_no_value_is_an_error() {
    let response = response(vec![answer(0, Some("noul"), None)]);
    assert_eq!(
        response.noul_for(0),
        Err(ProtocolError::MissingValue { key: "page_0".to_string() })
    );
}

#[test]
fn an_untyped_answer_carrying_a_noul_is_accepted() {
    let response = response(vec![answer(0, None, Some(0.25))]);
    assert_eq!(number(response.noul_for(0).expect("page 0").probability), 0.25);
}

#[test]
fn out_of_range_values_are_clamped_rather_than_refused() {
    let response = response(vec![
        answer(0, Some("noul"), Some(1.0000000000000002)),
        answer(1, Some("noul"), Some(-0.0000001)),
    ]);
    assert_eq!(number(response.noul_for(0).expect("page 0").probability), 1.0);
    assert_eq!(number(response.noul_for(1).expect("page 1").probability), 0.0);
}

#[test]
fn a_value_that_is_not_a_number_is_refused() {
    for value in [f64::NAN, f64::INFINITY, f64::NEG_INFINITY] {
        let response = response(vec![answer(0, Some("noul"), Some(value))]);
        let err = response.noul_for(0).expect_err("not finite");
        assert!(matches!(err, ProtocolError::NotFinite { .. }));
        assert_eq!(
            err.message(),
            format!("the answer for page_0 is {value}, which is not a probability")
        );
    }
}

#[test]
fn protocol_errors_read_as_sentences() {
    let missing = ProtocolError::MissingAnswer { key: "page_1".to_string() };
    assert!(missing.message().contains("page_1"), "{}", missing.message());
    let wrong = ProtocolError::WrongType {
        key: "page_0".to_string(),
        found: "ch\"oice".to_string(),
    };
    assert!(wrong.message().contains("\"ch\\\"oice\""), "{}", wrong.message());
    assert!(wrong.message().ends_with(", not \"noul\""), "{}", wrong.message());
}

// the judge

fn judge() -> JevJudge {
    JevJudge::new("not-a-real-key").with_base_url("http://127.0.0.1:1")
}

fn evidence(page: u32, flagged: bool, reasons: &[&str]) -> PageEvidence {
    PageEvidence {
        page,
        text: Some("some text".to_string()),
        reasons: reasons.iter().map(|r| (*r).to_string()).collect(),
        flagged_by_inspector: flagged,
        has_tables: false,
        has_columns: false,
        has_encoding_issues: false,
    }
}

/// The answer a document gets without a call.
fn answered(opening: Opening<'_>) -> Result<Vec<PageVerdict>, Error> {
    match opening {
        Opening::Answered(answer) => answer,
        Opening::Ask(_) => panic!("a call would be made"),
    }
}

#[test]
fn the_mode_decides_the_name_and_the_names_are_the_registry_keys() {
    assert_eq!(judge().mode().judge_name(), JUDGE_NAME_ALWAYS);
    assert_eq!(judge().with_mode(JevMode::Gated).mode().judge_name(), JUDGE_NAME_GATED);
    assert_eq!(JUDGE_NAME_ALWAYS, "jev");
    assert_eq!(JUDGE_NAME_GATED, "jev_gated");
}

#[test]
fn the_endpoint_never_doubles_a_slash() {
    assert_eq!(
        judge().with_base_url("https://example.test/").endpoint(),
        "https://example.test/v1/systemone"
    );
}

#[test]
fn settings_come_from_the_first_usable_values() {
    let none = vec![None, Some("   ".to_string())];
    assert!(JevJudge::from_settings(&none, None, None).is_none());
    let keys = vec![Some(" ".to_string()), Some("k2".to_string())];
    let judge = JevJudge::from_settings(
        &keys,
        Some("https://example.test//".to_string()),
        Some(" ".to_string()),
    )
    .expect("a key is set");
    assert_eq!(judge.api_key, "k2");
    assert_eq!(judge.endpoint(), "https://example.test/v1/systemone");
    assert_eq!(judge.model, "jev-latest");
    assert_eq!(judge.cool_off_nanos, DEFAULT_COOL_OFF_NANOS);
}

#[test]
fn a_high_probability_routes_to_ocr_and_is_confident_about_it() {
    let verdict = judge().verdict(3, reading(0.9));
    assert_eq!(verdict.page, 3);
    assert!(verdict.needs_ocr);
    assert_eq!(number(verdict.confidence), 0.9);
    assert_eq!(verdict.reason, REASON_NEEDS_OCR);
}

#[test]
fn a_low_probability_is_a_confident_no_not_an_unconfident_yes() {
    let verdict = judge().verdict(0, reading(0.02));
    assert!(!verdict.needs_ocr);
    assert!((number(verdict.confidence) - 0.98).abs() < 1e-6);
    assert_eq!(verdict.reason, REASON_CLEAR);
}

#[test]
fn the_threshold_is_inclusive_and_a_coin_flip_is_half_confident() {
    let judge = judge();
    let threshold = f32::from_bits(DEFAULT_THRESHOLD);
    let at = judge.verdict(0, reading(threshold));
    assert!(at.needs_ocr, "p == threshold routes to OCR");
    assert_eq!(number(at.confidence), threshold);

    let below = judge.verdict(0, reading(threshold - 0.01));
    assert!(!below.needs_ocr);
    assert!((number(below.confidence) - (1.0 - (threshold - 0.01))).abs() < 1e-6);
}

#[test]
fn a_moved_threshold_moves_the_verdict_but_not_the_probability() {
    let cautious = judge().with_threshold(single(0.2));
    let verdict = cautious.verdict(0, reading(0.3));
    assert!(verdict.needs_ocr, "0.3 >= 0.2");
    assert!((number(verdict.confidence) - 0.3).abs() < 1e-6);
    assert!(!judge().verdict(0, reading(0.3)).needs_ocr);
}

#[test]
fn probabilities_outside_the_unit_interval_are_clamped() {
    assert_eq!(number(judge().verdict(0, reading(1.5)).confidence), 1.0);
    assert_eq!(number(judge().verdict(0, reading(-0.5)).confidence), 1.0);
    assert!(!judge().verdict(0, reading(-0.5)).needs_ocr);
}

#[test]
fn a_nonsense_threshold_is_ignored_rather_than_poisoning_the_judge() {
    assert_eq!(judge().with_threshold(single(f32::NAN)).threshold().bits, DEFAULT_THRESHOLD);
    assert_eq!(number(judge().with_threshold(single(4.0)).threshold()), 1.0);
    assert_eq!(number(judge().with_threshold(single(-1.0)).threshold()), 0.0);
}

#[test]
fn encoding_issues_anywhere_make_the_document_ambiguous() {
    let mut pages = vec![evidence(0, false, &[]), evidence(1, false, &[])];
    assert!(!is_ambiguous(&pages));
    pages[1].has_encoding_issues = true;
    assert!(is_ambiguous(&pages));
}

#[test]
fn a_partly_flagged_document_is_ambiguous() {
    let pages = vec![
        evidence(0, true, &["scanned_page"]),
        evidence(1, false, &[]),
        evidence(2, false, &[]),
    ];
    assert!(is_ambiguous(&pages));
}

#[test]
fn a_flagged_page_with_no_reason_is_ambiguous_even_when_every_page_is_flagged() {
    let pages = vec![evidence(0, true, &["scanned_page"]), evidence(1, true, &[])];
    assert!(is_ambiguous(&pages));
}

#[test]
fn a_consistently_flagged_or_consistently_clear_document_is_not_ambiguous() {
    let all_flagged =
        vec![evidence(0, true, &["scanned_page"]), evidence(1, true, &["no_text_layer"])];
    assert!(!is_ambiguous(&all_flagged));

    let all_clear = vec![evidence(0, false, &[]), evidence(1, false, &[])];
    assert!(!is_ambiguous(&all_clear));
}

#[test]
fn layout_complexity_alone_is_not_ambiguity() {
    let mut pages = vec![evidence(0, false, &[]), evidence(1, false, &[])];
    pages[0].has_tables = true;
    pages[1].has_columns = true;
    assert!(!is_ambiguous(&pages));
}

#[test]
fn an_empty_document_is_not_ambiguous() {
    assert!(!is_ambiguous(&[]));
}

#[test]
fn a_gated_judge_that_does_not_escalate_makes_no_call() {
    let judge = judge().with_mode(JevMode::Gated);
    let pages = vec![evidence(0, false, &[]), evidence(1, false, &[])];
    let mut breaker = Breaker::default();
    let verdicts = answered(judge.open(&mut breaker, 0, &pages)).expect("no call, no failure");

    assert_eq!(verdicts.len(), 2);
    assert!(verdicts.iter().all(|v| !v.needs_ocr));
    assert!(verdicts.iter().all(|v| v.reason == REASON_NOT_ESCALATED));
    assert!(verdicts.iter().all(|v| number(v.confidence) == 1.0));
}

#[test]
fn a_strict_gated_judge_that_does_not_escalate_still_succeeds() {
    let judge = judge().with_mode(JevMode::Gated).with_strict(true);
    let pages =
        vec![evidence(0, true, &["scanned_page"]), evidence(1, true, &["scanned_page"])];
    let mut breaker = Breaker::default();
    let verdicts = answered(judge.open(&mut breaker, 0, &pages)).expect("no call, no failure");
    assert!(verdicts.iter().all(|v| v.needs_ocr));
    assert!(verdicts.iter().all(|v| v.reason == REASON_NOT_ESCALATED));
}

#[test]
fn no_pages_means_no_verdicts_and_no_call() {
    let mut breaker = Breaker::default();
    assert_eq!(answered(judge().open(&mut breaker, 0, &[])).expect("empty"), Vec::new());
}

#[test]
fn the_breaker_opens_after_the_configured_run_of_failures() {
    let mut breaker = Breaker::default();
    assert!(!breaker.is_open(0, 1_000));
    breaker.record_failure(3, 0);
    breaker.record_failure(3, 0);
    assert!(!breaker.is_open(0, 1_000), "two is not three");
    breaker.record_failure(3, 0);
    assert!(breaker.is_open(0, 1_000));
}

#[test]
fn a_success_resets_the_run() {
    let mut breaker = Breaker::default();
    breaker.record_failure(3, 0);
    breaker.record_failure(3, 0);
    breaker.record_success();
    breaker.record_failure(3, 0);
    breaker.record_failure(3, 0);
    assert!(!breaker.is_open(0, 1_000), "the run restarted at the success");
}

#[test]
fn the_breaker_closes_again_once_the_cool_off_elapses() {
    let mut breaker = Breaker::default();
    breaker.record_failure(1, 5);
    assert!(breaker.is_open(5, 3_600_000_000_000));
    assert!(!breaker.is_open(5, 0));
    assert_eq!(breaker.consecutive_failures, 0);
}

#[test]
fn a_zero_failure_threshold_disables_the_breaker() {
    let mut breaker = Breaker::default();
    for _ in 0..100 {
        breaker.record_failure(0, 0);
    }
    assert!(!breaker.is_open(0, 1_000));
}

#[test]
fn an_open_breaker_short_circuits_without_calling() {
    let judge = judge().with_failure_threshold(1).with_cool_off_nanos(3_600_000_000_000);
    let mut breaker = Breaker::default();
    breaker.record_failure(1, 0);
    let pages = vec![evidence(0, true, &["scanned_page"]), evidence(1, false, &[])];
    let verdicts =
        answered(judge.open(&mut breaker, 1, &pages)).expect("non-strict falls back");
    assert!(verdicts.iter().all(|v| v.reason == REASON_FALLBACK_BREAKER_OPEN));
    assert_eq!(
        verdicts.iter().map(|v| v.needs_ocr).collect::<Vec<_>>(),
        vec![true, false],
        "the heuristic's verdicts"
    );
    assert_eq!(breaker.consecutive_failures, 1);
}

#[test]
fn an_open_breaker_errors_rather_than_falling_back_under_strict() {
    let judge = judge()
        .with_strict(true)
        .with_failure_threshold(1)
        .with_cool_off_nanos(3_600_000_000_000);
    let mut breaker = Breaker::default();
    breaker.record_failure(1, 0);
    let pages = vec![evidence(0, false, &[])];
    let err = answered(judge.open(&mut breaker, 1, &pages)).expect_err("strict propagates");
    assert!(matches!(err, Error::Judge(_)), "got {err:?}");
    assert!(err.message().contains("1 consecutive failures; not calling"), "{}", err.message());
}

#[test]
fn every_failure_class_has_its_own_reason_string() {
    assert_eq!(FailureClass::Timeout.reason(), "jev_fallback_timeout");
    assert_eq!(FailureClass::Http.reason(), "jev_fallback_http");
    assert_eq!(FailureClass::Protocol.reason(), "jev_fallback_protocol");
    assert_eq!(FailureClass::BreakerOpen.reason(), "jev_fallback_breaker_open");
}

#[test]
fn a_non_strict_fallback_keeps_the_heuristics_answer_and_names_the_failure() {
    let judge = judge();
    let heuristic = HeuristicJudge
        .verdicts(&[evidence(0, true, &["scanned_page"]), evidence(1, false, &[])]);
    let failure = Failure {
        class: FailureClass::Timeout,
        detail: "POST https://example.test/v1/systemone failed: timeout".to_string(),
    };
    let verdicts = judge.fall_back(&failure, &heuristic).expect("non-strict");
    assert_eq!(
        verdicts.iter().map(|v| v.needs_ocr).collect::<Vec<_>>(),
        vec![true, false]
    );
    assert!(verdicts.iter().all(|v| v.reason == REASON_FALLBACK_TIMEOUT));
}

#[test]
fn a_strict_fallback_is_an_error_carrying_the_detail() {
    let judge = judge().with_strict(true);
    assert!(judge.is_strict());
    let failure = Failure {
        class: FailureClass::Protocol,
        detail: "System One response is unusable: no answer for page_4".to_string(),
    };
    let err = judge.fall_back(&failure, &Vec::new()).expect_err("strict propagates");
    match err {
        Error::Judge(message) => assert!(message.contains("page_4"), "got {message}"),
        other => panic!("expected Error::Judge, got {other:?}"),
    }
}

#[test]
fn a_protocol_error_becomes_a_protocol_failure() {
    let failure =
        protocol_failure(&ProtocolError::MissingAnswer { key: "page_7".to_string() });
    assert_eq!(failure.class, FailureClass::Protocol);
    assert!(failure.detail.contains("page_7"));
}

#[test]
fn judge_truncate_marks_the_cut() {
    assert_eq!(truncate("abc", 10), "abc");
    assert_eq!(truncate("abcdef", 3), "abc…");
}

const URL: &str = "https://example.test/v1/systemone";

#[test]
fn an_exchange_is_read_into_a_record_and_a_response_or_a_failure() {
    let (record, outcome) = read_exchange(
        URL,
        vec![0, 1],
        12,
        Exchange::NoResponse { timed_out: true, detail: "timeout: global".to_string() },
    );
    assert_eq!(record.pages, vec![0, 1]);
    assert_eq!(record.elapsed_ms, 12);
    assert_eq!(record.status, None);
    let failure = outcome.expect_err("no response");
    assert_eq!(failure.class, FailureClass::Timeout);
    assert_eq!(failure.detail, format!("POST {URL} failed: timeout: global"));

    let (_, outcome) = read_exchange(
        URL,
        vec![0],
        1,
        Exchange::NoResponse { timed_out: false, detail: "refused".to_string() },
    );
    assert_eq!(outcome.expect_err("no response").class, FailureClass::Http);

    let (record, outcome) = read_exchange(
        URL,
        vec![0],
        1,
        Exchange::Unreadable { status: 200, detail: "cut".to_string() },
    );
    assert_eq!(record.status, Some(200));
    assert_eq!(
        outcome.expect_err("unreadable").detail,
        format!("POST {URL} returned HTTP 200, unreadable body: cut")
    );

    let (record, outcome) = read_exchange(
        URL,
        vec![0],
        1,
        Exchange::Answered {
            status: 503,
            text: "x".repeat(400),
            parsed: Ok(SystemOneResponse {
                model: None,
                answers: Vec::new(),
                usage: Some(Usage { input_tokens: 1, output_tokens: 1 }),
            }),
        },
    );
    assert_eq!(record.status, Some(503));
    assert_eq!(record.input_tokens, None);
    let failure = outcome.expect_err("not a success");
    assert_eq!(failure.class, FailureClass::Http);
    assert_eq!(
        failure.detail,
        format!("POST {URL} returned HTTP 503: {}…", "x".repeat(300))
    );

    let (_, outcome) = read_exchange(
        URL,
        vec![0],
        1,
        Exchange::Answered {
            status: 200,
            text: "<html>".to_string(),
            parsed: Err("expected value".to_string()),
        },
    );
    let failure = outcome.expect_err("unparseable");
    assert_eq!(failure.class, FailureClass::Protocol);
    assert_eq!(
        failure.detail,
        format!("POST {URL} returned HTTP 200 with unparseable JSON (expected value): <html>")
    );

    let (record, outcome) = read_exchange(
        URL,
        vec![0],
        1,
        Exchange::Answered {
            status: 201,
            text: "{}".to_string(),
            parsed: Ok(SystemOneResponse {
                model: None,
                answers: vec![answer(0, Some("noul"), Some(0.5))],
                usage: Some(Usage { input_tokens: 12, output_tokens: 3 }),
            }),
        },
    );
    assert_eq!(record.input_tokens, Some(12));
    assert_eq!(record.output_tokens, Some(3));
    assert_eq!(outcome.expect("a response").answers.len(), 1);
}

#[test]
fn a_document_is_asked_about_chunk_by_chunk() {
    let judge = judge();
    let pages: Vec<_> =
        (0..MAX_PAGES_PER_REQUEST as u32 + 2).map(|p| evidence(p, false, &[])).collect();
    let mut breaker = Breaker::default();
    let inquiry = match judge.open(&mut breaker, 0, &pages) {
        Opening::Ask(inquiry) => inquiry,
        Opening::Answered(_) => panic!("a call is needed"),
    };
    assert_eq!(inquiry.next_chunk().expect("first chunk").len(), MAX_PAGES_PER_REQUEST);
    let first = response(
        (0..MAX_PAGES_PER_REQUEST as u32).map(|p| answer(p, Some("noul"), Some(0.9))).collect(),
    );
    let inquiry = match judge.advance(&mut breaker, 0, inquiry, Ok(first)) {
        Step::Continue(inquiry) => inquiry,
        Step::Finished(_) => panic!("one chunk is left"),
    };
    assert_eq!(inquiry.next_chunk().expect("second chunk").len(), 2);
    let last = MAX_PAGES_PER_REQUEST as u32;
    let second = response(vec![
        answer(last + 1, Some("noul"), Some(0.1)),
        answer(last, Some("noul"), Some(0.2)),
    ]);
    match judge.advance(&mut breaker, 0, inquiry, Ok(second)) {
        Step::Finished(answer) => {
            let verdicts = answer.expect("answered");
            assert_eq!(verdicts.len(), pages.len());
            assert!(verdicts.iter().zip(&pages).all(|(v, p)| v.page == p.page));
            assert!(verdicts[0].needs_ocr);
            assert!(!verdicts[last as usize].needs_ocr);
        }
        Step::Continue(_) => panic!("no chunk is left"),
    }
}

#[test]
fn the_first_failure_ends_the_inquiry_on_the_heuristics_answer() {
    let judge = judge().with_failure_threshold(1);
    let pages = vec![evidence(0, true, &["scanned_page"]), evidence(1, false, &[])];
    let mut breaker = Breaker::default();
    let inquiry = match judge.open(&mut breaker, 0, &pages) {
        Opening::Ask(inquiry) => inquiry,
        Opening::Answered(_) => panic!("a call is needed"),
    };
    let partial = response(vec![answer(0, Some("noul"), Some(0.1))]);
    match judge.advance(&mut breaker, 7, inquiry, Ok(partial)) {
        Step::Finished(answer) => {
            let verdicts = answer.expect("non-strict");
            assert_eq!(
                verdicts.iter().map(|v| v.needs_ocr).collect::<Vec<_>>(),
                vec![true, false]
            );
            assert!(verdicts.iter().all(|v| v.reason == REASON_FALLBACK_PROTOCOL));
        }
        Step::Continue(_) => panic!("the inquiry failed"),
    }
    assert!(breaker.is_open(7, 1_000));
}
