//! The hosted judge end to end against a scripted vendor: what goes on the wire, and what each
//! way a vendor can let you down comes to.

use doc_router::error::Error;
use doc_router::jev::judge::{
    read_exchange, Breaker, CallRecord, Exchange, Failure, JevJudge, JevMode, Opening, Step,
    REASON_CLEAR, REASON_FALLBACK_BREAKER_OPEN, REASON_FALLBACK_HTTP, REASON_FALLBACK_PROTOCOL,
    REASON_FALLBACK_TIMEOUT, REASON_NEEDS_OCR,
};
use doc_router::jev::wire::{
    chunks, question_key, request_body, Answer, NamedAnswer, Noul, SystemOneResponse, Usage,
    MAX_PAGES_PER_REQUEST,
};
use doc_router::judge::{PageEvidence, PageJudge, PageVerdict};
use doc_router::number::{Real32, Real64};
use serde_json::Value;
use std::sync::Mutex;

/// Not a credential: an arbitrary string that must not turn up where it does not belong.
const TEST_KEY: &str = "test-key-not-a-credential";

/// A configured judge whose calls a script answers.
struct Vendor {
    judge: JevJudge,
    script: fn() -> Exchange,
    breaker: Mutex<Breaker>,
    bodies: Mutex<Vec<Value>>,
    calls: Mutex<Vec<CallRecord>>,
}

impl Vendor {
    fn new(judge: JevJudge, script: fn() -> Exchange) -> Self {
        Vendor {
            judge,
            script,
            breaker: Mutex::new(Breaker::default()),
            bodies: Mutex::new(Vec::new()),
            calls: Mutex::new(Vec::new()),
        }
    }

    fn bodies(&self) -> Vec<Value> {
        self.bodies.lock().expect("request log").clone()
    }

    fn call_count(&self) -> usize {
        self.calls.lock().expect("call log").len()
    }

    fn post(&self, chunk: &[PageEvidence]) -> Result<SystemOneResponse, Failure> {
        let body = request_body(&self.judge.model, chunk).to_wire();
        self.bodies
            .lock()
            .expect("request log")
            .push(serde_json::from_str(&body).expect("a request body is JSON"));
        let pages = chunk.iter().map(|page| page.page).collect();
        let (record, outcome) =
            read_exchange(&self.judge.endpoint(), pages, 3, (self.script)());
        self.calls.lock().expect("call log").push(record);
        outcome
    }
}

impl PageJudge for Vendor {
    fn judge(&self, evidence: &[PageEvidence]) -> Result<Vec<PageVerdict>, Error> {
        let mut breaker = self.breaker.lock().expect("breaker");
        let mut inquiry = match self.judge.open(&mut breaker, 0, evidence) {
            Opening::Answered(answer) => return answer,
            Opening::Ask(inquiry) => inquiry,
        };
        loop {
            let chunk = inquiry.next_chunk().expect("an open inquiry has a chunk left");
            let outcome = self.post(chunk);
            match self.judge.advance(&mut breaker, 0, inquiry, outcome) {
                Step::Continue(rest) => inquiry = rest,
                Step::Finished(answer) => return answer,
            }
        }
    }

    fn name(&self) -> &'static str {
        self.judge.mode().judge_name()
    }

    fn needs_text(&self) -> bool {
        true
    }
}

/// The pages a request asks about, in order.
fn question_pages(body: &Value) -> Vec<u32> {
    let mut pages: Vec<u32> = body["questions"]
        .as_object()
        .expect("questions is an object")
        .keys()
        .map(|key| {
            key.strip_prefix("page_")
                .expect("every question key is page_<n>")
                .parse()
                .expect("every question key ends in a number")
        })
        .collect();
    pages.sort_unstable();
    pages
}

fn evidence(page: u32, flagged: bool) -> PageEvidence {
    PageEvidence {
        page,
        text: Some(format!("the extracted text of page {page}")),
        reasons: if flagged { vec!["scanned_page".to_string()] } else { Vec::new() },
        flagged_by_inspector: flagged,
        has_tables: false,
        has_columns: false,
        has_encoding_issues: false,
    }
}

fn single(value: f32) -> Real32 {
    Real32 { bits: value.to_bits() }
}

fn number(value: Real32) -> f32 {
    f32::from_bits(value.bits)
}

/// A response that answers these pages with these probabilities, in this order.
fn answers(pages: &[(u32, f64)]) -> Exchange {
    let answers = pages
        .iter()
        .map(|(page, p)| {
            let probability = *p as f32;
            NamedAnswer {
                key: question_key(*page),
                answer: Answer {
                    kind: Some("noul".to_string()),
                    noul: Some(Noul {
                        value: Real64 { bits: p.to_bits() },
                        probability: single(probability),
                        complement: single(1.0 - probability.clamp(0.0, 1.0)),
                    }),
                },
            }
        })
        .collect();
    Exchange::Answered {
        status: 200,
        text: String::new(),
        parsed: Ok(SystemOneResponse {
            model: Some("jev-2026-04".to_string()),
            answers,
            usage: Some(Usage { input_tokens: 431, output_tokens: 12 }),
        }),
    }
}

/// A refusal with this status, whose body says why and answers nothing.
fn refused(status: u16, error: &str) -> Exchange {
    Exchange::Answered {
        status,
        text: format!("{{\"error\":\"{error}\"}}"),
        parsed: Err("missing field `answers`".to_string()),
    }
}

fn judge() -> JevJudge {
    JevJudge::new(TEST_KEY).with_base_url("http://127.0.0.1:5000")
}

fn needs_ocr(verdicts: &[PageVerdict]) -> Vec<bool> {
    verdicts.iter().map(|v| v.needs_ocr).collect()
}

#[test]
fn a_document_is_one_call_whose_body_is_what_the_api_documents() {
    let vendor = Vendor::new(judge(), || answers(&[(0, 0.03), (1, 0.97), (2, 0.5)]));
    let pages = vec![evidence(0, false), evidence(1, true), evidence(2, false)];
    let verdicts = vendor.judge(&pages).expect("a 200 is not a failure");

    assert_eq!(vendor.call_count(), 1);
    let calls = vendor.bodies();
    let body = calls.last().expect("one recorded call");
    assert_eq!(vendor.judge.endpoint(), "http://127.0.0.1:5000/v1/systemone");
    assert_eq!(format!("Bearer {}", vendor.judge.api_key), "Bearer test-key-not-a-credential");
    assert_eq!(body["model"], "jev-latest");
    assert_eq!(question_pages(body), vec![0, 1, 2]);
    assert_eq!(body["questions"]["page_1"]["type"], "noul");
    assert_eq!(body["state"].as_array().expect("state").len(), 3);
    assert_eq!(body["state"][1]["page"], 1);
    assert_eq!(body["state"][1]["text"], "the extracted text of page 1");
    assert_eq!(body["state"][1]["inspector_flagged"], true);

    // 0.03 is a confident "no", not an unconfident "yes".
    assert_eq!(verdicts.iter().map(|v| v.page).collect::<Vec<_>>(), vec![0, 1, 2]);
    assert_eq!(needs_ocr(&verdicts), vec![false, true, true]);
    assert!((number(verdicts[0].confidence) - 0.97).abs() < 1e-6);
    assert!((number(verdicts[1].confidence) - 0.97).abs() < 1e-6);
    assert!((number(verdicts[2].confidence) - 0.5).abs() < 1e-6);
    assert_eq!(verdicts[0].reason, REASON_CLEAR);
    assert_eq!(verdicts[1].reason, REASON_NEEDS_OCR);
}

#[test]
fn the_verdicts_follow_the_keys_even_when_the_answers_arrive_shuffled() {
    let vendor = Vendor::new(judge(), || answers(&[(2, 0.9), (1, 0.1), (0, 0.8)]));
    let pages = vec![evidence(0, false), evidence(1, false), evidence(2, false)];
    let verdicts = vendor.judge(&pages).expect("a 200");
    assert_eq!(
        needs_ocr(&verdicts),
        vec![true, false, true],
        "page 1 is the one with the low probability, wherever it sat"
    );
}

#[test]
fn a_long_document_is_chunked_and_every_page_is_still_asked_about_by_name() {
    let total = MAX_PAGES_PER_REQUEST * 2 + 7;
    // Every response answers every page; each chunk reads only its own keys.
    let vendor = Vendor::new(judge(), || {
        let every: Vec<(u32, f64)> =
            (0..MAX_PAGES_PER_REQUEST as u32 * 2 + 7).map(|page| (page, 0.8)).collect();
        answers(&every)
    });
    let pages: Vec<PageEvidence> =
        (0..total as u32).map(|page| evidence(page, false)).collect();
    let verdicts = vendor.judge(&pages).expect("a 200 per chunk");

    let calls = vendor.bodies();
    assert_eq!(calls.len(), 3);
    assert_eq!(question_pages(&calls[0]).len(), MAX_PAGES_PER_REQUEST);
    assert_eq!(question_pages(&calls[1]).len(), MAX_PAGES_PER_REQUEST);
    assert_eq!(question_pages(&calls[2]).len(), 7);
    // Chunking does not renumber.
    assert_eq!(question_pages(&calls[1])[0], MAX_PAGES_PER_REQUEST as u32);
    let asked: Vec<u32> = calls.iter().flat_map(question_pages).collect();
    assert_eq!(asked, (0..total as u32).collect::<Vec<_>>());

    assert_eq!(verdicts.len(), total);
    assert!(verdicts.iter().all(|v| v.needs_ocr));
    assert_eq!(
        verdicts.iter().map(|v| v.page).collect::<Vec<_>>(),
        (0..total as u32).collect::<Vec<_>>()
    );
}

#[test]
fn a_rejected_or_overloaded_call_falls_back_to_the_heuristic() {
    let refusals: [(u16, fn() -> Exchange); 4] = [
        (401, || refused(401, "missing or invalid API key")),
        (422, || refused(422, "questions must not be empty")),
        (429, || refused(429, "rate limit exceeded")),
        (529, || refused(529, "overloaded")),
    ];
    for (status, script) in refusals {
        let vendor = Vendor::new(judge(), script);
        let pages = vec![evidence(0, true), evidence(1, false)];
        let verdicts = match vendor.judge(&pages) {
            Ok(verdicts) => verdicts,
            Err(e) => panic!("HTTP {status} must not break routing: {}", e.message()),
        };

        assert_eq!(vendor.call_count(), 1);
        assert_eq!(
            needs_ocr(&verdicts),
            vec![true, false],
            "HTTP {status} falls back to the inspector's own answer"
        );
        assert!(
            verdicts.iter().all(|v| v.reason == REASON_FALLBACK_HTTP),
            "HTTP {status} is labelled as a fallback, never as a judgement"
        );
        assert!(verdicts.iter().all(|v| number(v.confidence) == 1.0));
    }
}

#[test]
fn a_strict_judge_propagates_the_status_and_the_body_without_the_key() {
    let vendor =
        Vendor::new(judge().with_strict(true), || refused(401, "missing or invalid API key"));
    let err = vendor.judge(&[evidence(0, true)]).expect_err("strict propagates");
    let message = err.message();
    assert!(message.contains("401"), "got {message}");
    assert!(message.contains("missing or invalid API key"), "got {message}");
    assert!(
        !message.contains(TEST_KEY),
        "the key must never reach an error message: {message}"
    );
}

#[test]
fn a_body_that_is_not_json_is_a_protocol_failure_not_an_http_one() {
    let vendor = Vendor::new(judge(), || Exchange::Answered {
        status: 200,
        text: "<html>upstream proxy says hello</html>".to_string(),
        parsed: Err("expected value at line 1 column 1".to_string()),
    });
    let pages = vec![evidence(0, true), evidence(1, false)];
    let verdicts = vendor.judge(&pages).expect("non-strict falls back");
    assert!(verdicts.iter().all(|v| v.reason == REASON_FALLBACK_PROTOCOL));
    assert_eq!(needs_ocr(&verdicts), vec![true, false]);
}

#[test]
fn a_response_missing_one_page_fails_rather_than_calling_that_page_clear() {
    // Page 1 is simply absent.
    let script = || answers(&[(0, 0.9), (2, 0.9)]);
    let pages = vec![evidence(0, true), evidence(1, true), evidence(2, true)];
    let verdicts =
        Vendor::new(judge(), script).judge(&pages).expect("non-strict falls back");
    assert!(verdicts.iter().all(|v| v.reason == REASON_FALLBACK_PROTOCOL));
    assert!(
        verdicts.iter().all(|v| v.needs_ocr),
        "the heuristic's verdicts, not a partial mix of the two"
    );

    let err = Vendor::new(judge().with_strict(true), script)
        .judge(&pages)
        .expect_err("strict propagates");
    assert!(err.message().contains("page_1"), "got {}", err.message());
}

#[test]
fn a_call_that_never_answers_is_a_timeout_not_a_transport_error() {
    let vendor = Vendor::new(judge(), || Exchange::NoResponse {
        timed_out: true,
        detail: "timeout: global".to_string(),
    });
    let pages = vec![evidence(0, true), evidence(1, false)];
    let verdicts = vendor.judge(&pages).expect("non-strict falls back");
    assert!(
        verdicts.iter().all(|v| v.reason == REASON_FALLBACK_TIMEOUT),
        "a slow vendor and an unreachable one want different operational responses"
    );
    assert_eq!(needs_ocr(&verdicts), vec![true, false]);
}

#[test]
fn a_run_of_failures_opens_the_breaker_and_stops_the_calls() {
    let judge = judge().with_failure_threshold(2).with_cool_off_nanos(3_600_000_000_000);
    let vendor = Vendor::new(judge, || refused(529, "overloaded"));
    let pages = vec![evidence(0, true)];

    for _ in 0..2 {
        let verdicts = vendor.judge(&pages).expect("non-strict");
        assert!(verdicts.iter().all(|v| v.reason == REASON_FALLBACK_HTTP));
    }
    assert_eq!(vendor.call_count(), 2);

    // The third document does not reach the vendor at all.
    let verdicts = vendor.judge(&pages).expect("non-strict");
    assert!(verdicts.iter().all(|v| v.reason == REASON_FALLBACK_BREAKER_OPEN));
    assert_eq!(vendor.call_count(), 2, "only the two calls that happened");
}

#[test]
fn a_gated_judge_escalates_an_ambiguous_document_and_skips_a_clear_one() {
    let vendor =
        Vendor::new(judge().with_mode(JevMode::Gated), || answers(&[(0, 0.2), (1, 0.8)]));
    assert_eq!(vendor.name(), "jev_gated");

    // Flagged and clear in the same document: worth a call.
    let mixed = vec![evidence(0, true), evidence(1, false)];
    let verdicts = vendor.judge(&mixed).expect("a 200");
    assert_eq!(vendor.call_count(), 1);
    assert_eq!(
        needs_ocr(&verdicts),
        vec![false, true],
        "the vendor disagreed with the inspector on both pages, which is the point"
    );

    // Every page flagged, with a reason: no call.
    let consistent = vec![evidence(0, true), evidence(1, true)];
    let verdicts = vendor.judge(&consistent).expect("no call");
    assert_eq!(vendor.call_count(), 1);
    assert!(verdicts.iter().all(|v| v.reason == "jev_not_escalated"));
}

#[test]
fn the_call_log_records_the_pages_the_status_and_the_reported_usage() {
    let vendor = Vendor::new(judge(), || answers(&[(0, 0.9), (1, 0.1)]));
    vendor.judge(&[evidence(0, true), evidence(1, false)]).expect("a 200");
    let calls = vendor.calls.lock().expect("call log");
    assert_eq!(calls.len(), 1);
    assert_eq!(calls[0].pages, vec![0, 1]);
    assert_eq!(calls[0].status, Some(200));
    assert_eq!(calls[0].input_tokens, Some(431));
    assert_eq!(calls[0].output_tokens, Some(12));
}

#[test]
fn the_key_changes_nothing_but_the_header() {
    let pages = vec![evidence(0, true), evidence(1, false)];
    let scripts: [fn() -> Exchange; 3] = [
        || answers(&[(0, 0.9), (1, 0.1)]),
        || answers(&[(0, 0.9)]),
        || refused(429, "rate limit exceeded"),
    ];
    for script in scripts {
        for strict in [false, true] {
            let one = Vendor::new(judge().with_strict(strict), script);
            let other = JevJudge::new("another-key").with_base_url("http://127.0.0.1:5000");
            let two = Vendor::new(other.with_strict(strict), script);
            match (one.judge(&pages), two.judge(&pages)) {
                (Ok(a), Ok(b)) => assert_eq!(a, b),
                (Err(a), Err(b)) => assert_eq!(a.message(), b.message()),
                _ => panic!("the key decided the outcome"),
            }
            assert_eq!(one.bodies(), two.bodies());
        }
    }
}

#[test]
fn a_document_is_sent_in_full_requests() {
    let pages: Vec<PageEvidence> =
        (0..2 * MAX_PAGES_PER_REQUEST as u32 + 1).map(|page| evidence(page, false)).collect();
    let sizes: Vec<usize> = chunks(&pages).iter().map(|chunk| chunk.len()).collect();
    assert_eq!(sizes, vec![MAX_PAGES_PER_REQUEST, MAX_PAGES_PER_REQUEST, 1]);
}

#[test]
fn unusable_answers_open_the_breaker_too() {
    let judge = judge().with_failure_threshold(2).with_cool_off_nanos(3_600_000_000_000);
    // A success by its status that has no answer for the page asked about.
    let vendor = Vendor::new(judge, || answers(&[(7, 0.9)]));
    let pages = vec![evidence(0, true)];
    for _ in 0..2 {
        let verdicts = vendor.judge(&pages).expect("non-strict");
        assert!(verdicts.iter().all(|v| v.reason == REASON_FALLBACK_PROTOCOL));
    }
    assert_eq!(vendor.call_count(), 2);

    let verdicts = vendor.judge(&pages).expect("non-strict");
    assert!(verdicts.iter().all(|v| v.reason == REASON_FALLBACK_BREAKER_OPEN));
    assert_eq!(vendor.call_count(), 2, "the third document is not asked about");
}
