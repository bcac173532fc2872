//! Manifests, `.env` files, judge names, and the shapes a dynamically typed caller passes.

use doc_router::bench::corpus::{
    holds_text, validated_truth, Corpus, CorpusError, DocumentSpec, Manifest, RowFault,
};
use doc_router::bench::dotenv::{parse, parse_line, unset_pairs};
use doc_router::bench::registry::{judge_order, resolve_judges};
use doc_router::binding::{
    complete_classification, complete_leg, complete_ocr_result, flatten_decision, kind_of, Kind,
};
use doc_router::cli::judge::{JudgeLookup, BASELINE_JUDGE};
use doc_router::error::Error;
use doc_router::jev::judge::JevMode;
use doc_router::json::{member, Json};
use doc_router::policy::{Bypass, Decision};

fn spec(file: &str, source: &str, page_count: u32, needs_ocr: &[u32]) -> DocumentSpec {
    DocumentSpec {
        file: file.to_string(),
        source: source.to_string(),
        page_count,
        needs_ocr: needs_ocr.to_vec(),
        note: None,
    }
}

fn mixed() -> DocumentSpec {
    let mut row = spec("../fixtures/mixed.pdf", "synthetic", 4, &[3, 1]);
    row.note = Some("t,i,t,i".to_string());
    row
}

fn parse_rows(path: &str, rows: Vec<DocumentSpec>) -> Result<Corpus, CorpusError> {
    Corpus::parse(path, Manifest { documents: rows })
}

// manifests

#[test]
fn parses_a_row_and_resolves_the_path_against_the_manifest_directory() {
    let corpus =
        parse_rows("/repo/tests/corpus/rows.json", vec![mixed()]).expect("valid manifest");
    assert_eq!(corpus.documents.len(), 1);
    let doc = &corpus.documents[0];
    assert_eq!(doc.path, "/repo/tests/corpus/../fixtures/mixed.pdf");
    assert_eq!(doc.spec.page_count, 4);
    // Sorted, and left 0-indexed exactly as written.
    assert_eq!(doc.truth, vec![1, 3]);
    assert_eq!(doc.spec.source, "synthetic");
    assert_eq!(doc.label(), "mixed.pdf");
    assert_eq!(corpus.manifest_path, "/repo/tests/corpus/rows.json");
}

#[test]
fn an_absolute_file_is_used_as_written() {
    let row = spec("/elsewhere/real/invoice.pdf", "real", 1, &[0]);
    let corpus = parse_rows("corpus/rows.json", vec![row]).expect("valid manifest");
    assert_eq!(corpus.documents[0].path, "/elsewhere/real/invoice.pdf");
}

#[test]
fn a_manifest_named_alone_lies_in_the_working_directory() {
    let corpus = parse_rows("m.json", vec![spec("a.pdf", "real", 1, &[])]).expect("valid");
    assert_eq!(corpus.documents[0].path, "a.pdf");
}

#[test]
fn a_zero_page_document_with_no_ocr_pages_is_valid() {
    let row = spec("../fixtures/empty.pdf", "synthetic", 0, &[]);
    let corpus = parse_rows("m.json", vec![row]).expect("valid");
    assert!(corpus.documents[0].truth.is_empty());
}

#[test]
fn a_page_past_the_end_is_a_manifest_error() {
    let err = parse_rows("m.json", vec![spec("a.pdf", "real", 3, &[3])]).expect_err("out of range");
    let text = err.message();
    assert!(text.contains("page 3"), "{text}");
    assert!(text.contains("0-indexed"), "{text}");
}

#[test]
fn a_repeated_page_is_a_manifest_error() {
    let err = parse_rows("m.json", vec![spec("a.pdf", "real", 3, &[1, 1])]).expect_err("duplicate");
    assert!(err.message().contains("twice"), "{}", err.message());
}

#[test]
fn a_repeated_page_is_named_before_one_past_the_end() {
    assert_eq!(validated_truth(&spec("a.pdf", "real", 1, &[7, 7])), Err(RowFault::Repeated));
    assert_eq!(
        validated_truth(&spec("a.pdf", "real", 3, &[9, 4, 2])),
        Err(RowFault::PastTheEnd(4)),
        "the smallest page that is out of range"
    );
    assert_eq!(validated_truth(&spec("a.pdf", "real", 3, &[2, 0])), Ok(vec![0, 2]));
}

#[test]
fn an_empty_manifest_is_rejected() {
    let err = parse_rows("m.json", vec![]).expect_err("no documents");
    assert!(err.message().contains("no documents"), "{}", err.message());
    assert_eq!(err, CorpusError::Empty { manifest: "m.json".to_string() });
}

#[test]
fn sources_are_listed_once_in_first_seen_order() {
    let corpus = parse_rows(
        "m.json",
        vec![
            mixed(),
            spec("b.pdf", "real", 1, &[]),
            spec("c.pdf", "synthetic", 1, &[]),
        ],
    )
    .expect("valid");
    assert_eq!(corpus.sources(), vec!["synthetic", "real"]);
}

#[test]
fn a_document_without_a_name_goes_by_its_row() {
    let corpus = parse_rows("/m/m.json", vec![spec("/", "real", 1, &[])]).expect("valid");
    assert_eq!(corpus.documents[0].label(), "/");
    assert_eq!(corpus.documents[0].label_from(Some("x".to_string())), "x");
}

#[test]
fn a_list_is_searched_by_text() {
    let parts = vec!["one".to_string(), "two".to_string()];
    assert!(holds_text(&parts, "two"));
    assert!(!holds_text(&parts, "tw"));
}

// `.env` files

fn pair(key: &str, value: &str) -> (String, String) {
    (key.to_string(), value.to_string())
}

/// Nothing is set, so every pair in the file comes back.
fn nothing_set(_key: &str) -> bool {
    false
}

#[test]
fn a_plain_pair_parses() {
    assert_eq!(parse("KEY=value"), vec![pair("KEY", "value")]);
}

#[test]
fn comments_and_blank_lines_are_skipped() {
    let text = "# a comment\n\n   \nKEY=value\n#KEY=shadowed\n";
    assert_eq!(
        parse(text),
        vec![pair("KEY", "value")],
        "the commented-out second assignment must not win"
    );
}

#[test]
fn an_export_prefix_is_allowed() {
    assert_eq!(parse("export KEY=value"), vec![pair("KEY", "value")]);
}

#[test]
fn quotes_are_stripped_but_only_in_matching_pairs() {
    let text = "A=\"double\"\nB='single'\nC=\"mismatched'\nD=say \"hi\"\n";
    assert_eq!(
        parse(text),
        vec![
            pair("A", "double"),
            pair("B", "single"),
            pair("C", "\"mismatched'"),
            pair("D", "say \"hi\""),
        ]
    );
}

#[test]
fn an_equals_inside_the_value_stays_in_the_value() {
    assert_eq!(
        parse("URL=https://example.test/x?a=1&b=2"),
        vec![pair("URL", "https://example.test/x?a=1&b=2")]
    );
}

#[test]
fn surrounding_whitespace_is_trimmed_on_both_sides() {
    assert_eq!(parse("  KEY  =  value  "), vec![pair("KEY", "value")]);
}

#[test]
fn a_line_without_an_equals_or_with_a_bad_key_is_skipped_not_fatal() {
    let text = "this is not a pair\nKEY WITH SPACES=1\n=novalue\nGOOD=1\n";
    assert_eq!(
        parse(text),
        vec![pair("GOOD", "1")],
        "a malformed line must not take the rest of the file with it"
    );
}

#[test]
fn an_empty_value_is_a_pair_not_a_skip() {
    assert_eq!(parse("KEY="), vec![pair("KEY", "")]);
}

#[test]
fn the_real_environment_wins_over_the_file() {
    let text = "ALREADY=from_file\nMISSING=from_file\n";
    let pairs = unset_pairs(text, |key| key == "ALREADY");
    assert_eq!(
        pairs,
        vec![pair("MISSING", "from_file")],
        "a key exported into the shell is never overwritten by the file"
    );
}

#[test]
fn everything_is_offered_when_nothing_is_set() {
    let pairs = unset_pairs("A=1\nB=2\n", nothing_set);
    assert_eq!(pairs.len(), 2);
}

#[test]
fn a_key_is_letters_digits_and_underscores_of_any_script() {
    assert_eq!(parse_line("cl\u{e9}_2=x"), Some(pair("cl\u{e9}_2", "x")));
    assert_eq!(parse_line("a-b=x"), None);
    assert_eq!(parse_line("a.b=x"), None);
}

#[test]
fn a_lone_quote_is_a_value() {
    assert_eq!(parse_line("A=\""), Some(pair("A", "\"")));
    assert_eq!(parse_line("A=''"), Some(pair("A", "")));
    assert_eq!(parse_line("A=\" x \""), Some(pair("A", " x ")));
}

#[test]
fn a_key_that_starts_with_the_word_export_is_a_key() {
    assert_eq!(parse_line("exported=1"), Some(pair("exported", "1")));
    assert_eq!(parse_line("export  A=1"), Some(pair("A", "1")));
}

// judge names

fn names(list: &[&str]) -> Vec<String> {
    list.iter().map(|name| name.to_string()).collect()
}

fn no_keys() -> Vec<Option<String>> {
    vec![None, None]
}

#[test]
fn the_baseline_is_always_first_even_when_it_was_not_asked_for() {
    let resolved =
        resolve_judges(&vec![], &no_keys(), &None, &None).expect("the baseline always resolves");
    assert_eq!(resolved.judges.len(), 1);
    assert!(matches!(resolved.judges[0], JudgeLookup::Heuristic));
    assert!(resolved.skipped.is_empty());
}

#[test]
fn naming_the_baseline_does_not_run_it_twice() {
    let resolved =
        resolve_judges(&names(&[BASELINE_JUDGE, BASELINE_JUDGE]), &no_keys(), &None, &None)
            .expect("resolves");
    assert_eq!(resolved.judges.len(), 1);
}

#[test]
fn a_judge_that_cannot_be_built_here_is_skipped_rather_than_fatal() {
    let resolved = resolve_judges(&names(&["jev"]), &no_keys(), &None, &None)
        .expect("a known name never errors");
    assert!(matches!(resolved.judges[0], JudgeLookup::Heuristic));
    assert_eq!(resolved.judges.len(), 1, "the baseline still runs");
    assert_eq!(resolved.skipped[0].judge, "jev");
    let reason = &resolved.skipped[0].reason;
    assert!(reason.contains("TYPESAFE_API_KEY"), "{reason}");

    let keys = vec![Some("secret".to_string()), None];
    let resolved =
        resolve_judges(&names(&["jev"]), &keys, &None, &None).expect("a known name never errors");
    assert!(resolved.skipped.is_empty());
    match &resolved.judges[1] {
        JudgeLookup::Hosted(judge) => {
            assert_eq!(judge.mode(), JevMode::Always);
            assert!(judge.is_strict(), "a row is never reported under another judge's name");
        }
        _ => panic!("`jev` runs when there is a key"),
    }
}

#[test]
fn an_unknown_judge_name_stops_the_run_and_lists_the_registered_ones() {
    let text = match resolve_judges(&names(&["nope"]), &no_keys(), &None, &None) {
        Ok(_) => panic!("an unknown judge must not silently fall back to the baseline"),
        Err(text) => text,
    };
    assert!(text.contains("unknown judge `nope`"), "{text}");
    assert!(text.contains(BASELINE_JUDGE), "{text}");
}

#[test]
fn judges_run_in_the_order_they_were_named() {
    assert_eq!(
        judge_order(&names(&["jev_gated", "heuristic", "jev", "jev_gated"])),
        names(&["heuristic", "jev_gated", "jev"])
    );
}

// shapes from outside

fn numeral(n: u32) -> Json {
    Json::Number(n.to_string())
}

fn text(s: &str) -> Json {
    Json::Text(s.to_string())
}

fn get<'a>(json: &'a Json, name: &str) -> &'a Json {
    match json {
        Json::Object(members) => match members.iter().find(|member| member.name == name) {
            Some(found) => &found.value,
            None => panic!("no member {name}"),
        },
        other => panic!("not an object: {other:?}"),
    }
}

#[test]
fn an_error_is_raised_by_what_went_wrong() {
    assert_eq!(kind_of(&Error::InvalidConfig("x".to_string())), Kind::Config);
    assert_eq!(kind_of(&Error::NotPdf), Kind::Pdf);
    assert_eq!(kind_of(&Error::Pdf("x".to_string())), Kind::Pdf);
    assert_eq!(kind_of(&Error::Split("x".to_string())), Kind::Pdf);
    assert_eq!(kind_of(&Error::Host("x".to_string())), Kind::Host);
    assert_eq!(kind_of(&Error::Judge("x".to_string())), Kind::Host);
}

#[test]
fn a_failed_leg_is_raised_as_what_failed_it() {
    let leg = |source: Error| Error::LegFailed { model: "m".to_string(), source: Box::new(source) };
    assert_eq!(kind_of(&leg(Error::Host("x".to_string()))), Kind::Host);
    assert_eq!(kind_of(&leg(leg(Error::Pdf("x".to_string())))), Kind::Pdf);
}

#[test]
fn a_classification_may_leave_out_what_no_rule_reads() {
    let given = Json::Object(vec![
        member("pdf_type", text("ImageBased")),
        member("is_complex_layout", Json::Bool(true)),
    ]);
    let full = complete_classification(given).expect("a dict");
    assert_eq!(get(&full, "pdf_type"), &text("image_based"));
    assert_eq!(get(&full, "is_complex_layout"), &Json::Bool(true), "what is given stays");
    assert_eq!(get(&full, "has_encoding_issues"), &Json::Bool(false));
    assert_eq!(get(&full, "classify_ms"), &Json::Number("0.0".to_string()));
    assert_eq!(get(&full, "ocr_reasons"), &Json::List(vec![]));
    assert_eq!(
        complete_classification(Json::Null),
        Err("classification must be a dict".to_string())
    );
}

#[test]
fn a_result_may_leave_out_its_model_and_its_count() {
    let given = Json::Object(vec![member(
        "pages",
        Json::List(vec![
            Json::Object(vec![member("markdown", text("one"))]),
            Json::Object(vec![member("index", numeral(7)), member("model", text("other"))]),
        ]),
    )]);
    let full = complete_ocr_result(given, "mistral-ocr", "result").expect("a dict");
    assert_eq!(get(&full, "model"), &text("mistral-ocr"));
    assert_eq!(get(&full, "pages_processed"), &numeral(2));
    assert_eq!(get(&full, "doc_size_bytes"), &Json::Null);
    let pages = match get(&full, "pages") {
        Json::List(pages) => pages,
        other => panic!("not a list: {other:?}"),
    };
    assert_eq!(get(&pages[0], "index"), &numeral(0));
    assert_eq!(get(&pages[0], "markdown"), &text("one"));
    assert_eq!(get(&pages[0], "model"), &text("mistral-ocr"));
    assert_eq!(get(&pages[1], "index"), &numeral(7));
    assert_eq!(get(&pages[1], "markdown"), &text(""));
    assert_eq!(get(&pages[1], "model"), &text("other"));
}

#[test]
fn a_result_that_is_no_dict_is_refused() {
    assert_eq!(
        complete_ocr_result(Json::Bool(true), "m", "the host's reply"),
        Err("the host's reply must be a dict".to_string())
    );
    let given = Json::Object(vec![member("pages", Json::List(vec![Json::Null]))]);
    assert_eq!(
        complete_ocr_result(given, "m", "result"),
        Err("result: every entry of `pages` must be a dict".to_string())
    );
    let given = Json::Object(vec![member("pages", Json::Null)]);
    let full = complete_ocr_result(given, "m", "result").expect("left for whoever reads it");
    assert_eq!(get(&full, "pages"), &Json::Null);
    assert_eq!(get(&full, "pages_processed"), &numeral(0));
}

#[test]
fn a_leg_may_leave_out_its_pages_and_its_tier() {
    let local = complete_leg(Json::Object(vec![member("model", text("local_pdf/extract"))]))
        .expect("a dict");
    assert_eq!(get(&local, "tier"), &text("local"));
    assert_eq!(get(&local, "pages"), &Json::Null);
    let other = complete_leg(Json::Object(vec![member("model", text("mistral-ocr"))]))
        .expect("a dict");
    assert_eq!(get(&other, "tier"), &text("standard"));
    assert_eq!(complete_leg(Json::Null), Err("every leg must be a dict".to_string()));
}

#[test]
fn a_bypass_is_flat() {
    let decision = Decision::Bypass {
        reason: Bypass::NotPdf,
        model: "mistral-ocr".to_string(),
        detail: None,
    };
    let flat = flatten_decision(&decision, Json::Null, Json::Null);
    assert_eq!(get(&flat, "kind"), &text("bypass"));
    assert_eq!(get(&flat, "model"), &text("mistral-ocr"));
    assert_eq!(get(&flat, "detail"), &Json::Null);
}
