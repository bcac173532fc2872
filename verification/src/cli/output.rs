//! The human-readable lines of the command-line tool.

use crate::classify::{Classification, ClassificationModel};
use crate::cli::host::{CallRecord, CallRecordModel};
use crate::cli::judge::{JudgeProvenance, BASELINE_JUDGE};
use crate::extract::{opt_pages, OcrResult, OcrResultModel, Page, PageModel};
use crate::metadata::{summary_models, LegSummary, RouteMetadata, RouteMetadataModel};
use crate::policy::{leg_models, opt_page_list, Decision, DecisionModel, Leg, LegModel};
use crate::text::{
    align_left, align_right, blank, cut, decimal, decimal_text, is_blank, join, joined,
    left_aligned, lines, numeral_texts, numerals, opt_text, push_decimal, push_text,
    push_wide_decimal, right_aligned,
    same_text, split_lines, texts, truncate,
};
use vstd::prelude::*;
use vstd::string::*;

verus! {

/// How many characters of a page's first line are shown.
pub const SHOWN_LINE_CHARS: usize = 80;

/// How a page list reads: every page, no page, or the pages in brackets.
pub open spec fn page_list(pages: Option<Seq<u32>>) -> Seq<char> {
    match pages {
        None => "all"@,
        Some(list) => if list.len() == 0 {
            "none"@
        } else {
            "["@ + joined(numerals(list), ","@) + "]"@
        },
    }
}

/// How a page list reads: `all`, `none`, or `[0,2]`.
pub fn format_pages(pages: Option<&[u32]>) -> (r: String)
    ensures
        r@ == page_list(opt_pages(pages)),
{
    match pages {
        None => "all".to_owned(),
        Some(list) => {
            if list.len() == 0 {
                return "none".to_owned();
            }
            let parts: Vec<String> = numeral_texts(list);
            let mut text: String = "[".to_owned();
            text.append(join(&parts, ",").as_str());
            text.append("]");
            text
        },
    }
}

/// How an owned page list reads.
fn format_page_list(pages: &Option<Vec<u32>>) -> (r: String)
    ensures
        r@ == page_list(opt_page_list(*pages)),
{
    match pages {
        Some(list) => format_pages(Some(list.as_slice())),
        None => format_pages(None),
    }
}

/// One line on a classification, given its confidence and its duration as they print.
pub open spec fn classification_line(
    c: ClassificationModel,
    confidence: Seq<char>,
    millis: Seq<char>,
) -> Seq<char> {
    c.pdf_type.text() + " (confidence "@ + confidence + "), "@ + decimal(c.page_count as nat)
        + " page(s), "@ + decimal(c.pages_needing_ocr.len()) + " needing OCR "@ + page_list(
        Some(c.pages_needing_ocr),
    ) + (if c.is_complex_layout {
        ", complex layout"@
    } else {
        ", simple layout"@
    }) + ", classified in "@ + millis + " ms"@
}

/// One line on a classification. `confidence` and `millis` are its confidence and its duration
/// as they print.
pub fn describe_classification(c: &Classification, confidence: &str, millis: &str) -> (r: String)
    ensures
        r@ == classification_line(c@, confidence@, millis@),
{
    let mut text: String = c.pdf_type.as_str().to_owned();
    text.append(" (confidence ");
    text.append(confidence);
    text.append("), ");
    push_decimal(&mut text, c.page_count as u64);
    text.append(" page(s), ");
    push_decimal(&mut text, c.pages_needing_ocr.len() as u64);
    text.append(" needing OCR ");
    text.append(format_pages(Some(c.pages_needing_ocr.as_slice())).as_str());
    if c.is_complex_layout {
        text.append(", complex layout");
    } else {
        text.append(", simple layout");
    }
    text.append(", classified in ");
    text.append(millis);
    text.append(" ms");
    text
}

/// How a leg starts its line: model, tier and pages, in columns.
pub open spec fn leg_start(leg: LegModel) -> Seq<char> {
    "  leg "@ + left_aligned(leg.model, 24) + " "@ + left_aligned(leg.tier.text(), 9) + " pages "@
}

/// The line of one planned leg.
pub open spec fn leg_line(leg: LegModel) -> Seq<char> {
    leg_start(leg) + page_list(leg.pages)
}

fn start_leg(model: &String, tier: crate::config::Tier) -> (r: String)
    ensures
        forall|pages: Option<Seq<u32>>|
            r@ == #[trigger] leg_start(LegModel { model: model@, tier, pages }),
{
    let mut text: String = "  leg ".to_owned();
    text.append(align_left(model.as_str(), 24).as_str());
    text.append(" ");
    text.append(align_left(tier.as_str(), 9).as_str());
    text.append(" pages ");
    text
}

/// The lines of a decision: where the document goes and why, then one line per leg.
pub open spec fn decision_lines(
    file: Seq<char>,
    decision: DecisionModel,
    confidence: Seq<char>,
    millis: Seq<char>,
) -> Seq<Seq<char>> {
    match decision {
        DecisionModel::Bypass { reason, model, detail } => {
            let head = file + ": bypass "@ + reason.text() + " -> "@ + model;
            match detail {
                Some(detail) => seq![head, "  "@ + detail],
                None => seq![head],
            }
        },
        DecisionModel::Route { plan, classification } => seq![
            file + ": route "@ + plan.reason.text() + " -> "@ + plan.routed_model + " (tier "@
                + plan.tier.text() + ")"@,
            "  "@ + classification_line(classification, confidence, millis),
        ] + plan.legs.map_values(|leg: LegModel| leg_line(leg)),
    }
}

/// The lines of a decision. `confidence` and `millis` are the classification's confidence and
/// duration as they print; a bypass has neither.
pub fn describe_decision(file: &str, decision: &Decision, confidence: &str, millis: &str) -> (r:
    Vec<String>)
    ensures
        texts(r@) == decision_lines(file@, decision@, confidence@, millis@),
{
    let mut out: Vec<String> = Vec::new();
    let mut head: String = file.to_owned();
    match decision {
        Decision::Bypass { reason, model, detail } => {
            head.append(": bypass ");
            head.append(reason.as_str());
            head.append(" -> ");
            head.append(model.as_str());
            push_text(&mut out, head);
            if let Some(detail) = detail {
                push_text(&mut out, "  ".to_owned().concat(detail.as_str()));
            }
            assert(texts(out@) =~= decision_lines(file@, decision@, confidence@, millis@));
            out
        },
        Decision::Route { plan, classification } => {
            head.append(": route ");
            head.append(plan.reason.as_str());
            head.append(" -> ");
            head.append(plan.routed_model.as_str());
            head.append(" (tier ");
            head.append(plan.tier.as_str());
            head.append(")");
            push_text(&mut out, head);
            push_text(
                &mut out,
                "  ".to_owned().concat(
                    describe_classification(classification, confidence, millis).as_str(),
                ),
            );
            let ghost start = texts(out@);
            let ghost rest = leg_models(plan.legs@).map_values(|leg: LegModel| leg_line(leg));
            let mut i: usize = 0;
            assert(start + rest.take(0) =~= start);
            while i < plan.legs.len()
                invariant
                    i <= plan.legs@.len(),
                    rest == leg_models(plan.legs@).map_values(|leg: LegModel| leg_line(leg)),
                    texts(out@) == start + rest.take(i as int),
                decreases plan.legs@.len() - i,
            {
                let leg: &Leg = &plan.legs[i];
                let mut line: String = start_leg(&leg.model, leg.tier);
                line.append(format_page_list(&leg.pages).as_str());
                proof {
                    assert(leg_start(leg@) == leg_start(
                        LegModel { model: leg.model@, tier: leg.tier, pages: leg@.pages },
                    ));
                    assert(rest[i as int] == leg_line(leg@));
                }
                push_text(&mut out, line);
                assert(texts(out@) =~= start + rest.take(i + 1));
                i += 1;
            }
            assert(rest.take(rest.len() as int) =~= rest);
            assert(texts(out@) =~= decision_lines(file@, decision@, confidence@, millis@));
            out
        },
    }
}

/// The line that names the judge, when it is not the default one.
pub fn judge_line(provenance: &JudgeProvenance) -> (r: Option<String>)
    ensures
        opt_text(r) == (if provenance.name@ == BASELINE_JUDGE@ {
            None
        } else {
            Some("  judge: "@ + provenance.name@)
        }),
{
    if same_text(provenance.name.as_str(), BASELINE_JUDGE) {
        None
    } else {
        Some("  judge: ".to_owned().concat(provenance.name.as_str()))
    }
}

/// The models of a list of call records.
pub open spec fn call_models(calls: Seq<CallRecord>) -> Seq<CallRecordModel> {
    calls.map_values(|c: CallRecord| c@)
}

/// How long a leg took: the first call with its model and its pages says; with no such call
/// the leg ran in the process.
pub open spec fn leg_duration(calls: Seq<CallRecordModel>, leg: LegModel) -> Seq<char>
    decreases calls.len(),
{
    if calls.len() == 0 {
        "in-process"@
    } else if calls[0].model == leg.model && calls[0].pages == leg.pages {
        decimal(calls[0].elapsed_ms as nat) + " ms"@
    } else {
        leg_duration(calls.subrange(1, calls.len() as int), leg)
    }
}

fn same_pages(a: &Option<Vec<u32>>, b: &Option<Vec<u32>>) -> (r: bool)
    ensures
        r == (opt_page_list(*a) == opt_page_list(*b)),
{
    match (a, b) {
        (Some(x), Some(y)) => {
            if x.len() != y.len() {
                return false;
            }
            let mut i: usize = 0;
            while i < x.len()
                invariant
                    i <= x@.len() == y@.len(),
                    opt_page_list(*a) == Some(x@),
                    opt_page_list(*b) == Some(y@),
                    forall|k: int| 0 <= k < i ==> x@[k] == y@[k],
                decreases x@.len() - i,
            {
                if x[i] != y[i] {
                    assert(x@[i as int] != y@[i as int]);
                    return false;
                }
                i += 1;
            }
            assert(x@ =~= y@);
            true
        },
        (None, None) => true,
        _ => false,
    }
}

fn duration_of(calls: &Vec<CallRecord>, leg: &LegSummary) -> (r: String)
    ensures
        r@ == leg_duration(call_models(calls@), leg@),
{
    let ghost all = call_models(calls@);
    let mut i: usize = 0;
    assert(all.subrange(0, all.len() as int) =~= all);
    while i < calls.len()
        invariant
            i <= calls@.len(),
            all == call_models(calls@),
            leg_duration(all, leg@) == leg_duration(all.subrange(i as int, all.len() as int), leg@),
        decreases calls@.len() - i,
    {
        proof {
            let rest = all.subrange(i as int, all.len() as int);
            assert(rest[0] == calls@[i as int]@);
            assert(rest.subrange(1, rest.len() as int) =~= all.subrange(i + 1, all.len() as int));
        }
        if same_text(calls[i].model.as_str(), leg.model.as_str()) && same_pages(
            &calls[i].pages,
            &leg.pages,
        ) {
            let mut text: String = String::new();
            push_wide_decimal(&mut text, calls[i].elapsed_ms);
            text.append(" ms");
            assert(text@ =~= decimal(calls@[i as int].elapsed_ms as nat) + " ms"@);
            return text;
        }
        i += 1;
    }
    "in-process".to_owned()
}

/// The line of one leg that ran.
pub open spec fn ran_line(calls: Seq<CallRecordModel>, leg: LegModel) -> Seq<char> {
    leg_start(leg) + left_aligned(page_list(leg.pages), 12) + " "@ + leg_duration(calls, leg)
}

/// The first line of a page that is not blank.
pub open spec fn first_shown(found: Seq<Seq<char>>) -> Seq<char>
    decreases found.len(),
{
    if found.len() == 0 {
        "(empty)"@
    } else if !blank(found[0]) {
        found[0]
    } else {
        first_shown(found.subrange(1, found.len() as int))
    }
}

/// The line of one page: its number, its model and its first line with anything on it.
pub open spec fn page_line(page: PageModel) -> Seq<char> {
    "    "@ + right_aligned(decimal(page.index as nat), 4) + "  "@ + left_aligned(page.model, 24)
        + " "@ + cut(first_shown(lines(page.markdown)), SHOWN_LINE_CHARS as nat)
}

/// The lines of a result: a heading, then one line per page.
pub open spec fn result_lines(result: OcrResultModel) -> Seq<Seq<char>> {
    seq!["  "@ + decimal(result.pages.len()) + " page(s) via "@ + result.model + ":"@]
        + result.pages.map_values(|p: PageModel| page_line(p))
}

fn first_line(markdown: &str) -> (r: String)
    ensures
        r@ == first_shown(lines(markdown@)),
{
    let found: Vec<String> = split_lines(markdown);
    let ghost all = texts(found@);
    let mut i: usize = 0;
    assert(all.subrange(0, all.len() as int) =~= all);
    while i < found.len()
        invariant
            i <= found@.len(),
            all == texts(found@),
            all == lines(markdown@),
            first_shown(all) == first_shown(all.subrange(i as int, all.len() as int)),
        decreases found@.len() - i,
    {
        proof {
            let rest = all.subrange(i as int, all.len() as int);
            assert(rest[0] == found@[i as int]@);
            assert(rest.subrange(1, rest.len() as int) =~= all.subrange(i + 1, all.len() as int));
        }
        if !is_blank(found[i].as_str()) {
            return found[i].clone();
        }
        i += 1;
    }
    "(empty)".to_owned()
}

/// The lines of a result: how many pages came from where, then one line per page.
pub fn describe_result(result: &OcrResult) -> (r: Vec<String>)
    ensures
        texts(r@) == result_lines(result@),
{
    let mut out: Vec<String> = Vec::new();
    let mut head: String = "  ".to_owned();
    push_decimal(&mut head, result.pages.len() as u64);
    head.append(" page(s) via ");
    head.append(result.model.as_str());
    head.append(":");
    push_text(&mut out, head);
    let ghost start = texts(out@);
    let ghost rest = result@.pages.map_values(|p: PageModel| page_line(p));
    let mut i: usize = 0;
    assert(start + rest.take(0) =~= start);
    while i < result.pages.len()
        invariant
            i <= result.pages@.len(),
            rest == result@.pages.map_values(|p: PageModel| page_line(p)),
            texts(out@) == start + rest.take(i as int),
        decreases result.pages@.len() - i,
    {
        let page: &Page = &result.pages[i];
        let mut line: String = "    ".to_owned();
        line.append(align_right(decimal_text(page.index as u64).as_str(), 4).as_str());
        line.append("  ");
        line.append(align_left(page.model.as_str(), 24).as_str());
        line.append(" ");
        line.append(
            truncate(first_line(page.markdown.as_str()).as_str(), SHOWN_LINE_CHARS).as_str(),
        );
        proof {
            assert(result@.pages[i as int] == page@);
            assert(rest[i as int] == page_line(page@));
        }
        push_text(&mut out, line);
        assert(texts(out@) =~= start + rest.take(i + 1));
        i += 1;
    }
    assert(rest.take(rest.len() as int) =~= rest);
    assert(texts(out@) =~= result_lines(result@));
    out
}

/// The legs a run's metadata lists; none when it lists none.
pub open spec fn listed_legs(metadata: RouteMetadataModel) -> Seq<LegModel> {
    match metadata.legs {
        Some(legs) => legs,
        None => Seq::empty(),
    }
}

/// The lines of a run, before those of its result.
pub open spec fn run_lines(
    file: Seq<char>,
    metadata: RouteMetadataModel,
    calls: Seq<CallRecordModel>,
    elapsed_ms: u128,
) -> Seq<Seq<char>> {
    let head = seq![
        file + ": "@ + metadata.reason + " -> "@ + metadata.routed_model + " (tier "@
            + metadata.tier + ") in "@ + decimal(elapsed_ms as nat) + " ms"@,
    ];
    let fallback = match metadata.fallback_reason {
        Some(reason) => seq![
            "  fallback: "@ + reason + " (whole document rerun on "@ + metadata.routed_model
                + ")"@,
        ],
        None => Seq::empty(),
    };
    head + fallback + listed_legs(metadata).map_values(|leg: LegModel| ran_line(calls, leg))
}

fn push_legs(out: &mut Vec<String>, legs: &Vec<LegSummary>, calls: &Vec<CallRecord>)
    ensures
        texts(final(out)@) == texts(old(out)@) + summary_models(legs@).map_values(
            |leg: LegModel| ran_line(call_models(calls@), leg),
        ),
{
    let ghost start = texts(out@);
    let ghost rest = summary_models(legs@).map_values(
        |leg: LegModel| ran_line(call_models(calls@), leg),
    );
    let mut i: usize = 0;
    assert(start + rest.take(0) =~= start);
    while i < legs.len()
        invariant
            i <= legs@.len(),
            rest == summary_models(legs@).map_values(
                |leg: LegModel| ran_line(call_models(calls@), leg),
            ),
            texts(out@) == start + rest.take(i as int),
        decreases legs@.len() - i,
    {
        let leg: &LegSummary = &legs[i];
        let mut line: String = start_leg(&leg.model, leg.tier);
        line.append(align_left(format_page_list(&leg.pages).as_str(), 12).as_str());
        line.append(" ");
        line.append(duration_of(calls, leg).as_str());
        proof {
            assert(leg_start(leg@) == leg_start(
                LegModel { model: leg.model@, tier: leg.tier, pages: leg@.pages },
            ));
            assert(rest[i as int] == ran_line(call_models(calls@), leg@));
        }
        push_text(out, line);
        assert(texts(out@) =~= start + rest.take(i + 1));
        i += 1;
    }
    assert(rest.take(rest.len() as int) =~= rest);
}

/// The lines of a run: where it went and how long it took, the fallback if there was one, one
/// line per leg, then the result.
pub fn describe_run(
    file: &str,
    metadata: &RouteMetadata,
    result: &OcrResult,
    calls: &Vec<CallRecord>,
    elapsed_ms: u128,
) -> (r: Vec<String>)
    ensures
        texts(r@) == run_lines(file@, metadata@, call_models(calls@), elapsed_ms) + result_lines(
            result@,
        ),
{
    let mut out: Vec<String> = Vec::new();
    let mut head: String = file.to_owned();
    head.append(": ");
    head.append(metadata.reason.as_str());
    head.append(" -> ");
    head.append(metadata.routed_model.as_str());
    head.append(" (tier ");
    head.append(metadata.tier.as_str());
    head.append(") in ");
    push_wide_decimal(&mut head, elapsed_ms);
    head.append(" ms");
    push_text(&mut out, head);
    if let Some(reason) = &metadata.fallback_reason {
        let mut line: String = "  fallback: ".to_owned();
        line.append(reason.as_str());
        line.append(" (whole document rerun on ");
        line.append(metadata.routed_model.as_str());
        line.append(")");
        push_text(&mut out, line);
    }
    if let Some(legs) = &metadata.legs {
        push_legs(&mut out, legs, calls);
    }
    assert(texts(out@) =~= run_lines(file@, metadata@, call_models(calls@), elapsed_ms));
    let ghost start = texts(out@);
    let rest: Vec<String> = describe_result(result);
    let ghost more = texts(rest@);
    let mut i: usize = 0;
    assert(start + more.take(0) =~= start);
    while i < rest.len()
        invariant
            i <= rest@.len(),
            more == texts(rest@),
            texts(out@) == start + more.take(i as int),
        decreases rest@.len() - i,
    {
        push_text(&mut out, rest[i].clone());
        assert(more[i as int] == rest@[i as int]@);
        assert(texts(out@) =~= start + more.take(i + 1));
        i += 1;
    }
    assert(more.take(more.len() as int) =~= more);
    out
}

/// A leg is shown with the time of the first call that asked for its model and its pages, and as
/// run in the process exactly when no call did.
pub proof fn a_leg_is_timed_by_its_own_call(calls: Seq<CallRecordModel>, leg: LegModel)
    ensures
        (forall|i: int|
            0 <= i < calls.len() ==> !((#[trigger] calls[i]).model == leg.model && calls[i].pages
                == leg.pages)) ==> leg_duration(calls, leg) == "in-process"@,
        forall|at: int|
            0 <= at < calls.len() && (#[trigger] calls[at]).model == leg.model && calls[at].pages
                == leg.pages && (forall|i: int|
                0 <= i < at ==> !((#[trigger] calls[i]).model == leg.model && calls[i].pages
                    == leg.pages)) ==> leg_duration(calls, leg) == decimal(
                calls[at].elapsed_ms as nat,
            ) + " ms"@,
    decreases calls.len(),
{
    if calls.len() > 0 && !(calls[0].model == leg.model && calls[0].pages == leg.pages) {
        let rest = calls.subrange(1, calls.len() as int);
        a_leg_is_timed_by_its_own_call(rest, leg);
        if forall|i: int|
            0 <= i < calls.len() ==> !((#[trigger] calls[i]).model == leg.model && calls[i].pages
                == leg.pages) {
            assert forall|i: int| 0 <= i < rest.len() implies !((#[trigger] rest[i]).model
                == leg.model && rest[i].pages == leg.pages) by {
                assert(rest[i] == calls[i + 1]);
            }
        }
        assert forall|at: int|
            0 <= at < calls.len() && (#[trigger] calls[at]).model == leg.model && calls[at].pages
                == leg.pages && (forall|i: int|
                0 <= i < at ==> !((#[trigger] calls[i]).model == leg.model && calls[i].pages
                    == leg.pages)) implies leg_duration(calls, leg) == decimal(
            calls[at].elapsed_ms as nat,
        ) + " ms"@ by {
            assert(at > 0);
            assert(rest[at - 1] == calls[at]);
            assert forall|i: int| 0 <= i < at - 1 implies !((#[trigger] rest[i]).model == leg.model
                && rest[i].pages == leg.pages) by {
                assert(rest[i] == calls[i + 1]);
            }
        }
    } else if calls.len() > 0 {
        assert(calls[0].model == leg.model && calls[0].pages == leg.pages);
    }
}

/// A page is shown by its first line with anything on it, or as empty when it has none.
pub proof fn a_page_is_shown_by_its_first_line(found: Seq<Seq<char>>)
    ensures
        (forall|i: int| 0 <= i < found.len() ==> blank(#[trigger] found[i])) ==> first_shown(found)
            == "(empty)"@,
        forall|at: int|
            0 <= at < found.len() && !blank(#[trigger] found[at]) && (forall|i: int|
                0 <= i < at ==> blank(#[trigger] found[i])) ==> first_shown(found) == found[at],
    decreases found.len(),
{
    if found.len() > 0 && blank(found[0]) {
        let rest = found.subrange(1, found.len() as int);
        a_page_is_shown_by_its_first_line(rest);
        if forall|i: int| 0 <= i < found.len() ==> blank(#[trigger] found[i]) {
            assert forall|i: int| 0 <= i < rest.len() implies blank(#[trigger] rest[i]) by {
                assert(rest[i] == found[i + 1]);
            }
        }
        assert forall|at: int|
            0 <= at < found.len() && !blank(#[trigger] found[at]) && (forall|i: int|
                0 <= i < at ==> blank(#[trigger] found[i])) implies first_shown(found)
            == found[at] by {
            assert(at > 0);
            assert(rest[at - 1] == found[at]);
            assert forall|i: int| 0 <= i < at - 1 implies blank(#[trigger] rest[i]) by {
                assert(rest[i] == found[i + 1]);
            }
        }
    } else if found.len() > 0 {
        assert(!blank(found[0]));
    }
}

/// What a run shows: where it went and for how long first, then the fallback where there was one,
/// then one line for each leg, in leg order. A result is shown with as many lines as it has
/// pages, behind a heading.
pub proof fn a_run_is_shown_leg_by_leg(
    file: Seq<char>,
    metadata: RouteMetadataModel,
    calls: Seq<CallRecordModel>,
    elapsed_ms: u128,
    result: OcrResultModel,
)
    ensures
        ({
            let shown = run_lines(file, metadata, calls, elapsed_ms);
            let legs = if metadata.legs is Some {
                metadata.legs->0.len()
            } else {
                0
            };
            let first = if metadata.fallback_reason is Some {
                2int
            } else {
                1int
            };
            &&& shown.len() == first + legs
            &&& forall|i: int|
                0 <= i < legs ==> #[trigger] shown[first + i] == ran_line(
                    calls,
                    metadata.legs->0[i],
                )
            &&& metadata.fallback_reason is Some ==> shown[1] == "  fallback: "@
                + metadata.fallback_reason->0 + " (whole document rerun on "@
                + metadata.routed_model + ")"@
        }),
        result_lines(result).len() == result.pages.len() + 1,
        forall|i: int|
            0 <= i < result.pages.len() ==> #[trigger] result_lines(result)[i + 1] == page_line(
                result.pages[i],
            ),
{
}

/// How a page list is shown: a missing one as all pages, an empty one as none, and any other with
/// its numbers in brackets.
pub proof fn how_a_page_list_is_shown(pages: Seq<u32>, page: u32)
    ensures
        page_list(None) == "all"@,
        page_list(Some(Seq::<u32>::empty())) == "none"@,
        page_list(Some(seq![page])) == "["@ + decimal(page as nat) + "]"@,
        pages.len() > 0 ==> page_list(Some(pages.push(page))) == "["@ + joined(numerals(pages), ","@)
            + ","@ + decimal(page as nat) + "]"@,
{
    reveal_with_fuel(joined, 2);
    assert(numerals(seq![page]) =~= seq![decimal(page as nat)]);
    assert(page_list(Some(seq![page])) =~= "["@ + decimal(page as nat) + "]"@);
    let more = numerals(pages.push(page));
    assert(more.drop_last() =~= numerals(pages));
    if pages.len() > 0 {
        assert(page_list(Some(pages.push(page))) =~= "["@ + joined(numerals(pages), ","@) + ","@
            + decimal(page as nat) + "]"@);
    }
}

/// A judge is named exactly where it is not the built-in one.
pub proof fn only_another_judge_is_named(provenance: &JudgeProvenance, line: Option<String>)
    requires
        call_ensures(judge_line, (provenance,), line),
    ensures
        line is Some <==> provenance.name@ != "heuristic"@,
        line is Some ==> line->0@ == "  judge: "@ + provenance.name@,
{
}

/// What is shown of a decision: a bypass with its reason, its model and its detail where it has
/// one; a route with its reason, its model and its tier, then its classification, then one line
/// for each leg, in leg order, that ends with the leg's pages.
pub proof fn what_is_shown_of_a_decision(
    file: Seq<char>,
    decision: DecisionModel,
    confidence: Seq<char>,
    millis: Seq<char>,
)
    ensures
        ({
            let shown = decision_lines(file, decision, confidence, millis);
            &&& decision is Bypass ==> shown[0] == file + ": bypass "@ + decision->reason.text()
                + " -> "@ + decision->model && shown.len() == (if decision->detail is Some {
                2nat
            } else {
                1nat
            }) && (decision->detail is Some ==> shown[1] == "  "@ + decision->detail->0)
            &&& decision is Route ==> shown[0] == file + ": route "@ + decision->plan.reason.text()
                + " -> "@ + decision->plan.routed_model + " (tier "@ + decision->plan.tier.text()
                + ")"@ && shown.len() == 2 + decision->plan.legs.len() && forall|i: int|
                0 <= i < decision->plan.legs.len() ==> (#[trigger] shown[2 + i]) == leg_line(
                    decision->plan.legs[i],
                )
        }),
{
}

/// How a page is shown: its number, its model, and the beginning of its first line with anything on
/// it. How a leg is shown: its model, its tier and its pages, and once it ran the time it took.
pub proof fn how_pages_and_legs_are_shown(
    page: PageModel,
    leg: LegModel,
    calls: Seq<CallRecordModel>,
)
    ensures
        page_line(page) == "    "@ + right_aligned(decimal(page.index as nat), 4) + "  "@
            + left_aligned(page.model, 24) + " "@ + cut(first_shown(lines(page.markdown)), 80),
        leg_line(leg) == "  leg "@ + left_aligned(leg.model, 24) + " "@ + left_aligned(
            leg.tier.text(),
            9,
        ) + " pages "@ + page_list(leg.pages),
        ran_line(calls, leg) == "  leg "@ + left_aligned(leg.model, 24) + " "@ + left_aligned(
            leg.tier.text(),
            9,
        ) + " pages "@ + left_aligned(page_list(leg.pages), 12) + " "@ + leg_duration(calls, leg),
{
}

} // verus!
