//! Rendering a report for a human.
//!
//! The raw error counts come first, split into the two kinds: they tell whether the judge is
//! safe to route with. The derived rates come after. Rates, money and times arrive as they
//! print.

use crate::bench::collect::{
    Caveat, DocumentFailure, DocumentReport, GroupReport, JudgeReport,
};
use crate::bench::layout::{byte_count, byte_len, paragraph, push_paragraph};
use crate::bench::registry::SkippedJudge;
use crate::bench::score::{
    ConfidenceReport, ConfidenceValue, Cost, JudgeSpend, ReliabilityBucket, SpendCost,
    RELIABILITY_BUCKETS,
};
use crate::text::{
    align_left, align_right, bracket_pages, bracketed, decimal, decimal_text, join, joined,
    left_aligned, push_decimal, push_text, right_aligned, spaces, texts,
};
use vstd::prelude::*;
use vstd::string::*;

verus! {

/// A number as it prints in a column.
pub open spec fn counted(n: nat, width: nat) -> Seq<char> {
    right_aligned(decimal(n), width)
}

/// A number as it prints in a column.
fn count(n: u64, width: usize) -> (r: String)
    ensures
        r@ == counted(n as nat, width as nat),
{
    align_right(decimal_text(n).as_str(), width)
}

/// The money of one judge's routing, each figure as it prints.
#[derive(Debug, PartialEq, Eq)]
pub struct CostFigures {
    /// What the wasted pages cost.
    pub overspend: String,
    /// What the missed pages would have cost.
    pub underspend: String,
    /// The bill for OCR-ing every page.
    pub naive: String,
    /// The bill this judge's routing produces.
    pub routed: String,
    /// The share of the naive bill it comes to; `None` when nothing was scored.
    pub routed_share: Option<String>,
    /// What the routing did not spend.
    pub saving: String,
    /// The most a correct router could save.
    pub ceiling_saving: String,
    /// How much more than that the routing saved.
    pub beyond_ceiling: String,
    /// How much less than that the routing saved.
    pub short_of_ceiling: String,
    /// What the judge's own calls cost.
    pub judge_cost: String,
    /// The saving less that.
    pub net: String,
}

/// One document's times, as they print.
#[derive(Debug, PartialEq, Eq)]
pub struct RowFigures {
    /// The median time, in milliseconds.
    pub millis: String,
    /// The difference to the baseline's, with its sign. `None` for the baseline itself.
    pub delta: Option<String>,
}

/// One bucket's rates, as they print.
#[derive(Debug, PartialEq, Eq)]
pub struct BucketFigures {
    /// The share of verdicts that were right.
    pub accuracy: String,
    /// The mean stated confidence.
    pub mean_confidence: String,
}

/// One judge's rates, money and times, as they print.
#[derive(Debug, PartialEq, Eq)]
pub struct JudgeFigures {
    /// One entry per scored document.
    pub documents: Vec<RowFigures>,
    /// Of the pages routed to OCR, the share that needed it.
    pub precision: Option<String>,
    /// Of the pages needing OCR, the share that got it.
    pub recall: Option<String>,
    /// Their harmonic mean.
    pub f1: Option<String>,
    /// The money.
    pub cost: CostFigures,
    /// The median time, in milliseconds.
    pub p50: String,
    /// The 95th percentile.
    pub p95: String,
    /// The slowest document.
    pub slowest: String,
    /// The overhead against the baseline, with its sign.
    pub overhead: Option<String>,
    /// The distinct confidence values.
    pub distinct: Vec<String>,
    /// The single confidence value, when there is only one, to three places.
    pub constant: Option<String>,
    /// The single confidence value, when there is only one, to two places.
    pub constant_short: Option<String>,
    /// One entry per bucket.
    pub buckets: Vec<BucketFigures>,
    /// The Brier score.
    pub brier: Option<String>,
}

/// A judge's report with its figures.
#[derive(Debug, PartialEq, Eq)]
pub struct JudgeSection {
    /// The counts.
    pub report: JudgeReport,
    /// The figures.
    pub figures: JudgeFigures,
}

/// The whole run.
#[derive(Debug, PartialEq, Eq)]
pub struct BenchReport {
    /// The manifest that was scored.
    pub corpus: String,
    /// Runs per document.
    pub repeat: u32,
    /// Cost of one OCR page, as it prints.
    pub cost_per_page: String,
    /// Cost of a million input tokens, as it prints. `None` when no price was given.
    pub cost_per_million_input_tokens: Option<String>,
    /// Documents scored.
    pub documents_scored: u32,
    /// Documents in the manifest.
    pub documents_in_corpus: u32,
    /// Documents that could not be scored.
    pub failures: Vec<DocumentFailure>,
    /// Judges that were asked for and could not be built here.
    pub skipped_judges: Vec<SkippedJudge>,
    /// One entry per judge, baseline first.
    pub judges: Vec<JudgeSection>,
    /// What the corpus cannot tell.
    pub caveats: Vec<Caveat>,
}

/// Counts that hang together: no total overflows, no part is larger than its whole.
pub open spec fn sound_cost(cost: Cost) -> bool {
    cost.ocr_pages <= cost.all_pages && cost.ideal_ocr_pages <= cost.all_pages
}

impl JudgeSection {
    /// The counts hang together, and there is a figure for each of them.
    pub open spec fn well_formed(self) -> bool {
        &&& self.report.overall.confusion.total() <= u32::MAX
        &&& sound_cost(self.report.overall.cost)
        &&& forall|i: int|
            0 <= i < self.report.by_source@.len() ==> (
            #[trigger] self.report.by_source@[i]).confusion.total() <= u32::MAX
        &&& self.report.spend matches Some(spend) ==> spend.calls_reporting_usage <= spend.calls
        &&& self.figures.documents@.len() == self.report.documents@.len()
        &&& self.figures.distinct@.len() == self.report.confidence.distinct@.len()
        &&& self.figures.buckets@.len() == self.report.confidence.buckets@.len()
        &&& forall|i: int|
            0 <= i < self.report.confidence.buckets@.len() ==> (
            #[trigger] self.report.confidence.buckets@[i]).index < RELIABILITY_BUCKETS
    }
}

impl BenchReport {
    /// True when every document was scored. The exit code follows this; a judge scoring badly
    /// does not affect it.
    pub fn ok(&self) -> (r: bool)
        ensures
            r == (self.failures@.len() == 0),
    {
        self.failures.len() == 0
    }
}

/// How many documents were scored, and how many were not.
pub open spec fn scored_line(report: BenchReport) -> Seq<char> {
    "scored   "@ + decimal(report.documents_scored as nat) + " of "@
        + decimal(report.documents_in_corpus as nat) + " document(s)"@
        + (if report.failures@.len() == 0 {
        ""@
    } else {
        ", "@ + decimal(report.failures@.len()) + " excluded (see below)"@
    })
}

/// How a judge is named in the header.
pub open spec fn header_name(section: JudgeSection) -> Seq<char> {
    if section.report.baseline {
        section.report.judge@ + " (baseline)"@
    } else {
        section.report.judge@
    }
}

/// The names of the judges, as the header lists them.
pub open spec fn header_names(judges: Seq<JudgeSection>) -> Seq<Seq<char>> {
    judges.map_values(|section: JudgeSection| header_name(section))
}

/// The lines above everything else: what was scored, how often, at what price, by whom.
pub open spec fn header_lines(report: BenchReport) -> Seq<Seq<char>> {
    let start = seq![
        "doc-router bench"@,
        "corpus   "@ + report.corpus@,
        scored_line(report),
        "repeat   "@ + decimal(report.repeat as nat)
            + " run(s) per document; every latency below is that document's median"@,
        "cost     "@ + report.cost_per_page@
            + " per OCR page -- abstract cost units unless you passed a price of your"@,
        "         own via --cost-per-page; no vendor's price is baked in"@,
    ];
    let tokens = match report.cost_per_million_input_tokens {
        Some(price) => seq![
            "tokens   "@ + price@
                + " per million input tokens to a hosted judge; output tokens are"@,
            "         counted and not priced -- see THE JUDGE ITSELF under COST"@,
        ],
        None => Seq::empty(),
    };
    start + tokens + seq!["judges   "@ + joined(header_names(report.judges@), ", "@)]
}

fn judge_names(judges: &Vec<JudgeSection>) -> (r: String)
    ensures
        r@ == joined(header_names(judges@), ", "@),
{
    let ghost all = header_names(judges@);
    let mut names: Vec<String> = Vec::new();
    let mut i: usize = 0;
    assert(texts(names@) =~= all.take(0));
    while i < judges.len()
        invariant
            i <= judges@.len(),
            all == header_names(judges@),
            texts(names@) == all.take(i as int),
        decreases judges@.len() - i,
    {
        let mut name: String = judges[i].report.judge.clone();
        if judges[i].report.baseline {
            name.append(" (baseline)");
        }
        assert(all[i as int] == name@);
        push_text(&mut names, name);
        assert(texts(names@) =~= all.take(i + 1));
        i += 1;
    }
    assert(all.take(i as int) =~= all);
    join(&names, ", ")
}

fn header(out: &mut Vec<String>, report: &BenchReport)
    ensures
        texts(final(out)@) == texts(old(out)@) + header_lines(*report),
{
    let ghost start = texts(out@);
    push_text(out, "doc-router bench".to_owned());
    let mut line: String = "corpus   ".to_owned();
    line.append(report.corpus.as_str());
    push_text(out, line);
    let mut line: String = "scored   ".to_owned();
    push_decimal(&mut line, report.documents_scored as u64);
    line.append(" of ");
    push_decimal(&mut line, report.documents_in_corpus as u64);
    line.append(" document(s)");
    if report.failures.len() > 0 {
        line.append(", ");
        push_decimal(&mut line, report.failures.len() as u64);
        line.append(" excluded (see below)");
    }
    proof {
        reveal_strlit("");
        assert(line@ =~= scored_line(*report));
    }
    push_text(out, line);
    let mut line: String = "repeat   ".to_owned();
    push_decimal(&mut line, report.repeat as u64);
    line.append(" run(s) per document; every latency below is that document's median");
    push_text(out, line);
    let mut line: String = "cost     ".to_owned();
    line.append(report.cost_per_page.as_str());
    line.append(" per OCR page -- abstract cost units unless you passed a price of your");
    push_text(out, line);
    push_text(out, "         own via --cost-per-page; no vendor's price is baked in".to_owned());
    if let Some(price) = &report.cost_per_million_input_tokens {
        let mut line: String = "tokens   ".to_owned();
        line.append(price.as_str());
        line.append(" per million input tokens to a hosted judge; output tokens are");
        push_text(out, line);
        push_text(out, "         counted and not priced -- see THE JUDGE ITSELF under COST".to_owned());
    }
    let mut line: String = "judges   ".to_owned();
    line.append(judge_names(&report.judges).as_str());
    push_text(out, line);
    assert(texts(out@) =~= start + header_lines(*report));
}

/// The lines of one judge that was skipped.
pub open spec fn skip_lines(skip: SkippedJudge) -> Seq<Seq<char>> {
    seq!["  - "@ + skip.judge@] + paragraph("      "@, skip.reason@, 80)
}

/// The lines of the judges that were skipped, one after the other.
pub open spec fn all_skip_lines(skipped: Seq<SkippedJudge>) -> Seq<Seq<char>>
    decreases skipped.len(),
{
    if skipped.len() == 0 {
        Seq::empty()
    } else {
        all_skip_lines(skipped.drop_last()) + skip_lines(skipped.last())
    }
}

/// What is said before the judges that were skipped.
pub const SKIPPED_NOTE: &'static str =
    "These were requested and could not be built on this machine. They are not scored and not counted as failures; the exit code is unaffected. No row below was produced by a judge other than the one it names.";

/// The judges that were asked for and are not in the report below.
pub open spec fn skipped_lines(skipped: Seq<SkippedJudge>) -> Seq<Seq<char>> {
    if skipped.len() == 0 {
        Seq::empty()
    } else {
        seq![""@, "SKIPPED JUDGES ("@ + decimal(skipped.len()) + ")"@] + paragraph(
            "  "@,
            SKIPPED_NOTE@,
            86,
        ) + all_skip_lines(skipped)
    }
}

fn skipped_block(out: &mut Vec<String>, skipped: &Vec<SkippedJudge>)
    ensures
        texts(final(out)@) == texts(old(out)@) + skipped_lines(skipped@),
{
    if skipped.len() == 0 {
        assert(texts(out@) + skipped_lines(skipped@) =~= texts(out@));
        return;
    }
    let ghost start = texts(out@);
    push_text(out, "".to_owned());
    let mut line: String = "SKIPPED JUDGES (".to_owned();
    push_decimal(&mut line, skipped.len() as u64);
    line.append(")");
    push_text(out, line);
    push_paragraph(out, "  ", SKIPPED_NOTE, 86);
    let ghost head = texts(out@);
    let mut i: usize = 0;
    assert(head + all_skip_lines(skipped@.take(0)) =~= head);
    while i < skipped.len()
        invariant
            i <= skipped@.len(),
            texts(out@) == head + all_skip_lines(skipped@.take(i as int)),
        decreases skipped@.len() - i,
    {
        let ghost before = texts(out@);
        push_text(out, "  - ".to_owned().concat(skipped[i].judge.as_str()));
        push_paragraph(out, "      ", skipped[i].reason.as_str(), 80);
        proof {
            assert(skipped@.take(i + 1).drop_last() =~= skipped@.take(i as int));
            assert(skipped@.take(i + 1).last() == skipped@[i as int]);
            assert(texts(out@) =~= before + skip_lines(skipped@[i as int]));
            assert(texts(out@) =~= head + all_skip_lines(skipped@.take(i + 1)));
        }
        i += 1;
    }
    assert(skipped@.take(i as int) =~= skipped@);
    assert(texts(out@) =~= start + skipped_lines(skipped@));
}

/// The lines of one document that was excluded.
pub open spec fn failure_lines(failure: DocumentFailure) -> Seq<Seq<char>> {
    let judge = match failure.judge {
        Some(judge) => seq!["      judge: "@ + judge@],
        None => Seq::empty(),
    };
    seq!["  - "@ + failure.file@] + judge + paragraph("      "@, failure.error@, 82)
}

/// The lines of the documents that were excluded, one after the other.
pub open spec fn all_failure_lines(failures: Seq<DocumentFailure>) -> Seq<Seq<char>>
    decreases failures.len(),
{
    if failures.len() == 0 {
        Seq::empty()
    } else {
        all_failure_lines(failures.drop_last()) + failure_lines(failures.last())
    }
}

/// What is said before the documents that were excluded.
pub const EXCLUDED_NOTE: &'static str =
    "These could not be scored at all. They are harness failures, not judge scores, and the exit code is non-zero because of them. A judge scoring badly is a result, not a failure, and never lands here.";

/// The documents that could not be scored.
pub open spec fn excluded_lines(failures: Seq<DocumentFailure>) -> Seq<Seq<char>> {
    if failures.len() == 0 {
        Seq::empty()
    } else {
        seq![""@, "EXCLUDED DOCUMENTS ("@ + decimal(failures.len()) + ")"@] + paragraph(
            "  "@,
            EXCLUDED_NOTE@,
            86,
        ) + all_failure_lines(failures)
    }
}

fn failures_block(out: &mut Vec<String>, failures: &Vec<DocumentFailure>)
    ensures
        texts(final(out)@) == texts(old(out)@) + excluded_lines(failures@),
{
    if failures.len() == 0 {
        assert(texts(out@) + excluded_lines(failures@) =~= texts(out@));
        return;
    }
    let ghost start = texts(out@);
    push_text(out, "".to_owned());
    let mut line: String = "EXCLUDED DOCUMENTS (".to_owned();
    push_decimal(&mut line, failures.len() as u64);
    line.append(")");
    push_text(out, line);
    push_paragraph(out, "  ", EXCLUDED_NOTE, 86);
    let ghost head = texts(out@);
    let mut i: usize = 0;
    assert(head + all_failure_lines(failures@.take(0)) =~= head);
    while i < failures.len()
        invariant
            i <= failures@.len(),
            texts(out@) == head + all_failure_lines(failures@.take(i as int)),
        decreases failures@.len() - i,
    {
        let ghost before = texts(out@);
        let failure: &DocumentFailure = &failures[i];
        push_text(out, "  - ".to_owned().concat(failure.file.as_str()));
        if let Some(judge) = &failure.judge {
            push_text(out, "      judge: ".to_owned().concat(judge.as_str()));
        }
        push_paragraph(out, "      ", failure.error.as_str(), 82);
        proof {
            assert(failures@.take(i + 1).drop_last() =~= failures@.take(i as int));
            assert(failures@.take(i + 1).last() == *failure);
            assert(texts(out@) =~= before + failure_lines(*failure));
            assert(texts(out@) =~= head + all_failure_lines(failures@.take(i + 1)));
        }
        i += 1;
    }
    assert(failures@.take(i as int) =~= failures@);
    assert(texts(out@) =~= start + excluded_lines(failures@));
}

/// The raw error counts, the two kinds apart, and what truth says of the pages.
pub open spec fn errors_lines(group: GroupReport) -> Seq<Seq<char>> {
    seq![
        ""@,
        "ERRORS (raw counts; the two kinds are never added together)"@,
        "  missed OCR   "@ + counted(group.confusion.missed_ocr as nat, 5)
            + "   page needed OCR and did not get it"@,
        "                       -> silent quality failure: the document routes as text and the"@,
        "                          text is not there"@,
        "  wasted OCR   "@ + counted(group.confusion.wasted_ocr as nat, 5)
            + "   page did not need OCR and got it"@,
        "                       -> costs money and latency; the output is still correct"@,
        "  pages        "@ + counted(group.confusion.total() as nat, 5) + "   "@
            + decimal(group.confusion.needing() as nat) + " truly need OCR, "@
            + decimal(group.confusion.local() as nat) + " truly do not"@,
        "  documents    "@ + counted(group.documents as nat, 5) + "   "@
            + decimal(group.route_exact as nat)
            + " routed exactly (every page on the correct side)"@,
    ]
}

fn errors_block(out: &mut Vec<String>, group: &GroupReport)
    requires
        group.confusion.total() <= u32::MAX,
    ensures
        texts(final(out)@) == texts(old(out)@) + errors_lines(*group),
{
    let ghost start = texts(out@);
    push_text(out, "".to_owned());
    push_text(out, "ERRORS (raw counts; the two kinds are never added together)".to_owned());
    let mut line: String = "  missed OCR   ".to_owned();
    line.append(count(group.confusion.missed_ocr as u64, 5).as_str());
    line.append("   page needed OCR and did not get it");
    push_text(out, line);
    push_text(out, "                       -> silent quality failure: the document routes as text and the".to_owned());
    push_text(out, "                          text is not there".to_owned());
    let mut line: String = "  wasted OCR   ".to_owned();
    line.append(count(group.confusion.wasted_ocr as u64, 5).as_str());
    line.append("   page did not need OCR and got it");
    push_text(out, line);
    push_text(out, "                       -> costs money and latency; the output is still correct".to_owned());
    let mut line: String = "  pages        ".to_owned();
    line.append(count(group.confusion.pages() as u64, 5).as_str());
    line.append("   ");
    push_decimal(&mut line, group.confusion.truly_needs_ocr() as u64);
    line.append(" truly need OCR, ");
    push_decimal(&mut line, group.confusion.truly_local() as u64);
    line.append(" truly do not");
    push_text(out, line);
    let mut line: String = "  documents    ".to_owned();
    line.append(count(group.documents as u64, 5).as_str());
    line.append("   ");
    push_decimal(&mut line, group.route_exact as u64);
    line.append(" routed exactly (every page on the correct side)");
    push_text(out, line);
    assert(texts(out@) =~= start + errors_lines(*group));
}

/// The width of a column: the longest text in it, in bytes, and no less than `least`.
pub open spec fn column_width(entries: Seq<Seq<char>>, least: nat) -> nat
    decreases entries.len(),
{
    if entries.len() == 0 {
        least
    } else {
        let before = column_width(entries.drop_last(), least);
        let mine = byte_count(entries.last());
        if mine > before {
            mine
        } else {
            before
        }
    }
}

/// The file names of a list of rows.
pub open spec fn row_files(rows: Seq<DocumentReport>) -> Seq<Seq<char>> {
    rows.map_values(|row: DocumentReport| row.file@)
}

/// The line of one document.
pub open spec fn row_line(row: DocumentReport, figures: RowFigures, width: nat) -> Seq<char> {
    "  "@ + left_aligned(row.file@, width) + "  "@ + counted(row.page_count as nat, 5) + "  "@
        + left_aligned(row.pdf_type@, 12) + "  "@ + counted(row.confusion.missed_ocr as nat, 6)
        + "  "@ + counted(row.confusion.wasted_ocr as nat, 6) + "  "@ + (if row.route_exact {
        right_aligned("exact"@, 5)
    } else {
        right_aligned("OFF"@, 5)
    }) + "  "@ + right_aligned(figures.millis@, 9) + (match figures.delta {
        Some(delta) => "  ("@ + delta@ + " vs baseline)"@,
        None => ""@,
    })
}

/// The lines of one document: its counts, then the page numbers behind each count that is not
/// zero.
pub open spec fn row_lines(row: DocumentReport, figures: RowFigures, width: nat) -> Seq<Seq<char>> {
    let missed = if row.missed_ocr_pages@.len() == 0 {
        Seq::empty()
    } else {
        seq![
            "  "@ + spaces(width + 2) + "missed OCR on 0-indexed page(s) "@ + bracketed(
                row.missed_ocr_pages@,
            ),
        ]
    };
    let wasted = if row.wasted_ocr_pages@.len() == 0 {
        Seq::empty()
    } else {
        seq![
            "  "@ + spaces(width + 2) + "wasted OCR on 0-indexed page(s) "@ + bracketed(
                row.wasted_ocr_pages@,
            ),
        ]
    };
    seq![row_line(row, figures, width)] + missed + wasted
}

/// The lines of a list of documents, one after the other.
pub open spec fn all_row_lines(
    rows: Seq<DocumentReport>,
    figures: Seq<RowFigures>,
    width: nat,
) -> Seq<Seq<char>>
    decreases rows.len(),
{
    if rows.len() == 0 {
        Seq::empty()
    } else {
        all_row_lines(rows.drop_last(), figures.drop_last(), width) + row_lines(
            rows.last(),
            figures.last(),
            width,
        )
    }
}

/// The table of the documents.
pub open spec fn documents_lines(rows: Seq<DocumentReport>, figures: Seq<RowFigures>) -> Seq<
    Seq<char>,
> {
    if rows.len() == 0 {
        seq![""@, "PER DOCUMENT"@, "  (nothing scored)"@]
    } else {
        let width = column_width(row_files(rows), 8);
        seq![
            ""@,
            "PER DOCUMENT"@,
            "  "@ + left_aligned("document"@, width) + "  "@ + right_aligned("pages"@, 5) + "  "@
                + left_aligned("pdf_type"@, 12) + "  "@ + right_aligned("missed"@, 6) + "  "@
                + right_aligned("wasted"@, 6) + "  "@ + right_aligned("route"@, 5) + "  "@
                + right_aligned("ms"@, 9),
        ] + all_row_lines(rows, figures, width)
    }
}

/// A text filled up with spaces behind it to a width that may be larger than any text.
fn fill(s: &str, width: u128) -> (r: String)
    requires
        width <= 4 * usize::MAX,
    ensures
        r@ == left_aligned(s@, width as nat),
{
    let n: u128 = s.unicode_len() as u128;
    if n < width {
        s.to_owned().concat(wide_blanks(width - n).as_str())
    } else {
        s.to_owned()
    }
}

/// `n` spaces.
fn wide_blanks(n: u128) -> (r: String)
    ensures
        r@ == spaces(n as nat),
{
    let mut out: String = String::new();
    let mut i: u128 = 0;
    assert(out@ =~= spaces(0));
    while i < n
        invariant
            i <= n,
            out@ == spaces(i as nat),
        decreases n - i,
    {
        out.push(' ');
        assert(spaces(i as nat).push(' ') =~= spaces((i + 1) as nat));
        i += 1;
    }
    out
}

fn row_block(out: &mut Vec<String>, row: &DocumentReport, figures: &RowFigures, width: u128)
    requires
        width <= 4 * usize::MAX,
    ensures
        texts(final(out)@) == texts(old(out)@) + row_lines(*row, *figures, width as nat),
{
    let ghost start = texts(out@);
    let mut line: String = "  ".to_owned();
    line.append(fill(row.file.as_str(), width).as_str());
    line.append("  ");
    line.append(count(row.page_count as u64, 5).as_str());
    line.append("  ");
    line.append(align_left(row.pdf_type.as_str(), 12).as_str());
    line.append("  ");
    line.append(count(row.confusion.missed_ocr as u64, 6).as_str());
    line.append("  ");
    line.append(count(row.confusion.wasted_ocr as u64, 6).as_str());
    line.append("  ");
    if row.route_exact {
        line.append(align_right("exact", 5).as_str());
    } else {
        line.append(align_right("OFF", 5).as_str());
    }
    line.append("  ");
    line.append(align_right(figures.millis.as_str(), 9).as_str());
    if let Some(delta) = &figures.delta {
        line.append("  (");
        line.append(delta.as_str());
        line.append(" vs baseline)");
    }
    proof {
        reveal_strlit("");
        assert(line@ =~= row_line(*row, *figures, width as nat));
    }
    push_text(out, line);
    if row.missed_ocr_pages.len() > 0 {
        let mut line: String = "  ".to_owned();
        line.append(wide_blanks(width + 2).as_str());
        line.append("missed OCR on 0-indexed page(s) ");
        line.append(bracket_pages(row.missed_ocr_pages.as_slice()).as_str());
        push_text(out, line);
    }
    if row.wasted_ocr_pages.len() > 0 {
        let mut line: String = "  ".to_owned();
        line.append(wide_blanks(width + 2).as_str());
        line.append("wasted OCR on 0-indexed page(s) ");
        line.append(bracket_pages(row.wasted_ocr_pages.as_slice()).as_str());
        push_text(out, line);
    }
    assert(texts(out@) =~= start + row_lines(*row, *figures, width as nat));
}

fn documents_block(out: &mut Vec<String>, rows: &Vec<DocumentReport>, figures: &Vec<RowFigures>)
    requires
        rows@.len() == figures@.len(),
    ensures
        texts(final(out)@) == texts(old(out)@) + documents_lines(rows@, figures@),
{
    let ghost start = texts(out@);
    push_text(out, "".to_owned());
    push_text(out, "PER DOCUMENT".to_owned());
    if rows.len() == 0 {
        push_text(out, "  (nothing scored)".to_owned());
        assert(texts(out@) =~= start + documents_lines(rows@, figures@));
        return;
    }
    let ghost files = row_files(rows@);
    let mut width: u128 = 8;
    let mut k: usize = 0;
    assert(files.take(0) =~= Seq::empty());
    while k < rows.len()
        invariant
            k <= rows@.len(),
            files == row_files(rows@),
            8 <= width <= 4 * usize::MAX,
            width == column_width(files.take(k as int), 8),
        decreases rows@.len() - k,
    {
        assert(files.take(k + 1).drop_last() =~= files.take(k as int));
        assert(files.take(k + 1).last() == rows@[k as int].file@);
        let mine: u128 = byte_len(rows[k].file.as_str());
        if mine > width {
            width = mine;
        }
        k += 1;
    }
    assert(files.take(k as int) =~= files);
    let mut line: String = "  ".to_owned();
    line.append(fill("document", width).as_str());
    line.append("  ");
    line.append(align_right("pages", 5).as_str());
    line.append("  ");
    line.append(align_left("pdf_type", 12).as_str());
    line.append("  ");
    line.append(align_right("missed", 6).as_str());
    line.append("  ");
    line.append(align_right("wasted", 6).as_str());
    line.append("  ");
    line.append(align_right("route", 5).as_str());
    line.append("  ");
    line.append(align_right("ms", 9).as_str());
    push_text(out, line);
    let ghost head = texts(out@);
    let mut i: usize = 0;
    assert(head + all_row_lines(rows@.take(0), figures@.take(0), width as nat) =~= head);
    while i < rows.len()
        invariant
            i <= rows@.len() == figures@.len(),
            width <= 4 * usize::MAX,
            texts(out@) == head + all_row_lines(
                rows@.take(i as int),
                figures@.take(i as int),
                width as nat,
            ),
        decreases rows@.len() - i,
    {
        let ghost before = texts(out@);
        row_block(out, &rows[i], &figures[i], width);
        proof {
            assert(rows@.take(i + 1).drop_last() =~= rows@.take(i as int));
            assert(figures@.take(i + 1).drop_last() =~= figures@.take(i as int));
            assert(rows@.take(i + 1).last() == rows@[i as int]);
            assert(figures@.take(i + 1).last() == figures@[i as int]);
            assert(texts(out@) =~= head + all_row_lines(
                rows@.take(i + 1),
                figures@.take(i + 1),
                width as nat,
            ));
        }
        i += 1;
    }
    assert(rows@.take(i as int) =~= rows@);
    assert(figures@.take(i as int) =~= figures@);
    assert(texts(out@) =~= start + documents_lines(rows@, figures@));
}

/// The sources of a list of groups.
pub open spec fn group_sources(groups: Seq<GroupReport>) -> Seq<Seq<char>> {
    groups.map_values(|g: GroupReport| g.source@)
}

/// How many of a group's documents routed exactly.
pub open spec fn exact_share(group: GroupReport) -> Seq<char> {
    decimal(group.route_exact as nat) + "/"@ + decimal(group.documents as nat)
}

/// The line of one group.
pub open spec fn group_line(group: GroupReport, width: nat) -> Seq<char> {
    "  "@ + left_aligned(group.source@, width) + "  "@ + counted(group.documents as nat, 4) + "  "@
        + counted(group.confusion.total() as nat, 5) + "  "@
        + counted(group.confusion.missed_ocr as nat, 6) + "  "@
        + counted(group.confusion.wasted_ocr as nat, 6) + "  "@
        + right_aligned(exact_share(group), 11)
}

/// The table of the groups.
pub open spec fn sources_lines(groups: Seq<GroupReport>) -> Seq<Seq<char>> {
    let width = column_width(group_sources(groups), 6);
    seq![
        ""@,
        "BY SOURCE"@,
        "  "@ + left_aligned("source"@, width) + "  "@ + right_aligned("docs"@, 4) + "  "@
            + right_aligned("pages"@, 5) + "  "@ + right_aligned("missed"@, 6) + "  "@
            + right_aligned("wasted"@, 6) + "  "@ + right_aligned("route exact"@, 11),
    ] + groups.map_values(|g: GroupReport| group_line(g, width))
}

fn sources_block(out: &mut Vec<String>, groups: &Vec<GroupReport>)
    requires
        forall|i: int|
            0 <= i < groups@.len() ==> (#[trigger] groups@[i]).confusion.total() <= u32::MAX,
    ensures
        texts(final(out)@) == texts(old(out)@) + sources_lines(groups@),
{
    let ghost start = texts(out@);
    push_text(out, "".to_owned());
    push_text(out, "BY SOURCE".to_owned());
    let ghost names = group_sources(groups@);
    let mut width: u128 = 6;
    let mut k: usize = 0;
    assert(names.take(0) =~= Seq::empty());
    while k < groups.len()
        invariant
            k <= groups@.len(),
            names == group_sources(groups@),
            6 <= width <= 4 * usize::MAX,
            width == column_width(names.take(k as int), 6),
        decreases groups@.len() - k,
    {
        assert(names.take(k + 1).drop_last() =~= names.take(k as int));
        assert(names.take(k + 1).last() == groups@[k as int].source@);
        let mine: u128 = byte_len(groups[k].source.as_str());
        if mine > width {
            width = mine;
        }
        k += 1;
    }
    assert(names.take(k as int) =~= names);
    let mut line: String = "  ".to_owned();
    line.append(fill("source", width).as_str());
    line.append("  ");
    line.append(align_right("docs", 4).as_str());
    line.append("  ");
    line.append(align_right("pages", 5).as_str());
    line.append("  ");
    line.append(align_right("missed", 6).as_str());
    line.append("  ");
    line.append(align_right("wasted", 6).as_str());
    line.append("  ");
    line.append(align_right("route exact", 11).as_str());
    push_text(out, line);
    let ghost head = texts(out@);
    let ghost more = groups@.map_values(|g: GroupReport| group_line(g, width as nat));
    let mut i: usize = 0;
    assert(head + more.take(0) =~= head);
    while i < groups.len()
        invariant
            i <= groups@.len(),
            width <= 4 * usize::MAX,
            forall|i: int|
                0 <= i < groups@.len() ==> (#[trigger] groups@[i]).confusion.total() <= u32::MAX,
            more == groups@.map_values(|g: GroupReport| group_line(g, width as nat)),
            texts(out@) == head + more.take(i as int),
        decreases groups@.len() - i,
    {
        let group: &GroupReport = &groups[i];
        let mut line: String = "  ".to_owned();
        line.append(fill(group.source.as_str(), width).as_str());
        line.append("  ");
        line.append(count(group.documents as u64, 4).as_str());
        line.append("  ");
        line.append(count(group.confusion.pages() as u64, 5).as_str());
        line.append("  ");
        line.append(count(group.confusion.missed_ocr as u64, 6).as_str());
        line.append("  ");
        line.append(count(group.confusion.wasted_ocr as u64, 6).as_str());
        line.append("  ");
        let mut share: String = decimal_text(group.route_exact as u64);
        share.append("/");
        push_decimal(&mut share, group.documents as u64);
        line.append(align_right(share.as_str(), 11).as_str());
        assert(more[i as int] == line@) by {
            assert(line@ =~= group_line(*group, width as nat));
        }
        push_text(out, line);
        assert(texts(out@) =~= head + more.take(i + 1));
        i += 1;
    }
    assert(more.take(i as int) =~= more);
    assert(texts(out@) =~= start + sources_lines(groups@));
}

/// A rate as it prints, or why there is none: an empty denominator is no zero.
pub open spec fn rate(value: Option<String>, why: Seq<char>) -> Seq<char> {
    match value {
        Some(value) => right_aligned(value@, 6),
        None => right_aligned("n/a ("@ + why + ")"@, 6),
    }
}

fn show_rate(value: &Option<String>, why: &str) -> (r: String)
    ensures
        r@ == rate(*value, why@),
{
    match value {
        Some(value) => align_right(value.as_str(), 6),
        None => {
            let mut text: String = "n/a (".to_owned();
            text.append(why);
            text.append(")");
            align_right(text.as_str(), 6)
        },
    }
}

/// The derived rates.
pub open spec fn rates_lines(figures: JudgeFigures) -> Seq<Seq<char>> {
    seq![
        ""@,
        "DERIVED RATES (from the counts above)"@,
        "  precision  "@ + rate(figures.precision, "no pages routed to OCR"@)
            + "   of the pages routed to OCR, the share that needed it"@,
        "  recall     "@ + rate(figures.recall, "no page needed OCR"@)
            + "   of the pages needing OCR, the share that got it"@,
        "  f1         "@ + rate(figures.f1, "undefined without both"@)
            + "   their harmonic mean; it hides which of the two failed,"@,
        "                      so read the counts above first"@,
    ]
}

fn rates_block(out: &mut Vec<String>, figures: &JudgeFigures)
    ensures
        texts(final(out)@) == texts(old(out)@) + rates_lines(*figures),
{
    let ghost start = texts(out@);
    push_text(out, "".to_owned());
    push_text(out, "DERIVED RATES (from the counts above)".to_owned());
    let mut line: String = "  precision  ".to_owned();
    line.append(show_rate(&figures.precision, "no pages routed to OCR").as_str());
    line.append("   of the pages routed to OCR, the share that needed it");
    push_text(out, line);
    let mut line: String = "  recall     ".to_owned();
    line.append(show_rate(&figures.recall, "no page needed OCR").as_str());
    line.append("   of the pages needing OCR, the share that got it");
    push_text(out, line);
    let mut line: String = "  f1         ".to_owned();
    line.append(show_rate(&figures.f1, "undefined without both").as_str());
    line.append("   their harmonic mean; it hides which of the two failed,");
    push_text(out, line);
    push_text(out, "                      so read the counts above first".to_owned());
    assert(texts(out@) =~= start + rates_lines(*figures));
}

/// What the routing buys, and at what price.
pub open spec fn bill_lines(cost_per_page: Seq<char>, cost: Cost, money: CostFigures) -> Seq<
    Seq<char>,
> {
    seq![
        ""@,
        "COST ("@ + cost_per_page + " per OCR page)"@,
        "  OCR pages routed   "@ + counted(cost.ocr_pages as nat, 5) + "   ideal "@
            + counted(cost.ideal_ocr_pages as nat, 5),
        "  overspend          "@ + counted(cost.overspend_pages as nat, 5) + " page(s)  "@
            + right_aligned(money.overspend@, 10) + "   paid for OCR that was not needed"@,
        "  underspend         "@ + counted(cost.underspend_pages as nat, 5) + " page(s)  "@
            + right_aligned(money.underspend@, 10) + "   the quality failure priced: OCR that"@,
        "                                                 was needed and not bought. Not a"@,
        "                                                 saving, and never netted off the"@,
        "                                                 overspend above."@,
    ]
}

fn bill_block(out: &mut Vec<String>, cost_per_page: &str, cost: &Cost, money: &CostFigures)
    ensures
        texts(final(out)@) == texts(old(out)@) + bill_lines(cost_per_page@, *cost, *money),
{
    let ghost start = texts(out@);
    push_text(out, "".to_owned());
    let mut line: String = "COST (".to_owned();
    line.append(cost_per_page);
    line.append(" per OCR page)");
    push_text(out, line);
    let mut line: String = "  OCR pages routed   ".to_owned();
    line.append(count(cost.ocr_pages as u64, 5).as_str());
    line.append("   ideal ");
    line.append(count(cost.ideal_ocr_pages as u64, 5).as_str());
    push_text(out, line);
    let mut line: String = "  overspend          ".to_owned();
    line.append(count(cost.overspend_pages as u64, 5).as_str());
    line.append(" page(s)  ");
    line.append(align_right(money.overspend.as_str(), 10).as_str());
    line.append("   paid for OCR that was not needed");
    push_text(out, line);
    let mut line: String = "  underspend         ".to_owned();
    line.append(count(cost.underspend_pages as u64, 5).as_str());
    line.append(" page(s)  ");
    line.append(align_right(money.underspend.as_str(), 10).as_str());
    line.append("   the quality failure priced: OCR that");
    push_text(out, line);
    push_text(out, "                                                 was needed and not bought. Not a".to_owned());
    push_text(out, "                                                 saving, and never netted off the".to_owned());
    push_text(out, "                                                 overspend above.".to_owned());
    assert(texts(out@) =~= start + bill_lines(cost_per_page@, *cost, *money));
}

/// The sentence that stops a saving being read on its own: past the ceiling the excess is OCR
/// that was needed and not bought.
pub open spec fn verdict_text(cost: Cost, money: CostFigures) -> Seq<char> {
    if cost.saving_beyond_ceiling_pages > 0 {
        "-> this judge saves "@ + money.beyond_ceiling@
            + " MORE than the ceiling, which no correct router can do. The excess is "@
            + decimal(cost.underspend_pages as nat)
            + " page(s) of OCR it needed and did not buy, less "@
            + decimal(cost.overspend_pages as nat) + " page(s) it bought and did not need. Those "@
            + decimal(cost.underspend_pages as nat)
            + " page(s) are silent quality failures, not savings, and they are why this row looks frugal."@
    } else if cost.saving_beyond_ceiling_pages < 0 {
        "-> this judge saves "@ + money.short_of_ceiling@
            + " less than the ceiling. That shortfall is the overspend above: "@
            + decimal(cost.overspend_pages as nat)
            + " page(s) of OCR bought and not needed. It costs money and the output is still correct."@
    } else if cost.underspend_pages == 0 && cost.overspend_pages == 0 {
        "-> this judge is on the ceiling and made no error of either kind: the best a router can do on this corpus."@
    } else {
        "-> this judge lands exactly on the ceiling and is NOT exact: "@
            + decimal(cost.underspend_pages as nat) + " missed page(s) and "@
            + decimal(cost.overspend_pages as nat)
            + " wasted page(s) are the same size, so they cancel in the bill and do not cancel in the output. Read the error counts above, not this line."@
    }
}

/// The sentence that stops a saving being read on its own.
pub fn ceiling_verdict(cost: &Cost, money: &CostFigures) -> (r: String)
    ensures
        r@ == verdict_text(*cost, *money),
{
    if cost.saving_beyond_ceiling_pages > 0 {
        let mut text: String = "-> this judge saves ".to_owned();
        text.append(money.beyond_ceiling.as_str());
        text.append(" MORE than the ceiling, which no correct router can do. The excess is ");
        push_decimal(&mut text, cost.underspend_pages as u64);
        text.append(" page(s) of OCR it needed and did not buy, less ");
        push_decimal(&mut text, cost.overspend_pages as u64);
        text.append(" page(s) it bought and did not need. Those ");
        push_decimal(&mut text, cost.underspend_pages as u64);
        text.append(" page(s) are silent quality failures, not savings, and they are why this row looks frugal.");
        text
    } else if cost.saving_beyond_ceiling_pages < 0 {
        let mut text: String = "-> this judge saves ".to_owned();
        text.append(money.short_of_ceiling.as_str());
        text.append(" less than the ceiling. That shortfall is the overspend above: ");
        push_decimal(&mut text, cost.overspend_pages as u64);
        text.append(" page(s) of OCR bought and not needed. It costs money and the output is still correct.");
        text
    } else if cost.underspend_pages == 0 && cost.overspend_pages == 0 {
        "-> this judge is on the ceiling and made no error of either kind: the best a router can do on this corpus.".to_owned()
    } else {
        let mut text: String = "-> this judge lands exactly on the ceiling and is NOT exact: ".to_owned();
        push_decimal(&mut text, cost.underspend_pages as u64);
        text.append(" missed page(s) and ");
        push_decimal(&mut text, cost.overspend_pages as u64);
        text.append(" wasted page(s) are the same size, so they cancel in the bill and do not cancel in the output. Read the error counts above, not this line.");
        text
    }
}

/// What the routing saved against OCR-ing every page, next to the most a correct router could.
pub open spec fn savings_lines(cost: Cost, money: CostFigures) -> Seq<Seq<char>> {
    let head = seq![
        ""@,
        "  VS OCR EVERYTHING (the baseline that needs no judge and never misses a page)"@,
    ];
    if cost.all_pages == 0 {
        head + seq!["    n/a (nothing was scored, so there is no bill to compare against)"@]
    } else {
        head + seq![
            "    OCR everything   "@ + counted(cost.all_pages as nat, 5) + " page(s)  "@
                + right_aligned(money.naive@, 10),
            "    this judge       "@ + counted(cost.ocr_pages as nat, 5) + " page(s)  "@
                + right_aligned(money.routed@, 10) + "   "@
                + rate(money.routed_share, "nothing scored"@) + " of the naive bill"@,
            "    saved            "@ + counted((cost.all_pages - cost.ocr_pages) as nat, 5)
                + " page(s)  "@ + right_aligned(money.saving@, 10),
            "    ceiling          "@ + counted((cost.all_pages - cost.ideal_ocr_pages) as nat, 5)
                + " page(s)  "@ + right_aligned(money.ceiling_saving@, 10)
                + "   the most a router that agreed with"@,
            "                                                 truth on every page could save; it"@,
            "                                                 still has to buy the "@
                + decimal(cost.ideal_ocr_pages as nat) + " page(s)"@,
            "                                                 that truly need OCR"@,
        ] + paragraph("    "@, verdict_text(cost, money), 82)
    }
}

fn savings_block(out: &mut Vec<String>, cost: &Cost, money: &CostFigures)
    requires
        sound_cost(*cost),
    ensures
        texts(final(out)@) == texts(old(out)@) + savings_lines(*cost, *money),
{
    let ghost start = texts(out@);
    push_text(out, "".to_owned());
    push_text(
        out,
        "  VS OCR EVERYTHING (the baseline that needs no judge and never misses a page)".to_owned(),
    );
    if cost.all_pages == 0 {
        push_text(
            out,
            "    n/a (nothing was scored, so there is no bill to compare against)".to_owned(),
        );
        assert(texts(out@) =~= start + savings_lines(*cost, *money));
        return;
    }
    let mut line: String = "    OCR everything   ".to_owned();
    line.append(count(cost.all_pages as u64, 5).as_str());
    line.append(" page(s)  ");
    line.append(align_right(money.naive.as_str(), 10).as_str());
    push_text(out, line);
    let mut line: String = "    this judge       ".to_owned();
    line.append(count(cost.ocr_pages as u64, 5).as_str());
    line.append(" page(s)  ");
    line.append(align_right(money.routed.as_str(), 10).as_str());
    line.append("   ");
    line.append(show_rate(&money.routed_share, "nothing scored").as_str());
    line.append(" of the naive bill");
    push_text(out, line);
    let mut line: String = "    saved            ".to_owned();
    line.append(count((cost.all_pages - cost.ocr_pages) as u64, 5).as_str());
    line.append(" page(s)  ");
    line.append(align_right(money.saving.as_str(), 10).as_str());
    push_text(out, line);
    let mut line: String = "    ceiling          ".to_owned();
    line.append(count((cost.all_pages - cost.ideal_ocr_pages) as u64, 5).as_str());
    line.append(" page(s)  ");
    line.append(align_right(money.ceiling_saving.as_str(), 10).as_str());
    line.append("   the most a router that agreed with");
    push_text(out, line);
    push_text(out, "                                                 truth on every page could save; it".to_owned());
    let mut line: String = "                                                 still has to buy the ".to_owned();
    push_decimal(&mut line, cost.ideal_ocr_pages as u64);
    line.append(" page(s)");
    push_text(out, line);
    push_text(out, "                                                 that truly need OCR".to_owned());
    push_paragraph(out, "    ", ceiling_verdict(cost, money).as_str(), 82);
    assert(texts(out@) =~= start + savings_lines(*cost, *money));
}

/// What is said of a judge without token data.
pub const NO_TOKEN_DATA: &'static str =
    "tokens   n/a (this judge reports no token usage to the harness, so its own cost is unknown here -- which is not the same as free. The baseline makes no calls at all; a judge that does and cannot account for them would print this too.)";

/// What is said of a judge that made no call.
pub const NO_CALLS: &'static str =
    "calls    0 -- this judge made no call on this run, so it used nothing and cost nothing. This zero is a measurement.";

/// What is said of a saving past the ceiling that something was netted off.
pub const INHERITED: &'static str =
    "-> this nets off a saving that is already above the ceiling, so it inherits that problem: paying less for a judge that under-buys OCR does not make the under-buying cheaper.";

/// What is said where the saving stands alone.
pub const NOT_NET: &'static str = "    net      n/a (the saving above is not net of the judge)";

/// What is said where calls came back without a usage figure.
pub open spec fn floor_text(spend: JudgeSpend) -> Seq<char> {
    "-> "@ + decimal((spend.calls - spend.calls_reporting_usage) as nat) + " of "@
        + decimal(spend.calls as nat)
        + " call(s) came back with no usage attached, so the token counts and every figure derived from them are a floor and not a total."@
}

/// What is said where no token price was given.
pub open spec fn unpriced_text(spend: JudgeSpend) -> Seq<char> {
    "cost     n/a (no --cost-per-million-input-tokens was given, so the "@
        + decimal(spend.input_tokens as nat)
        + " input token(s) above are counted and not priced; no vendor's rate is baked in here either)"@
}

/// What the calls used.
pub open spec fn usage_lines(spend: JudgeSpend) -> Seq<Seq<char>> {
    if spend.calls == 0 {
        paragraph("    "@, NO_CALLS@, 82)
    } else {
        let counts = seq![
            "    calls    "@ + counted(spend.calls as nat, 10)
                + "   over the whole run, every --repeat included"@,
            "    input    "@ + counted(spend.input_tokens as nat, 10) + " token(s)"@
                + (if spend.usage_complete { ""@ } else { "  (a floor)"@ }),
            "    output   "@ + counted(spend.output_tokens as nat, 10)
                + " token(s)  counted, not priced"@,
        ];
        if spend.usage_complete {
            counts
        } else {
            counts + paragraph("    "@, floor_text(spend), 82)
        }
    }
}

/// What the calls cost, and the saving net of it.
pub open spec fn net_lines(spend: JudgeSpend, cost: Cost, money: CostFigures) -> Seq<Seq<char>> {
    if spend.cost == SpendCost::Unknown {
        paragraph("    "@, unpriced_text(spend), 82).push(NOT_NET@)
    } else {
        let bill = seq!["    cost     "@ + right_aligned(money.judge_cost@, 10)];
        if cost.all_pages == 0 {
            bill.push("    net      n/a (nothing was scored, so there is no saving to net it off)"@)
        } else {
            let net = bill.push(
                "    net      "@ + right_aligned(money.net@, 10) + "   saved on OCR ("@
                    + money.saving@ + ") less the judge's own cost"@,
            );
            if cost.saving_beyond_ceiling_pages > 0 {
                net + paragraph("    "@, INHERITED@, 82)
            } else {
                net
            }
        }
    }
}

/// What the judge itself cost, and the saving net of it. A judge with no token data is not a
/// judge that used no tokens.
pub open spec fn spend_lines(
    spend: Option<JudgeSpend>,
    cost: Cost,
    money: CostFigures,
) -> Seq<Seq<char>> {
    let head = seq![""@, "  THE JUDGE ITSELF (its own calls, not the OCR it buys)"@];
    match spend {
        None => head + paragraph("    "@, NO_TOKEN_DATA@, 82) + seq![NOT_NET@],
        Some(spend) => head + usage_lines(spend) + net_lines(spend, cost, money),
    }
}

fn usage_block(out: &mut Vec<String>, spend: &JudgeSpend)
    requires
        spend.calls_reporting_usage <= spend.calls,
    ensures
        texts(final(out)@) == texts(old(out)@) + usage_lines(*spend),
{
    let ghost start = texts(out@);
    if spend.calls == 0 {
        push_paragraph(out, "    ", NO_CALLS, 82);
        return;
    }
    let mut line: String = "    calls    ".to_owned();
    line.append(count(spend.calls as u64, 10).as_str());
    line.append("   over the whole run, every --repeat included");
    push_text(out, line);
    let mut line: String = "    input    ".to_owned();
    line.append(count(spend.input_tokens as u64, 10).as_str());
    line.append(" token(s)");
    line.append(if spend.usage_complete { "" } else { "  (a floor)" });
    push_text(out, line);
    let mut line: String = "    output   ".to_owned();
    line.append(count(spend.output_tokens as u64, 10).as_str());
    line.append(" token(s)  counted, not priced");
    push_text(out, line);
    if !spend.usage_complete {
        let mut text: String = "-> ".to_owned();
        push_decimal(&mut text, (spend.calls - spend.calls_reporting_usage) as u64);
        text.append(" of ");
        push_decimal(&mut text, spend.calls as u64);
        text.append(" call(s) came back with no usage attached, so the token counts and every figure derived from them are a floor and not a total.");
        assert(text@ =~= floor_text(*spend));
        push_paragraph(out, "    ", text.as_str(), 82);
    }
    assert(texts(out@) =~= start + usage_lines(*spend));
}

fn net_block(out: &mut Vec<String>, spend: &JudgeSpend, cost: &Cost, money: &CostFigures)
    ensures
        texts(final(out)@) == texts(old(out)@) + net_lines(*spend, *cost, *money),
{
    let ghost start = texts(out@);
    match spend.cost {
        SpendCost::Unknown => {
            let mut text: String = "cost     n/a (no --cost-per-million-input-tokens was given, so the ".to_owned();
            push_decimal(&mut text, spend.input_tokens);
            text.append(" input token(s) above are counted and not priced; no vendor's rate is baked in here either)");
            assert(text@ =~= unpriced_text(*spend));
            push_paragraph(out, "    ", text.as_str(), 82);
            push_text(out, NOT_NET.to_owned());
        },
        _ => {
            let mut line: String = "    cost     ".to_owned();
            line.append(align_right(money.judge_cost.as_str(), 10).as_str());
            push_text(out, line);
            if cost.all_pages == 0 {
                push_text(
                    out,
                    "    net      n/a (nothing was scored, so there is no saving to net it off)".to_owned(),
                );
            } else {
                let mut line: String = "    net      ".to_owned();
                line.append(align_right(money.net.as_str(), 10).as_str());
                line.append("   saved on OCR (");
                line.append(money.saving.as_str());
                line.append(") less the judge's own cost");
                push_text(out, line);
                if cost.saving_beyond_ceiling_pages > 0 {
                    push_paragraph(out, "    ", INHERITED, 82);
                }
            }
        },
    }
    assert(texts(out@) =~= start + net_lines(*spend, *cost, *money));
}

fn judge_spend_block(
    out: &mut Vec<String>,
    spend: &Option<JudgeSpend>,
    cost: &Cost,
    money: &CostFigures,
)
    requires
        spend matches Some(spend) ==> spend.calls_reporting_usage <= spend.calls,
    ensures
        texts(final(out)@) == texts(old(out)@) + spend_lines(*spend, *cost, *money),
{
    let ghost start = texts(out@);
    push_text(out, "".to_owned());
    push_text(out, "  THE JUDGE ITSELF (its own calls, not the OCR it buys)".to_owned());
    match spend {
        None => {
            push_paragraph(out, "    ", NO_TOKEN_DATA, 82);
            push_text(out, NOT_NET.to_owned());
        },
        Some(spend) => {
            usage_block(out, spend);
            net_block(out, spend, cost, money);
        },
    }
    assert(texts(out@) =~= start + spend_lines(*spend, *cost, *money));
}

/// The times.
pub open spec fn latency_lines(
    figures: JudgeFigures,
    baseline: bool,
    repeat: u32,
    documents: nat,
) -> Seq<Seq<char>> {
    let times = seq![
        ""@,
        "LATENCY (classify_ms; each document's median of "@ + decimal(repeat as nat)
            + " run(s), then across "@ + decimal(documents) + " document(s))"@,
        "  p50 "@ + figures.p50@ + " ms   p95 "@ + figures.p95@ + " ms   max "@ + figures.slowest@
            + " ms"@,
    ];
    match figures.overhead {
        Some(overhead) => times.push(
            "  judge overhead vs baseline: "@ + overhead@
                + " ms (median of the per-document differences)"@,
        ),
        None => if baseline {
            times.push("  judge overhead vs baseline: 0 by definition -- this is the baseline"@)
        } else {
            times
        },
    }
}

fn latency_block(
    out: &mut Vec<String>,
    figures: &JudgeFigures,
    baseline: bool,
    repeat: u32,
    documents: usize,
)
    ensures
        texts(final(out)@) == texts(old(out)@) + latency_lines(
            *figures,
            baseline,
            repeat,
            documents as nat,
        ),
{
    let ghost start = texts(out@);
    push_text(out, "".to_owned());
    let mut line: String = "LATENCY (classify_ms; each document's median of ".to_owned();
    push_decimal(&mut line, repeat as u64);
    line.append(" run(s), then across ");
    push_decimal(&mut line, documents as u64);
    line.append(" document(s))");
    push_text(out, line);
    let mut line: String = "  p50 ".to_owned();
    line.append(figures.p50.as_str());
    line.append(" ms   p95 ");
    line.append(figures.p95.as_str());
    line.append(" ms   max ");
    line.append(figures.slowest.as_str());
    line.append(" ms");
    push_text(out, line);
    match &figures.overhead {
        Some(overhead) => {
            let mut line: String = "  judge overhead vs baseline: ".to_owned();
            line.append(overhead.as_str());
            line.append(" ms (median of the per-document differences)");
            push_text(out, line);
        },
        None => {
            if baseline {
                push_text(
                    out,
                    "  judge overhead vs baseline: 0 by definition -- this is the baseline".to_owned(),
                );
            }
        },
    }
    assert(texts(out@) =~= start + latency_lines(*figures, baseline, repeat, documents as nat));
}

/// Why a judge's confidences were not calibrated.
pub open spec fn skipped_calibration(constant_short: Option<String>) -> Seq<char> {
    match constant_short {
        Some(value) => "every verdict carried the same confidence ("@ + value@
           
                + "), so there is nothing to calibrate: one value cannot be split into buckets and scores only itself"@,
        None => "no verdicts were scored"@,
    }
}

/// Why a judge's confidences were not calibrated.
pub fn skipped_reason(constant_short: &Option<String>) -> (r: String)
    ensures
        r@ == skipped_calibration(*constant_short),
{
    match constant_short {
        Some(value) => {
            let mut text: String = "every verdict carried the same confidence (".to_owned();
            text.append(value.as_str());
            text.append(
                "), so there is nothing to calibrate: one value cannot be split into buckets and scores only itself",
            );
            text
        },
        None => "no verdicts were scored".to_owned(),
    }
}

/// The edge of a bucket: tenths, to one place.
pub open spec fn edge(tenths: nat) -> Seq<char> {
    if tenths >= 10 {
        "1.0"@
    } else {
        "0."@ + decimal(tenths)
    }
}

fn show_edge(tenths: usize) -> (r: String)
    ensures
        r@ == edge(tenths as nat),
{
    if tenths >= 10 {
        "1.0".to_owned()
    } else {
        "0.".to_owned().concat(decimal_text(tenths as u64).as_str())
    }
}

/// The line of one bucket. Only the last one holds its upper edge.
pub open spec fn bucket_line(bucket: ReliabilityBucket, figures: BucketFigures) -> Seq<char> {
    "  ["@ + edge(bucket.index as nat) + ", "@ + edge((bucket.index + 1) as nat) + (
    if bucket.index + 1 >= RELIABILITY_BUCKETS {
        "]"@
    } else {
        ")"@
    }) + "  "@ + counted(bucket.count as nat, 7) + "  "@ + counted(bucket.correct as nat, 7) + "  "@
        + right_aligned(figures.accuracy@, 8) + "  "@ + right_aligned(figures.mean_confidence@, 10)
}

/// The line of one distinct confidence value.
pub open spec fn value_line(value: ConfidenceValue, shown: String) -> Seq<char> {
    "    "@ + shown@ + "  x"@ + decimal(value.count as nat)
}

/// The lines of the distinct confidence values.
pub open spec fn value_lines(values: Seq<ConfidenceValue>, shown: Seq<String>) -> Seq<Seq<char>> {
    Seq::new(values.len(), |i: int| value_line(values[i], shown[i]))
}

/// The lines of the buckets.
pub open spec fn bucket_lines(
    buckets: Seq<ReliabilityBucket>,
    figures: Seq<BucketFigures>,
) -> Seq<Seq<char>> {
    Seq::new(buckets.len(), |i: int| bucket_line(buckets[i], figures[i]))
}

/// What is said where the confidences cannot be calibrated.
pub open spec fn degenerate_lines(figures: JudgeFigures) -> Seq<Seq<char>> {
    let what = match figures.constant {
        Some(value) => "  degenerate -- constant "@ + value@,
        None => "  degenerate -- no verdicts"@,
    };
    seq![what] + paragraph("  "@, skipped_calibration(figures.constant_short), 88)
}

/// The reliability table and the Brier score.
pub open spec fn reliability_lines(
    confidence: ConfidenceReport,
    figures: JudgeFigures,
) -> Seq<Seq<char>> {
    let table = seq![
        ""@,
        "  RELIABILITY (does a confidence of c mean it is right about c of the time?)"@,
        "  "@ + left_aligned("bucket"@, 14) + "  "@ + right_aligned("pages"@, 7) + "  "@
            + right_aligned("correct"@, 7) + "  "@ + right_aligned("accuracy"@, 8) + "  "@
            + right_aligned("mean conf"@, 10),
    ] + bucket_lines(confidence.buckets@, figures.buckets@);
    match figures.brier {
        Some(brier) => table.push(
            "  Brier "@ + brier@
               
                    + " (mean squared error of the confidence against whether that verdict was right; 0 is perfect, 0.25 is a coin flip stated at 0.5)"@,
        ),
        None => table,
    }
}

/// What can be said of the confidences.
pub open spec fn confidence_lines(
    confidence: ConfidenceReport,
    figures: JudgeFigures,
) -> Seq<Seq<char>> {
    let head = seq![
        ""@,
        "CONFIDENCE"@,
        "  "@ + decimal(confidence.distinct@.len()) + " distinct value(s) over "@ + decimal(
            confidence.verdicts as nat,
        ) + " verdict(s)"@,
    ] + value_lines(confidence.distinct@, figures.distinct@);
    if confidence.degenerate {
        head + degenerate_lines(figures)
    } else {
        head + reliability_lines(confidence, figures)
    }
}

fn reliability_block(out: &mut Vec<String>, confidence: &ConfidenceReport, figures: &JudgeFigures)
    requires
        figures.buckets@.len() == confidence.buckets@.len(),
        forall|i: int|
            0 <= i < confidence.buckets@.len() ==> (#[trigger] confidence.buckets@[i]).index
                < RELIABILITY_BUCKETS,
    ensures
        texts(final(out)@) == texts(old(out)@) + reliability_lines(*confidence, *figures),
{
    let ghost start = texts(out@);
    push_text(out, "".to_owned());
    push_text(
        out,
        "  RELIABILITY (does a confidence of c mean it is right about c of the time?)".to_owned(),
    );
    let mut line: String = "  ".to_owned();
    line.append(align_left("bucket", 14).as_str());
    line.append("  ");
    line.append(align_right("pages", 7).as_str());
    line.append("  ");
    line.append(align_right("correct", 7).as_str());
    line.append("  ");
    line.append(align_right("accuracy", 8).as_str());
    line.append("  ");
    line.append(align_right("mean conf", 10).as_str());
    push_text(out, line);
    let ghost head = texts(out@);
    let ghost more = bucket_lines(confidence.buckets@, figures.buckets@);
    let mut i: usize = 0;
    assert(head + more.take(0) =~= head);
    while i < confidence.buckets.len()
        invariant
            i <= confidence.buckets@.len() == figures.buckets@.len(),
            forall|i: int|
                0 <= i < confidence.buckets@.len() ==> (#[trigger] confidence.buckets@[i]).index
                    < RELIABILITY_BUCKETS,
            more == bucket_lines(confidence.buckets@, figures.buckets@),
            texts(out@) == head + more.take(i as int),
        decreases confidence.buckets@.len() - i,
    {
        let bucket: ReliabilityBucket = confidence.buckets[i];
        let mut line: String = "  [".to_owned();
        line.append(show_edge(bucket.index).as_str());
        line.append(", ");
        line.append(show_edge(bucket.index + 1).as_str());
        if bucket.index + 1 >= RELIABILITY_BUCKETS {
            line.append("]");
        } else {
            line.append(")");
        }
        line.append("  ");
        line.append(count(bucket.count as u64, 7).as_str());
        line.append("  ");
        line.append(count(bucket.correct as u64, 7).as_str());
        line.append("  ");
        line.append(align_right(figures.buckets[i].accuracy.as_str(), 8).as_str());
        line.append("  ");
        line.append(align_right(figures.buckets[i].mean_confidence.as_str(), 10).as_str());
        assert(more[i as int] == line@) by {
            assert(line@ =~= bucket_line(bucket, figures.buckets@[i as int]));
        }
        push_text(out, line);
        assert(texts(out@) =~= head + more.take(i + 1));
        i += 1;
    }
    assert(more.take(i as int) =~= more);
    if let Some(brier) = &figures.brier {
        let mut line: String = "  Brier ".to_owned();
        line.append(brier.as_str());
        line.append(
            " (mean squared error of the confidence against whether that verdict was right; 0 is perfect, 0.25 is a coin flip stated at 0.5)",
        );
        push_text(out, line);
    }
    assert(texts(out@) =~= start + reliability_lines(*confidence, *figures));
}

fn confidence_block(out: &mut Vec<String>, confidence: &ConfidenceReport, figures: &JudgeFigures)
    requires
        figures.distinct@.len() == confidence.distinct@.len(),
        figures.buckets@.len() == confidence.buckets@.len(),
        forall|i: int|
            0 <= i < confidence.buckets@.len() ==> (#[trigger] confidence.buckets@[i]).index
                < RELIABILITY_BUCKETS,
    ensures
        texts(final(out)@) == texts(old(out)@) + confidence_lines(*confidence, *figures),
{
    let ghost start = texts(out@);
    push_text(out, "".to_owned());
    push_text(out, "CONFIDENCE".to_owned());
    let mut line: String = "  ".to_owned();
    push_decimal(&mut line, confidence.distinct.len() as u64);
    line.append(" distinct value(s) over ");
    push_decimal(&mut line, confidence.verdicts as u64);
    line.append(" verdict(s)");
    push_text(out, line);
    let ghost head = texts(out@);
    let ghost more = value_lines(confidence.distinct@, figures.distinct@);
    let mut i: usize = 0;
    assert(head + more.take(0) =~= head);
    while i < confidence.distinct.len()
        invariant
            i <= confidence.distinct@.len() == figures.distinct@.len(),
            more == value_lines(confidence.distinct@, figures.distinct@),
            texts(out@) == head + more.take(i as int),
        decreases confidence.distinct@.len() - i,
    {
        let mut line: String = "    ".to_owned();
        line.append(figures.distinct[i].as_str());
        line.append("  x");
        push_decimal(&mut line, confidence.distinct[i].count as u64);
        assert(more[i as int] == line@) by {
            assert(line@ =~= value_line(
                confidence.distinct@[i as int],
                figures.distinct@[i as int],
            ));
        }
        push_text(out, line);
        assert(texts(out@) =~= head + more.take(i + 1));
        i += 1;
    }
    assert(more.take(i as int) =~= more);
    if confidence.degenerate {
        match &figures.constant {
            Some(value) => push_text(
                out,
                "  degenerate -- constant ".to_owned().concat(value.as_str()),
            ),
            None => push_text(out, "  degenerate -- no verdicts".to_owned()),
        }
        push_paragraph(out, "  ", skipped_reason(&figures.constant_short).as_str(), 88);
    } else {
        reliability_block(out, confidence, figures);
    }
    assert(texts(out@) =~= start + confidence_lines(*confidence, *figures));
}

/// The lines of one judge.
#[verifier::opaque]
pub open spec fn section_lines(
    section: JudgeSection,
    cost_per_page: Seq<char>,
    repeat: u32,
) -> Seq<Seq<char>> {
    let report = section.report;
    let figures = section.figures;
    seq![
        ""@,
        "================ judge: "@ + header_name(section) + " ================"@,
    ] + errors_lines(report.overall) + documents_lines(report.documents@, figures.documents@)
        + sources_lines(report.by_source@) + rates_lines(figures) + bill_lines(
        cost_per_page,
        report.overall.cost,
        figures.cost,
    ) + savings_lines(report.overall.cost, figures.cost) + spend_lines(
        report.spend,
        report.overall.cost,
        figures.cost,
    ) + latency_lines(figures, report.baseline, repeat, report.documents@.len())
        + confidence_lines(report.confidence, figures)
}

proof fn add_lines(start: Seq<Seq<char>>, mine: Seq<Seq<char>>, more: Seq<Seq<char>>)
    ensures
        (start + mine) + more == start + (mine + more),
{
    assert((start + mine) + more =~= start + (mine + more));
}

fn judge_section(out: &mut Vec<String>, section: &JudgeSection, cost_per_page: &str, repeat: u32)
    requires
        section.well_formed(),
    ensures
        texts(final(out)@) == texts(old(out)@) + section_lines(*section, cost_per_page@, repeat),
{
    let ghost start = texts(out@);
    let report: &JudgeReport = &section.report;
    let figures: &JudgeFigures = &section.figures;
    push_text(out, "".to_owned());
    let mut line: String = "================ judge: ".to_owned();
    line.append(report.judge.as_str());
    if report.baseline {
        line.append(" (baseline)");
    }
    line.append(" ================");
    assert(line@ =~= "================ judge: "@ + header_name(*section) + " ================"@);
    push_text(out, line);
    let ghost mut mine = seq![
        ""@,
        "================ judge: "@ + header_name(*section) + " ================"@,
    ];
    assert(texts(out@) =~= start + mine);
    errors_block(out, &report.overall);
    proof {
        add_lines(start, mine, errors_lines(report.overall));
        mine = mine + errors_lines(report.overall);
    }
    documents_block(out, &report.documents, &figures.documents);
    proof {
        add_lines(start, mine, documents_lines(report.documents@, figures.documents@));
        mine = mine + documents_lines(report.documents@, figures.documents@);
    }
    sources_block(out, &report.by_source);
    proof {
        add_lines(start, mine, sources_lines(report.by_source@));
        mine = mine + sources_lines(report.by_source@);
    }
    rates_block(out, figures);
    proof {
        add_lines(start, mine, rates_lines(*figures));
        mine = mine + rates_lines(*figures);
    }
    bill_block(out, cost_per_page, &report.overall.cost, &figures.cost);
    proof {
        add_lines(start, mine, bill_lines(cost_per_page@, report.overall.cost, figures.cost));
        mine = mine + bill_lines(cost_per_page@, report.overall.cost, figures.cost);
    }
    savings_block(out, &report.overall.cost, &figures.cost);
    proof {
        add_lines(start, mine, savings_lines(report.overall.cost, figures.cost));
        mine = mine + savings_lines(report.overall.cost, figures.cost);
    }
    judge_spend_block(out, &report.spend, &report.overall.cost, &figures.cost);
    proof {
        add_lines(start, mine, spend_lines(report.spend, report.overall.cost, figures.cost));
        mine = mine + spend_lines(report.spend, report.overall.cost, figures.cost);
    }
    latency_block(out, figures, report.baseline, repeat, report.documents.len());
    proof {
        add_lines(start, mine, latency_lines(*figures, report.baseline, repeat, report.documents@.len()));
        mine = mine + latency_lines(*figures, report.baseline, repeat, report.documents@.len());
    }
    confidence_block(out, &report.confidence, figures);
    proof {
        add_lines(start, mine, confidence_lines(report.confidence, *figures));
        mine = mine + confidence_lines(report.confidence, *figures);
    }
    reveal(section_lines);
}

/// The lines of every judge, one after the other.
pub open spec fn all_section_lines(
    judges: Seq<JudgeSection>,
    cost_per_page: Seq<char>,
    repeat: u32,
) -> Seq<Seq<char>>
    decreases judges.len(),
{
    if judges.len() == 0 {
        Seq::empty()
    } else {
        all_section_lines(judges.drop_last(), cost_per_page, repeat) + section_lines(
            judges.last(),
            cost_per_page,
            repeat,
        )
    }
}

/// The line of a note: an empty one stays empty.
pub open spec fn note_line(line: Seq<char>) -> Seq<char> {
    if line.len() == 0 {
        line
    } else {
        "  "@ + line
    }
}

/// The lines of a list of caveats, one after the other.
pub open spec fn all_caveat_lines(caveats: Seq<Caveat>) -> Seq<Seq<char>>
    decreases caveats.len(),
{
    if caveats.len() == 0 {
        Seq::empty()
    } else {
        all_caveat_lines(caveats.drop_last()) + texts(caveats.last().lines@).map_values(
            |line: Seq<char>| note_line(line),
        )
    }
}

/// What the run cannot tell.
pub open spec fn caveats_lines(caveats: Seq<Caveat>) -> Seq<Seq<char>> {
    if caveats.len() == 0 {
        Seq::empty()
    } else {
        seq![""@, "WHAT THIS RUN CANNOT TELL YOU"@] + all_caveat_lines(caveats)
    }
}

fn push_note(out: &mut Vec<String>, lines: &Vec<String>)
    ensures
        texts(final(out)@) == texts(old(out)@) + texts(lines@).map_values(
            |line: Seq<char>| note_line(line),
        ),
{
    let ghost start = texts(out@);
    let ghost more = texts(lines@).map_values(|line: Seq<char>| note_line(line));
    let mut i: usize = 0;
    assert(start + more.take(0) =~= start);
    while i < lines.len()
        invariant
            i <= lines@.len(),
            more == texts(lines@).map_values(|line: Seq<char>| note_line(line)),
            texts(out@) == start + more.take(i as int),
        decreases lines@.len() - i,
    {
        assert(more[i as int] == note_line(lines@[i as int]@));
        if lines[i].as_str().unicode_len() == 0 {
            push_text(out, lines[i].clone());
        } else {
            push_text(out, "  ".to_owned().concat(lines[i].as_str()));
        }
        assert(texts(out@) =~= start + more.take(i + 1));
        i += 1;
    }
    assert(more.take(i as int) =~= more);
}

fn caveats_block(out: &mut Vec<String>, caveats: &Vec<Caveat>)
    ensures
        texts(final(out)@) == texts(old(out)@) + caveats_lines(caveats@),
{
    if caveats.len() == 0 {
        assert(texts(out@) + caveats_lines(caveats@) =~= texts(out@));
        return;
    }
    let ghost start = texts(out@);
    push_text(out, "".to_owned());
    push_text(out, "WHAT THIS RUN CANNOT TELL YOU".to_owned());
    let ghost head = texts(out@);
    let mut i: usize = 0;
    assert(head + all_caveat_lines(caveats@.take(0)) =~= head);
    while i < caveats.len()
        invariant
            i <= caveats@.len(),
            texts(out@) == head + all_caveat_lines(caveats@.take(i as int)),
        decreases caveats@.len() - i,
    {
        push_note(out, &caveats[i].lines);
        proof {
            assert(caveats@.take(i + 1).drop_last() =~= caveats@.take(i as int));
            assert(caveats@.take(i + 1).last() == caveats@[i as int]);
            assert(texts(out@) =~= head + all_caveat_lines(caveats@.take(i + 1)));
        }
        i += 1;
    }
    assert(caveats@.take(i as int) =~= caveats@);
    assert(texts(out@) =~= start + caveats_lines(caveats@));
}

/// The lines of the whole report.
pub open spec fn report_lines(report: BenchReport) -> Seq<Seq<char>> {
    header_lines(report) + skipped_lines(report.skipped_judges@) + excluded_lines(report.failures@)
        + all_section_lines(report.judges@, report.cost_per_page@, report.repeat) + caveats_lines(
        report.caveats@,
    )
}

/// Lines as one text, each ended by a line feed.
pub open spec fn ended(found: Seq<Seq<char>>) -> Seq<char>
    decreases found.len(),
{
    if found.len() == 0 {
        Seq::empty()
    } else {
        ended(found.drop_last()) + found.last() + "\n"@
    }
}

/// Render the whole run as text.
pub fn render(report: &BenchReport) -> (r: String)
    requires
        forall|i: int| 0 <= i < report.judges@.len() ==> (#[trigger] report.judges@[i]).well_formed(),
    ensures
        r@ == ended(report_lines(*report)),
{
    let mut out: Vec<String> = Vec::new();
    assert(texts(out@) =~= Seq::empty());
    header(&mut out, report);
    skipped_block(&mut out, &report.skipped_judges);
    failures_block(&mut out, &report.failures);
    let ghost head = texts(out@);
    let mut i: usize = 0;
    let cost_per_page: &str = report.cost_per_page.as_str();
    assert(head + all_section_lines(report.judges@.take(0), cost_per_page@, report.repeat) =~= head);
    while i < report.judges.len()
        invariant
            i <= report.judges@.len(),
            forall|i: int|
                0 <= i < report.judges@.len() ==> (#[trigger] report.judges@[i]).well_formed(),
            texts(out@) == head + all_section_lines(
                report.judges@.take(i as int),
                cost_per_page@,
                report.repeat,
            ),
        decreases report.judges@.len() - i,
    {
        judge_section(&mut out, &report.judges[i], cost_per_page, report.repeat);
        proof {
            assert(report.judges@.take(i + 1).drop_last() =~= report.judges@.take(i as int));
            assert(report.judges@.take(i + 1).last() == report.judges@[i as int]);
            assert(texts(out@) =~= head + all_section_lines(
                report.judges@.take(i + 1),
                cost_per_page@,
                report.repeat,
            ));
        }
        i += 1;
    }
    assert(report.judges@.take(i as int) =~= report.judges@);
    caveats_block(&mut out, &report.caveats);
    assert(texts(out@) =~= report_lines(*report));
    let mut text: String = String::new();
    let ghost all = texts(out@);
    let mut k: usize = 0;
    assert(text@ =~= ended(all.take(0)));
    while k < out.len()
        invariant
            k <= out@.len(),
            all == texts(out@),
            text@ == ended(all.take(k as int)),
        decreases out@.len() - k,
    {
        proof {
            assert(all.take(k + 1).drop_last() =~= all.take(k as int));
            assert(all.take(k + 1).last() == out@[k as int]@);
        }
        text.append(out[k].as_str());
        text.append("\n");
        k += 1;
    }
    assert(all.take(k as int) =~= all);
    text
}

/// One line on a group.
pub fn one_line(group: &GroupReport) -> (r: String)
    requires
        group.confusion.total() <= u32::MAX,
    ensures
        r@ == group.source@ + ": "@ + decimal(group.documents as nat) + " doc(s), "@ + decimal(
            group.confusion.total() as nat,
        ) + " page(s), "@ + decimal(group.confusion.missed_ocr as nat) + " missed, "@ + decimal(
            group.confusion.wasted_ocr as nat,
        ) + " wasted"@,
{
    let mut text: String = group.source.clone();
    text.append(": ");
    push_decimal(&mut text, group.documents as u64);
    text.append(" doc(s), ");
    push_decimal(&mut text, group.confusion.pages() as u64);
    text.append(" page(s), ");
    push_decimal(&mut text, group.confusion.missed_ocr as u64);
    text.append(" missed, ");
    push_decimal(&mut text, group.confusion.wasted_ocr as u64);
    text.append(" wasted");
    text
}

proof fn parts_are_held<T>(a: Seq<T>, b: Seq<T>)
    ensures
        forall|x: T| a.contains(x) ==> #[trigger] (a + b).contains(x),
        forall|x: T| b.contains(x) ==> #[trigger] (a + b).contains(x),
{
    assert forall|x: T| a.contains(x) implies #[trigger] (a + b).contains(x) by {
        let i = choose|i: int| 0 <= i < a.len() && a[i] == x;
        assert((a + b)[i] == x);
    }
    assert forall|x: T| b.contains(x) implies #[trigger] (a + b).contains(x) by {
        let i = choose|i: int| 0 <= i < b.len() && b[i] == x;
        assert((a + b)[a.len() + i] == x);
    }
}

/// Every line of every judge's section is a line of the report.
pub proof fn every_judge_has_its_section(report: BenchReport, k: int, line: Seq<char>)
    requires
        0 <= k < report.judges@.len(),
        section_lines(report.judges@[k], report.cost_per_page@, report.repeat).contains(line),
    ensures
        report_lines(report).contains(line),
{
    let sections = all_section_lines(report.judges@, report.cost_per_page@, report.repeat);
    section_is_held(report.judges@, report.cost_per_page@, report.repeat, k, line);
    let a = header_lines(report);
    let b = a + skipped_lines(report.skipped_judges@);
    let c = b + excluded_lines(report.failures@);
    parts_are_held(c, sections);
    parts_are_held(c + sections, caveats_lines(report.caveats@));
}

proof fn section_is_held(
    judges: Seq<JudgeSection>,
    cost_per_page: Seq<char>,
    repeat: u32,
    k: int,
    line: Seq<char>,
)
    requires
        0 <= k < judges.len(),
        section_lines(judges[k], cost_per_page, repeat).contains(line),
    ensures
        all_section_lines(judges, cost_per_page, repeat).contains(line),
    decreases judges.len(),
{
    let rest = judges.drop_last();
    parts_are_held(
        all_section_lines(rest, cost_per_page, repeat),
        section_lines(judges.last(), cost_per_page, repeat),
    );
    if k < rest.len() {
        assert(rest[k] == judges[k]);
        section_is_held(rest, cost_per_page, repeat, k, line);
    }
}

/// A judge's section holds each of its parts.
proof fn a_section_holds_its_parts(section: JudgeSection, cost_per_page: Seq<char>, repeat: u32)
    ensures
        ({
            let all = section_lines(section, cost_per_page, repeat);
            let report = section.report;
            let figures = section.figures;
            &&& forall|x: Seq<char>| #[trigger]
                errors_lines(report.overall).contains(x) ==> all.contains(x)
            &&& forall|x: Seq<char>| #[trigger]
                documents_lines(report.documents@, figures.documents@).contains(x) ==> all.contains(
                    x,
                )
            &&& forall|x: Seq<char>| #[trigger]
                sources_lines(report.by_source@).contains(x) ==> all.contains(x)
            &&& forall|x: Seq<char>| #[trigger]
                rates_lines(figures).contains(x) ==> all.contains(x)
            &&& forall|x: Seq<char>| #[trigger]
                bill_lines(cost_per_page, report.overall.cost, figures.cost).contains(x)
                    ==> all.contains(x)
            &&& forall|x: Seq<char>| #[trigger]
                savings_lines(report.overall.cost, figures.cost).contains(x) ==> all.contains(x)
            &&& forall|x: Seq<char>| #[trigger]
                spend_lines(report.spend, report.overall.cost, figures.cost).contains(x)
                    ==> all.contains(x)
            &&& forall|x: Seq<char>| #[trigger]
                latency_lines(figures, report.baseline, repeat, report.documents@.len()).contains(x)
                    ==> all.contains(x)
            &&& forall|x: Seq<char>| #[trigger]
                confidence_lines(report.confidence, figures).contains(x) ==> all.contains(x)
        }),
{
    reveal(section_lines);
    let report = section.report;
    let figures = section.figures;
    let a = seq![
        ""@,
        "================ judge: "@ + header_name(section) + " ================"@,
    ];
    let b = a + errors_lines(report.overall);
    let c = b + documents_lines(report.documents@, figures.documents@);
    let d = c + sources_lines(report.by_source@);
    let e = d + rates_lines(figures);
    let f = e + bill_lines(cost_per_page, report.overall.cost, figures.cost);
    let g = f + savings_lines(report.overall.cost, figures.cost);
    let h = g + spend_lines(report.spend, report.overall.cost, figures.cost);
    let i = h + latency_lines(figures, report.baseline, repeat, report.documents@.len());
    let j = i + confidence_lines(report.confidence, figures);
    assert(section_lines(section, cost_per_page, repeat) == j);
    parts_are_held(a, errors_lines(report.overall));
    parts_are_held(b, documents_lines(report.documents@, figures.documents@));
    parts_are_held(c, sources_lines(report.by_source@));
    parts_are_held(d, rates_lines(figures));
    parts_are_held(e, bill_lines(cost_per_page, report.overall.cost, figures.cost));
    parts_are_held(f, savings_lines(report.overall.cost, figures.cost));
    parts_are_held(g, spend_lines(report.spend, report.overall.cost, figures.cost));
    parts_are_held(
        h,
        latency_lines(figures, report.baseline, repeat, report.documents@.len()),
    );
    parts_are_held(i, confidence_lines(report.confidence, figures));
}

/// The report prints every judge's raw error counts, the two kinds apart, how many pages of either
/// kind there are, and how many documents routed exactly.
pub proof fn every_judges_errors_are_printed(report: BenchReport, k: int)
    requires
        0 <= k < report.judges@.len(),
    ensures
        ({
            let all = report_lines(report);
            let group = report.judges@[k].report.overall;
            &&& all.contains(
                "  missed OCR   "@ + right_aligned(decimal(group.confusion.missed_ocr as nat), 5)
                    + "   page needed OCR and did not get it"@,
            )
            &&& all.contains(
                "  wasted OCR   "@ + right_aligned(decimal(group.confusion.wasted_ocr as nat), 5)
                    + "   page did not need OCR and got it"@,
            )
            &&& all.contains(
                "  pages        "@ + right_aligned(decimal(group.confusion.total() as nat), 5)
                    + "   "@ + decimal(
                    (group.confusion.correct_ocr + group.confusion.missed_ocr) as nat,
                ) + " truly need OCR, "@ + decimal(
                    (group.confusion.correct_local + group.confusion.wasted_ocr) as nat,
                ) + " truly do not"@,
            )
            &&& all.contains(
                "  documents    "@ + right_aligned(decimal(group.documents as nat), 5) + "   "@
                    + decimal(group.route_exact as nat)
                    + " routed exactly (every page on the correct side)"@,
            )
        }),
{
    let section = report.judges@[k];
    let own = errors_lines(section.report.overall);
    a_section_holds_its_parts(section, report.cost_per_page@, report.repeat);
    assert(own.contains(own[2]));
    assert(own.contains(own[5]));
    assert(own.contains(own[7]));
    assert(own.contains(own[8]));
    every_judge_has_its_section(report, k, own[2]);
    every_judge_has_its_section(report, k, own[5]);
    every_judge_has_its_section(report, k, own[7]);
    every_judge_has_its_section(report, k, own[8]);
}

/// The report prints what every judge's routing buys: the pages sent to OCR beside those that had
/// to be, the pages bought and not needed, and those needed and not bought; and where anything was
/// scored, what it saves against OCR on every page, beside the most that could be saved.
pub proof fn every_judges_bill_is_printed(report: BenchReport, k: int)
    requires
        0 <= k < report.judges@.len(),
    ensures
        ({
            let all = report_lines(report);
            let cost = report.judges@[k].report.overall.cost;
            let money = report.judges@[k].figures.cost;
            &&& all.contains(
                "  OCR pages routed   "@ + right_aligned(decimal(cost.ocr_pages as nat), 5)
                    + "   ideal "@ + right_aligned(decimal(cost.ideal_ocr_pages as nat), 5),
            )
            &&& all.contains(
                "  overspend          "@ + right_aligned(decimal(cost.overspend_pages as nat), 5)
                    + " page(s)  "@ + right_aligned(money.overspend@, 10)
                    + "   paid for OCR that was not needed"@,
            )
            &&& all.contains(
                "  underspend         "@ + right_aligned(decimal(cost.underspend_pages as nat), 5)
                    + " page(s)  "@ + right_aligned(money.underspend@, 10)
                    + "   the quality failure priced: OCR that"@,
            )
            &&& cost.all_pages > 0 ==> all.contains(
                "    saved            "@ + right_aligned(
                    decimal((cost.all_pages - cost.ocr_pages) as nat),
                    5,
                ) + " page(s)  "@ + right_aligned(money.saving@, 10),
            )
            &&& cost.all_pages > 0 ==> all.contains(
                "    ceiling          "@ + right_aligned(
                    decimal((cost.all_pages - cost.ideal_ocr_pages) as nat),
                    5,
                ) + " page(s)  "@ + right_aligned(money.ceiling_saving@, 10)
                    + "   the most a router that agreed with"@,
            )
        }),
{
    let section = report.judges@[k];
    let cost = section.report.overall.cost;
    let money = section.figures.cost;
    let bill = bill_lines(report.cost_per_page@, cost, money);
    a_section_holds_its_parts(section, report.cost_per_page@, report.repeat);
    assert(bill.contains(bill[2]));
    assert(bill.contains(bill[3]));
    assert(bill.contains(bill[4]));
    every_judge_has_its_section(report, k, bill[2]);
    every_judge_has_its_section(report, k, bill[3]);
    every_judge_has_its_section(report, k, bill[4]);
    if cost.all_pages > 0 {
        let savings = savings_lines(cost, money);
        assert(savings.contains(savings[4]));
        assert(savings.contains(savings[5]));
        every_judge_has_its_section(report, k, savings[4]);
        every_judge_has_its_section(report, k, savings[5]);
    }
}

proof fn row_is_held(
    rows: Seq<DocumentReport>,
    figures: Seq<RowFigures>,
    width: nat,
    i: int,
    line: Seq<char>,
)
    requires
        0 <= i < rows.len(),
        figures.len() == rows.len(),
        row_lines(rows[i], figures[i], width).contains(line),
    ensures
        all_row_lines(rows, figures, width).contains(line),
    decreases rows.len(),
{
    let rest = rows.drop_last();
    let above = figures.drop_last();
    parts_are_held(
        all_row_lines(rest, above, width),
        row_lines(rows.last(), figures.last(), width),
    );
    if i < rest.len() {
        assert(rest[i] == rows[i]);
        assert(above[i] == figures[i]);
        row_is_held(rest, above, width, i, line);
    }
}

/// The report prints every document of every judge: its name, its pages, its label, both error
/// counts, whether it routed exactly and its time, in one line; and the pages behind each count
/// that is not zero.
pub proof fn every_row_is_printed(report: BenchReport, k: int, i: int)
    requires
        0 <= k < report.judges@.len(),
        0 <= i < report.judges@[k].report.documents@.len(),
        report.judges@[k].figures.documents@.len() == report.judges@[k].report.documents@.len(),
    ensures
        ({
            let all = report_lines(report);
            let row = report.judges@[k].report.documents@[i];
            let figures = report.judges@[k].figures.documents@[i];
            exists|width: nat|
                all.contains(
                    "  "@ + #[trigger] left_aligned(row.file@, width) + "  "@ + right_aligned(
                        decimal(row.page_count as nat),
                        5,
                    ) + "  "@ + left_aligned(row.pdf_type@, 12) + "  "@ + right_aligned(
                        decimal(row.confusion.missed_ocr as nat),
                        6,
                    ) + "  "@ + right_aligned(decimal(row.confusion.wasted_ocr as nat), 6) + "  "@
                        + (if row.route_exact {
                        right_aligned("exact"@, 5)
                    } else {
                        right_aligned("OFF"@, 5)
                    }) + "  "@ + right_aligned(figures.millis@, 9) + (match figures.delta {
                        Some(delta) => "  ("@ + delta@ + " vs baseline)"@,
                        None => ""@,
                    }),
                ) && (row.missed_ocr_pages@.len() > 0 ==> all.contains(
                    "  "@ + spaces(width + 2) + "missed OCR on 0-indexed page(s) "@ + bracketed(
                        row.missed_ocr_pages@,
                    ),
                )) && (row.wasted_ocr_pages@.len() > 0 ==> all.contains(
                    "  "@ + spaces(width + 2) + "wasted OCR on 0-indexed page(s) "@ + bracketed(
                        row.wasted_ocr_pages@,
                    ),
                ))
        }),
{
    let section = report.judges@[k];
    let rows = section.report.documents@;
    let figures = section.figures.documents@;
    let row = rows[i];
    let width = column_width(row_files(rows), 8);
    let own = row_lines(row, figures[i], width);
    let table = documents_lines(rows, figures);
    a_section_holds_its_parts(section, report.cost_per_page@, report.repeat);
    let head = seq![
        ""@,
        "PER DOCUMENT"@,
        "  "@ + left_aligned("document"@, width) + "  "@ + right_aligned("pages"@, 5) + "  "@
            + left_aligned("pdf_type"@, 12) + "  "@ + right_aligned("missed"@, 6) + "  "@
            + right_aligned("wasted"@, 6) + "  "@ + right_aligned("route"@, 5) + "  "@
            + right_aligned("ms"@, 9),
    ];
    assert(table == head + all_row_lines(rows, figures, width));
    parts_are_held(head, all_row_lines(rows, figures, width));
    assert forall|n: int| 0 <= n < own.len() implies report_lines(report).contains(
        #[trigger] own[n],
    ) by {
        row_is_held(rows, figures, width, i, own[n]);
        assert(table.contains(own[n]));
        every_judge_has_its_section(report, k, own[n]);
    }
    assert(own[0] == row_line(row, figures[i], width));
    if row.missed_ocr_pages@.len() > 0 {
        assert(own[1] == "  "@ + spaces(width + 2) + "missed OCR on 0-indexed page(s) "@
            + bracketed(row.missed_ocr_pages@));
    }
    if row.wasted_ocr_pages@.len() > 0 {
        assert(own[own.len() - 1] == "  "@ + spaces(width + 2)
            + "wasted OCR on 0-indexed page(s) "@ + bracketed(row.wasted_ocr_pages@));
    }
}

/// The report names every document that was excluded, with the judge it failed under where there
/// is one, and every judge that was skipped.
pub proof fn nothing_left_out_goes_unnamed(report: BenchReport, i: int)
    ensures
        0 <= i < report.failures@.len() ==> report_lines(report).contains(
            "  - "@ + report.failures@[i].file@,
        ),
        0 <= i < report.failures@.len() && report.failures@[i].judge is Some ==> report_lines(
            report,
        ).contains("      judge: "@ + report.failures@[i].judge->0@),
        0 <= i < report.skipped_judges@.len() ==> report_lines(report).contains(
            "  - "@ + report.skipped_judges@[i].judge@,
        ),
        report.failures@.len() > 0 ==> report_lines(report).contains(
            "EXCLUDED DOCUMENTS ("@ + decimal(report.failures@.len()) + ")"@,
        ),
        report.skipped_judges@.len() > 0 ==> report_lines(report).contains(
            "SKIPPED JUDGES ("@ + decimal(report.skipped_judges@.len()) + ")"@,
        ),
{
    let a = header_lines(report);
    let skipped = skipped_lines(report.skipped_judges@);
    let excluded = excluded_lines(report.failures@);
    let sections = all_section_lines(report.judges@, report.cost_per_page@, report.repeat);
    parts_are_held(a, skipped);
    parts_are_held(a + skipped, excluded);
    parts_are_held(a + skipped + excluded, sections);
    parts_are_held(a + skipped + excluded + sections, caveats_lines(report.caveats@));
    if report.failures@.len() > 0 {
        let head = seq![
            ""@,
            "EXCLUDED DOCUMENTS ("@ + decimal(report.failures@.len()) + ")"@,
        ];
        let note = paragraph("  "@, EXCLUDED_NOTE@, 86);
        parts_are_held(head, note);
        parts_are_held(head + note, all_failure_lines(report.failures@));
        assert(excluded == head + note + all_failure_lines(report.failures@));
        assert(head.contains(head[1]));
        assert((head + note).contains(head[1]));
        assert(excluded.contains(head[1]));
        if 0 <= i < report.failures@.len() {
            let failure = report.failures@[i];
            let own = failure_lines(failure);
            assert(own.contains(own[0]));
            failure_is_held(report.failures@, i, own[0]);
            assert(excluded.contains(own[0]));
            if failure.judge is Some {
                assert(own.contains(own[1]));
                failure_is_held(report.failures@, i, own[1]);
                assert(excluded.contains(own[1]));
            }
        }
    }
    if report.skipped_judges@.len() > 0 {
        let head = seq![
            ""@,
            "SKIPPED JUDGES ("@ + decimal(report.skipped_judges@.len()) + ")"@,
        ];
        let note = paragraph("  "@, SKIPPED_NOTE@, 86);
        parts_are_held(head, note);
        parts_are_held(head + note, all_skip_lines(report.skipped_judges@));
        assert(skipped == head + note + all_skip_lines(report.skipped_judges@));
        assert(head.contains(head[1]));
        assert((head + note).contains(head[1]));
        assert(skipped.contains(head[1]));
        if 0 <= i < report.skipped_judges@.len() {
            let own = skip_lines(report.skipped_judges@[i]);
            assert(own.contains(own[0]));
            skip_is_held(report.skipped_judges@, i, own[0]);
            assert(skipped.contains(own[0]));
        }
    }
}

proof fn failure_is_held(failures: Seq<DocumentFailure>, i: int, line: Seq<char>)
    requires
        0 <= i < failures.len(),
        failure_lines(failures[i]).contains(line),
    ensures
        all_failure_lines(failures).contains(line),
    decreases failures.len(),
{
    let rest = failures.drop_last();
    parts_are_held(all_failure_lines(rest), failure_lines(failures.last()));
    if i < rest.len() {
        assert(rest[i] == failures[i]);
        failure_is_held(rest, i, line);
    }
}

proof fn skip_is_held(skipped: Seq<SkippedJudge>, i: int, line: Seq<char>)
    requires
        0 <= i < skipped.len(),
        skip_lines(skipped[i]).contains(line),
    ensures
        all_skip_lines(skipped).contains(line),
    decreases skipped.len(),
{
    let rest = skipped.drop_last();
    parts_are_held(all_skip_lines(rest), skip_lines(skipped.last()));
    if i < rest.len() {
        assert(rest[i] == skipped[i]);
        skip_is_held(rest, i, line);
    }
}

/// A judge is told it is as good as a router can be exactly when it is on the ceiling without an
/// error of either kind. One that saves more than the ceiling, or less, or lands on it with errors
/// that cancel, is told that instead.
pub proof fn only_a_judge_without_errors_is_called_the_best(cost: Cost, money: CostFigures)
    ensures
        ({
            let text = verdict_text(cost, money);
            let beyond = cost.saving_beyond_ceiling_pages;
            let best =
                "-> this judge is on the ceiling and made no error of either kind: the best a router can do on this corpus."@;
            &&& text == best <==> beyond == 0 && cost.underspend_pages == 0 && cost.overspend_pages
                == 0
            &&& beyond > 0 ==> text.take(20) == "-> this judge saves "@ && text.len() > 20
                + money.beyond_ceiling@.len() && text.subrange(
                20,
                20int + money.beyond_ceiling@.len(),
            ) == money.beyond_ceiling@
            &&& beyond < 0 ==> text.take(20) == "-> this judge saves "@ && text.len() > 20
                + money.short_of_ceiling@.len() && text.subrange(
                20,
                20int + money.short_of_ceiling@.len(),
            ) == money.short_of_ceiling@
        }),
{
    let text = verdict_text(cost, money);
    reveal_strlit("-> this judge saves ");
    reveal_strlit(
        "-> this judge is on the ceiling and made no error of either kind: the best a router can do on this corpus.",
    );
    reveal_strlit("-> this judge lands exactly on the ceiling and is NOT exact: ");
    reveal_strlit(" MORE than the ceiling, which no correct router can do. The excess is ");
    reveal_strlit(" less than the ceiling. That shortfall is the overspend above: ");
    let best =
        "-> this judge is on the ceiling and made no error of either kind: the best a router can do on this corpus."@;
    assert(best[14] == 'i');
    assert("-> this judge saves "@[14] == 's');
    assert("-> this judge lands exactly on the ceiling and is NOT exact: "@[14] == 'l');
    if cost.saving_beyond_ceiling_pages != 0 {
        assert(text[14] == 's');
        assert(text.take(20) =~= "-> this judge saves "@);
        if cost.saving_beyond_ceiling_pages > 0 {
            assert(text.subrange(20, 20int + money.beyond_ceiling@.len()) =~= money.beyond_ceiling@);
        } else {
            assert(text.subrange(20, 20int + money.short_of_ceiling@.len())
                =~= money.short_of_ceiling@);
        }
    } else if cost.underspend_pages != 0 || cost.overspend_pages != 0 {
        assert(text[14] == 'l');
    }
}

/// A run is in order exactly when no document failed.
pub proof fn a_run_is_in_order_without_failures(report: &BenchReport, fine: bool)
    requires
        call_ensures(BenchReport::ok, (report,), fine),
    ensures
        fine <==> report.failures@.len() == 0,
{
}

} // verus!
