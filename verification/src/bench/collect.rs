//! Collecting scored documents into per-judge reports.

use crate::bench::corpus::CorpusDocument;
use crate::bench::run::DocumentRun;
use crate::bench::score::{
    confidence_report, confidences_of, cost, cost_of, score_confidences, score_pages, scored,
    ConfidenceReport, Confusion, Cost, JudgeSpend, PageScores, ScoredConfidence,
};
use crate::classify::ClassificationModel;
use crate::judge::{verdict_models, PageVerdictModel};
use crate::text::{decimal, opt_text, push_decimal, push_text, same_text, texts};
use vstd::prelude::*;
use vstd::string::*;

verus! {

/// A document that could not be scored, and why.
///
/// A failure of the harness: a missing file, a document that cannot be read, a page count that
/// disagrees with the manifest. A judge scoring badly is a result and not a failure.
#[derive(Debug, PartialEq, Eq)]
pub struct DocumentFailure {
    /// The document's file name.
    pub file: String,
    /// Its resolved path.
    pub path: String,
    /// The judge whose run hit the failure, when it was judge-specific.
    pub judge: Option<String>,
    /// What went wrong.
    pub error: String,
}

/// A [`DocumentFailure`] over sequences.
pub ghost struct DocumentFailureModel {
    pub file: Seq<char>,
    pub path: Seq<char>,
    pub judge: Option<Seq<char>>,
    pub error: Seq<char>,
}

impl View for DocumentFailure {
    type V = DocumentFailureModel;

    open spec fn view(&self) -> DocumentFailureModel {
        DocumentFailureModel {
            file: self.file@,
            path: self.path@,
            judge: opt_text(self.judge),
            error: self.error@,
        }
    }
}

/// One judge's counts for one document.
#[derive(Debug, PartialEq, Eq)]
pub struct DocumentReport {
    /// File name.
    pub file: String,
    /// The manifest's source for this document.
    pub source: String,
    /// Pages in the document.
    pub page_count: u32,
    /// The document-level label this judge produced.
    pub pdf_type: String,
    /// True when the judge's OCR page set is exactly truth's.
    pub route_exact: bool,
    /// Confusion counts for this document.
    pub confusion: Confusion,
    /// 0-indexed pages that needed OCR and did not get it.
    pub missed_ocr_pages: Vec<u32>,
    /// 0-indexed pages that got OCR and did not need it.
    pub wasted_ocr_pages: Vec<u32>,
    /// The pages those counts buy.
    pub cost: Cost,
    /// How long each of the repeated classifications took, in nanoseconds.
    pub samples: Vec<u64>,
}

/// A [`DocumentReport`] over sequences.
#[verifier::ext_equal]
pub ghost struct DocumentReportModel {
    pub file: Seq<char>,
    pub source: Seq<char>,
    pub page_count: u32,
    pub pdf_type: Seq<char>,
    pub route_exact: bool,
    pub confusion: Confusion,
    pub missed_ocr_pages: Seq<u32>,
    pub wasted_ocr_pages: Seq<u32>,
    pub cost: Cost,
    pub samples: Seq<u64>,
}

impl View for DocumentReport {
    type V = DocumentReportModel;

    open spec fn view(&self) -> DocumentReportModel {
        DocumentReportModel {
            file: self.file@,
            source: self.source@,
            page_count: self.page_count,
            pdf_type: self.pdf_type@,
            route_exact: self.route_exact,
            confusion: self.confusion,
            missed_ocr_pages: self.missed_ocr_pages@,
            wasted_ocr_pages: self.wasted_ocr_pages@,
            cost: self.cost,
            samples: self.samples@,
        }
    }
}

/// The models of a list of rows.
pub open spec fn row_models(rows: Seq<DocumentReport>) -> Seq<DocumentReportModel> {
    rows.map_values(|row: DocumentReport| row@)
}

/// The row of one judge's run on one document.
pub open spec fn row_of(
    label: Seq<char>,
    source: Seq<char>,
    truth: Seq<u32>,
    classification: ClassificationModel,
    verdicts: Seq<PageVerdictModel>,
    samples: Seq<u64>,
) -> DocumentReportModel {
    let scores = scored(truth, verdicts);
    DocumentReportModel {
        file: label,
        source,
        page_count: classification.page_count,
        pdf_type: classification.pdf_type.text(),
        route_exact: scores.route_exact,
        confusion: scores.confusion,
        missed_ocr_pages: scores.missed_ocr_pages,
        wasted_ocr_pages: scores.wasted_ocr_pages,
        cost: cost_of(scores.confusion),
        samples,
    }
}

/// What one judge has collected so far.
#[derive(Debug, PartialEq, Eq)]
pub struct JudgeRows {
    /// One row per scored document, in corpus order.
    pub documents: Vec<DocumentReport>,
    /// One entry per verdict, in corpus order.
    pub confidences: Vec<ScoredConfidence>,
}

/// A [`JudgeRows`] over sequences.
#[verifier::ext_equal]
pub ghost struct JudgeRowsModel {
    pub documents: Seq<DocumentReportModel>,
    pub confidences: Seq<ScoredConfidence>,
}

impl View for JudgeRows {
    type V = JudgeRowsModel;

    open spec fn view(&self) -> JudgeRowsModel {
        JudgeRowsModel {
            documents: row_models(self.documents@),
            confidences: self.confidences@,
        }
    }
}

impl JudgeRowsModel {
    /// The rows with one more run in them.
    pub open spec fn with(
        self,
        label: Seq<char>,
        document: CorpusDocument,
        run: DocumentRun,
    ) -> JudgeRowsModel {
        JudgeRowsModel {
            documents: self.documents.push(
                row_of(
                    label,
                    document.spec.source@,
                    document.truth@,
                    run.classification@,
                    verdict_models(run.verdicts@),
                    run.samples@,
                ),
            ),
            confidences: self.confidences + confidences_of(
                document.truth@,
                verdict_models(run.verdicts@),
            ),
        }
    }
}

impl JudgeRows {
    /// Nothing collected yet.
    pub fn new() -> (r: Self)
        ensures
            r@ == (JudgeRowsModel { documents: Seq::empty(), confidences: Seq::empty() }),
    {
        let r = JudgeRows { documents: Vec::new(), confidences: Vec::new() };
        assert(row_models(r.documents@) =~= Seq::empty());
        r
    }

    /// Score one more run and keep its row and its confidences.
    fn take(&mut self, label: &String, document: &CorpusDocument, run: DocumentRun)
        requires
            run.verdicts@.len() <= u32::MAX,
        ensures
            final(self)@ == old(self)@.with(label@, *document, run),
    {
        let ghost before = self@;
        let ghost rows_before = self.documents@;
        let scores: PageScores = score_pages(document.truth.as_slice(), run.verdicts.as_slice());
        score_confidences(
            &mut self.confidences,
            document.truth.as_slice(),
            run.verdicts.as_slice(),
        );
        let row = DocumentReport {
            file: label.clone(),
            source: document.spec.source.clone(),
            page_count: run.classification.page_count,
            pdf_type: run.classification.pdf_type.as_str().to_owned(),
            route_exact: scores.route_exact,
            confusion: scores.confusion,
            cost: cost(&scores.confusion),
            missed_ocr_pages: scores.missed_ocr_pages,
            wasted_ocr_pages: scores.wasted_ocr_pages,
            samples: run.samples,
        };
        let ghost row_model = row@;
        self.documents.push(row);
        proof {
            assert(row_models(self.documents@) =~= row_models(rows_before).push(row_model));
            assert(self@ =~= before.with(label@, *document, run));
        }
    }
}

/// Everything a run has collected so far.
#[derive(Debug, PartialEq, Eq)]
pub struct Progress {
    /// Documents that could not be scored.
    pub failures: Vec<DocumentFailure>,
    /// What each judge has collected, baseline first.
    pub judges: Vec<JudgeRows>,
    /// Documents scored.
    pub scored: u32,
}

/// The models of a list of failures.
pub open spec fn failure_models(failures: Seq<DocumentFailure>) -> Seq<DocumentFailureModel> {
    failures.map_values(|f: DocumentFailure| f@)
}

impl Progress {
    /// Nothing has been collected for any of this many judges.
    pub open spec fn fresh(self, judges: int) -> bool {
        &&& self.failures@.len() == 0
        &&& self.scored == 0
        &&& self.judges@.len() == judges
        &&& forall|j: int|
            0 <= j < judges ==> (#[trigger] self.judges@[j])@ == (JudgeRowsModel {
                documents: Seq::empty(),
                confidences: Seq::empty(),
            })
    }

    /// `self` is `before` with one more document excluded: one more failure, and no row for any
    /// judge.
    pub open spec fn excludes(
        self,
        before: Progress,
        document: CorpusDocument,
        judge: Option<Seq<char>>,
        error: Seq<char>,
    ) -> bool {
        &&& self.judges@ == before.judges@
        &&& self.scored == before.scored
        &&& exists|label: Seq<char>| #[trigger]
            document.may_be_called(label) && failure_models(self.failures@) == failure_models(
                before.failures@,
            ).push(DocumentFailureModel { file: label, path: document.path@, judge, error })
    }

    /// `self` is `before` with one more document scored: one more row for every judge, and no
    /// failure.
    pub open spec fn scores(
        self,
        before: Progress,
        document: CorpusDocument,
        runs: Seq<DocumentRun>,
    ) -> bool {
        &&& self.failures@ == before.failures@
        &&& self.scored == before.scored + 1
        &&& self.judges@.len() == before.judges@.len() == runs.len()
        &&& exists|label: Seq<char>| #[trigger]
            document.may_be_called(label) && forall|j: int|
                0 <= j < runs.len() ==> (#[trigger] self.judges@[j])@ == before.judges@[j]@.with(
                    label,
                    document,
                    runs[j],
                )
    }

    /// A run over this many judges that has not started.
    pub fn new(judges: usize) -> (r: Self)
        ensures
            r.fresh(judges as int),
    {
        let mut rows: Vec<JudgeRows> = Vec::new();
        let mut i: usize = 0;
        while i < judges
            invariant
                i <= judges,
                rows@.len() == i,
                forall|j: int|
                    0 <= j < i ==> (#[trigger] rows@[j])@ == (JudgeRowsModel {
                        documents: Seq::empty(),
                        confidences: Seq::empty(),
                    }),
            decreases judges - i,
        {
            rows.push(JudgeRows::new());
            i += 1;
        }
        Progress { failures: Vec::new(), judges: rows, scored: 0 }
    }

    /// Exclude a document that could not be scored. No judge gets a row for it.
    pub fn exclude(&mut self, document: &CorpusDocument, judge: Option<String>, error: String)
        ensures
            final(self).excludes(*old(self), *document, opt_text(judge), error@),
    {
        let ghost before = self.failures@;
        let label: String = document.label();
        let failure = DocumentFailure { file: label, path: document.path.clone(), judge, error };
        self.failures.push(failure);
        proof {
            assert(failure_models(self.failures@) =~= failure_models(before).push(failure@));
            assert(document.may_be_called(failure@.file));
        }
    }

    /// Exclude a document whose file could not be read.
    pub fn exclude_unreadable(&mut self, document: &CorpusDocument, detail: &str)
        ensures
            final(self).excludes(
                *old(self),
                *document,
                None,
                "could not read "@ + document.path@ + ": "@ + detail@,
            ),
    {
        let mut error: String = "could not read ".to_owned();
        error.append(document.path.as_str());
        error.append(": ");
        error.append(detail);
        self.exclude(document, None, error);
    }

    /// Record what happened to a document that was read: every judge gets a row for it, or
    /// none does.
    pub fn record(
        &mut self,
        document: &CorpusDocument,
        outcome: Result<Vec<DocumentRun>, (String, String)>,
    )
        requires
            old(self).scored < u32::MAX,
            outcome matches Ok(runs) ==> runs@.len() == old(self).judges@.len() && forall|j: int|
                0 <= j < runs@.len() ==> (#[trigger] runs@[j]).verdicts@.len() <= u32::MAX,
        ensures
            match outcome {
                Ok(runs) => final(self).scores(*old(self), *document, runs@),
                Err((judge, error)) => final(self).excludes(
                    *old(self),
                    *document,
                    Some(judge@),
                    error@,
                ),
            },
    {
        match outcome {
            Err((judge, error)) => {
                self.exclude(document, Some(judge), error);
            },
            Ok(runs) => {
                let label: String = document.label();
                self.add_runs(label, document, runs);
            },
        }
    }

    fn add_runs(&mut self, label: String, document: &CorpusDocument, runs: Vec<DocumentRun>)
        requires
            old(self).scored < u32::MAX,
            runs@.len() == old(self).judges@.len(),
            forall|j: int|
                0 <= j < runs@.len() ==> (#[trigger] runs@[j]).verdicts@.len() <= u32::MAX,
        ensures
            final(self).failures@ == old(self).failures@,
            final(self).scored == old(self).scored + 1,
            final(self).judges@.len() == old(self).judges@.len(),
            forall|j: int|
                0 <= j < runs@.len() ==> (#[trigger] final(self).judges@[j])@ == old(
                    self,
                ).judges@[j]@.with(label@, *document, runs@[j]),
    {
        let ghost start = self.judges@;
        let ghost all = runs@;
        let mut judges: Vec<JudgeRows> = Vec::new();
        std::mem::swap(&mut judges, &mut self.judges);
        let mut next: Vec<JudgeRows> = Vec::new();
        let mut runs: Vec<DocumentRun> = runs;
        while runs.len() > 0
            invariant
                judges@.len() == runs@.len(),
                runs@.len() <= all.len() == start.len(),
                runs@ == all.take(runs@.len() as int),
                judges@ == start.take(judges@.len() as int),
                next@.len() == all.len() - runs@.len(),
                forall|j: int|
                    0 <= j < all.len() ==> (#[trigger] all[j]).verdicts@.len() <= u32::MAX,
                forall|k: int|
                    0 <= k < next@.len() ==> (#[trigger] next@[k])@ == start[all.len() - 1
                        - k]@.with(label@, *document, all[all.len() - 1 - k]),
            decreases runs@.len(),
        {
            let ghost n = runs@.len() - 1;
            let run = runs.pop();
            let rows = judges.pop();
            if let (Some(run), Some(mut rows)) = (run, rows) {
                assert(run == all[n]);
                assert(rows == start[n]);
                rows.take(&label, document, run);
                next.push(rows);
            }
            assert(runs@ =~= all.take(n));
            assert(judges@ =~= start.take(n));
        }
        let ghost reversed = next@;
        while next.len() > 0
            invariant
                next@.len() + judges@.len() == reversed.len(),
                next@ == reversed.take(next@.len() as int),
                forall|j: int|
                    0 <= j < judges@.len() ==> #[trigger] judges@[j] == reversed[reversed.len() - 1
                        - j],
            decreases next@.len(),
        {
            let ghost n = next@.len() - 1;
            if let Some(rows) = next.pop() {
                judges.push(rows);
            }
            assert(next@ =~= reversed.take(n));
        }
        self.judges = judges;
        self.scored = self.scored + 1;
    }
}

/// How many pages a list of rows counts.
pub open spec fn total_pages(rows: Seq<DocumentReportModel>) -> nat
    decreases rows.len(),
{
    if rows.len() == 0 {
        0
    } else {
        total_pages(rows.drop_last()) + rows.last().confusion.total() as nat
    }
}

/// The rows of one source, in order.
pub open spec fn rows_from(rows: Seq<DocumentReportModel>, source: Seq<char>) -> Seq<
    DocumentReportModel,
>
    decreases rows.len(),
{
    if rows.len() == 0 {
        Seq::empty()
    } else if rows.last().source == source {
        rows_from(rows.drop_last(), source).push(rows.last())
    } else {
        rows_from(rows.drop_last(), source)
    }
}

/// The counts of a list of rows, added up.
pub open spec fn summed(rows: Seq<DocumentReportModel>) -> Confusion
    decreases rows.len(),
{
    if rows.len() == 0 {
        Confusion::none()
    } else {
        summed(rows.drop_last()).plus(rows.last().confusion)
    }
}

/// How many rows are routed exactly.
pub open spec fn exact(rows: Seq<DocumentReportModel>) -> nat
    decreases rows.len(),
{
    if rows.len() == 0 {
        0
    } else {
        exact(rows.drop_last()) + if rows.last().route_exact {
            1nat
        } else {
            0nat
        }
    }
}

/// Everything about one source, for one judge.
#[derive(Debug, PartialEq, Eq)]
pub struct GroupReport {
    /// The source.
    pub source: String,
    /// Documents in the group.
    pub documents: u32,
    /// How many of them routed exactly.
    pub route_exact: u32,
    /// Summed confusion counts.
    pub confusion: Confusion,
    /// The pages those counts buy.
    pub cost: Cost,
}

/// A [`GroupReport`] with its text as a character sequence.
#[verifier::ext_equal]
pub ghost struct GroupReportModel {
    pub source: Seq<char>,
    pub documents: u32,
    pub route_exact: u32,
    pub confusion: Confusion,
    pub cost: Cost,
}

impl View for GroupReport {
    type V = GroupReportModel;

    open spec fn view(&self) -> GroupReportModel {
        GroupReportModel {
            source: self.source@,
            documents: self.documents,
            route_exact: self.route_exact,
            confusion: self.confusion,
            cost: self.cost,
        }
    }
}

/// The models of a list of groups.
pub open spec fn group_models(groups: Seq<GroupReport>) -> Seq<GroupReportModel> {
    groups.map_values(|g: GroupReport| g@)
}

/// The group some rows make up.
pub open spec fn group_of(source: Seq<char>, rows: Seq<DocumentReportModel>) -> GroupReportModel {
    GroupReportModel {
        source,
        documents: rows.len() as u32,
        route_exact: exact(rows) as u32,
        confusion: summed(rows),
        cost: cost_of(summed(rows)),
    }
}

/// The groups of these sources, without the empty ones.
pub open spec fn groups_of(rows: Seq<DocumentReportModel>, sources: Seq<Seq<char>>) -> Seq<
    GroupReportModel,
>
    decreases sources.len(),
{
    if sources.len() == 0 {
        Seq::empty()
    } else {
        let before = groups_of(rows, sources.drop_last());
        let mine = rows_from(rows, sources.last());
        if mine.len() > 0 {
            before.push(group_of(sources.last(), mine))
        } else {
            before
        }
    }
}

/// The rows and their pages can be counted.
pub open spec fn countable(rows: Seq<DocumentReportModel>) -> bool {
    rows.len() <= u32::MAX && total_pages(rows) <= u32::MAX
}

proof fn summed_counts(rows: Seq<DocumentReportModel>)
    requires
        total_pages(rows) <= u32::MAX,
    ensures
        summed(rows).total() == total_pages(rows),
        exact(rows) <= rows.len(),
    decreases rows.len(),
{
    if rows.len() > 0 {
        summed_counts(rows.drop_last());
    }
}

proof fn rows_from_are_fewer(rows: Seq<DocumentReportModel>, source: Seq<char>)
    ensures
        rows_from(rows, source).len() <= rows.len(),
        total_pages(rows_from(rows, source)) <= total_pages(rows),
    decreases rows.len(),
{
    if rows.len() > 0 {
        rows_from_are_fewer(rows.drop_last(), source);
        if rows.last().source == source {
            assert(rows_from(rows, source).drop_last() =~= rows_from(rows.drop_last(), source));
        }
    }
}

/// What happens to one document of a run.
pub ghost enum Handled {
    /// It could not be scored.
    Excluded { document: CorpusDocument, judge: Option<Seq<char>>, error: Seq<char> },
    /// Every judge ran on it.
    Scored { document: CorpusDocument, runs: Seq<DocumentRun> },
}

/// `after` is `before` with one more document handled.
pub open spec fn handles(before: Progress, after: Progress, handled: Handled) -> bool {
    match handled {
        Handled::Excluded { document, judge, error } => after.excludes(
            before,
            document,
            judge,
            error,
        ),
        Handled::Scored { document, runs } => after.scores(before, document, runs),
    }
}

/// A run from its start: nothing is collected at first, and each state is the one before with
/// one more document handled.
pub open spec fn is_run(states: Seq<Progress>, judges: int, documents: Seq<Handled>) -> bool {
    &&& states.len() == documents.len() + 1
    &&& states[0].fresh(judges)
    &&& forall|k: int|
        0 <= k < documents.len() ==> handles(states[k], states[k + 1], #[trigger] documents[k])
}

/// The documents that were scored, in order.
pub open spec fn scored_documents(documents: Seq<Handled>) -> Seq<CorpusDocument>
    decreases documents.len(),
{
    if documents.len() == 0 {
        Seq::empty()
    } else {
        let earlier = scored_documents(documents.drop_last());
        match documents.last() {
            Handled::Scored { document, .. } => earlier.push(document),
            Handled::Excluded { .. } => earlier,
        }
    }
}

/// The documents that were excluded, in order.
pub open spec fn excluded_documents(documents: Seq<Handled>) -> Seq<CorpusDocument>
    decreases documents.len(),
{
    if documents.len() == 0 {
        Seq::empty()
    } else {
        let earlier = excluded_documents(documents.drop_last());
        match documents.last() {
            Handled::Scored { .. } => earlier,
            Handled::Excluded { document, .. } => earlier.push(document),
        }
    }
}

/// Every document of a run is counted once: it is either scored or among the failures, in the
/// order given. Every judge has one row for each scored document, and the rows of all judges are
/// about the same documents, in the same order and under the same names.
pub proof fn every_document_is_counted_once(
    states: Seq<Progress>,
    judges: int,
    documents: Seq<Handled>,
)
    requires
        is_run(states, judges, documents),
    ensures
        ({
            let end = states.last();
            let kept = scored_documents(documents);
            let lost = excluded_documents(documents);
            &&& kept.len() + lost.len() == documents.len()
            &&& end.scored == kept.len()
            &&& end.failures@.len() == lost.len()
            &&& end.scored + end.failures@.len() == documents.len()
            &&& end.judges@.len() == judges
            &&& forall|f: int|
                0 <= f < lost.len() ==> (#[trigger] failure_models(end.failures@)[f]).path
                    == lost[f].path@ && lost[f].may_be_called(failure_models(end.failures@)[f].file)
            &&& forall|j: int|
                0 <= j < judges ==> (#[trigger] end.judges@[j])@.documents.len() == kept.len()
            &&& forall|j: int, d: int|
                #![trigger end.judges@[j]@.documents[d]]
                0 <= j < judges && 0 <= d < kept.len() ==> end.judges@[j]@.documents[d].source
                    == kept[d].spec.source@ && kept[d].may_be_called(
                    end.judges@[j]@.documents[d].file,
                )
            &&& forall|i: int, j: int, d: int|
                #![trigger end.judges@[i]@.documents[d], end.judges@[j]@.documents[d]]
                0 <= i < judges && 0 <= j < judges && 0 <= d < kept.len()
                    ==> end.judges@[i]@.documents[d].file == end.judges@[j]@.documents[d].file
        }),
    decreases documents.len(),
{
    if documents.len() > 0 {
        let earlier = documents.drop_last();
        let before = states.drop_last();
        assert forall|k: int| 0 <= k < earlier.len() implies handles(
            before[k],
            before[k + 1],
            #[trigger] earlier[k],
        ) by {
            assert(handles(states[k], states[k + 1], documents[k]));
        }
        every_document_is_counted_once(before, judges, earlier);
        let n = earlier.len() as int;
        assert(handles(states[n], states[n + 1], documents[n]));
        assert(before.last() == states[n]);
        let end = states.last();
        let start = states[n];
        match documents[n] {
            Handled::Excluded { document, judge, error } => {
                let label = choose|label: Seq<char>| #[trigger]
                    document.may_be_called(label) && failure_models(end.failures@)
                        == failure_models(start.failures@).push(
                        DocumentFailureModel { file: label, path: document.path@, judge, error },
                    );
                let lost = excluded_documents(documents);
                assert(failure_models(end.failures@).len() == failure_models(start.failures@).len()
                    + 1);
                assert forall|f: int| 0 <= f < lost.len() implies (
                #[trigger] failure_models(end.failures@)[f]).path == lost[f].path@
                    && lost[f].may_be_called(failure_models(end.failures@)[f].file) by {
                    if f < lost.len() - 1 {
                        assert(failure_models(end.failures@)[f] == failure_models(
                            start.failures@,
                        )[f]);
                    }
                }
            },
            Handled::Scored { document, runs } => {
                let label = choose|label: Seq<char>| #[trigger]
                    document.may_be_called(label) && forall|j: int|
                        0 <= j < runs.len() ==> (#[trigger] end.judges@[j])@
                            == start.judges@[j]@.with(label, document, runs[j]);
                let kept = scored_documents(documents);
                assert forall|j: int, d: int|
                    #![trigger end.judges@[j]@.documents[d]]
                    0 <= j < judges && 0 <= d < kept.len() implies end.judges@[j]@.documents[d].source
                    == kept[d].spec.source@ && kept[d].may_be_called(
                    end.judges@[j]@.documents[d].file,
                ) && (d < kept.len() - 1 ==> end.judges@[j]@.documents[d]
                    == start.judges@[j]@.documents[d]) && (d == kept.len() - 1
                    ==> end.judges@[j]@.documents[d].file == label) by {
                    assert(end.judges@[j]@ == start.judges@[j]@.with(label, document, runs[j]));
                    assert(start.judges@[j]@.documents.len() == kept.len() - 1);
                }
                assert forall|j: int| 0 <= j < judges implies (
                #[trigger] end.judges@[j])@.documents.len() == kept.len() by {
                    assert(end.judges@[j]@ == start.judges@[j]@.with(label, document, runs[j]));
                    assert(start.judges@[j]@.documents.len() == kept.len() - 1);
                }
            },
        }
    }
}

/// Sum the rows of one source, or all of them, into a group.
fn group(source: &str, rows: &Vec<DocumentReport>, only: bool) -> (r: GroupReport)
    requires
        countable(row_models(rows@)),
    ensures
        r@ == group_of(
            source@,
            if only {
                rows_from(row_models(rows@), source@)
            } else {
                row_models(rows@)
            },
        ),
        r@.confusion.total() <= u32::MAX,
{
    let ghost all = row_models(rows@);
    let mut confusion: Confusion = Confusion::default();
    let mut documents: u32 = 0;
    let mut route_exact: u32 = 0;
    let mut i: usize = 0;
    let ghost mut mine: Seq<DocumentReportModel> = Seq::empty();
    assert(all.take(0) =~= Seq::empty());
    while i < rows.len()
        invariant
            i <= rows@.len(),
            all == row_models(rows@),
            countable(all),
            mine == (if only {
                rows_from(all.take(i as int), source@)
            } else {
                all.take(i as int)
            }),
            total_pages(mine) <= total_pages(all.take(i as int)),
            confusion == summed(mine),
            documents == mine.len(),
            mine.len() <= i,
            route_exact == exact(mine),
        decreases rows@.len() - i,
    {
        let row: &DocumentReport = &rows[i];
        proof {
            let now = all.take(i + 1);
            assert(now.drop_last() =~= all.take(i as int));
            assert(now.last() == row@);
            pages_so_far(all, i as int);
            pages_so_far(all, i + 1);
            summed_counts(mine);
        }
        if !only || same_text(row.source.as_str(), source) {
            proof {
                let next = mine.push(row@);
                assert(next.drop_last() =~= mine);
                mine = next;
            }
            confusion.add(&row.confusion);
            documents = documents + 1;
            if row.route_exact {
                route_exact = route_exact + 1;
            }
        }
        i += 1;
    }
    proof {
        assert(all.take(i as int) =~= all);
        summed_counts(mine);
    }
    GroupReport { source: source.to_owned(), documents, route_exact, cost: cost(&confusion), confusion }
}

proof fn pages_so_far(rows: Seq<DocumentReportModel>, n: int)
    requires
        0 <= n <= rows.len(),
    ensures
        total_pages(rows.take(n)) <= total_pages(rows),
    decreases rows.len(),
{
    if n < rows.len() {
        assert(rows.drop_last().take(n) =~= rows.take(n));
        pages_so_far(rows.drop_last(), n);
    } else {
        assert(rows.take(n) =~= rows);
    }
}

/// One judge's whole result, without its rates and its money.
#[derive(Debug, PartialEq, Eq)]
pub struct JudgeReport {
    /// The judge's name, as registered.
    pub judge: String,
    /// True for the judge every other one is measured against.
    pub baseline: bool,
    /// Per-document rows, in corpus order.
    pub documents: Vec<DocumentReport>,
    /// The same rows grouped by source.
    pub by_source: Vec<GroupReport>,
    /// Every document together.
    pub overall: GroupReport,
    /// What can be said about this judge's confidence values.
    pub confidence: ConfidenceReport,
    /// What the judge's own calls used. `None` when it reports no usage at all, which is not
    /// the same statement as "used none".
    pub spend: Option<JudgeSpend>,
}

/// The source the rows of every source go under.
pub const ALL_SOURCES: &'static str = "all";

impl JudgeRows {
    /// Whether the rows, their pages and their confidences can be counted.
    pub fn is_countable(&self) -> (r: bool)
        ensures
            r == (countable(self@.documents) && self@.confidences.len() <= u32::MAX),
    {
        let ghost all = row_models(self.documents@);
        let mut total: u64 = 0;
        let mut i: usize = 0;
        assert(all.take(0) =~= Seq::empty());
        while i < self.documents.len()
            invariant
                i <= self.documents@.len(),
                all == row_models(self.documents@),
                total == total_pages(all.take(i as int)),
                total <= u32::MAX,
            decreases self.documents@.len() - i,
        {
            let c: Confusion = self.documents[i].confusion;
            proof {
                assert(all.take(i + 1).drop_last() =~= all.take(i as int));
                assert(all.take(i + 1).last() == self.documents@[i as int]@);
                pages_so_far(all, i + 1);
            }
            total = total + c.correct_ocr as u64 + c.correct_local as u64 + c.missed_ocr as u64
                + c.wasted_ocr as u64;
            if total > u32::MAX as u64 {
                return false;
            }
            i += 1;
        }
        assert(all.take(i as int) =~= all);
        self.documents.len() as u64 <= u32::MAX as u64 && self.confidences.len() as u64
            <= u32::MAX as u64
    }
}

/// Assemble one judge's report from its rows.
pub fn judge_report(
    name: &str,
    baseline: bool,
    rows: JudgeRows,
    sources: &Vec<String>,
    spend: Option<JudgeSpend>,
) -> (r: JudgeReport)
    requires
        countable(rows@.documents),
        rows@.confidences.len() <= u32::MAX,
    ensures
        r.judge@ == name@,
        r.baseline == baseline,
        r.spend == spend,
        row_models(r.documents@) == rows@.documents,
        r.overall@ == group_of(ALL_SOURCES@, rows@.documents),
        group_models(r.by_source@) == groups_of(rows@.documents, texts(sources@)),
        crate::bench::score::reported(rows@.confidences, r.confidence),
{
    let ghost models = rows@.documents;
    let ghost names = texts(sources@);
    let overall: GroupReport = group(ALL_SOURCES, &rows.documents, false);
    let mut by_source: Vec<GroupReport> = Vec::new();
    let mut i: usize = 0;
    assert(group_models(by_source@) =~= groups_of(models, names.take(0)));
    while i < sources.len()
        invariant
            i <= sources@.len(),
            names == texts(sources@),
            models == row_models(rows.documents@),
            countable(models),
            group_models(by_source@) == groups_of(models, names.take(i as int)),
        decreases sources@.len() - i,
    {
        let ghost before = by_source@;
        let one: GroupReport = group(sources[i].as_str(), &rows.documents, true);
        proof {
            assert(names.take(i + 1).drop_last() =~= names.take(i as int));
            assert(names.take(i + 1).last() == sources@[i as int]@);
            rows_from_are_fewer(models, sources@[i as int]@);
        }
        if one.documents > 0 {
            by_source.push(one);
            assert(group_models(by_source@) =~= group_models(before).push(one@));
        }
        i += 1;
    }
    assert(names.take(i as int) =~= names);
    let confidence: ConfidenceReport = confidence_report(rows.confidences.as_slice());
    JudgeReport {
        judge: name.to_owned(),
        baseline,
        by_source,
        overall,
        confidence,
        spend,
        documents: rows.documents,
    }
}

/// A group counts every page and every document of its rows, and no more exact routes than
/// documents.
pub proof fn groups_count_every_page(source: Seq<char>, rows: Seq<DocumentReportModel>)
    requires
        countable(rows),
    ensures
        group_of(source, rows).confusion.total() == total_pages(rows),
        group_of(source, rows).documents == rows.len(),
        group_of(source, rows).route_exact <= group_of(source, rows).documents,
{
    summed_counts(rows);
}

/// The pages of each source, added up.
pub open spec fn pages_by_source(rows: Seq<DocumentReportModel>, sources: Seq<Seq<char>>) -> nat
    decreases sources.len(),
{
    if sources.len() == 0 {
        0
    } else {
        pages_by_source(rows, sources.drop_last()) + total_pages(rows_from(rows, sources.last()))
    }
}

/// The pages of each group, added up.
pub open spec fn pages_of_groups(groups: Seq<GroupReportModel>) -> nat
    decreases groups.len(),
{
    if groups.len() == 0 {
        0
    } else {
        pages_of_groups(groups.drop_last()) + groups.last().confusion.total() as nat
    }
}

proof fn one_more_row(rows: Seq<DocumentReportModel>, sources: Seq<Seq<char>>)
    requires
        rows.len() > 0,
        sources.no_duplicates(),
    ensures
        pages_by_source(rows, sources) == pages_by_source(rows.drop_last(), sources) + (
        if sources.contains(rows.last().source) {
            rows.last().confusion.total() as nat
        } else {
            0
        }),
    decreases sources.len(),
{
    if sources.len() > 0 {
        let rest = sources.drop_last();
        let here = rows.last().source;
        one_more_row(rows, rest);
        let mine = rows_from(rows, sources.last());
        if here == sources.last() {
            assert(mine.drop_last() =~= rows_from(rows.drop_last(), sources.last()));
            assert(sources[sources.len() - 1] == here);
            if rest.contains(here) {
                let i = choose|i: int| 0 <= i < rest.len() && rest[i] == here;
                assert(sources[i] == sources[sources.len() - 1]);
            }
        } else {
            if sources.contains(here) {
                let i = choose|i: int| 0 <= i < sources.len() && sources[i] == here;
                assert(rest[i] == here);
            }
            if rest.contains(here) {
                let i = choose|i: int| 0 <= i < rest.len() && rest[i] == here;
                assert(sources[i] == here);
            }
        }
    }
}

proof fn no_rows_no_pages(sources: Seq<Seq<char>>)
    ensures
        pages_by_source(Seq::empty(), sources) == 0,
    decreases sources.len(),
{
    if sources.len() > 0 {
        no_rows_no_pages(sources.drop_last());
    }
}

proof fn sources_cover_the_rows(rows: Seq<DocumentReportModel>, sources: Seq<Seq<char>>)
    requires
        sources.no_duplicates(),
        forall|i: int| 0 <= i < rows.len() ==> sources.contains((#[trigger] rows[i]).source),
    ensures
        pages_by_source(rows, sources) == total_pages(rows),
    decreases rows.len(),
{
    if rows.len() == 0 {
        assert(rows =~= Seq::empty());
        no_rows_no_pages(sources);
    } else {
        assert(sources.contains(rows[rows.len() - 1].source));
        assert forall|i: int| 0 <= i < rows.drop_last().len() implies sources.contains(
            (#[trigger] rows.drop_last()[i]).source,
        ) by {
            assert(rows.drop_last()[i] == rows[i]);
        }
        sources_cover_the_rows(rows.drop_last(), sources);
        one_more_row(rows, sources);
    }
}

proof fn groups_hold_their_sources(rows: Seq<DocumentReportModel>, sources: Seq<Seq<char>>)
    requires
        countable(rows),
    ensures
        pages_of_groups(groups_of(rows, sources)) == pages_by_source(rows, sources),
    decreases sources.len(),
{
    if sources.len() > 0 {
        let rest = sources.drop_last();
        groups_hold_their_sources(rows, rest);
        let mine = rows_from(rows, sources.last());
        rows_from_are_fewer(rows, sources.last());
        summed_counts(mine);
        if mine.len() > 0 {
            assert(groups_of(rows, sources).drop_last() =~= groups_of(rows, rest));
        }
    }
}

/// The groups by source add up to the whole: when the sources are listed once each and every
/// row comes from one of them, no page is counted twice and none is left out.
pub proof fn groups_add_up_to_the_whole(
    rows: Seq<DocumentReportModel>,
    sources: Seq<Seq<char>>,
)
    requires
        countable(rows),
        sources.no_duplicates(),
        forall|i: int| 0 <= i < rows.len() ==> sources.contains((#[trigger] rows[i]).source),
    ensures
        pages_of_groups(groups_of(rows, sources)) == group_of(
            ALL_SOURCES@,
            rows,
        ).confusion.total(),
{
    groups_hold_their_sources(rows, sources);
    sources_cover_the_rows(rows, sources);
    summed_counts(rows);
}

/// A caveat about what the run can and cannot measure.
#[derive(Debug, PartialEq, Eq)]
pub struct Caveat {
    /// The judge it is about, when it is about one.
    pub judge: Option<String>,
    /// The source it is about, when it is about one.
    pub source: Option<String>,
    /// Documents in that group, or in the run when there is no group.
    pub documents: u32,
    /// The note, one line per entry.
    pub lines: Vec<String>,
}

/// A [`Caveat`] over sequences.
#[verifier::ext_equal]
pub ghost struct CaveatModel {
    pub judge: Option<Seq<char>>,
    pub source: Option<Seq<char>>,
    pub documents: u32,
    pub lines: Seq<Seq<char>>,
}

impl View for Caveat {
    type V = CaveatModel;

    open spec fn view(&self) -> CaveatModel {
        CaveatModel {
            judge: opt_text(self.judge),
            source: opt_text(self.source),
            documents: self.documents,
            lines: texts(self.lines@),
        }
    }
}

/// The models of a list of caveats.
pub open spec fn caveat_models(caveats: Seq<Caveat>) -> Seq<CaveatModel> {
    caveats.map_values(|c: Caveat| c@)
}

/// An ASCII letter in lower case; any other character as it is.
pub open spec fn lower(c: char) -> char {
    if 'A' <= c <= 'Z' {
        (c as u8 + 32) as char
    } else {
        c
    }
}

/// The same text but for the case of ASCII letters.
pub open spec fn alike(a: Seq<char>, b: Seq<char>) -> bool {
    a.len() == b.len() && forall|i: int|
        0 <= i < a.len() ==> lower(#[trigger] a[i]) == lower(b[i])
}

fn to_lower(c: char) -> (r: char)
    ensures
        r == lower(c),
{
    if 'A' <= c && c <= 'Z' {
        (c as u8 + 32) as char
    } else {
        c
    }
}

/// Whether two texts are the same but for the case of ASCII letters.
pub fn are_alike(a: &str, b: &str) -> (r: bool)
    ensures
        r == alike(a@, b@),
{
    let x: Vec<char> = crate::text::chars_of(a);
    let y: Vec<char> = crate::text::chars_of(b);
    if x.len() != y.len() {
        return false;
    }
    let mut i: usize = 0;
    while i < x.len()
        invariant
            i <= x@.len() == y@.len(),
            x@ == a@,
            y@ == b@,
            forall|k: int| 0 <= k < i ==> lower(#[trigger] a@[k]) == lower(b@[k]),
        decreases x@.len() - i,
    {
        if to_lower(x[i]) != to_lower(y[i]) {
            assert(lower(a@[i as int]) != lower(b@[i as int]));
            return false;
        }
        i += 1;
    }
    true
}

/// The source a perfect score says little about.
pub const SYNTHETIC: &'static str = "synthetic";

/// A group a perfect score says little about: synthetic, without an error, and not empty.
pub open spec fn says_little(group: GroupReportModel) -> bool {
    alike(group.source, SYNTHETIC@) && group.confusion.perfect() && group.confusion.total() > 0
}

/// The first line of a caveat on a perfect score.
pub open spec fn perfect_line(judge: Seq<char>, group: GroupReportModel) -> Seq<char> {
    "`"@ + judge + "` scores perfectly on all "@ + decimal(group.documents as nat)
        + " synthetic document(s): "@ + decimal(group.confusion.total() as nat)
        + " page(s), 0 missed, 0 wasted."@
}

/// The note a perfect score on synthetic documents earns.
pub open spec fn perfect_caveat(judge: Seq<char>, group: GroupReportModel) -> CaveatModel {
    CaveatModel {
        judge: Some(judge),
        source: Some(group.source),
        documents: group.documents,
        lines: seq![
            perfect_line(judge, group),
            "A perfect score on synthetic fixtures measures non-regression, and nothing else."@,
            "It cannot separate judges: every page in these files either carries text"@,
            "operators or carries none, which is exactly the signal the heuristic reads,"@,
            "so no judge can score higher here and no two judges can be told apart."@,
            ""@,
            "Separating judges needs real documents where the text layer lies:"@,
            "  - a scanned page carrying a bad pre-existing OCR layer;"@,
            "  - a text page hidden under a full-page image watermark;"@,
            "  - a CID-font document with a broken ToUnicode map."@,
            "Add them to the manifest with a source of their own; see tests/corpus/README.md."@,
        ],
    }
}

/// The caveats on a judge's groups.
pub open spec fn perfect_caveats(judge: Seq<char>, groups: Seq<GroupReportModel>) -> Seq<
    CaveatModel,
>
    decreases groups.len(),
{
    if groups.len() == 0 {
        Seq::empty()
    } else if says_little(groups.last()) {
        perfect_caveats(judge, groups.drop_last()).push(perfect_caveat(judge, groups.last()))
    } else {
        perfect_caveats(judge, groups.drop_last())
    }
}

fn perfect_note(judge: &String, group: &GroupReport) -> (r: Caveat)
    requires
        group@.confusion.total() <= u32::MAX,
    ensures
        r@ == perfect_caveat(judge@, group@),
{
    let mut first: String = "`".to_owned();
    first.append(judge.as_str());
    first.append("` scores perfectly on all ");
    push_decimal(&mut first, group.documents as u64);
    first.append(" synthetic document(s): ");
    push_decimal(&mut first, group.confusion.pages() as u64);
    first.append(" page(s), 0 missed, 0 wasted.");
    let mut lines: Vec<String> = Vec::new();
    push_text(&mut lines, first);
    push_text(
        &mut lines,
        "A perfect score on synthetic fixtures measures non-regression, and nothing else.".to_owned(),
    );
    push_text(
        &mut lines,
        "It cannot separate judges: every page in these files either carries text".to_owned(),
    );
    push_text(
        &mut lines,
        "operators or carries none, which is exactly the signal the heuristic reads,".to_owned(),
    );
    push_text(
        &mut lines,
        "so no judge can score higher here and no two judges can be told apart.".to_owned(),
    );
    push_text(&mut lines, "".to_owned());
    push_text(
        &mut lines,
        "Separating judges needs real documents where the text layer lies:".to_owned(),
    );
    push_text(
        &mut lines,
        "  - a scanned page carrying a bad pre-existing OCR layer;".to_owned(),
    );
    push_text(
        &mut lines,
        "  - a text page hidden under a full-page image watermark;".to_owned(),
    );
    push_text(&mut lines, "  - a CID-font document with a broken ToUnicode map.".to_owned());
    push_text(
        &mut lines,
        "Add them to the manifest with a source of their own; see tests/corpus/README.md.".to_owned(),
    );
    let r = Caveat {
        judge: Some(judge.clone()),
        source: Some(group.source.clone()),
        documents: group.documents,
        lines,
    };
    assert(r@.lines =~= perfect_caveat(judge@, group@).lines);
    r
}

/// The notes a judge's perfect scores on synthetic documents earn: a floor, not a ranking.
pub fn caveats_for(report: &JudgeReport) -> (r: Vec<Caveat>)
    requires
        forall|i: int|
            0 <= i < report.by_source@.len() ==> (#[trigger] report.by_source@[i])@.confusion.total()
                <= u32::MAX,
    ensures
        caveat_models(r@) == perfect_caveats(report.judge@, group_models(report.by_source@)),
{
    let ghost groups = group_models(report.by_source@);
    let mut out: Vec<Caveat> = Vec::new();
    let mut i: usize = 0;
    assert(caveat_models(out@) =~= perfect_caveats(report.judge@, groups.take(0)));
    while i < report.by_source.len()
        invariant
            i <= report.by_source@.len(),
            groups == group_models(report.by_source@),
            forall|k: int|
                0 <= k < report.by_source@.len() ==> (
                #[trigger] report.by_source@[k])@.confusion.total() <= u32::MAX,
            caveat_models(out@) == perfect_caveats(report.judge@, groups.take(i as int)),
        decreases report.by_source@.len() - i,
    {
        let ghost before = out@;
        let group: &GroupReport = &report.by_source[i];
        proof {
            assert(groups.take(i + 1).drop_last() =~= groups.take(i as int));
            assert(groups.take(i + 1).last() == group@);
        }
        if are_alike(group.source.as_str(), SYNTHETIC) && group.confusion.is_perfect()
            && group.confusion.pages() > 0 {
            let note: Caveat = perfect_note(&report.judge, group);
            out.push(note);
            assert(caveat_models(out@) =~= caveat_models(before).push(note@));
        }
        i += 1;
    }
    assert(groups.take(i as int) =~= groups);
    out
}

/// What the money of the report does not price.
pub open spec fn cost_note(documents: u32) -> CaveatModel {
    CaveatModel {
        judge: None,
        source: None,
        documents,
        lines: seq![
            "The COST block's saving is arithmetic over this corpus, not a forecast."@,
            "  - It prices pages, linearly. Real OCR contracts have minimums, tiers and"@,
            "    per-document fees, so a saving of half the pages is not a saving of half"@,
            "    the bill."@,
            "  - The saving is measured against OCR-ing every page, which is the baseline"@,
            "    that needs no judge. It is not measured against whatever you route with"@,
            "    today, and this harness has never seen that."@,
            "  - It prices OCR and, if you passed a token price, the judge's own calls. It"@,
            "    does not price the judge's latency, its failures, or the engineering cost"@,
            "    of depending on a vendor."@,
            "  - `missed OCR` is priced as underspend and is never netted off. A judge can"@,
            "    still look cheap here while being wrong; the ceiling line is what makes"@,
            "    that visible, and the error counts above are what make it legible."@,
            "  - Token counts cover the whole run, every `--repeat` included, because that"@,
            "    is what the run was billed. One pass over the corpus costs proportionally"@,
            "    less."@,
        ],
    }
}

/// What the money of the report does not price, for a run over `documents` documents.
pub fn cost_caveat(documents: u32) -> (r: Caveat)
    ensures
        r@ == cost_note(documents),
{
    let mut lines: Vec<String> = Vec::new();
    push_text(
        &mut lines,
        "The COST block's saving is arithmetic over this corpus, not a forecast.".to_owned(),
    );
    push_text(
        &mut lines,
        "  - It prices pages, linearly. Real OCR contracts have minimums, tiers and".to_owned(),
    );
    push_text(
        &mut lines,
        "    per-document fees, so a saving of half the pages is not a saving of half".to_owned(),
    );
    push_text(
        &mut lines,
        "    the bill.".to_owned(),
    );
    push_text(
        &mut lines,
        "  - The saving is measured against OCR-ing every page, which is the baseline".to_owned(),
    );
    push_text(
        &mut lines,
        "    that needs no judge. It is not measured against whatever you route with".to_owned(),
    );
    push_text(
        &mut lines,
        "    today, and this harness has never seen that.".to_owned(),
    );
    push_text(
        &mut lines,
        "  - It prices OCR and, if you passed a token price, the judge's own calls. It".to_owned(),
    );
    push_text(
        &mut lines,
        "    does not price the judge's latency, its failures, or the engineering cost".to_owned(),
    );
    push_text(
        &mut lines,
        "    of depending on a vendor.".to_owned(),
    );
    push_text(
        &mut lines,
        "  - `missed OCR` is priced as underspend and is never netted off. A judge can".to_owned(),
    );
    push_text(
        &mut lines,
        "    still look cheap here while being wrong; the ceiling line is what makes".to_owned(),
    );
    push_text(
        &mut lines,
        "    that visible, and the error counts above are what make it legible.".to_owned(),
    );
    push_text(
        &mut lines,
        "  - Token counts cover the whole run, every `--repeat` included, because that".to_owned(),
    );
    push_text(
        &mut lines,
        "    is what the run was billed. One pass over the corpus costs proportionally".to_owned(),
    );
    push_text(
        &mut lines,
        "    less.".to_owned(),
    );
    let r = Caveat { judge: None, source: None, documents, lines };
    assert(r@.lines =~= cost_note(documents).lines);
    r
}

/// Every judge's caveats in judge order.
pub open spec fn all_perfect_caveats(reports: Seq<JudgeReport>) -> Seq<CaveatModel>
    decreases reports.len(),
{
    if reports.len() == 0 {
        Seq::empty()
    } else {
        all_perfect_caveats(reports.drop_last()) + perfect_caveats(
            reports.last().judge@,
            group_models(reports.last().by_source@),
        )
    }
}

/// What the run cannot tell: every judge's caveats, then the one on the money where anything
/// was scored.
pub fn run_caveats(reports: &Vec<JudgeReport>, documents_scored: u32) -> (r: Vec<Caveat>)
    requires
        forall|k: int, i: int|
            0 <= k < reports@.len() && 0 <= i < (#[trigger] reports@[k]).by_source@.len() ==> (
            #[trigger] reports@[k].by_source@[i])@.confusion.total() <= u32::MAX,
    ensures
        caveat_models(r@) == (if documents_scored > 0 {
            all_perfect_caveats(reports@).push(cost_note(documents_scored))
        } else {
            all_perfect_caveats(reports@)
        }),
{
    let mut out: Vec<Caveat> = Vec::new();
    let mut k: usize = 0;
    assert(caveat_models(out@) =~= all_perfect_caveats(reports@.take(0)));
    while k < reports.len()
        invariant
            k <= reports@.len(),
            forall|k: int, i: int|
                0 <= k < reports@.len() && 0 <= i < (#[trigger] reports@[k]).by_source@.len() ==> (
                #[trigger] reports@[k].by_source@[i])@.confusion.total() <= u32::MAX,
            caveat_models(out@) == all_perfect_caveats(reports@.take(k as int)),
        decreases reports@.len() - k,
    {
        let ghost start = caveat_models(out@);
        let mine: Vec<Caveat> = caveats_for(&reports[k]);
        let ghost more = caveat_models(mine@);
        proof {
            assert(reports@.take(k + 1).drop_last() =~= reports@.take(k as int));
            assert(reports@.take(k + 1).last() == reports@[k as int]);
        }
        let ghost all = mine@;
        assert(start + more.take(0) =~= start);
        for note in it: mine
            invariant
                it.seq() == all,
                more == caveat_models(all),
                caveat_models(out@) == start + more.take(it.index() as int),
        {
            let ghost before = out@;
            let ghost n = it.index();
            out.push(note);
            proof {
                assert(caveat_models(out@) =~= caveat_models(before).push(note@));
                assert(more[n as int] == note@);
                assert(caveat_models(out@) =~= start + more.take(n + 1));
            }
        }
        assert(more.take(more.len() as int) =~= more);
        k += 1;
    }
    assert(reports@.take(k as int) =~= reports@);
    if documents_scored > 0 {
        let ghost before = out@;
        let note: Caveat = cost_caveat(documents_scored);
        out.push(note);
        assert(caveat_models(out@) =~= caveat_models(before).push(note@));
    }
    out
}

/// A row is the run's own: the document's name and source, what the classification says of it,
/// and the score of its verdicts, with what that buys.
pub proof fn a_row_is_the_runs_own(
    label: Seq<char>,
    source: Seq<char>,
    truth: Seq<u32>,
    classification: ClassificationModel,
    verdicts: Seq<PageVerdictModel>,
    samples: Seq<u64>,
)
    ensures
        ({
            let row = row_of(label, source, truth, classification, verdicts, samples);
            let scores = scored(truth, verdicts);
            &&& row.file == label
            &&& row.source == source
            &&& row.page_count == classification.page_count
            &&& row.pdf_type == classification.pdf_type.text()
            &&& row.confusion == scores.confusion
            &&& row.missed_ocr_pages == scores.missed_ocr_pages
            &&& row.wasted_ocr_pages == scores.wasted_ocr_pages
            &&& row.cost == cost_of(scores.confusion)
            &&& row.samples == samples
            &&& row.route_exact <==> forall|i: int|
                0 <= i < verdicts.len() ==> ((#[trigger] verdicts[i]).needs_ocr <==> truth.contains(
                    verdicts[i].page,
                ))
        }),
{
    crate::bench::score::exact_routes_agree_on_every_page(truth, verdicts);
}

/// One more run adds one row and one confidence for each of its verdicts, behind what was there.
pub proof fn one_more_run_is_added_behind(
    rows: JudgeRowsModel,
    label: Seq<char>,
    document: CorpusDocument,
    run: DocumentRun,
)
    ensures
        ({
            let after = rows.with(label, document, run);
            let verdicts = verdict_models(run.verdicts@);
            let n = rows.confidences.len() as int;
            &&& after.documents.len() == rows.documents.len() + 1
            &&& forall|i: int|
                0 <= i < rows.documents.len() ==> #[trigger] after.documents[i] == rows.documents[i]
            &&& after.documents.last().file == label
            &&& after.documents.last().source == document.spec.source@
            &&& after.documents.last().page_count == run.classification@.page_count
            &&& after.documents.last().samples == run.samples@
            &&& after.documents.last().confusion == scored(document.truth@, verdicts).confusion
            &&& after.confidences.len() == n + verdicts.len()
            &&& forall|i: int| 0 <= i < n ==> #[trigger] after.confidences[i] == rows.confidences[i]
            &&& forall|i: int|
                0 <= i < verdicts.len() ==> (#[trigger] after.confidences[n + i]).confidence
                    == verdicts[i].confidence && (after.confidences[n + i].correct <==> (
                verdicts[i].needs_ocr <==> document.truth@.contains(verdicts[i].page)))
        }),
{
    let after = rows.with(label, document, run);
    let verdicts = verdict_models(run.verdicts@);
    let n = rows.confidences.len() as int;
    let more = confidences_of(document.truth@, verdicts);
    assert forall|i: int| 0 <= i < verdicts.len() implies (
    #[trigger] after.confidences[n + i]).confidence == verdicts[i].confidence && (
    after.confidences[n + i].correct <==> (verdicts[i].needs_ocr
        <==> document.truth@.contains(verdicts[i].page))) by {
        assert(after.confidences[n + i] == more[i]);
    }
}

/// One more row adds one document to a group, one exact route exactly when it is one, and each of
/// its counts.
pub proof fn one_more_row_is_added_to_its_group(
    source: Seq<char>,
    rows: Seq<DocumentReportModel>,
    next: DocumentReportModel,
)
    requires
        countable(rows.push(next)),
    ensures
        ({
            let before = group_of(source, rows);
            let after = group_of(source, rows.push(next));
            &&& after.source == source
            &&& after.documents == before.documents + 1
            &&& after.route_exact == before.route_exact + (if next.route_exact {
                1int
            } else {
                0int
            })
            &&& after.confusion.correct_ocr == before.confusion.correct_ocr
                + next.confusion.correct_ocr
            &&& after.confusion.correct_local == before.confusion.correct_local
                + next.confusion.correct_local
            &&& after.confusion.missed_ocr == before.confusion.missed_ocr
                + next.confusion.missed_ocr
            &&& after.confusion.wasted_ocr == before.confusion.wasted_ocr
                + next.confusion.wasted_ocr
            &&& after.cost == cost_of(after.confusion)
        }),
        group_of(source, Seq::<DocumentReportModel>::empty()).documents == 0,
        group_of(source, Seq::<DocumentReportModel>::empty()).route_exact == 0,
        group_of(source, Seq::<DocumentReportModel>::empty()).confusion.total() == 0,
{
    let all = rows.push(next);
    assert(all.drop_last() =~= rows);
    summed_counts(all);
    summed_counts(rows);
}

/// The rows of a source are those that name it, in order.
pub proof fn one_more_row_goes_to_its_source(
    rows: Seq<DocumentReportModel>,
    next: DocumentReportModel,
    source: Seq<char>,
)
    ensures
        rows_from(rows.push(next), source) == (if next.source == source {
            rows_from(rows, source).push(next)
        } else {
            rows_from(rows, source)
        }),
        rows_from(Seq::<DocumentReportModel>::empty(), source).len() == 0,
{
    assert(rows.push(next).drop_last() =~= rows);
}

/// There is a group for each source that has a row, in the order of the sources, made of that
/// source's rows, and no other.
pub proof fn there_is_a_group_for_each_source_in_use(
    rows: Seq<DocumentReportModel>,
    sources: Seq<Seq<char>>,
)
    ensures
        forall|g: int|
            0 <= g < groups_of(rows, sources).len() ==> {
                let group = #[trigger] groups_of(rows, sources)[g];
                &&& sources.contains(group.source)
                &&& rows_from(rows, group.source).len() > 0
                &&& group == group_of(group.source, rows_from(rows, group.source))
            },
        forall|s: int|
            0 <= s < sources.len() && rows_from(rows, #[trigger] sources[s]).len() > 0 ==> exists|
                g: int,
            |
                0 <= g < groups_of(rows, sources).len() && (#[trigger] groups_of(
                    rows,
                    sources,
                )[g]).source == sources[s],
    decreases sources.len(),
{
    if sources.len() > 0 {
        let rest = sources.drop_last();
        let n = rest.len() as int;
        let before = groups_of(rows, rest);
        let all = groups_of(rows, sources);
        there_is_a_group_for_each_source_in_use(rows, rest);
        assert forall|g: int| 0 <= g < all.len() implies {
            let group = #[trigger] all[g];
            &&& sources.contains(group.source)
            &&& rows_from(rows, group.source).len() > 0
            &&& group == group_of(group.source, rows_from(rows, group.source))
        } by {
            if g < before.len() {
                assert(all[g] == before[g]);
                let k = choose|k: int| 0 <= k < rest.len() && rest[k] == before[g].source;
                assert(sources[k] == all[g].source);
            } else {
                assert(sources[n] == all[g].source);
            }
        }
        assert forall|s: int|
            0 <= s < sources.len() && rows_from(rows, #[trigger] sources[s]).len()
                > 0 implies exists|g: int|
            0 <= g < all.len() && (#[trigger] all[g]).source == sources[s] by {
            if s < n {
                assert(rest[s] == sources[s]);
                let g = choose|g: int|
                    0 <= g < before.len() && (#[trigger] before[g]).source == rest[s];
                assert(all[g] == before[g]);
            } else {
                assert(all[all.len() - 1].source == sources[s]);
            }
        }
    }
}

/// A judge earns a caveat for exactly those of its groups that are synthetic, in any case of
/// letters, hold a page, and show no error; it is about that group.
pub proof fn one_more_group_earns_its_caveat(
    judge: Seq<char>,
    groups: Seq<GroupReportModel>,
    next: GroupReportModel,
)
    ensures
        ({
            let before = perfect_caveats(judge, groups);
            let after = perfect_caveats(judge, groups.push(next));
            let earned = alike(next.source, "synthetic"@) && next.confusion.missed_ocr == 0
                && next.confusion.wasted_ocr == 0 && next.confusion.total() > 0;
            &&& !earned ==> after == before
            &&& earned ==> {
                &&& after.len() == before.len() + 1
                &&& forall|i: int| 0 <= i < before.len() ==> #[trigger] after[i] == before[i]
                &&& after.last().judge == Some(judge)
                &&& after.last().source == Some(next.source)
                &&& after.last().documents == next.documents
                &&& after.last().lines.len() > 0
            }
        }),
        perfect_caveats(judge, Seq::<GroupReportModel>::empty()).len() == 0,
{
    assert(groups.push(next).drop_last() =~= groups);
}

/// One more document is handled: where it could not be scored it is one more failure, under its
/// name, with the judge and the words it failed with, and no judge gets a row; where it was, every
/// judge gets one more row and nothing fails.
pub proof fn one_more_document_is_handled(
    progress: &mut Progress,
    document: &CorpusDocument,
    outcome: Result<Vec<DocumentRun>, (String, String)>,
)
    requires
        old(progress).scored < u32::MAX,
        outcome matches Ok(runs) ==> runs@.len() == old(progress).judges@.len(),
        call_ensures(Progress::record, (progress, document, outcome), ()),
    ensures
        outcome is Err ==> {
            &&& final(progress).scored == old(progress).scored
            &&& final(progress).judges@ == old(progress).judges@
            &&& final(progress).failures@.len() == old(progress).failures@.len() + 1
            &&& final(progress).failures@.last()@.path == document.path@
            &&& final(progress).failures@.last()@.judge == Some(outcome->Err_0.0@)
            &&& final(progress).failures@.last()@.error == outcome->Err_0.1@
        },
        outcome is Ok ==> {
            &&& final(progress).scored == old(progress).scored + 1
            &&& final(progress).failures@ == old(progress).failures@
            &&& final(progress).judges@.len() == old(progress).judges@.len()
            &&& forall|j: int|
                0 <= j < old(progress).judges@.len() ==> (
                #[trigger] final(progress).judges@[j])@.documents.len()
                    == old(progress).judges@[j]@.documents.len() + 1
                    && final(progress).judges@[j]@.documents.last().source
                    == document.spec.source@
                    && final(progress).judges@[j]@.documents.last().page_count
                    == outcome->Ok_0@[j].classification@.page_count
                    && final(progress).judges@[j]@.documents.last().samples
                    == outcome->Ok_0@[j].samples@
        },
{
    let before = failure_models(old(progress).failures@);
    let after = failure_models(final(progress).failures@);
    if outcome is Err {
        assert(after.len() == before.len() + 1);
        assert(after.last() == final(progress).failures@.last()@);
    }
}

/// A judge's report is about its own rows: under its name, one row for each document, every
/// document together in one group, and what its calls used as it was handed in.
pub proof fn a_judges_report_is_about_its_own_rows(
    name: &str,
    baseline: bool,
    rows: JudgeRows,
    sources: &Vec<String>,
    spend: Option<JudgeSpend>,
    report: JudgeReport,
)
    requires
        countable(rows@.documents),
        rows@.confidences.len() <= u32::MAX,
        call_ensures(judge_report, (name, baseline, rows, sources, spend), report),
    ensures
        report.judge@ == name@,
        report.baseline == baseline,
        report.spend == spend,
        report.documents@.len() == rows@.documents.len(),
        forall|i: int|
            0 <= i < rows@.documents.len() ==> (#[trigger] report.documents@[i])@
                == rows@.documents[i],
        report.overall@.source == "all"@,
        rows@.documents.len() <= u32::MAX ==> report.overall@.documents == rows@.documents.len(),
{
    assert(row_models(report.documents@).len() == report.documents@.len());
    assert forall|i: int| 0 <= i < rows@.documents.len() implies (#[trigger] report.documents@[i])@
        == rows@.documents[i] by {
        assert(row_models(report.documents@)[i] == report.documents@[i]@);
    }
}

/// A run comes with the caveats its judges earn, judge by judge, and with the one on the cost
/// exactly when a document was scored.
pub proof fn a_run_comes_with_its_caveats(
    reports: &Vec<JudgeReport>,
    documents_scored: u32,
    caveats: Vec<Caveat>,
)
    requires
        call_ensures(run_caveats, (reports, documents_scored), caveats),
    ensures
        documents_scored == 0 ==> caveat_models(caveats@) == all_perfect_caveats(reports@),
        documents_scored > 0 ==> caveats@.len() == all_perfect_caveats(reports@).len() + 1
            && caveats@.last()@.judge is None && caveats@.last()@.documents == documents_scored
            && forall|i: int|
            0 <= i < all_perfect_caveats(reports@).len() ==> (#[trigger] caveats@[i])@
                == all_perfect_caveats(reports@)[i],
{
    let models = caveat_models(caveats@);
    assert(models.len() == caveats@.len());
    assert forall|i: int| 0 <= i < caveats@.len() implies (#[trigger] caveats@[i])@ == models[i] by {
    }
}

/// One more judge adds its own caveats, behind those of the judges before it.
pub proof fn one_more_judge_adds_its_caveats(reports: Seq<JudgeReport>, next: JudgeReport)
    ensures
        all_perfect_caveats(reports.push(next)) == all_perfect_caveats(reports) + perfect_caveats(
            next.judge@,
            group_models(next.by_source@),
        ),
        all_perfect_caveats(Seq::<JudgeReport>::empty()).len() == 0,
{
    assert(reports.push(next).drop_last() =~= reports);
}

} // verus!
