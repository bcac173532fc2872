//! Who decides which pages need OCR.
//!
//! The decision is a named component: the classifier gathers the evidence, a [`PageJudge`]
//! rules on it. One implementation lives here; any that needs the network lives outside.

use crate::error::{Error, ErrorModel};
use crate::number::Real32;
use crate::text::{opt_text, texts};
use vstd::prelude::*;

verus! {

/// Everything known about one page before deciding whether it needs OCR.
///
/// Every page of the document gets one of these, in page order, whether or not the inspector
/// flagged it. Page numbers are 0-indexed like everywhere else in this crate.
#[derive(Debug, PartialEq)]
pub struct PageEvidence {
    /// 0-indexed page number.
    pub page: u32,
    /// The page's extracted text, when the judge asked for it. `None` when the judge does not
    /// need text or extraction failed.
    pub text: Option<String>,
    /// The inspector's machine-readable reasons for flagging this page.
    pub reasons: Vec<String>,
    /// True when the inspector's own page list contains this page.
    pub flagged_by_inspector: bool,
    /// True when this page has detected table borders.
    pub has_tables: bool,
    /// True when this page has two or more detected text columns.
    pub has_columns: bool,
    /// Document-level: broken font encodings were detected somewhere.
    pub has_encoding_issues: bool,
}

/// A [`PageEvidence`] with its texts as character sequences.
#[verifier::ext_equal]
pub ghost struct PageEvidenceModel {
    pub page: u32,
    pub text: Option<Seq<char>>,
    pub reasons: Seq<Seq<char>>,
    pub flagged_by_inspector: bool,
    pub has_tables: bool,
    pub has_columns: bool,
    pub has_encoding_issues: bool,
}

impl View for PageEvidence {
    type V = PageEvidenceModel;

    open spec fn view(&self) -> PageEvidenceModel {
        PageEvidenceModel {
            page: self.page,
            text: opt_text(self.text),
            reasons: texts(self.reasons@),
            flagged_by_inspector: self.flagged_by_inspector,
            has_tables: self.has_tables,
            has_columns: self.has_columns,
            has_encoding_issues: self.has_encoding_issues,
        }
    }
}

impl Clone for PageEvidence {
    fn clone(&self) -> (r: Self)
        ensures
            r@ == self@,
    {
        PageEvidence {
            page: self.page,
            text: crate::text::clone_opt_text(&self.text),
            reasons: crate::text::clone_texts(&self.reasons),
            flagged_by_inspector: self.flagged_by_inspector,
            has_tables: self.has_tables,
            has_columns: self.has_columns,
            has_encoding_issues: self.has_encoding_issues,
        }
    }
}

/// The models of a list of evidence.
pub open spec fn evidence_models(evidence: Seq<PageEvidence>) -> Seq<PageEvidenceModel> {
    evidence.map_values(|e: PageEvidence| e@)
}

/// One judge's decision about one page.
#[derive(Debug, PartialEq)]
pub struct PageVerdict {
    /// 0-indexed page number. Must match the [`PageEvidence::page`] it answers.
    pub page: u32,
    /// True when this page should be routed to OCR rather than local extraction.
    pub needs_ocr: bool,
    /// 0–1. [`HeuristicJudge`] has no confidence of its own to report and always says 1.
    pub confidence: Real32,
    /// Why, in machine-readable form.
    pub reason: String,
}

/// A [`PageVerdict`] with its text as a character sequence.
#[verifier::ext_equal]
pub ghost struct PageVerdictModel {
    pub page: u32,
    pub needs_ocr: bool,
    pub confidence: Real32,
    pub reason: Seq<char>,
}

impl View for PageVerdict {
    type V = PageVerdictModel;

    open spec fn view(&self) -> PageVerdictModel {
        PageVerdictModel {
            page: self.page,
            needs_ocr: self.needs_ocr,
            confidence: self.confidence,
            reason: self.reason@,
        }
    }
}

impl Clone for PageVerdict {
    fn clone(&self) -> (r: Self)
        ensures
            r@ == self@,
    {
        PageVerdict {
            page: self.page,
            needs_ocr: self.needs_ocr,
            confidence: self.confidence,
            reason: self.reason.clone(),
        }
    }
}

/// The models of a list of verdicts.
pub open spec fn verdict_models(verdicts: Seq<PageVerdict>) -> Seq<PageVerdictModel> {
    verdicts.map_values(|v: PageVerdict| v@)
}

/// The model of a judge's answer.
pub open spec fn verdict_outcome(r: Result<Vec<PageVerdict>, Error>) -> Result<
    Seq<PageVerdictModel>,
    ErrorModel,
> {
    match r {
        Ok(verdicts) => Ok(verdict_models(verdicts@)),
        Err(error) => Err(error@),
    }
}

/// The boundary between the classifier and whatever decides a page needs OCR.
///
/// Implementations must be `Sync`: nothing here promises to stay on one thread.
pub trait PageJudge: Sync {
    /// `out` is something this judge may answer to `evidence`. An implementation that cannot
    /// say more, because a service decides, allows every answer.
    open spec fn may_answer(
        &self,
        evidence: Seq<PageEvidenceModel>,
        out: Result<Seq<PageVerdictModel>, ErrorModel>,
    ) -> bool {
        true
    }

    /// The identifier [`PageJudge::name`] returns; nothing is known of one that is not given.
    open spec fn identifier(&self) -> Seq<char> {
        arbitrary()
    }

    /// What [`PageJudge::needs_text`] returns; nothing is known of one that is not given.
    open spec fn wants_text(&self) -> bool {
        arbitrary()
    }

    /// Decide, for each page, whether it needs OCR. Verdicts must come back one per input
    /// page, in the same order; the classifier rejects anything else rather than guessing
    /// which page a verdict meant.
    fn judge(&self, evidence: &[PageEvidence]) -> (r: Result<Vec<PageVerdict>, Error>)
        ensures
            self.may_answer(evidence_models(evidence@), verdict_outcome(r)),
    ;

    /// A stable identifier for provenance and benchmarking, e.g. `"heuristic"`.
    fn name(&self) -> (r: &'static str)
        ensures
            r@ == self.identifier(),
    ;

    /// True when this judge needs [`PageEvidence::text`] populated. Filling it in costs a
    /// whole extra extraction pass.
    fn needs_text(&self) -> (r: bool)
        ensures
            r == self.wants_text(),
    ;
}

/// The reason recorded for a page the inspector flagged but gave no reason for.
pub const REASON_FLAGGED: &'static str = "inspector_flagged";

/// The reason recorded for a page the inspector did not flag.
pub const REASON_CLEAR: &'static str = "inspector_clear";

/// The judge that reproduces the inspector's own answer, unchanged.
///
/// `needs_ocr` is [`PageEvidence::flagged_by_inspector`] and nothing else: this is the
/// baseline any other judge is measured against. Its confidence is always 1: it copies an
/// answer rather than forming one, so it has no uncertainty of its own to report.
#[derive(Clone, Copy, Debug, PartialEq, Eq, Structural)]
pub struct HeuristicJudge;

impl Default for HeuristicJudge {
    fn default() -> (r: Self)
        ensures
            r == HeuristicJudge,
    {
        HeuristicJudge
    }
}

/// The heuristic verdict on one page: the inspector's flag, with the first reason it gave.
pub open spec fn heuristic_verdict(page: PageEvidenceModel) -> PageVerdictModel {
    PageVerdictModel {
        page: page.page,
        needs_ocr: page.flagged_by_inspector,
        confidence: Real32::spec_one(),
        reason: if !page.flagged_by_inspector {
            REASON_CLEAR@
        } else if page.reasons.len() > 0 {
            page.reasons[0]
        } else {
            REASON_FLAGGED@
        },
    }
}

/// The heuristic verdicts: one per page, in page order.
pub open spec fn heuristic_verdicts(evidence: Seq<PageEvidenceModel>) -> Seq<PageVerdictModel> {
    evidence.map_values(|e: PageEvidenceModel| heuristic_verdict(e))
}

/// The heuristic verdict on one page.
pub fn heuristic_verdict_on(page: &PageEvidence) -> (r: PageVerdict)
    ensures
        r@ == heuristic_verdict(page@),
{
    let reason: String = if page.flagged_by_inspector {
        if page.reasons.len() > 0 {
            page.reasons[0].clone()
        } else {
            REASON_FLAGGED.to_owned()
        }
    } else {
        REASON_CLEAR.to_owned()
    };
    PageVerdict {
        page: page.page,
        needs_ocr: page.flagged_by_inspector,
        confidence: Real32::one(),
        reason,
    }
}

impl HeuristicJudge {
    /// The heuristic verdicts, one per page in page order. This judge never fails.
    pub fn verdicts(&self, evidence: &[PageEvidence]) -> (r: Vec<PageVerdict>)
        ensures
            verdict_models(r@) == heuristic_verdicts(evidence_models(evidence@)),
    {
        let mut out: Vec<PageVerdict> = Vec::new();
        let mut i: usize = 0;
        while i < evidence.len()
            invariant
                i <= evidence@.len(),
                verdict_models(out@) == heuristic_verdicts(
                    evidence_models(evidence@.take(i as int)),
                ),
            decreases evidence@.len() - i,
        {
            let ghost before = out@;
            let ghost taken = evidence_models(evidence@.take(i as int));
            out.push(heuristic_verdict_on(&evidence[i]));
            assert(evidence_models(evidence@.take(i + 1)) =~= taken.push(evidence@[i as int]@));
            assert(verdict_models(out@) =~= verdict_models(before).push(out@.last()@));
            assert(verdict_models(out@) =~= heuristic_verdicts(taken.push(evidence@[i as int]@)));
            i += 1;
        }
        assert(evidence@.take(evidence@.len() as int) =~= evidence@);
        out
    }
}

impl PageJudge for HeuristicJudge {
    open spec fn may_answer(
        &self,
        evidence: Seq<PageEvidenceModel>,
        out: Result<Seq<PageVerdictModel>, ErrorModel>,
    ) -> bool {
        out == Ok::<Seq<PageVerdictModel>, ErrorModel>(heuristic_verdicts(evidence))
    }

    open spec fn identifier(&self) -> Seq<char> {
        "heuristic"@
    }

    open spec fn wants_text(&self) -> bool {
        false
    }

    fn judge(&self, evidence: &[PageEvidence]) -> (r: Result<Vec<PageVerdict>, Error>) {
        Ok(self.verdicts(evidence))
    }

    fn name(&self) -> (r: &'static str) {
        "heuristic"
    }

    fn needs_text(&self) -> (r: bool) {
        false
    }
}

/// The baseline gives one verdict per page, in order, and takes the inspector's flag as the
/// answer.
pub proof fn heuristic_reproduces_the_flags(evidence: Seq<PageEvidenceModel>)
    ensures
        heuristic_verdicts(evidence).len() == evidence.len(),
        forall|i: int|
            0 <= i < evidence.len() ==> (#[trigger] heuristic_verdicts(evidence)[i]).page
                == evidence[i].page && heuristic_verdicts(evidence)[i].needs_ocr
                == evidence[i].flagged_by_inspector && heuristic_verdicts(evidence)[i].confidence
                == Real32::spec_one(),
{
}

/// The baseline's reason is the first the inspector gave for a page it flagged, says so where it
/// gave none, and says that a page was not flagged where it was not.
pub proof fn the_baseline_gives_the_inspectors_reason(evidence: Seq<PageEvidenceModel>)
    ensures
        forall|i: int|
            0 <= i < evidence.len() ==> {
                let reason = (#[trigger] heuristic_verdicts(evidence)[i]).reason;
                let page = evidence[i];
                &&& page.flagged_by_inspector && page.reasons.len() > 0 ==> reason
                    == page.reasons[0]
                &&& page.flagged_by_inspector && page.reasons.len() == 0 ==> reason
                    == "inspector_flagged"@
                &&& !page.flagged_by_inspector ==> reason == "inspector_clear"@
            },
        forall|i: int|
            0 <= i < evidence.len() ==> (#[trigger] heuristic_verdicts(evidence)[i]).confidence.bits
                == 0x3f80_0000,
{
}

} // verus!
