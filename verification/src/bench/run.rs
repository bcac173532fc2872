//! Running every judge over every document and collecting the counts.

use crate::bench::corpus::CorpusDocument;
use crate::bench::score::{scored, sent_pages};
use crate::classify::{
    classify_judged, evidence_list, may_classify, may_conclude, may_follow, normalized,
    verdict_fault, AnalysisModel, Classification, ClassificationModel,
};
use crate::error::{Error, ErrorModel};
use crate::inspector::DetectionModel;
use crate::judge::{
    verdict_models, PageEvidenceModel, PageJudge, PageVerdict, PageVerdictModel,
};
use crate::order::kept;
use crate::text::{bracket_pages, bracketed, decimal, opt_text, push_decimal, texts};
use vstd::prelude::*;
use vstd::string::*;

verus! {

/// One judge's raw output for one document, before scoring.
#[derive(Debug)]
pub struct DocumentRun {
    /// What the last of the repeated classifications says.
    pub classification: Classification,
    /// The verdicts it was drawn from.
    pub verdicts: Vec<PageVerdict>,
    /// How long each of the repeated classifications took, in nanoseconds.
    pub samples: Vec<u64>,
}

/// Why a classification cannot be scored against the manifest's row: the page counts differ,
/// or the verdicts are not those of the classification.
pub open spec fn run_fault(
    judge: Seq<char>,
    page_count: u32,
    truth: Seq<u32>,
    classification: ClassificationModel,
    verdicts: Seq<PageVerdictModel>,
) -> Option<Seq<char>> {
    if classification.page_count != page_count {
        Some(
            "page_count mismatch: the manifest declares "@ + decimal(page_count as nat)
                + " page(s), the classifier reports "@ + decimal(classification.page_count as nat)
                + ". The manifest's 0-indexed needs_ocr list ("@ + bracketed(truth)
               
                    + ") therefore describes a different document; excluded from the score rather than scored against the wrong pages"@,
        )
    } else if verdicts.len() != classification.page_count {
        Some(
            "judge `"@ + judge + "` produced "@ + decimal(verdicts.len()) + " verdict(s) for "@
                + decimal(classification.page_count as nat) + " page(s)"@,
        )
    } else if sent_pages(verdicts) != classification.pages_needing_ocr {
        Some(
            "judge `"@ + judge + "` verdicts route "@ + bracketed(sent_pages(verdicts))
                + " but the classification says "@ + bracketed(classification.pages_needing_ocr),
        )
    } else {
        None
    }
}

/// The pages of the verdicts that send to OCR, in verdict order.
fn pages_sent(verdicts: &Vec<PageVerdict>) -> (r: Vec<u32>)
    ensures
        r@ == sent_pages(verdict_models(verdicts@)),
{
    let ghost all = verdict_models(verdicts@);
    let mut out: Vec<u32> = Vec::new();
    let mut i: usize = 0;
    assert(all.take(0) =~= Seq::empty());
    while i < verdicts.len()
        invariant
            i <= verdicts@.len(),
            all == verdict_models(verdicts@),
            out@ == sent_pages(all.take(i as int)),
        decreases verdicts@.len() - i,
    {
        proof {
            assert(all.take(i + 1).drop_last() =~= all.take(i as int));
            assert(all.take(i + 1).last() == verdicts@[i as int]@);
        }
        if verdicts[i].needs_ocr {
            out.push(verdicts[i].page);
        }
        i += 1;
    }
    assert(all.take(i as int) =~= all);
    out
}

fn same_numbers(a: &Vec<u32>, b: &Vec<u32>) -> (r: bool)
    ensures
        r == (a@ == b@),
{
    if a.len() != b.len() {
        return false;
    }
    let mut i: usize = 0;
    while i < a.len()
        invariant
            i <= a@.len() == b@.len(),
            forall|k: int| 0 <= k < i ==> a@[k] == b@[k],
        decreases a@.len() - i,
    {
        if a[i] != b[i] {
            assert(a@[i as int] != b@[i as int]);
            return false;
        }
        i += 1;
    }
    assert(a@ =~= b@);
    true
}

/// Hold a classification against the manifest's row before anyone scores it. A mismatch would
/// score a judge against page numbers that describe a different document.
pub fn check_run(
    judge: &str,
    document: &CorpusDocument,
    classification: &Classification,
    verdicts: &Vec<PageVerdict>,
) -> (r: Option<String>)
    ensures
        opt_text(r) == run_fault(
            judge@,
            document.spec.page_count,
            document.truth@,
            classification@,
            verdict_models(verdicts@),
        ),
{
    if classification.page_count != document.spec.page_count {
        let mut text: String = "page_count mismatch: the manifest declares ".to_owned();
        push_decimal(&mut text, document.spec.page_count as u64);
        text.append(" page(s), the classifier reports ");
        push_decimal(&mut text, classification.page_count as u64);
        text.append(". The manifest's 0-indexed needs_ocr list (");
        text.append(bracket_pages(document.truth.as_slice()).as_str());
        text.append(
            ") therefore describes a different document; excluded from the score rather than scored against the wrong pages",
        );
        return Some(text);
    }
    if verdicts.len() as u64 != classification.page_count as u64 {
        let mut text: String = "judge `".to_owned();
        text.append(judge);
        text.append("` produced ");
        push_decimal(&mut text, verdicts.len() as u64);
        text.append(" verdict(s) for ");
        push_decimal(&mut text, classification.page_count as u64);
        text.append(" page(s)");
        return Some(text);
    }
    let routed: Vec<u32> = pages_sent(verdicts);
    if !same_numbers(&routed, &classification.pages_needing_ocr) {
        let mut text: String = "judge `".to_owned();
        text.append(judge);
        text.append("` verdicts route ");
        text.append(bracket_pages(routed.as_slice()).as_str());
        text.append(" but the classification says ");
        text.append(bracket_pages(classification.pages_needing_ocr.as_slice()).as_str());
        return Some(text);
    }
    None
}

/// How a failed classification reads.
pub open spec fn unclassified(path: Seq<char>, error: ErrorModel) -> Seq<char> {
    "could not classify "@ + path + ": "@ + error.text()
}

/// What one classification of a document came to: what it says with the verdicts it was drawn
/// from, or the error.
pub type Round = Result<(ClassificationModel, Seq<PageVerdictModel>), ErrorModel>;

/// The model of one classification's outcome.
pub open spec fn round_of(outcome: Result<(Classification, Vec<PageVerdict>), Error>) -> Round {
    match outcome {
        Ok((classification, verdicts)) => Ok((classification@, verdict_models(verdicts@))),
        Err(error) => Err(error@),
    }
}

/// The repeated classifications of one document, as far as they have gone.
#[derive(Debug)]
pub struct Repeats {
    /// How long each of them took, in nanoseconds.
    pub samples: Vec<u64>,
    /// What the last of them says, and the verdicts it was drawn from.
    pub latest: Option<(Classification, Vec<PageVerdict>)>,
}

/// A [`Repeats`] over sequences.
#[verifier::ext_equal]
pub ghost struct RepeatsModel {
    pub samples: Seq<u64>,
    pub latest: Option<(ClassificationModel, Seq<PageVerdictModel>)>,
}

impl View for Repeats {
    type V = RepeatsModel;

    open spec fn view(&self) -> RepeatsModel {
        RepeatsModel {
            samples: self.samples@,
            latest: match self.latest {
                Some((classification, verdicts)) => Some(
                    (classification@, verdict_models(verdicts@)),
                ),
                None => None,
            },
        }
    }
}

impl RepeatsModel {
    /// No classification yet.
    pub open spec fn none() -> RepeatsModel {
        RepeatsModel { samples: Seq::empty(), latest: None }
    }

    /// One more classification: its time is one more sample, and it is the latest.
    pub open spec fn with(
        self,
        judged: (ClassificationModel, Seq<PageVerdictModel>),
    ) -> RepeatsModel {
        RepeatsModel {
            samples: self.samples.push(judged.0.classify_nanos),
            latest: Some(judged),
        }
    }
}

/// What a run of classifications comes to, one by one: the first that fails ends it with its
/// text.
pub open spec fn repeated(path: Seq<char>, rounds: Seq<Round>) -> Result<RepeatsModel, Seq<char>>
    decreases rounds.len(),
{
    if rounds.len() == 0 {
        Ok(RepeatsModel::none())
    } else {
        match repeated(path, rounds.drop_last()) {
            Err(text) => Err(text),
            Ok(before) => match rounds.last() {
                Err(error) => Err(unclassified(path, error)),
                Ok(judged) => Ok(before.with(judged)),
            },
        }
    }
}

/// The model of a run or why there is none: what it says, its verdicts and its samples.
pub open spec fn run_model(r: Result<DocumentRun, String>) -> Result<
    (ClassificationModel, Seq<PageVerdictModel>, Seq<u64>),
    Seq<char>,
> {
    match r {
        Ok(run) => Ok((run.classification@, verdict_models(run.verdicts@), run.samples@)),
        Err(text) => Err(text@),
    }
}

/// What the classifications of a document are worth: the latest of them with all their samples,
/// unless it cannot be scored against the manifest's row.
pub open spec fn finished(
    judge: Seq<char>,
    document: CorpusDocument,
    repeats: RepeatsModel,
) -> Result<(ClassificationModel, Seq<PageVerdictModel>, Seq<u64>), Seq<char>> {
    let (classification, verdicts) = repeats.latest->0;
    match run_fault(
        judge,
        document.spec.page_count,
        document.truth@,
        classification,
        verdicts,
    ) {
        Some(text) => Err(text),
        None => Ok((classification, verdicts, repeats.samples)),
    }
}

impl Repeats {
    /// No classification yet.
    pub fn new() -> (r: Self)
        ensures
            r@ == RepeatsModel::none(),
    {
        Repeats { samples: Vec::new(), latest: None }
    }

    /// Take one more classification. A failed one changes nothing, and its text is the result.
    pub fn take(
        &mut self,
        document: &CorpusDocument,
        outcome: Result<(Classification, Vec<PageVerdict>), Error>,
    ) -> (r: Option<String>)
        ensures
            match round_of(outcome) {
                Ok(judged) => r is None && final(self)@ == old(self)@.with(judged),
                Err(error) => opt_text(r) == Some(unclassified(document.path@, error))
                    && final(self)@ == old(self)@,
            },
    {
        match outcome {
            Ok(judged) => {
                self.samples.push(judged.0.classify_nanos);
                self.latest = Some(judged);
                None
            },
            Err(error) => {
                let mut text: String = "could not classify ".to_owned();
                text.append(document.path.as_str());
                text.append(": ");
                text.append(error.message().as_str());
                Some(text)
            },
        }
    }

    /// Hold the latest classification against the manifest's row.
    pub fn finish(self, judge: &str, document: &CorpusDocument) -> (r: Result<DocumentRun, String>)
        requires
            self.latest is Some,
        ensures
            run_model(r) == finished(judge@, *document, self@),
    {
        let samples: Vec<u64> = self.samples;
        let (classification, verdicts): (Classification, Vec<PageVerdict>) = self.latest.unwrap();
        match check_run(judge, document, &classification, &verdicts) {
            Some(text) => Err(text),
            None => Ok(DocumentRun { classification, verdicts, samples }),
        }
    }
}

/// A classification of `bytes` under `judge` may come to this.
pub open spec fn may_round<J: PageJudge + ?Sized>(
    bytes: Seq<u8>,
    judge: &J,
    round: Round,
) -> bool {
    match round {
        Ok((classification, verdicts)) => may_classify(bytes, judge, Ok(classification))
            && may_follow(bytes, judge, verdicts, classification),
        Err(error) => may_classify(bytes, judge, Err(error)),
    }
}

/// `rounds` are classifications of `bytes` under `judge`: as many as asked for, or up to the
/// first that fails.
pub open spec fn may_rounds<J: PageJudge + ?Sized>(
    bytes: Seq<u8>,
    judge: &J,
    repeat: u32,
    rounds: Seq<Round>,
) -> bool {
    &&& 1 <= rounds.len() <= repeat
    &&& forall|k: int| 0 <= k < rounds.len() ==> may_round(bytes, judge, #[trigger] rounds[k])
    &&& forall|k: int| 0 <= k < rounds.len() - 1 ==> (#[trigger] rounds[k]) is Ok
    &&& rounds.len() == repeat || rounds.last() is Err
}

/// `r` is something a document's repeated classifications may come to.
pub open spec fn may_come_to<J: PageJudge + ?Sized>(
    bytes: Seq<u8>,
    judge: &J,
    repeat: u32,
    document: CorpusDocument,
    r: Result<DocumentRun, String>,
) -> bool {
    exists|rounds: Seq<Round>| #[trigger]
        may_rounds(bytes, judge, repeat, rounds) && run_model(r) == match repeated(
            document.path@,
            rounds,
        ) {
            Err(text) => Err(text),
            Ok(repeats) => finished(judge.identifier(), document, repeats),
        }
}

/// Classify one document `repeat` times with one judge, and hold the last result against the
/// manifest before anyone scores it.
pub fn run_document<J: PageJudge + ?Sized>(
    bytes: &[u8],
    judge: &J,
    repeat: u32,
    document: &CorpusDocument,
) -> (r: Result<DocumentRun, String>)
    requires
        repeat > 0,
    ensures
        may_come_to(bytes@, judge, repeat, *document, r),
{
    let mut repeats = Repeats::new();
    let ghost mut rounds: Seq<Round> = Seq::empty();
    let mut i: u32 = 0;
    while i < repeat
        invariant
            i <= repeat,
            rounds.len() == i,
            forall|k: int|
                0 <= k < rounds.len() ==> may_round(bytes@, judge, #[trigger] rounds[k])
                    && rounds[k] is Ok,
            repeated(document.path@, rounds) == Ok::<RepeatsModel, Seq<char>>(repeats@),
            i > 0 ==> repeats.latest is Some,
        decreases repeat - i,
    {
        let outcome = classify_judged(bytes, judge);
        let ghost round = round_of(outcome);
        let ghost before = rounds;
        proof {
            rounds = rounds.push(round);
            assert(rounds.drop_last() =~= before);
            assert(may_round(bytes@, judge, round));
        }
        if let Some(text) = repeats.take(document, outcome) {
            assert(may_rounds(bytes@, judge, repeat, rounds));
            return Err(text);
        }
        assert(repeats@.latest is Some);
        i += 1;
    }
    assert(may_rounds(bytes@, judge, repeat, rounds));
    repeats.finish(judge.name(), document)
}

/// A run that succeeds has one sample for each classification asked for, each the time of one of
/// them, and says what the last of them says.
pub proof fn every_classification_is_a_sample<J: PageJudge + ?Sized>(
    bytes: Seq<u8>,
    judge: &J,
    repeat: u32,
    document: CorpusDocument,
    run: DocumentRun,
)
    requires
        may_come_to(bytes, judge, repeat, document, Ok(run)),
    ensures
        run.samples@.len() == repeat,
        run.samples@.last() == run.classification@.classify_nanos,
        may_classify(bytes, judge, Ok(run.classification@)),
        may_follow(bytes, judge, verdict_models(run.verdicts@), run.classification@),
        forall|k: int|
            0 <= k < repeat ==> exists|classification: ClassificationModel|
                classification.classify_nanos == #[trigger] run.samples@[k]
                    && #[trigger] may_classify(bytes, judge, Ok(classification)),
{
    let r = Ok::<DocumentRun, String>(run);
    let rounds = choose|rounds: Seq<Round>| #[trigger]
        may_rounds(bytes, judge, repeat, rounds) && run_model(r) == match repeated(
            document.path@,
            rounds,
        ) {
            Err(text) => Err(text),
            Ok(repeats) => finished(judge.identifier(), document, repeats),
        };
    samples_are_times(document.path@, rounds);
    assert(may_round(bytes, judge, rounds[rounds.len() - 1]));
    assert forall|k: int| 0 <= k < repeat implies exists|classification: ClassificationModel|
        classification.classify_nanos == #[trigger] run.samples@[k] && #[trigger] may_classify(
            bytes,
            judge,
            Ok(classification),
        ) by {
        assert(may_round(bytes, judge, rounds[k]));
        assert(may_classify(bytes, judge, Ok((rounds[k]->Ok_0).0)));
    }
}

proof fn samples_are_times(path: Seq<char>, rounds: Seq<Round>)
    requires
        repeated(path, rounds) is Ok,
    ensures
        repeated(path, rounds)->Ok_0.samples.len() == rounds.len(),
        rounds.len() > 0 ==> rounds.last() is Ok && repeated(path, rounds)->Ok_0.latest == Some(
            rounds.last()->Ok_0,
        ),
        forall|k: int|
            0 <= k < rounds.len() ==> (#[trigger] rounds[k]) is Ok && repeated(
                path,
                rounds,
            )->Ok_0.samples[k] == (rounds[k]->Ok_0).0.classify_nanos,
    decreases rounds.len(),
{
    if rounds.len() > 0 {
        let rest = rounds.drop_last();
        samples_are_times(path, rest);
        assert forall|k: int| 0 <= k < rounds.len() implies (#[trigger] rounds[k]) is Ok
            && repeated(path, rounds)->Ok_0.samples[k] == (rounds[k]->Ok_0).0.classify_nanos by {
            if k < rest.len() {
                assert(rest[k] == rounds[k]);
            }
        }
    }
}

proof fn verdicts_number_the_pages(
    judge: Seq<char>,
    evidence: Seq<PageEvidenceModel>,
    verdicts: Seq<PageVerdictModel>,
    page_count: u32,
    i: int,
)
    requires
        0 <= i <= verdicts.len() == evidence.len(),
        verdict_fault(judge, evidence, verdicts, page_count, i) is None,
    ensures
        forall|k: int| i <= k < verdicts.len() ==> (#[trigger] verdicts[k]).page == evidence[k].page,
    decreases verdicts.len() - i,
{
    if i < verdicts.len() {
        verdicts_number_the_pages(judge, evidence, verdicts, page_count, i + 1);
    }
}

proof fn sent_are_kept(verdicts: Seq<PageVerdictModel>, n: int)
    requires
        0 <= n <= verdicts.len() <= u32::MAX,
        forall|k: int| 0 <= k < verdicts.len() ==> (#[trigger] verdicts[k]).page == k,
    ensures
        sent_pages(verdicts.take(n)) == kept(
            n as nat,
            |p: u32|
                exists|i: int|
                    0 <= i < verdicts.len() && (#[trigger] verdicts[i]).page == p
                        && verdicts[i].needs_ocr,
        ),
    decreases n,
{
    let keep = |p: u32|
        exists|i: int|
            0 <= i < verdicts.len() && (#[trigger] verdicts[i]).page == p && verdicts[i].needs_ocr;
    if n > 0 {
        sent_are_kept(verdicts, n - 1);
        assert(verdicts.take(n).drop_last() =~= verdicts.take(n - 1));
        assert(verdicts.take(n).last() == verdicts[n - 1]);
        assert(verdicts[n - 1].page == n - 1);
        assert(keep((n - 1) as u32) == verdicts[n - 1].needs_ocr) by {
            if keep((n - 1) as u32) {
                let i = choose|i: int|
                    0 <= i < verdicts.len() && (#[trigger] verdicts[i]).page == (n - 1) as u32
                        && verdicts[i].needs_ocr;
                assert(verdicts[i].page == i);
            }
        }
    } else {
        assert(verdicts.take(0) =~= Seq::empty());
    }
}

/// The verdicts a classification was drawn from are one per page, in page order, and send to
/// OCR exactly the pages it lists. Only the manifest's page count can be at odds with it.
pub proof fn a_classification_agrees_with_its_verdicts<J: PageJudge + ?Sized>(
    bytes: Seq<u8>,
    judge: &J,
    verdicts: Seq<PageVerdictModel>,
    classification: ClassificationModel,
    truth: Seq<u32>,
)
    requires
        may_follow(bytes, judge, verdicts, classification),
    ensures
        verdicts.len() == classification.page_count,
        forall|k: int| 0 <= k < verdicts.len() ==> (#[trigger] verdicts[k]).page == k,
        sent_pages(verdicts) == classification.pages_needing_ocr,
        run_fault(
            judge.identifier(),
            classification.page_count,
            truth,
            classification,
            verdicts,
        ) is None,
{
    let (detection, analysis, texts) = choose|
        detection: DetectionModel,
        analysis: AnalysisModel,
        texts: Seq<Option<Seq<char>>>,
    | #[trigger]
        may_conclude(bytes, judge, detection, analysis, texts, Ok(verdicts), Ok(classification));
    let evidence = evidence_list(
        normalized(detection.pages_needing_ocr, detection.page_count),
        analysis,
        texts,
    );
    verdicts_number_the_pages(
        judge.identifier(),
        evidence,
        verdicts,
        detection.page_count,
        0,
    );
    assert(texts.len() == detection.page_count);
    assert forall|k: int| 0 <= k < verdicts.len() implies (#[trigger] verdicts[k]).page == k by {
        assert(verdicts[k].page == evidence[k].page);
    }
    sent_are_kept(verdicts, verdicts.len() as int);
    assert(verdicts.take(verdicts.len() as int) =~= verdicts);
}

/// `runs` is something these judges may come to on a document, one by one.
pub open spec fn may_come_to_all<J: PageJudge + ?Sized>(
    bytes: Seq<u8>,
    judges: Seq<Box<J>>,
    repeat: u32,
    document: CorpusDocument,
    runs: Seq<DocumentRun>,
) -> bool {
    &&& runs.len() <= judges.len()
    &&& forall|i: int|
        0 <= i < runs.len() ==> may_come_to(
            bytes,
            &*judges[i],
            repeat,
            document,
            Ok(#[trigger] runs[i]),
        )
}

/// Run every judge on one document. One judge failing means the document's truth cannot be
/// trusted for any of them, so the first failure is the result.
pub fn run_judges<J: PageJudge + ?Sized>(
    bytes: &[u8],
    judges: &Vec<Box<J>>,
    repeat: u32,
    document: &CorpusDocument,
) -> (r: Result<Vec<DocumentRun>, (String, String)>)
    requires
        repeat > 0,
    ensures
        match r {
            Ok(runs) => runs@.len() == judges@.len() && may_come_to_all(
                bytes@,
                judges@,
                repeat,
                *document,
                runs@,
            ),
            Err((name, text)) => exists|earlier: Seq<DocumentRun>| #[trigger]
                may_come_to_all(bytes@, judges@, repeat, *document, earlier) && earlier.len()
                    < judges@.len() && name@ == judges@[earlier.len() as int].identifier()
                    && may_come_to(
                    bytes@,
                    &*judges@[earlier.len() as int],
                    repeat,
                    *document,
                    Err(text),
                ),
        },
{
    let mut runs: Vec<DocumentRun> = Vec::new();
    let mut i: usize = 0;
    while i < judges.len()
        invariant
            i <= judges@.len(),
            repeat > 0,
            runs@.len() == i,
            may_come_to_all(bytes@, judges@, repeat, *document, runs@),
        decreases judges@.len() - i,
    {
        let judge: &J = &*judges[i];
        match run_document(bytes, judge, repeat, document) {
            Ok(run) => {
                runs.push(run);
            },
            Err(text) => {
                let name: String = judge.name().to_owned();
                assert(may_come_to(bytes@, &*judges@[i as int], repeat, *document, Err(text)));
                return Err((name, text));
            },
        }
        i += 1;
    }
    Ok(runs)
}

/// A classification is scored exactly when it has as many pages as the manifest says, one verdict
/// for each, and lists the very pages its verdicts send, in their order.
pub proof fn when_a_run_is_scored(
    judge: Seq<char>,
    page_count: u32,
    truth: Seq<u32>,
    classification: ClassificationModel,
    verdicts: Seq<PageVerdictModel>,
)
    ensures
        run_fault(judge, page_count, truth, classification, verdicts) is None <==> {
            &&& classification.page_count == page_count
            &&& verdicts.len() == page_count
            &&& sent_pages(verdicts) == classification.pages_needing_ocr
        },
{
}

/// The pages verdicts send are those of the verdicts that need OCR, in verdict order.
pub proof fn one_more_verdict_sends_its_page(
    verdicts: Seq<PageVerdictModel>,
    next: PageVerdictModel,
)
    ensures
        sent_pages(verdicts.push(next)) == (if next.needs_ocr {
            sent_pages(verdicts).push(next.page)
        } else {
            sent_pages(verdicts)
        }),
        sent_pages(Seq::<PageVerdictModel>::empty()).len() == 0,
{
    assert(verdicts.push(next).drop_last() =~= verdicts);
}

/// A run ends with the first classification that fails, and says so in its words; when none
/// fails it is worth what the last one says.
pub proof fn a_run_ends_with_the_first_failure(path: Seq<char>, rounds: Seq<Round>)
    ensures
        repeated(path, rounds) is Ok <==> forall|k: int|
            0 <= k < rounds.len() ==> (#[trigger] rounds[k]) is Ok,
        repeated(path, rounds) is Err ==> exists|k: int|
            0 <= k < rounds.len() && (#[trigger] rounds[k]) is Err && repeated(path, rounds)
                == Err::<RepeatsModel, Seq<char>>(
                "could not classify "@ + path + ": "@ + rounds[k]->Err_0.text(),
            ) && forall|i: int| 0 <= i < k ==> (#[trigger] rounds[i]) is Ok,
    decreases rounds.len(),
{
    if rounds.len() > 0 {
        let rest = rounds.drop_last();
        let n = rest.len() as int;
        a_run_ends_with_the_first_failure(path, rest);
        if repeated(path, rest) is Err {
            let k = choose|k: int|
                0 <= k < rest.len() && (#[trigger] rest[k]) is Err && repeated(path, rest) == Err::<
                    RepeatsModel,
                    Seq<char>,
                >("could not classify "@ + path + ": "@ + rest[k]->Err_0.text()) && forall|i: int|
                    0 <= i < k ==> (#[trigger] rest[i]) is Ok;
            assert(rounds[k] == rest[k]);
            assert forall|i: int| 0 <= i < k implies (#[trigger] rounds[i]) is Ok by {
                assert(rest[i] == rounds[i]);
            }
        } else {
            assert forall|i: int| 0 <= i < n implies (#[trigger] rounds[i]) is Ok by {
                assert(rest[i] == rounds[i]);
            }
            assert(rounds[n] == rounds.last());
        }
    }
}

/// What is taken of one classification: its time as one more sample, and itself as the latest; a
/// failure is put in words with the document's path, and changes nothing.
pub proof fn what_is_taken_of_a_classification(
    repeats: &mut Repeats,
    document: &CorpusDocument,
    outcome: Result<(Classification, Vec<PageVerdict>), Error>,
    failed: Option<String>,
)
    requires
        call_ensures(Repeats::take, (repeats, document, outcome), failed),
    ensures
        failed is Some <==> outcome is Err,
        outcome is Err ==> final(repeats)@ == old(repeats)@ && failed->0@ == "could not classify "@
            + document.path@ + ": "@ + outcome->Err_0@.text(),
        outcome is Ok ==> {
            let after = final(repeats)@;
            &&& after.samples == old(repeats)@.samples.push(outcome->Ok_0.0@.classify_nanos)
            &&& after.latest == Some((outcome->Ok_0.0@, verdict_models(outcome->Ok_0.1@)))
        },
{
}

/// A run that is scored has a sample for each time the document was classified, and the
/// classification and the verdicts of the last time.
pub proof fn a_run_has_a_sample_for_each_round(path: Seq<char>, rounds: Seq<Round>)
    requires
        repeated(path, rounds) is Ok,
    ensures
        ({
            let run = repeated(path, rounds)->Ok_0;
            &&& run.samples.len() == rounds.len()
            &&& forall|i: int|
                0 <= i < rounds.len() ==> #[trigger] run.samples[i]
                    == rounds[i]->Ok_0.0.classify_nanos
            &&& rounds.len() > 0 ==> run.latest == Some(rounds.last()->Ok_0)
        }),
    decreases rounds.len(),
{
    if rounds.len() > 0 {
        a_run_has_a_sample_for_each_round(path, rounds.drop_last());
        let run = repeated(path, rounds)->Ok_0;
        let before = repeated(path, rounds.drop_last())->Ok_0;
        assert forall|i: int| 0 <= i < rounds.len() implies #[trigger] run.samples[i]
            == rounds[i]->Ok_0.0.classify_nanos by {
            if i < before.samples.len() {
                assert(run.samples[i] == before.samples[i]);
            }
        }
    }
}

} // verus!
