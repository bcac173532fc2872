//! Execution: run a decision's legs and merge them back into one result.

use crate::classify::ClassificationModel;
use crate::config::{Config, ConfigModel, Tier};
use crate::error::{Error, ErrorModel};
use crate::extract::{
    extract_local, may_extract_local, ocr_outcome, opt_pages, OcrResult, OcrResultModel,
};
use crate::inspector::countable;
use crate::judge::{HeuristicJudge, PageJudge};
use crate::merge::{
    answers_for_pages, attributed, merge, merged, part_model, part_models,
    shared_out_pages_come_back_in_order,
};
use crate::metadata::{RouteMetadata, RouteMetadataModel, FALLBACK_LEG_FAILED};
use crate::policy::{
    decide_with, leg_models, may_decide, routed, split_plan_partitions_the_pages,
    split_plan_sends_the_flagged_pages, whole_document_model, Decision, DecisionModel, Leg, LegModel, Reason,
};
use crate::text::opt_str;
use vstd::prelude::*;
use vstd::string::*;

verus! {

/// The boundary between the router and whatever actually calls an OCR provider.
///
/// Implementations must be `Sync`: legs may run concurrently on borrowed threads.
pub trait OcrHost: Sync {
    /// `out` is something this host may reply when `model` is asked to read `pages` of
    /// `document`. A host that cannot say more, because a service decides, allows every reply.
    open spec fn may_reply(
        &self,
        model: Seq<char>,
        document: Seq<u8>,
        pages: Option<Seq<u32>>,
        out: Result<OcrResultModel, ErrorModel>,
    ) -> bool {
        true
    }

    /// Run `model` over `document`. `pages` is a 0-indexed subset, or `None` for all pages.
    ///
    /// A provider that cannot take a page list should split the document and remap the pages
    /// itself so the returned `Page.index` values stay original.
    fn ocr(&self, model: &str, document: &[u8], pages: Option<&[u32]>) -> (r: Result<
        OcrResult,
        Error,
    >)
        ensures
            self.may_reply(model@, document@, opt_pages(pages), ocr_outcome(r)),
    ;
}

/// The result of executing a decision, with the provenance that goes with it.
#[derive(Debug, PartialEq)]
pub struct Outcome {
    /// The merged, page-ordered result.
    pub result: OcrResult,
    /// The `doc_route` metadata for this run.
    pub metadata: RouteMetadata,
    /// The decision that produced it.
    pub decision: Decision,
}

/// An [`Outcome`] over sequences.
#[verifier::ext_equal]
pub ghost struct OutcomeModel {
    pub result: OcrResultModel,
    pub metadata: RouteMetadataModel,
    pub decision: DecisionModel,
}

impl View for Outcome {
    type V = OutcomeModel;

    open spec fn view(&self) -> OutcomeModel {
        OutcomeModel {
            result: self.result@,
            metadata: self.metadata@,
            decision: self.decision@,
        }
    }
}

/// The model of an outcome or an error.
pub open spec fn run_outcome(r: Result<Outcome, Error>) -> Result<OutcomeModel, ErrorModel> {
    match r {
        Ok(outcome) => Ok(outcome@),
        Err(error) => Err(error@),
    }
}

/// A leg's own outcome: a failure is wrapped with the model it was routed to.
pub open spec fn leg_outcome(
    leg: LegModel,
    inner: Result<OcrResultModel, ErrorModel>,
) -> Result<OcrResultModel, ErrorModel> {
    match inner {
        Ok(result) => Ok(result),
        Err(error) => Err(ErrorModel::LegFailed { model: leg.model, source: Box::new(error) }),
    }
}

/// `inner` is something the place this leg runs may answer: the local extractor for a local
/// leg, the host for any other, asked for exactly the leg's model and pages.
pub open spec fn may_serve<H: OcrHost + ?Sized>(
    leg: LegModel,
    bytes: Seq<u8>,
    host: &H,
    inner: Result<OcrResultModel, ErrorModel>,
) -> bool {
    if leg.tier == Tier::Local {
        may_extract_local(bytes, leg.pages, inner)
    } else {
        host.may_reply(leg.model, bytes, leg.pages, inner)
    }
}

/// `out` is something [`run_leg`] may return.
pub open spec fn may_run_leg<H: OcrHost + ?Sized>(
    leg: LegModel,
    bytes: Seq<u8>,
    host: &H,
    out: Result<OcrResultModel, ErrorModel>,
) -> bool {
    exists|inner: Result<OcrResultModel, ErrorModel>| #[trigger]
        may_serve(leg, bytes, host, inner) && out == leg_outcome(leg, inner)
}

/// Run one leg where it belongs: in-process for the local tier, on the host otherwise.
pub fn run_leg<H: OcrHost + ?Sized>(leg: &Leg, bytes: &[u8], host: &H) -> (r: Result<
    OcrResult,
    Error,
>)
    requires
        leg@.tier == Tier::Local ==> countable(leg@.pages),
    ensures
        may_run_leg(leg@, bytes@, host, ocr_outcome(r)),
{
    let pages: Option<&[u32]> = match &leg.pages {
        Some(list) => Some(list.as_slice()),
        None => None,
    };
    assert(opt_pages(pages) == leg@.pages);
    let result: Result<OcrResult, Error> = if leg.tier == Tier::Local {
        extract_local(bytes, pages)
    } else {
        host.ocr(leg.model.as_str(), bytes, pages)
    };
    assert(may_serve(leg@, bytes@, host, ocr_outcome(result)));
    match result {
        Ok(result) => Ok(result),
        Err(source) => Err(
            Error::LegFailed { model: leg.model.clone(), source: Box::new(source) },
        ),
    }
}

/// The models of the legs' results.
pub open spec fn leg_results(results: Seq<Result<OcrResult, Error>>) -> Seq<
    Result<OcrResultModel, ErrorModel>,
> {
    results.map_values(|r: Result<OcrResult, Error>| ocr_outcome(r))
}

/// The first failure in leg order, if any leg failed.
pub open spec fn first_failure(results: Seq<Result<OcrResultModel, ErrorModel>>) -> Option<
    ErrorModel,
>
    decreases results.len(),
{
    if results.len() == 0 {
        None
    } else {
        match first_failure(results.drop_last()) {
            Some(error) => Some(error),
            None => match results.last() {
                Ok(_) => None,
                Err(error) => Some(error),
            },
        }
    }
}

/// Each leg with its result.
pub open spec fn paired(
    legs: Seq<LegModel>,
    results: Seq<Result<OcrResultModel, ErrorModel>>,
) -> Seq<(LegModel, OcrResultModel)> {
    Seq::new(legs.len(), |i: int| (legs[i], results[i]->Ok_0))
}

/// What the legs' results come to: each leg with its result, or the first failure.
pub fn collect_legs(legs: &Vec<Leg>, results: Vec<Result<OcrResult, Error>>) -> (r: Result<
    Vec<(Leg, OcrResult)>,
    Error,
>)
    requires
        legs@.len() == results@.len(),
    ensures
        match first_failure(leg_results(results@)) {
            Some(error) => r is Err && r->Err_0@ == error,
            None => r is Ok && part_models(r->Ok_0@) == paired(
                leg_models(legs@),
                leg_results(results@),
            ),
        },
{
    let ghost all = leg_results(results@);
    let ghost original = results@;
    let mut rest: Vec<Result<OcrResult, Error>> = results;
    let mut collected: Vec<(Leg, OcrResult)> = Vec::new();
    let mut failure: Option<Error> = None;
    let mut i: usize = 0;
    assert(part_models(collected@) =~= paired(leg_models(legs@), all).take(0));
    while i < legs.len() && failure.is_none()
        invariant
            i <= legs@.len() == original.len(),
            all == leg_results(original),
            rest@ == original.subrange(i as int, original.len() as int),
            match failure {
                Some(error) => first_failure(all) == Some(error@),
                None => first_failure(all.take(i as int)) is None && part_models(collected@)
                    == paired(leg_models(legs@), all).take(i as int),
            },
        decreases legs@.len() - i,
    {
        let ghost before = collected@;
        let result: Result<OcrResult, Error> = rest.remove(0);
        assert(result == original[i as int]);
        assert(rest@ =~= original.subrange(i + 1, original.len() as int));
        assert(all[i as int] == ocr_outcome(result));
        assert(all.take(i + 1).drop_last() =~= all.take(i as int));
        assert(all.take(i + 1).last() == all[i as int]);
        match result {
            Ok(found) => {
                collected.push((legs[i].clone(), found));
                proof {
                    let pairs = paired(leg_models(legs@), all);
                    assert(leg_models(legs@)[i as int] == legs@[i as int]@);
                    assert(part_model(collected@.last()) == pairs[i as int]);
                    assert(part_models(collected@) =~= part_models(before).push(
                        part_model(collected@.last()),
                    ));
                    assert(pairs.take(i + 1) =~= pairs.take(i as int).push(pairs[i as int]));
                }
            },
            Err(error) => {
                proof {
                    first_failure_stands(all, i + 1);
                }
                failure = Some(error);
            },
        }
        i += 1;
    }
    if let Some(error) = failure {
        return Err(error);
    }
    proof {
        assert(all.take(all.len() as int) =~= all);
        let pairs = paired(leg_models(legs@), all);
        assert(pairs.take(pairs.len() as int) =~= pairs);
    }
    Ok(collected)
}

/// A failure among the first legs is the first failure of all of them.
proof fn first_failure_stands(results: Seq<Result<OcrResultModel, ErrorModel>>, n: int)
    requires
        0 <= n <= results.len(),
        first_failure(results.take(n)) is Some,
    ensures
        first_failure(results) == first_failure(results.take(n)),
    decreases results.len() - n,
{
    if n < results.len() {
        assert(results.take(n + 1).drop_last() =~= results.take(n));
        first_failure_stands(results, n + 1);
    } else {
        assert(results.take(n) =~= results);
    }
}

/// What to do once every leg has answered.
#[derive(Debug)]
pub enum Settled {
    /// Every leg succeeded: this is the outcome.
    Done(Outcome),
    /// A leg failed: rerun the whole document once, on this model.
    Retry {
        /// The decision whose leg failed.
        decision: Decision,
        /// The model to rerun on.
        model: String,
        /// The first leg failure.
        failure: Error,
    },
}

/// The metadata of a run whose legs failed and whose whole document ran on `model` instead: it
/// never claims bytes went somewhere they did not.
pub open spec fn fallback_metadata(
    metadata: RouteMetadataModel,
    model: Seq<char>,
) -> RouteMetadataModel {
    RouteMetadataModel {
        routed_model: model,
        fallback_reason: Some(FALLBACK_LEG_FAILED@),
        ..metadata
    }
}

/// Settle a routed decision once every leg has answered: merge when all succeeded, otherwise
/// ask for one rerun of the whole document.
pub fn settle(
    decision: Decision,
    results: Vec<Result<OcrResult, Error>>,
    cfg: &Config,
    default_model: Option<&str>,
) -> (r: Settled)
    requires
        decision@ is Route,
        decision@->plan.legs.len() == results@.len(),
    ensures
        match first_failure(leg_results(results@)) {
            None => r is Done && r->Done_0@ == (OutcomeModel {
                result: merged(paired(decision@->plan.legs, leg_results(results@))),
                metadata: decision@.metadata(),
                decision: decision@,
            }),
            Some(error) => r is Retry && r->decision@ == decision@ && r->model@
                == whole_document_model(cfg@, opt_str(default_model)) && r->failure@ == error,
        },
{
    let metadata: RouteMetadata = decision.metadata();
    let collected = match &decision {
        Decision::Route { plan, .. } => collect_legs(&plan.legs, results),
        Decision::Bypass { .. } => Ok(Vec::new()),
    };
    match collected {
        Ok(parts) => Settled::Done(Outcome { result: merge(&parts), metadata, decision }),
        Err(failure) => {
            let model: String = Decision::bypass_model(cfg, default_model);
            Settled::Retry { decision, model, failure }
        },
    }
}

/// The error a failed rerun is reported as. A host error is quoted without its own prefix,
/// which the wrapping host error prints once already.
pub open spec fn retry_failed(
    model: Seq<char>,
    failure: ErrorModel,
    retry: ErrorModel,
) -> ErrorModel {
    let detail = match retry {
        ErrorModel::Host(message) => message,
        other => other.text(),
    };
    ErrorModel::LegFailed {
        model,
        source: Box::new(
            ErrorModel::Host(
                detail + " (whole-document retry after "@ + failure.text() + ")"@,
            ),
        ),
    }
}

/// What a rerun of the whole document comes to.
pub open spec fn retried(
    decision: DecisionModel,
    model: Seq<char>,
    failure: ErrorModel,
    reply: Result<OcrResultModel, ErrorModel>,
) -> Result<OutcomeModel, ErrorModel> {
    match reply {
        Ok(result) => Ok(
            OutcomeModel {
                result,
                metadata: fallback_metadata(decision.metadata(), model),
                decision,
            },
        ),
        Err(error) => Err(retry_failed(model, failure, error)),
    }
}

/// Conclude a run from the reply to its rerun.
pub fn after_retry(
    decision: Decision,
    model: String,
    failure: Error,
    reply: Result<OcrResult, Error>,
) -> (r: Result<Outcome, Error>)
    ensures
        run_outcome(r) == retried(decision@, model@, failure@, ocr_outcome(reply)),
{
    match reply {
        Ok(result) => {
            let mut metadata: RouteMetadata = decision.metadata();
            metadata.fallback_reason = Some(FALLBACK_LEG_FAILED.to_owned());
            metadata.routed_model = model;
            Ok(Outcome { result, metadata, decision })
        },
        Err(error) => {
            let mut text: String = match &error {
                Error::Host(message) => message.clone(),
                other => other.message(),
            };
            text.append(" (whole-document retry after ");
            text.append(failure.message().as_str());
            text.append(")");
            let source = Error::Host(text);
            assert(source@ == ErrorModel::Host(text@));
            Err(Error::LegFailed { model, source: Box::new(source) })
        },
    }
}

/// What a bypass comes to once the host has replied.
pub open spec fn bypassed(
    decision: DecisionModel,
    reply: Result<OcrResultModel, ErrorModel>,
) -> Result<OutcomeModel, ErrorModel> {
    match reply {
        Ok(result) => Ok(
            OutcomeModel { result, metadata: decision.metadata(), decision },
        ),
        Err(error) => Err(error),
    }
}

/// `results` is something the legs may come back with, one result per leg in leg order.
pub open spec fn may_run_legs<H: OcrHost + ?Sized>(
    legs: Seq<LegModel>,
    bytes: Seq<u8>,
    host: &H,
    results: Seq<Result<OcrResultModel, ErrorModel>>,
) -> bool {
    results.len() == legs.len() && forall|i: int|
        0 <= i < legs.len() ==> #[trigger] may_run_leg(legs[i], bytes, host, results[i])
}

/// `out` is something executing this decision may come to. A bypass is one call. A route runs
/// every leg; if one fails, the whole document is rerun once on the whole-document model, and
/// what that one call replies decides.
pub open spec fn may_execute<H: OcrHost + ?Sized>(
    bytes: Seq<u8>,
    cfg: ConfigModel,
    default_model: Option<Seq<char>>,
    host: &H,
    decision: DecisionModel,
    out: Result<OutcomeModel, ErrorModel>,
) -> bool {
    match decision {
        DecisionModel::Bypass { model, .. } => exists|
            reply: Result<OcrResultModel, ErrorModel>,
        | #[trigger]
            host.may_reply(model, bytes, None, reply) && out == bypassed(decision, reply),
        DecisionModel::Route { plan, .. } => exists|
            results: Seq<Result<OcrResultModel, ErrorModel>>,
        | #[trigger]
            may_run_legs(plan.legs, bytes, host, results) && match first_failure(results) {
                None => out == Ok::<OutcomeModel, ErrorModel>(
                    OutcomeModel {
                        result: merged(paired(plan.legs, results)),
                        metadata: decision.metadata(),
                        decision,
                    },
                ),
                Some(failure) => exists|reply: Result<OcrResultModel, ErrorModel>| #[trigger]
                    host.may_reply(
                        whole_document_model(cfg, default_model),
                        bytes,
                        None,
                        reply,
                    ) && out == retried(
                        decision,
                        whole_document_model(cfg, default_model),
                        failure,
                        reply,
                    ),
            },
    }
}

/// `out` is something [`run_with`] may return.
pub open spec fn may_run<H: OcrHost + ?Sized, J: PageJudge + ?Sized>(
    bytes: Seq<u8>,
    cfg: ConfigModel,
    default_model: Option<Seq<char>>,
    host: &H,
    judge: &J,
    out: Result<OutcomeModel, ErrorModel>,
) -> bool {
    exists|decision: DecisionModel| #[trigger]
        may_decide(bytes, cfg, default_model, judge, decision) && may_execute(
            bytes,
            cfg,
            default_model,
            host,
            decision,
            out,
        )
}

/// Run every leg, in leg order.
pub fn run_legs<H: OcrHost + ?Sized>(legs: &Vec<Leg>, bytes: &[u8], host: &H) -> (r: Vec<
    Result<OcrResult, Error>,
>)
    requires
        forall|i: int|
            0 <= i < legs@.len() && (#[trigger] legs@[i])@.tier == Tier::Local ==> countable(
                legs@[i]@.pages,
            ),
    ensures
        may_run_legs(leg_models(legs@), bytes@, host, leg_results(r@)),
{
    let mut out: Vec<Result<OcrResult, Error>> = Vec::new();
    let mut i: usize = 0;
    while i < legs.len()
        invariant
            i <= legs@.len(),
            out@.len() == i,
            forall|k: int|
                0 <= k < legs@.len() && (#[trigger] legs@[k])@.tier == Tier::Local ==> countable(
                    legs@[k]@.pages,
                ),
            forall|k: int|
                0 <= k < i ==> #[trigger] may_run_leg(
                    leg_models(legs@)[k],
                    bytes@,
                    host,
                    leg_results(out@)[k],
                ),
        decreases legs@.len() - i,
    {
        let ghost before = out@;
        assert(leg_models(legs@)[i as int] == legs@[i as int]@);
        let result = run_leg(&legs[i], bytes, host);
        out.push(result);
        assert forall|k: int| 0 <= k < i + 1 implies #[trigger] may_run_leg(
            leg_models(legs@)[k],
            bytes@,
            host,
            leg_results(out@)[k],
        ) by {
            if k < i {
                assert(leg_results(out@)[k] == leg_results(before)[k]);
            }
        }
        i += 1;
    }
    out
}

/// Classify, plan and execute in one call.
///
/// Local legs run in-process; OCR legs go to `host`. If any leg fails the whole document is
/// rerun once on the default model: `metadata.fallback_reason` becomes `"leg_failed"` and
/// `metadata.routed_model` becomes the model that actually ran, so the metadata never claims
/// bytes went somewhere they did not. If that rerun also fails the error is returned.
pub fn run<H: OcrHost + ?Sized>(
    bytes: &[u8],
    cfg: &Config,
    default_model: Option<&str>,
    host: &H,
) -> (r: Result<Outcome, Error>)
    ensures
        may_run(bytes@, cfg@, opt_str(default_model), host, &HeuristicJudge, run_outcome(r)),
{
    run_with(bytes, cfg, default_model, host, &HeuristicJudge)
}

/// Every local leg of a decision names pages the extractor can count.
proof fn routed_legs_are_countable<J: PageJudge + ?Sized>(
    bytes: Seq<u8>,
    cfg: ConfigModel,
    default_model: Option<Seq<char>>,
    judge: &J,
    decision: DecisionModel,
)
    requires
        may_decide(bytes, cfg, default_model, judge, decision),
        decision is Route,
    ensures
        forall|i: int|
            0 <= i < decision->plan.legs.len() ==> countable(
                (#[trigger] decision->plan.legs[i]).pages,
            ),
{
    let c = decision->classification;
    assert(decision->plan == routed(c, cfg));
    if routed(c, cfg).reason == Reason::MixedSplit {
        split_plan_partitions_the_pages(c, cfg);
        assert forall|i: int| 0 <= i < decision->plan.legs.len() implies countable(
            (#[trigger] decision->plan.legs[i]).pages,
        ) by {
            assert forall|k: int|
                0 <= k < decision->plan.legs[i].pages->0.len() implies #[trigger] decision->plan.legs[i].pages->0[k]
                < u32::MAX by {
                assert(routed(c, cfg).legs[i].pages->0[k] < c.page_count);
            }
        }
    }
}

/// [`run`], with `judge` deciding which pages need OCR.
///
/// Only the decision changes; the legs and the one-shot fallback are the same. A judge that
/// talks to a network service is built outside this crate and passed in here, exactly like an
/// [`OcrHost`].
pub fn run_with<H: OcrHost + ?Sized, J: PageJudge + ?Sized>(
    bytes: &[u8],
    cfg: &Config,
    default_model: Option<&str>,
    host: &H,
    judge: &J,
) -> (r: Result<Outcome, Error>)
    ensures
        may_run(bytes@, cfg@, opt_str(default_model), host, judge, run_outcome(r)),
{
    let decision: Decision = decide_with(bytes, cfg, default_model, judge);
    let ghost d = decision@;
    let results: Vec<Result<OcrResult, Error>> = match &decision {
        Decision::Bypass { model, .. } => {
            let reply = host.ocr(model.as_str(), bytes, None);
            assert(host.may_reply(model@, bytes@, None, ocr_outcome(reply)));
            return match reply {
                Ok(result) => {
                    let metadata: RouteMetadata = decision.metadata();
                    Ok(Outcome { result, metadata, decision })
                },
                Err(error) => Err(error),
            };
        },
        Decision::Route { plan, .. } => {
            proof {
                routed_legs_are_countable(bytes@, cfg@, opt_str(default_model), judge, d);
                assert forall|i: int|
                    0 <= i < plan.legs@.len() && (#[trigger] plan.legs@[i])@.tier
                        == Tier::Local implies countable(plan.legs@[i]@.pages) by {
                    assert(d->plan.legs[i] == plan.legs@[i]@);
                }
            }
            run_legs(&plan.legs, bytes, host)
        },
    };
    let ghost all = leg_results(results@);
    assert(may_run_legs(d->plan.legs, bytes@, host, all));
    match settle(decision, results, cfg, default_model) {
        Settled::Done(outcome) => Ok(outcome),
        Settled::Retry { decision, model, failure } => {
            let reply = host.ocr(model.as_str(), bytes, None);
            let ghost replied = ocr_outcome(reply);
            assert(host.may_reply(
                whole_document_model(cfg@, opt_str(default_model)),
                bytes@,
                None,
                replied,
            ));
            after_retry(decision, model, failure, reply)
        },
    }
}

/// When every leg of a route succeeds there is no rerun: the outcome is the merge of the legs
/// and carries no fallback reason.
pub proof fn success_needs_no_fallback<H: OcrHost + ?Sized>(
    bytes: Seq<u8>,
    cfg: ConfigModel,
    default_model: Option<Seq<char>>,
    host: &H,
    decision: DecisionModel,
    out: OutcomeModel,
)
    requires
        decision is Route,
        may_execute(bytes, cfg, default_model, host, decision, Ok(out)),
        out.metadata.fallback_reason is None,
    ensures
        out.decision == decision,
        out.metadata == decision.metadata(),
        exists|results: Seq<Result<OcrResultModel, ErrorModel>>| #[trigger]
            may_run_legs(decision->plan.legs, bytes, host, results) && first_failure(results)
                is None && out.result == merged(paired(decision->plan.legs, results)),
{
}

/// When the fallback ran, the metadata names the model that ran and nothing else changed.
pub proof fn fallback_names_the_model_that_ran<H: OcrHost + ?Sized>(
    bytes: Seq<u8>,
    cfg: ConfigModel,
    default_model: Option<Seq<char>>,
    host: &H,
    decision: DecisionModel,
    out: OutcomeModel,
)
    requires
        decision is Route,
        may_execute(bytes, cfg, default_model, host, decision, Ok(out)),
        out.metadata.fallback_reason is Some,
    ensures
        out.decision == decision,
        out.metadata.fallback_reason == Some(FALLBACK_LEG_FAILED@),
        out.metadata.routed_model == whole_document_model(cfg, default_model),
        host.may_reply(whole_document_model(cfg, default_model), bytes, None, Ok(out.result)),
        out.metadata == fallback_metadata(
            decision.metadata(),
            whole_document_model(cfg, default_model),
        ),
{
}

/// A split document comes back whole: when both legs of its plan answer for their own pages,
/// the merged result has every page of the document once, in page order, and each page is the
/// one its leg returned, attributed to the model it was routed to.
pub proof fn a_split_document_comes_back_whole(
    c: ClassificationModel,
    cfg: ConfigModel,
    local: OcrResultModel,
    ocr: OcrResultModel,
)
    requires
        c.well_formed(),
        routed(c, cfg).reason == Reason::MixedSplit,
        answers_for_pages(local, c.text_layer_pages()),
        answers_for_pages(ocr, c.pages_needing_ocr),
    ensures
        ({
            let legs = routed(c, cfg).legs;
            let results = seq![
                Ok::<OcrResultModel, ErrorModel>(local),
                Ok::<OcrResultModel, ErrorModel>(ocr),
            ];
            let out = merged(paired(legs, results)).pages;
            &&& first_failure(results) is None
            &&& out.len() == c.page_count
            &&& forall|i: int|
                0 <= i < c.page_count ==> (#[trigger] out[i]).index == i && (
                if c.pages_needing_ocr.contains(i as u32) {
                    attributed((legs[1], ocr)).contains(out[i])
                } else {
                    attributed((legs[0], local)).contains(out[i])
                })
        }),
{
    let legs = routed(c, cfg).legs;
    let results = seq![
        Ok::<OcrResultModel, ErrorModel>(local),
        Ok::<OcrResultModel, ErrorModel>(ocr),
    ];
    split_plan_partitions_the_pages(c, cfg);
    split_plan_sends_the_flagged_pages(c, cfg);
    reveal_with_fuel(first_failure, 3);
    assert(paired(legs, results) =~= seq![(legs[0], local), (legs[1], ocr)]);
    let texts = c.text_layer_pages();
    assert(legs[0].pages == Some(texts));
    assert forall|p: u32| #[trigger] texts.contains(p) implies p < c.page_count by {
        let i = choose|i: int| 0 <= i < texts.len() && texts[i] == p;
        assert(legs[0].pages->0[i] < c.page_count);
    }
    assert forall|p: u32| p < c.page_count implies (#[trigger] texts.contains(p)
        <==> !c.pages_needing_ocr.contains(p)) by {}
    shared_out_pages_come_back_in_order((legs[0], local), (legs[1], ocr), c.page_count);
}

/// The first failure is the failure of the first leg that failed; there is none exactly when every
/// leg succeeded.
proof fn first_failure_is_the_first(results: Seq<Result<OcrResultModel, ErrorModel>>)
    ensures
        first_failure(results) is None <==> forall|i: int|
            0 <= i < results.len() ==> (#[trigger] results[i]) is Ok,
        first_failure(results) is Some ==> exists|i: int|
            0 <= i < results.len() && (#[trigger] results[i]) == Err::<OcrResultModel, ErrorModel>(
                first_failure(results)->0,
            ) && (forall|k: int| 0 <= k < i ==> (#[trigger] results[k]) is Ok),
    decreases results.len(),
{
    if results.len() > 0 {
        let rest = results.drop_last();
        let n = rest.len() as int;
        first_failure_is_the_first(rest);
        if first_failure(rest) is Some {
            let i = choose|i: int|
                0 <= i < rest.len() && (#[trigger] rest[i]) == Err::<OcrResultModel, ErrorModel>(
                    first_failure(rest)->0,
                ) && (forall|k: int| 0 <= k < i ==> (#[trigger] rest[k]) is Ok);
            assert(results[i] == rest[i]);
            assert forall|k: int| 0 <= k < i implies (#[trigger] results[k]) is Ok by {
                assert(rest[k] == results[k]);
            }
        } else {
            assert forall|k: int| 0 <= k < n implies (#[trigger] results[k]) is Ok by {
                assert(rest[k] == results[k]);
            }
            assert(results[n] == results.last());
        }
    }
}

/// `answers` are what the legs of a plan may have been answered, each where it belongs: a local
/// leg by the local extractor, any other by the host under the leg's own model, and each for
/// exactly the leg's pages.
pub open spec fn legs_answered<H: OcrHost + ?Sized>(
    legs: Seq<LegModel>,
    bytes: Seq<u8>,
    host: &H,
    answers: Seq<Result<OcrResultModel, ErrorModel>>,
) -> bool {
    answers.len() == legs.len() && forall|i: int|
        0 <= i < legs.len() ==> {
            &&& (#[trigger] legs[i]).tier == Tier::Local ==> may_extract_local(
                bytes,
                legs[i].pages,
                answers[i],
            )
            &&& legs[i].tier != Tier::Local ==> host.may_reply(
                legs[i].model,
                bytes,
                legs[i].pages,
                answers[i],
            )
        }
}

/// What executing a decision comes to.
///
/// A bypassed document is sent whole to its model, and what comes back is the answer. The legs of
/// a routed one are answered each where it belongs; when all succeed, the answer is those results
/// merged in leg order, under the plan's own provenance. When one fails, the whole document is
/// sent once to the default model: what that brings is the answer, and the provenance names that
/// model and the failed leg; if that fails too, the run fails in that model's name.
pub open spec fn executed<H: OcrHost + ?Sized>(
    bytes: Seq<u8>,
    cfg: ConfigModel,
    default_model: Option<Seq<char>>,
    host: &H,
    decision: DecisionModel,
    answers: Seq<Result<OcrResultModel, ErrorModel>>,
    out: Result<OutcomeModel, ErrorModel>,
) -> bool {
    match decision {
        DecisionModel::Bypass { model, .. } => match out {
            Ok(outcome) => {
                &&& host.may_reply(model, bytes, None, Ok(outcome.result))
                &&& outcome.decision == decision
                &&& outcome.metadata == decision.metadata()
            },
            Err(error) => host.may_reply(model, bytes, None, Err(error)),
        },
        DecisionModel::Route { plan, .. } => {
            let model = whole_document_model(cfg, default_model);
            let all = forall|i: int| 0 <= i < answers.len() ==> (#[trigger] answers[i]) is Ok;
            &&& legs_answered(plan.legs, bytes, host, answers)
            &&& all ==> {
                &&& out is Ok
                &&& out->Ok_0.result == merged(
                    Seq::new(plan.legs.len(), |i: int| (plan.legs[i], answers[i]->Ok_0)),
                )
                &&& out->Ok_0.decision == decision
                &&& out->Ok_0.metadata == decision.metadata()
            }
            &&& !all && out is Ok ==> {
                &&& host.may_reply(model, bytes, None, Ok(out->Ok_0.result))
                &&& out->Ok_0.decision == decision
                &&& out->Ok_0.metadata.fallback_reason == Some("leg_failed"@)
                &&& out->Ok_0.metadata.routed_model == model
                &&& out->Ok_0.metadata.legs == decision.metadata().legs
                &&& out->Ok_0.metadata.tier == decision.metadata().tier
                &&& out->Ok_0.metadata.reason == decision.metadata().reason
                &&& out->Ok_0.metadata.pages_needing_ocr == decision.metadata().pages_needing_ocr
                &&& out->Ok_0.metadata.page_count == decision.metadata().page_count
                &&& out->Ok_0.metadata.pdf_type == decision.metadata().pdf_type
                &&& out->Ok_0.metadata.confidence == decision.metadata().confidence
                &&& out->Ok_0.metadata.classify_nanos == decision.metadata().classify_nanos
                &&& out->Ok_0.metadata.split == decision.metadata().split
            }
            &&& !all && out is Err ==> {
                &&& out->Err_0 is LegFailed && out->Err_0->model == model
                &&& exists|error: ErrorModel| #[trigger]
                    host.may_reply(model, bytes, None, Err(error))
            }
        },
    }
}

/// Whatever a run returns is what executing one decision on the document came to.
pub proof fn a_run_returns_what_its_decision_came_to<H: OcrHost + ?Sized, J: PageJudge + ?Sized>(
    bytes: Seq<u8>,
    cfg: ConfigModel,
    default_model: Option<Seq<char>>,
    host: &H,
    judge: &J,
    out: Result<OutcomeModel, ErrorModel>,
)
    requires
        may_run(bytes, cfg, default_model, host, judge, out),
    ensures
        exists|decision: DecisionModel, answers: Seq<Result<OcrResultModel, ErrorModel>>|
            may_decide(bytes, cfg, default_model, judge, decision) && #[trigger] executed(
                bytes,
                cfg,
                default_model,
                host,
                decision,
                answers,
                out,
            ),
{
    let decision = choose|decision: DecisionModel| #[trigger]
        may_decide(bytes, cfg, default_model, judge, decision) && may_execute(
            bytes,
            cfg,
            default_model,
            host,
            decision,
            out,
        );
    match decision {
        DecisionModel::Bypass { model, .. } => {
            let reply = choose|reply: Result<OcrResultModel, ErrorModel>| #[trigger]
                host.may_reply(model, bytes, None, reply) && out == bypassed(decision, reply);
            assert(executed(
                bytes,
                cfg,
                default_model,
                host,
                decision,
                Seq::<Result<OcrResultModel, ErrorModel>>::empty(),
                out,
            ));
        },
        DecisionModel::Route { plan, .. } => {
            let legs = plan.legs;
            let model = whole_document_model(cfg, default_model);
            let results = choose|results: Seq<Result<OcrResultModel, ErrorModel>>| #[trigger]
                may_run_legs(legs, bytes, host, results) && match first_failure(results) {
                    None => out == Ok::<OutcomeModel, ErrorModel>(
                        OutcomeModel {
                            result: merged(paired(legs, results)),
                            metadata: decision.metadata(),
                            decision,
                        },
                    ),
                    Some(failure) => exists|reply: Result<OcrResultModel, ErrorModel>| #[trigger]
                        host.may_reply(model, bytes, None, reply) && out == retried(
                            decision,
                            model,
                            failure,
                            reply,
                        ),
                };
            first_failure_is_the_first(results);
            let answers = Seq::new(
                legs.len(),
                |i: int|
                    choose|inner: Result<OcrResultModel, ErrorModel>| #[trigger]
                        may_serve(legs[i], bytes, host, inner) && results[i] == leg_outcome(
                            legs[i],
                            inner,
                        ),
            );
            assert forall|i: int| 0 <= i < legs.len() implies may_serve(
                #[trigger] legs[i],
                bytes,
                host,
                answers[i],
            ) && results[i] == leg_outcome(legs[i], answers[i]) by {
                assert(may_run_leg(legs[i], bytes, host, results[i]));
            }
            assert forall|i: int| 0 <= i < answers.len() implies ((#[trigger] answers[i]) is Ok
                <==> results[i] is Ok) && (answers[i] is Ok ==> results[i] == answers[i]) by {
                assert(may_serve(legs[i], bytes, host, answers[i]));
            }
            assert(legs_answered(legs, bytes, host, answers));
            if first_failure(results) is None {
                assert forall|i: int| 0 <= i < answers.len() implies (
                #[trigger] answers[i]) is Ok by {
                    assert(results[i] is Ok);
                }
                assert(paired(legs, results) =~= Seq::new(
                    legs.len(),
                    |i: int| (legs[i], answers[i]->Ok_0),
                ));
            } else {
                let i = choose|i: int|
                    0 <= i < results.len() && (#[trigger] results[i]) == Err::<
                        OcrResultModel,
                        ErrorModel,
                    >(first_failure(results)->0) && (forall|k: int|
                        0 <= k < i ==> (#[trigger] results[k]) is Ok);
                assert(answers[i] is Err);
                let reply = choose|reply: Result<OcrResultModel, ErrorModel>| #[trigger]
                    host.may_reply(model, bytes, None, reply) && out == retried(
                        decision,
                        model,
                        first_failure(results)->0,
                        reply,
                    );
                if reply is Err {
                    assert(host.may_reply(model, bytes, None, Err(reply->Err_0)));
                }
            }
            assert(executed(bytes, cfg, default_model, host, decision, answers, out));
        },
    }
}

/// `page` is a page of `result`, attributed to `model`: the number and the markdown are that
/// page's own.
pub open spec fn read_from(
    page: crate::extract::PageModel,
    model: Seq<char>,
    result: OcrResultModel,
) -> bool {
    page.model == model && exists|k: int|
        0 <= k < result.pages.len() && (#[trigger] result.pages[k]).index == page.index
            && result.pages[k].markdown == page.markdown
}

/// A split document comes back page by page: when both legs answer for their own pages, page `i`
/// of the result is under number `i`, its markdown is what the leg it was on returned for that
/// page, and it is attributed to that leg's model.
pub proof fn a_split_document_comes_back_page_by_page(
    c: ClassificationModel,
    cfg: ConfigModel,
    local: OcrResultModel,
    ocr: OcrResultModel,
)
    requires
        c.well_formed(),
        routed(c, cfg).reason == Reason::MixedSplit,
        answers_for_pages(local, c.text_layer_pages()),
        answers_for_pages(ocr, c.pages_needing_ocr),
    ensures
        ({
            let legs = routed(c, cfg).legs;
            let out = merged(seq![(legs[0], local), (legs[1], ocr)]).pages;
            &&& out.len() == c.page_count
            &&& forall|i: int|
                0 <= i < c.page_count ==> (#[trigger] out[i]).index == i && (
                if c.pages_needing_ocr.contains(i as u32) {
                    read_from(out[i], legs[1].model, ocr)
                } else {
                    read_from(out[i], legs[0].model, local)
                })
        }),
{
    let legs = routed(c, cfg).legs;
    let parts = seq![(legs[0], local), (legs[1], ocr)];
    a_split_document_comes_back_whole(c, cfg, local, ocr);
    let results = seq![
        Ok::<OcrResultModel, ErrorModel>(local),
        Ok::<OcrResultModel, ErrorModel>(ocr),
    ];
    split_plan_partitions_the_pages(c, cfg);
    assert(paired(legs, results) =~= parts);
    let out = merged(parts).pages;
    assert forall|i: int| 0 <= i < c.page_count implies (#[trigger] out[i]).index == i && (
    if c.pages_needing_ocr.contains(i as u32) {
        read_from(out[i], legs[1].model, ocr)
    } else {
        read_from(out[i], legs[0].model, local)
    }) by {
        if c.pages_needing_ocr.contains(i as u32) {
            let mine = attributed((legs[1], ocr));
            let k = choose|k: int| 0 <= k < mine.len() && mine[k] == out[i];
            assert(ocr.pages[k].index == i);
        } else {
            let mine = attributed((legs[0], local));
            let k = choose|k: int| 0 <= k < mine.len() && mine[k] == out[i];
            assert(local.pages[k].index == i);
        }
    }
}

/// When the legs of a plan come back. If none failed, the run is done: its result is that of the
/// legs' own replies, each paired with its leg, and its provenance is the decision's. If one
/// failed, the whole document is asked for again, from the default model where one is given that
/// is not blank and from the standard model otherwise, with the first failure as the reason.
pub proof fn one_failed_leg_sends_the_whole_document_again(
    decision: Decision,
    results: Vec<Result<OcrResult, Error>>,
    cfg: &Config,
    default_model: Option<&str>,
    settled: Settled,
)
    requires
        decision@ is Route,
        decision@->plan.legs.len() == results@.len(),
        call_ensures(settle, (decision, results, cfg, default_model), settled),
    ensures
        settled is Done <==> forall|i: int| 0 <= i < results@.len() ==> (#[trigger] results@[i]) is Ok,
        settled is Done ==> settled->Done_0@.decision == decision@ && settled->Done_0@.metadata
            == decision@.metadata() && exists|parts: Seq<(LegModel, OcrResultModel)>|
            #![trigger merged(parts)]
            parts.len() == results@.len() && settled->Done_0@.result == merged(parts) && forall|i: int|
                0 <= i < parts.len() ==> (#[trigger] parts[i]).0 == decision@->plan.legs[i]
                    && parts[i].1 == results@[i]->Ok_0@,
        settled is Retry ==> settled->decision@ == decision@ && (exists|i: int|
            0 <= i < results@.len() && (#[trigger] results@[i]) is Err && settled->failure@
                == results@[i]->Err_0@ && forall|k: int|
                0 <= k < i ==> (#[trigger] results@[k]) is Ok),
        settled is Retry && default_model is Some && !crate::text::blank(default_model->0@)
            ==> settled->model@ == default_model->0@,
        settled is Retry && (default_model is None || crate::text::blank(default_model->0@))
            ==> settled->model@ == cfg@.tiers.standard,
{
    let models = leg_results(results@);
    first_failure_is_the_first(models);
    assert(models.len() == results@.len());
    if first_failure(models) is None {
        assert forall|i: int| 0 <= i < results@.len() implies (#[trigger] results@[i]) is Ok by {
            assert(models[i] is Ok);
        }
        let parts = paired(decision@->plan.legs, models);
        assert forall|i: int| 0 <= i < parts.len() implies (#[trigger] parts[i]).0
            == decision@->plan.legs[i] && parts[i].1 == results@[i]->Ok_0@ by {
            assert(models[i] is Ok);
        }
        assert(settled->Done_0@.result == merged(parts));
    } else {
        let error = first_failure(models)->0;
        let i = choose|i: int|
            0 <= i < models.len() && (#[trigger] models[i]) == Err::<OcrResultModel, ErrorModel>(
                error,
            ) && (forall|k: int| 0 <= k < i ==> (#[trigger] models[k]) is Ok);
        assert(results@[i] is Err && results@[i]->Err_0@ == error);
        assert forall|k: int| 0 <= k < i implies (#[trigger] results@[k]) is Ok by {
            assert(models[k] is Ok);
        }
    }
}

/// What a second try of the whole document comes to: its own reply, under the model it was asked
/// from, as one after a failed leg; or, where it fails too, an error under that model which quotes
/// both failures, the second without the prefix of a host error.
pub proof fn a_second_try_is_final(
    decision: Decision,
    model: String,
    failure: Error,
    reply: Result<OcrResult, Error>,
    out: Result<Outcome, Error>,
)
    requires
        call_ensures(after_retry, (decision, model, failure, reply), out),
    ensures
        out is Ok <==> reply is Ok,
        out is Ok ==> {
            let got = out->Ok_0@;
            &&& got.result == reply->Ok_0@
            &&& got.decision == decision@
            &&& got.metadata.routed_model == model@
            &&& got.metadata.fallback_reason == Some("leg_failed"@)
            &&& got.metadata.legs == decision@.metadata().legs
        },
        out is Err ==> out->Err_0@ is LegFailed && out->Err_0@->model == model@
            && *out->Err_0@->source == ErrorModel::Host(
            (if reply->Err_0@ is Host {
                reply->Err_0@->Host_0
            } else {
                reply->Err_0@.text()
            }) + " (whole-document retry after "@ + failure@.text() + ")"@,
        ),
{
}

/// [`run_with`] returns what executing one decision on the document came to.
pub proof fn run_with_returns_what_its_decision_came_to<
    H: OcrHost + ?Sized,
    J: PageJudge + ?Sized,
>(
    bytes: &[u8],
    cfg: &Config,
    default_model: Option<&str>,
    host: &H,
    judge: &J,
    out: Result<Outcome, Error>,
)
    requires
        call_ensures(run_with::<H, J>, (bytes, cfg, default_model, host, judge), out),
    ensures
        exists|decision: DecisionModel, answers: Seq<Result<OcrResultModel, ErrorModel>>|
            may_decide(bytes@, cfg@, opt_str(default_model), judge, decision)
                && #[trigger] executed(
                bytes@,
                cfg@,
                opt_str(default_model),
                host,
                decision,
                answers,
                run_outcome(out),
            ),
{
    a_run_returns_what_its_decision_came_to(
        bytes@,
        cfg@,
        opt_str(default_model),
        host,
        judge,
        run_outcome(out),
    );
}

} // verus!
