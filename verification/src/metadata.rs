//! The `doc_route` provenance blob stamped on a routed request.

use crate::config::Tier;
use crate::number::Real32;
use crate::policy::{
    clone_opt_page_list, leg_models, opt_page_list, Decision, DecisionModel, Leg, LegModel,
};
use crate::text::opt_text;
use vstd::prelude::*;
use vstd::string::*;

verus! {

/// The tier string used for bypassed documents.
pub const BYPASS_TIER: &'static str = "bypass";

/// The `fallback_reason` recorded when a leg failed and the whole document was rerun.
pub const FALLBACK_LEG_FAILED: &'static str = "leg_failed";

/// One leg as it appears in metadata.
#[derive(Debug, PartialEq, Eq)]
pub struct LegSummary {
    /// The leg's model.
    pub model: String,
    /// The leg's tier.
    pub tier: Tier,
    /// The leg's 0-indexed pages, or `None` for the whole document.
    pub pages: Option<Vec<u32>>,
}

impl View for LegSummary {
    type V = LegModel;

    open spec fn view(&self) -> LegModel {
        LegModel { model: self.model@, tier: self.tier, pages: opt_page_list(self.pages) }
    }
}

impl Clone for LegSummary {
    fn clone(&self) -> (r: Self)
        ensures
            r@ == self@,
    {
        LegSummary {
            model: self.model.clone(),
            tier: self.tier,
            pages: clone_opt_page_list(&self.pages),
        }
    }
}

impl LegSummary {
    /// The summary of `leg`: the same model, tier and pages.
    pub fn of(leg: &Leg) -> (r: LegSummary)
        ensures
            r@ == leg@,
    {
        LegSummary {
            model: leg.model.clone(),
            tier: leg.tier,
            pages: clone_opt_page_list(&leg.pages),
        }
    }
}

/// The models of a list of leg summaries.
pub open spec fn summary_models(legs: Seq<LegSummary>) -> Seq<LegModel> {
    legs.map_values(|l: LegSummary| l@)
}

/// The summaries of `legs`, in order.
pub fn summarize(legs: &Vec<Leg>) -> (r: Vec<LegSummary>)
    ensures
        summary_models(r@) == leg_models(legs@),
{
    let mut out: Vec<LegSummary> = Vec::new();
    let mut i: usize = 0;
    while i < legs.len()
        invariant
            i <= legs@.len(),
            summary_models(out@) == leg_models(legs@.take(i as int)),
        decreases legs@.len() - i,
    {
        let ghost before = out@;
        out.push(LegSummary::of(&legs[i]));
        assert(summary_models(out@) =~= summary_models(before).push(legs@[i as int]@));
        assert(leg_models(legs@.take(i + 1)) =~= leg_models(legs@.take(i as int)).push(
            legs@[i as int]@,
        ));
        i += 1;
    }
    assert(legs@.take(legs@.len() as int) =~= legs@);
    out
}

/// A copy of a list of leg summaries.
pub fn clone_summaries(legs: &Vec<LegSummary>) -> (r: Vec<LegSummary>)
    ensures
        summary_models(r@) == summary_models(legs@),
{
    let mut out: Vec<LegSummary> = Vec::new();
    let mut i: usize = 0;
    while i < legs.len()
        invariant
            i <= legs@.len(),
            summary_models(out@) == summary_models(legs@.take(i as int)),
        decreases legs@.len() - i,
    {
        let ghost before = out@;
        out.push(legs[i].clone());
        assert(summary_models(out@) =~= summary_models(before).push(legs@[i as int]@));
        assert(summary_models(legs@.take(i + 1)) =~= summary_models(legs@.take(i as int)).push(
            legs@[i as int]@,
        ));
        i += 1;
    }
    assert(legs@.take(legs@.len() as int) =~= legs@);
    out
}

/// Provenance for one routing decision.
///
/// Fields are declared in the order they are written out. A `None` field is left out, so a
/// bypass is written as exactly `{tier, reason, routed_model}` and `fallback_reason` only
/// appears when the fallback path ran.
#[derive(Debug, PartialEq)]
pub struct RouteMetadata {
    /// The plan's tier, or `"bypass"`.
    pub tier: String,
    /// The plan reason, or the bypass reason.
    pub reason: String,
    /// The detected document type.
    pub pdf_type: Option<String>,
    /// Classification confidence.
    pub confidence: Option<Real32>,
    /// Page count.
    pub page_count: Option<u32>,
    /// 0-indexed pages routed to OCR.
    pub pages_needing_ocr: Option<Vec<u32>>,
    /// Time spent classifying, in nanoseconds.
    pub classify_nanos: Option<u64>,
    /// The model the request is attributed to.
    pub routed_model: String,
    /// The legs that were planned.
    pub legs: Option<Vec<LegSummary>>,
    /// Whether the document was split across legs.
    pub split: Option<bool>,
    /// `"leg_failed"` when the whole-document fallback ran.
    pub fallback_reason: Option<String>,
}

/// A [`RouteMetadata`] over sequences.
#[verifier::ext_equal]
pub ghost struct RouteMetadataModel {
    pub tier: Seq<char>,
    pub reason: Seq<char>,
    pub pdf_type: Option<Seq<char>>,
    pub confidence: Option<Real32>,
    pub page_count: Option<u32>,
    pub pages_needing_ocr: Option<Seq<u32>>,
    pub classify_nanos: Option<u64>,
    pub routed_model: Seq<char>,
    pub legs: Option<Seq<LegModel>>,
    pub split: Option<bool>,
    pub fallback_reason: Option<Seq<char>>,
}

/// The models of an optional list of leg summaries.
pub open spec fn opt_summaries(legs: Option<Vec<LegSummary>>) -> Option<Seq<LegModel>> {
    match legs {
        Some(list) => Some(summary_models(list@)),
        None => None,
    }
}

impl View for RouteMetadata {
    type V = RouteMetadataModel;

    open spec fn view(&self) -> RouteMetadataModel {
        RouteMetadataModel {
            tier: self.tier@,
            reason: self.reason@,
            pdf_type: opt_text(self.pdf_type),
            confidence: self.confidence,
            page_count: self.page_count,
            pages_needing_ocr: opt_page_list(self.pages_needing_ocr),
            classify_nanos: self.classify_nanos,
            routed_model: self.routed_model@,
            legs: opt_summaries(self.legs),
            split: self.split,
            fallback_reason: opt_text(self.fallback_reason),
        }
    }
}

impl Clone for RouteMetadata {
    fn clone(&self) -> (r: Self)
        ensures
            r@ == self@,
    {
        RouteMetadata {
            tier: self.tier.clone(),
            reason: self.reason.clone(),
            pdf_type: crate::text::clone_opt_text(&self.pdf_type),
            confidence: self.confidence,
            page_count: self.page_count,
            pages_needing_ocr: clone_opt_page_list(&self.pages_needing_ocr),
            classify_nanos: self.classify_nanos,
            routed_model: self.routed_model.clone(),
            legs: match &self.legs {
                Some(list) => Some(clone_summaries(list)),
                None => None,
            },
            split: self.split,
            fallback_reason: crate::text::clone_opt_text(&self.fallback_reason),
        }
    }
}

impl DecisionModel {
    /// The provenance of this decision: three fields for a bypass, everything but the fallback
    /// reason for a route.
    pub open spec fn metadata(self) -> RouteMetadataModel {
        match self {
            DecisionModel::Bypass { reason, model, .. } => RouteMetadataModel {
                tier: BYPASS_TIER@,
                reason: reason.text(),
                pdf_type: None,
                confidence: None,
                page_count: None,
                pages_needing_ocr: None,
                classify_nanos: None,
                routed_model: model,
                legs: None,
                split: None,
                fallback_reason: None,
            },
            DecisionModel::Route { plan, classification } => RouteMetadataModel {
                tier: plan.tier.text(),
                reason: plan.reason.text(),
                pdf_type: Some(classification.pdf_type.text()),
                confidence: Some(classification.confidence),
                page_count: Some(classification.page_count),
                pages_needing_ocr: Some(classification.pages_needing_ocr),
                classify_nanos: Some(classification.classify_nanos),
                routed_model: plan.routed_model,
                legs: Some(plan.legs),
                split: Some(plan.legs.len() > 1),
                fallback_reason: None,
            },
        }
    }
}

impl Decision {
    /// The `doc_route` metadata for this decision.
    pub fn metadata(&self) -> (r: RouteMetadata)
        ensures
            r@ == self@.metadata(),
    {
        match self {
            Decision::Bypass { reason, model, .. } => RouteMetadata {
                tier: BYPASS_TIER.to_owned(),
                reason: reason.as_str().to_owned(),
                pdf_type: None,
                confidence: None,
                page_count: None,
                pages_needing_ocr: None,
                classify_nanos: None,
                routed_model: model.clone(),
                legs: None,
                split: None,
                fallback_reason: None,
            },
            Decision::Route { plan, classification } => RouteMetadata {
                tier: plan.tier.as_str().to_owned(),
                reason: plan.reason.as_str().to_owned(),
                pdf_type: Some(classification.pdf_type.as_str().to_owned()),
                confidence: Some(classification.confidence),
                page_count: Some(classification.page_count),
                pages_needing_ocr: Some(
                    crate::classify::clone_page_list(&classification.pages_needing_ocr),
                ),
                classify_nanos: Some(classification.classify_nanos),
                routed_model: plan.routed_model.clone(),
                legs: Some(summarize(&plan.legs)),
                split: Some(plan.is_split()),
                fallback_reason: None,
            },
        }
    }
}

/// The provenance of a routed document says what was decided: the plan's tier, reason, model and
/// legs, whether it has more than one, and the classification it was drawn from. It names no
/// fallback.
pub proof fn a_routes_provenance_is_its_plan(decision: DecisionModel)
    requires
        decision is Route,
    ensures
        ({
            let m = decision.metadata();
            let plan = decision->plan;
            let c = decision->classification;
            &&& m.tier == plan.tier.text()
            &&& m.reason == plan.reason.text()
            &&& m.routed_model == plan.routed_model
            &&& m.legs is Some && m.legs->0.len() == plan.legs.len() && forall|i: int|
                0 <= i < plan.legs.len() ==> (#[trigger] m.legs->0[i]).model == plan.legs[i].model
                    && m.legs->0[i].tier == plan.legs[i].tier && m.legs->0[i].pages
                    == plan.legs[i].pages
            &&& m.split == Some(plan.legs.len() >= 2)
            &&& m.pdf_type == Some(c.pdf_type.text())
            &&& m.confidence == Some(c.confidence)
            &&& m.page_count == Some(c.page_count)
            &&& m.pages_needing_ocr == Some(c.pages_needing_ocr)
            &&& m.classify_nanos == Some(c.classify_nanos)
            &&& m.fallback_reason is None
        }),
{
}

/// The provenance of a document that was not routed has three fields: that it was bypassed, why,
/// and the model it went to.
pub proof fn a_bypass_leaves_three_fields(decision: DecisionModel)
    requires
        decision is Bypass,
    ensures
        ({
            let m = decision.metadata();
            &&& m.tier == "bypass"@
            &&& m.reason == decision->reason.text()
            &&& m.routed_model == decision->model
            &&& m.pdf_type is None
            &&& m.confidence is None
            &&& m.page_count is None
            &&& m.pages_needing_ocr is None
            &&& m.classify_nanos is None
            &&& m.legs is None
            &&& m.split is None
            &&& m.fallback_reason is None
        }),
{
}

/// A summary of a leg has the leg's own model, tier and pages.
pub proof fn a_summary_is_its_legs_own(leg: &Leg, summary: LegSummary)
    requires
        call_ensures(LegSummary::of, (leg,), summary),
    ensures
        summary@.model == leg@.model,
        summary@.tier == leg@.tier,
        summary@.pages == leg@.pages,
{
}

} // verus!
