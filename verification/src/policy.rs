//! The routing decision table. Pure, deterministic, no I/O.

use crate::classify::{
    classification_outcome, classify_with, is_pdf, may_classify, pdf_magic, Classification,
    ClassificationModel,
};
use crate::config::{Config, ConfigModel, OcrTier, Tier};
use crate::error::{Error, ErrorModel};
use crate::judge::{HeuristicJudge, PageJudge};
use crate::order::{increasing, increasing_fixed_by_contents, kept, kept_holds, kept_of_all};
use crate::text::{blank, decimal, is_blank, opt_str, opt_text, push_decimal};
use vstd::prelude::*;
use vstd::string::*;

verus! {

/// One unit of work: a model, its tier, and the pages it covers.
#[derive(Debug, PartialEq, Eq)]
pub struct Leg {
    /// The model that runs this leg.
    pub model: String,
    /// The tier the model belongs to.
    pub tier: Tier,
    /// 0-indexed pages, or `None` for the whole document.
    pub pages: Option<Vec<u32>>,
}

/// A [`Leg`] over sequences.
#[verifier::ext_equal]
pub ghost struct LegModel {
    pub model: Seq<char>,
    pub tier: Tier,
    pub pages: Option<Seq<u32>>,
}

/// The numbers of an optional page list.
pub open spec fn opt_page_list(pages: Option<Vec<u32>>) -> Option<Seq<u32>> {
    match pages {
        Some(list) => Some(list@),
        None => None,
    }
}

/// A copy of an optional page list.
pub fn clone_opt_page_list(pages: &Option<Vec<u32>>) -> (r: Option<Vec<u32>>)
    ensures
        opt_page_list(r) == opt_page_list(*pages),
{
    match pages {
        Some(list) => Some(crate::classify::clone_page_list(list)),
        None => None,
    }
}

impl View for Leg {
    type V = LegModel;

    open spec fn view(&self) -> LegModel {
        LegModel { model: self.model@, tier: self.tier, pages: opt_page_list(self.pages) }
    }
}

impl Leg {
    /// A leg covering the whole document.
    pub fn whole(model: &str, tier: Tier) -> (r: Self)
        ensures
            r@ == (LegModel { model: model@, tier, pages: None }),
    {
        Leg { model: model.to_owned(), tier, pages: None }
    }

    /// A leg covering a page subset.
    pub fn subset(model: &str, tier: Tier, pages: Vec<u32>) -> (r: Self)
        ensures
            r@ == (LegModel { model: model@, tier, pages: Some(pages@) }),
    {
        Leg { model: model.to_owned(), tier, pages: Some(pages) }
    }

    /// True when this leg runs in-process rather than on a host.
    pub fn is_local(&self) -> (r: bool)
        ensures
            r == (self@.tier == Tier::Local),
    {
        self.tier == Tier::Local
    }
}

impl Clone for Leg {
    fn clone(&self) -> (r: Self)
        ensures
            r@ == self@,
    {
        Leg {
            model: self.model.clone(),
            tier: self.tier,
            pages: clone_opt_page_list(&self.pages),
        }
    }
}

/// The models of a list of legs.
pub open spec fn leg_models(legs: Seq<Leg>) -> Seq<LegModel> {
    legs.map_values(|l: Leg| l@)
}

/// A copy of a list of legs.
pub fn clone_legs(legs: &Vec<Leg>) -> (r: Vec<Leg>)
    ensures
        leg_models(r@) == leg_models(legs@),
{
    let mut out: Vec<Leg> = Vec::new();
    let mut i: usize = 0;
    while i < legs.len()
        invariant
            i <= legs@.len(),
            leg_models(out@) == leg_models(legs@.take(i as int)),
        decreases legs@.len() - i,
    {
        let ghost before = out@;
        out.push(legs[i].clone());
        assert(leg_models(out@) =~= leg_models(before).push(legs@[i as int]@));
        assert(leg_models(legs@.take(i + 1)) =~= leg_models(legs@.take(i as int)).push(
            legs@[i as int]@,
        ));
        i += 1;
    }
    assert(legs@.take(legs@.len() as int) =~= legs@);
    out
}

/// Why the router chose this plan.
#[derive(Clone, Copy, Debug, PartialEq, Eq, Hash, Structural)]
pub enum Reason {
    /// Classification confidence was below `min_confidence`.
    LowConfidence,
    /// Every page has a usable text layer.
    TextLayer,
    /// Every page needs OCR.
    Scanned,
    /// Some pages need OCR and splitting is enabled.
    MixedSplit,
    /// Some pages need OCR but splitting is disabled.
    MixedUnsplit,
}

impl Reason {
    /// The wire string for this reason.
    pub open spec fn text(self) -> Seq<char> {
        match self {
            Reason::LowConfidence => "low_confidence"@,
            Reason::TextLayer => "text_layer"@,
            Reason::Scanned => "scanned"@,
            Reason::MixedSplit => "mixed_split"@,
            Reason::MixedUnsplit => "mixed_unsplit"@,
        }
    }

    /// The wire string for this reason.
    pub fn as_str(self) -> (r: &'static str)
        ensures
            r@ == self.text(),
    {
        match self {
            Reason::LowConfidence => "low_confidence",
            Reason::TextLayer => "text_layer",
            Reason::Scanned => "scanned",
            Reason::MixedSplit => "mixed_split",
            Reason::MixedUnsplit => "mixed_unsplit",
        }
    }
}

/// The full routing plan for one document.
#[derive(Debug, PartialEq, Eq)]
pub struct Plan {
    /// Legs to execute, local first when the plan is split.
    pub legs: Vec<Leg>,
    /// Why this plan was chosen.
    pub reason: Reason,
    /// The OCR leg's tier, or `Local` when local is the only leg.
    pub tier: Tier,
    /// The model the request is billed/attributed to.
    pub routed_model: String,
}

/// A [`Plan`] over sequences.
#[verifier::ext_equal]
pub ghost struct PlanModel {
    pub legs: Seq<LegModel>,
    pub reason: Reason,
    pub tier: Tier,
    pub routed_model: Seq<char>,
}

impl View for Plan {
    type V = PlanModel;

    open spec fn view(&self) -> PlanModel {
        PlanModel {
            legs: leg_models(self.legs@),
            reason: self.reason,
            tier: self.tier,
            routed_model: self.routed_model@,
        }
    }
}

impl Plan {
    /// True when the document is split across more than one leg.
    pub fn is_split(&self) -> (r: bool)
        ensures
            r == (self@.legs.len() > 1),
    {
        self.legs.len() > 1
    }
}

impl Clone for Plan {
    fn clone(&self) -> (r: Self)
        ensures
            r@ == self@,
    {
        Plan {
            legs: clone_legs(&self.legs),
            reason: self.reason,
            tier: self.tier,
            routed_model: self.routed_model.clone(),
        }
    }
}

/// A plan that sends the whole document to one model.
pub open spec fn single_plan(tier: Tier, model: Seq<char>, reason: Reason) -> PlanModel {
    PlanModel {
        legs: seq![LegModel { model, tier, pages: None }],
        reason,
        tier,
        routed_model: model,
    }
}

/// A plan that sends the whole document to one model.
pub fn single(tier: Tier, model: &str, reason: Reason) -> (r: Plan)
    ensures
        r@ == single_plan(tier, model@, reason),
{
    let mut legs: Vec<Leg> = Vec::new();
    legs.push(Leg::whole(model, tier));
    assert(leg_models(legs@) =~= single_plan(tier, model@, reason).legs);
    Plan { legs, reason, tier, routed_model: model.to_owned() }
}

/// The pages of a list that exist, in the order they came.
pub open spec fn existing(pages: Seq<u32>, page_count: u32) -> Seq<u32>
    decreases pages.len(),
{
    if pages.len() == 0 {
        Seq::empty()
    } else if pages.last() < page_count {
        existing(pages.drop_last(), page_count).push(pages.last())
    } else {
        existing(pages.drop_last(), page_count)
    }
}

/// The pages of a list that exist, in the order they came.
pub fn existing_pages(pages: &Vec<u32>, page_count: u32) -> (r: Vec<u32>)
    ensures
        r@ == existing(pages@, page_count),
{
    let mut out: Vec<u32> = Vec::new();
    let mut i: usize = 0;
    while i < pages.len()
        invariant
            i <= pages@.len(),
            out@ == existing(pages@.take(i as int), page_count),
        decreases pages@.len() - i,
    {
        assert(pages@.take(i + 1).drop_last() =~= pages@.take(i as int));
        if pages[i] < page_count {
            out.push(pages[i]);
        }
        i += 1;
    }
    assert(pages@.take(pages@.len() as int) =~= pages@);
    out
}

/// The tier pages that need OCR go to: the resolved complex-layout tier for a complex layout,
/// standard otherwise.
pub open spec fn ocr_tier(c: ClassificationModel, cfg: ConfigModel) -> OcrTier {
    if c.is_complex_layout {
        cfg.resolved_complex_layout_tier()
    } else {
        OcrTier::Standard
    }
}

/// The decision table.
///
/// 1. Not sure enough to route by page: the whole document to standard.
/// 2. Nothing needs OCR: the whole document to the local extractor.
/// 3. Everything needs OCR: the whole document to the OCR tier.
/// 4. Mixed with splitting off: the whole document to the OCR tier.
/// 5. Mixed with splitting on: the text pages to the local extractor, the rest to the OCR
///    tier.
pub open spec fn routed(c: ClassificationModel, cfg: ConfigModel) -> PlanModel {
    let tier = ocr_tier(c, cfg).tier();
    let model = cfg.tiers.model_for(tier)->0;
    let ocr_pages = existing(c.pages_needing_ocr, c.page_count);
    if c.confidence.below(cfg.min_confidence) {
        single_plan(Tier::Standard, cfg.tiers.standard, Reason::LowConfidence)
    } else if ocr_pages.len() == 0 {
        single_plan(Tier::Local, cfg.tiers.local, Reason::TextLayer)
    } else if ocr_pages.len() >= c.page_count {
        single_plan(tier, model, Reason::Scanned)
    } else if !cfg.split_pages {
        single_plan(tier, model, Reason::MixedUnsplit)
    } else {
        PlanModel {
            legs: seq![
                LegModel {
                    model: cfg.tiers.local,
                    tier: Tier::Local,
                    pages: Some(c.text_layer_pages()),
                },
                LegModel { model, tier, pages: Some(ocr_pages) },
            ],
            reason: Reason::MixedSplit,
            tier,
            routed_model: model,
        }
    }
}

/// The decision table.
///
/// Every branch finds its model, so this always succeeds: `local` and `standard` are always
/// configured and the premium tier is chosen only when it is. A failure would mean a model
/// name is missing, which the result type still has room to say.
pub fn plan_route(c: &Classification, cfg: &Config) -> (r: Result<Plan, Error>)
    ensures
        r is Ok,
        r->Ok_0@ == routed(c@, cfg@),
{
    let standard_model: String = match cfg.model_for_tier(Tier::Standard) {
        Ok(model) => model.to_owned(),
        Err(error) => return Err(error),
    };
    if c.confidence.is_below(cfg.min_confidence) {
        return Ok(single(Tier::Standard, standard_model.as_str(), Reason::LowConfidence));
    }
    let tier: OcrTier = if c.is_complex_layout {
        cfg.resolved_complex_layout_tier()
    } else {
        OcrTier::Standard
    };
    let ocr_model: String = match cfg.model_for_tier(tier.tier()) {
        Ok(model) => model.to_owned(),
        Err(error) => return Err(error),
    };
    // Re-filtered so that a hand-built classification cannot point a leg past the end.
    let ocr_pages: Vec<u32> = existing_pages(&c.pages_needing_ocr, c.page_count);
    let local_model: String = match cfg.model_for_tier(Tier::Local) {
        Ok(model) => model.to_owned(),
        Err(error) => return Err(error),
    };
    if ocr_pages.len() == 0 {
        return Ok(single(Tier::Local, local_model.as_str(), Reason::TextLayer));
    }
    if ocr_pages.len() >= c.page_count as usize {
        return Ok(single(tier.tier(), ocr_model.as_str(), Reason::Scanned));
    }
    if !cfg.split_pages {
        return Ok(single(tier.tier(), ocr_model.as_str(), Reason::MixedUnsplit));
    }
    let text_pages: Vec<u32> = c.text_layer_pages();
    let mut legs: Vec<Leg> = Vec::new();
    legs.push(Leg::subset(local_model.as_str(), Tier::Local, text_pages));
    legs.push(Leg::subset(ocr_model.as_str(), tier.tier(), ocr_pages));
    assert(leg_models(legs@) =~= routed(c@, cfg@).legs);
    Ok(Plan { legs, reason: Reason::MixedSplit, tier: tier.tier(), routed_model: ocr_model })
}

/// Why a document skipped routing entirely.
#[derive(Clone, Copy, Debug, PartialEq, Eq, Hash, Structural)]
pub enum Bypass {
    /// The bytes are not a PDF.
    NotPdf,
    /// The document is larger than `max_document_bytes`.
    Oversize,
    /// The host knows the input was an image, not a document.
    Image,
    /// The classifier could not read the PDF.
    ClassifierFailed,
}

impl Bypass {
    /// The wire string for this bypass reason.
    pub open spec fn text(self) -> Seq<char> {
        match self {
            Bypass::NotPdf => "not_pdf"@,
            Bypass::Oversize => "oversize"@,
            Bypass::Image => "image"@,
            Bypass::ClassifierFailed => "classifier_unavailable"@,
        }
    }

    /// The wire string for this bypass reason.
    pub fn as_str(self) -> (r: &'static str)
        ensures
            r@ == self.text(),
    {
        match self {
            Bypass::NotPdf => "not_pdf",
            Bypass::Oversize => "oversize",
            Bypass::Image => "image",
            Bypass::ClassifierFailed => "classifier_unavailable",
        }
    }
}

/// What the router decided to do with a document.
#[derive(Debug, PartialEq)]
pub enum Decision {
    /// Send the whole document to one model without classifying it.
    Bypass {
        /// Why routing was skipped.
        reason: Bypass,
        /// The model that gets the whole document.
        model: String,
        /// Human-readable detail (e.g. the classifier's error).
        detail: Option<String>,
    },
    /// Execute this plan.
    Route {
        /// The plan to execute.
        plan: Plan,
        /// What the classifier found.
        classification: Classification,
    },
}

/// A [`Decision`] over sequences.
#[verifier::ext_equal]
pub ghost enum DecisionModel {
    Bypass { reason: Bypass, model: Seq<char>, detail: Option<Seq<char>> },
    Route { plan: PlanModel, classification: ClassificationModel },
}

impl View for Decision {
    type V = DecisionModel;

    open spec fn view(&self) -> DecisionModel {
        match self {
            Decision::Bypass { reason, model, detail } => DecisionModel::Bypass {
                reason: *reason,
                model: model@,
                detail: opt_text(*detail),
            },
            Decision::Route { plan, classification } => DecisionModel::Route {
                plan: plan@,
                classification: classification@,
            },
        }
    }
}

impl Clone for Decision {
    fn clone(&self) -> (r: Self)
        ensures
            r@ == self@,
    {
        match self {
            Decision::Bypass { reason, model, detail } => Decision::Bypass {
                reason: *reason,
                model: model.clone(),
                detail: crate::text::clone_opt_text(detail),
            },
            Decision::Route { plan, classification } => Decision::Route {
                plan: plan.clone(),
                classification: classification.clone(),
            },
        }
    }
}

/// The model the whole document goes to when it is not routed: the default model unless it is
/// absent or blank, else `tiers.standard`.
pub open spec fn whole_document_model(cfg: ConfigModel, default_model: Option<Seq<char>>) -> Seq<
    char,
> {
    if default_model is Some && !blank(default_model->0) {
        default_model->0
    } else {
        cfg.tiers.standard
    }
}

impl Decision {
    /// The model a bypass sends to: `default_model`, else `tiers.standard`.
    pub fn bypass_model(cfg: &Config, default_model: Option<&str>) -> (r: String)
        ensures
            r@ == whole_document_model(cfg@, opt_str(default_model)),
    {
        match default_model {
            Some(model) => if is_blank(model) {
                cfg.tiers.standard.clone()
            } else {
                model.to_owned()
            },
            None => cfg.tiers.standard.clone(),
        }
    }

    /// A bypass for input the host already knows is an image.
    pub fn bypass_image(cfg: &Config, default_model: Option<&str>) -> (r: Decision)
        ensures
            r@ == (DecisionModel::Bypass {
                reason: Bypass::Image,
                model: whole_document_model(cfg@, opt_str(default_model)),
                detail: None,
            }),
    {
        Decision::Bypass {
            reason: Bypass::Image,
            model: Decision::bypass_model(cfg, default_model),
            detail: None,
        }
    }

    /// The plan, when this decision is a route.
    pub fn plan(&self) -> (r: Option<&Plan>)
        ensures
            match self@ {
                DecisionModel::Route { plan, .. } => r is Some && r->0@ == plan,
                DecisionModel::Bypass { .. } => r is None,
            },
    {
        match self {
            Decision::Route { plan, .. } => Some(plan),
            Decision::Bypass { .. } => None,
        }
    }

    /// The classification, when this decision is a route.
    pub fn classification(&self) -> (r: Option<&Classification>)
        ensures
            match self@ {
                DecisionModel::Route { classification, .. } => r is Some && r->0@
                    == classification,
                DecisionModel::Bypass { .. } => r is None,
            },
    {
        match self {
            Decision::Route { classification, .. } => Some(classification),
            Decision::Bypass { .. } => None,
        }
    }
}

/// The decision an outcome of classification leads to: a route on success, a bypass that
/// carries the error's text otherwise.
pub open spec fn decided(
    cfg: ConfigModel,
    default_model: Option<Seq<char>>,
    outcome: Result<ClassificationModel, ErrorModel>,
) -> DecisionModel {
    match outcome {
        Ok(classification) => DecisionModel::Route {
            plan: routed(classification, cfg),
            classification,
        },
        Err(error) => DecisionModel::Bypass {
            reason: Bypass::ClassifierFailed,
            model: whole_document_model(cfg, default_model),
            detail: Some(error.text()),
        },
    }
}

/// Turn an outcome of classification into a decision.
pub fn decide_on(
    cfg: &Config,
    default_model: Option<&str>,
    outcome: Result<Classification, Error>,
) -> (r: Decision)
    ensures
        r@ == decided(cfg@, opt_str(default_model), classification_outcome(outcome)),
{
    match outcome {
        Ok(classification) => match plan_route(&classification, cfg) {
            Ok(plan) => Decision::Route { plan, classification },
            Err(error) => Decision::Bypass {
                reason: Bypass::ClassifierFailed,
                model: Decision::bypass_model(cfg, default_model),
                detail: Some(error.message()),
            },
        },
        Err(error) => Decision::Bypass {
            reason: Bypass::ClassifierFailed,
            model: Decision::bypass_model(cfg, default_model),
            detail: Some(error.message()),
        },
    }
}

/// `out` is something [`decide_with`] may return: the magic-number gate, then the size gate,
/// then what classification leads to.
pub open spec fn may_decide<J: PageJudge + ?Sized>(
    bytes: Seq<u8>,
    cfg: ConfigModel,
    default_model: Option<Seq<char>>,
    judge: &J,
    out: DecisionModel,
) -> bool {
    if !pdf_magic(bytes) {
        out == (DecisionModel::Bypass {
            reason: Bypass::NotPdf,
            model: whole_document_model(cfg, default_model),
            detail: None,
        })
    } else if bytes.len() > cfg.max_document_bytes {
        out == (DecisionModel::Bypass {
            reason: Bypass::Oversize,
            model: whole_document_model(cfg, default_model),
            detail: Some(
                decimal(bytes.len()) + " bytes exceeds max_document_bytes "@ + decimal(
                    cfg.max_document_bytes as nat,
                ),
            ),
        })
    } else {
        exists|outcome: Result<ClassificationModel, ErrorModel>| #[trigger]
            may_classify(bytes, judge, outcome) && out == decided(cfg, default_model, outcome)
    }
}

/// Decide what to do with `bytes`. Never errors: anything unroutable becomes a bypass.
///
/// Uses the built-in [`HeuristicJudge`]. [`decide_with`] takes any other judge.
pub fn decide(bytes: &[u8], cfg: &Config, default_model: Option<&str>) -> (r: Decision)
    ensures
        may_decide(bytes@, cfg@, opt_str(default_model), &HeuristicJudge, r@),
{
    decide_with(bytes, cfg, default_model, &HeuristicJudge)
}

/// [`decide`], with `judge` deciding which pages need OCR.
///
/// The judge is the only thing that changes: the size and type gates, the decision table and
/// the bypass a classifier failure produces are the same for every judge.
pub fn decide_with<J: PageJudge + ?Sized>(
    bytes: &[u8],
    cfg: &Config,
    default_model: Option<&str>,
    judge: &J,
) -> (r: Decision)
    ensures
        may_decide(bytes@, cfg@, opt_str(default_model), judge, r@),
{
    if !is_pdf(bytes) {
        return Decision::Bypass {
            reason: Bypass::NotPdf,
            model: Decision::bypass_model(cfg, default_model),
            detail: None,
        };
    }
    if bytes.len() as u64 > cfg.max_document_bytes {
        let mut detail: String = crate::text::decimal_text(bytes.len() as u64);
        detail.append(" bytes exceeds max_document_bytes ");
        push_decimal(&mut detail, cfg.max_document_bytes);
        return Decision::Bypass {
            reason: Bypass::Oversize,
            model: Decision::bypass_model(cfg, default_model),
            detail: Some(detail),
        };
    }
    let outcome = classify_with(bytes, judge);
    let ghost model = classification_outcome(outcome);
    let r = decide_on(cfg, default_model, outcome);
    assert(may_classify(bytes@, judge, model));
    r
}

proof fn existing_holds(pages: Seq<u32>, page_count: u32)
    ensures
        forall|i: int|
            0 <= i < existing(pages, page_count).len() ==> #[trigger] existing(pages, page_count)[i]
                < page_count,
        forall|p: u32| #[trigger]
            existing(pages, page_count).contains(p) <==> pages.contains(p) && p < page_count,
        (forall|i: int| 0 <= i < pages.len() ==> #[trigger] pages[i] < page_count) ==> existing(
            pages,
            page_count,
        ) == pages,
    decreases pages.len(),
{
    if pages.len() > 0 {
        let rest = pages.drop_last();
        existing_holds(rest, page_count);
        let all = existing(pages, page_count);
        assert(pages =~= rest.push(pages.last()));
        assert forall|p: u32| #[trigger] all.contains(p) <==> pages.contains(p) && p
            < page_count by {
            if all.contains(p) {
                let i = choose|i: int| 0 <= i < all.len() && all[i] == p;
                if i < existing(rest, page_count).len() {
                    assert(existing(rest, page_count)[i] == p);
                    assert(existing(rest, page_count).contains(p));
                    let k = choose|k: int| 0 <= k < rest.len() && rest[k] == p;
                    assert(pages[k] == p);
                } else {
                    assert(pages[pages.len() - 1] == p);
                }
            }
            if pages.contains(p) && p < page_count {
                let k = choose|k: int| 0 <= k < pages.len() && pages[k] == p;
                if k < rest.len() {
                    assert(rest[k] == p);
                    assert(existing(rest, page_count).contains(p));
                    let i = choose|i: int|
                        0 <= i < existing(rest, page_count).len() && existing(rest, page_count)[i]
                            == p;
                    assert(all[i] == p);
                } else {
                    assert(all[all.len() - 1] == p);
                }
            }
        }
        if forall|i: int| 0 <= i < pages.len() ==> #[trigger] pages[i] < page_count {
            assert forall|i: int| 0 <= i < rest.len() implies #[trigger] rest[i] < page_count by {
                assert(rest[i] == pages[i]);
            }
            assert(pages[pages.len() - 1] < page_count);
            assert(all =~= pages);
        }
    } else {
        assert(existing(pages, page_count) =~= pages);
    }
}

/// A split plan covers the document: each page is on exactly one of its two legs, the local
/// one when it has a text layer and the OCR one when it does not, and no leg names a page that
/// does not exist.
pub proof fn split_plan_partitions_the_pages(c: ClassificationModel, cfg: ConfigModel)
    requires
        routed(c, cfg).reason == Reason::MixedSplit,
    ensures
        routed(c, cfg).legs.len() == 2,
        routed(c, cfg).legs[0].tier == Tier::Local,
        routed(c, cfg).legs[1].tier != Tier::Local,
        routed(c, cfg).legs[0].pages is Some,
        routed(c, cfg).legs[1].pages is Some,
        forall|p: u32|
            #![trigger c.pages_needing_ocr.contains(p)]
            p < c.page_count ==> (routed(c, cfg).legs[1].pages->0.contains(p)
                <==> c.pages_needing_ocr.contains(p)) && (routed(c, cfg).legs[0].pages->0.contains(
                p,
            ) <==> !c.pages_needing_ocr.contains(p)),
        forall|leg: int, i: int|
            0 <= leg < 2 && 0 <= i < routed(c, cfg).legs[leg].pages->0.len()
                ==> #[trigger] routed(c, cfg).legs[leg].pages->0[i] < c.page_count,
        increasing(routed(c, cfg).legs[0].pages->0),
{
    let keep = |p: u32| !c.pages_needing_ocr.contains(p);
    existing_holds(c.pages_needing_ocr, c.page_count);
    kept_holds(c.page_count as nat, keep);
    assert(routed(c, cfg).legs[0].pages->0 == kept(c.page_count as nat, keep));
    assert(routed(c, cfg).legs[1].pages->0 == existing(c.pages_needing_ocr, c.page_count));
    assert forall|p: u32|
        #![trigger c.pages_needing_ocr.contains(p)]
        p < c.page_count implies (routed(c, cfg).legs[1].pages->0.contains(p)
        <==> c.pages_needing_ocr.contains(p)) && (routed(c, cfg).legs[0].pages->0.contains(p)
        <==> !c.pages_needing_ocr.contains(p)) by {
        assert(existing(c.pages_needing_ocr, c.page_count).contains(p) <==> c.pages_needing_ocr.contains(p));
        assert(kept(c.page_count as nat, keep).contains(p) <==> keep(p));
    }
    assert forall|leg: int, i: int|
        0 <= leg < 2 && 0 <= i < routed(c, cfg).legs[leg].pages->0.len() implies #[trigger] routed(
        c,
        cfg,
    ).legs[leg].pages->0[i] < c.page_count by {}
}

/// On a well-formed classification the OCR leg of a split plan is the classifier's page list
/// itself.
pub proof fn split_plan_sends_the_flagged_pages(c: ClassificationModel, cfg: ConfigModel)
    requires
        c.well_formed(),
        routed(c, cfg).reason == Reason::MixedSplit,
    ensures
        routed(c, cfg).legs[1].pages == Some(c.pages_needing_ocr),
{
    existing_holds(c.pages_needing_ocr, c.page_count);
}

/// Every plan has one or two legs; it is split exactly when the reason says so, a plan that is
/// not split covers the whole document, and the request is attributed to the plan's own tier
/// and to the model of its last leg.
pub proof fn plans_are_consistent(c: ClassificationModel, cfg: ConfigModel)
    ensures
        1 <= routed(c, cfg).legs.len() <= 2,
        routed(c, cfg).legs.len() == 2 <==> routed(c, cfg).reason == Reason::MixedSplit,
        routed(c, cfg).legs.len() == 1 ==> routed(c, cfg).legs[0].pages is None,
        routed(c, cfg).tier == routed(c, cfg).legs.last().tier,
        routed(c, cfg).routed_model == routed(c, cfg).legs.last().model,
        forall|i: int|
            0 <= i < routed(c, cfg).legs.len() ==> Some((#[trigger] routed(c, cfg).legs[i]).model)
                == cfg.tiers.model_for(routed(c, cfg).legs[i].tier),
{
}

/// The tier pages that need OCR go to, and its model: the premium tier exactly when the layout
/// is complex, complex layouts are sent there and a premium model is configured; the standard
/// tier in every other case.
proof fn ocr_tier_is_premium_only_for_complex_layouts(c: ClassificationModel, cfg: ConfigModel)
    ensures
        ocr_tier(c, cfg).tier() == Tier::Premium <==> c.is_complex_layout
            && cfg.complex_layout_tier == OcrTier::Premium && cfg.tiers.premium is Some,
        ocr_tier(c, cfg).tier() != Tier::Premium ==> ocr_tier(c, cfg).tier() == Tier::Standard,
{
}

/// Where the pages of a document go, when its classification is sure enough to route by page.
///
/// The whole document is read locally exactly when no page needs OCR. It is sent whole to the
/// OCR tier exactly when every page needs OCR, or some do and splitting is off. It is split
/// exactly when some pages need OCR, not all do, and splitting is on: the flagged pages, and no
/// other, are then on the leg that is not local. Whatever the plan, a page that needs OCR is on
/// a leg that is not local.
pub proof fn pages_go_where_they_were_flagged(c: ClassificationModel, cfg: ConfigModel)
    requires
        c.well_formed(),
        !c.confidence.below(cfg.min_confidence),
    ensures
        ({
            let plan = routed(c, cfg);
            let none = forall|p: u32| p < c.page_count ==> !#[trigger] c.pages_needing_ocr.contains(p);
            let all = c.page_count > 0 && forall|p: u32|
                p < c.page_count ==> #[trigger] c.pages_needing_ocr.contains(p);
            &&& plan.legs.len() == 1 && plan.legs[0].tier == Tier::Local <==> none
            &&& plan.legs.len() == 1 && plan.legs[0].tier != Tier::Local <==> all || (!none
                && !cfg.split_pages)
            &&& plan.legs.len() == 2 <==> !none && !all && cfg.split_pages
            &&& plan.legs.len() == 1 || plan.legs.len() == 2
            &&& plan.legs.len() == 1 ==> plan.legs[0].pages is None
            &&& plan.legs.len() == 2 ==> {
                &&& plan.legs[0].tier == Tier::Local
                &&& plan.legs[1].tier != Tier::Local
                &&& plan.legs[0].pages is Some
                &&& plan.legs[1].pages is Some
                &&& increasing(plan.legs[0].pages->0)
                &&& increasing(plan.legs[1].pages->0)
                &&& forall|p: u32| #[trigger]
                    plan.legs[0].pages->0.contains(p) <==> p < c.page_count
                        && !c.pages_needing_ocr.contains(p)
                &&& forall|p: u32| #[trigger]
                    plan.legs[1].pages->0.contains(p) <==> c.pages_needing_ocr.contains(p)
            }
            &&& plan.reason == Reason::TextLayer <==> none
            &&& plan.reason == Reason::Scanned <==> all
            &&& plan.reason == Reason::MixedUnsplit <==> !none && !all && !cfg.split_pages
            &&& plan.reason == Reason::MixedSplit <==> !none && !all && cfg.split_pages
        }),
        forall|p: u32| #[trigger]
            c.pages_needing_ocr.contains(p) ==> exists|i: int|
                0 <= i < routed(c, cfg).legs.len() && (#[trigger] routed(c, cfg).legs[i]).tier
                    != Tier::Local && (routed(c, cfg).legs[i].pages is None || routed(
                    c,
                    cfg,
                ).legs[i].pages->0.contains(p)),
        forall|p: u32|
            p < c.page_count && !#[trigger] c.pages_needing_ocr.contains(p) ==> exists|i: int|
                0 <= i < routed(c, cfg).legs.len() && ((
                #[trigger] routed(c, cfg).legs[i]).pages is None || routed(
                    c,
                    cfg,
                ).legs[i].pages->0.contains(p)),
{
    let plan = routed(c, cfg);
    let flagged = c.pages_needing_ocr;
    existing_holds(flagged, c.page_count);
    assert(existing(flagged, c.page_count) == flagged);
    if flagged.len() > 0 {
        assert(flagged.contains(flagged[0]));
    }
    every_page_is_listed(flagged, c.page_count);
    let none = forall|p: u32| p < c.page_count ==> !#[trigger] flagged.contains(p);
    assert(none <==> flagged.len() == 0) by {
        if flagged.len() > 0 {
            assert(flagged[0] < c.page_count);
        }
    }
    if plan.legs.len() == 2 {
        split_plan_partitions_the_pages(c, cfg);
        split_plan_sends_the_flagged_pages(c, cfg);
        assert forall|p: u32| #[trigger] plan.legs[0].pages->0.contains(p) implies p
            < c.page_count by {
            let i = choose|i: int|
                0 <= i < plan.legs[0].pages->0.len() && plan.legs[0].pages->0[i] == p;
            assert(routed(c, cfg).legs[0].pages->0[i] < c.page_count);
        }
    }
    assert forall|p: u32| #[trigger] flagged.contains(p) implies exists|i: int|
        0 <= i < plan.legs.len() && (#[trigger] plan.legs[i]).tier != Tier::Local && (
        plan.legs[i].pages is None || plan.legs[i].pages->0.contains(p)) by {
        let at = choose|at: int| 0 <= at < flagged.len() && flagged[at] == p;
        assert(p < c.page_count);
        if plan.legs.len() == 2 {
            assert(plan.legs[1].pages->0.contains(p));
        } else {
            assert(plan.legs[0].tier != Tier::Local);
        }
    }
    assert forall|p: u32| p < c.page_count && !#[trigger] flagged.contains(p) implies exists|i: int|
        0 <= i < plan.legs.len() && ((#[trigger] plan.legs[i]).pages is None
            || plan.legs[i].pages->0.contains(p)) by {
        if plan.legs.len() == 2 {
            assert(plan.legs[0].pages->0.contains(p));
        } else {
            assert(plan.legs[0].pages is None);
        }
    }
}

/// An increasing list of pages in range has as many entries as there are pages exactly when
/// every page is on it.
proof fn every_page_is_listed(pages: Seq<u32>, page_count: u32)
    requires
        increasing(pages),
        forall|i: int| 0 <= i < pages.len() ==> #[trigger] pages[i] < page_count,
    ensures
        pages.len() <= page_count,
        pages.len() == page_count <==> forall|p: u32|
            p < page_count ==> #[trigger] pages.contains(p),
{
    let keep = |p: u32| pages.contains(p);
    kept_holds(page_count as nat, keep);
    assert forall|p: u32| kept(page_count as nat, keep).contains(p) <==> pages.contains(p) by {
        if pages.contains(p) {
            let i = choose|i: int| 0 <= i < pages.len() && pages[i] == p;
            assert(pages[i] < page_count);
        }
    }
    increasing_fixed_by_contents(kept(page_count as nat, keep), pages);
    kept_of_all(page_count as nat, keep);
}

/// Which model and tier each leg of a plan has, and what the plan is for.
///
/// A classification that is not sure enough sends the whole document to the standard tier,
/// whatever its pages look like. A local leg runs the local model; a leg that is not local runs
/// on the premium tier exactly when the layout is complex, complex layouts are sent there, a
/// premium model is configured and the classification is sure enough, and on the standard tier
/// otherwise, under that tier's model. The request goes by the tier and the model of the leg
/// that is not local, or of the local one when there is no other.
pub proof fn legs_run_on_the_configured_models(c: ClassificationModel, cfg: ConfigModel)
    ensures
        ({
            let plan = routed(c, cfg);
            let sure = !c.confidence.below(cfg.min_confidence);
            let premium = sure && c.is_complex_layout && cfg.complex_layout_tier
                == OcrTier::Premium && cfg.tiers.premium is Some;
            &&& !sure ==> {
                &&& plan.legs.len() == 1
                &&& plan.legs[0].tier == Tier::Standard
                &&& plan.legs[0].pages is None
                &&& plan.reason == Reason::LowConfidence
            }
            &&& plan.reason == Reason::LowConfidence <==> !sure
            &&& forall|i: int|
                0 <= i < plan.legs.len() ==> match (#[trigger] plan.legs[i]).tier {
                    Tier::Local => plan.legs[i].model == cfg.tiers.local,
                    Tier::Standard => !premium && plan.legs[i].model == cfg.tiers.standard,
                    Tier::Premium => premium && Some(plan.legs[i].model) == cfg.tiers.premium,
                }
            &&& plan.legs.len() > 0
            &&& plan.tier == plan.legs.last().tier
            &&& plan.routed_model == plan.legs.last().model
            &&& forall|i: int|
                0 <= i < plan.legs.len() && (#[trigger] plan.legs[i]).tier != Tier::Local ==> i
                    == plan.legs.len() - 1
        }),
{
    ocr_tier_is_premium_only_for_complex_layouts(c, cfg);
}

/// The same findings under the same configuration get the same plan. How long a classification
/// took plays no part in it, nor does the document's label, nor why a page was flagged.
pub proof fn the_same_findings_get_the_same_plan(
    a: ClassificationModel,
    b: ClassificationModel,
    cfg: ConfigModel,
)
    requires
        a.confidence == b.confidence,
        a.page_count == b.page_count,
        a.pages_needing_ocr == b.pages_needing_ocr,
        a.is_complex_layout == b.is_complex_layout,
    ensures
        routed(a, cfg) == routed(b, cfg),
{
    assert(a.text_layer_pages() =~= b.text_layer_pages());
}

/// The judge moves nothing but pages: whatever judge decides, a document that is not a PDF or
/// is too large gets the same decision.
pub proof fn gates_do_not_depend_on_the_judge<A: PageJudge + ?Sized, B: PageJudge + ?Sized>(
    bytes: Seq<u8>,
    cfg: ConfigModel,
    default_model: Option<Seq<char>>,
    a: &A,
    b: &B,
    out: DecisionModel,
)
    requires
        !pdf_magic(bytes) || bytes.len() > cfg.max_document_bytes,
    ensures
        may_decide(bytes, cfg, default_model, a, out) <==> may_decide(
            bytes,
            cfg,
            default_model,
            b,
            out,
        ),
{
}

/// Whatever cannot be routed goes whole to the default model: a document that is not a PDF, one
/// that is too large, and one whose classification failed, each under its own reason. Every
/// other document is routed.
pub proof fn whatever_is_not_routed_goes_to_the_default_model<J: PageJudge + ?Sized>(
    bytes: Seq<u8>,
    cfg: ConfigModel,
    default_model: Option<Seq<char>>,
    judge: &J,
    out: DecisionModel,
)
    requires
        may_decide(bytes, cfg, default_model, judge, out),
    ensures
        out matches DecisionModel::Bypass { reason, model, .. } ==> {
            &&& model == whole_document_model(cfg, default_model)
            &&& (reason == Bypass::NotPdf <==> !pdf_magic(bytes))
            &&& (reason == Bypass::Oversize <==> pdf_magic(bytes) && bytes.len()
                > cfg.max_document_bytes)
            &&& reason != Bypass::Image
            &&& reason == Bypass::ClassifierFailed ==> exists|error: ErrorModel| #[trigger]
                may_classify(bytes, judge, Err(error))
        },
        out is Route ==> pdf_magic(bytes) && bytes.len() <= cfg.max_document_bytes,
{
}

/// The model a document goes to whole: the caller's own when it has a character that is not
/// whitespace, the standard tier's in every other case.
pub proof fn a_blank_default_is_no_default(cfg: ConfigModel, default_model: Option<Seq<char>>)
    ensures
        (default_model is Some && exists|i: int|
            0 <= i < default_model->0.len() && !crate::text::is_space(
                #[trigger] default_model->0[i],
            )) ==> whole_document_model(cfg, default_model) == default_model->0,
        !(default_model is Some && exists|i: int|
            0 <= i < default_model->0.len() && !crate::text::is_space(
                #[trigger] default_model->0[i],
            )) ==> whole_document_model(cfg, default_model) == cfg.tiers.standard,
{
}

/// What becomes of a document. Bytes that do not open with `%PDF` go whole to the default model
/// for that reason, and so do bytes over the limit, with the two sizes as the detail. All others
/// are classified: a classification is routed by its plan, and a failure sends the document whole
/// to the default model, with the failure's own words as the detail.
pub proof fn what_becomes_of_a_document<J: PageJudge + ?Sized>(
    bytes: Seq<u8>,
    cfg: ConfigModel,
    default_model: Option<Seq<char>>,
    judge: &J,
    out: DecisionModel,
)
    requires
        may_decide(bytes, cfg, default_model, judge, out),
    ensures
        ({
            let opens = bytes.len() >= 4 && bytes[0] == 0x25 && bytes[1] == 0x50 && bytes[2] == 0x44
                && bytes[3] == 0x46;
            let fits = bytes.len() <= cfg.max_document_bytes;
            &&& !opens <==> (out is Bypass && out->reason == Bypass::NotPdf)
            &&& opens && !fits <==> (out is Bypass && out->reason == Bypass::Oversize)
            &&& out is Bypass && out->reason == Bypass::NotPdf ==> out->detail is None
            &&& out is Bypass && out->reason == Bypass::Oversize ==> out->detail == Some(
                decimal(bytes.len()) + " bytes exceeds max_document_bytes "@ + decimal(
                    cfg.max_document_bytes as nat,
                ),
            )
            &&& out is Bypass ==> out->model == whole_document_model(cfg, default_model)
            &&& opens && fits ==> {
                ||| out is Route && may_classify(bytes, judge, Ok(out->classification))
                    && out->plan == routed(out->classification, cfg)
                ||| out is Bypass && out->reason == Bypass::ClassifierFailed && exists|
                    error: ErrorModel,
                | #[trigger] may_classify(bytes, judge, Err(error)) && out->detail == Some(
                    error.text(),
                )
            }
        }),
{
}

/// Every reason a document is routed or bypassed for has a wire string of its own.
pub proof fn reasons_are_told_apart(a: Reason, b: Reason, x: Bypass, y: Bypass)
    ensures
        a.text() == b.text() ==> a == b,
        x.text() == y.text() ==> x == y,
{
    reveal_strlit("low_confidence");
    reveal_strlit("text_layer");
    reveal_strlit("scanned");
    reveal_strlit("mixed_split");
    reveal_strlit("mixed_unsplit");
    reveal_strlit("not_pdf");
    reveal_strlit("oversize");
    reveal_strlit("image");
    reveal_strlit("classifier_unavailable");
    assert("low_confidence"@.len() == 14);
    assert("text_layer"@.len() == 10);
    assert("scanned"@.len() == 7);
    assert("mixed_split"@.len() == 11);
    assert("mixed_unsplit"@.len() == 13);
    assert("not_pdf"@.len() == 7);
    assert("oversize"@.len() == 8);
    assert("image"@.len() == 5);
    assert("classifier_unavailable"@.len() == 22);
}

/// A document needs OCR everywhere exactly when it has pages and each of them is on the list.
pub proof fn ocr_everywhere_is_every_page(c: ClassificationModel)
    requires
        c.well_formed(),
    ensures
        c.needs_ocr_everywhere() <==> c.page_count > 0 && forall|p: u32|
            p < c.page_count ==> #[trigger] c.pages_needing_ocr.contains(p),
{
    every_page_is_listed(c.pages_needing_ocr, c.page_count);
}

/// What the list of pages to send holds beside pages that exist plays no part: a page past the
/// end adds nothing to a plan.
pub proof fn a_page_past_the_end_changes_no_plan(
    c: ClassificationModel,
    cfg: ConfigModel,
    page: u32,
)
    requires
        page >= c.page_count,
    ensures
        routed(
            ClassificationModel { pages_needing_ocr: c.pages_needing_ocr.push(page), ..c },
            cfg,
        ) == routed(c, cfg),
{
    let more = ClassificationModel { pages_needing_ocr: c.pages_needing_ocr.push(page), ..c };
    assert(more.pages_needing_ocr.drop_last() =~= c.pages_needing_ocr);
    let kept_before = |p: u32| !c.pages_needing_ocr.contains(p);
    let kept_after = |p: u32| !more.pages_needing_ocr.contains(p);
    assert forall|p: u32| p < c.page_count implies c.pages_needing_ocr.contains(p)
        == #[trigger] more.pages_needing_ocr.contains(p) by {
        if c.pages_needing_ocr.contains(p) {
            let i = choose|i: int|
                0 <= i < c.pages_needing_ocr.len() && c.pages_needing_ocr[i] == p;
            assert(more.pages_needing_ocr[i] == p);
        }
    }
    kept_holds(c.page_count as nat, kept_before);
    kept_holds(c.page_count as nat, kept_after);
    assert forall|p: u32|
        c.text_layer_pages().contains(p) <==> more.text_layer_pages().contains(p) by {
        assert(kept(c.page_count as nat, kept_before).contains(p) <==> p < c.page_count
            && kept_before(p));
        assert(kept(c.page_count as nat, kept_after).contains(p) <==> p < c.page_count
            && kept_after(p));
    }
    increasing_fixed_by_contents(c.text_layer_pages(), more.text_layer_pages());
}

/// An image is sent whole, for that reason and without a detail, to the default model where one
/// is given that is not blank, and to the standard model otherwise.
pub proof fn an_image_is_sent_whole(cfg: &Config, default_model: Option<&str>, out: Decision)
    requires
        call_ensures(Decision::bypass_image, (cfg, default_model), out),
    ensures
        out@ is Bypass,
        out@->reason == Bypass::Image,
        out@->detail is None,
        default_model is Some && !crate::text::blank(default_model->0@) ==> out@->model
            == default_model->0@,
        default_model is None || crate::text::blank(default_model->0@) ==> out@->model
            == cfg@.tiers.standard,
{
}

/// A decision hands out what it holds: its plan and its classification where it routes, and
/// neither where it does not.
pub proof fn a_decision_hands_out_what_it_holds(
    decision: &Decision,
    plan: Option<&Plan>,
    classification: Option<&Classification>,
)
    requires
        call_ensures(Decision::plan, (decision,), plan),
        call_ensures(Decision::classification, (decision,), classification),
    ensures
        plan is Some <==> decision@ is Route,
        classification is Some <==> decision@ is Route,
        decision@ is Route ==> plan->0@ == decision@->plan && classification->0@
            == decision@->classification,
{
}

/// [`plan_route`] always has a plan, and a plan that is sure of its pages puts every page that
/// needs OCR on a leg that is not local, and every page that needs none on a leg of some kind. It
/// is local as a whole exactly when no page needs OCR, and split exactly when some do, some do not
/// and splitting is on.
pub proof fn plan_route_leaves_no_page_behind(
    c: &Classification,
    cfg: &Config,
    out: Result<Plan, Error>,
)
    requires
        c@.well_formed(),
        call_ensures(plan_route, (c, cfg), out),
    ensures
        out is Ok,
        ({
            let plan = out->Ok_0@;
            let none = forall|p: u32|
                p < c@.page_count ==> !#[trigger] c@.pages_needing_ocr.contains(p);
            let all = c@.page_count > 0 && forall|p: u32|
                p < c@.page_count ==> #[trigger] c@.pages_needing_ocr.contains(p);
            &&& forall|p: u32| #[trigger]
                c@.pages_needing_ocr.contains(p) ==> exists|i: int|
                    0 <= i < plan.legs.len() && (#[trigger] plan.legs[i]).tier != Tier::Local && (
                    plan.legs[i].pages is None || plan.legs[i].pages->0.contains(p))
            &&& forall|p: u32|
                p < c@.page_count && !#[trigger] c@.pages_needing_ocr.contains(p) ==> exists|i: int|
                    0 <= i < plan.legs.len() && ((#[trigger] plan.legs[i]).pages is None
                        || plan.legs[i].pages->0.contains(p))
            &&& !c@.confidence.below(cfg@.min_confidence) ==> {
                &&& plan.legs.len() == 1 && plan.legs[0].tier == Tier::Local <==> none
                &&& plan.legs.len() == 2 <==> !none && !all && cfg@.split_pages
            }
            &&& c@.confidence.below(cfg@.min_confidence) ==> plan.legs.len() == 1
                && plan.legs[0].tier == Tier::Standard && plan.legs[0].pages is None
        }),
{
    legs_run_on_the_configured_models(c@, cfg@);
    if !c@.confidence.below(cfg@.min_confidence) {
        pages_go_where_they_were_flagged(c@, cfg@);
    } else {
        let plan = out->Ok_0@;
        assert(plan.legs[0].tier != Tier::Local && plan.legs[0].pages is None);
    }
}

/// [`decide_with`] routes what it can classify, by the plan of that classification, and sends
/// everything else whole to the default model.
pub proof fn decide_with_routes_what_it_can_classify<J: PageJudge + ?Sized>(
    bytes: &[u8],
    cfg: &Config,
    default_model: Option<&str>,
    judge: &J,
    out: Decision,
)
    requires
        call_ensures(decide_with::<J>, (bytes, cfg, default_model, judge), out),
    ensures
        out@ is Route ==> may_classify(bytes@, judge, Ok(out@->classification)) && out@->plan
            == routed(out@->classification, cfg@) && bytes@.len() <= cfg@.max_document_bytes,
        out@ is Bypass && default_model is Some && !crate::text::blank(default_model->0@)
            ==> out@->model == default_model->0@,
        out@ is Bypass && (default_model is None || crate::text::blank(default_model->0@))
            ==> out@->model == cfg@.tiers.standard,
        out@ is Bypass ==> {
            ||| out@->reason == Bypass::NotPdf && !crate::classify::pdf_magic(bytes@)
            ||| out@->reason == Bypass::Oversize && bytes@.len() > cfg@.max_document_bytes
            ||| out@->reason == Bypass::ClassifierFailed && exists|error: ErrorModel| #[trigger]
                may_classify(bytes@, judge, Err(error)) && out@->detail == Some(error.text())
        },
{
    let default = match default_model {
        Some(model) => Some(model@),
        None => None,
    };
    what_becomes_of_a_document(bytes@, cfg@, default, judge, out@);
    a_blank_default_is_no_default(cfg@, default);
}

} // verus!
