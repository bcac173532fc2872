//! The scoring counts: confusion, pages bought, token spend, confidence.
//!
//! The two error counts are never summed: a missed page is a silent quality failure, a wasted
//! one costs money only.

use crate::bench::meter::TokenUsage;
use crate::judge::{verdict_models, PageVerdict, PageVerdictModel};
use crate::number::Real32;
use crate::order::{insert_by, insert_by_at, sorted_by};
use vstd::prelude::*;

verus! {

/// The per-page confusion matrix for one document, or for a group of them.
///
/// No field is ground truth: all four count what a judge did to a page. Ground truth is an
/// agreement plus the error on the same side of truth.
#[derive(Clone, Copy, Debug, PartialEq, Eq, Structural)]
pub struct Confusion {
    /// Truth says OCR, judge said OCR.
    pub correct_ocr: u32,
    /// Truth says local, judge said local.
    pub correct_local: u32,
    /// Truth says OCR, judge said local. A silent quality failure.
    pub missed_ocr: u32,
    /// Truth says local, judge said OCR. Costs money only.
    pub wasted_ocr: u32,
}

impl Default for Confusion {
    fn default() -> (r: Self)
        ensures
            r == Confusion::none(),
    {
        Confusion { correct_ocr: 0, correct_local: 0, missed_ocr: 0, wasted_ocr: 0 }
    }
}

impl Confusion {
    /// The matrix with no page in it.
    pub open spec fn none() -> Confusion {
        Confusion { correct_ocr: 0, correct_local: 0, missed_ocr: 0, wasted_ocr: 0 }
    }

    /// Every page counted.
    pub open spec fn total(self) -> int {
        self.correct_ocr + self.correct_local + self.missed_ocr + self.wasted_ocr
    }

    /// The pages truth says need OCR.
    pub open spec fn needing(self) -> int {
        self.correct_ocr + self.missed_ocr
    }

    /// The pages truth says need none.
    pub open spec fn local(self) -> int {
        self.correct_local + self.wasted_ocr
    }

    /// The pages the judge sent to OCR.
    pub open spec fn sent(self) -> int {
        self.correct_ocr + self.wasted_ocr
    }

    /// Neither error occurred.
    pub open spec fn perfect(self) -> bool {
        self.missed_ocr == 0 && self.wasted_ocr == 0
    }

    /// The counts of both, added up.
    pub open spec fn plus(self, other: Confusion) -> Confusion {
        Confusion {
            correct_ocr: (self.correct_ocr + other.correct_ocr) as u32,
            correct_local: (self.correct_local + other.correct_local) as u32,
            missed_ocr: (self.missed_ocr + other.missed_ocr) as u32,
            wasted_ocr: (self.wasted_ocr + other.wasted_ocr) as u32,
        }
    }

    /// Add another document's counts into this one.
    pub fn add(&mut self, other: &Confusion)
        requires
            old(self).correct_ocr + other.correct_ocr <= u32::MAX,
            old(self).correct_local + other.correct_local <= u32::MAX,
            old(self).missed_ocr + other.missed_ocr <= u32::MAX,
            old(self).wasted_ocr + other.wasted_ocr <= u32::MAX,
        ensures
            *final(self) == old(self).plus(*other),
            final(self).total() == old(self).total() + other.total(),
    {
        self.correct_ocr = self.correct_ocr + other.correct_ocr;
        self.correct_local = self.correct_local + other.correct_local;
        self.missed_ocr = self.missed_ocr + other.missed_ocr;
        self.wasted_ocr = self.wasted_ocr + other.wasted_ocr;
    }

    /// Every page counted.
    pub fn pages(&self) -> (r: u32)
        requires
            self.total() <= u32::MAX,
        ensures
            r == self.total(),
    {
        self.correct_ocr + self.correct_local + self.missed_ocr + self.wasted_ocr
    }

    /// The pages the corpus says need OCR, whatever this judge did with them.
    pub fn truly_needs_ocr(&self) -> (r: u32)
        requires
            self.needing() <= u32::MAX,
        ensures
            r == self.needing(),
    {
        self.correct_ocr + self.missed_ocr
    }

    /// The pages the corpus says need no OCR, whatever this judge did with them.
    pub fn truly_local(&self) -> (r: u32)
        requires
            self.local() <= u32::MAX,
        ensures
            r == self.local(),
    {
        self.correct_local + self.wasted_ocr
    }

    /// True when neither error occurred. An empty matrix is vacuously perfect.
    pub fn is_perfect(&self) -> (r: bool)
        ensures
            r == self.perfect(),
    {
        self.missed_ocr == 0 && self.wasted_ocr == 0
    }
}

/// The two sides of truth are the whole.
pub proof fn ground_truth_covers_the_pages(c: Confusion)
    ensures
        c.needing() + c.local() == c.total(),
{
}

/// How one judge did on one document's pages.
#[derive(Debug, PartialEq, Eq)]
pub struct PageScores {
    /// The confusion counts.
    pub confusion: Confusion,
    /// The 0-indexed pages the judge left local that needed OCR.
    pub missed_ocr_pages: Vec<u32>,
    /// The 0-indexed pages the judge sent to OCR that did not need it.
    pub wasted_ocr_pages: Vec<u32>,
    /// The pages the judge would send to OCR, in page order.
    pub ocr_pages: Vec<u32>,
    /// True when the judge's OCR page set is exactly truth's.
    pub route_exact: bool,
}

/// A [`PageScores`] over sequences.
#[verifier::ext_equal]
pub ghost struct PageScoresModel {
    pub confusion: Confusion,
    pub missed_ocr_pages: Seq<u32>,
    pub wasted_ocr_pages: Seq<u32>,
    pub ocr_pages: Seq<u32>,
    pub route_exact: bool,
}

impl View for PageScores {
    type V = PageScoresModel;

    open spec fn view(&self) -> PageScoresModel {
        PageScoresModel {
            confusion: self.confusion,
            missed_ocr_pages: self.missed_ocr_pages@,
            wasted_ocr_pages: self.wasted_ocr_pages@,
            ocr_pages: self.ocr_pages@,
            route_exact: self.route_exact,
        }
    }
}

/// The pages of the verdicts on which truth and the judge say this, in verdict order.
pub open spec fn pages_where(
    truth: Seq<u32>,
    verdicts: Seq<PageVerdictModel>,
    wanted: bool,
    sent: bool,
) -> Seq<u32>
    decreases verdicts.len(),
{
    if verdicts.len() == 0 {
        Seq::empty()
    } else {
        let before = pages_where(truth, verdicts.drop_last(), wanted, sent);
        let v = verdicts.last();
        if truth.contains(v.page) == wanted && v.needs_ocr == sent {
            before.push(v.page)
        } else {
            before
        }
    }
}

/// The pages of the verdicts that send to OCR, in verdict order.
pub open spec fn sent_pages(verdicts: Seq<PageVerdictModel>) -> Seq<u32>
    decreases verdicts.len(),
{
    if verdicts.len() == 0 {
        Seq::empty()
    } else if verdicts.last().needs_ocr {
        sent_pages(verdicts.drop_last()).push(verdicts.last().page)
    } else {
        sent_pages(verdicts.drop_last())
    }
}

/// A page by its number.
pub open spec fn page_number() -> spec_fn(u32) -> int {
    |p: u32| p as int
}

/// The score of a document's verdicts against the pages that truly need OCR.
pub open spec fn scored(truth: Seq<u32>, verdicts: Seq<PageVerdictModel>) -> PageScoresModel {
    let missed = pages_where(truth, verdicts, true, false);
    let wasted = pages_where(truth, verdicts, false, true);
    PageScoresModel {
        confusion: Confusion {
            correct_ocr: pages_where(truth, verdicts, true, true).len() as u32,
            correct_local: pages_where(truth, verdicts, false, false).len() as u32,
            missed_ocr: missed.len() as u32,
            wasted_ocr: wasted.len() as u32,
        },
        missed_ocr_pages: missed,
        wasted_ocr_pages: wasted,
        ocr_pages: sorted_by(sent_pages(verdicts), page_number()),
        route_exact: missed.len() == 0 && wasted.len() == 0,
    }
}

/// The four counts add up to the verdicts.
proof fn counts_add_up(truth: Seq<u32>, verdicts: Seq<PageVerdictModel>)
    ensures
        pages_where(truth, verdicts, true, true).len() + pages_where(
            truth,
            verdicts,
            false,
            false,
        ).len() + pages_where(truth, verdicts, true, false).len() + pages_where(
            truth,
            verdicts,
            false,
            true,
        ).len() == verdicts.len(),
    decreases verdicts.len(),
{
    if verdicts.len() > 0 {
        counts_add_up(truth, verdicts.drop_last());
    }
}

/// Put a page behind the last page not above it.
fn insert_sorted(pages: &mut Vec<u32>, page: u32)
    ensures
        final(pages)@ == insert_by(old(pages)@, page, page_number()),
{
    let ghost before = pages@;
    let mut at: usize = pages.len();
    while at > 0 && pages[at - 1] > page
        invariant
            pages@ == before,
            at <= before.len(),
            forall|i: int| at <= i < before.len() ==> #[trigger] before[i] > page,
        decreases at,
    {
        at -= 1;
    }
    proof {
        assert forall|i: int| at <= i < before.len() implies page_number()(#[trigger] before[i])
            > page_number()(page) by {
            assert(before[i] > page);
        }
        insert_by_at(before, page, page_number(), at as int);
    }
    pages.insert(at, page);
}

fn lists(pages: &[u32], page: u32) -> (r: bool)
    ensures
        r == pages@.contains(page),
{
    let mut i: usize = 0;
    while i < pages.len()
        invariant
            i <= pages@.len(),
            forall|k: int| 0 <= k < i ==> #[trigger] pages@[k] != page,
        decreases pages@.len() - i,
    {
        if pages[i] == page {
            return true;
        }
        i += 1;
    }
    false
}

/// Score one judge's verdicts for one document against the 0-indexed truth.
///
/// `verdicts` is one per page in page order. Both page lists are 0-indexed and neither is
/// shifted here.
pub fn score_pages(truth: &[u32], verdicts: &[PageVerdict]) -> (r: PageScores)
    requires
        verdicts@.len() <= u32::MAX,
    ensures
        r@ == scored(truth@, verdict_models(verdicts@)),
        r@.confusion.total() == verdicts@.len(),
{
    let ghost all = verdict_models(verdicts@);
    let mut confusion: Confusion = Confusion::default();
    let mut missed: Vec<u32> = Vec::new();
    let mut wasted: Vec<u32> = Vec::new();
    let mut sent: Vec<u32> = Vec::new();
    let mut i: usize = 0;
    assert(all.take(0) =~= Seq::empty());
    while i < verdicts.len()
        invariant
            i <= verdicts@.len() <= u32::MAX,
            all == verdict_models(verdicts@),
            confusion.correct_ocr == pages_where(truth@, all.take(i as int), true, true).len(),
            confusion.correct_local == pages_where(truth@, all.take(i as int), false, false).len(),
            confusion.missed_ocr == missed@.len(),
            confusion.wasted_ocr == wasted@.len(),
            missed@ == pages_where(truth@, all.take(i as int), true, false),
            wasted@ == pages_where(truth@, all.take(i as int), false, true),
            sent@ == sorted_by(sent_pages(all.take(i as int)), page_number()),
        decreases verdicts@.len() - i,
    {
        let verdict: &PageVerdict = &verdicts[i];
        proof {
            let now = all.take(i + 1);
            assert(now.drop_last() =~= all.take(i as int));
            assert(now.last() == verdict@);
            counts_add_up(truth@, all.take(i as int));
            if verdict.needs_ocr {
                let pages = sent_pages(now);
                assert(pages.drop_last() =~= sent_pages(all.take(i as int)));
                assert(pages.last() == verdict.page);
            }
        }
        let wanted: bool = lists(truth, verdict.page);
        if verdict.needs_ocr {
            insert_sorted(&mut sent, verdict.page);
            if wanted {
                confusion.correct_ocr = confusion.correct_ocr + 1;
            } else {
                confusion.wasted_ocr = confusion.wasted_ocr + 1;
                wasted.push(verdict.page);
            }
        } else if wanted {
            confusion.missed_ocr = confusion.missed_ocr + 1;
            missed.push(verdict.page);
        } else {
            confusion.correct_local = confusion.correct_local + 1;
        }
        i += 1;
    }
    proof {
        assert(all.take(i as int) =~= all);
        counts_add_up(truth@, all);
    }
    let route_exact: bool = confusion.is_perfect();
    PageScores {
        confusion,
        missed_ocr_pages: missed,
        wasted_ocr_pages: wasted,
        ocr_pages: sent,
        route_exact,
    }
}

/// How many of these pages truth lists.
pub open spec fn listed(truth: Seq<u32>, verdicts: Seq<PageVerdictModel>) -> nat
    decreases verdicts.len(),
{
    if verdicts.len() == 0 {
        0
    } else {
        listed(truth, verdicts.drop_last()) + if truth.contains(verdicts.last().page) {
            1nat
        } else {
            0nat
        }
    }
}

proof fn needing_is_listed(truth: Seq<u32>, verdicts: Seq<PageVerdictModel>)
    ensures
        pages_where(truth, verdicts, true, true).len() + pages_where(
            truth,
            verdicts,
            true,
            false,
        ).len() == listed(truth, verdicts),
    decreases verdicts.len(),
{
    if verdicts.len() > 0 {
        needing_is_listed(truth, verdicts.drop_last());
    }
}

proof fn listed_goes_by_page(
    truth: Seq<u32>,
    one: Seq<PageVerdictModel>,
    other: Seq<PageVerdictModel>,
)
    requires
        one.len() == other.len(),
        forall|i: int| 0 <= i < one.len() ==> (#[trigger] one[i]).page == other[i].page,
    ensures
        listed(truth, one) == listed(truth, other),
    decreases one.len(),
{
    if one.len() > 0 {
        let a = one.drop_last();
        let b = other.drop_last();
        assert forall|i: int| 0 <= i < a.len() implies (#[trigger] a[i]).page == b[i].page by {
            assert(a[i] == one[i] && b[i] == other[i]);
        }
        assert(one[one.len() - 1].page == other[one.len() - 1].page);
        listed_goes_by_page(truth, a, b);
    }
}

/// Ground truth is the same for every judge scored on the same pages.
pub proof fn ground_truth_does_not_depend_on_the_judge(
    truth: Seq<u32>,
    one: Seq<PageVerdictModel>,
    other: Seq<PageVerdictModel>,
)
    requires
        one.len() == other.len() <= u32::MAX,
        forall|i: int| 0 <= i < one.len() ==> (#[trigger] one[i]).page == other[i].page,
    ensures
        scored(truth, one).confusion.needing() == scored(truth, other).confusion.needing(),
        scored(truth, one).confusion.local() == scored(truth, other).confusion.local(),
        scored(truth, one).confusion.total() == scored(truth, other).confusion.total(),
{
    counts_add_up(truth, one);
    counts_add_up(truth, other);
    needing_is_listed(truth, one);
    needing_is_listed(truth, other);
    listed_goes_by_page(truth, one, other);
}

/// The pages that need OCR among those the verdicts are about.
pub open spec fn needing_pages(truth: Seq<u32>, verdicts: Seq<PageVerdictModel>) -> Set<u32> {
    Set::new(
        |page: u32|
            truth.contains(page) && exists|i: int|
                0 <= i < verdicts.len() && (#[trigger] verdicts[i]).page == page,
    )
}

proof fn listed_counts_pages(truth: Seq<u32>, verdicts: Seq<PageVerdictModel>)
    requires
        forall|i: int, j: int|
            0 <= i < j < verdicts.len() ==> (#[trigger] verdicts[i]).page != (
            #[trigger] verdicts[j]).page,
    ensures
        needing_pages(truth, verdicts).finite(),
        listed(truth, verdicts) == needing_pages(truth, verdicts).len(),
    decreases verdicts.len(),
{
    let all = needing_pages(truth, verdicts);
    if verdicts.len() == 0 {
        assert(all =~= Set::empty());
    } else {
        let rest = verdicts.drop_last();
        let last = verdicts.last();
        let before = needing_pages(truth, rest);
        assert forall|i: int, j: int| 0 <= i < j < rest.len() implies (#[trigger] rest[i]).page != (
        #[trigger] rest[j]).page by {
            assert(verdicts[i].page != verdicts[j].page);
        }
        listed_counts_pages(truth, rest);
        assert forall|page: u32| all.contains(page) <==> before.contains(page) || (truth.contains(
            page,
        ) && page == last.page) by {
            if all.contains(page) && page != last.page {
                let i = choose|i: int|
                    0 <= i < verdicts.len() && (#[trigger] verdicts[i]).page == page;
                assert(rest[i].page == page);
            }
            if before.contains(page) {
                let i = choose|i: int| 0 <= i < rest.len() && (#[trigger] rest[i]).page == page;
                assert(verdicts[i].page == page);
            }
            if page == last.page {
                assert(verdicts[verdicts.len() - 1].page == page);
            }
        }
        if truth.contains(last.page) {
            assert(!before.contains(last.page)) by {
                if before.contains(last.page) {
                    let i = choose|i: int|
                        0 <= i < rest.len() && (#[trigger] rest[i]).page == last.page;
                    assert(verdicts[i].page != verdicts[verdicts.len() - 1].page);
                }
            }
            assert(all =~= before.insert(last.page));
        } else {
            assert(all =~= before);
        }
    }
}

/// What a judge is measured against is a count of pages: as many need OCR as distinct pages are
/// both listed as needing it and judged, however they were judged and however often a page is
/// listed.
pub proof fn ground_truth_counts_the_listed_pages(truth: Seq<u32>, verdicts: Seq<PageVerdictModel>)
    requires
        verdicts.len() <= u32::MAX,
        forall|i: int, j: int|
            0 <= i < j < verdicts.len() ==> (#[trigger] verdicts[i]).page != (
            #[trigger] verdicts[j]).page,
    ensures
        needing_pages(truth, verdicts).finite(),
        scored(truth, verdicts).confusion.needing() == needing_pages(truth, verdicts).len(),
        scored(truth, verdicts).confusion.local() == verdicts.len() - needing_pages(
            truth,
            verdicts,
        ).len(),
{
    counts_add_up(truth, verdicts);
    needing_is_listed(truth, verdicts);
    listed_counts_pages(truth, verdicts);
}

proof fn pages_where_holds(
    truth: Seq<u32>,
    verdicts: Seq<PageVerdictModel>,
    wanted: bool,
    sent: bool,
)
    ensures
        pages_where(truth, verdicts, wanted, sent).len() == 0 <==> forall|i: int|
            0 <= i < verdicts.len() ==> !(truth.contains((#[trigger] verdicts[i]).page) == wanted
                && verdicts[i].needs_ocr == sent),
    decreases verdicts.len(),
{
    if verdicts.len() > 0 {
        let rest = verdicts.drop_last();
        pages_where_holds(truth, rest, wanted, sent);
        assert forall|i: int| 0 <= i < rest.len() implies rest[i] == #[trigger] verdicts[i] by {}
        if pages_where(truth, verdicts, wanted, sent).len() == 0 {
            assert forall|i: int| 0 <= i < verdicts.len() implies !(truth.contains(
                (#[trigger] verdicts[i]).page,
            ) == wanted && verdicts[i].needs_ocr == sent) by {
                if i < rest.len() {
                    assert(rest[i] == verdicts[i]);
                }
            }
        }
    }
}

/// A route is exact precisely when every page is on the side truth says.
pub proof fn exact_routes_agree_on_every_page(truth: Seq<u32>, verdicts: Seq<PageVerdictModel>)
    ensures
        scored(truth, verdicts).route_exact <==> forall|i: int|
            0 <= i < verdicts.len() ==> ((#[trigger] verdicts[i]).needs_ocr <==> truth.contains(
                verdicts[i].page,
            )),
{
    pages_where_holds(truth, verdicts, true, false);
    pages_where_holds(truth, verdicts, false, true);
}

/// What a judge's routing buys, in pages: against what truth says it should, and against not
/// routing at all.
#[derive(Clone, Copy, Debug, PartialEq, Eq, Structural)]
pub struct Cost {
    /// Pages the judge would send to OCR.
    pub ocr_pages: u32,
    /// Pages truth says should have gone.
    pub ideal_ocr_pages: u32,
    /// Every page scored.
    pub all_pages: u32,
    /// Pages billed for nothing.
    pub overspend_pages: u32,
    /// Pages that should have been billed and were not.
    pub underspend_pages: u32,
    /// How far past the most a correct router can save the judge went. Positive only when it
    /// did not buy OCR that was needed.
    pub saving_beyond_ceiling_pages: i64,
}

/// What a confusion matrix buys.
pub open spec fn cost_of(confusion: Confusion) -> Cost {
    Cost {
        ocr_pages: confusion.sent() as u32,
        ideal_ocr_pages: confusion.needing() as u32,
        all_pages: confusion.total() as u32,
        overspend_pages: confusion.wasted_ocr,
        underspend_pages: confusion.missed_ocr,
        saving_beyond_ceiling_pages: (confusion.needing() - confusion.sent()) as i64,
    }
}

/// Turn a confusion matrix into the pages it buys.
pub fn cost(confusion: &Confusion) -> (r: Cost)
    requires
        confusion.total() <= u32::MAX,
    ensures
        r == cost_of(*confusion),
        r.ocr_pages <= r.all_pages,
        r.ideal_ocr_pages <= r.all_pages,
        r.saving_beyond_ceiling_pages == r.underspend_pages - r.overspend_pages,
{
    let ocr_pages: u32 = confusion.correct_ocr + confusion.wasted_ocr;
    let ideal_ocr_pages: u32 = confusion.truly_needs_ocr();
    Cost {
        ocr_pages,
        ideal_ocr_pages,
        all_pages: confusion.pages(),
        overspend_pages: confusion.wasted_ocr,
        underspend_pages: confusion.missed_ocr,
        saving_beyond_ceiling_pages: ideal_ocr_pages as i64 - ocr_pages as i64,
    }
}

/// A judge saves more pages than a correct router could exactly when it missed more pages than
/// it wasted; a perfect judge sits on the ceiling.
pub proof fn beating_the_ceiling_is_under_buying(confusion: Confusion)
    requires
        confusion.total() <= u32::MAX,
    ensures
        cost_of(confusion).saving_beyond_ceiling_pages == confusion.missed_ocr
            - confusion.wasted_ocr,
        cost_of(confusion).saving_beyond_ceiling_pages > 0 ==> confusion.missed_ocr > 0,
        confusion.perfect() ==> cost_of(confusion).saving_beyond_ceiling_pages == 0,
{
}

/// How a judge's own calls are priced.
#[derive(Clone, Copy, Debug, PartialEq, Eq, Structural)]
pub enum SpendCost {
    /// Nothing was used, which costs nothing at every price.
    Nothing,
    /// The input tokens at the price given.
    Priced,
    /// No price was given.
    Unknown,
}

/// What a judge's own calls used and how they are priced.
#[derive(Clone, Copy, Debug, PartialEq, Eq, Structural)]
pub struct JudgeSpend {
    /// Calls the judge made over the whole run.
    pub calls: u32,
    /// How many of those calls came back with a usage figure attached.
    pub calls_reporting_usage: u32,
    /// Input tokens summed over the calls that reported any.
    pub input_tokens: u64,
    /// Output tokens summed over the calls that reported any.
    pub output_tokens: u64,
    /// How the calls are priced.
    pub cost: SpendCost,
    /// True when every call reported its usage.
    pub usage_complete: bool,
}

/// Price a judge's token usage. A zero is a measurement only where every call reported it.
pub fn judge_spend(usage: &TokenUsage, priced: bool) -> (r: JudgeSpend)
    ensures
        r.calls == usage.calls,
        r.calls_reporting_usage == usage.calls_reporting_usage,
        r.input_tokens == usage.input_tokens,
        r.output_tokens == usage.output_tokens,
        r.usage_complete == (usage.calls_reporting_usage == usage.calls),
        r.cost == (if usage.input_tokens == 0 && r.usage_complete {
            SpendCost::Nothing
        } else if priced {
            SpendCost::Priced
        } else {
            SpendCost::Unknown
        }),
{
    let usage_complete: bool = usage.calls_reporting_usage == usage.calls;
    let cost: SpendCost = if usage.input_tokens == 0 && usage_complete {
        SpendCost::Nothing
    } else if priced {
        SpendCost::Priced
    } else {
        SpendCost::Unknown
    };
    JudgeSpend {
        calls: usage.calls,
        calls_reporting_usage: usage.calls_reporting_usage,
        input_tokens: usage.input_tokens,
        output_tokens: usage.output_tokens,
        cost,
        usage_complete,
    }
}

/// The confidence a judge attached to one answer, and whether the answer was right.
#[derive(Clone, Copy, Debug, PartialEq, Eq, Structural)]
pub struct ScoredConfidence {
    /// The judge's stated confidence in this verdict.
    pub confidence: Real32,
    /// True when the verdict matched truth.
    pub correct: bool,
}

/// The confidences of a document's verdicts, each with whether the verdict was right.
pub open spec fn confidences_of(
    truth: Seq<u32>,
    verdicts: Seq<PageVerdictModel>,
) -> Seq<ScoredConfidence> {
    verdicts.map_values(
        |v: PageVerdictModel|
            ScoredConfidence {
                confidence: v.confidence,
                correct: v.needs_ocr == truth.contains(v.page),
            },
    )
}

/// Append the confidences of a document's verdicts, each with whether the verdict was right.
pub fn score_confidences(out: &mut Vec<ScoredConfidence>, truth: &[u32], verdicts: &[PageVerdict])
    ensures
        final(out)@ == old(out)@ + confidences_of(truth@, verdict_models(verdicts@)),
{
    let ghost start = out@;
    let ghost more = confidences_of(truth@, verdict_models(verdicts@));
    let mut i: usize = 0;
    assert(start + more.take(0) =~= start);
    while i < verdicts.len()
        invariant
            i <= verdicts@.len(),
            more == confidences_of(truth@, verdict_models(verdicts@)),
            out@ == start + more.take(i as int),
        decreases verdicts@.len() - i,
    {
        let verdict: &PageVerdict = &verdicts[i];
        let entry = ScoredConfidence {
            confidence: verdict.confidence,
            correct: verdict.needs_ocr == lists(truth, verdict.page),
        };
        assert(verdict_models(verdicts@)[i as int] == verdict@);
        assert(more[i as int] == entry);
        out.push(entry);
        assert(out@ =~= start + more.take(i + 1));
        i += 1;
    }
    assert(more.take(more.len() as int) =~= more);
}

/// Number of equal-width buckets in the reliability table.
pub const RELIABILITY_BUCKETS: usize = 10;

/// The least single-precision number not below `k` tenths, for the inner bucket edges.
pub open spec fn tenths(k: int) -> Real32 {
    if k == 1 {
        Real32 { bits: 0x3dcc_cccd }
    } else if k == 2 {
        Real32 { bits: 0x3e4c_cccd }
    } else if k == 3 {
        Real32 { bits: 0x3e99_999a }
    } else if k == 4 {
        Real32 { bits: 0x3ecc_cccd }
    } else if k == 5 {
        Real32 { bits: 0x3f00_0000 }
    } else if k == 6 {
        Real32 { bits: 0x3f19_999a }
    } else if k == 7 {
        Real32 { bits: 0x3f33_3334 }
    } else if k == 8 {
        Real32 { bits: 0x3f4c_cccd }
    } else {
        Real32 { bits: 0x3f66_6667 }
    }
}

proof fn same_product(a: int, b: int, p: int)
    requires
        a == b,
    ensures
        a * p == b * p,
{
}

/// Ten times an inner bucket edge is at least its count of tenths, and ten times the number
/// just below the edge is not.
pub proof fn tenths_are_tight(k: int)
    requires
        1 <= k <= 9,
    ensures
        10 * tenths(k).significand() >= k * vstd::arithmetic::power2::pow2(
            (150 - tenths(k).exponent()) as nat,
        ),
        10 * (Real32 { bits: (tenths(k).bits - 1) as u32 }).significand()
            < k * vstd::arithmetic::power2::pow2(
            (150 - (Real32 { bits: (tenths(k).bits - 1) as u32 }).exponent()) as nat,
        ),
{
    vstd::arithmetic::power2::lemma2_to64();
    assert(tenths(k).exponent() == (if k == 1 {
        123int
    } else if k <= 2 {
        124int
    } else if k <= 4 {
        125int
    } else {
        126int
    }));
    let below = Real32 { bits: (tenths(k).bits - 1) as u32 };
    assert(below.exponent() == (if k == 1 {
        123int
    } else if k <= 2 {
        124int
    } else if k <= 5 {
        125int
    } else {
        126int
    }));
    let p = vstd::arithmetic::power2::pow2((150 - tenths(k).exponent()) as nat) as int;
    let q = vstd::arithmetic::power2::pow2((150 - below.exponent()) as nat) as int;
    if k == 1 {
        same_product(k, 1, p);
        same_product(k, 1, q);
    }
    if k == 2 {
        same_product(k, 2, p);
        same_product(k, 2, q);
    }
    if k == 3 {
        same_product(k, 3, p);
        same_product(k, 3, q);
    }
    if k == 4 {
        same_product(k, 4, p);
        same_product(k, 4, q);
    }
    if k == 5 {
        same_product(k, 5, p);
        same_product(k, 5, q);
    }
    if k == 6 {
        same_product(k, 6, p);
        same_product(k, 6, q);
    }
    if k == 7 {
        same_product(k, 7, p);
        same_product(k, 7, q);
    }
    if k == 8 {
        same_product(k, 8, p);
        same_product(k, 8, q);
    }
    if k == 9 {
        same_product(k, 9, p);
        same_product(k, 9, q);
    }
}

fn tenth(k: usize) -> (r: Real32)
    requires
        1 <= k <= 9,
    ensures
        r == tenths(k as int),
{
    match k {
        1 => Real32 { bits: 0x3dcc_cccd },
        2 => Real32 { bits: 0x3e4c_cccd },
        3 => Real32 { bits: 0x3e99_999a },
        4 => Real32 { bits: 0x3ecc_cccd },
        5 => Real32 { bits: 0x3f00_0000 },
        6 => Real32 { bits: 0x3f19_999a },
        7 => Real32 { bits: 0x3f33_3334 },
        8 => Real32 { bits: 0x3f4c_cccd },
        _ => Real32 { bits: 0x3f66_6667 },
    }
}

/// `index` is the bucket of `confidence`: it reaches that edge and not the next one.
pub open spec fn in_bucket(confidence: Real32, index: int) -> bool {
    &&& 0 <= index < RELIABILITY_BUCKETS
    &&& index > 0 ==> confidence.at_least(tenths(index))
    &&& forall|k: int| index < k < RELIABILITY_BUCKETS ==> !confidence.at_least(#[trigger] tenths(k))
}

/// Which reliability bucket a confidence falls in. Values at or above 1 land in the last
/// bucket; values below 0, and NaN, in the first.
pub fn bucket_index(confidence: Real32) -> (r: usize)
    ensures
        in_bucket(confidence, r as int),
{
    let mut k: usize = RELIABILITY_BUCKETS - 1;
    while k > 0 && !confidence.is_at_least(tenth(k))
        invariant
            k < RELIABILITY_BUCKETS,
            forall|j: int|
                k < j < RELIABILITY_BUCKETS ==> !confidence.at_least(#[trigger] tenths(j)),
        decreases k,
    {
        k -= 1;
    }
    k
}

/// One distinct confidence value a judge emitted, and how often.
#[derive(Clone, Copy, Debug, PartialEq, Eq, Structural)]
pub struct ConfidenceValue {
    /// The value itself.
    pub value: Real32,
    /// How many verdicts carried it.
    pub count: u32,
}

/// One row of the reliability table, without its rates.
#[derive(Clone, Copy, Debug, PartialEq, Eq, Structural)]
pub struct ReliabilityBucket {
    /// Which tenth it starts at.
    pub index: usize,
    /// Verdicts falling in this bucket.
    pub count: u32,
    /// Of those, how many were right.
    pub correct: u32,
}

/// What can honestly be said about a judge's confidence values, without the rates.
#[derive(Debug, PartialEq, Eq)]
pub struct ConfidenceReport {
    /// Every distinct value emitted, ascending, with counts.
    pub distinct: Vec<ConfidenceValue>,
    /// True when fewer than two distinct values were emitted.
    pub degenerate: bool,
    /// The single value, when degenerate and at least one verdict was seen.
    pub constant: Option<Real32>,
    /// The reliability table: the buckets with anything in them. Empty when degenerate.
    pub buckets: Vec<ReliabilityBucket>,
    /// Verdicts scored.
    pub verdicts: u32,
}

/// How many entries carry this confidence.
pub open spec fn occurrences(scored: Seq<ScoredConfidence>, value: Real32) -> nat
    decreases scored.len(),
{
    if scored.len() == 0 {
        0
    } else {
        occurrences(scored.drop_last(), value) + if scored.last().confidence == value {
            1nat
        } else {
            0nat
        }
    }
}

/// How many entries fall in a bucket.
pub open spec fn falling_in(scored: Seq<ScoredConfidence>, index: int) -> nat
    decreases scored.len(),
{
    if scored.len() == 0 {
        0
    } else {
        falling_in(scored.drop_last(), index) + if in_bucket(scored.last().confidence, index) {
            1nat
        } else {
            0nat
        }
    }
}

/// How many entries of a bucket are right.
pub open spec fn right_in(scored: Seq<ScoredConfidence>, index: int) -> nat
    decreases scored.len(),
{
    if scored.len() == 0 {
        0
    } else {
        right_in(scored.drop_last(), index) + if in_bucket(scored.last().confidence, index)
            && scored.last().correct {
            1nat
        } else {
            0nat
        }
    }
}

/// `distinct` lists every confidence that occurs, ascending, with how often it does.
pub open spec fn spread(scored: Seq<ScoredConfidence>, distinct: Seq<ConfidenceValue>) -> bool {
    &&& forall|i: int, j: int|
        0 <= i < j < distinct.len() ==> (#[trigger] distinct[i]).value.total_rank() < (
        #[trigger] distinct[j]).value.total_rank()
    &&& forall|i: int|
        0 <= i < distinct.len() ==> (#[trigger] distinct[i]).count > 0 && distinct[i].count
            == occurrences(scored, distinct[i].value)
    &&& forall|v: Real32| #[trigger]
        occurrences(scored, v) > 0 ==> exists|i: int|
            0 <= i < distinct.len() && (#[trigger] distinct[i]).value == v
}

/// `buckets` lists the buckets with anything in them, ascending, with their counts.
pub open spec fn tabulated(
    scored: Seq<ScoredConfidence>,
    upto: int,
    buckets: Seq<ReliabilityBucket>,
) -> bool
    decreases upto,
{
    if upto <= 0 {
        buckets.len() == 0
    } else if falling_in(scored, upto - 1) == 0 {
        tabulated(scored, upto - 1, buckets)
    } else {
        &&& buckets.len() > 0
        &&& buckets.last().index == upto - 1
        &&& buckets.last().count == falling_in(scored, upto - 1)
        &&& buckets.last().correct == right_in(scored, upto - 1)
        &&& tabulated(scored, upto - 1, buckets.drop_last())
    }
}

proof fn counts_are_bounded(scored: Seq<ScoredConfidence>, index: int, value: Real32)
    ensures
        right_in(scored, index) <= falling_in(scored, index) <= scored.len(),
        occurrences(scored, value) <= scored.len(),
    decreases scored.len(),
{
    if scored.len() > 0 {
        counts_are_bounded(scored.drop_last(), index, value);
    }
}

proof fn total_rank_tells_apart(a: Real32, b: Real32)
    requires
        a.total_rank() == b.total_rank(),
    ensures
        a == b,
{
}

/// Count one more verdict with this confidence.
fn count_value(distinct: &mut Vec<ConfidenceValue>, value: Real32, Ghost(before): Ghost<
    Seq<ScoredConfidence>,
>, Ghost(entry): Ghost<ScoredConfidence>)
    requires
        spread(before, old(distinct)@),
        entry.confidence == value,
        before.len() < u32::MAX,
    ensures
        spread(before.push(entry), final(distinct)@),
{
    let ghost start = distinct@;
    let ghost now = before.push(entry);
    let position: i64 = value.total_position();
    let mut at: usize = distinct.len();
    while at > 0 && distinct[at - 1].value.total_position() > position
        invariant
            distinct@ == start,
            at <= start.len(),
            position == value.total_rank(),
            forall|i: int|
                at <= i < start.len() ==> (#[trigger] start[i]).value.total_rank() > position,
        decreases at,
    {
        at -= 1;
    }
    proof {
        assert(now.drop_last() =~= before);
        assert(forall|v: Real32| #[trigger]
            occurrences(now, v) == occurrences(before, v) + if v == value {
                1nat
            } else {
                0nat
            });
        counts_are_bounded(before, 0, value);
    }
    if at > 0 && distinct[at - 1].value.total_position() == position {
        let count: u32 = distinct[at - 1].count;
        proof {
            total_rank_tells_apart(start[at - 1].value, value);
        }
        distinct.set(at - 1, ConfidenceValue { value, count: count + 1 });
        proof {
            let after = distinct@;
            assert forall|i: int| 0 <= i < after.len() implies (#[trigger] after[i]).count > 0
                && after[i].count == occurrences(now, after[i].value) by {
                if i != at - 1 {
                    assert(after[i] == start[i]);
                    if i < at - 1 {
                        assert(start[i].value.total_rank() < start[at - 1].value.total_rank());
                    } else {
                        assert(start[at - 1].value.total_rank() < start[i].value.total_rank());
                    }
                }
            }
            assert forall|v: Real32| #[trigger] occurrences(now, v) > 0 implies exists|i: int|
                0 <= i < after.len() && (#[trigger] after[i]).value == v by {
                if v == value {
                    assert(after[at - 1].value == v);
                } else {
                    assert(occurrences(before, v) > 0);
                    let i = choose|i: int| 0 <= i < start.len() && (#[trigger] start[i]).value
                        == v;
                    assert(after[i].value == v);
                }
            }
            assert forall|i: int, j: int| 0 <= i < j < after.len() implies (
            #[trigger] after[i]).value.total_rank() < (
            #[trigger] after[j]).value.total_rank() by {
                assert(after[i].value == start[i].value);
                assert(after[j].value == start[j].value);
            }
        }
    } else {
        proof {
            if occurrences(before, value) > 0 {
                let i = choose|i: int| 0 <= i < start.len() && (#[trigger] start[i]).value
                    == value;
                if i < at - 1 {
                    assert(start[i].value.total_rank() < start[at - 1].value.total_rank());
                    assert(start[at - 1].value.total_rank() <= position);
                }
            }
        }
        distinct.insert(at, ConfidenceValue { value, count: 1 });
        proof {
            let after = distinct@;
            assert(after =~= start.insert(at as int, ConfidenceValue { value, count: 1 }));
            assert forall|i: int| 0 <= i < after.len() implies (#[trigger] after[i]).count > 0
                && after[i].count == occurrences(now, after[i].value) by {
                if i < at {
                    assert(after[i] == start[i]);
                    if i < at - 1 {
                        assert(start[i].value.total_rank() < start[at - 1].value.total_rank());
                    }
                } else if i > at {
                    assert(after[i] == start[i - 1]);
                }
            }
            assert forall|v: Real32| #[trigger] occurrences(now, v) > 0 implies exists|i: int|
                0 <= i < after.len() && (#[trigger] after[i]).value == v by {
                if v == value {
                    assert(after[at as int].value == v);
                } else {
                    assert(occurrences(before, v) > 0);
                    let i = choose|i: int| 0 <= i < start.len() && (#[trigger] start[i]).value
                        == v;
                    if i < at {
                        assert(after[i].value == v);
                    } else {
                        assert(after[i + 1].value == v);
                    }
                }
            }
            assert forall|i: int, j: int| 0 <= i < j < after.len() implies (
            #[trigger] after[i]).value.total_rank() < (
            #[trigger] after[j]).value.total_rank() by {
                if i < at && j == at {
                    assert(after[i] == start[i]);
                    if i < at - 1 {
                        assert(start[i].value.total_rank() < start[at - 1].value.total_rank());
                    }
                } else if i == at {
                    assert(after[j] == start[j - 1]);
                } else if j < at {
                    assert(after[i] == start[i] && after[j] == start[j]);
                } else if i < at {
                    assert(after[i] == start[i] && after[j] == start[j - 1]);
                } else {
                    assert(after[i] == start[i - 1] && after[j] == start[j - 1]);
                }
            }
        }
    }
}

/// The count and the right count of one bucket.
fn bucket_counts(scored: &[ScoredConfidence], index: usize) -> (r: (u32, u32))
    requires
        scored@.len() <= u32::MAX,
        index < RELIABILITY_BUCKETS,
    ensures
        r.0 == falling_in(scored@, index as int),
        r.1 == right_in(scored@, index as int),
{
    let mut count: u32 = 0;
    let mut correct: u32 = 0;
    let mut i: usize = 0;
    assert(scored@.take(0) =~= Seq::empty());
    while i < scored.len()
        invariant
            i <= scored@.len() <= u32::MAX,
            index < RELIABILITY_BUCKETS,
            count == falling_in(scored@.take(i as int), index as int),
            correct == right_in(scored@.take(i as int), index as int),
            correct <= count <= i,
        decreases scored@.len() - i,
    {
        let entry: ScoredConfidence = scored[i];
        let found: usize = bucket_index(entry.confidence);
        proof {
            let now = scored@.take(i + 1);
            assert(now.drop_last() =~= scored@.take(i as int));
            assert(now.last() == entry);
            buckets_are_disjoint(entry.confidence, found as int, index as int);
        }
        if found == index {
            count = count + 1;
            if entry.correct {
                correct = correct + 1;
            }
        }
        i += 1;
    }
    assert(scored@.take(i as int) =~= scored@);
    (count, correct)
}

/// A confidence falls in one bucket only.
pub proof fn buckets_are_disjoint(confidence: Real32, a: int, b: int)
    requires
        in_bucket(confidence, a),
    ensures
        in_bucket(confidence, b) ==> a == b,
{
    if in_bucket(confidence, b) {
        if a < b {
            assert(confidence.at_least(tenths(b)));
        } else if b < a {
            assert(confidence.at_least(tenths(a)));
        }
    }
}

/// `r` is the summary of these confidences.
pub open spec fn reported(scored: Seq<ScoredConfidence>, r: ConfidenceReport) -> bool {
    &&& spread(scored, r.distinct@)
    &&& r.verdicts == scored.len()
    &&& r.degenerate == (r.distinct@.len() < 2)
    &&& r.constant == (if r.distinct@.len() == 1 {
        Some(r.distinct@[0].value)
    } else {
        None
    })
    &&& if r.degenerate {
        r.buckets@.len() == 0
    } else {
        tabulated(scored, RELIABILITY_BUCKETS as int, r.buckets@)
    }
}

/// Summarise a judge's confidence values. One distinct value cannot be calibrated, so there is
/// a table only where there are two.
pub fn confidence_report(scored: &[ScoredConfidence]) -> (r: ConfidenceReport)
    requires
        scored@.len() <= u32::MAX,
    ensures
        reported(scored@, r),
{
    let mut distinct: Vec<ConfidenceValue> = Vec::new();
    let mut i: usize = 0;
    assert(scored@.take(0) =~= Seq::empty());
    while i < scored.len()
        invariant
            i <= scored@.len() <= u32::MAX,
            spread(scored@.take(i as int), distinct@),
        decreases scored@.len() - i,
    {
        let entry: ScoredConfidence = scored[i];
        count_value(
            &mut distinct,
            entry.confidence,
            Ghost(scored@.take(i as int)),
            Ghost(entry),
        );
        assert(scored@.take(i + 1) =~= scored@.take(i as int).push(entry));
        i += 1;
    }
    assert(scored@.take(i as int) =~= scored@);
    let verdicts: u32 = scored.len() as u32;
    let mut buckets: Vec<ReliabilityBucket> = Vec::new();
    if distinct.len() < 2 {
        let constant: Option<Real32> = if distinct.len() == 1 {
            Some(distinct[0].value)
        } else {
            None
        };
        return ConfidenceReport { distinct, degenerate: true, constant, buckets, verdicts };
    }
    let mut index: usize = 0;
    while index < RELIABILITY_BUCKETS
        invariant
            index <= RELIABILITY_BUCKETS,
            scored@.len() <= u32::MAX,
            tabulated(scored@, index as int, buckets@),
        decreases RELIABILITY_BUCKETS - index,
    {
        let ghost before = buckets@;
        let (count, correct): (u32, u32) = bucket_counts(scored, index);
        if count > 0 {
            buckets.push(ReliabilityBucket { index, count, correct });
            assert(buckets@.drop_last() =~= before);
        }
        index += 1;
    }
    ConfidenceReport { distinct, degenerate: false, constant: None, buckets, verdicts }
}

/// One more verdict adds one page to exactly one of the four counts: the one for what truth says
/// of the page and what the judge did with it. Without a verdict every count is zero.
pub proof fn one_more_verdict_counts_once(
    truth: Seq<u32>,
    verdicts: Seq<PageVerdictModel>,
    next: PageVerdictModel,
)
    requires
        verdicts.len() < u32::MAX,
    ensures
        ({
            let before = scored(truth, verdicts).confusion;
            let after = scored(truth, verdicts.push(next)).confusion;
            let wanted = truth.contains(next.page);
            &&& after.correct_ocr == before.correct_ocr + (if wanted && next.needs_ocr {
                1int
            } else {
                0int
            })
            &&& after.correct_local == before.correct_local + (if !wanted && !next.needs_ocr {
                1int
            } else {
                0int
            })
            &&& after.missed_ocr == before.missed_ocr + (if wanted && !next.needs_ocr {
                1int
            } else {
                0int
            })
            &&& after.wasted_ocr == before.wasted_ocr + (if !wanted && next.needs_ocr {
                1int
            } else {
                0int
            })
        }),
        scored(truth, Seq::<PageVerdictModel>::empty()).confusion.total() == 0,
{
    let all = verdicts.push(next);
    assert(all.drop_last() =~= verdicts);
    counts_add_up(truth, verdicts);
    counts_add_up(truth, all);
}

proof fn pages_where_contains(
    truth: Seq<u32>,
    verdicts: Seq<PageVerdictModel>,
    wanted: bool,
    sent: bool,
    p: u32,
)
    ensures
        pages_where(truth, verdicts, wanted, sent).contains(p) <==> truth.contains(p) == wanted
            && exists|i: int|
            0 <= i < verdicts.len() && (#[trigger] verdicts[i]).page == p && verdicts[i].needs_ocr
                == sent,
    decreases verdicts.len(),
{
    if verdicts.len() > 0 {
        let rest = verdicts.drop_last();
        let n = rest.len() as int;
        let before = pages_where(truth, rest, wanted, sent);
        let all = pages_where(truth, verdicts, wanted, sent);
        pages_where_contains(truth, rest, wanted, sent, p);
        if before.contains(p) {
            let k = choose|k: int| 0 <= k < before.len() && before[k] == p;
            assert(all[k] == p);
            let i = choose|i: int|
                0 <= i < rest.len() && (#[trigger] rest[i]).page == p && rest[i].needs_ocr == sent;
            assert(verdicts[i].page == p);
        }
        if all.contains(p) && !before.contains(p) {
            let k = choose|k: int| 0 <= k < all.len() && all[k] == p;
            if k < before.len() {
                assert(before[k] == p);
            }
            assert(verdicts[n].page == p);
        }
        if truth.contains(p) == wanted && exists|i: int|
            0 <= i < verdicts.len() && (#[trigger] verdicts[i]).page == p && verdicts[i].needs_ocr
                == sent {
            let i = choose|i: int|
                0 <= i < verdicts.len() && (#[trigger] verdicts[i]).page == p
                    && verdicts[i].needs_ocr == sent;
            if i < n {
                assert(rest[i].page == p);
            } else {
                assert(all[all.len() - 1] == p);
            }
        }
    }
}

proof fn sent_pages_contain(verdicts: Seq<PageVerdictModel>, p: u32)
    ensures
        sent_pages(verdicts).contains(p) <==> exists|i: int|
            0 <= i < verdicts.len() && (#[trigger] verdicts[i]).page == p && verdicts[i].needs_ocr,
    decreases verdicts.len(),
{
    if verdicts.len() > 0 {
        let rest = verdicts.drop_last();
        let n = rest.len() as int;
        let before = sent_pages(rest);
        let all = sent_pages(verdicts);
        sent_pages_contain(rest, p);
        if before.contains(p) {
            let k = choose|k: int| 0 <= k < before.len() && before[k] == p;
            assert(all[k] == p);
            let i = choose|i: int|
                0 <= i < rest.len() && (#[trigger] rest[i]).page == p && rest[i].needs_ocr;
            assert(verdicts[i].page == p);
        }
        if all.contains(p) && !before.contains(p) {
            let k = choose|k: int| 0 <= k < all.len() && all[k] == p;
            if k < before.len() {
                assert(before[k] == p);
            }
            assert(verdicts[n].page == p);
        }
        if exists|i: int|
            0 <= i < verdicts.len() && (#[trigger] verdicts[i]).page == p
                && verdicts[i].needs_ocr {
            let i = choose|i: int|
                0 <= i < verdicts.len() && (#[trigger] verdicts[i]).page == p
                    && verdicts[i].needs_ocr;
            if i < n {
                assert(rest[i].page == p);
            } else {
                assert(all[all.len() - 1] == p);
            }
        }
    }
}

proof fn sent_pages_are_counted(truth: Seq<u32>, verdicts: Seq<PageVerdictModel>)
    ensures
        sent_pages(verdicts).len() == pages_where(truth, verdicts, true, true).len() + pages_where(
            truth,
            verdicts,
            false,
            true,
        ).len(),
    decreases verdicts.len(),
{
    if verdicts.len() > 0 {
        sent_pages_are_counted(truth, verdicts.drop_last());
    }
}

/// Which pages a score lists: as missed exactly those truth says need OCR and the judge left
/// local, as wasted exactly those truth says need none and the judge sent, and as sent exactly
/// those the judge sent, in page order and as many as the counts say.
pub proof fn which_pages_a_score_lists(truth: Seq<u32>, verdicts: Seq<PageVerdictModel>)
    requires
        verdicts.len() <= u32::MAX,
    ensures
        ({
            let scores = scored(truth, verdicts);
            &&& forall|p: u32| #[trigger]
                scores.missed_ocr_pages.contains(p) <==> truth.contains(p) && exists|i: int|
                    0 <= i < verdicts.len() && (#[trigger] verdicts[i]).page == p
                        && !verdicts[i].needs_ocr
            &&& forall|p: u32| #[trigger]
                scores.wasted_ocr_pages.contains(p) <==> !truth.contains(p) && exists|i: int|
                    0 <= i < verdicts.len() && (#[trigger] verdicts[i]).page == p
                        && verdicts[i].needs_ocr
            &&& forall|p: u32| #[trigger]
                scores.ocr_pages.contains(p) <==> exists|i: int|
                    0 <= i < verdicts.len() && (#[trigger] verdicts[i]).page == p
                        && verdicts[i].needs_ocr
            &&& forall|i: int, j: int|
                0 <= i < j < scores.ocr_pages.len() ==> #[trigger] scores.ocr_pages[i]
                    <= #[trigger] scores.ocr_pages[j]
            &&& scores.missed_ocr_pages.len() == scores.confusion.missed_ocr
            &&& scores.wasted_ocr_pages.len() == scores.confusion.wasted_ocr
            &&& scores.ocr_pages.len() == scores.confusion.correct_ocr
                + scores.confusion.wasted_ocr
        }),
{
    let scores = scored(truth, verdicts);
    let sent = sent_pages(verdicts);
    counts_add_up(truth, verdicts);
    sent_pages_are_counted(truth, verdicts);
    assert forall|p: u32| #[trigger] scores.missed_ocr_pages.contains(p) <==> truth.contains(p)
        && exists|i: int|
        0 <= i < verdicts.len() && (#[trigger] verdicts[i]).page == p && !verdicts[i].needs_ocr by {
        pages_where_contains(truth, verdicts, true, false, p);
    }
    assert forall|p: u32| #[trigger] scores.wasted_ocr_pages.contains(p) <==> !truth.contains(p)
        && exists|i: int|
        0 <= i < verdicts.len() && (#[trigger] verdicts[i]).page == p && verdicts[i].needs_ocr by {
        pages_where_contains(truth, verdicts, false, true, p);
    }
    let from = crate::order::sorted_by_rearranges(sent, page_number());
    assert forall|p: u32| #[trigger] scores.ocr_pages.contains(p) <==> exists|i: int|
        0 <= i < verdicts.len() && (#[trigger] verdicts[i]).page == p && verdicts[i].needs_ocr by {
        sent_pages_contain(verdicts, p);
        if scores.ocr_pages.contains(p) {
            let k = choose|k: int| 0 <= k < scores.ocr_pages.len() && scores.ocr_pages[k] == p;
            assert(sent[from[k]] == p);
        }
        if sent.contains(p) {
            let n = choose|n: int| 0 <= n < sent.len() && sent[n] == p;
            assert(from.contains(n));
            let k = choose|k: int| 0 <= k < from.len() && from[k] == n;
            assert(scores.ocr_pages[k] == p);
        }
    }
    assert forall|i: int, j: int| 0 <= i < j < scores.ocr_pages.len() implies #[trigger] scores.ocr_pages[i]
        <= #[trigger] scores.ocr_pages[j] by {
        assert(scores.ocr_pages[i] == sent[from[i]] && scores.ocr_pages[j] == sent[from[j]]);
        assert(page_number()(sent[from[i]]) <= page_number()(sent[from[j]]));
    }
}

/// What a judge buys: every page it sends, right or wrong, against every page that needs OCR,
/// among all there are. It overspends on what it wasted and underspends on what it missed.
pub proof fn what_a_judge_buys(confusion: Confusion)
    requires
        confusion.total() <= u32::MAX,
    ensures
        cost_of(confusion).ocr_pages == confusion.correct_ocr + confusion.wasted_ocr,
        cost_of(confusion).ideal_ocr_pages == confusion.correct_ocr + confusion.missed_ocr,
        cost_of(confusion).all_pages == confusion.correct_ocr + confusion.correct_local
            + confusion.missed_ocr + confusion.wasted_ocr,
        cost_of(confusion).overspend_pages == confusion.wasted_ocr,
        cost_of(confusion).underspend_pages == confusion.missed_ocr,
        cost_of(confusion).ocr_pages + cost_of(confusion).underspend_pages
            == cost_of(confusion).ideal_ocr_pages + cost_of(confusion).overspend_pages,
        cost_of(confusion).saving_beyond_ceiling_pages == cost_of(confusion).ideal_ocr_pages
            - cost_of(confusion).ocr_pages,
{
}

/// Adding up documents adds up each count.
pub proof fn counts_are_added_one_by_one(a: Confusion, b: Confusion)
    requires
        a.total() + b.total() <= u32::MAX,
    ensures
        a.plus(b).correct_ocr == a.correct_ocr + b.correct_ocr,
        a.plus(b).correct_local == a.correct_local + b.correct_local,
        a.plus(b).missed_ocr == a.missed_ocr + b.missed_ocr,
        a.plus(b).wasted_ocr == a.wasted_ocr + b.wasted_ocr,
        a.plus(b) == b.plus(a),
        a.perfect() <==> a.missed_ocr + a.wasted_ocr == 0,
{
}

/// Each verdict's confidence is recorded as it came, with whether the verdict agreed with truth.
pub proof fn confidences_are_the_verdicts_own(truth: Seq<u32>, verdicts: Seq<PageVerdictModel>)
    ensures
        confidences_of(truth, verdicts).len() == verdicts.len(),
        forall|i: int|
            0 <= i < verdicts.len() ==> (#[trigger] confidences_of(truth, verdicts)[i]).confidence
                == verdicts[i].confidence && (confidences_of(truth, verdicts)[i].correct <==> (
            verdicts[i].needs_ocr <==> truth.contains(verdicts[i].page))),
{
}

/// A confidence from 0 to 1 falls in the bucket whose edge it reaches and whose next edge it does
/// not, by their encodings; one above 1 falls in the last bucket, and one below 0 or none at all
/// in the first.
pub proof fn which_bucket_a_confidence_falls_in(confidence: Real32, index: int)
    requires
        0 <= index <= 9,
    ensures
        confidence.bits <= 0x7f80_0000 ==> (in_bucket(confidence, index) <==> (index > 0
            ==> confidence.bits >= tenths(index).bits) && (index < 9 ==> confidence.bits < tenths(
            index + 1,
        ).bits)),
        confidence.bits > 0x7f80_0000 ==> (in_bucket(confidence, index) <==> index == 0),
{
    if confidence.bits <= 0x7f80_0000 {
        if index < 9 && confidence.bits < tenths(index + 1).bits {
            assert forall|k: int| index < k < RELIABILITY_BUCKETS implies !confidence.at_least(
                #[trigger] tenths(k),
            ) by {
                assert(tenths(k).bits >= tenths(index + 1).bits);
            }
        }
        if in_bucket(confidence, index) && index < 9 {
            assert(!confidence.at_least(tenths(index + 1)));
        }
    } else {
        if index == 0 {
            assert forall|k: int| 0 < k < RELIABILITY_BUCKETS implies !confidence.at_least(
                #[trigger] tenths(k),
            ) by {}
        }
    }
}

/// One more verdict adds one to its own bucket and to no other, and to the right ones of that
/// bucket exactly when it was right.
pub proof fn one_more_confidence_falls_once(
    scored: Seq<ScoredConfidence>,
    next: ScoredConfidence,
    index: int,
    value: Real32,
)
    ensures
        falling_in(scored.push(next), index) == falling_in(scored, index) + (if in_bucket(
            next.confidence,
            index,
        ) {
            1int
        } else {
            0int
        }),
        right_in(scored.push(next), index) == right_in(scored, index) + (if in_bucket(
            next.confidence,
            index,
        ) && next.correct {
            1int
        } else {
            0int
        }),
        occurrences(scored.push(next), value) == occurrences(scored, value) + (if next.confidence
            == value {
            1int
        } else {
            0int
        }),
        falling_in(Seq::<ScoredConfidence>::empty(), index) == 0,
        right_in(Seq::<ScoredConfidence>::empty(), index) == 0,
        occurrences(Seq::<ScoredConfidence>::empty(), value) == 0,
{
    assert(scored.push(next).drop_last() =~= scored);
}

/// A reliability table has a row for each bucket with anything in it and for no other, in
/// ascending order, with how many fell in it and how many of those were right.
pub proof fn a_table_has_the_buckets_in_use(
    scored: Seq<ScoredConfidence>,
    upto: int,
    buckets: Seq<ReliabilityBucket>,
)
    requires
        tabulated(scored, upto, buckets),
    ensures
        forall|i: int|
            0 <= i < buckets.len() ==> (#[trigger] buckets[i]).index < upto && buckets[i].count > 0
                && buckets[i].count == falling_in(scored, buckets[i].index as int)
                && buckets[i].correct == right_in(scored, buckets[i].index as int),
        forall|i: int, j: int|
            0 <= i < j < buckets.len() ==> (#[trigger] buckets[i]).index < (
            #[trigger] buckets[j]).index,
        forall|k: int|
            0 <= k < upto && #[trigger] falling_in(scored, k) > 0 ==> exists|i: int|
                0 <= i < buckets.len() && (#[trigger] buckets[i]).index == k,
    decreases upto,
{
    if upto > 0 {
        if falling_in(scored, upto - 1) == 0 {
            a_table_has_the_buckets_in_use(scored, upto - 1, buckets);
        } else {
            let rest = buckets.drop_last();
            let n = rest.len() as int;
            a_table_has_the_buckets_in_use(scored, upto - 1, rest);
            assert forall|i: int| 0 <= i < buckets.len() implies (#[trigger] buckets[i]).index
                < upto && buckets[i].count > 0 && buckets[i].count == falling_in(
                scored,
                buckets[i].index as int,
            ) && buckets[i].correct == right_in(scored, buckets[i].index as int) by {
                if i < n {
                    assert(rest[i] == buckets[i]);
                }
            }
            assert forall|i: int, j: int| 0 <= i < j < buckets.len() implies (
            #[trigger] buckets[i]).index < (#[trigger] buckets[j]).index by {
                assert(rest[i] == buckets[i]);
                if j < n {
                    assert(rest[j] == buckets[j]);
                }
            }
            assert forall|k: int|
                0 <= k < upto && #[trigger] falling_in(scored, k) > 0 implies exists|i: int|
                0 <= i < buckets.len() && (#[trigger] buckets[i]).index == k by {
                if k < upto - 1 {
                    let i = choose|i: int|
                        0 <= i < rest.len() && (#[trigger] rest[i]).index == k;
                    assert(buckets[i] == rest[i]);
                } else {
                    assert(buckets[n].index == k);
                }
            }
        }
    }
}

/// What a judge spent is what its calls used. The figures are complete exactly when every call
/// reported its usage. They cost nothing exactly when they are complete and no input token was
/// used; otherwise they have a price where one was given, and an unknown one where none was.
pub proof fn what_a_judge_spent(usage: &TokenUsage, priced: bool, spend: JudgeSpend)
    requires
        call_ensures(judge_spend, (usage, priced), spend),
    ensures
        spend.calls == usage.calls,
        spend.calls_reporting_usage == usage.calls_reporting_usage,
        spend.input_tokens == usage.input_tokens,
        spend.output_tokens == usage.output_tokens,
        spend.usage_complete <==> usage.calls_reporting_usage == usage.calls,
        spend.cost == SpendCost::Nothing <==> usage.input_tokens == 0
            && usage.calls_reporting_usage == usage.calls,
        spend.cost == SpendCost::Priced <==> priced && !(usage.input_tokens == 0
            && usage.calls_reporting_usage == usage.calls),
        spend.cost == SpendCost::Unknown <==> !priced && !(usage.input_tokens == 0
            && usage.calls_reporting_usage == usage.calls),
{
}

/// A score is perfect exactly when no page is on the wrong side, and its totals are the pages that
/// need OCR and those that do not.
pub proof fn what_a_score_adds_up_to(c: Confusion)
    ensures
        c.perfect() <==> c.missed_ocr == 0 && c.wasted_ocr == 0,
        c.needing() == c.correct_ocr + c.missed_ocr,
        c.local() == c.correct_local + c.wasted_ocr,
        c.total() == c.needing() + c.local(),
{
}

/// [`score_pages`] counts every verdict once, and calls a route exact precisely when every verdict
/// is on the side truth says.
pub proof fn score_pages_counts_every_verdict_once(
    truth: &[u32],
    verdicts: &[PageVerdict],
    out: PageScores,
)
    requires
        verdicts@.len() <= u32::MAX,
        call_ensures(score_pages, (truth, verdicts), out),
    ensures
        out@.confusion.total() == verdicts@.len(),
        out@.route_exact <==> forall|i: int|
            0 <= i < verdicts@.len() ==> ((#[trigger] verdicts@[i])@.needs_ocr <==> truth@.contains(
                verdicts@[i]@.page,
            )),
{
    let models = verdict_models(verdicts@);
    exact_routes_agree_on_every_page(truth@, models);
    assert forall|i: int| 0 <= i < verdicts@.len() implies #[trigger] verdicts@[i]@
        == models[i] by {}
    assert(models.len() == verdicts@.len());
}

proof fn what_occurs_is_there(scored: Seq<ScoredConfidence>, value: Real32)
    ensures
        occurrences(scored, value) > 0 <==> exists|i: int|
            0 <= i < scored.len() && (#[trigger] scored[i]).confidence == value,
    decreases scored.len(),
{
    if scored.len() > 0 {
        let rest = scored.drop_last();
        what_occurs_is_there(rest, value);
        if occurrences(rest, value) > 0 {
            let i = choose|i: int|
                0 <= i < rest.len() && (#[trigger] rest[i]).confidence == value;
            assert(scored[i] == rest[i]);
        }
        if exists|i: int| 0 <= i < scored.len() && (#[trigger] scored[i]).confidence == value {
            let i = choose|i: int|
                0 <= i < scored.len() && (#[trigger] scored[i]).confidence == value;
            if i < rest.len() {
                assert(rest[i] == scored[i]);
            }
        }
        assert(scored[scored.len() - 1] == scored.last());
    }
}

/// What a report on confidences says: how many there are; each value that occurs, once, in
/// ascending order, with how often it does; and that there is nothing to calibrate, and no table,
/// exactly where no two of them differ. The value they all have is then given, where there is one.
pub proof fn what_a_confidence_report_says(scored: &[ScoredConfidence], r: ConfidenceReport)
    requires
        scored@.len() <= u32::MAX,
        call_ensures(confidence_report, (scored,), r),
    ensures
        r.verdicts == scored@.len(),
        forall|i: int|
            0 <= i < scored@.len() ==> exists|k: int|
                0 <= k < r.distinct@.len() && (#[trigger] r.distinct@[k]).value == (
                #[trigger] scored@[i]).confidence,
        forall|k: int|
            0 <= k < r.distinct@.len() ==> exists|i: int|
                0 <= i < scored@.len() && (#[trigger] scored@[i]).confidence == (
                #[trigger] r.distinct@[k]).value,
        forall|j: int, k: int|
            0 <= j < k < r.distinct@.len() ==> (#[trigger] r.distinct@[j]).value.total_rank() < (
            #[trigger] r.distinct@[k]).value.total_rank(),
        r.degenerate <==> forall|i: int, j: int|
            0 <= i < scored@.len() && 0 <= j < scored@.len() ==> (#[trigger] scored@[i]).confidence
                == (#[trigger] scored@[j]).confidence,
        r.constant is Some <==> r.degenerate && scored@.len() > 0,
        r.constant is Some ==> r.constant->0 == scored@[0].confidence,
        r.degenerate ==> r.buckets@.len() == 0,
        !r.degenerate ==> tabulated(scored@, 10, r.buckets@),
{
    let all = scored@;
    let distinct = r.distinct@;
    assert forall|i: int| 0 <= i < all.len() implies exists|k: int|
        0 <= k < distinct.len() && (#[trigger] distinct[k]).value == (
        #[trigger] all[i]).confidence by {
        what_occurs_is_there(all, all[i].confidence);
        assert(occurrences(all, all[i].confidence) > 0);
    }
    assert forall|k: int| 0 <= k < distinct.len() implies exists|i: int|
        0 <= i < all.len() && (#[trigger] all[i]).confidence == (
        #[trigger] distinct[k]).value by {
        what_occurs_is_there(all, distinct[k].value);
        assert(distinct[k].count > 0);
    }
    if distinct.len() >= 2 {
        assert(distinct[0].value.total_rank() < distinct[1].value.total_rank());
        let i = choose|i: int| 0 <= i < all.len() && (#[trigger] all[i]).confidence == distinct[0].value;
        let j = choose|j: int| 0 <= j < all.len() && (#[trigger] all[j]).confidence == distinct[1].value;
        assert(all[i].confidence != all[j].confidence);
    } else {
        assert forall|i: int, j: int| 0 <= i < all.len() && 0 <= j < all.len() implies (
        #[trigger] all[i]).confidence == (#[trigger] all[j]).confidence by {
            let a = choose|k: int|
                0 <= k < distinct.len() && (#[trigger] distinct[k]).value == all[i].confidence;
            let b = choose|k: int|
                0 <= k < distinct.len() && (#[trigger] distinct[k]).value == all[j].confidence;
            assert(a == b);
        }
        if all.len() > 0 {
            let a = choose|k: int|
                0 <= k < distinct.len() && (#[trigger] distinct[k]).value == all[0].confidence;
            assert(a == 0);
        }
    }
}

} // verus!
