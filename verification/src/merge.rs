//! Reassembly of per-leg results into one document-ordered result.

use crate::extract::{page_models, OcrResult, OcrResultModel, Page, PageModel};
use crate::order::{
    in_key_order, increasing, insert_by, insert_by_at, keys_in_place, sorted_by,
    sorted_by_is_stable, sorted_by_rearranges, with_key, with_key_of_both,
};
use crate::policy::{Leg, LegModel};
use crate::text::{joined, texts};
use vstd::prelude::*;
use vstd::string::*;

verus! {

/// The model of one leg with its result.
pub open spec fn part_model(part: (Leg, OcrResult)) -> (LegModel, OcrResultModel) {
    (part.0@, part.1@)
}

/// The models of legs with their results.
pub open spec fn part_models(parts: Seq<(Leg, OcrResult)>) -> Seq<(LegModel, OcrResultModel)> {
    parts.map_values(|p: (Leg, OcrResult)| part_model(p))
}

/// A leg's pages, attributed to the leg's model.
pub open spec fn attributed(part: (LegModel, OcrResultModel)) -> Seq<PageModel> {
    part.1.pages.map_values(
        |p: PageModel| PageModel { index: p.index, markdown: p.markdown, model: part.0.model },
    )
}

/// Every leg's pages in leg order.
pub open spec fn all_pages(parts: Seq<(LegModel, OcrResultModel)>) -> Seq<PageModel>
    decreases parts.len(),
{
    if parts.len() == 0 {
        Seq::empty()
    } else {
        all_pages(parts.drop_last()) + attributed(parts.last())
    }
}

/// The models of the legs, in leg order.
pub open spec fn leg_names(parts: Seq<(LegModel, OcrResultModel)>) -> Seq<Seq<char>> {
    parts.map_values(|p: (LegModel, OcrResultModel)| p.0.model)
}

/// How many pages the legs processed between them.
pub open spec fn total_processed(parts: Seq<(LegModel, OcrResultModel)>) -> nat
    decreases parts.len(),
{
    if parts.len() == 0 {
        0
    } else {
        total_processed(parts.drop_last()) + parts.last().1.pages_processed as nat
    }
}

/// The larger of two optional sizes; one that is not known does not count.
pub open spec fn larger(a: Option<u64>, b: Option<u64>) -> Option<u64> {
    match (a, b) {
        (Some(x), Some(y)) => Some(
            if x >= y {
                x
            } else {
                y
            },
        ),
        (Some(x), None) => Some(x),
        (None, other) => other,
    }
}

/// The largest size any leg reported.
pub open spec fn largest_size(parts: Seq<(LegModel, OcrResultModel)>) -> Option<u64>
    decreases parts.len(),
{
    if parts.len() == 0 {
        None
    } else {
        larger(largest_size(parts.drop_last()), parts.last().1.doc_size_bytes)
    }
}

/// The key pages are sorted by: their index.
pub open spec fn page_key() -> spec_fn(PageModel) -> int {
    |p: PageModel| p.index as int
}

/// The merged result: pages stably sorted by index and attributed to their leg's model, models
/// joined by commas in leg order, page counts summed and capped, the largest size.
pub open spec fn merged(parts: Seq<(LegModel, OcrResultModel)>) -> OcrResultModel {
    OcrResultModel {
        pages: sorted_by(all_pages(parts), page_key()),
        model: joined(leg_names(parts), ","@),
        pages_processed: if total_processed(parts) > u32::MAX {
            u32::MAX
        } else {
            total_processed(parts) as u32
        },
        doc_size_bytes: largest_size(parts),
    }
}

/// Put one page behind the last page whose index is not above its own.
fn insert_in_order(pages: &mut Vec<Page>, page: Page)
    ensures
        page_models(final(pages)@) == insert_by(page_models(old(pages)@), page@, page_key()),
{
    let ghost before = pages@;
    let mut at: usize = pages.len();
    while at > 0 && pages[at - 1].index > page.index
        invariant
            pages@ == before,
            at <= before.len(),
            forall|i: int| at <= i < before.len() ==> (#[trigger] before[i]).index > page.index,
        decreases at,
    {
        at -= 1;
    }
    proof {
        let models = page_models(before);
        assert forall|i: int| at <= i < models.len() implies page_key()(#[trigger] models[i])
            > page_key()(page@) by {
            assert(before[i].index > page.index);
        }
        insert_by_at(models, page@, page_key(), at as int);
        assert(page_models(before.insert(at as int, page)) =~= models.insert(at as int, page@));
    }
    pages.insert(at, page);
}

/// Put one leg's pages in, each behind the pages with its index that are already there.
fn add_leg(pages: &mut Vec<Page>, part: &(Leg, OcrResult), Ghost(earlier): Ghost<Seq<PageModel>>)
    requires
        page_models(old(pages)@) == sorted_by(earlier, page_key()),
    ensures
        page_models(final(pages)@) == sorted_by(
            earlier + attributed(part_model(*part)),
            page_key(),
        ),
{
    let ghost mine = attributed(part_model(*part));
    let mut i: usize = 0;
    assert(earlier + mine.take(0) =~= earlier);
    while i < part.1.pages.len()
        invariant
            i <= part.1.pages@.len() == mine.len(),
            mine == attributed(part_model(*part)),
            page_models(pages@) == sorted_by(earlier + mine.take(i as int), page_key()),
        decreases part.1.pages@.len() - i,
    {
        let source: &Page = &part.1.pages[i];
        let page = Page {
            index: source.index,
            markdown: source.markdown.clone(),
            model: part.0.model.clone(),
        };
        proof {
            let now = earlier + mine.take(i + 1);
            assert(now.drop_last() =~= earlier + mine.take(i as int));
            assert(part_model(*part).1.pages[i as int] == source@);
            assert(now.last() == page@);
        }
        insert_in_order(pages, page);
        i += 1;
    }
    assert(mine.take(mine.len() as int) =~= mine);
}

/// Merge per-leg results back into a single result in original page order.
///
/// Pages are stably sorted by `index`, so pages with the same index keep leg order. Each
/// page's `model` is overwritten with its leg's model, `model` is the leg models joined by
/// `","` in leg order, `pages_processed` is summed and `doc_size_bytes` is the largest
/// reported by any leg.
pub fn merge(legs: &[(Leg, OcrResult)]) -> (r: OcrResult)
    ensures
        r@ == merged(part_models(legs@)),
{
    let mut pages: Vec<Page> = Vec::new();
    let mut models: Vec<String> = Vec::new();
    let mut pages_processed: u32 = 0;
    let mut doc_size_bytes: Option<u64> = None;
    let mut i: usize = 0;
    proof {
        let none = part_models(legs@.take(0));
        assert(none =~= Seq::empty());
        assert(page_models(pages@) =~= sorted_by(all_pages(none), page_key()));
        assert(texts(models@) =~= leg_names(none));
    }
    while i < legs.len()
        invariant
            i <= legs@.len(),
            page_models(pages@) == sorted_by(
                all_pages(part_models(legs@.take(i as int))),
                page_key(),
            ),
            texts(models@) == leg_names(part_models(legs@.take(i as int))),
            pages_processed == merged(part_models(legs@.take(i as int))).pages_processed,
            doc_size_bytes == largest_size(part_models(legs@.take(i as int))),
        decreases legs@.len() - i,
    {
        let part: &(Leg, OcrResult) = &legs[i];
        let ghost before = part_models(legs@.take(i as int));
        let ghost now = part_models(legs@.take(i + 1));
        let ghost names = models@;
        assert(now.drop_last() =~= before);
        assert(now.last() == part_model(*part));
        models.push(part.0.model.clone());
        assert(texts(models@) =~= texts(names).push(part.0.model@));
        assert(leg_names(now) =~= leg_names(before).push(part.0.model@));
        pages_processed = pages_processed.saturating_add(part.1.pages_processed);
        doc_size_bytes = match (doc_size_bytes, part.1.doc_size_bytes) {
            (Some(a), Some(b)) => Some(
                if a >= b {
                    a
                } else {
                    b
                },
            ),
            (Some(a), None) => Some(a),
            (None, b) => b,
        };
        add_leg(&mut pages, part, Ghost(all_pages(before)));
        i += 1;
    }
    assert(legs@.take(legs@.len() as int) =~= legs@);
    OcrResult {
        pages,
        model: crate::text::join(&models, ","),
        pages_processed,
        doc_size_bytes,
    }
}

/// Merging loses no page, invents none, and orders them by index; pages that share an index
/// stay in leg order.
pub proof fn merge_is_a_stable_page_sort(parts: Seq<(LegModel, OcrResultModel)>)
    ensures
        in_key_order(merged(parts).pages, page_key()),
        merged(parts).pages.to_multiset() == all_pages(parts).to_multiset(),
        merged(parts).pages.len() == all_pages(parts).len(),
        forall|index: int| #[trigger]
            with_key(merged(parts).pages, page_key(), index) == with_key(
                all_pages(parts),
                page_key(),
                index,
            ),
{
    sorted_by_is_stable(all_pages(parts), page_key());
}

/// Where the pages of [`all_pages`] came from: a leg and a position among that leg's own pages.
proof fn all_pages_come_from(parts: Seq<(LegModel, OcrResultModel)>) -> (from: Seq<(int, int)>)
    ensures
        from.len() == all_pages(parts).len(),
        forall|i: int|
            0 <= i < from.len() ==> 0 <= (#[trigger] from[i]).0 < parts.len() && 0 <= from[i].1
                < parts[from[i].0].1.pages.len(),
        forall|i: int|
            0 <= i < from.len() ==> (#[trigger] all_pages(parts)[i]).index
                == parts[from[i].0].1.pages[from[i].1].index && all_pages(parts)[i].markdown
                == parts[from[i].0].1.pages[from[i].1].markdown && all_pages(parts)[i].model
                == parts[from[i].0].0.model,
        forall|leg: int, at: int|
            0 <= leg < parts.len() && 0 <= at < parts[leg].1.pages.len() ==> #[trigger]
                from.contains((leg, at)),
        forall|i: int, j: int|
            0 <= i < j < from.len() ==> (#[trigger] from[i]).0 < (#[trigger] from[j]).0 || (
            from[i].0 == from[j].0 && from[i].1 < from[j].1),
    decreases parts.len(),
{
    if parts.len() == 0 {
        Seq::empty()
    } else {
        let rest = parts.drop_last();
        let n = rest.len() as int;
        let last = parts.last();
        let before = all_pages_come_from(rest);
        let mine = Seq::new(last.1.pages.len(), |j: int| (n, j));
        let from = before + mine;
        assert forall|i: int| 0 <= i < from.len() implies 0 <= (#[trigger] from[i]).0 < parts.len()
            && 0 <= from[i].1 < parts[from[i].0].1.pages.len() by {
            if i < before.len() {
                assert(from[i] == before[i]);
                assert(rest[before[i].0] == parts[before[i].0]);
            }
        }
        assert forall|i: int| 0 <= i < from.len() implies (#[trigger] all_pages(parts)[i]).index
            == parts[from[i].0].1.pages[from[i].1].index && all_pages(parts)[i].markdown
            == parts[from[i].0].1.pages[from[i].1].markdown && all_pages(parts)[i].model
            == parts[from[i].0].0.model by {
            if i < before.len() {
                assert(from[i] == before[i]);
                assert(rest[before[i].0] == parts[before[i].0]);
                assert(all_pages(parts)[i] == all_pages(rest)[i]);
            }
        }
        assert forall|leg: int, at: int|
            0 <= leg < parts.len() && 0 <= at < parts[leg].1.pages.len() implies #[trigger]
            from.contains((leg, at)) by {
            if leg < n {
                assert(rest[leg] == parts[leg]);
                assert(before.contains((leg, at)));
                let i = choose|i: int| 0 <= i < before.len() && before[i] == (leg, at);
                assert(from[i] == (leg, at));
            } else {
                assert(from[before.len() + at] == (leg, at));
            }
        }
        assert forall|i: int, j: int| 0 <= i < j < from.len() implies (#[trigger] from[i]).0 < (
        #[trigger] from[j]).0 || (from[i].0 == from[j].0 && from[i].1 < from[j].1) by {
            if j < before.len() {
                assert(from[i] == before[i] && from[j] == before[j]);
            } else if i < before.len() {
                assert(from[i] == before[i]);
            }
        }
        from
    }
}

/// Every page of a merged result is a page some leg returned: its number and its markdown are
/// that page's own, character for character, and its model is that leg's. Every page a leg
/// returned comes out exactly once. The pages are in page order; pages under one number come in
/// leg order, and those of one leg in the order it returned them.
///
/// The origins say which page of which leg each merged page is.
pub proof fn merged_pages_are_the_legs_own(parts: Seq<(LegModel, OcrResultModel)>) -> (origins: Seq<
    (int, int),
>)
    ensures
        merged(parts).pages.len() == origins.len(),
        forall|i: int|
            0 <= i < origins.len() ==> {
                let (leg, at) = #[trigger] origins[i];
                &&& 0 <= leg < parts.len()
                &&& 0 <= at < parts[leg].1.pages.len()
                &&& merged(parts).pages[i].index == parts[leg].1.pages[at].index
                &&& merged(parts).pages[i].markdown == parts[leg].1.pages[at].markdown
                &&& merged(parts).pages[i].model == parts[leg].0.model
            },
        forall|leg: int, at: int|
            0 <= leg < parts.len() && 0 <= at < parts[leg].1.pages.len() ==> #[trigger]
                origins.contains((leg, at)),
        forall|i: int, j: int|
            0 <= i < j < origins.len() ==> (#[trigger] merged(parts).pages[i]).index < (
            #[trigger] merged(parts).pages[j]).index || (merged(parts).pages[i].index
                == merged(parts).pages[j].index && (origins[i].0 < origins[j].0 || (origins[i].0
                == origins[j].0 && origins[i].1 < origins[j].1))),
{
    let all = all_pages(parts);
    let from = all_pages_come_from(parts);
    let places = sorted_by_rearranges(all, page_key());
    let out = merged(parts).pages;
    let origins = Seq::new(places.len(), |i: int| from[places[i]]);
    assert forall|i: int| 0 <= i < origins.len() implies {
        let (leg, at) = #[trigger] origins[i];
        &&& 0 <= leg < parts.len()
        &&& 0 <= at < parts[leg].1.pages.len()
        &&& out[i].index == parts[leg].1.pages[at].index
        &&& out[i].markdown == parts[leg].1.pages[at].markdown
        &&& out[i].model == parts[leg].0.model
    } by {
        assert(out[i] == all[places[i]]);
        assert(origins[i] == from[places[i]]);
    }
    assert forall|leg: int, at: int|
        0 <= leg < parts.len() && 0 <= at < parts[leg].1.pages.len() implies #[trigger]
        origins.contains((leg, at)) by {
        assert(from.contains((leg, at)));
        let n = choose|n: int| 0 <= n < from.len() && from[n] == (leg, at);
        assert(places.contains(n));
        let i = choose|i: int| 0 <= i < places.len() && places[i] == n;
        assert(origins[i] == (leg, at));
    }
    assert forall|i: int, j: int| 0 <= i < j < origins.len() implies (#[trigger] out[i]).index < (
    #[trigger] out[j]).index || (out[i].index == out[j].index && (origins[i].0 < origins[j].0 || (
    origins[i].0 == origins[j].0 && origins[i].1 < origins[j].1))) by {
        assert(out[i] == all[places[i]] && out[j] == all[places[j]]);
        assert(page_key()(all[places[i]]) == all[places[i]].index);
        assert(page_key()(all[places[j]]) == all[places[j]].index);
        assert(origins[i] == from[places[i]] && origins[j] == from[places[j]]);
    }
    origins
}

/// What one more leg does to the rest of a merged result: its model goes behind a comma at the
/// end of the models, its page count is added as far as a page count reaches, and its size
/// counts when it is the larger. No leg at all is an empty result.
pub proof fn one_more_leg_is_added_on(
    parts: Seq<(LegModel, OcrResultModel)>,
    last: (LegModel, OcrResultModel),
)
    ensures
        merged(parts.push(last)).model == (if parts.len() == 0 {
            last.0.model
        } else {
            merged(parts).model + ","@ + last.0.model
        }),
        merged(parts).pages_processed + last.1.pages_processed <= u32::MAX ==> merged(
            parts.push(last),
        ).pages_processed == merged(parts).pages_processed + last.1.pages_processed,
        merged(parts).pages_processed + last.1.pages_processed > u32::MAX ==> merged(
            parts.push(last),
        ).pages_processed == u32::MAX,
        merged(Seq::<(LegModel, OcrResultModel)>::empty()).pages_processed == 0,
        merged(Seq::<(LegModel, OcrResultModel)>::empty()).model.len() == 0,
        merged(Seq::<(LegModel, OcrResultModel)>::empty()).doc_size_bytes is None,
{
    let all = parts.push(last);
    assert(all.drop_last() =~= parts);
    assert(leg_names(all) =~= leg_names(parts).push(last.0.model));
    assert(leg_names(all).drop_last() =~= leg_names(parts));
}

/// The size of a merged result is one a leg reported, and no leg reported a larger one; it is
/// unknown only when no leg reported any.
pub proof fn merged_size_is_the_largest_reported(parts: Seq<(LegModel, OcrResultModel)>)
    ensures
        forall|i: int|
            0 <= i < parts.len() && (#[trigger] parts[i]).1.doc_size_bytes is Some ==> merged(
                parts,
            ).doc_size_bytes is Some && merged(parts).doc_size_bytes->0
                >= parts[i].1.doc_size_bytes->0,
        merged(parts).doc_size_bytes is Some ==> exists|i: int|
            0 <= i < parts.len() && (#[trigger] parts[i]).1.doc_size_bytes == merged(
                parts,
            ).doc_size_bytes,
    decreases parts.len(),
{
    if parts.len() > 0 {
        let rest = parts.drop_last();
        let n = rest.len() as int;
        merged_size_is_the_largest_reported(rest);
        assert forall|i: int|
            0 <= i < parts.len() && (#[trigger] parts[i]).1.doc_size_bytes is Some implies merged(
            parts,
        ).doc_size_bytes is Some && merged(parts).doc_size_bytes->0
            >= parts[i].1.doc_size_bytes->0 by {
            if i < n {
                assert(rest[i] == parts[i]);
            }
        }
        if merged(parts).doc_size_bytes is Some {
            if parts[n].1.doc_size_bytes != merged(parts).doc_size_bytes {
                let i = choose|i: int|
                    0 <= i < rest.len() && (#[trigger] rest[i]).1.doc_size_bytes == merged(
                        rest,
                    ).doc_size_bytes;
                assert(parts[i] == rest[i]);
            }
        }
    }
}

/// `result` holds one page for each of these numbers, in that order and under that number.
pub open spec fn answers_for_pages(result: OcrResultModel, numbers: Seq<u32>) -> bool {
    result.pages.len() == numbers.len() && forall|i: int|
        0 <= i < numbers.len() ==> (#[trigger] result.pages[i]).index == numbers[i]
}

/// Pages under distinct numbers: each number once, any other not at all.
proof fn numbered_once(pages: Seq<PageModel>, numbers: Seq<u32>, k: u32)
    requires
        pages.len() == numbers.len(),
        forall|i: int| 0 <= i < pages.len() ==> (#[trigger] pages[i]).index == numbers[i],
        increasing(numbers),
    ensures
        numbers.contains(k) ==> with_key(pages, page_key(), k as int).len() == 1
            && pages.contains(with_key(pages, page_key(), k as int)[0]),
        !numbers.contains(k) ==> with_key(pages, page_key(), k as int).len() == 0,
    decreases pages.len(),
{
    if pages.len() > 0 {
        let n = pages.len() - 1;
        let fewer = numbers.drop_last();
        assert forall|i: int| 0 <= i < pages.drop_last().len() implies (
        #[trigger] pages.drop_last()[i]).index == fewer[i] by {
            assert(pages[i].index == numbers[i]);
        }
        numbered_once(pages.drop_last(), fewer, k);
        assert(pages[n].index == numbers[n]);
        if fewer.contains(k) {
            let i = choose|i: int| 0 <= i < fewer.len() && fewer[i] == k;
            assert(numbers[i] == k);
            let found = with_key(pages.drop_last(), page_key(), k as int)[0];
            let at = choose|at: int|
                0 <= at < pages.drop_last().len() && pages.drop_last()[at] == found;
            assert(pages[at] == found);
        }
        if numbers.contains(k) && !fewer.contains(k) {
            let i = choose|i: int| 0 <= i < numbers.len() && numbers[i] == k;
            if i < n {
                assert(fewer[i] == k);
            }
            assert(pages[n] == with_key(pages, page_key(), k as int)[0]);
        }
        if pages[n].index == k {
            assert(numbers.contains(k));
        }
    }
}

/// Two legs that share the pages `0..page_count` out between them, and answer for their own,
/// come back as the whole document: one page per number, in page order, each as its own leg
/// returned it.
pub proof fn shared_out_pages_come_back_in_order(
    first: (LegModel, OcrResultModel),
    second: (LegModel, OcrResultModel),
    page_count: u32,
)
    requires
        first.0.pages is Some,
        second.0.pages is Some,
        answers_for_pages(first.1, first.0.pages->0),
        answers_for_pages(second.1, second.0.pages->0),
        increasing(first.0.pages->0),
        increasing(second.0.pages->0),
        forall|p: u32| #[trigger] first.0.pages->0.contains(p) ==> p < page_count,
        forall|p: u32| #[trigger] second.0.pages->0.contains(p) ==> p < page_count,
        forall|p: u32|
            #![trigger first.0.pages->0.contains(p)]
            p < page_count ==> (first.0.pages->0.contains(p) <==> !second.0.pages->0.contains(p)),
    ensures
        ({
            let out = merged(seq![first, second]).pages;
            &&& out.len() == page_count
            &&& forall|i: int|
                0 <= i < page_count ==> (#[trigger] out[i]).index == i && (
                if first.0.pages->0.contains(i as u32) {
                    attributed(first).contains(out[i])
                } else {
                    attributed(second).contains(out[i])
                })
        }),
{
    let parts = seq![first, second];
    let a = attributed(first);
    let b = attributed(second);
    assert(parts.drop_last() =~= seq![first]);
    assert(parts.drop_last().last() == first);
    assert(parts.drop_last().drop_last() =~= Seq::empty());
    reveal_with_fuel(all_pages, 3);
    assert(all_pages(parts.drop_last()) =~= a);
    assert(all_pages(parts) =~= a + b);
    let out = merged(parts).pages;
    merge_is_a_stable_page_sort(parts);
    assert forall|k: int| 0 <= k < page_count implies (#[trigger] with_key(
        out,
        page_key(),
        k,
    )).len() == 1 && (if first.0.pages->0.contains(k as u32) {
        a.contains(with_key(out, page_key(), k)[0])
    } else {
        b.contains(with_key(out, page_key(), k)[0])
    }) by {
        assert(with_key(out, page_key(), k) == with_key(a + b, page_key(), k));
        with_key_of_both(a, b, page_key(), k);
        numbered_once(a, first.0.pages->0, k as u32);
        numbered_once(b, second.0.pages->0, k as u32);
        assert(first.0.pages->0.contains(k as u32) <==> !second.0.pages->0.contains(k as u32));
    }
    assert forall|j: int| 0 <= j < out.len() implies 0 <= page_key()(#[trigger] out[j])
        < page_count by {
        let all = a + b;
        assert(out.to_multiset().count(out[j]) > 0) by {
            out.to_multiset_ensures();
            assert(out.contains(out[j]));
        }
        all.to_multiset_ensures();
        assert(all.contains(out[j]));
        let at = choose|at: int| 0 <= at < all.len() && all[at] == out[j];
        if at < a.len() {
            assert(a[at].index == first.0.pages->0[at]);
            assert(first.0.pages->0.contains(first.0.pages->0[at]));
        } else {
            assert(b[at - a.len()].index == second.0.pages->0[at - a.len()]);
            assert(second.0.pages->0.contains(second.0.pages->0[at - a.len()]));
        }
    }
    keys_in_place(out, page_key(), page_count as nat);
    assert forall|i: int| 0 <= i < page_count implies (#[trigger] out[i]).index == i && (
    if first.0.pages->0.contains(i as u32) {
        a.contains(out[i])
    } else {
        b.contains(out[i])
    }) by {
        assert(with_key(out, page_key(), i)[0] == out[i]);
        assert(page_key()(out[i]) == i);
    }
}

/// [`merge`] returns the legs' own pages: each of them once, under its number and with its
/// markdown, character for character, attributed to its leg's model, in page order.
///
/// The origins say which page of which leg each merged page is.
pub proof fn merge_returns_the_legs_own_pages(legs: &[(Leg, OcrResult)], out: OcrResult) -> (origins:
    Seq<(int, int)>)
    requires
        call_ensures(merge, (legs,), out),
    ensures
        out@.pages.len() == origins.len(),
        forall|i: int|
            0 <= i < origins.len() ==> {
                let (leg, at) = #[trigger] origins[i];
                &&& 0 <= leg < legs@.len()
                &&& 0 <= at < legs@[leg].1@.pages.len()
                &&& out@.pages[i].index == legs@[leg].1@.pages[at].index
                &&& out@.pages[i].markdown == legs@[leg].1@.pages[at].markdown
                &&& out@.pages[i].model == legs@[leg].0@.model
            },
        forall|leg: int, at: int|
            0 <= leg < legs@.len() && 0 <= at < (#[trigger] legs@[leg]).1@.pages.len()
                ==> #[trigger] origins.contains((leg, at)),
        forall|i: int, j: int|
            0 <= i < j < origins.len() ==> (#[trigger] out@.pages[i]).index <= (
            #[trigger] out@.pages[j]).index,
        forall|leg: int|
            0 <= leg < legs@.len() && (#[trigger] legs@[leg]).1@.doc_size_bytes is Some
                ==> out@.doc_size_bytes is Some && out@.doc_size_bytes->0
                >= legs@[leg].1@.doc_size_bytes->0,
{
    let parts = part_models(legs@);
    assert(parts.len() == legs@.len());
    assert forall|i: int| 0 <= i < legs@.len() implies #[trigger] parts[i] == (
        legs@[i].0@,
        legs@[i].1@,
    ) by {}
    merged_size_is_the_largest_reported(parts);
    let origins = merged_pages_are_the_legs_own(parts);
    assert forall|i: int| 0 <= i < origins.len() implies {
        let (leg, at) = #[trigger] origins[i];
        &&& 0 <= leg < legs@.len()
        &&& 0 <= at < legs@[leg].1@.pages.len()
        &&& out@.pages[i].index == legs@[leg].1@.pages[at].index
        &&& out@.pages[i].markdown == legs@[leg].1@.pages[at].markdown
        &&& out@.pages[i].model == legs@[leg].0@.model
    } by {
        let (leg, at) = origins[i];
        assert(parts[leg] == (legs@[leg].0@, legs@[leg].1@));
    }
    assert forall|leg: int, at: int|
        0 <= leg < legs@.len() && 0 <= at < (#[trigger] legs@[leg]).1@.pages.len() implies #[trigger]
        origins.contains((leg, at)) by {
        assert(parts[leg] == (legs@[leg].0@, legs@[leg].1@));
    }
    assert forall|leg: int|
        0 <= leg < legs@.len() && (#[trigger] legs@[leg]).1@.doc_size_bytes is Some implies
        out@.doc_size_bytes is Some && out@.doc_size_bytes->0
        >= legs@[leg].1@.doc_size_bytes->0 by {
        assert(parts[leg] == (legs@[leg].0@, legs@[leg].1@));
    }
    origins
}

} // verus!
