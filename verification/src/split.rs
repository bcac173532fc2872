//! Page subsetting, for OCR providers that cannot take a page list.
//!
//! A subset document is built by deep copy: every object a kept page refers to is copied under
//! a fresh identifier, each source object once, so shared objects stay shared and reference
//! cycles end.

use crate::classify::{is_pdf, pdf_magic};
use crate::error::{Error, ErrorModel};
use crate::extract::{page_models, OcrResult, OcrResultModel, PageModel};
use crate::pdf::{
    close_layer, compress_streams, compressed, dictionary_at, distinct_keys,
    document_dictionary, document_object, document_pages, document_version, entry_model,
    entry_models, held, layer_of, load_document, may_load, mentions, new_document, object_at,
    object_count, open_object, pages_of, position, prune_objects, pruned_from, reached,
    renumber_objects, renumbered, save_document, save_outcome, saved, set_object, set_trailer,
    trailer_of, used, version_of, with_entry, Entry, Layer, LayerModel, Numbered, ObjectId,
    LAST_SAVED_NUMBER,
};
use crate::text::{decimal, push_decimal};
use lopdf::{Document, Object};
use std::collections::HashMap;
use vstd::prelude::*;
use vstd::string::*;

verus! {

broadcast use vstd::std_specs::hash::group_hash_axioms;

/// How deep a copy follows nested objects and references; below that everything is null.
pub const COPY_DEPTH: u32 = 64;

/// How many ancestors an inherited attribute is looked for on.
pub const ANCESTOR_LIMIT: u32 = 64;

/// The largest object number a subset uses.
pub const LAST_OBJECT_NUMBER: u32 = 0xffff_ffff;

/// The most pages a document can be numbered with.
pub const MOST_PAGES: usize = 0x7fff_ffff;

/// One number per object identifier.
pub open spec fn packed(id: ObjectId) -> u64 {
    (id.number * 65536 + id.generation) as u64
}

fn pack(id: ObjectId) -> (r: u64)
    ensures
        r == packed(id),
{
    id.number as u64 * 65536 + id.generation as u64
}

/// `to` is what `from` becomes when it is copied at `depth` and every source object `id` is
/// renamed to object number `memo[id]`: the same layers with the same keys and leaves, every
/// reference renamed, and null below the depth limit.
pub open spec fn copied(memo: Map<u64, u32>, from: Object, to: Object, depth: int) -> bool
    decreases 66 - depth, 0int,
{
    if depth > COPY_DEPTH {
        layer_of(to) == LayerModel::Null
    } else {
        match layer_of(from) {
            LayerModel::Reference(id) => memo.contains_key(packed(id)) && layer_of(to)
                == LayerModel::Reference(ObjectId { number: memo[packed(id)], generation: 0 }),
            LayerModel::Array(items) => layer_of(to) is Array && items_copied(
                memo,
                items,
                layer_of(to)->Array_0,
                depth + 1,
            ),
            LayerModel::Dictionary(entries) => layer_of(to) is Dictionary && entries_copied(
                memo,
                entries,
                layer_of(to)->Dictionary_0,
                depth + 1,
            ),
            LayerModel::Stream(entries, body) => layer_of(to) is Stream && entries_copied(
                memo,
                entries,
                layer_of(to)->Stream_0,
                depth + 1,
            ) && layer_of(to)->Stream_1 == body,
            LayerModel::Other(_) => to == from,
            leaf => layer_of(to) == leaf,
        }
    }
}

/// Every item copied at `depth`, in order.
pub open spec fn items_copied(
    memo: Map<u64, u32>,
    from: Seq<Object>,
    to: Seq<Object>,
    depth: int,
) -> bool
    decreases 66 - depth, 1int,
{
    from.len() == to.len() && forall|i: int|
        #![trigger from[i]]
        #![trigger to[i]]
        0 <= i < from.len() ==> copied(memo, from[i], to[i], depth)
}

/// Every value copied at `depth` under its own key, in order.
pub open spec fn entries_copied(
    memo: Map<u64, u32>,
    from: Seq<(Seq<u8>, Object)>,
    to: Seq<(Seq<u8>, Object)>,
    depth: int,
) -> bool
    decreases 66 - depth, 1int,
{
    from.len() == to.len() && forall|i: int|
        #![trigger from[i]]
        #![trigger to[i]]
        0 <= i < from.len() ==> to[i].0 == from[i].0 && copied(memo, from[i].1, to[i].1, depth)
}

/// Every renaming of `memo` stands in `more` too.
pub open spec fn kept_in(memo: Map<u64, u32>, more: Map<u64, u32>) -> bool {
    forall|k: u64| #[trigger]
        memo.contains_key(k) ==> more.contains_key(k) && more[k] == memo[k]
}

/// A copy stays a copy when more objects are renamed.
proof fn copied_grows(
    memo: Map<u64, u32>,
    more: Map<u64, u32>,
    from: Object,
    to: Object,
    depth: int,
)
    requires
        kept_in(memo, more),
        copied(memo, from, to, depth),
    ensures
        copied(more, from, to, depth),
    decreases 66 - depth, 0int,
{
    if depth <= COPY_DEPTH {
        match layer_of(from) {
            LayerModel::Array(items) => items_copied_grows(
                memo,
                more,
                items,
                layer_of(to)->Array_0,
                depth + 1,
            ),
            LayerModel::Dictionary(entries) => entries_copied_grows(
                memo,
                more,
                entries,
                layer_of(to)->Dictionary_0,
                depth + 1,
            ),
            LayerModel::Stream(entries, _) => entries_copied_grows(
                memo,
                more,
                entries,
                layer_of(to)->Stream_0,
                depth + 1,
            ),
            _ => {},
        }
    }
}

proof fn items_copied_grows(
    memo: Map<u64, u32>,
    more: Map<u64, u32>,
    from: Seq<Object>,
    to: Seq<Object>,
    depth: int,
)
    requires
        kept_in(memo, more),
        items_copied(memo, from, to, depth),
    ensures
        items_copied(more, from, to, depth),
    decreases 66 - depth, 1int,
{
    assert forall|i: int|
        #![trigger from[i]]
        #![trigger to[i]]
        0 <= i < from.len() implies copied(more, from[i], to[i], depth) by {
        copied_grows(memo, more, from[i], to[i], depth);
    }
}

proof fn entries_copied_grows(
    memo: Map<u64, u32>,
    more: Map<u64, u32>,
    from: Seq<(Seq<u8>, Object)>,
    to: Seq<(Seq<u8>, Object)>,
    depth: int,
)
    requires
        kept_in(memo, more),
        entries_copied(memo, from, to, depth),
    ensures
        entries_copied(more, from, to, depth),
    decreases 66 - depth, 1int,
{
    assert forall|i: int|
        #![trigger from[i]]
        #![trigger to[i]]
        0 <= i < from.len() implies to[i].0 == from[i].0 && copied(
        more,
        from[i].1,
        to[i].1,
        depth,
    ) by {
        copied_grows(memo, more, from[i].1, to[i].1, depth);
    }
}

/// `object` is the copy of what `id` resolves to: null when it does not resolve.
pub open spec fn target_copied(
    document: Document,
    memo: Map<u64, u32>,
    id: ObjectId,
    object: Object,
    depth: int,
) -> bool {
    match object_at(document, id) {
        Some(target) => copied(memo, target, object, depth),
        None => layer_of(object) == LayerModel::Null,
    }
}

/// Position `k` holds the copy of source object `id`, made at the depth on record for it.
pub open spec fn settled_at(
    document: Document,
    memo: Map<u64, u32>,
    depths: Map<u64, int>,
    objects: Seq<Numbered>,
    id: ObjectId,
    k: int,
) -> bool {
    &&& 0 <= k < objects.len()
    &&& objects[k].id == (ObjectId { number: memo[packed(id)], generation: 0 })
    &&& target_copied(document, memo, id, objects[k].object, depths[packed(id)])
}

/// The copy of source object `id` is among `objects`, under its new identifier.
pub open spec fn settled(
    document: Document,
    memo: Map<u64, u32>,
    depths: Map<u64, int>,
    objects: Seq<Numbered>,
    id: ObjectId,
) -> bool {
    exists|k: int| #[trigger] settled_at(document, memo, depths, objects, id, k)
}

/// Every depth on record for an object of `memo` is on record in `more` too.
pub open spec fn depths_kept(
    memo: Map<u64, u32>,
    depths: Map<u64, int>,
    more: Map<u64, int>,
) -> bool {
    forall|k: u64| #[trigger] memo.contains_key(k) ==> more[k] == depths[k]
}

proof fn settled_grows(
    document: Document,
    memo: Map<u64, u32>,
    more: Map<u64, u32>,
    depths: Map<u64, int>,
    more_depths: Map<u64, int>,
    objects: Seq<Numbered>,
    longer: Seq<Numbered>,
    id: ObjectId,
)
    requires
        kept_in(memo, more),
        depths_kept(memo, depths, more_depths),
        memo.contains_key(packed(id)),
        objects.len() <= longer.len(),
        forall|i: int| 0 <= i < objects.len() ==> objects[i] == #[trigger] longer[i],
        settled(document, memo, depths, objects, id),
    ensures
        settled(document, more, more_depths, longer, id),
{
    let k = choose|k: int| #[trigger] settled_at(document, memo, depths, objects, id, k);
    let depth = depths[packed(id)];
    assert(longer[k] == objects[k]);
    if object_at(document, id) is Some {
        copied_grows(memo, more, object_at(document, id)->0, objects[k].object, depth);
    }
    assert(target_copied(document, more, id, longer[k].object, depth));
    assert(settled_at(document, more, more_depths, longer, id, k));
}

/// `inner` is an item of `outer` or the value of one of its entries.
pub open spec fn child_of(outer: Object, inner: Object) -> bool {
    match layer_of(outer) {
        LayerModel::Array(items) => exists|i: int|
            0 <= i < items.len() && #[trigger] items[i] == inner,
        LayerModel::Dictionary(entries) => exists|i: int|
            0 <= i < entries.len() && (#[trigger] entries[i]).1 == inner,
        LayerModel::Stream(entries, _) => exists|i: int|
            0 <= i < entries.len() && (#[trigger] entries[i]).1 == inner,
        _ => false,
    }
}

/// `inner` lies `layers` layers down in `outer`.
pub open spec fn lies_in(outer: Object, inner: Object, layers: int) -> bool
    decreases layers,
{
    if layers <= 0 {
        layers == 0 && inner == outer
    } else {
        exists|mid: Object| lies_in(outer, mid, layers - 1) && #[trigger] child_of(mid, inner)
    }
}

/// The entries that page `page` of the source is copied from.
pub open spec fn source_of(document: Document, page: u32) -> Seq<(Seq<u8>, Object)> {
    page_source(
        document,
        pages_of(document)[page as int],
        dictionary_at(document, pages_of(document)[page as int])->Ok_0,
    )
}

/// Copying `pages` comes to `object` at `depth`: it lies that many layers down in an entry of
/// one of the pages, or so many layers down in a source object numbered below `before` as the
/// copy of that object is made less deep.
#[verifier::opaque]
pub open spec fn met_at(
    document: Document,
    pages: Seq<u32>,
    memo: Map<u64, u32>,
    depths: Map<u64, int>,
    object: Object,
    depth: int,
    before: int,
) -> bool {
    ||| exists|i: int, j: int|
        0 <= i < pages.len() && 0 <= j < source_of(document, pages[i]).len()
            && #[trigger] lies_in(source_of(document, pages[i])[j].1, object, depth)
    ||| exists|from: ObjectId, layers: int|
        memo.contains_key(packed(from)) && memo[packed(from)] < before && object_at(
            document,
            from,
        ) is Some && #[trigger] lies_in(object_at(document, from)->0, object, layers) && depth
            == depths[packed(from)] + layers
}

/// The depth on record for source object `id` is the one at which copying `pages` follows a
/// reference to it: one more than where the reference lies, and no deeper than copies go.
#[verifier::opaque]
pub open spec fn depth_earned(
    document: Document,
    pages: Seq<u32>,
    memo: Map<u64, u32>,
    depths: Map<u64, int>,
    id: ObjectId,
) -> bool {
    &&& 1 <= depths[packed(id)] <= COPY_DEPTH + 1
    &&& exists|reference: Object| #[trigger]
        refers_to(reference, id) && met_at(
            document,
            pages,
            memo,
            depths,
            reference,
            depths[packed(id)] - 1,
            memo[packed(id)] as int,
        )
}

proof fn met_at_grows(
    document: Document,
    pages: Seq<u32>,
    memo: Map<u64, u32>,
    more: Map<u64, u32>,
    depths: Map<u64, int>,
    more_depths: Map<u64, int>,
    object: Object,
    depth: int,
    before: int,
    later: int,
)
    requires
        kept_in(memo, more),
        depths_kept(memo, depths, more_depths),
        before <= later,
        met_at(document, pages, memo, depths, object, depth, before),
    ensures
        met_at(document, pages, more, more_depths, object, depth, later),
{
    reveal(met_at);
    if !exists|i: int, j: int|
        0 <= i < pages.len() && 0 <= j < source_of(document, pages[i]).len()
            && #[trigger] lies_in(source_of(document, pages[i])[j].1, object, depth) {
        let (from, layers) = choose|from: ObjectId, layers: int|
            memo.contains_key(packed(from)) && memo[packed(from)] < before && object_at(
                document,
                from,
            ) is Some && #[trigger] lies_in(object_at(document, from)->0, object, layers)
                && depth == depths[packed(from)] + layers;
        assert(more.contains_key(packed(from)));
        assert(lies_in(object_at(document, from)->0, object, layers));
    }
}

proof fn depth_earned_grows(
    document: Document,
    pages: Seq<u32>,
    memo: Map<u64, u32>,
    more: Map<u64, u32>,
    depths: Map<u64, int>,
    more_depths: Map<u64, int>,
    id: ObjectId,
)
    requires
        kept_in(memo, more),
        depths_kept(memo, depths, more_depths),
        memo.contains_key(packed(id)),
        depth_earned(document, pages, memo, depths, id),
    ensures
        depth_earned(document, pages, more, more_depths, id),
{
    reveal(depth_earned);
    let at = depths[packed(id)] - 1;
    let before = memo[packed(id)] as int;
    let reference = choose|reference: Object| #[trigger]
        refers_to(reference, id) && met_at(
            document,
            pages,
            memo,
            depths,
            reference,
            depths[packed(id)] - 1,
            memo[packed(id)] as int,
        );
    met_at_grows(
        document,
        pages,
        memo,
        more,
        depths,
        more_depths,
        reference,
        at,
        before,
        before,
    );
    assert(refers_to(reference, id));
}

/// What lies in an object that is come to is come to one layer deeper.
proof fn met_below(
    document: Document,
    pages: Seq<u32>,
    memo: Map<u64, u32>,
    depths: Map<u64, int>,
    outer: Object,
    inner: Object,
    depth: int,
    before: int,
)
    requires
        met_at(document, pages, memo, depths, outer, depth, before),
        child_of(outer, inner),
    ensures
        met_at(document, pages, memo, depths, inner, depth + 1, before),
{
    reveal(met_at);
    if exists|i: int, j: int|
        0 <= i < pages.len() && 0 <= j < source_of(document, pages[i]).len()
            && #[trigger] lies_in(source_of(document, pages[i])[j].1, outer, depth) {
        let (i, j) = choose|i: int, j: int|
            0 <= i < pages.len() && 0 <= j < source_of(document, pages[i]).len()
                && #[trigger] lies_in(source_of(document, pages[i])[j].1, outer, depth);
        assert(lies_in(source_of(document, pages[i])[j].1, inner, depth + 1));
    } else {
        let (from, layers) = choose|from: ObjectId, layers: int|
            memo.contains_key(packed(from)) && memo[packed(from)] < before && object_at(
                document,
                from,
            ) is Some && #[trigger] lies_in(object_at(document, from)->0, outer, layers) && depth
                == depths[packed(from)] + layers;
        assert(lies_in(object_at(document, from)->0, inner, layers + 1));
    }
}

/// Copying `pages` comes to every entry's value at `depth`.
pub open spec fn entries_met(
    document: Document,
    pages: Seq<u32>,
    memo: Map<u64, u32>,
    depths: Map<u64, int>,
    entries: Seq<(Seq<u8>, Object)>,
    depth: int,
    before: int,
) -> bool {
    forall|i: int|
        0 <= i < entries.len() ==> met_at(
            document,
            pages,
            memo,
            depths,
            (#[trigger] entries[i]).1,
            depth,
            before,
        )
}

/// What a source object resolves to is come to at the depth on record for it.
proof fn met_target(
    document: Document,
    pages: Seq<u32>,
    memo: Map<u64, u32>,
    depths: Map<u64, int>,
    id: ObjectId,
    before: int,
)
    requires
        memo.contains_key(packed(id)),
        memo[packed(id)] < before,
        object_at(document, id) is Some,
    ensures
        met_at(
            document,
            pages,
            memo,
            depths,
            object_at(document, id)->0,
            depths[packed(id)],
            before,
        ),
{
    reveal(met_at);
    assert(lies_in(object_at(document, id)->0, object_at(document, id)->0, 0));
}

/// The values of a page's entries are come to at once.
proof fn met_on_page(
    document: Document,
    pages: Seq<u32>,
    memo: Map<u64, u32>,
    depths: Map<u64, int>,
    i: int,
    before: int,
)
    requires
        0 <= i < pages.len(),
    ensures
        entries_met(document, pages, memo, depths, source_of(document, pages[i]), 0, before),
{
    reveal(met_at);
    let source = source_of(document, pages[i]);
    assert forall|j: int| 0 <= j < source.len() implies met_at(
        document,
        pages,
        memo,
        depths,
        (#[trigger] source[j]).1,
        0,
        before,
    ) by {
        assert(lies_in(source_of(document, pages[i])[j].1, source[j].1, 0));
    }
}

/// A source object whose number is new has its depth from the reference that was followed.
proof fn depth_earned_now(
    document: Document,
    pages: Seq<u32>,
    memo: Map<u64, u32>,
    depths: Map<u64, int>,
    reference: Object,
    id: ObjectId,
    number: u32,
    depth: int,
)
    requires
        refers_to(reference, id),
        !memo.contains_key(packed(id)),
        0 <= depth <= COPY_DEPTH,
        met_at(document, pages, memo, depths, reference, depth, number as int),
    ensures
        depth_earned(
            document,
            pages,
            memo.insert(packed(id), number),
            depths.insert(packed(id), depth + 1),
            id,
        ),
{
    reveal(depth_earned);
    met_at_grows(
        document,
        pages,
        memo,
        memo.insert(packed(id), number),
        depths,
        depths.insert(packed(id), depth + 1),
        reference,
        depth,
        number as int,
        number as int,
    );
}

proof fn items_met_below(
    document: Document,
    pages: Seq<u32>,
    memo: Map<u64, u32>,
    depths: Map<u64, int>,
    outer: Object,
    items: Seq<Object>,
    depth: int,
    before: int,
)
    requires
        met_at(document, pages, memo, depths, outer, depth, before),
        layer_of(outer) == LayerModel::Array(items),
    ensures
        forall|i: int|
            0 <= i < items.len() ==> met_at(
                document,
                pages,
                memo,
                depths,
                #[trigger] items[i],
                depth + 1,
                before,
            ),
{
    assert forall|i: int| 0 <= i < items.len() implies met_at(
        document,
        pages,
        memo,
        depths,
        #[trigger] items[i],
        depth + 1,
        before,
    ) by {
        assert(layer_of(outer)->Array_0[i] == items[i]);
        assert(child_of(outer, items[i]));
        met_below(document, pages, memo, depths, outer, items[i], depth, before);
    }
}

proof fn entries_met_below(
    document: Document,
    pages: Seq<u32>,
    memo: Map<u64, u32>,
    depths: Map<u64, int>,
    outer: Object,
    entries: Seq<(Seq<u8>, Object)>,
    depth: int,
    before: int,
)
    requires
        met_at(document, pages, memo, depths, outer, depth, before),
        layer_of(outer) == LayerModel::Dictionary(entries) || (layer_of(outer) is Stream
            && layer_of(outer)->Stream_0 == entries),
    ensures
        entries_met(document, pages, memo, depths, entries, depth + 1, before),
{
    assert forall|i: int| 0 <= i < entries.len() implies met_at(
        document,
        pages,
        memo,
        depths,
        (#[trigger] entries[i]).1,
        depth + 1,
        before,
    ) by {
        if layer_of(outer) is Stream {
            assert(layer_of(outer)->Stream_0[i] == entries[i]);
        } else {
            assert(layer_of(outer)->Dictionary_0[i] == entries[i]);
        }
        assert(child_of(outer, entries[i].1));
        met_below(document, pages, memo, depths, outer, entries[i].1, depth, before);
    }
}

/// Every reference a copy of `object` made at `depth` follows leads into `world`.
pub open spec fn refers_within(object: Object, world: Set<u64>, depth: int) -> bool
    decreases 66 - depth,
{
    depth <= COPY_DEPTH ==> match layer_of(object) {
        LayerModel::Reference(id) => world.contains(packed(id)),
        LayerModel::Array(items) => forall|i: int|
            0 <= i < items.len() ==> refers_within(#[trigger] items[i], world, depth + 1),
        LayerModel::Dictionary(entries) => forall|i: int|
            0 <= i < entries.len() ==> refers_within((#[trigger] entries[i]).1, world, depth + 1),
        LayerModel::Stream(entries, _) => forall|i: int|
            0 <= i < entries.len() ==> refers_within((#[trigger] entries[i]).1, world, depth + 1),
        _ => true,
    }
}

/// Every entry's value refers into `world` only.
pub open spec fn entries_refer_within(
    entries: Seq<(Seq<u8>, Object)>,
    world: Set<u64>,
    depth: int,
) -> bool {
    forall|i: int|
        0 <= i < entries.len() ==> refers_within((#[trigger] entries[i]).1, world, depth)
}

/// Following references never leads out of `world`.
pub open spec fn closed_under_references(document: Document, world: Set<u64>) -> bool {
    forall|id: ObjectId, depth: int|
        #![trigger object_at(document, id), refers_within(object_at(document, id)->0, world, depth)]
        world.contains(packed(id)) && object_at(document, id) is Some ==> refers_within(
            object_at(document, id)->0,
            world,
            depth,
        )
}

/// What a copy is made within: the source objects whose copy is under way, the numbers handed
/// out whose object is still to come, the source objects that can be met at all, the pages
/// being copied, and how many numbers were handed out for anything else.
pub ghost struct Frame {
    pub pages: Seq<u32>,
    pub pending: Set<u64>,
    pub reserved: Set<u32>,
    pub world: Set<u64>,
    pub extra: int,
}

impl Frame {
    /// There may be too few object numbers for the source objects that can be met.
    pub open spec fn crowded(self) -> bool {
        self.world.finite() ==> self.world.len() + self.extra > LAST_OBJECT_NUMBER
    }
}

/// A copy in progress.
pub struct Copier {
    /// The largest object number handed out.
    pub max_id: u32,
    /// The new object number of each source object met so far.
    pub memo: HashMap<u64, u32>,
    /// The depth at which each of them is copied.
    pub depths: Ghost<Map<u64, int>>,
    /// The finished objects of the new document.
    pub objects: Vec<Numbered>,
}

/// No identifier twice.
pub open spec fn distinct_ids(objects: Seq<Numbered>) -> bool {
    forall|i: int, j: int|
        0 <= i < j < objects.len() ==> (#[trigger] objects[i]).id != (#[trigger] objects[j]).id
}

impl Copier {
    /// What holds throughout: identifiers are handed out once; every source object met so far
    /// has a number of its own, can be met, and has the depth on record at which it was met; and
    /// every one whose copy is not still under way has its copy among the finished objects.
    pub open spec fn consistent(self, document: Document, frame: Frame) -> bool {
        &&& forall|id: ObjectId|
            self.memo@.contains_key(#[trigger] packed(id)) && !frame.pending.contains(packed(id))
                ==> settled(document, self.memo@, self.depths@, self.objects@, id)
        &&& forall|id: ObjectId|
            self.memo@.contains_key(#[trigger] packed(id)) ==> depth_earned(
                document,
                frame.pages,
                self.memo@,
                self.depths@,
                id,
            )
        &&& forall|k: u64| #[trigger]
            self.memo@.contains_key(k) ==> 1 <= self.memo@[k] <= self.max_id
                && frame.world.contains(k)
        &&& forall|j: u64, k: u64|
            #![trigger self.memo@[j], self.memo@[k]]
            self.memo@.contains_key(j) && self.memo@.contains_key(k) && self.memo@[j]
                == self.memo@[k] ==> j == k
        &&& forall|i: int|
            0 <= i < self.objects@.len() ==> (#[trigger] self.objects@[i]).id.generation == 0 && 1
                <= self.objects@[i].id.number <= self.max_id && !frame.reserved.contains(
                self.objects@[i].id.number,
            )
        &&& distinct_ids(self.objects@)
        &&& forall|k: u64| #[trigger]
            frame.pending.contains(k) ==> self.memo@.contains_key(k) && frame.reserved.contains(
                self.memo@[k],
            )
        &&& forall|n: u32| #[trigger] frame.reserved.contains(n) ==> 1 <= n <= self.max_id
        &&& self.memo@.dom().finite()
        &&& self.max_id == self.memo@.dom().len() + frame.extra
    }

    /// `self` is a later state of the same copy as `earlier`.
    pub open spec fn extends(self, earlier: Copier) -> bool {
        &&& earlier.max_id <= self.max_id
        &&& kept_in(earlier.memo@, self.memo@)
        &&& depths_kept(earlier.memo@, earlier.depths@, self.depths@)
        &&& earlier.objects@.len() <= self.objects@.len()
        &&& forall|i: int|
            0 <= i < earlier.objects@.len() ==> earlier.objects@[i] == #[trigger] self.objects@[i]
    }

    /// Hand out the next object number, or nothing when they have run out.
    fn fresh(&mut self) -> (r: Option<u32>)
        ensures
            final(self).memo == old(self).memo,
            final(self).depths == old(self).depths,
            final(self).objects == old(self).objects,
            match r {
                Some(n) => old(self).max_id < LAST_OBJECT_NUMBER && n == old(self).max_id + 1
                    && final(self).max_id == n,
                None => old(self).max_id >= LAST_OBJECT_NUMBER && *final(self) == *old(self),
            },
    {
        if self.max_id >= LAST_OBJECT_NUMBER {
            None
        } else {
            self.max_id = self.max_id + 1;
            Some(self.max_id)
        }
    }
}

/// A finite set is no smaller than a set within it.
proof fn met_at_most(met: Set<u64>, world: Set<u64>)
    requires
        met.finite(),
        forall|k: u64| #[trigger] met.contains(k) ==> world.contains(k),
    ensures
        world.finite() ==> met.len() <= world.len(),
{
    if world.finite() {
        vstd::set_lib::lemma_len_subset(met, world);
    }
}

/// Deep-copy an object, translating object identifiers.
///
/// A new number is recorded before its target is copied, so reference cycles terminate.
/// References that do not resolve become null rather than failing the whole split. `None`
/// means the object numbers have run out.
fn copy_object(
    document: &Document,
    state: &mut Copier,
    object: Object,
    depth: u32,
    Ghost(frame): Ghost<Frame>,
) -> (r: Option<Object>)
    requires
        depth <= COPY_DEPTH + 1,
        closed_under_references(*document, frame.world),
        refers_within(object, frame.world, depth as int),
        old(state).consistent(*document, frame),
        met_at(
            *document,
            frame.pages,
            old(state).memo@,
            old(state).depths@,
            object,
            depth as int,
            old(state).max_id + 1,
        ),
    ensures
        match r {
            Some(to) => final(state).consistent(*document, frame) && final(state).extends(
                *old(state),
            ) && copied(final(state).memo@, object, to, depth as int),
            None => frame.crowded(),
        },
    decreases 66 - depth, 0int,
{
    if depth > COPY_DEPTH {
        return Some(close_layer(Layer::Null));
    }
    let ghost start = *state;
    match open_object(object) {
        Layer::Reference(id) => {
            let key: u64 = pack(id);
            if let Some(number) = state.memo.get(&key) {
                return Some(
                    close_layer(Layer::Reference(ObjectId { number: *number, generation: 0 })),
                );
            }
            let number: u32 = match state.fresh() {
                Some(n) => n,
                None => {
                    proof {
                        met_at_most(start.memo@.dom().insert(key), frame.world);
                    }
                    return None;
                },
            };
            state.memo.insert(key, number);
            state.depths = Ghost(state.depths@.insert(key, depth + 1));
            let ghost inner = Frame {
                pending: frame.pending.insert(key),
                reserved: frame.reserved.insert(number),
                ..frame
            };
            proof {
                assert(kept_in(start.memo@, state.memo@));
                assert(depths_kept(start.memo@, start.depths@, state.depths@));
                assert forall|other: ObjectId|
                    state.memo@.contains_key(#[trigger] packed(other)) && !inner.pending.contains(
                        packed(other),
                    ) implies settled(
                    *document,
                    state.memo@,
                    state.depths@,
                    state.objects@,
                    other,
                ) by {
                    settled_grows(
                        *document,
                        start.memo@,
                        state.memo@,
                        start.depths@,
                        state.depths@,
                        start.objects@,
                        state.objects@,
                        other,
                    );
                }
                assert forall|other: ObjectId|
                    state.memo@.contains_key(#[trigger] packed(other)) implies depth_earned(
                    *document,
                    frame.pages,
                    state.memo@,
                    state.depths@,
                    other,
                ) by {
                    if packed(other) == key {
                        assert(other == id);
                        depth_earned_now(
                            *document,
                            frame.pages,
                            start.memo@,
                            start.depths@,
                            object,
                            id,
                            number,
                            depth as int,
                        );
                    } else {
                        depth_earned_grows(
                            *document,
                            frame.pages,
                            start.memo@,
                            state.memo@,
                            start.depths@,
                            state.depths@,
                            other,
                        );
                    }
                }
                assert(state.consistent(*document, inner));
            }
            let target: Option<Object> = document_object(document, id);
            proof {
                if target is Some {
                    met_target(
                        *document,
                        frame.pages,
                        state.memo@,
                        state.depths@,
                        id,
                        state.max_id + 1,
                    );
                }
            }
            let copy: Object = match target {
                Some(found) => match copy_object(
                    document,
                    state,
                    found,
                    depth + 1,
                    Ghost(inner),
                ) {
                    Some(to) => to,
                    None => {
                        return None;
                    },
                },
                None => close_layer(Layer::Null),
            };
            let ghost middle = *state;
            assert(middle.memo@.contains_key(key) && middle.memo@[key] == number);
            let new_id = ObjectId { number, generation: 0 };
            state.objects.push(Numbered { id: new_id, object: copy });
            proof {
                let k = middle.objects@.len() as int;
                assert(state.objects@[k] == (Numbered { id: new_id, object: copy }));
                let made_at = depth + 1;
                assert(target_copied(
                    *document,
                    state.memo@,
                    id,
                    state.objects@[k].object,
                    made_at,
                ));
                assert(state.memo@[packed(id)] == number);
                assert(state.depths@[packed(id)] == made_at);
                assert(settled_at(*document, state.memo@, state.depths@, state.objects@, id, k));
                assert forall|other: ObjectId|
                    state.memo@.contains_key(#[trigger] packed(other)) && !frame.pending.contains(
                        packed(other),
                    ) implies settled(
                    *document,
                    state.memo@,
                    state.depths@,
                    state.objects@,
                    other,
                ) by {
                    if packed(other) == key {
                        assert(other == id);
                    } else {
                        settled_grows(
                            *document,
                            middle.memo@,
                            state.memo@,
                            middle.depths@,
                            state.depths@,
                            middle.objects@,
                            state.objects@,
                            other,
                        );
                    }
                }
                assert forall|i: int, j: int|
                    0 <= i < j < state.objects@.len() implies (#[trigger] state.objects@[i]).id != (
                #[trigger] state.objects@[j]).id by {
                    assert(state.objects@[i] == middle.objects@[i]);
                    if j < k {
                        assert(state.objects@[j] == middle.objects@[j]);
                    }
                }
                assert(state.consistent(*document, frame));
                assert(state.extends(start));
            }
            Some(close_layer(Layer::Reference(new_id)))
        },
        Layer::Array(items) => {
            assert forall|i: int| 0 <= i < items@.len() implies refers_within(
                #[trigger] items@[i],
                frame.world,
                depth + 1,
            ) by {
                assert(layer_of(object) == LayerModel::Array(items@));
                assert(layer_of(object)->Array_0[i] == items@[i]);
            }
            proof {
                items_met_below(
                    *document,
                    frame.pages,
                    state.memo@,
                    state.depths@,
                    object,
                    items@,
                    depth as int,
                    state.max_id + 1,
                );
            }
            match copy_items(
                document,
                state,
                items,
                depth + 1,
                Ghost(frame),
            ) {
                Some(to) => Some(close_layer(Layer::Array(to))),
                None => None,
            }
        },
        Layer::Dictionary(entries) => {
            let ghost from = entry_models(entries@);
            proof {
                entries_met_below(
                    *document,
                    frame.pages,
                    state.memo@,
                    state.depths@,
                    object,
                    from,
                    depth as int,
                    state.max_id + 1,
                );
            }
            match copy_entries(
                document,
                state,
                entries,
                depth + 1,
                Ghost(frame),
            ) {
                Some(to) => {
                    proof {
                        same_keys_stay_distinct(from, entry_models(to@));
                    }
                    Some(close_layer(Layer::Dictionary(to)))
                },
                None => None,
            }
        },
        Layer::Stream(entries, body) => {
            let ghost from = entry_models(entries@);
            proof {
                entries_met_below(
                    *document,
                    frame.pages,
                    state.memo@,
                    state.depths@,
                    object,
                    from,
                    depth as int,
                    state.max_id + 1,
                );
            }
            match copy_entries(
                document,
                state,
                entries,
                depth + 1,
                Ghost(frame),
            ) {
                Some(to) => {
                    proof {
                        same_keys_stay_distinct(from, entry_models(to@));
                    }
                    Some(close_layer(Layer::Stream(to, body)))
                },
                None => None,
            }
        },
        leaf => Some(close_layer(leaf)),
    }
}

/// Entries with the same keys in the same places have distinct keys together.
proof fn same_keys_stay_distinct(from: Seq<(Seq<u8>, Object)>, to: Seq<(Seq<u8>, Object)>)
    requires
        distinct_keys(from),
        from.len() == to.len(),
        forall|i: int| 0 <= i < from.len() ==> (#[trigger] to[i]).0 == from[i].0,
    ensures
        distinct_keys(to),
{
    assert forall|i: int, j: int| 0 <= i < j < to.len() implies (#[trigger] to[i]).0 != (
    #[trigger] to[j]).0 by {
        assert(from[i].0 != from[j].0);
    }
}

fn copy_items(
    document: &Document,
    state: &mut Copier,
    items: Vec<Object>,
    depth: u32,
    Ghost(frame): Ghost<Frame>,
) -> (r: Option<Vec<Object>>)
    requires
        depth <= COPY_DEPTH + 1,
        closed_under_references(*document, frame.world),
        forall|i: int|
            0 <= i < items@.len() ==> refers_within(
                #[trigger] items@[i],
                frame.world,
                depth as int,
            ),
        old(state).consistent(*document, frame),
        forall|i: int|
            0 <= i < items@.len() ==> met_at(
                *document,
                frame.pages,
                old(state).memo@,
                old(state).depths@,
                #[trigger] items@[i],
                depth as int,
                old(state).max_id + 1,
            ),
    ensures
        match r {
            Some(to) => final(state).consistent(*document, frame) && final(state).extends(
                *old(state),
            ) && items_copied(final(state).memo@, items@, to@, depth as int),
            None => frame.crowded(),
        },
    decreases 66 - depth, 1int,
{
    let ghost start = *state;
    let mut out: Vec<Object> = Vec::new();
    for item in it: items
        invariant
            depth <= COPY_DEPTH + 1,
            closed_under_references(*document, frame.world),
            forall|i: int|
                0 <= i < items@.len() ==> refers_within(
                    #[trigger] items@[i],
                    frame.world,
                    depth as int,
                ),
            it.seq() == items@,
            start == *old(state),
            state.consistent(*document, frame),
            state.extends(start),
            items_copied(state.memo@, items@.take(it.index() as int), out@, depth as int),
            forall|i: int|
                0 <= i < items@.len() ==> met_at(
                    *document,
                    frame.pages,
                    state.memo@,
                    state.depths@,
                    #[trigger] items@[i],
                    depth as int,
                    state.max_id + 1,
                ),
    {
        let ghost before = *state;
        let ghost done = items@.take(it.index() as int);
        let ghost copies = out@;
        match copy_object(document, state, item, depth, Ghost(frame)) {
            Some(to) => {
                proof {
                    items_copied_grows(before.memo@, state.memo@, done, copies, depth as int);
                    assert forall|i: int| 0 <= i < items@.len() implies met_at(
                        *document,
                        frame.pages,
                        state.memo@,
                        state.depths@,
                        #[trigger] items@[i],
                        depth as int,
                        state.max_id + 1,
                    ) by {
                        met_at_grows(
                            *document,
                            frame.pages,
                            before.memo@,
                            state.memo@,
                            before.depths@,
                            state.depths@,
                            items@[i],
                            depth as int,
                            before.max_id + 1,
                            state.max_id + 1,
                        );
                    }
                    assert(items@.take(it.index() + 1) =~= done.push(item));
                }
                out.push(to);
            },
            None => {
                return None;
            },
        }
    }
    assert(items@.take(items@.len() as int) =~= items@);
    Some(out)
}

/// Copy every value at `depth`, under its own key.
fn copy_entries(
    document: &Document,
    state: &mut Copier,
    entries: Vec<Entry>,
    depth: u32,
    Ghost(frame): Ghost<Frame>,
) -> (r: Option<Vec<Entry>>)
    requires
        depth <= COPY_DEPTH + 1,
        closed_under_references(*document, frame.world),
        entries_refer_within(entry_models(entries@), frame.world, depth as int),
        old(state).consistent(*document, frame),
        entries_met(
            *document,
            frame.pages,
            old(state).memo@,
            old(state).depths@,
            entry_models(entries@),
            depth as int,
            old(state).max_id + 1,
        ),
    ensures
        match r {
            Some(to) => final(state).consistent(*document, frame) && final(state).extends(
                *old(state),
            ) && entries_copied(
                final(state).memo@,
                entry_models(entries@),
                entry_models(to@),
                depth as int,
            ),
            None => frame.crowded(),
        },
    decreases 66 - depth, 1int,
{
    let ghost start = *state;
    let ghost all = entry_models(entries@);
    let mut out: Vec<Entry> = Vec::new();
    for entry in it: entries
        invariant
            depth <= COPY_DEPTH + 1,
            closed_under_references(*document, frame.world),
            entries_refer_within(all, frame.world, depth as int),
            it.seq() == entries@,
            all == entry_models(entries@),
            start == *old(state),
            state.consistent(*document, frame),
            state.extends(start),
            entries_copied(
                state.memo@,
                all.take(it.index() as int),
                entry_models(out@),
                depth as int,
            ),
            entries_met(
                *document,
                frame.pages,
                state.memo@,
                state.depths@,
                all,
                depth as int,
                state.max_id + 1,
            ),
    {
        let ghost before = *state;
        let ghost done = all.take(it.index() as int);
        let ghost copies = entry_models(out@);
        let ghost source = entry_model(entry);
        assert(all[it.index() as int] == source);
        let key: Vec<u8> = entry.key;
        match copy_object(document, state, entry.value, depth, Ghost(frame)) {
            Some(to) => {
                proof {
                    entries_copied_grows(before.memo@, state.memo@, done, copies, depth as int);
                    assert forall|i: int| 0 <= i < all.len() implies met_at(
                        *document,
                        frame.pages,
                        state.memo@,
                        state.depths@,
                        (#[trigger] all[i]).1,
                        depth as int,
                        state.max_id + 1,
                    ) by {
                        met_at_grows(
                            *document,
                            frame.pages,
                            before.memo@,
                            state.memo@,
                            before.depths@,
                            state.depths@,
                            all[i].1,
                            depth as int,
                            before.max_id + 1,
                            state.max_id + 1,
                        );
                    }
                    assert(all.take(it.index() + 1) =~= done.push(source));
                }
                let ghost earlier = out@;
                out.push(Entry { key, value: to });
                assert(entry_models(out@) =~= copies.push((source.0, to)));
            },
            None => {
                return None;
            },
        }
    }
    assert(all.take(all.len() as int) =~= all);
    Some(out)
}

proof fn position_is(entries: Seq<(Seq<u8>, Object)>, key: Seq<u8>, at: int)
    requires
        0 <= at <= entries.len(),
        forall|i: int| 0 <= i < at ==> (#[trigger] entries[i]).0 != key,
        at < entries.len() ==> entries[at].0 == key,
    ensures
        position(entries, key) == at,
    decreases entries.len(),
{
    if at > 0 {
        let rest = entries.subrange(1, entries.len() as int);
        assert(entries[0].0 != key);
        assert forall|i: int| 0 <= i < at - 1 implies (#[trigger] rest[i]).0 != key by {
            assert(rest[i] == entries[i + 1]);
        }
        if at < entries.len() {
            assert(rest[at - 1] == entries[at]);
        }
        position_is(rest, key, at - 1);
    }
}

fn same_bytes(a: &Vec<u8>, b: &Vec<u8>) -> (r: bool)
    ensures
        r == (a@ == b@),
{
    if a.len() != b.len() {
        return false;
    }
    let mut i: usize = 0;
    while i < a.len()
        invariant
            i <= a@.len() == b@.len(),
            forall|k: int| 0 <= k < i ==> a@[k] == b@[k],
        decreases a@.len() - i,
    {
        if a[i] != b[i] {
            return false;
        }
        i += 1;
    }
    assert(a@ =~= b@);
    true
}

fn find_entry(entries: &Vec<Entry>, key: &Vec<u8>) -> (r: usize)
    ensures
        r <= entries@.len(),
        r == position(entry_models(entries@), key@),
        r < entries@.len() ==> entry_models(entries@)[r as int].0 == key@,
        r == entries@.len() ==> forall|i: int|
            0 <= i < entries@.len() ==> (#[trigger] entry_models(entries@)[i]).0 != key@,
{
    let ghost models = entry_models(entries@);
    let mut i: usize = 0;
    while i < entries.len()
        invariant
            i <= entries@.len(),
            models == entry_models(entries@),
            forall|k: int| 0 <= k < i ==> (#[trigger] models[k]).0 != key@,
        decreases entries@.len() - i,
    {
        assert(models[i as int] == entry_model(entries@[i as int]));
        if same_bytes(&entries[i].key, key) {
            proof {
                position_is(models, key@, i as int);
            }
            return i;
        }
        i += 1;
    }
    proof {
        position_is(models, key@, models.len() as int);
    }
    i
}

/// The value of `key`, if it is there.
pub open spec fn value_of(entries: Seq<(Seq<u8>, Object)>, key: Seq<u8>) -> Option<Object> {
    if position(entries, key) < entries.len() {
        Some(entries[position(entries, key)].1)
    } else {
        None
    }
}

/// Set `key` to `value`.
fn set_entry(entries: &mut Vec<Entry>, key: Vec<u8>, value: Object)
    requires
        distinct_keys(entry_models(old(entries)@)),
    ensures
        entry_models(final(entries)@) == with_entry(
            entry_models(old(entries)@),
            key@,
            value,
        ),
        distinct_keys(entry_models(final(entries)@)),
{
    let ghost before = entry_models(entries@);
    let at: usize = find_entry(entries, &key);
    let ghost name = key@;
    if at < entries.len() {
        entries.set(at, Entry { key, value });
        assert(entry_models(entries@) =~= before.update(at as int, (name, value)));
        proof {
            same_keys_stay_distinct(before, entry_models(entries@));
        }
    } else {
        entries.push(Entry { key, value });
        assert(entry_models(entries@) =~= before.push((name, value)));
    }
}

/// The entries of a page that are copied: all but its parent, which the new page tree
/// replaces, and its annotations, which routinely refer to pages outside the subset and would
/// drag most of the source document along.
pub open spec fn kept_entries(entries: Seq<(Seq<u8>, Object)>) -> Seq<(Seq<u8>, Object)>
    decreases entries.len(),
{
    if entries.len() == 0 {
        Seq::empty()
    } else {
        let rest = kept_entries(entries.drop_last());
        let last = entries.last();
        if last.0 == "Parent".spec_bytes() || last.0 == "Annots".spec_bytes() {
            rest
        } else {
            rest.push(last)
        }
    }
}

proof fn kept_entries_are_entries(entries: Seq<(Seq<u8>, Object)>)
    ensures
        forall|i: int|
            0 <= i < kept_entries(entries).len() ==> exists|k: int|
                0 <= k < entries.len() && #[trigger] entries[k] == #[trigger] kept_entries(
                    entries,
                )[i],
        distinct_keys(entries) ==> distinct_keys(kept_entries(entries)),
    decreases entries.len(),
{
    if entries.len() > 0 {
        let rest = entries.drop_last();
        let kept = kept_entries(rest);
        let all = kept_entries(entries);
        kept_entries_are_entries(rest);
        assert forall|i: int| 0 <= i < all.len() implies exists|k: int|
            0 <= k < entries.len() && #[trigger] entries[k] == #[trigger] all[i] by {
            if i < kept.len() {
                let k = choose|k: int| 0 <= k < rest.len() && #[trigger] rest[k] == kept[i];
                assert(entries[k] == all[i]);
            } else {
                assert(entries[entries.len() - 1] == all[i]);
            }
        }
        if distinct_keys(entries) {
            assert(distinct_keys(rest)) by {
                assert forall|i: int, j: int| 0 <= i < j < rest.len() implies (#[trigger] rest[i]).0
                    != (#[trigger] rest[j]).0 by {
                    assert(entries[i].0 != entries[j].0);
                }
            }
            assert forall|i: int, j: int| 0 <= i < j < all.len() implies (#[trigger] all[i]).0 != (
            #[trigger] all[j]).0 by {
                if j < kept.len() {
                    assert(kept[i].0 != kept[j].0);
                } else {
                    let k = choose|k: int| 0 <= k < rest.len() && #[trigger] rest[k] == kept[i];
                    assert(entries[k].0 != entries[entries.len() - 1].0);
                }
            }
        }
    }
}

/// The value an attribute has on a page or, failing that, on the nearest of its first `left`
/// ancestors that has it.
pub open spec fn inherited_value(
    document: Document,
    id: ObjectId,
    key: Seq<u8>,
    left: nat,
) -> Option<Object>
    decreases left,
{
    if left == 0 {
        None
    } else {
        match dictionary_at(document, id) {
            Err(_) => None,
            Ok(entries) => match value_of(entries, key) {
                Some(value) => Some(value),
                None => match value_of(entries, "Parent".spec_bytes()) {
                    Some(parent) => match layer_of(parent) {
                        LayerModel::Reference(up) => inherited_value(
                            document,
                            up,
                            key,
                            (left - 1) as nat,
                        ),
                        _ => None,
                    },
                    None => None,
                },
            },
        }
    }
}

/// Find an inheritable attribute on a page or, failing that, on its ancestors.
fn inherited(document: &Document, page_id: ObjectId, key: &Vec<u8>) -> (r: Option<Object>)
    ensures
        r == inherited_value(*document, page_id, key@, ANCESTOR_LIMIT as nat),
{
    let mut current: ObjectId = page_id;
    let mut left: u32 = ANCESTOR_LIMIT;
    let parent_key: Vec<u8> = "Parent".as_bytes_vec();
    while left > 0
        invariant
            parent_key@ == "Parent".spec_bytes(),
            inherited_value(*document, page_id, key@, ANCESTOR_LIMIT as nat) == inherited_value(
                *document,
                current,
                key@,
                left as nat,
            ),
        decreases left,
    {
        match document_dictionary(document, current) {
            Err(_) => {
                return None;
            },
            Ok(entries) => {
                let ghost models = entry_models(entries@);
                let mut entries: Vec<Entry> = entries;
                let at: usize = find_entry(&entries, key);
                if at < entries.len() {
                    assert(models[at as int] == entry_model(entries@[at as int]));
                    return Some(entries.swap_remove(at).value);
                }
                let up: usize = find_entry(&entries, &parent_key);
                if up >= entries.len() {
                    return None;
                }
                assert(models[up as int] == entry_model(entries@[up as int]));
                match open_object(entries.swap_remove(up).value) {
                    Layer::Reference(id) => {
                        current = id;
                    },
                    _ => {
                        return None;
                    },
                }
            },
        }
        left = left - 1;
    }
    None
}

/// `entries` with an attribute the page inherits, when it has none of its own.
pub open spec fn with_inherited(
    document: Document,
    page_id: ObjectId,
    entries: Seq<(Seq<u8>, Object)>,
    key: Seq<u8>,
) -> Seq<(Seq<u8>, Object)> {
    if position(entries, key) < entries.len() {
        entries
    } else {
        match inherited_value(document, page_id, key, ANCESTOR_LIMIT as nat) {
            Some(value) => entries.push((key, value)),
            None => entries,
        }
    }
}

fn add_inherited(document: &Document, page_id: ObjectId, entries: &mut Vec<Entry>, key: Vec<u8>)
    requires
        distinct_keys(entry_models(old(entries)@)),
    ensures
        entry_models(final(entries)@) == with_inherited(
            *document,
            page_id,
            entry_models(old(entries)@),
            key@,
        ),
        distinct_keys(entry_models(final(entries)@)),
{
    let ghost before = entry_models(entries@);
    let at: usize = find_entry(entries, &key);
    if at >= entries.len() {
        if let Some(value) = inherited(document, page_id, &key) {
            let ghost name = key@;
            entries.push(Entry { key, value });
            assert(entry_models(entries@) =~= before.push((name, value)));
        }
    }
}

/// What a page of the subset is copied from: its own entries but for the dropped ones, and the
/// attributes it inherits.
pub open spec fn page_source(
    document: Document,
    page_id: ObjectId,
    entries: Seq<(Seq<u8>, Object)>,
) -> Seq<(Seq<u8>, Object)> {
    let own = kept_entries(entries);
    let a = with_inherited(document, page_id, own, "MediaBox".spec_bytes());
    let b = with_inherited(document, page_id, a, "Resources".spec_bytes());
    let c = with_inherited(document, page_id, b, "CropBox".spec_bytes());
    with_inherited(document, page_id, c, "Rotate".spec_bytes())
}

fn page_entries(document: &Document, page_id: ObjectId, entries: Vec<Entry>) -> (r: Vec<Entry>)
    requires
        distinct_keys(entry_models(entries@)),
    ensures
        entry_models(r@) == page_source(*document, page_id, entry_models(entries@)),
        distinct_keys(entry_models(r@)),
{
    let ghost all = entry_models(entries@);
    let parent_key: Vec<u8> = "Parent".as_bytes_vec();
    let annots_key: Vec<u8> = "Annots".as_bytes_vec();
    let mut out: Vec<Entry> = Vec::new();
    assert(entry_models(out@) =~= kept_entries(all.take(0)));
    for entry in it: entries
        invariant
            it.seq() == entries@,
            all == entry_models(entries@),
            parent_key@ == "Parent".spec_bytes(),
            annots_key@ == "Annots".spec_bytes(),
            entry_models(out@) == kept_entries(all.take(it.index() as int)),
    {
        let ghost before = entry_models(out@);
        proof {
            assert(all.take(it.index() + 1).drop_last() =~= all.take(it.index() as int));
            assert(all.take(it.index() + 1).last() == entry_model(entry));
        }
        if !same_bytes(&entry.key, &parent_key) && !same_bytes(&entry.key, &annots_key) {
            out.push(entry);
            assert(entry_models(out@) =~= before.push(entry_model(entry)));
        }
    }
    assert(all.take(all.len() as int) =~= all);
    proof {
        kept_entries_are_entries(all);
    }
    add_inherited(document, page_id, &mut out, "MediaBox".as_bytes_vec());
    add_inherited(document, page_id, &mut out, "Resources".as_bytes_vec());
    add_inherited(document, page_id, &mut out, "CropBox".as_bytes_vec());
    add_inherited(document, page_id, &mut out, "Rotate".as_bytes_vec());
    out
}

/// `entries` is a page dictionary of the subset: the copy of the page's source entries, with
/// its type set and the new page tree as its parent.
pub open spec fn page_dictionary_built(
    document: Document,
    memo: Map<u64, u32>,
    page_id: ObjectId,
    parent: ObjectId,
    base: Seq<(Seq<u8>, Object)>,
    entries: Seq<(Seq<u8>, Object)>,
) -> bool {
    &&& dictionary_at(document, page_id) is Ok
    &&& entries_copied(
        memo,
        page_source(document, page_id, dictionary_at(document, page_id)->Ok_0),
        base,
        0,
    )
    &&& exists|kind: Object, up: Object|
        layer_of(kind) == LayerModel::Name("Page".spec_bytes()) && layer_of(up)
            == LayerModel::Reference(parent) && entries == #[trigger] with_entry(
            #[trigger] with_entry(base, "Type".spec_bytes(), kind),
            "Parent".spec_bytes(),
            up,
        )
}

/// `object` is the copy of page `page_id` in a document whose page tree is `parent`.
pub open spec fn page_built(
    document: Document,
    memo: Map<u64, u32>,
    page_id: ObjectId,
    parent: ObjectId,
    object: Object,
) -> bool {
    layer_of(object) is Dictionary && exists|base: Seq<(Seq<u8>, Object)>| #[trigger]
        page_dictionary_built(
            document,
            memo,
            page_id,
            parent,
            base,
            layer_of(object)->Dictionary_0,
        )
}

/// Position `k` holds the copy of page `page_id`, under the identifier `kid`.
pub open spec fn page_placed_at(
    document: Document,
    memo: Map<u64, u32>,
    objects: Seq<Numbered>,
    page_id: ObjectId,
    parent: ObjectId,
    kid: ObjectId,
    k: int,
) -> bool {
    &&& 0 <= k < objects.len()
    &&& objects[k].id == kid
    &&& page_built(document, memo, page_id, parent, objects[k].object)
}

/// The copy of page `page_id` is among `objects`, under the identifier `kid`.
pub open spec fn page_placed(
    document: Document,
    memo: Map<u64, u32>,
    objects: Seq<Numbered>,
    page_id: ObjectId,
    parent: ObjectId,
    kid: ObjectId,
) -> bool {
    exists|k: int| #[trigger]
        page_placed_at(document, memo, objects, page_id, parent, kid, k)
}

proof fn page_placed_grows(
    document: Document,
    memo: Map<u64, u32>,
    more: Map<u64, u32>,
    objects: Seq<Numbered>,
    longer: Seq<Numbered>,
    page_id: ObjectId,
    parent: ObjectId,
    kid: ObjectId,
)
    requires
        kept_in(memo, more),
        objects.len() <= longer.len(),
        forall|i: int| 0 <= i < objects.len() ==> objects[i] == #[trigger] longer[i],
        page_placed(document, memo, objects, page_id, parent, kid),
    ensures
        page_placed(document, more, longer, page_id, parent, kid),
{
    let k = choose|k: int| #[trigger]
        page_placed_at(document, memo, objects, page_id, parent, kid, k);
    assert(longer[k] == objects[k]);
    let entries = layer_of(objects[k].object)->Dictionary_0;
    let base = choose|base: Seq<(Seq<u8>, Object)>| #[trigger]
        page_dictionary_built(document, memo, page_id, parent, base, entries);
    entries_copied_grows(
        memo,
        more,
        page_source(document, page_id, dictionary_at(document, page_id)->Ok_0),
        base,
        0,
    );
    assert(page_dictionary_built(document, more, page_id, parent, base, entries));
    assert(page_placed_at(document, more, longer, page_id, parent, kid, k));
}

/// Add one finished object under a number that was handed out for it.
fn place(
    state: &mut Copier,
    number: u32,
    object: Object,
    Ghost(document): Ghost<Document>,
    Ghost(frame): Ghost<Frame>,
)
    requires
        frame.pending == Set::<u64>::empty(),
        old(state).consistent(
            document,
            (Frame { reserved: frame.reserved.insert(number), ..frame }),
        ),
        !frame.reserved.contains(number),
    ensures
        final(state).consistent(document, frame),
        final(state).extends(*old(state)),
        final(state).max_id == old(state).max_id,
        final(state).memo == old(state).memo,
        final(state).depths == old(state).depths,
        final(state).objects@ == old(state).objects@.push(
            Numbered { id: ObjectId { number, generation: 0 }, object },
        ),
{
    let ghost before = *state;
    let ghost wider = Frame { reserved: frame.reserved.insert(number), ..frame };
    state.objects.push(Numbered { id: ObjectId { number, generation: 0 }, object });
    proof {
        let n = before.objects@.len() as int;
        assert(wider.reserved.contains(number));
        assert forall|id: ObjectId| state.memo@.contains_key(#[trigger] packed(id)) implies settled(
            document,
            state.memo@,
            state.depths@,
            state.objects@,
            id,
        ) by {
            assert(!frame.pending.contains(packed(id)));
            settled_grows(
                document,
                before.memo@,
                state.memo@,
                before.depths@,
                state.depths@,
                before.objects@,
                state.objects@,
                id,
            );
        }
        assert forall|i: int, j: int|
            0 <= i < j < state.objects@.len() implies (#[trigger] state.objects@[i]).id != (
        #[trigger] state.objects@[j]).id by {
            assert(state.objects@[i] == before.objects@[i]);
            assert(!wider.reserved.contains(before.objects@[i].id.number));
            if j < n {
                assert(state.objects@[j] == before.objects@[j]);
            }
        }
        assert forall|i: int| 0 <= i < state.objects@.len() implies (
        #[trigger] state.objects@[i]).id.generation == 0 && 1 <= state.objects@[i].id.number
            <= state.max_id && !frame.reserved.contains(state.objects@[i].id.number) by {
            if i < n {
                assert(state.objects@[i] == before.objects@[i]);
                assert(!wider.reserved.contains(before.objects@[i].id.number));
            }
        }
        assert forall|m: u32| #[trigger] frame.reserved.contains(m) implies 1 <= m <= state.max_id by {
            assert(wider.reserved.contains(m));
        }
    }
}

/// Copy one page into the new document and return its identifier there, or nothing when the
/// object numbers have run out.
fn copy_page(
    document: &Document,
    state: &mut Copier,
    page_id: ObjectId,
    entries: Vec<Entry>,
    parent: ObjectId,
    Ghost(frame): Ghost<Frame>,
) -> (r: Option<ObjectId>)
    requires
        frame.pending == Set::<u64>::empty(),
        closed_under_references(*document, frame.world),
        entries_refer_within(
            page_source(*document, page_id, entry_models(entries@)),
            frame.world,
            0,
        ),
        old(state).consistent(*document, frame),
        entries_met(
            *document,
            frame.pages,
            old(state).memo@,
            old(state).depths@,
            page_source(*document, page_id, entry_models(entries@)),
            0,
            old(state).max_id + 1,
        ),
        dictionary_at(*document, page_id) == Ok::<Seq<(Seq<u8>, Object)>, Seq<char>>(
            entry_models(entries@),
        ),
        distinct_keys(entry_models(entries@)),
    ensures
        match r {
            Some(kid) => final(state).consistent(
                *document,
                (Frame { extra: frame.extra + 1, ..frame }),
            ) && final(state).extends(*old(state)) && page_placed(
                *document,
                final(state).memo@,
                final(state).objects@,
                page_id,
                parent,
                kid,
            ),
            None => (Frame { extra: frame.extra + 1, ..frame }).crowded(),
        },
{
    let source: Vec<Entry> = page_entries(document, page_id, entries);
    let ghost from = entry_models(source@);
    let mut copies: Vec<Entry> = match copy_entries(
        document,
        state,
        source,
        0,
        Ghost(frame),
    ) {
        Some(found) => found,
        None => {
            return None;
        },
    };
    let ghost base = entry_models(copies@);
    proof {
        same_keys_stay_distinct(from, base);
    }
    let kind: Object = close_layer(Layer::Name("Page".as_bytes_vec()));
    set_entry(&mut copies, "Type".as_bytes_vec(), kind);
    let up: Object = close_layer(Layer::Reference(parent));
    set_entry(&mut copies, "Parent".as_bytes_vec(), up);
    let ghost built = entry_models(copies@);
    proof {
        assert(built == with_entry(
            with_entry(base, "Type".spec_bytes(), kind),
            "Parent".spec_bytes(),
            up,
        ));
        assert(page_dictionary_built(*document, state.memo@, page_id, parent, base, built));
    }
    let object: Object = close_layer(Layer::Dictionary(copies));
    assert(page_dictionary_built(
        *document,
        state.memo@,
        page_id,
        parent,
        base,
        layer_of(object)->Dictionary_0,
    ));
    assert(page_built(*document, state.memo@, page_id, parent, object));
    let ghost before = *state;
    let number: u32 = match state.fresh() {
        Some(n) => n,
        None => {
            proof {
                met_at_most(before.memo@.dom(), frame.world);
            }
            return None;
        },
    };
    let ghost after = Frame { extra: frame.extra + 1, ..frame };
    proof {
        assert forall|id: ObjectId| state.memo@.contains_key(#[trigger] packed(id)) implies settled(
            *document,
            state.memo@,
            state.depths@,
            state.objects@,
            id,
        ) by {
            assert(!frame.pending.contains(packed(id)));
        }
        assert(!frame.reserved.contains(number));
        assert(state.consistent(
            *document,
            Frame { reserved: frame.reserved.insert(number), ..after },
        ));
    }
    place(state, number, object, Ghost(*document), Ghost(after));
    let kid = ObjectId { number, generation: 0 };
    assert(page_placed_at(
        *document,
        state.memo@,
        state.objects@,
        page_id,
        parent,
        kid,
        before.objects@.len() as int,
    ));
    Some(kid)
}

/// Why a page cannot be kept, or `None` when it can.
pub open spec fn page_fault(document: Document, page: u32) -> Option<Seq<char>> {
    if page == u32::MAX {
        Some("page index "@ + decimal(page as nat) + " overflows"@)
    } else if page >= pages_of(document).len() {
        Some(
            "page "@ + decimal(page as nat) + " is out of range for a "@ + decimal(
                pages_of(document).len(),
            ) + "-page document"@,
        )
    } else {
        match dictionary_at(document, pages_of(document)[page as int]) {
            Err(detail) => Some("page "@ + decimal(page as nat) + ": "@ + detail),
            Ok(_) => None,
        }
    }
}

/// Why the first page that cannot be kept cannot be kept.
pub open spec fn first_page_fault(document: Document, pages: Seq<u32>) -> Option<Seq<char>>
    decreases pages.len(),
{
    if pages.len() == 0 {
        None
    } else {
        match first_page_fault(document, pages.drop_last()) {
            Some(fault) => Some(fault),
            None => page_fault(document, pages.last()),
        }
    }
}

proof fn first_page_fault_stands(document: Document, pages: Seq<u32>, n: int)
    requires
        0 <= n <= pages.len(),
        first_page_fault(document, pages.take(n)) is Some,
    ensures
        first_page_fault(document, pages) == first_page_fault(document, pages.take(n)),
    decreases pages.len() - n,
{
    if n < pages.len() {
        assert(pages.take(n + 1).drop_last() =~= pages.take(n));
        first_page_fault_stands(document, pages, n + 1);
    } else {
        assert(pages.take(n) =~= pages);
    }
}

/// The entries of one page of the source, or why the page cannot be kept.
fn source_page(document: &Document, page_ids: &Vec<ObjectId>, page: u32) -> (r: Result<
    (ObjectId, Vec<Entry>),
    Error,
>)
    requires
        page_ids@ == pages_of(*document),
    ensures
        match page_fault(*document, page) {
            Some(fault) => r is Err && r->Err_0@ == ErrorModel::Split(fault),
            None => r is Ok && page < page_ids@.len() && r->Ok_0.0 == page_ids@[page as int]
                && dictionary_at(*document, page_ids@[page as int]) == Ok::<
                Seq<(Seq<u8>, Object)>,
                Seq<char>,
            >(entry_models(r->Ok_0.1@)) && distinct_keys(entry_models(r->Ok_0.1@)),
        },
{
    if page == u32::MAX {
        let mut text: String = "page index ".to_owned();
        push_decimal(&mut text, page as u64);
        text.append(" overflows");
        return Err(Error::Split(text));
    }
    if page as usize >= page_ids.len() {
        let mut text: String = "page ".to_owned();
        push_decimal(&mut text, page as u64);
        text.append(" is out of range for a ");
        push_decimal(&mut text, page_ids.len() as u64);
        text.append("-page document");
        return Err(Error::Split(text));
    }
    let page_id: ObjectId = page_ids[page as usize];
    match document_dictionary(document, page_id) {
        Ok(entries) => Ok((page_id, entries)),
        Err(detail) => {
            let mut text: String = "page ".to_owned();
            push_decimal(&mut text, page as u64);
            text.append(": ");
            text.append(detail.as_str());
            Err(Error::Split(text))
        },
    }
}

/// The objects of a subset document, and its catalog.
pub struct Subset {
    /// Every object under its identifier.
    pub objects: Vec<Numbered>,
    /// The catalog's identifier.
    pub root: ObjectId,
}

/// `object` refers to `id`.
pub open spec fn refers_to(object: Object, id: ObjectId) -> bool {
    layer_of(object) == LayerModel::Reference(id)
}

/// `object` is a page tree whose leaves are `kids`, in that order.
pub open spec fn is_page_tree(object: Object, kids: Seq<ObjectId>) -> bool {
    &&& layer_of(object) is Dictionary
    &&& {
        let entries = layer_of(object)->Dictionary_0;
        &&& entries.len() == 3
        &&& entries[0].0 == "Type".spec_bytes()
        &&& layer_of(entries[0].1) == LayerModel::Name("Pages".spec_bytes())
        &&& entries[1].0 == "Count".spec_bytes()
        &&& layer_of(entries[1].1) == LayerModel::Integer(kids.len() as i64)
        &&& entries[2].0 == "Kids".spec_bytes()
        &&& layer_of(entries[2].1) is Array
        &&& layer_of(entries[2].1)->Array_0.len() == kids.len()
        &&& forall|i: int|
            0 <= i < kids.len() ==> refers_to(
                #[trigger] layer_of(entries[2].1)->Array_0[i],
                kids[i],
            )
    }
}

/// `object` is a catalog whose page tree is `pages`.
pub open spec fn is_catalog(object: Object, pages: ObjectId) -> bool {
    &&& layer_of(object) is Dictionary
    &&& {
        let entries = layer_of(object)->Dictionary_0;
        &&& entries.len() == 2
        &&& entries[0].0 == "Type".spec_bytes()
        &&& layer_of(entries[0].1) == LayerModel::Name("Catalog".spec_bytes())
        &&& entries[1].0 == "Pages".spec_bytes()
        &&& refers_to(entries[1].1, pages)
    }
}

/// The object with this identifier satisfies `is`.
pub open spec fn placed(objects: Seq<Numbered>, id: ObjectId, is: spec_fn(Object) -> bool) -> bool {
    exists|k: int|
        0 <= k < objects.len() && (#[trigger] objects[k]).id == id && is(objects[k].object)
}

/// These objects are the subset: a catalog, over a page tree, over one copied page per page
/// asked for and in that order, and every source object those pages refer to, copied once, at
/// the depth at which it was met.
pub open spec fn subset_built_with(
    document: Document,
    pages: Seq<u32>,
    objects: Seq<Numbered>,
    root: ObjectId,
    memo: Map<u64, u32>,
    depths: Map<u64, int>,
    tree: ObjectId,
    kids: Seq<ObjectId>,
) -> bool {
    &&& distinct_ids(objects)
    &&& kids.len() == pages.len()
    &&& forall|i: int|
        0 <= i < pages.len() ==> page_placed(
            document,
            memo,
            objects,
            pages_of(document)[#[trigger] pages[i] as int],
            tree,
            kids[i],
        )
    &&& placed(objects, tree, |o: Object| is_page_tree(o, kids))
    &&& placed(objects, root, |o: Object| is_catalog(o, tree))
    &&& forall|id: ObjectId|
        memo.contains_key(#[trigger] packed(id)) ==> settled(
            document,
            memo,
            depths,
            objects,
            id,
        ) && depth_earned(document, pages, memo, depths, id)
    &&& forall|j: u64, k: u64|
        #![trigger memo[j], memo[k]]
        memo.contains_key(j) && memo.contains_key(k) && memo[j] == memo[k] ==> j == k
}

/// These objects are the subset of `document` made of `pages`, in that order.
pub open spec fn subset_built(
    document: Document,
    pages: Seq<u32>,
    objects: Seq<Numbered>,
    root: ObjectId,
) -> bool {
    exists|memo: Map<u64, u32>, depths: Map<u64, int>, tree: ObjectId, kids: Seq<ObjectId>|
        #[trigger]
        subset_built_with(document, pages, objects, root, memo, depths, tree, kids)
}

/// The detail reported when a subset needs more object numbers than there are.
pub const IDS_EXHAUSTED: &'static str = "object numbers exhausted";

/// A page tree node over `kids`.
fn page_tree(kids: &Vec<ObjectId>) -> (r: Object)
    ensures
        is_page_tree(r, kids@),
{
    let mut references: Vec<Object> = Vec::new();
    let mut i: usize = 0;
    while i < kids.len()
        invariant
            i <= kids@.len(),
            references@.len() == i,
            forall|k: int| 0 <= k < i ==> refers_to(#[trigger] references@[k], kids@[k]),
        decreases kids@.len() - i,
    {
        references.push(close_layer(Layer::Reference(kids[i])));
        i += 1;
    }
    let mut entries: Vec<Entry> = Vec::new();
    entries.push(
        Entry {
            key: "Type".as_bytes_vec(),
            value: close_layer(Layer::Name("Pages".as_bytes_vec())),
        },
    );
    entries.push(
        Entry {
            key: "Count".as_bytes_vec(),
            value: close_layer(Layer::Integer(kids.len() as i64)),
        },
    );
    entries.push(
        Entry { key: "Kids".as_bytes_vec(), value: close_layer(Layer::Array(references)) },
    );
    proof {
        names_differ();
        let models = entry_models(entries@);
        assert(models[0] == entry_model(entries@[0]));
        assert(models[1] == entry_model(entries@[1]));
        assert(models[2] == entry_model(entries@[2]));
        assert(distinct_keys(models));
    }
    close_layer(Layer::Dictionary(entries))
}

/// A catalog over the page tree `tree`.
fn catalog(tree: ObjectId) -> (r: Object)
    ensures
        is_catalog(r, tree),
{
    let mut entries: Vec<Entry> = Vec::new();
    entries.push(
        Entry {
            key: "Type".as_bytes_vec(),
            value: close_layer(Layer::Name("Catalog".as_bytes_vec())),
        },
    );
    entries.push(
        Entry { key: "Pages".as_bytes_vec(), value: close_layer(Layer::Reference(tree)) },
    );
    proof {
        names_differ();
        let models = entry_models(entries@);
        assert(models[0] == entry_model(entries@[0]));
        assert(models[1] == entry_model(entries@[1]));
        assert(distinct_keys(models));
    }
    close_layer(Layer::Dictionary(entries))
}

/// The keys of a page tree and of a catalog differ from each other.
proof fn names_differ()
    ensures
        "Type".spec_bytes() != "Count".spec_bytes(),
        "Type".spec_bytes() != "Kids".spec_bytes(),
        "Count".spec_bytes() != "Kids".spec_bytes(),
        "Type".spec_bytes() != "Pages".spec_bytes(),
{
    reveal_strlit("Type");
    reveal_strlit("Count");
    reveal_strlit("Kids");
    reveal_strlit("Pages");
    vstd::string::is_ascii_spec_bytes("Type");
    vstd::string::is_ascii_spec_bytes("Count");
    vstd::string::is_ascii_spec_bytes("Kids");
    vstd::string::is_ascii_spec_bytes("Pages");
    assert("Type".spec_bytes()[0] == 84);
    assert("Kids".spec_bytes()[0] == 75);
    assert("Count".spec_bytes()[0] == 67);
    assert("Pages".spec_bytes()[0] == 80);
}

/// No page of the subset refers out of `world`.
pub open spec fn pages_refer_within(
    document: Document,
    pages: Seq<u32>,
    world: Set<u64>,
) -> bool {
    forall|i: int|
        0 <= i < pages.len() && page_fault(document, #[trigger] pages[i]) is None
            ==> entries_refer_within(
            page_source(
                document,
                pages_of(document)[pages[i] as int],
                dictionary_at(document, pages_of(document)[pages[i] as int])->Ok_0,
            ),
            world,
            0,
        )
}

/// The source objects the subset can meet are in `world`, and there are numbers enough for
/// them, for every page, for the page tree and for the catalog.
pub open spec fn fits_in(document: Document, pages: Seq<u32>, world: Set<u64>) -> bool {
    &&& closed_under_references(document, world)
    &&& pages_refer_within(document, pages, world)
    &&& world.finite()
    &&& world.len() + pages.len() + 2 <= LAST_OBJECT_NUMBER
}

/// The subset needs no more object numbers than there are.
pub open spec fn fits(document: Document, pages: Seq<u32>) -> bool {
    exists|world: Set<u64>| #[trigger] fits_in(document, pages, world)
}

/// Nothing leads out of the set of all source objects.
proof fn everything_is_within_everything(document: Document, pages: Seq<u32>)
    ensures
        closed_under_references(document, Set::full()),
        pages_refer_within(document, pages, Set::full()),
{
    assert forall|object: Object, depth: int| refers_within(object, Set::full(), depth) by {
        anything_refers_within_everything(object, depth);
    }
}

proof fn anything_refers_within_everything(object: Object, depth: int)
    ensures
        refers_within(object, Set::full(), depth),
    decreases 66 - depth,
{
    if depth <= COPY_DEPTH {
        match layer_of(object) {
            LayerModel::Array(items) => {
                assert forall|i: int| 0 <= i < items.len() implies refers_within(
                    #[trigger] items[i],
                    Set::full(),
                    depth + 1,
                ) by {
                    anything_refers_within_everything(items[i], depth + 1);
                }
            },
            LayerModel::Dictionary(entries) => {
                assert forall|i: int| 0 <= i < entries.len() implies refers_within(
                    (#[trigger] entries[i]).1,
                    Set::full(),
                    depth + 1,
                ) by {
                    anything_refers_within_everything(entries[i].1, depth + 1);
                }
            },
            LayerModel::Stream(entries, _) => {
                assert forall|i: int| 0 <= i < entries.len() implies refers_within(
                    (#[trigger] entries[i]).1,
                    Set::full(),
                    depth + 1,
                ) by {
                    anything_refers_within_everything(entries[i].1, depth + 1);
                }
            },
            _ => {},
        }
    }
}

/// Build the objects of the subset of `document` made of `pages`, in that order.
pub fn build_subset(document: &Document, pages: &[u32]) -> (r: Result<Subset, Error>)
    ensures
        match r {
            Ok(subset) => first_page_fault(*document, pages@) is None && subset_built(
                *document,
                pages@,
                subset.objects@,
                subset.root,
            ),
            Err(error) => {
                ||| first_page_fault(*document, pages@) is Some && error@ == ErrorModel::Split(
                    first_page_fault(*document, pages@)->0,
                )
                ||| !fits(*document, pages@) && error@ == ErrorModel::Split(IDS_EXHAUSTED@)
            },
        },
{
    let page_ids: Vec<ObjectId> = document_pages(document);
    let tree = ObjectId { number: 1, generation: 0 };
    let mut state = Copier {
        max_id: 1,
        memo: HashMap::new(),
        depths: Ghost(Map::empty()),
        objects: Vec::new(),
    };
    let ghost world = if fits(*document, pages@) {
        choose|world: Set<u64>| #[trigger] fits_in(*document, pages@, world)
    } else {
        Set::full()
    };
    let ghost frame = Frame {
        pages: pages@,
        pending: Set::empty(),
        reserved: Set::<u32>::empty().insert(1),
        world,
        extra: 1,
    };
    proof {
        if !fits(*document, pages@) {
            everything_is_within_everything(*document, pages@);
        }
    }
    let mut kids: Vec<ObjectId> = Vec::new();
    let mut i: usize = 0;
    assert(state.consistent(*document, frame));
    while i < pages.len()
        invariant
            i <= pages@.len(),
            page_ids@ == pages_of(*document),
            frame.pages == pages@,
            frame.pending == Set::<u64>::empty(),
            frame.reserved == Set::<u32>::empty().insert(1),
            frame.extra == 1,
            closed_under_references(*document, frame.world),
            pages_refer_within(*document, pages@, frame.world),
            fits(*document, pages@) ==> fits_in(*document, pages@, frame.world),
            state.consistent(*document, (Frame { extra: 1 + i, ..frame })),
            kids@.len() == i,
            first_page_fault(*document, pages@.take(i as int)) is None,
            forall|k: int|
                0 <= k < i ==> page_placed(
                    *document,
                    state.memo@,
                    state.objects@,
                    pages_of(*document)[#[trigger] pages@[k] as int],
                    tree,
                    kids@[k],
                ),
        decreases pages@.len() - i,
    {
        let page: u32 = pages[i];
        let ghost before = state;
        proof {
            assert(pages@.take(i + 1).drop_last() =~= pages@.take(i as int));
            assert(pages@.take(i + 1).last() == page);
        }
        let (page_id, entries) = match source_page(document, &page_ids, page) {
            Ok(found) => found,
            Err(error) => {
                proof {
                    first_page_fault_stands(*document, pages@, i + 1);
                }
                return Err(error);
            },
        };
        let ghost here = Frame { extra: 1 + i, ..frame };
        proof {
            met_on_page(
                *document,
                pages@,
                state.memo@,
                state.depths@,
                i as int,
                state.max_id + 1,
            );
        }
        match copy_page(document, &mut state, page_id, entries, tree, Ghost(here)) {
            Some(kid) => {
                let ghost earlier = kids@;
                kids.push(kid);
                proof {
                    assert forall|k: int| 0 <= k < i + 1 implies page_placed(
                        *document,
                        state.memo@,
                        state.objects@,
                        pages_of(*document)[#[trigger] pages@[k] as int],
                        tree,
                        kids@[k],
                    ) by {
                        if k < i {
                            page_placed_grows(
                                *document,
                                before.memo@,
                                state.memo@,
                                before.objects@,
                                state.objects@,
                                pages_of(*document)[pages@[k] as int],
                                tree,
                                earlier[k],
                            );
                        }
                    }
                }
            },
            None => {
                return Err(Error::Split(IDS_EXHAUSTED.to_owned()));
            },
        }
        i += 1;
    }
    assert(pages@.take(pages@.len() as int) =~= pages@);
    let ghost copied_pages = state;
    let node: Object = page_tree(&kids);
    let ghost rest = Frame { reserved: Set::empty(), extra: 1 + pages@.len() as int, ..frame };
    place(&mut state, 1, node, Ghost(*document), Ghost(rest));
    let ghost with_tree = state;
    let number: u32 = match state.fresh() {
        Some(n) => n,
        None => {
            proof {
                met_at_most(with_tree.memo@.dom(), frame.world);
            }
            return Err(Error::Split(IDS_EXHAUSTED.to_owned()));
        },
    };
    let ghost last = Frame { extra: 2 + pages@.len() as int, ..rest };
    let root = ObjectId { number, generation: 0 };
    let cover: Object = catalog(tree);
    proof {
        assert forall|id: ObjectId| state.memo@.contains_key(#[trigger] packed(id)) implies settled(
            *document,
            state.memo@,
            state.depths@,
            state.objects@,
            id,
        ) by {
            assert(!frame.pending.contains(packed(id)));
        }
        assert(state.consistent(
            *document,
            Frame { reserved: Set::<u32>::empty().insert(number), ..last },
        ));
    }
    place(&mut state, number, cover, Ghost(*document), Ghost(last));
    proof {
        assert forall|k: int| 0 <= k < pages@.len() implies page_placed(
            *document,
            state.memo@,
            state.objects@,
            pages_of(*document)[#[trigger] pages@[k] as int],
            tree,
            kids@[k],
        ) by {
            page_placed_grows(
                *document,
                copied_pages.memo@,
                state.memo@,
                copied_pages.objects@,
                state.objects@,
                pages_of(*document)[pages@[k] as int],
                tree,
                kids@[k],
            );
        }
        let n = copied_pages.objects@.len() as int;
        assert(state.objects@[n] == (Numbered { id: tree, object: node }));
        assert(state.objects@[n + 1] == (Numbered { id: root, object: cover }));
        assert(placed(state.objects@, tree, |o: Object| is_page_tree(o, kids@)));
        assert(placed(state.objects@, root, |o: Object| is_catalog(o, tree)));
        assert forall|id: ObjectId| state.memo@.contains_key(#[trigger] packed(id)) implies settled(
            *document,
            state.memo@,
            state.depths@,
            state.objects@,
            id,
        ) by {
            assert(!frame.pending.contains(packed(id)));
        }
        assert(subset_built_with(
            *document,
            pages@,
            state.objects@,
            root,
            state.memo@,
            state.depths@,
            tree,
            kids@,
        ));
    }
    Ok(Subset { objects: state.objects, root })
}

/// The objects by identifier.
pub open spec fn table(objects: Seq<Numbered>) -> Map<ObjectId, Object>
    decreases objects.len(),
{
    if objects.len() == 0 {
        Map::empty()
    } else {
        table(objects.drop_last()).insert(objects.last().id, objects.last().object)
    }
}

proof fn table_is_no_larger(objects: Seq<Numbered>)
    ensures
        table(objects).dom().finite(),
        table(objects).len() <= objects.len(),
    decreases objects.len(),
{
    if objects.len() > 0 {
        table_is_no_larger(objects.drop_last());
        let before = table(objects.drop_last());
        assert(table(objects).dom() =~= before.dom().insert(objects.last().id));
    }
}

proof fn table_holds(objects: Seq<Numbered>, k: int)
    requires
        distinct_ids(objects),
        0 <= k < objects.len(),
    ensures
        table(objects).contains_key(objects[k].id),
        table(objects)[objects[k].id] == objects[k].object,
    decreases objects.len(),
{
    if k < objects.len() - 1 {
        let before = objects.drop_last();
        assert(before[k] == objects[k]);
        assert(distinct_ids(before)) by {
            assert forall|i: int, j: int| 0 <= i < j < before.len() implies (
            #[trigger] before[i]).id != (#[trigger] before[j]).id by {
                assert(before[i] == objects[i] && before[j] == objects[j]);
            }
        }
        table_holds(before, k);
        assert(objects[k].id != objects.last().id);
    }
}

/// `document` is of this version, holds these objects, and its trailer names the catalog and
/// nothing else.
pub open spec fn assembled_from(
    document: Document,
    version: Seq<char>,
    objects: Seq<Numbered>,
    root: ObjectId,
) -> bool {
    &&& version_of(document) == version
    &&& held(document) == table(objects)
    &&& trailer_of(document).len() == 1
    &&& trailer_of(document)[0].0 == "Root".spec_bytes()
    &&& refers_to(trailer_of(document)[0].1, root)
}

/// Put a document together from its objects.
fn assemble(version: &str, objects: Vec<Numbered>, root: ObjectId) -> (r: Document)
    ensures
        assembled_from(r, version@, objects@, root),
{
    let mut document: Document = new_document(version);
    let ghost all = objects@;
    assert(all.take(0) =~= Seq::empty());
    for numbered in it: objects
        invariant
            it.seq() == all,
            version_of(document) == version@,
            trailer_of(document).len() == 0,
            held(document) == table(all.take(it.index() as int)),
    {
        let ghost n = it.index();
        let Numbered { id, object } = numbered;
        set_object(&mut document, id, object);
        proof {
            assert(all.take(n + 1).drop_last() =~= all.take(n as int));
            assert(all.take(n + 1).last() == numbered);
        }
    }
    assert(all.take(all.len() as int) =~= all);
    set_trailer(&mut document, "Root", close_layer(Layer::Reference(root)));
    document
}

/// There are not numbers enough for the objects of a document or, where it has many objects,
/// for its pages.
pub open spec fn overfull(document: Document) -> bool {
    ||| held(document).len() > LAST_SAVED_NUMBER
    ||| held(document).len() > MOST_PAGES && pages_of(document).len() > MOST_PAGES
}

/// `out` is something writing these objects as a document may lead to: the document is put
/// together, what it makes no use of is dropped, and unless that is too much to be numbered, it
/// is numbered anew, compressed and saved, behind the PDF magic number.
pub open spec fn may_write(
    version: Seq<char>,
    objects: Seq<Numbered>,
    root: ObjectId,
    out: Result<Seq<u8>, Seq<char>>,
) -> bool {
    exists|assembled: Document, pruned: Document|
        assembled_from(assembled, version, objects, root) && #[trigger] pruned_from(
            assembled,
            pruned,
        ) && out == (if overfull(pruned) {
            Err(IDS_EXHAUSTED@)
        } else {
            saved(compressed(renumbered(pruned)))
        }) && (out is Ok ==> pdf_magic(out->Ok_0))
}

/// Write these objects as a document.
fn write_document(version: &str, objects: Vec<Numbered>, root: ObjectId) -> (r: Result<
    Vec<u8>,
    String,
>)
    ensures
        may_write(version@, objects@, root, save_outcome(r)),
{
    let ghost all = objects@;
    let mut document: Document = assemble(version, objects, root);
    let ghost assembled = document;
    prune_objects(&mut document);
    let ghost pruned = document;
    proof {
        table_is_no_larger(all);
        let kept = held(pruned).dom();
        assert(kept.subset_of(table(all).dom()));
        vstd::set_lib::lemma_len_subset(kept, table(all).dom());
    }
    let count: usize = object_count(&document);
    let full: bool = count > LAST_SAVED_NUMBER as usize || (count > MOST_PAGES && document_pages(
        &document,
    ).len() > MOST_PAGES);
    if full {
        assert(pruned_from(assembled, pruned));
        return Err(IDS_EXHAUSTED.to_owned());
    }
    renumber_objects(&mut document);
    compress_streams(&mut document);
    let r = save_document(document);
    assert(pruned_from(assembled, pruned));
    r
}

/// `out` is something writing the subset of `document` made of `pages` may come to.
pub open spec fn may_write_subset(
    document: Document,
    pages: Seq<u32>,
    out: Result<Seq<u8>, ErrorModel>,
) -> bool {
    ||| first_page_fault(document, pages) is Some && out == Err::<Seq<u8>, ErrorModel>(
        ErrorModel::Split(first_page_fault(document, pages)->0),
    )
    ||| !fits(document, pages) && out == Err::<Seq<u8>, ErrorModel>(
        ErrorModel::Split(IDS_EXHAUSTED@),
    )
    ||| first_page_fault(document, pages) is None && exists|
        objects: Seq<Numbered>,
        root: ObjectId,
        written: Result<Seq<u8>, Seq<char>>,
    |
        subset_built(document, pages, objects, root) && #[trigger] may_write(
            version_of(document),
            objects,
            root,
            written,
        ) && out == match written {
            Ok(bytes) => Ok(bytes),
            Err(detail) => Err(ErrorModel::Split(detail)),
        }
}

/// `out` is something [`split_pdf`] may return: the magic-number gate, the empty list, what
/// loading says, the first page that cannot be kept, and only then a document.
pub open spec fn may_split(
    bytes: Seq<u8>,
    pages: Seq<u32>,
    out: Result<Seq<u8>, ErrorModel>,
) -> bool {
    if !pdf_magic(bytes) {
        out == Err::<Seq<u8>, ErrorModel>(ErrorModel::NotPdf)
    } else if pages.len() == 0 {
        out == Err::<Seq<u8>, ErrorModel>(ErrorModel::Split("no pages requested"@))
    } else {
        ||| exists|detail: Seq<char>| #[trigger]
            may_load(bytes, Err(detail)) && out == Err::<Seq<u8>, ErrorModel>(
                ErrorModel::Split(detail),
            )
        ||| exists|document: Document| #[trigger]
            may_load(bytes, Ok(document)) && may_write_subset(document, pages, out)
    }
}

/// The model of bytes or an error.
pub open spec fn bytes_outcome(r: Result<Vec<u8>, Error>) -> Result<Seq<u8>, ErrorModel> {
    match r {
        Ok(bytes) => Ok(bytes@),
        Err(error) => Err(error@),
    }
}

/// Build a PDF containing exactly `pages` (0-indexed) in the order given.
///
/// Per-page resources, fonts, images and content streams are carried over, along with any
/// `MediaBox`, `Resources`, `CropBox` or `Rotate` the page inherited from an ancestor. A
/// document that would need more object numbers than there are is refused.
pub fn split_pdf(bytes: &[u8], pages: &[u32]) -> (r: Result<Vec<u8>, Error>)
    ensures
        may_split(bytes@, pages@, bytes_outcome(r)),
        r is Ok ==> pdf_magic(r->Ok_0@),
{
    if !is_pdf(bytes) {
        return Err(Error::NotPdf);
    }
    if pages.len() == 0 {
        return Err(Error::Split("no pages requested".to_owned()));
    }
    let document: Document = match load_document(bytes) {
        Ok(found) => found,
        Err(detail) => {
            assert(may_load(bytes@, Err(detail@)));
            return Err(Error::Split(detail));
        },
    };
    assert(may_load(bytes@, Ok(document)));
    match build_subset(&document, pages) {
        Ok(subset) => {
            let version: String = document_version(&document);
            let ghost objects = subset.objects@;
            let root: ObjectId = subset.root;
            match write_document(version.as_str(), subset.objects, root) {
                Ok(out) => {
                    assert(may_write(version_of(document), objects, root, Ok(out@)));
                    Ok(out)
                },
                Err(detail) => {
                    assert(may_write(version_of(document), objects, root, Err(detail@)));
                    Err(Error::Split(detail))
                },
            }
        },
        Err(error) => Err(error),
    }
}

/// The result with each page's split position replaced by the original page it stands for;
/// positions past the end are left alone.
pub open spec fn remapped(result: OcrResultModel, pages: Seq<u32>) -> OcrResultModel {
    OcrResultModel {
        pages: result.pages.map_values(
            |p: PageModel|
                PageModel {
                    index: if p.index < pages.len() {
                        pages[p.index as int]
                    } else {
                        p.index
                    },
                    ..p
                },
        ),
        ..result
    }
}

/// Map a split document's 0..n page numbering back onto the original page indices.
///
/// Page `i` of the split document becomes `pages[i]`. Indices past the end of `pages` are left
/// alone rather than guessed at.
pub fn remap_pages(result: &mut OcrResult, pages: &[u32])
    ensures
        final(result)@ == remapped(old(result)@, pages@),
{
    let ghost start = result@;
    let ghost all = remapped(start, pages@).pages;
    let mut i: usize = 0;
    while i < result.pages.len()
        invariant
            i <= result.pages@.len() == start.pages.len(),
            all == remapped(start, pages@).pages,
            result.model@ == start.model,
            result.pages_processed == start.pages_processed,
            result.doc_size_bytes == start.doc_size_bytes,
            forall|k: int| 0 <= k < i ==> (#[trigger] result.pages@[k])@ == all[k],
            forall|k: int|
                i <= k < result.pages@.len() ==> (#[trigger] result.pages@[k])@ == start.pages[k],
        decreases result.pages@.len() - i,
    {
        let position: u32 = result.pages[i].index;
        if (position as usize) < pages.len() {
            result.pages[i].index = pages[position as usize];
        }
        i += 1;
    }
    assert(page_models(result.pages@) =~= all);
}

/// Remapping undoes the renumbering of a split: a result whose pages are numbered by their
/// position in the split document comes back numbered by the original pages.
pub proof fn remap_restores_original_numbers(result: OcrResultModel, pages: Seq<u32>)
    requires
        result.pages.len() == pages.len(),
        forall|i: int| 0 <= i < result.pages.len() ==> (#[trigger] result.pages[i]).index == i,
    ensures
        remapped(result, pages).pages.len() == pages.len(),
        forall|i: int|
            0 <= i < pages.len() ==> (#[trigger] remapped(result, pages).pages[i]).index == pages[i]
                && remapped(result, pages).pages[i].markdown == result.pages[i].markdown,
{
}

/// What is kept of a subset's catalog, page tree and pages.
pub open spec fn pages_kept(
    document: Document,
    pages: Seq<u32>,
    root: ObjectId,
    objects: Map<ObjectId, Object>,
    memo: Map<u64, u32>,
    tree: ObjectId,
    kids: Seq<ObjectId>,
) -> bool {
    &&& objects.contains_key(root) && is_catalog(objects[root], tree)
    &&& objects.contains_key(tree) && is_page_tree(objects[tree], kids)
    &&& kids.len() == pages.len()
    &&& forall|i: int|
        0 <= i < pages.len() ==> objects.contains_key(#[trigger] kids[i]) && page_built(
            document,
            memo,
            pages_of(document)[pages[i] as int],
            tree,
            objects[kids[i]],
        )
}

/// Dropping what a document makes no use of drops no page: the catalog, the page tree and a
/// copy of each page asked for, in the order asked for, are all in the document that is
/// written.
pub proof fn pages_survive_pruning(
    document: Document,
    pages: Seq<u32>,
    objects: Seq<Numbered>,
    root: ObjectId,
    memo: Map<u64, u32>,
    depths: Map<u64, int>,
    tree: ObjectId,
    kids: Seq<ObjectId>,
    assembled: Document,
    pruned: Document,
)
    requires
        subset_built_with(document, pages, objects, root, memo, depths, tree, kids),
        assembled_from(assembled, version_of(document), objects, root),
        pruned_from(assembled, pruned),
    ensures
        pages_kept(document, pages, root, held(pruned), memo, tree, kids),
{
    let trailer = trailer_of(assembled);
    let all = held(assembled);
    let at_root = choose|k: int|
        0 <= k < objects.len() && (#[trigger] objects[k]).id == root && is_catalog(
            objects[k].object,
            tree,
        );
    table_holds(objects, at_root);
    let at_tree = choose|k: int|
        0 <= k < objects.len() && (#[trigger] objects[k]).id == tree && is_page_tree(
            objects[k].object,
            kids,
        );
    table_holds(objects, at_tree);
    assert(mentions(trailer[0].1, root, 0));
    assert(reached(trailer, all, root, 0));
    assert(used(trailer, all).contains(root));
    assert(mentions(all[root], tree, 1)) by {
        assert(mentions(layer_of(all[root])->Dictionary_0[1].1, tree, 0));
    }
    assert(reached(trailer, all, tree, 1));
    assert(used(trailer, all).contains(tree));
    assert forall|i: int| 0 <= i < pages.len() implies held(pruned).contains_key(
        #[trigger] kids[i],
    ) && page_built(
        document,
        memo,
        pages_of(document)[pages[i] as int],
        tree,
        held(pruned)[kids[i]],
    ) && used(trailer, all).contains(kids[i]) by {
        let page_id = pages_of(document)[pages[i] as int];
        let at = choose|k: int| #[trigger]
            page_placed_at(document, memo, objects, page_id, tree, kids[i], k);
        table_holds(objects, at);
        let listed = layer_of(all[tree])->Dictionary_0[2].1;
        assert(mentions(layer_of(listed)->Array_0[i], kids[i], 0));
        assert(mentions(listed, kids[i], 1));
        assert(mentions(layer_of(all[tree])->Dictionary_0[2].1, kids[i], 1));
        assert(mentions(all[tree], kids[i], 2));
        assert(reached(trailer, all, kids[i], 2));
        assert(used(trailer, all).contains(kids[i]));
    }
}

/// The place of an object within a copy is the place of its copy: whatever lies `layers` layers
/// down in an object copied at `depth` has its own copy as many layers down in the copy, as far
/// down as copies go.
pub proof fn every_layer_is_copied(
    memo: Map<u64, u32>,
    from: Object,
    to: Object,
    depth: int,
    inner: Object,
    layers: int,
) -> (copy: Object)
    requires
        copied(memo, from, to, depth),
        lies_in(from, inner, layers),
        depth + layers <= COPY_DEPTH + 1,
    ensures
        lies_in(to, copy, layers),
        copied(memo, inner, copy, depth + layers),
    decreases layers,
{
    if layers <= 0 {
        to
    } else {
        let mid = choose|mid: Object|
            lies_in(from, mid, layers - 1) && #[trigger] child_of(mid, inner);
        let above = every_layer_is_copied(memo, from, to, depth, mid, layers - 1);
        let copy = match layer_of(mid) {
            LayerModel::Array(items) => {
                let i = choose|i: int| 0 <= i < items.len() && #[trigger] items[i] == inner;
                let copy = layer_of(above)->Array_0[i];
                assert(copied(memo, items[i], copy, depth + layers));
                copy
            },
            LayerModel::Dictionary(entries) => {
                let i = choose|i: int| 0 <= i < entries.len() && (#[trigger] entries[i]).1 == inner;
                let copy = layer_of(above)->Dictionary_0[i].1;
                assert(copied(memo, entries[i].1, copy, depth + layers));
                copy
            },
            LayerModel::Stream(entries, _) => {
                let i = choose|i: int| 0 <= i < entries.len() && (#[trigger] entries[i]).1 == inner;
                let copy = layer_of(above)->Stream_0[i].1;
                assert(copied(memo, entries[i].1, copy, depth + layers));
                copy
            },
            _ => to,
        };
        assert(child_of(above, copy));
        copy
    }
}

/// A reference within an object is a mention by it.
proof fn mentions_what_lies_in(outer: Object, mid: Object, layers: int, id: ObjectId, depth: nat)
    requires
        lies_in(outer, mid, layers),
        mentions(mid, id, depth),
    ensures
        layers >= 0,
        mentions(outer, id, (depth + layers) as nat),
    decreases layers,
{
    if layers > 0 {
        let above = choose|above: Object|
            lies_in(outer, above, layers - 1) && #[trigger] child_of(above, mid);
        let deeper = (depth + 1) as nat;
        assert(mentions(above, id, deeper)) by {
            match layer_of(above) {
                LayerModel::Array(items) => {
                    let i = choose|i: int| 0 <= i < items.len() && #[trigger] items[i] == mid;
                    assert(mentions(items[i], id, depth));
                },
                LayerModel::Dictionary(entries) => {
                    let i = choose|i: int|
                        0 <= i < entries.len() && (#[trigger] entries[i]).1 == mid;
                    assert(mentions(entries[i].1, id, depth));
                },
                LayerModel::Stream(entries, _) => {
                    let i = choose|i: int|
                        0 <= i < entries.len() && (#[trigger] entries[i]).1 == mid;
                    assert(mentions(entries[i].1, id, depth));
                },
                _ => {},
            }
        }
        mentions_what_lies_in(outer, above, layers - 1, id, deeper);
    }
}

/// The new identifier of source object `id`.
pub open spec fn renamed(memo: Map<u64, u32>, id: ObjectId) -> ObjectId {
    ObjectId { number: memo[packed(id)], generation: 0 }
}

/// The copy of an object mentions the new identifier of whatever the object refers to, as far
/// down as copies go.
proof fn copy_mentions(
    memo: Map<u64, u32>,
    from: Object,
    to: Object,
    depth: int,
    reference: Object,
    layers: int,
    id: ObjectId,
)
    requires
        copied(memo, from, to, depth),
        lies_in(from, reference, layers),
        refers_to(reference, id),
        depth + layers <= COPY_DEPTH,
    ensures
        memo.contains_key(packed(id)),
        layers >= 0,
        mentions(to, renamed(memo, id), layers as nat),
{
    let copy = every_layer_is_copied(memo, from, to, depth, reference, layers);
    assert(mentions(copy, renamed(memo, id), 0));
    mentions_what_lies_in(to, copy, layers, renamed(memo, id), 0);
}

/// Setting one key leaves the entries under other keys where they are.
proof fn with_entry_leaves_others(
    entries: Seq<(Seq<u8>, Object)>,
    key: Seq<u8>,
    value: Object,
    j: int,
)
    requires
        0 <= j < entries.len(),
        entries[j].0 != key,
    ensures
        j < with_entry(entries, key, value).len(),
        with_entry(entries, key, value)[j] == entries[j],
{
    position_holds_the_key(entries, key);
}

proof fn position_holds_the_key(entries: Seq<(Seq<u8>, Object)>, key: Seq<u8>)
    ensures
        0 <= position(entries, key) <= entries.len(),
        position(entries, key) < entries.len() ==> entries[position(entries, key)].0 == key,
    decreases entries.len(),
{
    if entries.len() > 0 && entries[0].0 != key {
        position_holds_the_key(entries.subrange(1, entries.len() as int), key);
    }
}

/// A kept page refers to source object `id`: from an entry other than the type and the parent,
/// which the subset sets itself, and no deeper than copies go.
pub open spec fn page_refers(document: Document, pages: Seq<u32>, id: ObjectId) -> bool {
    exists|i: int, j: int, reference: Object, layers: int|
        0 <= i < pages.len() && 0 <= j < source_of(document, pages[i]).len() && source_of(
            document,
            pages[i],
        )[j].0 != "Type".spec_bytes() && source_of(document, pages[i])[j].0
            != "Parent".spec_bytes() && layers <= COPY_DEPTH && #[trigger] lies_in(
            source_of(document, pages[i])[j].1,
            reference,
            layers,
        ) && #[trigger] refers_to(reference, id)
}

/// Source object `from` refers to source object `id`, no deeper than copies go when that of
/// `from` is made at `depth`.
pub open spec fn object_refers(document: Document, from: ObjectId, depth: int, id: ObjectId) -> bool {
    object_at(document, from) is Some && exists|reference: Object, layers: int|
        depth + layers <= COPY_DEPTH && #[trigger] lies_in(
            object_at(document, from)->0,
            reference,
            layers,
        ) && #[trigger] refers_to(reference, id)
}

/// A kept page refers to source object `id`, directly or over at most `steps` other objects.
pub open spec fn carried(
    document: Document,
    pages: Seq<u32>,
    depths: Map<u64, int>,
    id: ObjectId,
    steps: nat,
) -> bool
    decreases steps,
{
    if steps == 0 {
        page_refers(document, pages, id)
    } else {
        ||| carried(document, pages, depths, id, (steps - 1) as nat)
        ||| exists|from: ObjectId|
            carried(document, pages, depths, from, (steps - 1) as nat) && #[trigger] object_refers(
                document,
                from,
                depths[packed(from)],
                id,
            )
    }
}

/// Whatever a kept page refers to, directly or through others, is still there after pruning:
/// its copy stands under its new identifier in the document that is written.
pub proof fn what_a_page_refers_to_survives_pruning(
    document: Document,
    pages: Seq<u32>,
    objects: Seq<Numbered>,
    root: ObjectId,
    memo: Map<u64, u32>,
    depths: Map<u64, int>,
    tree: ObjectId,
    kids: Seq<ObjectId>,
    assembled: Document,
    pruned: Document,
    id: ObjectId,
    steps: nat,
)
    requires
        subset_built_with(document, pages, objects, root, memo, depths, tree, kids),
        assembled_from(assembled, version_of(document), objects, root),
        pruned_from(assembled, pruned),
        carried(document, pages, depths, id, steps),
    ensures
        memo.contains_key(packed(id)),
        held(pruned).contains_key(renamed(memo, id)),
        target_copied(
            document,
            memo,
            id,
            held(pruned)[renamed(memo, id)],
            depths[packed(id)],
        ),
    decreases steps,
{
    let trailer = trailer_of(assembled);
    let all = held(assembled);
    let new = renamed(memo, id);
    if steps == 0 {
        pages_survive_pruning(
            document,
            pages,
            objects,
            root,
            memo,
            depths,
            tree,
            kids,
            assembled,
            pruned,
        );
        let (i, j, reference, layers) = choose|i: int, j: int, reference: Object, layers: int|
            0 <= i < pages.len() && 0 <= j < source_of(document, pages[i]).len() && source_of(
                document,
                pages[i],
            )[j].0 != "Type".spec_bytes() && source_of(document, pages[i])[j].0
                != "Parent".spec_bytes() && layers <= COPY_DEPTH && #[trigger] lies_in(
                source_of(document, pages[i])[j].1,
                reference,
                layers,
            ) && #[trigger] refers_to(reference, id);
        let kid = kids[i];
        let source = source_of(document, pages[i]);
        let page_id = pages_of(document)[pages[i] as int];
        assert(held(pruned).contains_key(kid));
        let entries = layer_of(all[kid])->Dictionary_0;
        let base = choose|base: Seq<(Seq<u8>, Object)>| #[trigger]
            page_dictionary_built(document, memo, page_id, tree, base, entries);
        assert(base[j].0 == source[j].0 && copied(memo, source[j].1, base[j].1, 0)) by {
            assert(source[j] == source_of(document, pages[i])[j]);
        }
        copy_mentions(memo, source[j].1, base[j].1, 0, reference, layers, id);
        let (kind, up) = choose|kind: Object, up: Object|
            layer_of(kind) == LayerModel::Name("Page".spec_bytes()) && layer_of(up)
                == LayerModel::Reference(tree) && entries == #[trigger] with_entry(
                #[trigger] with_entry(base, "Type".spec_bytes(), kind),
                "Parent".spec_bytes(),
                up,
            );
        let typed = with_entry(base, "Type".spec_bytes(), kind);
        with_entry_leaves_others(base, "Type".spec_bytes(), kind, j);
        with_entry_leaves_others(typed, "Parent".spec_bytes(), up, j);
        let depth = layers as nat;
        assert(mentions(entries[j].1, new, depth));
        assert(mentions(all[kid], new, (depth + 1) as nat));
        mentioned_is_used(assembled, pruned, kid, new, (depth + 1) as nat);
    } else if carried(document, pages, depths, id, (steps - 1) as nat) {
        what_a_page_refers_to_survives_pruning(
            document,
            pages,
            objects,
            root,
            memo,
            depths,
            tree,
            kids,
            assembled,
            pruned,
            id,
            (steps - 1) as nat,
        );
    } else {
        let from = choose|from: ObjectId|
            carried(document, pages, depths, from, (steps - 1) as nat) && #[trigger] object_refers(
                document,
                from,
                depths[packed(from)],
                id,
            );
        what_a_page_refers_to_survives_pruning(
            document,
            pages,
            objects,
            root,
            memo,
            depths,
            tree,
            kids,
            assembled,
            pruned,
            from,
            (steps - 1) as nat,
        );
        let (reference, layers) = choose|reference: Object, layers: int|
            depths[packed(from)] + layers <= COPY_DEPTH && #[trigger] lies_in(
                object_at(document, from)->0,
                reference,
                layers,
            ) && #[trigger] refers_to(reference, id);
        let holder = renamed(memo, from);
        copy_mentions(
            memo,
            object_at(document, from)->0,
            held(pruned)[holder],
            depths[packed(from)],
            reference,
            layers,
            id,
        );
        assert(all[holder] == held(pruned)[holder]);
        mentioned_is_used(assembled, pruned, holder, new, layers as nat);
    }
    assert(settled(document, memo, depths, objects, id));
    let k = choose|k: int| #[trigger] settled_at(document, memo, depths, objects, id, k);
    table_holds(objects, k);
}

/// What a used object mentions is used.
proof fn mentioned_is_used(
    assembled: Document,
    pruned: Document,
    from: ObjectId,
    id: ObjectId,
    depth: nat,
)
    requires
        pruned_from(assembled, pruned),
        held(pruned).contains_key(from),
        mentions(held(assembled)[from], id, depth),
    ensures
        used(trailer_of(assembled), held(assembled)).contains(id),
{
    let trailer = trailer_of(assembled);
    let all = held(assembled);
    assert(used(trailer, all).contains(from));
    let steps = choose|steps: nat| #[trigger] reached(trailer, all, from, steps);
    let further = (steps + 1) as nat;
    assert(reached(trailer, all, id, further));
}

/// `rank` bounds how deep a copy of `pages` can come to a source object: it grows along every
/// reference by the layers the reference lies down and one more.
pub open spec fn bounds_depths(
    document: Document,
    pages: Seq<u32>,
    rank: spec_fn(ObjectId) -> int,
) -> bool {
    &&& forall|i: int, j: int, reference: Object, layers: int, id: ObjectId|
        0 <= i < pages.len() && 0 <= j < source_of(document, pages[i]).len()
            && #[trigger] lies_in(source_of(document, pages[i])[j].1, reference, layers)
            && #[trigger] refers_to(reference, id) ==> layers + 1 <= rank(id)
    &&& forall|from: ObjectId, reference: Object, layers: int, id: ObjectId|
        object_at(document, from) is Some && #[trigger] lies_in(
            object_at(document, from)->0,
            reference,
            layers,
        ) && #[trigger] refers_to(reference, id) ==> rank(from) + layers + 1 <= rank(id)
}

/// Where references do not run in circles, no copy is made deeper than the longest way to it.
pub proof fn copies_are_no_deeper_than_the_longest_way(
    document: Document,
    pages: Seq<u32>,
    objects: Seq<Numbered>,
    root: ObjectId,
    memo: Map<u64, u32>,
    depths: Map<u64, int>,
    tree: ObjectId,
    kids: Seq<ObjectId>,
    rank: spec_fn(ObjectId) -> int,
    id: ObjectId,
)
    requires
        subset_built_with(document, pages, objects, root, memo, depths, tree, kids),
        bounds_depths(document, pages, rank),
        memo.contains_key(packed(id)),
    ensures
        depths[packed(id)] <= rank(id),
    decreases memo[packed(id)],
{
    reveal(depth_earned);
    reveal(met_at);
    assert(depth_earned(document, pages, memo, depths, id));
    let at = depths[packed(id)] - 1;
    let before = memo[packed(id)] as int;
    let reference = choose|reference: Object| #[trigger]
        refers_to(reference, id) && met_at(
            document,
            pages,
            memo,
            depths,
            reference,
            depths[packed(id)] - 1,
            memo[packed(id)] as int,
        );
    if !exists|i: int, j: int|
        0 <= i < pages.len() && 0 <= j < source_of(document, pages[i]).len()
            && #[trigger] lies_in(source_of(document, pages[i])[j].1, reference, at) {
        let (from, layers) = choose|from: ObjectId, layers: int|
            memo.contains_key(packed(from)) && memo[packed(from)] < before && object_at(
                document,
                from,
            ) is Some && #[trigger] lies_in(object_at(document, from)->0, reference, layers)
                && at == depths[packed(from)] + layers;
        copies_are_no_deeper_than_the_longest_way(
            document,
            pages,
            objects,
            root,
            memo,
            depths,
            tree,
            kids,
            rank,
            from,
        );
    }
}

/// `out` is what a document is saved as that declares the source's version, whose trailer names
/// the catalog of a subset, and which holds that catalog, its page tree, a copy of each page asked
/// for, in the order asked for, and a copy of everything those pages refer to.
pub open spec fn carries_over(
    document: Document,
    pages: Seq<u32>,
    out: Seq<u8>,
    root: ObjectId,
    memo: Map<u64, u32>,
    depths: Map<u64, int>,
    tree: ObjectId,
    kids: Seq<ObjectId>,
    pruned: Document,
) -> bool {
    &&& saved(compressed(renumbered(pruned))) == Ok::<Seq<u8>, Seq<char>>(out)
    &&& trailer_of(pruned).len() == 1
    &&& trailer_of(pruned)[0].0 == "Root".spec_bytes()
    &&& refers_to(trailer_of(pruned)[0].1, root)
    &&& version_of(pruned) == version_of(document)
    &&& first_page_fault(document, pages) is None
    &&& forall|j: u64, k: u64|
        #![trigger memo[j], memo[k]]
        memo.contains_key(j) && memo.contains_key(k) && memo[j] == memo[k] ==> j == k
    &&& pages_kept(document, pages, root, held(pruned), memo, tree, kids)
    &&& forall|id: ObjectId, steps: nat| #[trigger]
        carried(document, pages, depths, id, steps) ==> memo.contains_key(packed(id))
            && held(pruned).contains_key(renamed(memo, id)) && target_copied(
            document,
            memo,
            id,
            held(pruned)[renamed(memo, id)],
            depths[packed(id)],
        )
    &&& forall|id: ObjectId|
        memo.contains_key(#[trigger] packed(id)) ==> depth_earned(
            document,
            pages,
            memo,
            depths,
            id,
        )
}

/// A split that succeeds is a PDF again, and carries over the pages asked for with all that they
/// refer to.
pub proof fn a_split_carries_its_pages_over(bytes: Seq<u8>, pages: Seq<u32>, out: Seq<u8>)
    requires
        may_split(bytes, pages, Ok(out)),
    ensures
        pdf_magic(out),
        exists|
            document: Document,
            root: ObjectId,
            memo: Map<u64, u32>,
            depths: Map<u64, int>,
            tree: ObjectId,
            kids: Seq<ObjectId>,
            pruned: Document,
        |
            may_load(bytes, Ok(document)) && #[trigger] carries_over(
                document,
                pages,
                out,
                root,
                memo,
                depths,
                tree,
                kids,
                pruned,
            ),
{
    let document = choose|document: Document| #[trigger]
        may_load(bytes, Ok(document)) && may_write_subset(document, pages, Ok(out));
    let (objects, root, written) = choose|
        objects: Seq<Numbered>,
        root: ObjectId,
        written: Result<Seq<u8>, Seq<char>>,
    |
        subset_built(document, pages, objects, root) && #[trigger] may_write(
            version_of(document),
            objects,
            root,
            written,
        ) && Ok::<Seq<u8>, ErrorModel>(out) == match written {
            Ok(bytes) => Ok(bytes),
            Err(detail) => Err(ErrorModel::Split(detail)),
        };
    assert(written == Ok::<Seq<u8>, Seq<char>>(out));
    let (memo, depths, tree, kids) = choose|
        memo: Map<u64, u32>,
        depths: Map<u64, int>,
        tree: ObjectId,
        kids: Seq<ObjectId>,
    | #[trigger]
        subset_built_with(document, pages, objects, root, memo, depths, tree, kids);
    let (assembled, pruned) = choose|assembled: Document, pruned: Document|
        assembled_from(assembled, version_of(document), objects, root) && #[trigger] pruned_from(
            assembled,
            pruned,
        ) && written == (if overfull(pruned) {
            Err(IDS_EXHAUSTED@)
        } else {
            saved(compressed(renumbered(pruned)))
        }) && (written is Ok ==> pdf_magic(written->Ok_0));
    pages_survive_pruning(
        document,
        pages,
        objects,
        root,
        memo,
        depths,
        tree,
        kids,
        assembled,
        pruned,
    );
    assert forall|id: ObjectId, steps: nat| #[trigger]
        carried(document, pages, depths, id, steps) implies memo.contains_key(packed(id))
        && held(pruned).contains_key(renamed(memo, id)) && target_copied(
        document,
        memo,
        id,
        held(pruned)[renamed(memo, id)],
        depths[packed(id)],
    ) by {
        what_a_page_refers_to_survives_pruning(
            document,
            pages,
            objects,
            root,
            memo,
            depths,
            tree,
            kids,
            assembled,
            pruned,
            id,
            steps,
        );
    }
    assert(carries_over(document, pages, out, root, memo, depths, tree, kids, pruned));
}

/// The object at the end of a way into an object, item by item and entry by entry.
pub open spec fn at_path(object: Object, path: Seq<int>) -> Option<Object>
    decreases path.len(),
{
    if path.len() == 0 {
        Some(object)
    } else {
        match at_path(object, path.drop_last()) {
            None => None,
            Some(outer) => {
                let i = path.last();
                match layer_of(outer) {
                    LayerModel::Array(items) => if 0 <= i < items.len() {
                        Some(items[i])
                    } else {
                        None
                    },
                    LayerModel::Dictionary(entries) => if 0 <= i < entries.len() {
                        Some(entries[i].1)
                    } else {
                        None
                    },
                    LayerModel::Stream(entries, _) => if 0 <= i < entries.len() {
                        Some(entries[i].1)
                    } else {
                        None
                    },
                    _ => None,
                }
            },
        }
    }
}

/// The same keys in the same order.
pub open spec fn same_keys(a: Seq<(Seq<u8>, Object)>, b: Seq<(Seq<u8>, Object)>) -> bool {
    a.len() == b.len() && forall|i: int|
        0 <= i < a.len() ==> (#[trigger] a[i]).0 == (#[trigger] b[i]).0
}

/// Two objects are alike on the outside: a leaf is the same leaf; an array has as many items; a
/// dictionary has the same keys; a stream has the same keys and the same bytes; and a reference
/// points to the copy of what it pointed to.
pub open spec fn alike(memo: Map<u64, u32>, from: Object, to: Object) -> bool {
    match layer_of(from) {
        LayerModel::Null => layer_of(to) == LayerModel::Null,
        LayerModel::Integer(n) => layer_of(to) == LayerModel::Integer(n),
        LayerModel::Name(name) => layer_of(to) == LayerModel::Name(name),
        LayerModel::Reference(id) => memo.contains_key(packed(id)) && layer_of(to)
            == LayerModel::Reference(ObjectId { number: memo[packed(id)], generation: 0 }),
        LayerModel::Array(items) => layer_of(to) is Array && layer_of(to)->Array_0.len()
            == items.len(),
        LayerModel::Dictionary(entries) => layer_of(to) is Dictionary && same_keys(
            entries,
            layer_of(to)->Dictionary_0,
        ),
        LayerModel::Stream(entries, body) => layer_of(to) is Stream && same_keys(
            entries,
            layer_of(to)->Stream_0,
        ) && layer_of(to)->Stream_1.content == body.content
            && layer_of(to)->Stream_1.allows_compression == body.allows_compression
            && layer_of(to)->Stream_1.start_position == body.start_position,
        LayerModel::Other(_) => to == from,
    }
}

/// `to` mirrors `from` as far down as `room` layers: whatever way leads somewhere in `from`
/// leads to something alike in `to`.
pub open spec fn mirrors(memo: Map<u64, u32>, from: Object, to: Object, room: int) -> bool {
    forall|path: Seq<int>|
        path.len() <= room && (#[trigger] at_path(from, path)) is Some ==> at_path(to, path) is Some
            && alike(memo, at_path(from, path)->0, at_path(to, path)->0)
}

proof fn copied_at_path(memo: Map<u64, u32>, from: Object, to: Object, depth: int, path: Seq<int>)
    requires
        copied(memo, from, to, depth),
        depth + path.len() <= 64,
        at_path(from, path) is Some,
    ensures
        at_path(to, path) is Some,
        copied(memo, at_path(from, path)->0, at_path(to, path)->0, depth + path.len()),
    decreases path.len(),
{
    if path.len() > 0 {
        let above = path.drop_last();
        let i = path.last();
        copied_at_path(memo, from, to, depth, above);
        let x = at_path(from, above)->0;
        let y = at_path(to, above)->0;
        match layer_of(x) {
            LayerModel::Array(items) => {
                assert(copied(memo, items[i], layer_of(y)->Array_0[i], depth + path.len()));
            },
            LayerModel::Dictionary(entries) => {
                assert(copied(
                    memo,
                    entries[i].1,
                    layer_of(y)->Dictionary_0[i].1,
                    depth + path.len(),
                ));
            },
            LayerModel::Stream(entries, _) => {
                assert(copied(memo, entries[i].1, layer_of(y)->Stream_0[i].1, depth + path.len()));
            },
            _ => {},
        }
    }
}

/// A copy made at `depth` mirrors its source for the sixty-four layers that copies go, less those
/// it already lies down.
pub proof fn a_copy_mirrors_its_source(memo: Map<u64, u32>, from: Object, to: Object, depth: int)
    requires
        copied(memo, from, to, depth),
        0 <= depth,
    ensures
        mirrors(memo, from, to, 64 - depth),
{
    assert forall|path: Seq<int>|
        path.len() <= 64 - depth && (#[trigger] at_path(from, path)) is Some implies at_path(
        to,
        path,
    ) is Some && alike(memo, at_path(from, path)->0, at_path(to, path)->0) by {
        copied_at_path(memo, from, to, depth, path);
        let x = at_path(from, path)->0;
        let y = at_path(to, path)->0;
        match layer_of(x) {
            LayerModel::Dictionary(entries) => {
                assert forall|i: int| 0 <= i < entries.len() implies (#[trigger] entries[i]).0 == (
                #[trigger] layer_of(y)->Dictionary_0[i]).0 by {}
            },
            LayerModel::Stream(entries, _) => {
                assert forall|i: int| 0 <= i < entries.len() implies (#[trigger] entries[i]).0 == (
                #[trigger] layer_of(y)->Stream_0[i]).0 by {}
            },
            _ => {},
        }
    }
}

/// Two source objects are never renamed to one: their packed numbers differ as they do.
pub proof fn packed_numbers_tell_objects_apart(a: ObjectId, b: ObjectId)
    ensures
        packed(a) == packed(b) ==> a == b,
{
}

/// The first entry under `key` is the one at position `k`.
pub open spec fn stands_at(entries: Seq<(Seq<u8>, Object)>, key: Seq<u8>, k: int) -> bool {
    &&& 0 <= k < entries.len()
    &&& entries[k].0 == key
    &&& forall|i: int| 0 <= i < k ==> (#[trigger] entries[i]).0 != key
}

/// `line` leads from a page up over its parents to the nearest dictionary that has `key`, at
/// position `k`: the first is the page's own, each next one is what the one before refers to as
/// its parent, all but the last lack the key, and there are at most sixty-four of them.
pub open spec fn nearest_with(
    document: Document,
    page_id: ObjectId,
    key: Seq<u8>,
    line: Seq<ObjectId>,
    k: int,
) -> bool {
    &&& 1 <= line.len() <= 64
    &&& line[0] == page_id
    &&& forall|n: int| 0 <= n < line.len() ==> dictionary_at(document, #[trigger] line[n]) is Ok
    &&& forall|n: int|
        0 <= n < line.len() - 1 ==> {
            let entries = dictionary_at(document, #[trigger] line[n])->Ok_0;
            &&& forall|i: int| 0 <= i < entries.len() ==> (#[trigger] entries[i]).0 != key
            &&& exists|up: int| #[trigger]
                stands_at(entries, "Parent".spec_bytes(), up) && refers_to(
                    entries[up].1,
                    line[n + 1],
                )
        }
    &&& stands_at(dictionary_at(document, line.last())->Ok_0, key, k)
}

/// A key stands where [`position`] says.
proof fn position_stands(entries: Seq<(Seq<u8>, Object)>, key: Seq<u8>)
    ensures
        forall|k: int| #[trigger] stands_at(entries, key, k) ==> position(entries, key) == k,
        position(entries, key) < entries.len() ==> stands_at(
            entries,
            key,
            position(entries, key),
        ),
        position(entries, key) >= entries.len() <==> forall|i: int|
            0 <= i < entries.len() ==> (#[trigger] entries[i]).0 != key,
    decreases entries.len(),
{
    if entries.len() > 0 && entries[0].0 != key {
        let rest = entries.subrange(1, entries.len() as int);
        position_stands(rest, key);
        assert forall|k: int| #[trigger] stands_at(entries, key, k) implies position(entries, key)
            == k by {
            assert(stands_at(rest, key, k - 1)) by {
                assert forall|i: int| 0 <= i < k - 1 implies (#[trigger] rest[i]).0 != key by {
                    assert(entries[i + 1].0 != key);
                }
            }
        }
        if position(rest, key) < rest.len() {
            let at = position(entries, key);
            assert(entries[at] == rest[at - 1]);
            assert forall|i: int| 0 <= i < at implies (#[trigger] entries[i]).0 != key by {
                if i > 0 {
                    assert(rest[i - 1] == entries[i]);
                }
            }
        } else {
            assert forall|i: int| 0 <= i < entries.len() implies (#[trigger] entries[i]).0
                != key by {
                if i > 0 {
                    assert(rest[i - 1] == entries[i]);
                }
            }
        }
    } else if entries.len() > 0 {
        assert(entries[0].0 == key);
    }
}

/// What lies nearest on the way up is what is inherited.
proof fn nearest_is_inherited(
    document: Document,
    page_id: ObjectId,
    key: Seq<u8>,
    line: Seq<ObjectId>,
    k: int,
    left: nat,
)
    requires
        nearest_with(document, page_id, key, line, k),
        line.len() <= left,
    ensures
        inherited_value(document, page_id, key, left) == Some(
            dictionary_at(document, line.last())->Ok_0[k].1,
        ),
    decreases line.len(),
{
    let entries = dictionary_at(document, page_id)->Ok_0;
    assert(dictionary_at(document, line[0]) is Ok);
    position_stands(entries, key);
    position_stands(entries, "Parent".spec_bytes());
    if line.len() == 1 {
        assert(line.last() == page_id);
    } else {
        let rest = line.subrange(1, line.len() as int);
        let up = choose|up: int| #[trigger]
            stands_at(entries, "Parent".spec_bytes(), up) && refers_to(entries[up].1, line[1]);
        assert forall|n: int| 0 <= n < rest.len() implies dictionary_at(
            document,
            #[trigger] rest[n],
        ) is Ok by {
            assert(rest[n] == line[n + 1]);
        }
        assert forall|n: int| 0 <= n < rest.len() - 1 implies {
            let entries = dictionary_at(document, #[trigger] rest[n])->Ok_0;
            &&& forall|i: int| 0 <= i < entries.len() ==> (#[trigger] entries[i]).0 != key
            &&& exists|up: int| #[trigger]
                stands_at(entries, "Parent".spec_bytes(), up) && refers_to(
                    entries[up].1,
                    rest[n + 1],
                )
        } by {
            assert(rest[n] == line[n + 1]);
            assert(rest[n + 1] == line[n + 1 + 1]);
        }
        assert(rest.last() == line.last());
        assert(nearest_with(document, rest[0], key, rest, k));
        nearest_is_inherited(document, rest[0], key, rest, k, (left - 1) as nat);
    }
}

/// What is inherited lies nearest on some way up.
proof fn inherited_is_nearest(document: Document, page_id: ObjectId, key: Seq<u8>, left: nat) -> (r: (
    Seq<ObjectId>,
    int,
))
    requires
        inherited_value(document, page_id, key, left) is Some,
        left <= 64,
    ensures
        nearest_with(document, page_id, key, r.0, r.1),
        r.0.len() <= left,
        inherited_value(document, page_id, key, left) == Some(
            dictionary_at(document, r.0.last())->Ok_0[r.1].1,
        ),
    decreases left,
{
    let entries = dictionary_at(document, page_id)->Ok_0;
    position_stands(entries, key);
    position_stands(entries, "Parent".spec_bytes());
    if position(entries, key) < entries.len() {
        let line = seq![page_id];
        assert(line.last() == page_id);
        (line, position(entries, key))
    } else {
        let at = position(entries, "Parent".spec_bytes());
        let up = layer_of(entries[at].1)->Reference_0;
        let above = inherited_is_nearest(document, up, key, (left - 1) as nat);
        let line = seq![page_id] + above.0;
        assert(line.last() == above.0.last());
        assert forall|n: int| 0 <= n < line.len() implies dictionary_at(
            document,
            #[trigger] line[n],
        ) is Ok by {
            if n > 0 {
                assert(line[n] == above.0[n - 1]);
            }
        }
        assert forall|n: int| 0 <= n < line.len() - 1 implies {
            let entries = dictionary_at(document, #[trigger] line[n])->Ok_0;
            &&& forall|i: int| 0 <= i < entries.len() ==> (#[trigger] entries[i]).0 != key
            &&& exists|up: int| #[trigger]
                stands_at(entries, "Parent".spec_bytes(), up) && refers_to(
                    entries[up].1,
                    line[n + 1],
                )
        } by {
            if n == 0 {
                assert(line[1] == above.0[0]);
                assert(stands_at(entries, "Parent".spec_bytes(), at));
            } else {
                assert(line[n] == above.0[n - 1]);
                assert(line[n + 1] == above.0[n - 1 + 1]);
            }
        }
        (line, above.1)
    }
}

/// The attributes a page inherits from its ancestors.
pub open spec fn inheritable(key: Seq<u8>) -> bool {
    ||| key == "MediaBox".spec_bytes()
    ||| key == "Resources".spec_bytes()
    ||| key == "CropBox".spec_bytes()
    ||| key == "Rotate".spec_bytes()
}

/// The keys of a page differ from each other.
proof fn page_names_differ()
    ensures
        "Type".spec_bytes() != "Parent".spec_bytes(),
        "Type".spec_bytes() != "Annots".spec_bytes(),
        "Parent".spec_bytes() != "Annots".spec_bytes(),
        forall|key: Seq<u8>| #[trigger]
            inheritable(key) ==> key != "Type".spec_bytes() && key != "Parent".spec_bytes() && key
                != "Annots".spec_bytes(),
        "MediaBox".spec_bytes() != "Resources".spec_bytes(),
        "MediaBox".spec_bytes() != "CropBox".spec_bytes(),
        "MediaBox".spec_bytes() != "Rotate".spec_bytes(),
        "Resources".spec_bytes() != "CropBox".spec_bytes(),
        "Resources".spec_bytes() != "Rotate".spec_bytes(),
        "CropBox".spec_bytes() != "Rotate".spec_bytes(),
{
    reveal_strlit("Type");
    reveal_strlit("Parent");
    reveal_strlit("Annots");
    reveal_strlit("MediaBox");
    reveal_strlit("Resources");
    reveal_strlit("CropBox");
    reveal_strlit("Rotate");
    vstd::string::is_ascii_spec_bytes("Type");
    vstd::string::is_ascii_spec_bytes("Parent");
    vstd::string::is_ascii_spec_bytes("Annots");
    vstd::string::is_ascii_spec_bytes("MediaBox");
    vstd::string::is_ascii_spec_bytes("Resources");
    vstd::string::is_ascii_spec_bytes("CropBox");
    vstd::string::is_ascii_spec_bytes("Rotate");
    assert("Type".spec_bytes()[0] == 84);
    assert("Parent".spec_bytes()[0] == 80);
    assert("Annots".spec_bytes()[0] == 65);
    assert("MediaBox".spec_bytes()[0] == 77);
    assert("Resources".spec_bytes()[0] == 82);
    assert("Resources".spec_bytes()[1] == 101);
    assert("CropBox".spec_bytes()[0] == 67);
    assert("Rotate".spec_bytes()[0] == 82);
    assert("Rotate".spec_bytes()[1] == 111);
}

/// Every entry of a page but its parent and its annotations is kept.
proof fn kept_entries_hold(entries: Seq<(Seq<u8>, Object)>, k: int) -> (j: int)
    requires
        0 <= k < entries.len(),
        entries[k].0 != "Parent".spec_bytes(),
        entries[k].0 != "Annots".spec_bytes(),
    ensures
        0 <= j < kept_entries(entries).len(),
        kept_entries(entries)[j] == entries[k],
    decreases entries.len(),
{
    let rest = entries.drop_last();
    if k == rest.len() {
        kept_entries(rest).len() as int
    } else {
        assert(rest[k] == entries[k]);
        kept_entries_hold(rest, k)
    }
}

/// No kept entry is a parent or a list of annotations.
proof fn kept_entries_drop(entries: Seq<(Seq<u8>, Object)>)
    ensures
        forall|j: int|
            0 <= j < kept_entries(entries).len() ==> (#[trigger] kept_entries(entries)[j]).0
                != "Parent".spec_bytes() && kept_entries(entries)[j].0 != "Annots".spec_bytes(),
    decreases entries.len(),
{
    if entries.len() > 0 {
        let rest = kept_entries(entries.drop_last());
        kept_entries_drop(entries.drop_last());
        assert forall|j: int| 0 <= j < kept_entries(entries).len() implies (
        #[trigger] kept_entries(entries)[j]).0 != "Parent".spec_bytes() && kept_entries(
            entries,
        )[j].0 != "Annots".spec_bytes() by {
            if j < rest.len() {
                assert(kept_entries(entries)[j] == rest[j]);
            }
        }
    }
}

/// One attribute is added at the end, or nothing changes.
proof fn inheriting_adds_at_the_end(
    document: Document,
    page_id: ObjectId,
    entries: Seq<(Seq<u8>, Object)>,
    key: Seq<u8>,
)
    ensures
        ({
            let more = with_inherited(document, page_id, entries, key);
            let value = inherited_value(document, page_id, key, 64);
            &&& entries.len() <= more.len() <= entries.len() + 1
            &&& forall|j: int| 0 <= j < entries.len() ==> #[trigger] more[j] == entries[j]
            &&& more.len() > entries.len() ==> value is Some && more[entries.len() as int] == (
                key,
                value->0,
            )
            &&& (forall|j: int| 0 <= j < entries.len() ==> (#[trigger] entries[j]).0 != key)
                && value is Some ==> more.len() > entries.len()
        }),
{
    position_stands(entries, key);
}

/// What a page of the subset is copied from, entry by entry: the page's own entries but for its
/// parent and its annotations, and what it inherits where it has nothing of its own.
proof fn page_source_holds(
    document: Document,
    page_id: ObjectId,
    entries: Seq<(Seq<u8>, Object)>,
)
    ensures
        ({
            let source = page_source(document, page_id, entries);
            &&& forall|k: int|
                0 <= k < entries.len() && (#[trigger] entries[k]).0 != "Parent".spec_bytes()
                    && entries[k].0 != "Annots".spec_bytes() ==> source.contains(entries[k])
            &&& forall|key: Seq<u8>| #[trigger]
                inheritable(key) && (forall|k: int|
                    0 <= k < entries.len() ==> (#[trigger] entries[k]).0 != key)
                    && inherited_value(document, page_id, key, 64) is Some ==> source.contains(
                    (key, inherited_value(document, page_id, key, 64)->0),
                )
            &&& forall|j: int|
                0 <= j < source.len() ==> {
                    ||| entries.contains(#[trigger] source[j]) && source[j].0
                        != "Parent".spec_bytes() && source[j].0 != "Annots".spec_bytes()
                    ||| inheritable(source[j].0) && inherited_value(
                        document,
                        page_id,
                        source[j].0,
                        64,
                    ) == Some(source[j].1)
                }
        }),
{
    page_names_differ();
    let m = "MediaBox".spec_bytes();
    let r = "Resources".spec_bytes();
    let c = "CropBox".spec_bytes();
    let t = "Rotate".spec_bytes();
    let own = kept_entries(entries);
    let s1 = with_inherited(document, page_id, own, m);
    let s2 = with_inherited(document, page_id, s1, r);
    let s3 = with_inherited(document, page_id, s2, c);
    let s4 = with_inherited(document, page_id, s3, t);
    let source = page_source(document, page_id, entries);
    assert(source == s4);
    kept_entries_are_entries(entries);
    kept_entries_drop(entries);
    inheriting_adds_at_the_end(document, page_id, own, m);
    inheriting_adds_at_the_end(document, page_id, s1, r);
    inheriting_adds_at_the_end(document, page_id, s2, c);
    inheriting_adds_at_the_end(document, page_id, s3, t);
    assert forall|j: int| 0 <= j < own.len() implies #[trigger] source[j] == own[j] by {
        assert(s1[j] == own[j]);
        assert(s2[j] == s1[j]);
        assert(s3[j] == s2[j]);
    }
    assert forall|k: int|
        0 <= k < entries.len() && (#[trigger] entries[k]).0 != "Parent".spec_bytes() && entries[k].0
            != "Annots".spec_bytes() implies source.contains(entries[k]) by {
        let j = kept_entries_hold(entries, k);
        assert(source[j] == own[j]);
    }
    assert forall|j: int| 0 <= j < own.len() implies entries.contains(#[trigger] own[j]) by {
        let k = choose|k: int| 0 <= k < entries.len() && #[trigger] entries[k] == own[j];
        assert(entries[k] == own[j]);
    }
    assert forall|j: int| 0 <= j < source.len() implies {
        ||| entries.contains(#[trigger] source[j]) && source[j].0 != "Parent".spec_bytes()
            && source[j].0 != "Annots".spec_bytes()
        ||| inheritable(source[j].0) && inherited_value(document, page_id, source[j].0, 64) == Some(
            source[j].1,
        )
    } by {
        if j < own.len() {
            assert(source[j] == own[j]);
        } else if j < s1.len() {
            assert(s2[j] == s1[j] && s3[j] == s2[j] && s4[j] == s3[j]);
        } else if j < s2.len() {
            assert(s3[j] == s2[j] && s4[j] == s3[j]);
        } else if j < s3.len() {
            assert(s4[j] == s3[j]);
        }
    }
    assert forall|key: Seq<u8>| #[trigger]
        inheritable(key) && (forall|k: int|
            0 <= k < entries.len() ==> (#[trigger] entries[k]).0 != key) && inherited_value(
            document,
            page_id,
            key,
            64,
        ) is Some implies source.contains(
        (key, inherited_value(document, page_id, key, 64)->0),
    ) by {
        assert forall|j: int| 0 <= j < own.len() implies (#[trigger] own[j]).0 != key by {
            let k = choose|k: int| 0 <= k < entries.len() && #[trigger] entries[k] == own[j];
            assert(entries[k].0 != key);
        }
        assert forall|j: int| 0 <= j < s1.len() && key != m implies (#[trigger] s1[j]).0 != key by {
            if j < own.len() {
                assert(s1[j] == own[j]);
            }
        }
        assert forall|j: int|
            0 <= j < s2.len() && key != m && key != r implies (#[trigger] s2[j]).0 != key by {
            if j < s1.len() {
                assert(s2[j] == s1[j]);
            }
        }
        assert forall|j: int|
            0 <= j < s3.len() && key != m && key != r && key != c implies (#[trigger] s3[j]).0
            != key by {
            if j < s2.len() {
                assert(s3[j] == s2[j]);
            }
        }
        if key == m {
            let j = own.len() as int;
            assert(s1[j].0 == key);
            assert(s2[j] == s1[j] && s3[j] == s2[j] && s4[j] == s3[j]);
        } else if key == r {
            let j = s1.len() as int;
            assert(s2[j].0 == key);
            assert(s3[j] == s2[j] && s4[j] == s3[j]);
        } else if key == c {
            let j = s2.len() as int;
            assert(s3[j].0 == key);
            assert(s4[j] == s3[j]);
        } else {
            let j = s3.len() as int;
            assert(s4[j].0 == key);
        }
    }
}

/// `entries` holds a copy of `value` under `key`: an entry under that key mirrors it as far down
/// as copies go.
pub open spec fn holds_copy(
    memo: Map<u64, u32>,
    entries: Seq<(Seq<u8>, Object)>,
    key: Seq<u8>,
    value: Object,
) -> bool {
    exists|j: int|
        0 <= j < entries.len() && (#[trigger] entries[j]).0 == key && mirrors(
            memo,
            value,
            entries[j].1,
            64,
        )
}

/// `entries` reads like page `page_id` of the source, under the page tree `tree`.
///
/// Every entry of the source page but its parent, its annotations and its type is there, copied
/// under its key. For the media box, the resources, the crop box and the rotation, the nearest
/// value on the way up from the page is there, copied under its key. The page is of type `Page`
/// and its parent is the page tree. There is nothing else, and no annotation.
pub open spec fn reads_like_page(
    document: Document,
    memo: Map<u64, u32>,
    page_id: ObjectId,
    tree: ObjectId,
    entries: Seq<(Seq<u8>, Object)>,
) -> bool {
    let own = dictionary_at(document, page_id)->Ok_0;
    &&& dictionary_at(document, page_id) is Ok
    &&& forall|k: int|
        0 <= k < own.len() && (#[trigger] own[k]).0 != "Parent".spec_bytes() && own[k].0
            != "Annots".spec_bytes() && own[k].0 != "Type".spec_bytes() ==> holds_copy(
            memo,
            entries,
            own[k].0,
            own[k].1,
        )
    &&& forall|key: Seq<u8>, line: Seq<ObjectId>, k: int|
        (key == "MediaBox".spec_bytes() || key == "Resources".spec_bytes() || key
            == "CropBox".spec_bytes() || key == "Rotate".spec_bytes()) && #[trigger] nearest_with(
            document,
            page_id,
            key,
            line,
            k,
        ) ==> holds_copy(memo, entries, key, dictionary_at(document, line.last())->Ok_0[k].1)
    &&& exists|j: int|
        0 <= j < entries.len() && (#[trigger] entries[j]).0 == "Type".spec_bytes() && layer_of(
            entries[j].1,
        ) == LayerModel::Name("Page".spec_bytes())
    &&& exists|j: int|
        0 <= j < entries.len() && (#[trigger] entries[j]).0 == "Parent".spec_bytes() && refers_to(
            entries[j].1,
            tree,
        )
    &&& forall|j: int|
        0 <= j < entries.len() ==> (#[trigger] entries[j]).0 != "Annots".spec_bytes()
    &&& forall|j: int|
        0 <= j < entries.len() ==> {
            let (key, copy) = #[trigger] entries[j];
            ||| key == "Type".spec_bytes() && layer_of(copy) == LayerModel::Name(
                "Page".spec_bytes(),
            )
            ||| key == "Parent".spec_bytes() && refers_to(copy, tree)
            ||| exists|k: int|
                0 <= k < own.len() && (#[trigger] own[k]).0 == key && mirrors(
                    memo,
                    own[k].1,
                    copy,
                    64,
                )
            ||| exists|line: Seq<ObjectId>, k: int| #[trigger]
                nearest_with(document, page_id, key, line, k) && mirrors(
                    memo,
                    dictionary_at(document, line.last())->Ok_0[k].1,
                    copy,
                    64,
                )
        }
}

/// Setting a key leaves it set, and leaves every other entry where it was.
proof fn with_entry_sets(entries: Seq<(Seq<u8>, Object)>, key: Seq<u8>, value: Object) -> (at: int)
    ensures
        ({
            let more = with_entry(entries, key, value);
            &&& 0 <= at < more.len()
            &&& more[at] == (key, value)
            &&& entries.len() <= more.len() <= entries.len() + 1
            &&& forall|j: int|
                0 <= j < more.len() && j != at ==> j < entries.len() && #[trigger] more[j]
                    == entries[j]
            &&& forall|j: int|
                0 <= j < entries.len() && (#[trigger] entries[j]).0 != key ==> j != at && more[j]
                    == entries[j]
        }),
{
    position_stands(entries, key);
    if position(entries, key) < entries.len() {
        position(entries, key)
    } else {
        entries.len() as int
    }
}

proof fn built_page_reads_like_its_source(
    document: Document,
    memo: Map<u64, u32>,
    page_id: ObjectId,
    tree: ObjectId,
    object: Object,
)
    requires
        page_built(document, memo, page_id, tree, object),
    ensures
        layer_of(object) is Dictionary,
        reads_like_page(document, memo, page_id, tree, layer_of(object)->Dictionary_0),
{
    let entries = layer_of(object)->Dictionary_0;
    let own = dictionary_at(document, page_id)->Ok_0;
    let source = page_source(document, page_id, own);
    let base = choose|base: Seq<(Seq<u8>, Object)>| #[trigger]
        page_dictionary_built(document, memo, page_id, tree, base, entries);
    let (kind, up) = choose|kind: Object, up: Object|
        layer_of(kind) == LayerModel::Name("Page".spec_bytes()) && layer_of(up)
            == LayerModel::Reference(tree) && entries == #[trigger] with_entry(
            #[trigger] with_entry(base, "Type".spec_bytes(), kind),
            "Parent".spec_bytes(),
            up,
        );
    let typed = with_entry(base, "Type".spec_bytes(), kind);
    let type_at = with_entry_sets(base, "Type".spec_bytes(), kind);
    let parent_at = with_entry_sets(typed, "Parent".spec_bytes(), up);
    page_names_differ();
    page_source_holds(document, page_id, own);
    // The copy of a source entry, under a key the subset does not set itself.
    assert forall|key: Seq<u8>, value: Object|
        #[trigger] source.contains((key, value)) && key != "Type".spec_bytes() && key
            != "Parent".spec_bytes() implies holds_copy(memo, entries, key, value) by {
        let j = choose|j: int| 0 <= j < source.len() && source[j] == (key, value);
        assert(base[j].0 == source[j].0 && copied(memo, source[j].1, base[j].1, 0));
        a_copy_mirrors_its_source(memo, value, base[j].1, 0);
        assert(typed[j] == base[j]);
        assert(entries[j] == typed[j]);
    }
    assert forall|k: int|
        0 <= k < own.len() && (#[trigger] own[k]).0 != "Parent".spec_bytes() && own[k].0
            != "Annots".spec_bytes() && own[k].0 != "Type".spec_bytes() implies holds_copy(
        memo,
        entries,
        own[k].0,
        own[k].1,
    ) by {
        assert(source.contains(own[k]));
        assert(own[k] == (own[k].0, own[k].1));
    }
    assert forall|key: Seq<u8>, line: Seq<ObjectId>, k: int|
        (key == "MediaBox".spec_bytes() || key == "Resources".spec_bytes() || key
            == "CropBox".spec_bytes() || key == "Rotate".spec_bytes()) && #[trigger] nearest_with(
            document,
            page_id,
            key,
            line,
            k,
        ) implies holds_copy(
        memo,
        entries,
        key,
        dictionary_at(document, line.last())->Ok_0[k].1,
    ) by {
        assert(inheritable(key));
        let value = dictionary_at(document, line.last())->Ok_0[k].1;
        nearest_is_inherited(document, page_id, key, line, k, 64);
        if line.len() == 1 {
            assert(line.last() == page_id);
            assert(source.contains(own[k]));
            assert(own[k] == (key, value));
        } else {
            assert(dictionary_at(document, line[0]) is Ok);
            assert(source.contains((key, value)));
        }
    }
    assert(entries[parent_at] == ("Parent".spec_bytes(), up));
    assert(typed[type_at].0 != "Parent".spec_bytes());
    assert(entries[type_at] == ("Type".spec_bytes(), kind));
    assert forall|j: int| 0 <= j < entries.len() implies ({
        let (key, copy) = #[trigger] entries[j];
        ||| key == "Type".spec_bytes() && layer_of(copy) == LayerModel::Name("Page".spec_bytes())
        ||| key == "Parent".spec_bytes() && refers_to(copy, tree)
        ||| exists|k: int|
            0 <= k < own.len() && (#[trigger] own[k]).0 == key && mirrors(
                memo,
                own[k].1,
                copy,
                64,
            )
        ||| exists|line: Seq<ObjectId>, k: int| #[trigger]
            nearest_with(document, page_id, key, line, k) && mirrors(
                memo,
                dictionary_at(document, line.last())->Ok_0[k].1,
                copy,
                64,
            )
    }) && entries[j].0 != "Annots".spec_bytes() by {
        if j != parent_at {
            assert(entries[j] == typed[j]);
            if j != type_at {
                assert(typed[j] == base[j]);
                assert(base[j].0 == source[j].0 && copied(memo, source[j].1, base[j].1, 0));
                a_copy_mirrors_its_source(memo, source[j].1, base[j].1, 0);
                if own.contains(source[j]) && source[j].0 != "Parent".spec_bytes() && source[j].0
                    != "Annots".spec_bytes() {
                    let k = choose|k: int| 0 <= k < own.len() && own[k] == source[j];
                    assert(own[k].0 == entries[j].0);
                } else {
                    let found = inherited_is_nearest(document, page_id, source[j].0, 64);
                    assert(nearest_with(document, page_id, entries[j].0, found.0, found.1));
                }
            }
        }
    }
    assert forall|j: int| 0 <= j < entries.len() implies (#[trigger] entries[j]).0
        != "Annots".spec_bytes() by {}
}

/// `out` is what a document is saved as that has exactly the pages asked for.
///
/// It declares the source's version. Its trailer names a catalog, the catalog names a page tree,
/// and the page tree counts and lists as many pages as were asked for, in that order. Each of
/// them is a page the source has, and reads like that page. Two objects of the source are never
/// renamed to one. Whatever the pages refer to, directly or over other objects, is there under
/// its new number, and mirrors the source's as far down as copies go; it is null where the source
/// has nothing under that number.
pub open spec fn split_reads_like(
    document: Document,
    pages: Seq<u32>,
    out: Seq<u8>,
    root: ObjectId,
    memo: Map<u64, u32>,
    depths: Map<u64, int>,
    tree: ObjectId,
    kids: Seq<ObjectId>,
    pruned: Document,
) -> bool {
    let objects = held(pruned);
    &&& saved(compressed(renumbered(pruned))) == Ok::<Seq<u8>, Seq<char>>(out)
    &&& version_of(pruned) == version_of(document)
    &&& trailer_of(pruned).len() == 1
    &&& trailer_of(pruned)[0].0 == "Root".spec_bytes()
    &&& layer_of(trailer_of(pruned)[0].1) == LayerModel::Reference(root)
    &&& objects.contains_key(root) && layer_of(objects[root]) is Dictionary && exists|k: int|
        #[trigger]
        stands_at(layer_of(objects[root])->Dictionary_0, "Pages".spec_bytes(), k) && layer_of(
            layer_of(objects[root])->Dictionary_0[k].1,
        ) == LayerModel::Reference(tree)
    &&& objects.contains_key(tree) && layer_of(objects[tree]) is Dictionary && {
        let entries = layer_of(objects[tree])->Dictionary_0;
        &&& exists|k: int| #[trigger]
            stands_at(entries, "Count".spec_bytes(), k) && layer_of(entries[k].1)
                == LayerModel::Integer(pages.len() as i64)
        &&& exists|k: int| #[trigger]
            stands_at(entries, "Kids".spec_bytes(), k) && layer_of(entries[k].1) is Array
                && layer_of(entries[k].1)->Array_0.len() == pages.len() && (forall|i: int|
                0 <= i < pages.len() ==> layer_of(
                    #[trigger] layer_of(entries[k].1)->Array_0[i],
                ) == LayerModel::Reference(kids[i]))
    }
    &&& kids.len() == pages.len()
    &&& forall|i: int|
        0 <= i < pages.len() ==> pages[i] < pages_of(document).len() && objects.contains_key(
            #[trigger] kids[i],
        ) && layer_of(objects[kids[i]]) is Dictionary && reads_like_page(
            document,
            memo,
            pages_of(document)[pages[i] as int],
            tree,
            layer_of(objects[kids[i]])->Dictionary_0,
        )
    &&& forall|a: ObjectId, b: ObjectId|
        memo.contains_key(#[trigger] packed(a)) && memo.contains_key(#[trigger] packed(b))
            && memo[packed(a)] == memo[packed(b)] ==> a == b
    &&& forall|id: ObjectId, steps: nat| #[trigger]
        carried(document, pages, depths, id, steps) ==> {
            let new = ObjectId { number: memo[packed(id)], generation: 0 };
            &&& memo.contains_key(packed(id))
            &&& objects.contains_key(new)
            &&& object_at(document, id) is Some ==> mirrors(
                memo,
                object_at(document, id)->0,
                objects[new],
                64 - depths[packed(id)],
            )
            &&& object_at(document, id) is None ==> layer_of(objects[new]) == LayerModel::Null
        }
}

/// A page whose list has no fault is one the source has.
proof fn faultless_pages_exist(document: Document, pages: Seq<u32>)
    requires
        first_page_fault(document, pages) is None,
    ensures
        forall|i: int|
            0 <= i < pages.len() ==> #[trigger] pages[i] < pages_of(document).len()
                && dictionary_at(document, pages_of(document)[pages[i] as int]) is Ok,
    decreases pages.len(),
{
    if pages.len() > 0 {
        let rest = pages.drop_last();
        faultless_pages_exist(document, rest);
        assert forall|i: int| 0 <= i < pages.len() implies #[trigger] pages[i] < pages_of(
            document,
        ).len() && dictionary_at(document, pages_of(document)[pages[i] as int]) is Ok by {
            if i < rest.len() {
                assert(rest[i] == pages[i]);
            }
        }
    }
}

proof fn carried_over_reads_like(
    document: Document,
    pages: Seq<u32>,
    out: Seq<u8>,
    root: ObjectId,
    memo: Map<u64, u32>,
    depths: Map<u64, int>,
    tree: ObjectId,
    kids: Seq<ObjectId>,
    pruned: Document,
)
    requires
        carries_over(document, pages, out, root, memo, depths, tree, kids, pruned),
    ensures
        split_reads_like(document, pages, out, root, memo, depths, tree, kids, pruned),
{
    let objects = held(pruned);
    names_differ();
    faultless_pages_exist(document, pages);
    let catalog = layer_of(objects[root])->Dictionary_0;
    assert(stands_at(catalog, "Pages".spec_bytes(), 1));
    let node = layer_of(objects[tree])->Dictionary_0;
    assert(stands_at(node, "Count".spec_bytes(), 1));
    assert(stands_at(node, "Kids".spec_bytes(), 2)) by {
        assert forall|i: int| 0 <= i < 2 implies (#[trigger] node[i]).0 != "Kids".spec_bytes() by {
            if i == 0 {
                assert(node[0].0 == "Type".spec_bytes());
            } else {
                assert(node[1].0 == "Count".spec_bytes());
            }
        }
    }
    assert forall|i: int| 0 <= i < pages.len() implies layer_of(
        #[trigger] layer_of(node[2].1)->Array_0[i],
    ) == LayerModel::Reference(kids[i]) by {}
    assert forall|i: int| 0 <= i < pages.len() implies pages[i] < pages_of(document).len()
        && objects.contains_key(#[trigger] kids[i]) && layer_of(objects[kids[i]]) is Dictionary
        && reads_like_page(
        document,
        memo,
        pages_of(document)[pages[i] as int],
        tree,
        layer_of(objects[kids[i]])->Dictionary_0,
    ) by {
        built_page_reads_like_its_source(
            document,
            memo,
            pages_of(document)[pages[i] as int],
            tree,
            objects[kids[i]],
        );
    }
    assert forall|a: ObjectId, b: ObjectId|
        memo.contains_key(#[trigger] packed(a)) && memo.contains_key(#[trigger] packed(b))
            && memo[packed(a)] == memo[packed(b)] implies a == b by {
        packed_numbers_tell_objects_apart(a, b);
    }
    assert forall|id: ObjectId, steps: nat| #[trigger]
        carried(document, pages, depths, id, steps) implies {
        let new = ObjectId { number: memo[packed(id)], generation: 0 };
        &&& memo.contains_key(packed(id))
        &&& objects.contains_key(new)
        &&& object_at(document, id) is Some ==> mirrors(
            memo,
            object_at(document, id)->0,
            objects[new],
            64 - depths[packed(id)],
        )
        &&& object_at(document, id) is None ==> layer_of(objects[new]) == LayerModel::Null
    } by {
        let new = renamed(memo, id);
        if object_at(document, id) is Some {
            assert(depth_earned(document, pages, memo, depths, id));
            reveal(depth_earned);
            a_copy_mirrors_its_source(
                memo,
                object_at(document, id)->0,
                objects[new],
                depths[packed(id)],
            );
        }
    }
    assert(split_reads_like(document, pages, out, root, memo, depths, tree, kids, pruned));
}

/// A split that succeeds has exactly the pages asked for, in the order asked for, and each of
/// them reads like the source's: with every entry of its own, with the media box, the resources,
/// the crop box and the rotation that lie nearest on the way up from it, and with everything
/// those refer to.
pub proof fn a_split_page_reads_like_its_source(bytes: Seq<u8>, pages: Seq<u32>, out: Seq<u8>)
    requires
        may_split(bytes, pages, Ok(out)),
    ensures
        pages.len() > 0,
        pdf_magic(bytes),
        exists|
            document: Document,
            root: ObjectId,
            memo: Map<u64, u32>,
            depths: Map<u64, int>,
            tree: ObjectId,
            kids: Seq<ObjectId>,
            pruned: Document,
        |
            may_load(bytes, Ok(document)) && #[trigger] split_reads_like(
                document,
                pages,
                out,
                root,
                memo,
                depths,
                tree,
                kids,
                pruned,
            ),
{
    a_split_carries_its_pages_over(bytes, pages, out);
    let (document, root, memo, depths, tree, kids, pruned) = choose|
        document: Document,
        root: ObjectId,
        memo: Map<u64, u32>,
        depths: Map<u64, int>,
        tree: ObjectId,
        kids: Seq<ObjectId>,
        pruned: Document,
    |
        may_load(bytes, Ok(document)) && #[trigger] carries_over(
            document,
            pages,
            out,
            root,
            memo,
            depths,
            tree,
            kids,
            pruned,
        );
    carried_over_reads_like(document, pages, out, root, memo, depths, tree, kids, pruned);
}

/// Remapping changes page numbers and nothing else: a page numbered by a position in the split
/// document gets the number that was asked for at that position, any other keeps its own, and the
/// markdown, the models, the counts and the size stay.
pub proof fn remapping_changes_only_page_numbers(result: OcrResultModel, pages: Seq<u32>)
    ensures
        ({
            let out = remapped(result, pages);
            &&& out.pages.len() == result.pages.len()
            &&& out.model == result.model
            &&& out.pages_processed == result.pages_processed
            &&& out.doc_size_bytes == result.doc_size_bytes
            &&& forall|i: int|
                0 <= i < result.pages.len() ==> {
                    let page = #[trigger] out.pages[i];
                    let was = result.pages[i];
                    &&& page.markdown == was.markdown
                    &&& page.model == was.model
                    &&& was.index < pages.len() ==> page.index == pages[was.index as int]
                    &&& was.index >= pages.len() ==> page.index == was.index
                }
        }),
{
}

/// A way into an object ends at a reference to source object `id`.
pub open spec fn refers_at(object: Object, path: Seq<int>, id: ObjectId) -> bool {
    at_path(object, path) is Some && layer_of(at_path(object, path)->0) == LayerModel::Reference(id)
}

/// A page of the source has `value` under `key`: among its own entries, its parent and its
/// annotations aside, or as the nearest media box, resources, crop box or rotation on the way up.
pub open spec fn page_value(
    document: Document,
    page_id: ObjectId,
    key: Seq<u8>,
    value: Object,
) -> bool {
    let own = dictionary_at(document, page_id)->Ok_0;
    ||| key != "Parent".spec_bytes() && key != "Annots".spec_bytes() && exists|k: int|
        0 <= k < own.len() && #[trigger] own[k] == (key, value)
    ||| (key == "MediaBox".spec_bytes() || key == "Resources".spec_bytes() || key
        == "CropBox".spec_bytes() || key == "Rotate".spec_bytes()) && exists|
        line: Seq<ObjectId>,
        k: int,
    | #[trigger]
        nearest_with(document, page_id, key, line, k) && dictionary_at(
            document,
            line.last(),
        )->Ok_0[k].1 == value
}

/// Following references from one of `pages` comes to source object `id` over `length` steps: one
/// for each layer down in an object, and one for each reference.
pub open spec fn way_to(document: Document, pages: Seq<u32>, id: ObjectId, length: int) -> bool
    decreases length,
{
    ||| exists|i: int, key: Seq<u8>, value: Object, path: Seq<int>|
        0 <= i < pages.len() && #[trigger] page_value(
            document,
            pages_of(document)[pages[i] as int],
            key,
            value,
        ) && #[trigger] refers_at(value, path, id) && length == path.len() + 1
    ||| exists|from: ObjectId, path: Seq<int>|
        path.len() + 1 <= length && way_to(document, pages, from, length - path.len() - 1)
            && object_at(document, from) is Some && #[trigger] refers_at(
            object_at(document, from)->0,
            path,
            id,
        )
}

/// One of `pages` leads to source object `id`, over at most `steps` other objects: by references
/// that lie at most sixty-four layers down, `depths` saying how far down an object lies itself.
pub open spec fn led_to(
    document: Document,
    pages: Seq<u32>,
    depths: Map<u64, int>,
    id: ObjectId,
    steps: nat,
) -> bool
    decreases steps,
{
    if steps == 0 {
        exists|i: int, key: Seq<u8>, value: Object, path: Seq<int>|
            0 <= i < pages.len() && key != "Type".spec_bytes() && #[trigger] page_value(
                document,
                pages_of(document)[pages[i] as int],
                key,
                value,
            ) && path.len() <= 64 && #[trigger] refers_at(value, path, id)
    } else {
        ||| led_to(document, pages, depths, id, (steps - 1) as nat)
        ||| exists|from: ObjectId, path: Seq<int>|
            led_to(document, pages, depths, from, (steps - 1) as nat) && object_at(
                document,
                from,
            ) is Some && depths[packed(from)] + path.len() <= 64 && #[trigger] refers_at(
                object_at(document, from)->0,
                path,
                id,
            )
    }
}

/// Source object `id` stands in `objects` under its new number: mirrored as far down as is left
/// of sixty-four layers, or null where the source has nothing under its number.
pub open spec fn stands_mirrored(
    document: Document,
    memo: Map<u64, u32>,
    depths: Map<u64, int>,
    objects: Map<ObjectId, Object>,
    id: ObjectId,
) -> bool {
    let new = ObjectId { number: memo[packed(id)], generation: 0 };
    &&& memo.contains_key(packed(id))
    &&& objects.contains_key(new)
    &&& object_at(document, id) is Some ==> mirrors(
        memo,
        object_at(document, id)->0,
        objects[new],
        64 - depths[packed(id)],
    )
    &&& object_at(document, id) is None ==> layer_of(objects[new]) == LayerModel::Null
}

proof fn at_path_lies_in(object: Object, path: Seq<int>)
    requires
        at_path(object, path) is Some,
    ensures
        lies_in(object, at_path(object, path)->0, path.len() as int),
    decreases path.len(),
{
    if path.len() > 0 {
        let above = path.drop_last();
        at_path_lies_in(object, above);
        let mid = at_path(object, above)->0;
        let inner = at_path(object, path)->0;
        let i = path.last();
        match layer_of(mid) {
            LayerModel::Array(items) => {
                assert(items[i] == inner);
            },
            LayerModel::Dictionary(entries) => {
                assert(entries[i].1 == inner);
            },
            LayerModel::Stream(entries, _) => {
                assert(entries[i].1 == inner);
            },
            _ => {},
        }
        assert(child_of(mid, inner));
    }
}

proof fn lies_in_at_path(object: Object, inner: Object, layers: int) -> (path: Seq<int>)
    requires
        lies_in(object, inner, layers),
    ensures
        path.len() == layers,
        at_path(object, path) == Some(inner),
    decreases layers,
{
    if layers == 0 {
        Seq::empty()
    } else {
        let mid = choose|mid: Object|
            lies_in(object, mid, layers - 1) && #[trigger] child_of(mid, inner);
        let above = lies_in_at_path(object, mid, layers - 1);
        let i = match layer_of(mid) {
            LayerModel::Array(items) => choose|i: int|
                0 <= i < items.len() && #[trigger] items[i] == inner,
            LayerModel::Dictionary(entries) => choose|i: int|
                0 <= i < entries.len() && (#[trigger] entries[i]).1 == inner,
            LayerModel::Stream(entries, _) => choose|i: int|
                0 <= i < entries.len() && (#[trigger] entries[i]).1 == inner,
            _ => 0,
        };
        let path = above.push(i);
        assert(path.drop_last() =~= above);
        path
    }
}

/// A page's values are what it is copied from.
proof fn page_values_are_the_source(document: Document, page_id: ObjectId)
    ensures
        ({
            let source = page_source(document, page_id, dictionary_at(document, page_id)->Ok_0);
            &&& forall|key: Seq<u8>, value: Object| #[trigger]
                page_value(document, page_id, key, value) ==> source.contains((key, value))
            &&& forall|j: int|
                0 <= j < source.len() ==> page_value(
                    document,
                    page_id,
                    (#[trigger] source[j]).0,
                    source[j].1,
                )
        }),
{
    let own = dictionary_at(document, page_id)->Ok_0;
    let source = page_source(document, page_id, own);
    page_names_differ();
    page_source_holds(document, page_id, own);
    assert forall|key: Seq<u8>, value: Object| #[trigger]
        page_value(document, page_id, key, value) implies source.contains((key, value)) by {
        if key != "Parent".spec_bytes() && key != "Annots".spec_bytes() && exists|k: int|
            0 <= k < own.len() && #[trigger] own[k] == (key, value) {
            let k = choose|k: int| 0 <= k < own.len() && #[trigger] own[k] == (key, value);
            assert(own[k].0 == key);
        } else {
            assert(inheritable(key));
            let (line, k) = choose|line: Seq<ObjectId>, k: int| #[trigger]
                nearest_with(document, page_id, key, line, k) && dictionary_at(
                    document,
                    line.last(),
                )->Ok_0[k].1 == value;
            nearest_is_inherited(document, page_id, key, line, k, 64);
            if line.len() == 1 {
                assert(line.last() == page_id);
                assert(source.contains(own[k]));
                assert(own[k] == (key, value));
            } else {
                assert(dictionary_at(document, line[0]) is Ok);
                assert(source.contains((key, value)));
            }
        }
    }
    assert forall|j: int| 0 <= j < source.len() implies page_value(
        document,
        page_id,
        (#[trigger] source[j]).0,
        source[j].1,
    ) by {
        if own.contains(source[j]) && source[j].0 != "Parent".spec_bytes() && source[j].0
            != "Annots".spec_bytes() {
            let k = choose|k: int| 0 <= k < own.len() && own[k] == source[j];
            assert(own[k] == (source[j].0, source[j].1));
        } else {
            let found = inherited_is_nearest(document, page_id, source[j].0, 64);
            assert(nearest_with(document, page_id, source[j].0, found.0, found.1));
        }
    }
}

proof fn led_to_is_carried(
    document: Document,
    pages: Seq<u32>,
    depths: Map<u64, int>,
    id: ObjectId,
    steps: nat,
)
    requires
        led_to(document, pages, depths, id, steps),
    ensures
        carried(document, pages, depths, id, steps),
    decreases steps,
{
    page_names_differ();
    if steps == 0 {
        let (i, key, value, path) = choose|i: int, key: Seq<u8>, value: Object, path: Seq<int>|
            0 <= i < pages.len() && key != "Type".spec_bytes() && #[trigger] page_value(
                document,
                pages_of(document)[pages[i] as int],
                key,
                value,
            ) && path.len() <= 64 && #[trigger] refers_at(value, path, id);
        page_values_are_the_source(document, pages_of(document)[pages[i] as int]);
        let source = source_of(document, pages[i]);
        assert(inheritable(key) || key != "Parent".spec_bytes());
        let j = choose|j: int| 0 <= j < source.len() && source[j] == (key, value);
        at_path_lies_in(value, path);
        let reference = at_path(value, path)->0;
        assert(lies_in(source[j].1, reference, path.len() as int));
        assert(refers_to(reference, id));
        assert(page_refers(document, pages, id));
    } else if led_to(document, pages, depths, id, (steps - 1) as nat) {
        led_to_is_carried(document, pages, depths, id, (steps - 1) as nat);
    } else {
        let (from, path) = choose|from: ObjectId, path: Seq<int>|
            led_to(document, pages, depths, from, (steps - 1) as nat) && object_at(
                document,
                from,
            ) is Some && depths[packed(from)] + path.len() <= 64 && #[trigger] refers_at(
                object_at(document, from)->0,
                path,
                id,
            );
        led_to_is_carried(document, pages, depths, from, (steps - 1) as nat);
        let object = object_at(document, from)->0;
        at_path_lies_in(object, path);
        assert(refers_to(at_path(object, path)->0, id));
        assert(object_refers(document, from, depths[packed(from)], id));
    }
}

proof fn depths_are_ways(
    document: Document,
    pages: Seq<u32>,
    memo: Map<u64, u32>,
    depths: Map<u64, int>,
    id: ObjectId,
)
    requires
        memo.contains_key(packed(id)),
        forall|other: ObjectId|
            memo.contains_key(#[trigger] packed(other)) ==> depth_earned(
                document,
                pages,
                memo,
                depths,
                other,
            ),
    ensures
        way_to(document, pages, id, depths[packed(id)]),
    decreases memo[packed(id)],
{
    reveal(depth_earned);
    reveal(met_at);
    assert(depth_earned(document, pages, memo, depths, id));
    let at = depths[packed(id)] - 1;
    let before = memo[packed(id)] as int;
    let reference = choose|reference: Object| #[trigger]
        refers_to(reference, id) && met_at(
            document,
            pages,
            memo,
            depths,
            reference,
            depths[packed(id)] - 1,
            memo[packed(id)] as int,
        );
    if exists|i: int, j: int|
        0 <= i < pages.len() && 0 <= j < source_of(document, pages[i]).len()
            && #[trigger] lies_in(source_of(document, pages[i])[j].1, reference, at) {
        let (i, j) = choose|i: int, j: int|
            0 <= i < pages.len() && 0 <= j < source_of(document, pages[i]).len()
                && #[trigger] lies_in(source_of(document, pages[i])[j].1, reference, at);
        let source = source_of(document, pages[i]);
        page_values_are_the_source(document, pages_of(document)[pages[i] as int]);
        let path = lies_in_at_path(source[j].1, reference, at);
        assert(page_value(
            document,
            pages_of(document)[pages[i] as int],
            source[j].0,
            source[j].1,
        ));
        assert(refers_at(source[j].1, path, id));
    } else {
        let (from, layers) = choose|from: ObjectId, layers: int|
            memo.contains_key(packed(from)) && memo[packed(from)] < before && object_at(
                document,
                from,
            ) is Some && #[trigger] lies_in(object_at(document, from)->0, reference, layers)
                && at == depths[packed(from)] + layers;
        depths_are_ways(document, pages, memo, depths, from);
        assert(depth_earned(document, pages, memo, depths, from));
        let path = lies_in_at_path(object_at(document, from)->0, reference, layers);
        assert(depths[packed(id)] - path.len() - 1 == depths[packed(from)]);
        assert(refers_at(object_at(document, from)->0, path, id));
    }
}

/// Everything a page of a split leads to is carried over with it: a reference at most sixty-four
/// layers down in one of its values, or in an object that such references lead to, has its object
/// in the written document, mirrored. How far down an object lies is the length of a way to it,
/// so where no way is longer nothing is left out.
pub proof fn everything_a_split_page_leads_to_is_carried_over(
    bytes: Seq<u8>,
    pages: Seq<u32>,
    out: Seq<u8>,
)
    requires
        may_split(bytes, pages, Ok(out)),
    ensures
        exists|
            document: Document,
            root: ObjectId,
            memo: Map<u64, u32>,
            depths: Map<u64, int>,
            tree: ObjectId,
            kids: Seq<ObjectId>,
            pruned: Document,
        |
            may_load(bytes, Ok(document)) && #[trigger] split_reads_like(
                document,
                pages,
                out,
                root,
                memo,
                depths,
                tree,
                kids,
                pruned,
            ) && (forall|id: ObjectId, steps: nat| #[trigger]
                led_to(document, pages, depths, id, steps) ==> stands_mirrored(
                    document,
                    memo,
                    depths,
                    held(pruned),
                    id,
                )) && (forall|id: ObjectId|
                memo.contains_key(#[trigger] packed(id)) ==> way_to(
                    document,
                    pages,
                    id,
                    depths[packed(id)],
                )),
{
    a_split_carries_its_pages_over(bytes, pages, out);
    let (document, root, memo, depths, tree, kids, pruned) = choose|
        document: Document,
        root: ObjectId,
        memo: Map<u64, u32>,
        depths: Map<u64, int>,
        tree: ObjectId,
        kids: Seq<ObjectId>,
        pruned: Document,
    |
        may_load(bytes, Ok(document)) && #[trigger] carries_over(
            document,
            pages,
            out,
            root,
            memo,
            depths,
            tree,
            kids,
            pruned,
        );
    carried_over_reads_like(document, pages, out, root, memo, depths, tree, kids, pruned);
    assert forall|id: ObjectId, steps: nat| #[trigger]
        led_to(document, pages, depths, id, steps) implies stands_mirrored(
        document,
        memo,
        depths,
        held(pruned),
        id,
    ) by {
        led_to_is_carried(document, pages, depths, id, steps);
        assert(carried(document, pages, depths, id, steps));
    }
    assert forall|id: ObjectId| memo.contains_key(#[trigger] packed(id)) implies way_to(
        document,
        pages,
        id,
        depths[packed(id)],
    ) by {
        depths_are_ways(document, pages, memo, depths, id);
    }
}

/// `error` is why page `page` of the source cannot be kept: its number is the last there is, or
/// past the pages of the source, or the source has no dictionary for it.
pub open spec fn refused_for(document: Document, page: u32, error: ErrorModel) -> bool {
    ||| page == 0xffff_ffff && error == ErrorModel::Split(
        "page index "@ + decimal(page as nat) + " overflows"@,
    )
    ||| page != 0xffff_ffff && page >= pages_of(document).len() && error == ErrorModel::Split(
        "page "@ + decimal(page as nat) + " is out of range for a "@ + decimal(
            pages_of(document).len(),
        ) + "-page document"@,
    )
    ||| page < pages_of(document).len() && (dictionary_at(
        document,
        pages_of(document)[page as int],
    ) matches Err(detail) && error == ErrorModel::Split(
        "page "@ + decimal(page as nat) + ": "@ + detail,
    ))
}

/// The source has a page of this number, and a dictionary for it.
pub open spec fn can_be_kept(document: Document, page: u32) -> bool {
    page != 0xffff_ffff && page < pages_of(document).len() && dictionary_at(
        document,
        pages_of(document)[page as int],
    ) is Ok
}

proof fn the_first_fault_is_the_first_pages(document: Document, pages: Seq<u32>)
    ensures
        first_page_fault(document, pages) is None <==> forall|i: int|
            0 <= i < pages.len() ==> can_be_kept(document, #[trigger] pages[i]),
        first_page_fault(document, pages) is Some ==> exists|i: int|
            0 <= i < pages.len() && refused_for(
                document,
                #[trigger] pages[i],
                ErrorModel::Split(first_page_fault(document, pages)->0),
            ) && forall|k: int| 0 <= k < i ==> can_be_kept(document, #[trigger] pages[k]),
    decreases pages.len(),
{
    if pages.len() > 0 {
        let rest = pages.drop_last();
        let n = rest.len() as int;
        the_first_fault_is_the_first_pages(document, rest);
        if first_page_fault(document, rest) is Some {
            let i = choose|i: int|
                0 <= i < rest.len() && refused_for(
                    document,
                    #[trigger] rest[i],
                    ErrorModel::Split(first_page_fault(document, rest)->0),
                ) && forall|k: int| 0 <= k < i ==> can_be_kept(document, #[trigger] rest[k]);
            assert(pages[i] == rest[i]);
            assert forall|k: int| 0 <= k < i implies can_be_kept(document, #[trigger] pages[k]) by {
                assert(rest[k] == pages[k]);
            }
            let bad = choose|k: int| 0 <= k < rest.len() && !can_be_kept(document, rest[k]);
            assert(pages[bad] == rest[bad]);
        } else {
            assert forall|k: int| 0 <= k < n implies can_be_kept(document, #[trigger] pages[k]) by {
                assert(rest[k] == pages[k]);
            }
            assert(pages[n] == pages.last());
        }
    }
}

/// Why a split is refused. Bytes that do not start with `%PDF`, and only those, are no PDF. An
/// empty list asks for nothing. Otherwise the document could not be loaded; or a page asked for
/// cannot be kept, and the first such page is named; or every page can be kept, and the document
/// could not be saved or would need more object numbers than there are.
pub proof fn why_a_split_is_refused(bytes: Seq<u8>, pages: Seq<u32>, error: ErrorModel)
    requires
        may_split(bytes, pages, Err(error)),
    ensures
        error is NotPdf <==> !(bytes.len() >= 4 && bytes[0] == 0x25 && bytes[1] == 0x50 && bytes[2]
            == 0x44 && bytes[3] == 0x46),
        error is NotPdf || error is Split,
        error !is NotPdf && pages.len() == 0 ==> error == ErrorModel::Split("no pages requested"@),
        error !is NotPdf && pages.len() > 0 ==> {
            ||| exists|detail: Seq<char>| #[trigger]
                may_load(bytes, Err(detail)) && error == ErrorModel::Split(detail)
            ||| exists|document: Document, i: int|
                #![trigger may_load(bytes, Ok(document)), pages[i]]
                may_load(bytes, Ok(document)) && 0 <= i < pages.len() && refused_for(
                    document,
                    pages[i],
                    error,
                ) && forall|k: int| 0 <= k < i ==> can_be_kept(document, #[trigger] pages[k])
            ||| exists|document: Document, pruned: Document|
                #![trigger may_load(bytes, Ok(document)), saved(compressed(renumbered(pruned)))]
                may_load(bytes, Ok(document)) && (forall|k: int|
                    0 <= k < pages.len() ==> can_be_kept(document, #[trigger] pages[k])) && (saved(
                    compressed(renumbered(pruned)),
                ) matches Err(detail) && error == ErrorModel::Split(detail))
            ||| exists|document: Document|
                #[trigger] may_load(bytes, Ok(document)) && error == ErrorModel::Split(
                    "object numbers exhausted"@,
                ) && forall|world: Set<u64>|
                    closed_under_references(document, world) && pages_refer_within(
                        document,
                        pages,
                        world,
                    ) && #[trigger] world.finite() ==> world.len() + pages.len() + 2 > 0xffff_ffff
            ||| exists|document: Document, pruned: Document|
                #![trigger may_load(bytes, Ok(document)), held(pruned)]
                may_load(bytes, Ok(document)) && error == ErrorModel::Split(
                    "object numbers exhausted"@,
                ) && (held(pruned).len() > 0xffff_fffc || pages_of(pruned).len() > 0x7fff_ffff)
        },
{
    if pdf_magic(bytes) && pages.len() > 0 && !exists|detail: Seq<char>| #[trigger]
        may_load(bytes, Err(detail)) && error == ErrorModel::Split(detail) {
        let document = choose|document: Document| #[trigger]
            may_load(bytes, Ok(document)) && may_write_subset(document, pages, Err(error));
        assert(may_load(bytes, Ok(document)));
        the_first_fault_is_the_first_pages(document, pages);
        if first_page_fault(document, pages) is Some && error == ErrorModel::Split(
            first_page_fault(document, pages)->0,
        ) {
            let i = choose|i: int|
                0 <= i < pages.len() && refused_for(
                    document,
                    #[trigger] pages[i],
                    ErrorModel::Split(first_page_fault(document, pages)->0),
                ) && forall|k: int| 0 <= k < i ==> can_be_kept(document, #[trigger] pages[k]);
            assert(refused_for(document, pages[i], error));
        } else if !fits(document, pages) && error == ErrorModel::Split(IDS_EXHAUSTED@) {
            assert forall|world: Set<u64>|
                closed_under_references(document, world) && pages_refer_within(
                    document,
                    pages,
                    world,
                ) && #[trigger] world.finite() implies world.len() + pages.len() + 2
                > 0xffff_ffff by {
                assert(!fits_in(document, pages, world));
            }
        } else {
            let (objects, root, written) = choose|
                objects: Seq<Numbered>,
                root: ObjectId,
                written: Result<Seq<u8>, Seq<char>>,
            |
                subset_built(document, pages, objects, root) && #[trigger] may_write(
                    version_of(document),
                    objects,
                    root,
                    written,
                ) && Err::<Seq<u8>, ErrorModel>(error) == match written {
                    Ok(bytes) => Ok(bytes),
                    Err(detail) => Err(ErrorModel::Split(detail)),
                };
            let (assembled, pruned) = choose|assembled: Document, pruned: Document|
                assembled_from(assembled, version_of(document), objects, root)
                    && #[trigger] pruned_from(assembled, pruned) && written == (if overfull(
                    pruned,
                ) {
                    Err(IDS_EXHAUSTED@)
                } else {
                    saved(compressed(renumbered(pruned)))
                }) && (written is Ok ==> pdf_magic(written->Ok_0));
            let detail = written->Err_0;
            assert(error == ErrorModel::Split(detail));
            if overfull(pruned) {
                assert(held(pruned).len() > 0xffff_fffc || pages_of(pruned).len() > 0x7fff_ffff);
            } else {
                assert(saved(compressed(renumbered(pruned))) == Err::<Seq<u8>, Seq<char>>(detail));
            }
        }
    }
}

/// [`split_pdf`] returns a document with exactly the pages asked for, each reading like the
/// source's, with everything they lead to.
pub proof fn split_pdf_returns_the_pages_asked_for(
    bytes: &[u8],
    pages: &[u32],
    out: Result<Vec<u8>, Error>,
)
    requires
        call_ensures(split_pdf, (bytes, pages), out),
        out is Ok,
    ensures
        exists|
            document: Document,
            root: ObjectId,
            memo: Map<u64, u32>,
            depths: Map<u64, int>,
            tree: ObjectId,
            kids: Seq<ObjectId>,
            pruned: Document,
        |
            may_load(bytes@, Ok(document)) && #[trigger] split_reads_like(
                document,
                pages@,
                out->Ok_0@,
                root,
                memo,
                depths,
                tree,
                kids,
                pruned,
            ) && (forall|id: ObjectId, steps: nat| #[trigger]
                led_to(document, pages@, depths, id, steps) ==> stands_mirrored(
                    document,
                    memo,
                    depths,
                    held(pruned),
                    id,
                )) && (forall|id: ObjectId|
                memo.contains_key(#[trigger] packed(id)) ==> way_to(
                    document,
                    pages@,
                    id,
                    depths[packed(id)],
                )),
{
    everything_a_split_page_leads_to_is_carried_over(bytes@, pages@, out->Ok_0@);
}

/// [`remap_pages`] gives a page numbered by its place in the split document the number that was
/// asked for at that place, and changes nothing else.
pub proof fn remap_pages_changes_only_numbers(result: &mut OcrResult, pages: &[u32])
    requires
        call_ensures(remap_pages, (result, pages), ()),
    ensures
        final(result)@.model == old(result)@.model,
        final(result)@.pages_processed == old(result)@.pages_processed,
        final(result)@.doc_size_bytes == old(result)@.doc_size_bytes,
        final(result)@.pages.len() == old(result)@.pages.len(),
        forall|i: int|
            0 <= i < final(result)@.pages.len() ==> (#[trigger] final(result)@.pages[i]).markdown
                == old(result)@.pages[i].markdown && final(result)@.pages[i].model
                == old(result)@.pages[i].model && final(result)@.pages[i].index == (
            if old(result)@.pages[i].index < pages@.len() {
                pages@[old(result)@.pages[i].index as int]
            } else {
                old(result)@.pages[i].index
            }),
{
}

} // verus!
