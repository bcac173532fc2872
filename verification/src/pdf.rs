//! The boundary to the `lopdf` crate: documents, and PDF objects one layer at a time.
//!
//! A PDF object is opened into a [`Layer`], whose children are objects again, and a layer is
//! closed back into an object. What a document holds is named, not described: the names say
//! only that asking the same document the same thing gives the same answer.

use crate::classify::pdf_magic;
use lopdf::{Document, Object};
use vstd::prelude::*;
use vstd::string::*;

verus! {

/// A parsed PDF document.
#[verifier::external_type_specification]
#[verifier::external_body]
pub struct ExDocument(lopdf::Document);

/// One PDF object.
#[verifier::external_type_specification]
#[verifier::external_body]
pub struct ExObject(lopdf::Object);

/// An object identifier: object number and generation number.
#[derive(Clone, Copy, Debug, PartialEq, Eq, Structural)]
pub struct ObjectId {
    /// The object number.
    pub number: u32,
    /// The generation number.
    pub generation: u16,
}

/// One dictionary entry.
#[derive(Debug)]
pub struct Entry {
    /// The key, without its leading slash.
    pub key: Vec<u8>,
    /// The value.
    pub value: Object,
}

/// The key and value of an entry.
pub open spec fn entry_model(entry: Entry) -> (Seq<u8>, Object) {
    (entry.key@, entry.value)
}

/// The keys and values of a list of entries.
pub open spec fn entry_models(entries: Seq<Entry>) -> Seq<(Seq<u8>, Object)> {
    entries.map_values(|e: Entry| entry_model(e))
}

/// No key twice.
pub open spec fn distinct_keys(entries: Seq<(Seq<u8>, Object)>) -> bool {
    forall|i: int, j: int|
        0 <= i < j < entries.len() ==> (#[trigger] entries[i]).0 != (#[trigger] entries[j]).0
}

/// Where a key first stands among entries; their number when it does not.
pub open spec fn position(entries: Seq<(Seq<u8>, Object)>, key: Seq<u8>) -> int
    decreases entries.len(),
{
    if entries.len() == 0 || entries[0].0 == key {
        0
    } else {
        1 + position(entries.subrange(1, entries.len() as int), key)
    }
}

/// The entries with `key` set to `value`: in place when the key is there, at the end when not.
pub open spec fn with_entry(
    entries: Seq<(Seq<u8>, Object)>,
    key: Seq<u8>,
    value: Object,
) -> Seq<(Seq<u8>, Object)> {
    if position(entries, key) < entries.len() {
        entries.update(position(entries, key), (key, value))
    } else {
        entries.push((key, value))
    }
}

/// A stream without its dictionary.
#[derive(Debug)]
pub struct StreamBody {
    /// The bytes.
    pub content: Vec<u8>,
    /// Whether the bytes may be compressed.
    pub allows_compression: bool,
    /// Where the bytes start in the file they came from.
    pub start_position: Option<usize>,
}

/// A [`StreamBody`] over sequences.
pub ghost struct StreamBodyModel {
    pub content: Seq<u8>,
    pub allows_compression: bool,
    pub start_position: Option<usize>,
}

impl View for StreamBody {
    type V = StreamBodyModel;

    open spec fn view(&self) -> StreamBodyModel {
        StreamBodyModel {
            content: self.content@,
            allows_compression: self.allows_compression,
            start_position: self.start_position,
        }
    }
}

/// One layer of a PDF object.
#[derive(Debug)]
pub enum Layer {
    /// The null object.
    Null,
    /// A number without a fraction.
    Integer(i64),
    /// A name, without its leading slash.
    Name(Vec<u8>),
    /// A pointer to another object.
    Reference(ObjectId),
    /// A list of objects.
    Array(Vec<Object>),
    /// A dictionary.
    Dictionary(Vec<Entry>),
    /// A stream: its dictionary, and the rest of it.
    Stream(Vec<Entry>, StreamBody),
    /// Any other object: nothing inside it refers to another object.
    Other(Object),
}

/// A [`Layer`] over sequences.
pub ghost enum LayerModel {
    Null,
    Integer(i64),
    Name(Seq<u8>),
    Reference(ObjectId),
    Array(Seq<Object>),
    Dictionary(Seq<(Seq<u8>, Object)>),
    Stream(Seq<(Seq<u8>, Object)>, StreamBodyModel),
    Other(Object),
}

impl View for Layer {
    type V = LayerModel;

    open spec fn view(&self) -> LayerModel {
        match self {
            Layer::Null => LayerModel::Null,
            Layer::Integer(n) => LayerModel::Integer(*n),
            Layer::Name(name) => LayerModel::Name(name@),
            Layer::Reference(id) => LayerModel::Reference(*id),
            Layer::Array(items) => LayerModel::Array(items@),
            Layer::Dictionary(entries) => LayerModel::Dictionary(entry_models(entries@)),
            Layer::Stream(entries, body) => LayerModel::Stream(entry_models(entries@), body@),
            Layer::Other(object) => LayerModel::Other(*object),
        }
    }
}

impl LayerModel {
    /// Whether the layer is one an object can have: a dictionary has no key twice.
    pub open spec fn proper(self) -> bool {
        match self {
            LayerModel::Dictionary(entries) => distinct_keys(entries),
            LayerModel::Stream(entries, _) => distinct_keys(entries),
            _ => true,
        }
    }
}

/// The outermost layer of an object.
pub uninterp spec fn layer_of(object: Object) -> LayerModel;

/// Open a `lopdf::Object` by matching on its variant.
///
/// Claimed of it: the layer is the one named for this object; a dictionary, being a map, has
/// no key twice; an object handed back unopened is the object itself.
#[verifier::external_body]
pub(crate) fn open_object(object: Object) -> (r: Layer)
    ensures
        r@ == layer_of(object),
        r@.proper(),
        r is Other ==> r->Other_0 == object,
{
    match object {
        Object::Null => Layer::Null,
        Object::Integer(n) => Layer::Integer(n),
        Object::Name(name) => Layer::Name(name),
        Object::Reference((number, generation)) => Layer::Reference(ObjectId { number, generation }),
        Object::Array(items) => Layer::Array(items),
        Object::Dictionary(dict) => Layer::Dictionary(dict.into_iter().map(|(key, value)| Entry { key, value }).collect()),
        Object::Stream(lopdf::Stream { dict, content, allows_compression, start_position }) => {
            let entries = dict.into_iter().map(|(key, value)| Entry { key, value }).collect();
            Layer::Stream(entries, StreamBody { content, allows_compression, start_position })
        },
        other => Layer::Other(other),
    }
}

/// Close a layer into a `lopdf::Object` of that variant.
///
/// Claimed of it: opening the object again gives the same layer, and a layer that is an
/// unopened object closes into that object.
#[verifier::external_body]
pub(crate) fn close_layer(layer: Layer) -> (r: Object)
    requires
        layer@.proper(),
    ensures
        layer@ is Other ==> r == layer@->Other_0,
        layer@ !is Other ==> layer_of(r) == layer@,
{
    match layer {
        Layer::Null => Object::Null,
        Layer::Integer(n) => Object::Integer(n),
        Layer::Name(name) => Object::Name(name),
        Layer::Reference(id) => Object::Reference((id.number, id.generation)),
        Layer::Array(items) => Object::Array(items),
        Layer::Dictionary(entries) => Object::Dictionary(entries.into_iter().map(|e| (e.key, e.value)).collect()),
        Layer::Stream(entries, StreamBody { content, allows_compression, start_position }) => {
            let dict = entries.into_iter().map(|e| (e.key, e.value)).collect();
            Object::Stream(lopdf::Stream { dict, content, allows_compression, start_position })
        },
        Layer::Other(object) => object,
    }
}

/// `out` is something `lopdf` may make of these bytes: a document, or an error's text.
pub uninterp spec fn may_load(bytes: Seq<u8>, out: Result<Document, Seq<char>>) -> bool;

/// The model of a load's outcome.
pub open spec fn load_outcome(r: Result<Document, String>) -> Result<Document, Seq<char>> {
    match r {
        Ok(document) => Ok(document),
        Err(detail) => Err(detail@),
    }
}

/// `lopdf::Document::load_mem`.
///
/// Claimed of it: the outcome is one the call may give for these bytes. The error is the text
/// the crate's own error prints. Which document comes of the bytes is not said: objects are read
/// on several threads, and of two copies of one object the first to arrive stays.
#[verifier::external_body]
pub(crate) fn load_document(bytes: &[u8]) -> (r: Result<Document, String>)
    ensures
        may_load(bytes@, load_outcome(r)),
{
    Document::load_mem(bytes).map_err(|e| e.to_string())
}

/// The PDF version a document declares.
pub uninterp spec fn version_of(document: Document) -> Seq<char>;

/// The `version` field of `lopdf::Document`.
///
/// Claimed of it: it is the version named for this document.
#[verifier::external_body]
pub(crate) fn document_version(document: &Document) -> (r: String)
    ensures
        r@ == version_of(*document),
{
    document.version.clone()
}

/// The page objects of a document, in page order.
pub uninterp spec fn pages_of(document: Document) -> Seq<ObjectId>;

/// `lopdf::Document::page_iter`, walked to its end: the identifiers one by one, with nothing
/// reserved by the counts a page tree declares.
///
/// Claimed of it: the list is the one named for this document.
#[verifier::external_body]
pub(crate) fn document_pages(document: &Document) -> (r: Vec<ObjectId>)
    ensures
        r@ == pages_of(*document),
{
    let mut pages = Vec::new();
    for (number, generation) in document.page_iter() {
        pages.push(ObjectId { number, generation });
    }
    pages
}

/// The object an identifier resolves to, or nothing when it does not.
pub uninterp spec fn object_at(document: Document, id: ObjectId) -> Option<Object>;

/// `lopdf::Document::get_object`; a failure is `None`.
///
/// Claimed of it: the answer is the one named for this document and identifier.
#[verifier::external_body]
pub(crate) fn document_object(document: &Document, id: ObjectId) -> (r: Option<Object>)
    ensures
        r == object_at(*document, id),
{
    document.get_object((id.number, id.generation)).ok().cloned()
}

/// The dictionary an identifier resolves to, or why it does not, as the error prints.
pub uninterp spec fn dictionary_at(document: Document, id: ObjectId) -> Result<
    Seq<(Seq<u8>, Object)>,
    Seq<char>,
>;

/// The model of a dictionary's entries or an error.
pub open spec fn entries_outcome(r: Result<Vec<Entry>, String>) -> Result<
    Seq<(Seq<u8>, Object)>,
    Seq<char>,
> {
    match r {
        Ok(entries) => Ok(entry_models(entries@)),
        Err(detail) => Err(detail@),
    }
}

/// `lopdf::Document::get_dictionary`, the entries in their order.
///
/// Claimed of it: the answer is the one named for this document and identifier, and no key
/// occurs twice. The error is the text the crate's own error prints.
#[verifier::external_body]
pub(crate) fn document_dictionary(document: &Document, id: ObjectId) -> (r: Result<
    Vec<Entry>,
    String,
>)
    ensures
        entries_outcome(r) == dictionary_at(*document, id),
        r is Ok ==> distinct_keys(entry_models(r->Ok_0@)),
{
    match document.get_dictionary((id.number, id.generation)) {
        Ok(dict) => Ok(dict.clone().into_iter().map(|(key, value)| Entry { key, value }).collect()),
        Err(e) => Err(e.to_string()),
    }
}

/// One object under its identifier.
#[derive(Debug)]
pub struct Numbered {
    /// The identifier.
    pub id: ObjectId,
    /// The object.
    pub object: Object,
}

/// The objects of a document, by identifier.
pub uninterp spec fn held(document: Document) -> Map<ObjectId, Object>;

/// The length of the `objects` map of `lopdf::Document`.
///
/// Claimed of it: it is the number of objects the document holds.
#[verifier::external_body]
pub(crate) fn object_count(document: &Document) -> (r: usize)
    ensures
        r == held(*document).len(),
{
    document.objects.len()
}

/// No object at all.
pub open spec fn no_objects() -> Map<ObjectId, Object> {
    Map::empty()
}

/// The entries of a document's trailer, in their order.
pub uninterp spec fn trailer_of(document: Document) -> Seq<(Seq<u8>, Object)>;

/// The largest object number a document has on record.
pub uninterp spec fn last_number(document: Document) -> u32;

/// `lopdf::Document::with_version`.
///
/// Claimed of it: the document declares this version, and holds no object and no trailer
/// entry.
#[verifier::external_body]
pub(crate) fn new_document(version: &str) -> (r: Document)
    ensures
        version_of(r) == version@,
        held(r) == no_objects(),
        trailer_of(r).len() == 0,
{
    Document::with_version(version)
}

/// `lopdf::Document::set_object`.
///
/// Claimed of it: the object stands under this identifier afterwards, and nothing else about
/// the version, the objects or the trailer changes.
#[verifier::external_body]
pub(crate) fn set_object(document: &mut Document, id: ObjectId, object: Object)
    ensures
        held(*final(document)) == held(*old(document)).insert(id, object),
        trailer_of(*final(document)) == trailer_of(*old(document)),
        version_of(*final(document)) == version_of(*old(document)),
{
    document.set_object((id.number, id.generation), object)
}

/// `lopdf::Dictionary::set` on the trailer of a document.
///
/// Claimed of it: the trailer has this entry afterwards, in the place of one with the same key
/// or else at the end, and nothing else about the version, the objects or the trailer changes.
#[verifier::external_body]
pub(crate) fn set_trailer(document: &mut Document, key: &str, value: Object)
    ensures
        trailer_of(*final(document)) == with_entry(
            trailer_of(*old(document)),
            key.spec_bytes(),
            value,
        ),
        held(*final(document)) == held(*old(document)),
        version_of(*final(document)) == version_of(*old(document)),
{
    document.trailer.set(key, value)
}

/// `object` refers to `id`, itself or from at most `depth` layers down.
pub open spec fn mentions(object: Object, id: ObjectId, depth: nat) -> bool
    decreases depth,
{
    match layer_of(object) {
        LayerModel::Reference(to) => to == id,
        LayerModel::Array(items) => depth > 0 && exists|i: int|
            0 <= i < items.len() && mentions(#[trigger] items[i], id, (depth - 1) as nat),
        LayerModel::Dictionary(entries) => depth > 0 && exists|i: int|
            0 <= i < entries.len() && mentions((#[trigger] entries[i]).1, id, (depth - 1) as nat),
        LayerModel::Stream(entries, _) => depth > 0 && exists|i: int|
            0 <= i < entries.len() && mentions((#[trigger] entries[i]).1, id, (depth - 1) as nat),
        _ => false,
    }
}

/// `id` is reached from the trailer over at most `steps` objects.
pub open spec fn reached(
    trailer: Seq<(Seq<u8>, Object)>,
    objects: Map<ObjectId, Object>,
    id: ObjectId,
    steps: nat,
) -> bool
    decreases steps,
{
    if steps == 0 {
        exists|i: int, depth: nat|
            0 <= i < trailer.len() && #[trigger] mentions(trailer[i].1, id, depth)
    } else {
        ||| reached(trailer, objects, id, (steps - 1) as nat)
        ||| exists|from: ObjectId, depth: nat|
            reached(trailer, objects, from, (steps - 1) as nat) && objects.contains_key(from)
                && #[trigger] mentions(objects[from], id, depth)
    }
}

/// The identifiers a document makes use of: those its trailer leads to.
pub open spec fn used(
    trailer: Seq<(Seq<u8>, Object)>,
    objects: Map<ObjectId, Object>,
) -> Set<ObjectId> {
    Set::new(|id: ObjectId| exists|steps: nat| #[trigger] reached(trailer, objects, id, steps))
}

/// `after` is `before` without the objects it makes no use of.
pub open spec fn pruned_from(before: Document, after: Document) -> bool {
    &&& held(after) == held(before).restrict(used(trailer_of(before), held(before)))
    &&& trailer_of(after) == trailer_of(before)
    &&& version_of(after) == version_of(before)
}

/// `lopdf::Document::prune_objects`.
///
/// Claimed of it: the objects that the trailer leads to stay as they are, the others go, and
/// the version and the trailer do not change.
#[verifier::external_body]
pub(crate) fn prune_objects(document: &mut Document)
    ensures
        pruned_from(*old(document), *final(document)),
{
    document.prune_objects();
}

/// What a document becomes when its objects are numbered anew.
pub uninterp spec fn renumbered(document: Document) -> Document;

/// `lopdf::Document::renumber_objects`.
///
/// Claimed of it: the document becomes the one named for it, its version does not change, and
/// no number exceeds the count of its objects. Which number an object gets is not said. The
/// call counts objects in a `u32`, from 1 on, and pages in an `i32`, so a document with more of
/// either is not one it takes. It walks over no more pages than there are objects.
#[verifier::external_body]
pub(crate) fn renumber_objects(document: &mut Document)
    requires
        held(*old(document)).dom().finite(),
        held(*old(document)).len() < u32::MAX,
        held(*old(document)).len() <= i32::MAX || pages_of(*old(document)).len() <= i32::MAX,
    ensures
        *final(document) == renumbered(*old(document)),
        version_of(*final(document)) == version_of(*old(document)),
        last_number(*final(document)) <= held(*old(document)).len(),
{
    document.renumber_objects()
}

/// What a document becomes when its streams are compressed.
pub uninterp spec fn compressed(document: Document) -> Document;

/// An object that compression passes over: one that is no stream, and a stream that may not be
/// compressed or already has a filter.
pub open spec fn passed_over(object: Object) -> bool {
    match layer_of(object) {
        LayerModel::Stream(entries, body) => !body.allows_compression || position(
            entries,
            "Filter".spec_bytes(),
        ) < entries.len(),
        _ => true,
    }
}

/// `lopdf::Document::compress`.
///
/// Claimed of it: the document becomes the one named for it, with the version, the trailer, the
/// numbers and the identifiers it had, and with every object that is passed over as it was. What
/// a stream is compressed to is not said.
#[verifier::external_body]
pub(crate) fn compress_streams(document: &mut Document)
    ensures
        *final(document) == compressed(*old(document)),
        version_of(*final(document)) == version_of(*old(document)),
        trailer_of(*final(document)) == trailer_of(*old(document)),
        last_number(*final(document)) == last_number(*old(document)),
        held(*final(document)).dom() == held(*old(document)).dom(),
        forall|id: ObjectId|
            held(*old(document)).contains_key(id) && passed_over(held(*old(document))[id])
                ==> #[trigger] held(*final(document))[id] == held(*old(document))[id],
{
    document.compress()
}

/// The largest object number a document can be saved with.
pub const LAST_SAVED_NUMBER: u32 = 0xffff_fffc;

/// What saving a document gives: its bytes, or an error's text.
pub uninterp spec fn saved(document: Document) -> Result<Seq<u8>, Seq<char>>;

/// The model of a save's outcome.
pub open spec fn save_outcome(r: Result<Vec<u8>, String>) -> Result<Seq<u8>, Seq<char>> {
    match r {
        Ok(bytes) => Ok(bytes@),
        Err(detail) => Err(detail@),
    }
}

/// `lopdf::Document::save_to`, into memory.
///
/// Claimed of it: the outcome is the one named for this document, and the bytes open with the
/// PDF magic number. The error is the text the crate's own error prints. The call counts up to
/// three past the last object number, so a document that has no three left is not one it takes.
#[verifier::external_body]
pub(crate) fn save_document(document: Document) -> (r: Result<Vec<u8>, String>)
    requires
        last_number(document) <= LAST_SAVED_NUMBER,
    ensures
        save_outcome(r) == saved(document),
        r is Ok ==> pdf_magic(r->Ok_0@),
{
    let mut document = document;
    let mut out = Vec::new();
    match document.save_to(&mut out) {
        Ok(()) => Ok(out),
        Err(e) => Err(e.to_string()),
    }
}

} // verus!
