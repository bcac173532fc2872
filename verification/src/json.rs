//! JSON values as the router writes and reads them.

use crate::text::{decimal, decimal_text};
use vstd::prelude::*;
use vstd::string::*;

verus! {

/// One member of an object.
#[derive(Debug, PartialEq)]
pub struct Member {
    /// The member's name.
    pub name: String,
    /// The member's value.
    pub value: Json,
}

/// A JSON value.
#[derive(Debug, PartialEq)]
pub enum Json {
    /// `null`.
    Null,
    /// `true` or `false`.
    Bool(bool),
    /// A number, as its numeral.
    Number(String),
    /// A string.
    Text(String),
    /// An array.
    List(Vec<Json>),
    /// An object, in member order.
    Object(Vec<Member>),
}

/// A [`Json`] over sequences.
pub ghost enum JsonModel {
    Null,
    Bool(bool),
    Number(Seq<char>),
    Text(Seq<char>),
    List(Seq<JsonModel>),
    Object(Seq<(Seq<char>, JsonModel)>),
}

impl Json {
    /// The value over sequences.
    pub open spec fn model(self) -> JsonModel
        decreases self,
    {
        match self {
            Json::Null => JsonModel::Null,
            Json::Bool(b) => JsonModel::Bool(b),
            Json::Number(numeral) => JsonModel::Number(numeral@),
            Json::Text(text) => JsonModel::Text(text@),
            Json::List(items) => JsonModel::List(
                Seq::new(
                    items@.len(),
                    |i: int|
                        if 0 <= i < items@.len() {
                            items@[i].model()
                        } else {
                            JsonModel::Null
                        },
                ),
            ),
            Json::Object(members) => JsonModel::Object(
                Seq::new(
                    members@.len(),
                    |i: int|
                        if 0 <= i < members@.len() {
                            (members@[i].name@, members@[i].value.model())
                        } else {
                            (Seq::empty(), JsonModel::Null)
                        },
                ),
            ),
        }
    }
}

impl View for Json {
    type V = JsonModel;

    open spec fn view(&self) -> JsonModel {
        self.model()
    }
}

/// The models of a list of values.
pub open spec fn json_models(items: Seq<Json>) -> Seq<JsonModel> {
    items.map_values(|j: Json| j@)
}

/// The name and value of a member.
pub open spec fn member_model(member: Member) -> (Seq<char>, JsonModel) {
    (member.name@, member.value@)
}

/// The names and values of a list of members.
pub open spec fn member_models(members: Seq<Member>) -> Seq<(Seq<char>, JsonModel)> {
    members.map_values(|m: Member| member_model(m))
}

/// The model of a natural number.
pub open spec fn number_model(n: nat) -> JsonModel {
    JsonModel::Number(decimal(n))
}

/// The models of a list of texts.
pub open spec fn text_models(texts: Seq<Seq<char>>) -> Seq<JsonModel> {
    texts.map_values(|t: Seq<char>| JsonModel::Text(t))
}

/// The models of a list of page numbers.
pub open spec fn page_number_models(pages: Seq<u32>) -> Seq<JsonModel> {
    pages.map_values(|p: u32| number_model(p as nat))
}

impl Json {
    /// A number.
    pub fn number(n: u64) -> (r: Json)
        ensures
            r@ == number_model(n as nat),
    {
        Json::Number(decimal_text(n))
    }

    /// A string.
    pub fn text(s: &str) -> (r: Json)
        ensures
            r@ == JsonModel::Text(s@),
    {
        Json::Text(s.to_owned())
    }

    /// An array.
    pub fn list(items: Vec<Json>) -> (r: Json)
        ensures
            r@ == JsonModel::List(json_models(items@)),
    {
        let r = Json::List(items);
        assert(r@->List_0 =~= json_models(items@));
        r
    }

    /// An object.
    pub fn object(members: Vec<Member>) -> (r: Json)
        ensures
            r@ == JsonModel::Object(member_models(members@)),
    {
        let r = Json::Object(members);
        assert(r@->Object_0 =~= member_models(members@));
        r
    }

    /// An array of strings.
    pub fn texts(texts: &Vec<String>) -> (r: Json)
        ensures
            r@ == JsonModel::List(text_models(crate::text::texts(texts@))),
    {
        let mut items: Vec<Json> = Vec::new();
        let mut i: usize = 0;
        let ghost all = text_models(crate::text::texts(texts@));
        while i < texts.len()
            invariant
                i <= texts@.len(),
                all == text_models(crate::text::texts(texts@)),
                json_models(items@) == all.take(i as int),
            decreases texts@.len() - i,
        {
            let ghost before = items@;
            items.push(Json::text(texts[i].as_str()));
            assert(json_models(items@) =~= json_models(before).push(items@.last()@));
            assert(all.take(i + 1) =~= all.take(i as int).push(all[i as int]));
            i += 1;
        }
        assert(all.take(all.len() as int) =~= all);
        Json::list(items)
    }

    /// An array of page numbers.
    pub fn page_numbers(pages: &[u32]) -> (r: Json)
        ensures
            r@ == JsonModel::List(page_number_models(pages@)),
    {
        let mut items: Vec<Json> = Vec::new();
        let mut i: usize = 0;
        let ghost all = page_number_models(pages@);
        while i < pages.len()
            invariant
                i <= pages@.len(),
                all == page_number_models(pages@),
                json_models(items@) == all.take(i as int),
            decreases pages@.len() - i,
        {
            let ghost before = items@;
            items.push(Json::number(pages[i] as u64));
            assert(json_models(items@) =~= json_models(before).push(items@.last()@));
            assert(all.take(i + 1) =~= all.take(i as int).push(all[i as int]));
            i += 1;
        }
        assert(all.take(all.len() as int) =~= all);
        Json::list(items)
    }
}

/// A member.
pub fn member(name: &str, value: Json) -> (r: Member)
    ensures
        member_model(r) == (name@, value@),
{
    Member { name: name.to_owned(), value }
}

/// A `serde_json` value.
#[verifier::external_type_specification]
#[verifier::external_body]
pub struct ExValue(serde_json::Value);

/// The `serde_json` value for `null`, or for a `bool`.
pub uninterp spec fn flag_value(flag: Option<bool>) -> serde_json::Value;

/// The variants `Null` and `Bool` of `serde_json::Value`.
///
/// Claimed of it: the value is the one named for this flag.
#[verifier::external_body]
pub(crate) fn from_flag(flag: Option<bool>) -> (r: serde_json::Value)
    ensures
        r == flag_value(flag),
{
    match flag {
        Some(b) => serde_json::Value::Bool(b),
        None => serde_json::Value::Null,
    }
}

/// The `serde_json` value a numeral is read as; `null` when it is not one.
pub uninterp spec fn numeral_value(numeral: Seq<char>) -> serde_json::Value;

/// `serde_json::from_str`, into a `serde_json::Value`; a failure is `null`.
///
/// Claimed of it: the value is the one named for this numeral.
#[verifier::external_body]
pub(crate) fn from_numeral(numeral: &str) -> (r: serde_json::Value)
    ensures
        r == numeral_value(numeral@),
{
    serde_json::from_str(numeral).unwrap_or_default()
}

/// The `serde_json` value for a string.
pub uninterp spec fn string_value(text: Seq<char>) -> serde_json::Value;

/// The variant `String` of `serde_json::Value`.
///
/// Claimed of it: the value is the one named for this text.
#[verifier::external_body]
pub(crate) fn from_text(text: &str) -> (r: serde_json::Value)
    ensures
        r == string_value(text@),
{
    serde_json::Value::String(text.to_owned())
}

/// The `serde_json` value for an array of values.
pub uninterp spec fn array_value(items: Seq<serde_json::Value>) -> serde_json::Value;

/// The variant `Array` of `serde_json::Value`.
///
/// Claimed of it: the value is the one named for these items.
#[verifier::external_body]
pub(crate) fn from_items(items: Vec<serde_json::Value>) -> (r: serde_json::Value)
    ensures
        r == array_value(items@),
{
    serde_json::Value::Array(items)
}

/// One member of an object under construction.
pub struct Field {
    /// The member's name.
    pub name: String,
    /// The member's value.
    pub value: serde_json::Value,
}

/// The names and values of a list of fields.
pub open spec fn field_models(fields: Seq<Field>) -> Seq<(Seq<char>, serde_json::Value)> {
    fields.map_values(|f: Field| (f.name@, f.value))
}

/// The `serde_json` value for an object.
pub uninterp spec fn object_value(
    members: Seq<(Seq<char>, serde_json::Value)>,
) -> serde_json::Value;

/// The variant `Object` of `serde_json::Value`.
///
/// Claimed of it: the value is the one named for these members in this order.
#[verifier::external_body]
pub(crate) fn from_fields(fields: Vec<Field>) -> (r: serde_json::Value)
    ensures
        r == object_value(field_models(fields@)),
{
    serde_json::Value::Object(fields.into_iter().map(|f| (f.name, f.value)).collect())
}

/// The `serde_json` value that stands for a JSON value, built variant by variant.
pub open spec fn value_of(json: JsonModel) -> serde_json::Value
    decreases json,
{
    match json {
        JsonModel::Null => flag_value(None),
        JsonModel::Bool(b) => flag_value(Some(b)),
        JsonModel::Number(numeral) => numeral_value(numeral),
        JsonModel::Text(text) => string_value(text),
        JsonModel::List(items) => array_value(values_of(items)),
        JsonModel::Object(members) => object_value(fields_of(members)),
    }
}

/// The `serde_json` values that stand for a list of JSON values.
pub open spec fn values_of(items: Seq<JsonModel>) -> Seq<serde_json::Value>
    decreases items,
{
    Seq::new(
        items.len(),
        |i: int|
            if 0 <= i < items.len() {
                value_of(items[i])
            } else {
                flag_value(None)
            },
    )
}

/// The names and `serde_json` values that stand for a list of members.
pub open spec fn fields_of(members: Seq<(Seq<char>, JsonModel)>) -> Seq<
    (Seq<char>, serde_json::Value),
>
    decreases members,
{
    Seq::new(
        members.len(),
        |i: int|
            if 0 <= i < members.len() {
                (members[i].0, value_of(members[i].1))
            } else {
                (Seq::empty(), flag_value(None))
            },
    )
}

/// Build the `serde_json` value that stands for a JSON value.
fn to_value(json: &Json) -> (r: serde_json::Value)
    ensures
        r == value_of(json@),
    decreases json,
{
    match json {
        Json::Null => from_flag(None),
        Json::Bool(b) => from_flag(Some(*b)),
        Json::Number(numeral) => from_numeral(numeral.as_str()),
        Json::Text(text) => from_text(text.as_str()),
        Json::List(items) => {
            let ghost models = json@->List_0;
            let mut values: Vec<serde_json::Value> = Vec::new();
            let mut i: usize = 0;
            while i < items.len()
                invariant
                    i <= items@.len() == models.len(),
                    *json == Json::List(*items),
                    models == json@->List_0,
                    values@.len() == i,
                    forall|k: int| 0 <= k < i ==> #[trigger] values@[k] == value_of(models[k]),
                decreases items@.len() - i,
            {
                assert(models[i as int] == items@[i as int]@);
                values.push(to_value(&items[i]));
                i += 1;
            }
            assert(values@ =~= values_of(models));
            from_items(values)
        },
        Json::Object(members) => {
            let ghost models = json@->Object_0;
            let mut fields: Vec<Field> = Vec::new();
            let mut i: usize = 0;
            while i < members.len()
                invariant
                    i <= members@.len() == models.len(),
                    *json == Json::Object(*members),
                    models == json@->Object_0,
                    fields@.len() == i,
                    forall|k: int|
                        0 <= k < i ==> (#[trigger] fields@[k]).name@ == models[k].0
                            && fields@[k].value == value_of(models[k].1),
                decreases members@.len() - i,
            {
                assert(models[i as int] == member_model(members@[i as int]));
                let value: serde_json::Value = to_value(&members[i].value);
                fields.push(Field { name: members[i].name.clone(), value });
                i += 1;
            }
            assert(field_models(fields@) =~= fields_of(models));
            from_fields(fields)
        },
    }
}

/// What a `serde_json` value is written as.
pub uninterp spec fn written(value: serde_json::Value) -> Seq<char>;

/// `serde_json::Value::to_string`, the compact form.
///
/// Claimed of it: a value is always written the same way.
#[verifier::external_body]
pub(crate) fn write_value(value: &serde_json::Value) -> (r: String)
    ensures
        r@ == written(*value),
{
    value.to_string()
}

/// What a JSON value is written as on the wire.
pub open spec fn wire_text(json: JsonModel) -> Seq<char> {
    written(value_of(json))
}

impl Json {
    /// The value as it is written on the wire.
    pub fn to_wire(&self) -> (r: String)
        ensures
            r@ == wire_text(self@),
    {
        write_value(&to_value(self))
    }
}

} // verus!
