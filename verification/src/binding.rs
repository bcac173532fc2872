//! What a dynamically typed caller hands in and gets back: which exception an error becomes,
//! and what may be left out of the values passed in.

use crate::classify::PdfType;
use crate::error::{Error, ErrorModel};
use crate::extract::LOCAL_MODEL;
use crate::json::{
    json_models, member, member_model, member_models, number_model, Json, JsonModel, Member,
};
use crate::policy::{Decision, DecisionModel};
use crate::text::same_text;
use vstd::prelude::*;
use vstd::string::*;

verus! {

/// Which class of exception an error is raised as.
#[derive(Clone, Copy, Debug, PartialEq, Eq, Structural)]
pub enum Kind {
    /// The configuration is not usable.
    Config,
    /// The document is not readable, or an operation on it failed.
    Pdf,
    /// Something outside the router did not cooperate.
    Host,
}

/// The class of an error. A failed leg is what went wrong underneath it.
pub open spec fn kind(error: ErrorModel) -> Kind
    decreases error,
{
    match error {
        ErrorModel::InvalidConfig(_) => Kind::Config,
        ErrorModel::NotPdf => Kind::Pdf,
        ErrorModel::Pdf(_) => Kind::Pdf,
        ErrorModel::Split(_) => Kind::Pdf,
        ErrorModel::Host(_) => Kind::Host,
        ErrorModel::Judge(_) => Kind::Host,
        ErrorModel::LegFailed { model, source } => kind(*source),
    }
}

/// The class of an error. A local extraction failure stays a document error and a provider
/// failure stays a host error when they fail a leg.
pub fn kind_of(error: &Error) -> (r: Kind)
    ensures
        r == kind(error@),
    decreases error,
{
    match error {
        Error::InvalidConfig(_) => Kind::Config,
        Error::NotPdf => Kind::Pdf,
        Error::Pdf(_) => Kind::Pdf,
        Error::Split(_) => Kind::Pdf,
        Error::Host(_) => Kind::Host,
        Error::Judge(_) => Kind::Host,
        Error::LegFailed { model: _, source } => kind_of(source),
    }
}

/// Where a member stands; the length when it does not.
pub open spec fn member_at(members: Seq<(Seq<char>, JsonModel)>, name: Seq<char>) -> int
    decreases members.len(),
{
    if members.len() == 0 || members[0].0 == name {
        0
    } else {
        1 + member_at(members.subrange(1, members.len() as int), name)
    }
}

/// The members hold one of this name.
pub open spec fn holds_member(members: Seq<(Seq<char>, JsonModel)>, name: Seq<char>) -> bool {
    0 <= member_at(members, name) < members.len()
}

/// The value of a member, if there is one of this name.
pub open spec fn value_under(members: Seq<(Seq<char>, JsonModel)>, name: Seq<char>) -> Option<
    JsonModel,
> {
    if holds_member(members, name) {
        Some(members[member_at(members, name)].1)
    } else {
        None
    }
}

/// The members with this one added where none of its name is there.
pub open spec fn defaulted(
    members: Seq<(Seq<char>, JsonModel)>,
    name: Seq<char>,
    value: JsonModel,
) -> Seq<(Seq<char>, JsonModel)> {
    if holds_member(members, name) {
        members
    } else {
        members.push((name, value))
    }
}

/// The members with the value of this one replaced.
pub open spec fn replaced(
    members: Seq<(Seq<char>, JsonModel)>,
    name: Seq<char>,
    value: JsonModel,
) -> Seq<(Seq<char>, JsonModel)> {
    members.update(member_at(members, name), (name, value))
}

proof fn member_at_is(members: Seq<(Seq<char>, JsonModel)>, name: Seq<char>, at: int)
    requires
        0 <= at <= members.len(),
        forall|i: int| 0 <= i < at ==> (#[trigger] members[i]).0 != name,
        at < members.len() ==> members[at].0 == name,
    ensures
        member_at(members, name) == at,
    decreases members.len(),
{
    if at > 0 {
        let rest = members.subrange(1, members.len() as int);
        assert(members[0].0 != name);
        assert forall|i: int| 0 <= i < at - 1 implies (#[trigger] rest[i]).0 != name by {
            assert(rest[i] == members[i + 1]);
        }
        if at < members.len() {
            assert(rest[at - 1] == members[at]);
        }
        member_at_is(rest, name, at - 1);
    }
}

proof fn member_at_names(members: Seq<(Seq<char>, JsonModel)>, name: Seq<char>)
    ensures
        0 <= member_at(members, name) <= members.len(),
        holds_member(members, name) ==> members[member_at(members, name)].0 == name,
    decreases members.len(),
{
    if members.len() > 0 && members[0].0 != name {
        let rest = members.subrange(1, members.len() as int);
        member_at_names(rest, name);
        if holds_member(members, name) {
            assert(rest[member_at(rest, name)] == members[member_at(members, name)]);
        }
    }
}

fn find_member(members: &Vec<Member>, name: &str) -> (r: usize)
    ensures
        r == member_at(member_models(members@), name@),
        r <= members@.len(),
{
    let ghost models = member_models(members@);
    let mut i: usize = 0;
    while i < members.len() && !same_text(members[i].name.as_str(), name)
        invariant
            i <= members@.len(),
            models == member_models(members@),
            forall|k: int| 0 <= k < i ==> (#[trigger] models[k]).0 != name@,
        decreases members@.len() - i,
    {
        assert(models[i as int] == member_model(members@[i as int]));
        i += 1;
    }
    proof {
        if i < members@.len() {
            assert(models[i as int] == member_model(members@[i as int]));
        }
        member_at_is(models, name@, i as int);
    }
    i
}

/// Add a member where none of its name is there.
fn default_member(members: &mut Vec<Member>, name: &str, value: Json)
    ensures
        member_models(final(members)@) == defaulted(
            member_models(old(members)@),
            name@,
            value@,
        ),
{
    let ghost before = members@;
    let at: usize = find_member(members, name);
    if at == members.len() {
        let added: Member = member(name, value);
        members.push(added);
        assert(member_models(members@) =~= member_models(before).push((name@, value@)));
    }
}

/// Replace the value of the member that stands at `at`.
fn replace_member(members: &mut Vec<Member>, at: usize, name: &str, value: Json)
    requires
        at < old(members)@.len(),
        at == member_at(member_models(old(members)@), name@),
    ensures
        member_models(final(members)@) == replaced(
            member_models(old(members)@),
            name@,
            value@,
        ),
{
    let ghost before = members@;
    let new: Member = member(name, value);
    members.set(at, new);
    assert(member_models(members@) =~= member_models(before).update(at as int, (name@, value@)));
}

/// The model of a completed value or a complaint.
pub open spec fn completed(r: Result<Json, String>) -> Result<JsonModel, Seq<char>> {
    match r {
        Ok(value) => Ok(value@),
        Err(text) => Err(text@),
    }
}

/// A number that is zero.
pub open spec fn zero_number() -> JsonModel {
    JsonModel::Number("0.0"@)
}

/// The members of a classification, with everything a caller may leave out filled in and its
/// type spelled as on the wire.
pub open spec fn full_classification(members: Seq<(Seq<char>, JsonModel)>) -> Seq<
    (Seq<char>, JsonModel),
> {
    let spelled = match value_under(members, "pdf_type"@) {
        Some(JsonModel::Text(raw)) => replaced(
            members,
            "pdf_type"@,
            JsonModel::Text(PdfType::parsed(raw).text()),
        ),
        _ => members,
    };
    let timed = defaulted(spelled, "classify_ms"@, zero_number());
    let laid_out = defaulted(timed, "is_complex_layout"@, JsonModel::Bool(false));
    let encoded = defaulted(laid_out, "has_encoding_issues"@, JsonModel::Bool(false));
    defaulted(encoded, "ocr_reasons"@, JsonModel::List(Seq::empty()))
}

/// Fill in everything a caller may leave out of a classification, and accept any spelling of
/// its type. The four fields the decision table reads stay required.
pub fn complete_classification(value: Json) -> (r: Result<Json, String>)
    ensures
        completed(r) == (match value@ {
            JsonModel::Object(members) => Ok(JsonModel::Object(full_classification(members))),
            _ => Err("classification must be a dict"@),
        }),
{
    match value {
        Json::Object(members) => {
            let ghost given = member_models(members@);
            assert(value@->Object_0 =~= given);
            let mut members: Vec<Member> = members;
            let at: usize = find_member(&members, "pdf_type");
            if at < members.len() {
                assert(given[at as int] == member_model(members@[at as int]));
                let spelling: Option<&'static str> = match &members[at].value {
                    Json::Text(raw) => Some(PdfType::parse_loose(raw.as_str()).as_str()),
                    _ => None,
                };
                if let Some(text) = spelling {
                    replace_member(&mut members, at, "pdf_type", Json::text(text));
                }
            }
            default_member(&mut members, "classify_ms", Json::Number("0.0".to_owned()));
            default_member(&mut members, "is_complex_layout", Json::Bool(false));
            default_member(&mut members, "has_encoding_issues", Json::Bool(false));
            let none: Vec<Json> = Vec::new();
            assert(json_models(none@) =~= Seq::empty());
            default_member(&mut members, "ocr_reasons", Json::list(none));
            Ok(Json::object(members))
        },
        _ => Err("classification must be a dict".to_owned()),
    }
}

/// A page of a result with everything a caller may leave out filled in.
pub open spec fn full_page(
    members: Seq<(Seq<char>, JsonModel)>,
    position: nat,
    model: Seq<char>,
) -> JsonModel {
    let numbered = defaulted(members, "index"@, number_model(position));
    let written = defaulted(numbered, "markdown"@, JsonModel::Text(""@));
    JsonModel::Object(defaulted(written, "model"@, JsonModel::Text(model)))
}

/// Every entry is an object.
pub open spec fn all_objects(items: Seq<JsonModel>) -> bool {
    forall|i: int| 0 <= i < items.len() ==> (#[trigger] items[i]) is Object
}

/// The pages of a result with everything a caller may leave out filled in.
pub open spec fn full_pages(items: Seq<JsonModel>, model: Seq<char>) -> Seq<JsonModel> {
    Seq::new(items.len(), |i: int| full_page(items[i]->Object_0, i as nat, model))
}

/// How many pages a result lists.
pub open spec fn listed_pages(members: Seq<(Seq<char>, JsonModel)>) -> nat {
    match value_under(members, "pages"@) {
        Some(JsonModel::List(items)) => items.len(),
        _ => 0,
    }
}

/// The members of a result with its own defaults filled in, its pages as given.
pub open spec fn with_result_defaults(
    members: Seq<(Seq<char>, JsonModel)>,
    default_model: Seq<char>,
) -> Seq<(Seq<char>, JsonModel)> {
    let paged = defaulted(members, "pages"@, JsonModel::List(Seq::empty()));
    let named = defaulted(paged, "model"@, JsonModel::Text(default_model));
    let processed = defaulted(named, "pages_processed"@, number_model(listed_pages(members)));
    defaulted(processed, "doc_size_bytes"@, JsonModel::Null)
}

/// The model pages without one are attributed to.
pub open spec fn result_model(
    members: Seq<(Seq<char>, JsonModel)>,
    default_model: Seq<char>,
) -> Seq<char> {
    match value_under(members, "model"@) {
        Some(JsonModel::Text(model)) => model,
        _ => default_model,
    }
}

/// A result with everything a caller may leave out filled in, or what is wrong with it.
pub open spec fn full_result(
    value: JsonModel,
    default_model: Seq<char>,
    what: Seq<char>,
) -> Result<JsonModel, Seq<char>> {
    match value {
        JsonModel::Object(members) => {
            let filled = with_result_defaults(members, default_model);
            match value_under(filled, "pages"@) {
                Some(JsonModel::List(items)) => if all_objects(items) {
                    Ok(
                        JsonModel::Object(
                            replaced(
                                filled,
                                "pages"@,
                                JsonModel::List(
                                    full_pages(items, result_model(filled, default_model)),
                                ),
                            ),
                        ),
                    )
                } else {
                    Err(what + ": every entry of `pages` must be a dict"@)
                },
                _ => Ok(JsonModel::Object(filled)),
            }
        },
        _ => Err(what + " must be a dict"@),
    }
}

/// Fill in the pages of a result, or `None` when an entry is no object.
fn complete_pages(items: Vec<Json>, model: &str) -> (r: Option<Vec<Json>>)
    ensures
        match r {
            Some(pages) => all_objects(json_models(items@)) && json_models(pages@) == full_pages(
                json_models(items@),
                model@,
            ),
            None => !all_objects(json_models(items@)),
        },
{
    let ghost all = items@;
    let ghost given = json_models(items@);
    let ghost wanted = full_pages(given, model@);
    let total: usize = items.len();
    let mut out: Vec<Json> = Vec::new();
    let mut stray: bool = false;
    assert(json_models(out@) =~= wanted.take(0));
    for item in it: items
        invariant
            it.seq() == all,
            total == all.len(),
            given == json_models(all),
            wanted == full_pages(given, model@),
            stray ==> !all_objects(given),
            !stray ==> json_models(out@) == wanted.take(it.index() as int) && out@.len()
                == it.index(),
            !stray ==> forall|k: int| 0 <= k < it.index() ==> (#[trigger] given[k]) is Object,
    {
        let ghost n = it.index();
        assert(given[n as int] == item@);
        if !stray {
            match item {
                Json::Object(members) => {
                    let ghost before = out@;
                    let mut members: Vec<Member> = members;
                    proof {
                        assert(item@->Object_0 =~= member_models(members@));
                    }
                    let position: u64 = out.len() as u64;
                    default_member(&mut members, "index", Json::number(position));
                    default_member(&mut members, "markdown", Json::text(""));
                    default_member(&mut members, "model", Json::text(model));
                    let page: Json = Json::object(members);
                    out.push(page);
                    proof {
                        assert(page@ == wanted[n as int]);
                        assert(json_models(out@) =~= json_models(before).push(page@));
                        assert(wanted.take(n + 1) =~= wanted.take(n as int).push(
                            wanted[n as int],
                        ));
                    }
                },
                _ => {
                    assert(!(given[n as int] is Object));
                    stray = true;
                },
            }
        }
    }
    assert(wanted.take(wanted.len() as int) =~= wanted);
    if stray {
        None
    } else {
        Some(out)
    }
}

/// Fill in everything a caller may leave out of a result: the model defaults to
/// `default_model`, the page count to the number of pages, each page's model to the result's
/// and its index to its position.
pub fn complete_ocr_result(value: Json, default_model: &str, what: &str) -> (r: Result<
    Json,
    String,
>)
    ensures
        completed(r) == full_result(value@, default_model@, what@),
{
    match value {
        Json::Object(members) => {
            let ghost given = member_models(members@);
            assert(value@->Object_0 =~= given);
            let mut members: Vec<Member> = members;
            let at: usize = find_member(&members, "pages");
            let page_count: u64 = if at < members.len() {
                proof {
                    assert(given[at as int] == member_model(members@[at as int]));
                }
                match &members[at].value {
                    Json::List(items) => items.len() as u64,
                    _ => 0,
                }
            } else {
                0
            };
            let none: Vec<Json> = Vec::new();
            assert(json_models(none@) =~= Seq::empty());
            default_member(&mut members, "pages", Json::list(none));
            default_member(&mut members, "model", Json::text(default_model));
            default_member(&mut members, "pages_processed", Json::number(page_count));
            default_member(&mut members, "doc_size_bytes", Json::Null);
            let ghost filled = with_result_defaults(given, default_model@);
            assert(member_models(members@) == filled);
            let named: usize = find_member(&members, "model");
            let model: String = if named < members.len() {
                proof {
                    assert(filled[named as int] == member_model(members@[named as int]));
                }
                match &members[named].value {
                    Json::Text(text) => text.clone(),
                    _ => default_model.to_owned(),
                }
            } else {
                default_model.to_owned()
            };
            assert(model@ == result_model(filled, default_model@));
            let at: usize = find_member(&members, "pages");
            if at < members.len() {
                let ghost before = members@;
                let pages_member: Member = members.remove(at);
                let Member { name, value: pages } = pages_member;
                assert(filled[at as int] == member_model(before[at as int]));
                match pages {
                    Json::List(items) => {
                        let ghost given_items = json_models(items@);
                        proof {
                            assert(filled[at as int].1->List_0 =~= given_items);
                        }
                        match complete_pages(items, model.as_str()) {
                            Some(full) => {
                                let new: Member = Member { name, value: Json::list(full) };
                                members.insert(at, new);
                                proof {
                                    member_at_names(filled, "pages"@);
                                    assert(member_models(members@) =~= filled.update(
                                        at as int,
                                        ("pages"@, new.value@),
                                    ));
                                }
                                Ok(Json::object(members))
                            },
                            None => Err(
                                what.to_owned().concat(": every entry of `pages` must be a dict"),
                            ),
                        }
                    },
                    other => {
                        let same: Member = Member { name, value: other };
                        members.insert(at, same);
                        assert(members@ =~= before);
                        Ok(Json::object(members))
                    },
                }
            } else {
                Ok(Json::object(members))
            }
        },
        _ => Err(what.to_owned().concat(" must be a dict")),
    }
}

/// A leg with everything a caller may leave out filled in: no pages means the whole document,
/// and the tier follows from the model.
pub open spec fn full_leg(members: Seq<(Seq<char>, JsonModel)>) -> Seq<(Seq<char>, JsonModel)> {
    let paged = defaulted(members, "pages"@, JsonModel::Null);
    let tier = if value_under(paged, "model"@) == Some(JsonModel::Text(LOCAL_MODEL@)) {
        "local"@
    } else {
        "standard"@
    };
    defaulted(paged, "tier"@, JsonModel::Text(tier))
}

/// Fill in everything a caller may leave out of a leg.
pub fn complete_leg(value: Json) -> (r: Result<Json, String>)
    ensures
        completed(r) == (match value@ {
            JsonModel::Object(members) => Ok(JsonModel::Object(full_leg(members))),
            _ => Err("every leg must be a dict"@),
        }),
{
    match value {
        Json::Object(members) => {
            let ghost given = member_models(members@);
            assert(value@->Object_0 =~= given);
            let mut members: Vec<Member> = members;
            default_member(&mut members, "pages", Json::Null);
            let ghost paged = member_models(members@);
            let at: usize = find_member(&members, "model");
            let local: bool = if at < members.len() {
                proof {
                    assert(paged[at as int] == member_model(members@[at as int]));
                }
                match &members[at].value {
                    Json::Text(model) => same_text(model.as_str(), LOCAL_MODEL),
                    _ => false,
                }
            } else {
                false
            };
            let tier: Json = if local {
                Json::text("local")
            } else {
                Json::text("standard")
            };
            default_member(&mut members, "tier", tier);
            Ok(Json::object(members))
        },
        _ => Err("every leg must be a dict".to_owned()),
    }
}

/// A decision as a caller gets it: a `kind`, with the fields of that kind beside it.
pub open spec fn flat_decision(
    decision: DecisionModel,
    plan: JsonModel,
    classification: JsonModel,
) -> JsonModel {
    match decision {
        DecisionModel::Bypass { reason, model, detail } => JsonModel::Object(
            seq![
                ("kind"@, JsonModel::Text("bypass"@)),
                ("reason"@, JsonModel::Text(reason.text())),
                ("model"@, JsonModel::Text(model)),
                (
                    "detail"@,
                    match detail {
                        Some(detail) => JsonModel::Text(detail),
                        None => JsonModel::Null,
                    },
                ),
            ],
        ),
        DecisionModel::Route { .. } => JsonModel::Object(
            seq![
                ("kind"@, JsonModel::Text("route"@)),
                ("plan"@, plan),
                ("classification"@, classification),
            ],
        ),
    }
}

/// Flatten a decision into a `kind` with the fields of that kind beside it. `plan` and
/// `classification` are the two parts of a route as they are written out.
pub fn flatten_decision(decision: &Decision, plan: Json, classification: Json) -> (r: Json)
    ensures
        r@ == flat_decision(decision@, plan@, classification@),
{
    let mut members: Vec<Member> = Vec::new();
    match decision {
        Decision::Bypass { reason, model, detail } => {
            members.push(member("kind", Json::text("bypass")));
            members.push(member("reason", Json::text(reason.as_str())));
            members.push(member("model", Json::text(model.as_str())));
            let detail: Json = match detail {
                Some(text) => Json::text(text.as_str()),
                None => Json::Null,
            };
            members.push(member("detail", detail));
        },
        Decision::Route { .. } => {
            members.push(member("kind", Json::text("route")));
            members.push(member("plan", plan));
            members.push(member("classification", classification));
        },
    }
    proof {
        assert(member_models(members@) =~= flat_decision(
            decision@,
            plan@,
            classification@,
        )->Object_0);
    }
    Json::object(members)
}

/// What is given is never overwritten: a member of a leg or a result that is there stays as it
/// was, the pages of a result apart.
pub proof fn defaults_never_overwrite(
    members: Seq<(Seq<char>, JsonModel)>,
    name: Seq<char>,
    other: Seq<char>,
    value: JsonModel,
)
    requires
        holds_member(members, name),
    ensures
        value_under(defaulted(members, other, value), name) == value_under(members, name),
{
    let at = member_at(members, name);
    let after = defaulted(members, other, value);
    member_at_names(members, name);
    member_at_first(members, name);
    assert forall|i: int| 0 <= i < at implies (#[trigger] after[i]).0 != name by {
        assert(after[i] == members[i]);
    }
    assert(after[at] == members[at]);
    member_at_is(after, name, at);
}

proof fn member_at_first(members: Seq<(Seq<char>, JsonModel)>, name: Seq<char>)
    ensures
        forall|i: int| 0 <= i < member_at(members, name) && i < members.len() ==> (
        #[trigger] members[i]).0 != name,
    decreases members.len(),
{
    if members.len() > 0 && members[0].0 != name {
        let rest = members.subrange(1, members.len() as int);
        member_at_first(rest, name);
        assert forall|i: int| 0 <= i < member_at(members, name) && i < members.len() implies (
        #[trigger] members[i]).0 != name by {
            if i > 0 {
                assert(rest[i - 1] == members[i]);
            }
        }
    }
}

/// The value first given under a name, or nothing when the name is not there.
pub open spec fn given(
    members: Seq<(Seq<char>, JsonModel)>,
    name: Seq<char>,
    value: Option<JsonModel>,
) -> bool {
    match value {
        Some(found) => exists|at: int|
            0 <= at < members.len() && #[trigger] members[at] == (name, found) && forall|i: int|
                0 <= i < at ==> (#[trigger] members[i]).0 != name,
        None => forall|i: int| 0 <= i < members.len() ==> (#[trigger] members[i]).0 != name,
    }
}

/// What a lookup finds is what was first given under the name.
pub proof fn a_lookup_finds_what_was_given(members: Seq<(Seq<char>, JsonModel)>, name: Seq<char>)
    ensures
        given(members, name, value_under(members, name)),
{
    member_at_names(members, name);
    member_at_first(members, name);
    let at = member_at(members, name);
    if at < members.len() {
        assert(members[at] == (name, members[at].1));
    }
}

/// Filling in a member gives it its value where there was none, and changes no other.
pub proof fn filling_in_adds_only_what_is_missing(
    members: Seq<(Seq<char>, JsonModel)>,
    name: Seq<char>,
    value: JsonModel,
    other: Seq<char>,
)
    ensures
        ({
            let after = defaulted(members, name, value);
            &&& value_under(members, name) is Some ==> after == members
            &&& value_under(members, name) is None ==> value_under(after, name) == Some(value)
                && after.len() == members.len() + 1
            &&& other != name ==> value_under(after, other) == value_under(members, other)
            &&& forall|i: int| 0 <= i < members.len() ==> #[trigger] after[i] == members[i]
        }),
{
    let after = defaulted(members, name, value);
    member_at_names(members, name);
    member_at_first(members, name);
    member_at_names(members, other);
    member_at_first(members, other);
    if value_under(members, name) is None {
        assert forall|i: int| 0 <= i < members.len() implies (#[trigger] after[i]).0 != name by {
            assert(members[i].0 != name);
        }
        member_at_is(after, name, members.len() as int);
        if other != name {
            let at = member_at(members, other);
            assert forall|i: int| 0 <= i < at implies (#[trigger] after[i]).0 != other by {
                assert(after[i] == members[i]);
            }
            if at < members.len() {
                assert(after[at] == members[at]);
                member_at_is(after, other, at);
            } else {
                assert forall|i: int| 0 <= i < after.len() implies (#[trigger] after[i]).0
                    != other by {
                    if i < members.len() {
                        assert(after[i] == members[i]);
                    }
                }
                member_at_is(after, other, after.len() as int);
            }
        }
    }
}

proof fn replacing_changes_one(
    members: Seq<(Seq<char>, JsonModel)>,
    name: Seq<char>,
    value: JsonModel,
    other: Seq<char>,
)
    requires
        value_under(members, name) is Some,
    ensures
        value_under(replaced(members, name, value), name) == Some(value),
        other != name ==> value_under(replaced(members, name, value), other) == value_under(
            members,
            other,
        ),
        replaced(members, name, value).len() == members.len(),
{
    let after = replaced(members, name, value);
    let at = member_at(members, name);
    member_at_names(members, name);
    member_at_first(members, name);
    member_at_names(members, other);
    member_at_first(members, other);
    assert forall|i: int| 0 <= i < at implies (#[trigger] after[i]).0 != name by {
        assert(after[i] == members[i]);
    }
    member_at_is(after, name, at);
    if other != name {
        let there = member_at(members, other);
        assert forall|i: int| 0 <= i < there && i < after.len() implies (#[trigger] after[i]).0
            != other by {
            if i != at {
                assert(after[i] == members[i]);
            }
        }
        if there < members.len() {
            assert(members[there].0 == other);
            assert(there != at);
            assert(after[there] == members[there]);
        }
        member_at_is(after, other, there);
    }
}

/// Names of members differ.
proof fn classification_names_differ()
    ensures
        "pdf_type"@ != "classify_ms"@,
        "pdf_type"@ != "is_complex_layout"@,
        "pdf_type"@ != "has_encoding_issues"@,
        "pdf_type"@ != "ocr_reasons"@,
        "classify_ms"@ != "is_complex_layout"@,
        "classify_ms"@ != "has_encoding_issues"@,
        "classify_ms"@ != "ocr_reasons"@,
        "is_complex_layout"@ != "has_encoding_issues"@,
        "is_complex_layout"@ != "ocr_reasons"@,
        "has_encoding_issues"@ != "ocr_reasons"@,
{
    reveal_strlit("pdf_type");
    reveal_strlit("classify_ms");
    reveal_strlit("is_complex_layout");
    reveal_strlit("has_encoding_issues");
    reveal_strlit("ocr_reasons");
    assert("pdf_type"@[0] == 'p');
    assert("classify_ms"@[0] == 'c');
    assert("is_complex_layout"@[0] == 'i');
    assert("has_encoding_issues"@[0] == 'h');
    assert("ocr_reasons"@[0] == 'o');
}

/// A classification is completed, not changed: every member that was given keeps its value, the
/// type apart, which is spelled as on the wire where it is a text; the time, the layout, the
/// encodings and the reasons are filled in where they were left out, as nothing found.
pub proof fn a_classification_is_completed_not_changed(
    members: Seq<(Seq<char>, JsonModel)>,
    name: Seq<char>,
)
    ensures
        ({
            let full = full_classification(members);
            let was = value_under(members, name);
            let now = value_under(full, name);
            &&& name != "pdf_type"@ && was is Some ==> now == was
            &&& name == "pdf_type"@ && was is Some && was->0 is Text ==> now == Some(
                JsonModel::Text(PdfType::parsed(was->0->Text_0).text()),
            )
            &&& name == "pdf_type"@ && was is Some && !(was->0 is Text) ==> now == was
            &&& was is None && name == "classify_ms"@ ==> now == Some(JsonModel::Number("0.0"@))
            &&& was is None && name == "is_complex_layout"@ ==> now == Some(JsonModel::Bool(false))
            &&& was is None && name == "has_encoding_issues"@ ==> now == Some(
                JsonModel::Bool(false),
            )
            &&& was is None && name == "ocr_reasons"@ ==> now == Some(
                JsonModel::List(Seq::<JsonModel>::empty()),
            )
            &&& was is None && name != "classify_ms"@ && name != "is_complex_layout"@ && name
                != "has_encoding_issues"@ && name != "ocr_reasons"@ ==> now is None
        }),
{
    classification_names_differ();
    let spelled = match value_under(members, "pdf_type"@) {
        Some(JsonModel::Text(raw)) => replaced(
            members,
            "pdf_type"@,
            JsonModel::Text(PdfType::parsed(raw).text()),
        ),
        _ => members,
    };
    if value_under(members, "pdf_type"@) is Some && value_under(members, "pdf_type"@)->0 is Text {
        let raw = value_under(members, "pdf_type"@)->0->Text_0;
        replacing_changes_one(
            members,
            "pdf_type"@,
            JsonModel::Text(PdfType::parsed(raw).text()),
            name,
        );
    }
    let a = defaulted(spelled, "classify_ms"@, zero_number());
    let b = defaulted(a, "is_complex_layout"@, JsonModel::Bool(false));
    let c = defaulted(b, "has_encoding_issues"@, JsonModel::Bool(false));
    filling_in_adds_only_what_is_missing(spelled, "classify_ms"@, zero_number(), name);
    filling_in_adds_only_what_is_missing(a, "is_complex_layout"@, JsonModel::Bool(false), name);
    filling_in_adds_only_what_is_missing(b, "has_encoding_issues"@, JsonModel::Bool(false), name);
    filling_in_adds_only_what_is_missing(
        c,
        "ocr_reasons"@,
        JsonModel::List(Seq::<JsonModel>::empty()),
        name,
    );
}

/// A failed leg is raised as what failed underneath it, however many legs deep; configuration
/// mistakes, documents and the outside world are told apart.
pub proof fn errors_are_raised_by_their_cause(error: ErrorModel, model: Seq<char>, detail: Seq<char>)
    ensures
        kind(ErrorModel::LegFailed { model, source: Box::new(error) }) == kind(error),
        kind(ErrorModel::InvalidConfig(detail)) == Kind::Config,
        kind(ErrorModel::NotPdf) == Kind::Pdf,
        kind(ErrorModel::Pdf(detail)) == Kind::Pdf,
        kind(ErrorModel::Split(detail)) == Kind::Pdf,
        kind(ErrorModel::Host(detail)) == Kind::Host,
        kind(ErrorModel::Judge(detail)) == Kind::Host,
{
}

proof fn result_names_differ()
    ensures
        "pages"@ != "model"@,
        "pages"@ != "pages_processed"@,
        "pages"@ != "doc_size_bytes"@,
        "pages"@ != "tier"@,
        "model"@ != "pages_processed"@,
        "model"@ != "doc_size_bytes"@,
        "model"@ != "tier"@,
        "pages_processed"@ != "doc_size_bytes"@,
        "index"@ != "markdown"@,
        "index"@ != "model"@,
        "markdown"@ != "model"@,
{
    reveal_strlit("pages");
    reveal_strlit("model");
    reveal_strlit("pages_processed");
    reveal_strlit("doc_size_bytes");
    reveal_strlit("tier");
    reveal_strlit("index");
    reveal_strlit("markdown");
    assert("pages"@[0] == 'p' && "pages"@.len() == 5);
    assert("pages_processed"@[0] == 'p' && "pages_processed"@.len() == 15);
    assert("model"@[0] == 'm' && "model"@.len() == 5);
    assert("markdown"@.len() == 8);
    assert("doc_size_bytes"@[0] == 'd');
    assert("tier"@[0] == 't');
    assert("index"@[0] == 'i');
}

/// A page of a result is completed, not changed: what was given stays; the number left out is the
/// page's position, the text left out is empty and the model left out is the result's.
pub proof fn a_page_is_completed_not_changed(
    members: Seq<(Seq<char>, JsonModel)>,
    position: nat,
    model: Seq<char>,
    name: Seq<char>,
)
    ensures
        full_page(members, position, model) is Object,
        ({
            let was = value_under(members, name);
            let now = value_under(full_page(members, position, model)->Object_0, name);
            &&& was is Some ==> now == was
            &&& was is None && name == "index"@ ==> now == Some(
                JsonModel::Number(crate::text::decimal(position)),
            )
            &&& was is None && name == "markdown"@ ==> now == Some(JsonModel::Text(""@))
            &&& was is None && name == "model"@ ==> now == Some(JsonModel::Text(model))
            &&& was is None && name != "index"@ && name != "markdown"@ && name != "model"@
                ==> now is None
        }),
{
    result_names_differ();
    let a = defaulted(members, "index"@, number_model(position));
    let b = defaulted(a, "markdown"@, JsonModel::Text(""@));
    filling_in_adds_only_what_is_missing(members, "index"@, number_model(position), name);
    filling_in_adds_only_what_is_missing(a, "markdown"@, JsonModel::Text(""@), name);
    filling_in_adds_only_what_is_missing(b, "model"@, JsonModel::Text(model), name);
}

/// A result is completed, not changed. It is refused exactly when it is no object, or lists a
/// page that is none. Otherwise every member that was given keeps its value, the pages apart,
/// which are as many as before, each completed under its position and the result's model. A model
/// left out is the default one, a page count left out is the number of pages listed, and a size
/// left out is none.
pub proof fn a_result_is_completed_not_changed(
    members: Seq<(Seq<char>, JsonModel)>,
    default_model: Seq<char>,
    what: Seq<char>,
    name: Seq<char>,
)
    ensures
        ({
            let full = full_result(JsonModel::Object(members), default_model, what);
            let pages = value_under(members, "pages"@);
            let listed = pages is Some && pages->0 is List;
            let model = value_under(members, "model"@);
            let was = value_under(members, name);
            let now = value_under(full->Ok_0->Object_0, name);
            &&& full is Err <==> listed && exists|i: int|
                0 <= i < pages->0->List_0.len() && !((#[trigger] pages->0->List_0[i]) is Object)
            &&& full is Err ==> full->Err_0 == what + ": every entry of `pages` must be a dict"@
            &&& full is Ok ==> {
                &&& full->Ok_0 is Object
                &&& was is Some && name != "pages"@ ==> now == was
                &&& was is Some && name == "pages"@ && !listed ==> now == was
                &&& name == "pages"@ && listed ==> now is Some && now->0 is List
                    && now->0->List_0.len() == pages->0->List_0.len() && forall|i: int|
                    0 <= i < pages->0->List_0.len() ==> #[trigger] now->0->List_0[i] == full_page(
                        pages->0->List_0[i]->Object_0,
                        i as nat,
                        if model is Some && model->0 is Text {
                            model->0->Text_0
                        } else {
                            default_model
                        },
                    )
                &&& was is None && name == "pages"@ ==> now is Some && now->0 is List
                    && now->0->List_0.len() == 0
                &&& was is None && name == "model"@ ==> now == Some(JsonModel::Text(default_model))
                &&& was is None && name == "pages_processed"@ ==> now == Some(
                    JsonModel::Number(
                        crate::text::decimal(
                            if listed {
                                pages->0->List_0.len()
                            } else {
                                0
                            },
                        ),
                    ),
                )
                &&& was is None && name == "doc_size_bytes"@ ==> now == Some(JsonModel::Null)
                &&& was is None && name != "pages"@ && name != "model"@ && name
                    != "pages_processed"@ && name != "doc_size_bytes"@ ==> now is None
            }
        }),
        forall|value: JsonModel|
            !(value is Object) ==> #[trigger] full_result(value, default_model, what) == Err::<
                JsonModel,
                Seq<char>,
            >(what + " must be a dict"@),
{
    result_names_differ();
    let none = JsonModel::List(Seq::<JsonModel>::empty());
    let count = number_model(listed_pages(members));
    let a = defaulted(members, "pages"@, none);
    let b = defaulted(a, "model"@, JsonModel::Text(default_model));
    let c = defaulted(b, "pages_processed"@, count);
    let filled = defaulted(c, "doc_size_bytes"@, JsonModel::Null);
    filled_in_four(members, default_model, name);
    filled_in_four(members, default_model, "pages"@);
    filled_in_four(members, default_model, "model"@);
    assert(filled == with_result_defaults(members, default_model));
    let pages = value_under(filled, "pages"@);
    if pages is Some && pages->0 is List && all_objects(pages->0->List_0) {
        let full = JsonModel::List(
            full_pages(pages->0->List_0, result_model(filled, default_model)),
        );
        replacing_changes_one(filled, "pages"@, full, name);
        replacing_changes_one(filled, "pages"@, full, "pages"@);
    }
}

proof fn filled_in_four(
    members: Seq<(Seq<char>, JsonModel)>,
    default_model: Seq<char>,
    name: Seq<char>,
)
    ensures
        ({
            let filled = with_result_defaults(members, default_model);
            let was = value_under(members, name);
            let now = value_under(filled, name);
            &&& was is Some ==> now == was
            &&& was is None && name == "pages"@ ==> now == Some(
                JsonModel::List(Seq::<JsonModel>::empty()),
            )
            &&& was is None && name == "model"@ ==> now == Some(JsonModel::Text(default_model))
            &&& was is None && name == "pages_processed"@ ==> now == Some(
                number_model(listed_pages(members)),
            )
            &&& was is None && name == "doc_size_bytes"@ ==> now == Some(JsonModel::Null)
            &&& was is None && name != "pages"@ && name != "model"@ && name != "pages_processed"@
                && name != "doc_size_bytes"@ ==> now is None
        }),
{
    result_names_differ();
    let none = JsonModel::List(Seq::<JsonModel>::empty());
    let count = number_model(listed_pages(members));
    let a = defaulted(members, "pages"@, none);
    let b = defaulted(a, "model"@, JsonModel::Text(default_model));
    let c = defaulted(b, "pages_processed"@, count);
    filling_in_adds_only_what_is_missing(members, "pages"@, none, name);
    filling_in_adds_only_what_is_missing(a, "model"@, JsonModel::Text(default_model), name);
    filling_in_adds_only_what_is_missing(b, "pages_processed"@, count, name);
    filling_in_adds_only_what_is_missing(c, "doc_size_bytes"@, JsonModel::Null, name);
}

/// A leg is completed, not changed: what was given stays; pages left out are the whole document,
/// and a tier left out is local exactly for the local extractor's model and standard for any
/// other.
pub proof fn a_leg_is_completed_not_changed(
    members: Seq<(Seq<char>, JsonModel)>,
    name: Seq<char>,
)
    ensures
        ({
            let was = value_under(members, name);
            let now = value_under(full_leg(members), name);
            let local = value_under(members, "model"@) == Some(
                JsonModel::Text("local_pdf/extract"@),
            );
            &&& was is Some ==> now == was
            &&& was is None && name == "pages"@ ==> now == Some(JsonModel::Null)
            &&& was is None && name == "tier"@ && local ==> now == Some(JsonModel::Text("local"@))
            &&& was is None && name == "tier"@ && !local ==> now == Some(
                JsonModel::Text("standard"@),
            )
            &&& was is None && name != "pages"@ && name != "tier"@ ==> now is None
        }),
{
    result_names_differ();
    let paged = defaulted(members, "pages"@, JsonModel::Null);
    filling_in_adds_only_what_is_missing(members, "pages"@, JsonModel::Null, name);
    filling_in_adds_only_what_is_missing(members, "pages"@, JsonModel::Null, "model"@);
    let tier = if value_under(paged, "model"@) == Some(JsonModel::Text(LOCAL_MODEL@)) {
        "local"@
    } else {
        "standard"@
    };
    filling_in_adds_only_what_is_missing(paged, "tier"@, JsonModel::Text(tier), name);
}

/// A decision comes flat: a bypass with its reason, its model and its detail, a route with its
/// plan and its classification, each under its own name and nothing beside them.
pub proof fn a_decision_comes_flat(
    decision: DecisionModel,
    plan: JsonModel,
    classification: JsonModel,
)
    ensures
        flat_decision(decision, plan, classification) is Object,
        ({
            let members = flat_decision(decision, plan, classification)->Object_0;
            &&& decision is Bypass ==> members.len() == 4 && members[0] == (
                "kind"@,
                JsonModel::Text("bypass"@),
            ) && members[1] == ("reason"@, JsonModel::Text(decision->reason.text())) && members[2]
                == ("model"@, JsonModel::Text(decision->model)) && members[3].0 == "detail"@ && (
            decision->detail is Some ==> members[3].1 == JsonModel::Text(decision->detail->0)) && (
            decision->detail is None ==> members[3].1 == JsonModel::Null)
            &&& decision is Route ==> members.len() == 3 && members[0] == (
                "kind"@,
                JsonModel::Text("route"@),
            ) && members[1] == ("plan"@, plan) && members[2] == ("classification"@, classification)
        }),
{
}

/// What is handed in and is no object is refused in words that say what it should have been.
pub proof fn only_objects_are_completed(
    classification: Json,
    leg: Json,
    full: Result<Json, String>,
    full_leg: Result<Json, String>,
)
    requires
        call_ensures(complete_classification, (classification,), full),
        call_ensures(complete_leg, (leg,), full_leg),
    ensures
        full is Ok <==> classification@ is Object,
        full is Err ==> full->Err_0@ == "classification must be a dict"@,
        full_leg is Ok <==> leg@ is Object,
        full_leg is Err ==> full_leg->Err_0@ == "every leg must be a dict"@,
{
}

} // verus!
