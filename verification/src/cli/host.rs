//! Requests to and replies from a proxy's `/v1/ocr` endpoint, without the HTTP.

use crate::error::{Error, ErrorModel};
use crate::extract::{
    ocr_outcome, opt_pages, page_models, OcrResult, OcrResultModel, Page, PageModel,
};
use crate::jev::judge::{
    non_blank, successful, trim_trailing_slashes, without_trailing_slashes, ERROR_BODY_CHARS,
};
use crate::json::{
    member, member_models, page_number_models, Json, JsonModel, Member,
};
use crate::policy::opt_page_list;
use crate::split::{may_split, remap_pages, remapped, split_pdf};
use crate::text::{cut, decimal, is_blank, opt_str, opt_text, push_decimal, truncate};
use base64::Engine;
use vstd::prelude::*;
use vstd::string::*;

verus! {

/// The standard base64 form of some bytes.
pub uninterp spec fn base64_of(bytes: Seq<u8>) -> Seq<char>;

/// `base64::engine::general_purpose::STANDARD.encode`: standard alphabet, padded.
///
/// Claimed of it: the same bytes are always encoded the same way.
#[verifier::external_body]
pub(crate) fn base64_text(bytes: &[u8]) -> (r: String)
    ensures
        r@ == base64_of(bytes@),
{
    base64::engine::general_purpose::STANDARD.encode(bytes)
}

/// One `/v1/ocr` call as it happened, for the per-leg summary.
#[derive(Debug, PartialEq, Eq)]
pub struct CallRecord {
    /// The model the call asked for.
    pub model: String,
    /// The 0-indexed page subset requested, or `None` for the whole document.
    pub pages: Option<Vec<u32>>,
    /// Wall-clock duration of the HTTP round trip, in milliseconds.
    pub elapsed_ms: u128,
    /// The HTTP status the proxy returned, when a response arrived at all.
    pub status: Option<u16>,
}

/// A [`CallRecord`] over sequences.
pub ghost struct CallRecordModel {
    pub model: Seq<char>,
    pub pages: Option<Seq<u32>>,
    pub elapsed_ms: u128,
    pub status: Option<u16>,
}

impl View for CallRecord {
    type V = CallRecordModel;

    open spec fn view(&self) -> CallRecordModel {
        CallRecordModel {
            model: self.model@,
            pages: opt_page_list(self.pages),
            elapsed_ms: self.elapsed_ms,
            status: self.status,
        }
    }
}

/// A proxy: where it is, how to authenticate, and whether it takes page lists.
#[derive(PartialEq)]
pub struct LiteLlmHost {
    /// The proxy's origin, without a trailing slash.
    pub base_url: String,
    /// The bearer token, if any.
    pub api_key: Option<String>,
    /// Whether a page subset is uploaded as a subset PDF instead of a page list.
    pub split_subset: bool,
}

/// A [`LiteLlmHost`] with its texts as character sequences.
pub ghost struct LiteLlmHostModel {
    pub base_url: Seq<char>,
    pub api_key: Option<Seq<char>>,
    pub split_subset: bool,
}

impl View for LiteLlmHost {
    type V = LiteLlmHostModel;

    open spec fn view(&self) -> LiteLlmHostModel {
        LiteLlmHostModel {
            base_url: self.base_url@,
            api_key: opt_text(self.api_key),
            split_subset: self.split_subset,
        }
    }
}

/// The data URI a document is uploaded as.
pub open spec fn data_uri(document: Seq<u8>) -> Seq<char> {
    "data:application/pdf;base64,"@ + base64_of(document)
}

/// The request body for `model` over `document`: the page list is there only when there is
/// one.
pub open spec fn body_model(
    model: Seq<char>,
    document: Seq<u8>,
    pages: Option<Seq<u32>>,
) -> JsonModel {
    let start = seq![
        ("model"@, JsonModel::Text(model)),
        (
            "document"@,
            JsonModel::Object(
                seq![
                    ("type"@, JsonModel::Text("document_url"@)),
                    ("document_url"@, JsonModel::Text(data_uri(document))),
                ],
            ),
        ),
    ];
    match pages {
        Some(list) => JsonModel::Object(
            start.push(("pages"@, JsonModel::List(page_number_models(list)))),
        ),
        None => JsonModel::Object(start),
    }
}

/// What is uploaded for one call.
#[derive(Debug)]
pub enum Upload {
    /// The document itself, with the page list as asked.
    Whole,
    /// This subset document, with no page list.
    Subset(Vec<u8>),
}

/// What the proxy's reply is reduced to.
#[derive(Debug, PartialEq)]
pub struct OcrResponse {
    /// The pages the provider read.
    pub pages: Vec<OcrResponsePage>,
    /// The model the provider says it used.
    pub model: Option<String>,
    /// What the provider says it cost.
    pub usage_info: Option<UsageInfo>,
}

/// One page of a reply.
#[derive(Debug, PartialEq)]
pub struct OcrResponsePage {
    /// 0-indexed page number.
    pub index: u32,
    /// The page's content as markdown.
    pub markdown: String,
}

/// The usage block of a reply.
#[derive(Clone, Copy, Debug, PartialEq, Eq, Structural)]
pub struct UsageInfo {
    /// How many pages were processed.
    pub pages_processed: Option<u32>,
    /// The size of the document.
    pub doc_size_bytes: Option<u64>,
}

/// An [`OcrResponse`] over sequences.
pub ghost struct OcrResponseModel {
    pub pages: Seq<(u32, Seq<char>)>,
    pub model: Option<Seq<char>>,
    pub usage_info: Option<UsageInfo>,
}

impl View for OcrResponse {
    type V = OcrResponseModel;

    open spec fn view(&self) -> OcrResponseModel {
        OcrResponseModel {
            pages: self.pages@.map_values(|p: OcrResponsePage| (p.index, p.markdown@)),
            model: opt_text(self.model),
            usage_info: self.usage_info,
        }
    }
}

impl OcrResponseModel {
    /// The model a reply is attributed to: its own unless absent or blank, else the one asked
    /// for.
    pub open spec fn attributed_model(self, requested: Seq<char>) -> Seq<char> {
        match non_blank(self.model) {
            Some(model) => model,
            None => requested,
        }
    }

    /// The result a reply stands for.
    pub open spec fn result(self, requested: Seq<char>) -> OcrResultModel {
        let model = self.attributed_model(requested);
        OcrResultModel {
            pages: self.pages.map_values(
                |p: (u32, Seq<char>)| PageModel { index: p.0, markdown: p.1, model },
            ),
            model,
            pages_processed: if self.usage_info is Some && self.usage_info->0.pages_processed
                is Some {
                self.usage_info->0.pages_processed->0
            } else {
                self.pages.len() as u32
            },
            doc_size_bytes: if self.usage_info is Some {
                self.usage_info->0.doc_size_bytes
            } else {
                None
            },
        }
    }
}

impl OcrResponse {
    /// The result this reply stands for: its own model unless absent or blank, its own page
    /// count unless absent.
    pub fn into_result(self, requested_model: &str) -> (r: OcrResult)
        ensures
            r@ == self@.result(requested_model@),
    {
        let ghost start = self@;
        let model: String = match &self.model {
            Some(name) => if is_blank(name.as_str()) {
                requested_model.to_owned()
            } else {
                name.clone()
            },
            None => requested_model.to_owned(),
        };
        let ghost all = start.result(requested_model@).pages;
        let mut pages: Vec<Page> = Vec::new();
        let mut i: usize = 0;
        assert(page_models(pages@) =~= all.take(0));
        while i < self.pages.len()
            invariant
                i <= self.pages@.len(),
                self@ == start,
                model@ == start.attributed_model(requested_model@),
                all == start.result(requested_model@).pages,
                page_models(pages@) == all.take(i as int),
            decreases self.pages@.len() - i,
        {
            let ghost before = pages@;
            let page: &OcrResponsePage = &self.pages[i];
            pages.push(Page::new(page.index, page.markdown.as_str(), model.as_str()));
            assert(start.pages[i as int] == (page.index, page.markdown@));
            assert(page_models(pages@) =~= page_models(before).push(pages@.last()@));
            assert(all.take(i + 1) =~= all.take(i as int).push(all[i as int]));
            i += 1;
        }
        assert(all.take(all.len() as int) =~= all);
        let counted: u32 = pages.len() as u32;
        let (pages_processed, doc_size_bytes): (u32, Option<u64>) = match self.usage_info {
            Some(usage) => (
                match usage.pages_processed {
                    Some(n) => n,
                    None => counted,
                },
                usage.doc_size_bytes,
            ),
            None => (counted, None),
        };
        OcrResult { pages_processed, doc_size_bytes, pages, model }
    }
}

/// What the HTTP layer saw of one call.
#[derive(Debug)]
pub enum Reply {
    /// No response arrived.
    NoResponse {
        /// What the client reported.
        detail: String,
    },
    /// A response arrived whose body could not be read.
    Unreadable {
        /// The HTTP status.
        status: u16,
        /// What the client reported.
        detail: String,
    },
    /// A response arrived.
    Answered {
        /// The HTTP status.
        status: u16,
        /// The body.
        text: String,
        /// The body read as a reply, or what the reader reported.
        parsed: Result<OcrResponse, String>,
    },
}

/// The status of a reply, when a response arrived at all.
pub open spec fn reply_status(reply: Reply) -> Option<u16> {
    match reply {
        Reply::NoResponse { .. } => None,
        Reply::Unreadable { status, .. } => Some(status),
        Reply::Answered { status, .. } => Some(status),
    }
}

/// What a reply comes to: a result, or a host error that names the endpoint and what came
/// back, never the key.
pub open spec fn reply_outcome(url: Seq<char>, requested: Seq<char>, reply: Reply) -> Result<
    OcrResultModel,
    ErrorModel,
> {
    match reply {
        Reply::NoResponse { detail } => Err(
            ErrorModel::Host("POST "@ + url + " failed: "@ + detail@),
        ),
        Reply::Unreadable { status, detail } => Err(
            ErrorModel::Host(
                "POST "@ + url + " returned HTTP "@ + decimal(status as nat)
                    + ", unreadable body: "@ + detail@,
            ),
        ),
        Reply::Answered { status, text, parsed } => if !successful(status) {
            Err(
                ErrorModel::Host(
                    "POST "@ + url + " returned HTTP "@ + decimal(status as nat) + ": "@ + cut(
                        text@,
                        ERROR_BODY_CHARS as nat,
                    ),
                ),
            )
        } else {
            match parsed {
                Ok(response) => Ok(response@.result(requested)),
                Err(reported) => Err(
                    ErrorModel::Host(
                        "POST "@ + url + " returned HTTP "@ + decimal(status as nat)
                            + " with unparseable JSON ("@ + reported@ + "): "@ + cut(
                            text@,
                            ERROR_BODY_CHARS as nat,
                        ),
                    ),
                ),
            }
        },
    }
}

impl LiteLlmHost {
    /// A host pointed at `base_url` (e.g. `http://localhost:4000`).
    pub fn new(base_url: &str) -> (r: Self)
        ensures
            r@ == (LiteLlmHostModel {
                base_url: without_trailing_slashes(base_url@),
                api_key: None,
                split_subset: false,
            }),
    {
        LiteLlmHost {
            base_url: trim_trailing_slashes(base_url),
            api_key: None,
            split_subset: false,
        }
    }

    /// Send `Authorization: Bearer <key>`. An empty or whitespace-only key is ignored.
    #[must_use]
    pub fn with_api_key(self, api_key: Option<&str>) -> (r: Self)
        ensures
            r@ == (LiteLlmHostModel { api_key: non_blank(opt_str(api_key)), ..self@ }),
    {
        let mut host: LiteLlmHost = self;
        host.api_key =
        match api_key {
            Some(key) => if is_blank(key) {
                None
            } else {
                Some(key.to_owned())
            },
            None => None,
        };
        host
    }

    /// For providers that ignore the `pages` field: send a split subset PDF instead.
    #[must_use]
    pub fn with_split_subset(self, split_subset: bool) -> (r: Self)
        ensures
            r@ == (LiteLlmHostModel { split_subset, ..self@ }),
    {
        let mut host: LiteLlmHost = self;
        host.split_subset = split_subset;
        host
    }

    /// The proxy endpoint this host posts to.
    pub fn endpoint(&self) -> (r: String)
        ensures
            r@ == self@.base_url + "/v1/ocr"@,
    {
        self.base_url.clone().concat("/v1/ocr")
    }

    /// The request body for `model` over `document`, exactly as it goes on the wire.
    pub fn request_body(model: &str, document: &[u8], pages: Option<&[u32]>) -> (r: Json)
        ensures
            r@ == body_model(model@, document@, opt_pages(pages)),
    {
        let encoded: String = base64_text(document);
        let uri: String = "data:application/pdf;base64,".to_owned().concat(encoded.as_str());
        let mut inner: Vec<Member> = Vec::new();
        inner.push(member("type", Json::text("document_url")));
        inner.push(member("document_url", Json::Text(uri)));
        assert(member_models(inner@) =~= seq![
            ("type"@, JsonModel::Text("document_url"@)),
            ("document_url"@, JsonModel::Text(data_uri(document@))),
        ]);
        let mut members: Vec<Member> = Vec::new();
        members.push(member("model", Json::text(model)));
        members.push(member("document", Json::object(inner)));
        if let Some(list) = pages {
            members.push(member("pages", Json::page_numbers(list)));
        }
        assert(member_models(members@) =~= body_model(
            model@,
            document@,
            opt_pages(pages),
        )->Object_0);
        Json::object(members)
    }

    /// What to upload for a call about `pages` of `document`: the subset PDF when this host
    /// splits and there is a page list, the document itself otherwise.
    pub fn upload(&self, document: &[u8], pages: Option<&[u32]>) -> (r: Result<Upload, Error>)
        ensures
            if self@.split_subset && pages is Some {
                match r {
                    Ok(upload) => upload is Subset && may_split(
                        document@,
                        pages->0@,
                        Ok(upload->Subset_0@),
                    ),
                    Err(error) => may_split(document@, pages->0@, Err(error@)),
                }
            } else {
                r is Ok && r->Ok_0 is Whole
            },
    {
        if self.split_subset {
            if let Some(list) = pages {
                return match split_pdf(document, list) {
                    Ok(subset) => Ok(Upload::Subset(subset)),
                    Err(error) => Err(error),
                };
            }
        }
        Ok(Upload::Whole)
    }

    /// The result a caller gets: page indices are mapped back when a subset was uploaded.
    pub fn deliver(&self, result: OcrResult, pages: Option<&[u32]>) -> (r: OcrResult)
        ensures
            r@ == (if self@.split_subset && pages is Some {
                remapped(result@, pages->0@)
            } else {
                result@
            }),
    {
        let mut result: OcrResult = result;
        if self.split_subset {
            if let Some(list) = pages {
                remap_pages(&mut result, list);
            }
        }
        result
    }

    /// Read the reply to a call that asked for `model`.
    pub fn read_reply(&self, model: &str, reply: Reply) -> (r: Result<OcrResult, Error>)
        ensures
            ocr_outcome(r) == reply_outcome(self@.base_url + "/v1/ocr"@, model@, reply),
    {
        let url: String = self.endpoint();
        let mut message: String = "POST ".to_owned();
        message.append(url.as_str());
        match reply {
            Reply::NoResponse { detail } => {
                message.append(" failed: ");
                message.append(detail.as_str());
                Err(Error::Host(message))
            },
            Reply::Unreadable { status, detail } => {
                message.append(" returned HTTP ");
                push_decimal(&mut message, status as u64);
                message.append(", unreadable body: ");
                message.append(detail.as_str());
                Err(Error::Host(message))
            },
            Reply::Answered { status, text, parsed } => {
                message.append(" returned HTTP ");
                push_decimal(&mut message, status as u64);
                if status < 200 || status >= 300 {
                    message.append(": ");
                    message.append(truncate(text.as_str(), ERROR_BODY_CHARS).as_str());
                    return Err(Error::Host(message));
                }
                match parsed {
                    Ok(response) => Ok(response.into_result(model)),
                    Err(reported) => {
                        message.append(" with unparseable JSON (");
                        message.append(reported.as_str());
                        message.append("): ");
                        message.append(truncate(text.as_str(), ERROR_BODY_CHARS).as_str());
                        Err(Error::Host(message))
                    },
                }
            },
        }
    }
}

/// The record of one call.
pub fn call_record(model: &str, pages: Option<&[u32]>, elapsed_ms: u128, reply: &Reply) -> (r:
    CallRecord)
    ensures
        r@ == (CallRecordModel {
            model: model@,
            pages: opt_pages(pages),
            elapsed_ms,
            status: reply_status(*reply),
        }),
{
    CallRecord {
        model: model.to_owned(),
        pages: match pages {
            Some(list) => Some(copy_pages(list)),
            None => None,
        },
        elapsed_ms,
        status: match reply {
            Reply::NoResponse { .. } => None,
            Reply::Unreadable { status, .. } => Some(*status),
            Reply::Answered { status, .. } => Some(*status),
        },
    }
}

/// A copy of a borrowed page list.
pub fn copy_pages(pages: &[u32]) -> (r: Vec<u32>)
    ensures
        r@ == pages@,
{
    let mut out: Vec<u32> = Vec::new();
    let mut i: usize = 0;
    while i < pages.len()
        invariant
            i <= pages@.len(),
            out@ == pages@.take(i as int),
        decreases pages@.len() - i,
    {
        out.push(pages[i]);
        i += 1;
    }
    out
}

/// The first value that is set.
pub open spec fn first_set(values: Seq<Option<String>>) -> Option<Seq<char>>
    decreases values.len(),
{
    if values.len() == 0 {
        None
    } else {
        match opt_text(values[0]) {
            Some(value) => Some(value),
            None => first_set(values.subrange(1, values.len() as int)),
        }
    }
}

/// Resolve the proxy key: the flag first, then the environment variables' values in order. A
/// blank flag does not count; the first variable that is set decides, and a blank value is no
/// key.
pub fn resolve_api_key(flag: Option<&str>, environment: &Vec<Option<String>>) -> (r: Option<String>)
    ensures
        opt_text(r) == (match non_blank(opt_str(flag)) {
            Some(key) => Some(key),
            None => non_blank(first_set(environment@)),
        }),
{
    if let Some(key) = flag {
        if !is_blank(key) {
            return Some(key.to_owned());
        }
    }
    let mut i: usize = 0;
    assert(environment@.subrange(0, environment@.len() as int) =~= environment@);
    while i < environment.len()
        invariant
            i <= environment@.len(),
            non_blank(opt_str(flag)) is None,
            first_set(environment@) == first_set(
                environment@.subrange(i as int, environment@.len() as int),
            ),
        decreases environment@.len() - i,
    {
        let ghost rest = environment@.subrange(i as int, environment@.len() as int);
        assert(rest[0] == environment@[i as int]);
        assert(rest.subrange(1, rest.len() as int) =~= environment@.subrange(
            i + 1,
            environment@.len() as int,
        ));
        if let Some(value) = &environment[i] {
            return if is_blank(value.as_str()) {
                None
            } else {
                Some(value.clone())
            };
        }
        i += 1;
    }
    None
}

/// A reply that arrived with a success status and could be read is a result with the provider's
/// own pages: as many, each under its number and with its markdown, character for character. They
/// are attributed to the model the provider names, or to the one asked for where it names none.
/// The pages processed and the size are the provider's, or else the number of pages and none.
pub proof fn a_reply_is_taken_as_it_came(url: Seq<char>, requested: Seq<char>, reply: Reply)
    requires
        reply is Answered,
        200 <= reply->Answered_status <= 299,
        reply->parsed is Ok,
    ensures
        ({
            let response = reply->parsed->Ok_0@;
            let outcome = reply_outcome(url, requested, reply);
            let named = response.model is Some && exists|i: int|
                0 <= i < response.model->0.len() && !crate::text::is_space(
                    #[trigger] response.model->0[i],
                );
            let result = outcome->Ok_0;
            &&& outcome is Ok
            &&& result.pages.len() == response.pages.len()
            &&& forall|i: int|
                0 <= i < response.pages.len() ==> (#[trigger] result.pages[i]).index
                    == response.pages[i].0 && result.pages[i].markdown == response.pages[i].1
                    && result.pages[i].model == result.model
            &&& named ==> result.model == response.model->0
            &&& !named ==> result.model == requested
            &&& response.usage_info is Some && response.usage_info->0.pages_processed is Some
                ==> result.pages_processed == response.usage_info->0.pages_processed->0
            &&& response.pages.len() <= u32::MAX && (response.usage_info is None
                || response.usage_info->0.pages_processed is None) ==> result.pages_processed
                == response.pages.len()
            &&& response.usage_info is Some ==> result.doc_size_bytes
                == response.usage_info->0.doc_size_bytes
            &&& response.usage_info is None ==> result.doc_size_bytes is None
        }),
{
}

/// Every other reply is a host error: one that never arrived, one without a success status, and
/// one that could not be read.
pub proof fn no_other_reply_is_taken(url: Seq<char>, requested: Seq<char>, reply: Reply)
    ensures
        reply_outcome(url, requested, reply) is Ok <==> reply is Answered && 200
            <= reply->Answered_status <= 299 && reply->parsed is Ok,
        reply_outcome(url, requested, reply) is Err ==> reply_outcome(url, requested, reply)->Err_0
            is Host,
{
}

/// A request carries the model, the document in full and the page list, where there is one: as
/// many numbers, in the order asked for.
pub proof fn a_request_carries_what_was_asked(
    model: Seq<char>,
    document: Seq<u8>,
    pages: Option<Seq<u32>>,
)
    ensures
        ({
            let body = body_model(model, document, pages);
            &&& body is Object
            &&& body->Object_0.len() == (if pages is Some {
                3nat
            } else {
                2nat
            })
            &&& body->Object_0[0] == ("model"@, JsonModel::Text(model))
            &&& body->Object_0[1].0 == "document"@ && body->Object_0[1].1 is Object
            &&& body->Object_0[1].1->Object_0.len() == 2
            &&& body->Object_0[1].1->Object_0[0] == ("type"@, JsonModel::Text("document_url"@))
            &&& body->Object_0[1].1->Object_0[1] == (
                "document_url"@,
                JsonModel::Text("data:application/pdf;base64,"@ + base64_of(document)),
            )
            &&& pages is Some ==> body->Object_0[2].0 == "pages"@ && body->Object_0[2].1 is List
                && body->Object_0[2].1->List_0.len() == pages->0.len() && forall|i: int|
                0 <= i < pages->0.len() ==> #[trigger] body->Object_0[2].1->List_0[i]
                    == JsonModel::Number(decimal(pages->0[i] as nat))
        }),
{
}

/// The first value that is set decides, whatever comes behind it.
pub proof fn the_first_set_value_decides(values: Seq<Option<String>>)
    ensures
        first_set(values) is None <==> forall|i: int|
            0 <= i < values.len() ==> (#[trigger] values[i]) is None,
        first_set(values) is Some ==> exists|i: int|
            0 <= i < values.len() && (#[trigger] values[i]) is Some && values[i]->0@ == first_set(
                values,
            )->0 && forall|k: int| 0 <= k < i ==> (#[trigger] values[k]) is None,
    decreases values.len(),
{
    if values.len() > 0 && values[0] is None {
        let rest = values.subrange(1, values.len() as int);
        the_first_set_value_decides(rest);
        if first_set(rest) is Some {
            let i = choose|i: int|
                0 <= i < rest.len() && (#[trigger] rest[i]) is Some && rest[i]->0@ == first_set(
                    rest,
                )->0 && forall|k: int| 0 <= k < i ==> (#[trigger] rest[k]) is None;
            assert(values[i + 1] == rest[i]);
            assert forall|k: int| 0 <= k < i + 1 implies (#[trigger] values[k]) is None by {
                if k > 0 {
                    assert(rest[k - 1] == values[k]);
                }
            }
        } else {
            assert forall|k: int| 0 <= k < values.len() implies (#[trigger] values[k]) is None by {
                if k > 0 {
                    assert(rest[k - 1] == values[k]);
                }
            }
        }
    } else if values.len() > 0 {
        assert(values[0] is Some);
    }
}

/// A host is set up as asked: the origin without its trailing slashes, no key until one is given
/// that is not blank, and whole documents until subsets are asked for. A setting changes nothing
/// else.
pub proof fn a_host_is_set_up_as_asked(
    base_url: &str,
    key: Option<&str>,
    split_subset: bool,
    host: LiteLlmHost,
    keyed: LiteLlmHost,
    set: LiteLlmHost,
)
    requires
        call_ensures(LiteLlmHost::new, (base_url,), host),
        call_ensures(LiteLlmHost::with_api_key, (host, key), keyed),
        call_ensures(LiteLlmHost::with_split_subset, (keyed, split_subset), set),
    ensures
        host@.base_url == without_trailing_slashes(base_url@),
        host@.api_key is None,
        !host@.split_subset,
        key is Some && !crate::text::blank(key->0@) ==> keyed@.api_key == Some(key->0@),
        key is None || crate::text::blank(key->0@) ==> keyed@.api_key is None,
        keyed@.base_url == host@.base_url && !keyed@.split_subset,
        set@.split_subset == split_subset,
        set@.base_url == host@.base_url && set@.api_key == keyed@.api_key,
{
}

/// What is uploaded: the document itself, unless subsets are sent and a page list is asked for;
/// then the subset of those pages, or why there is none.
pub proof fn what_is_uploaded(
    host: &LiteLlmHost,
    document: &[u8],
    pages: Option<&[u32]>,
    out: Result<Upload, Error>,
)
    requires
        call_ensures(LiteLlmHost::upload, (host, document, pages), out),
    ensures
        !host@.split_subset || pages is None ==> out is Ok && out->Ok_0 is Whole,
        host@.split_subset && pages is Some && out is Ok ==> out->Ok_0 is Subset && may_split(
            document@,
            pages->0@,
            Ok(out->Ok_0->Subset_0@),
        ),
        host@.split_subset && pages is Some && out is Err ==> may_split(
            document@,
            pages->0@,
            Err(out->Err_0@),
        ),
{
}

/// What is delivered of a result: the result as it came, unless a subset was sent; then with the
/// same pages in the same order and with the same text, a page numbered by its place in the subset
/// under the number that was asked for at that place.
pub proof fn what_is_delivered(
    host: &LiteLlmHost,
    result: OcrResult,
    pages: Option<&[u32]>,
    out: OcrResult,
)
    requires
        call_ensures(LiteLlmHost::deliver, (host, result, pages), out),
    ensures
        !host@.split_subset || pages is None ==> out@ == result@,
        host@.split_subset && pages is Some ==> {
            &&& out@.model == result@.model
            &&& out@.pages_processed == result@.pages_processed
            &&& out@.doc_size_bytes == result@.doc_size_bytes
            &&& out@.pages.len() == result@.pages.len()
            &&& forall|i: int|
                0 <= i < out@.pages.len() ==> (#[trigger] out@.pages[i]).markdown
                    == result@.pages[i].markdown && out@.pages[i].model == result@.pages[i].model
                    && out@.pages[i].index == (if result@.pages[i].index < pages->0@.len() {
                    pages->0@[result@.pages[i].index as int]
                } else {
                    result@.pages[i].index
                })
        },
{
}

/// A key given on the command line that is not blank is the one used; otherwise it is the first
/// that is set in the environment, unless that is blank.
pub proof fn a_key_on_the_command_line_comes_first(
    flag: Option<&str>,
    environment: &Vec<Option<String>>,
    key: Option<String>,
)
    requires
        call_ensures(resolve_api_key, (flag, environment), key),
    ensures
        flag is Some && !crate::text::blank(flag->0@) ==> key is Some && key->0@ == flag->0@,
        flag is None || crate::text::blank(flag->0@) ==> {
            &&& key is Some ==> exists|i: int|
                0 <= i < environment@.len() && (#[trigger] environment@[i]) is Some
                    && environment@[i]->0@ == key->0@ && !crate::text::blank(key->0@) && forall|
                    k: int,
                | 0 <= k < i ==> (#[trigger] environment@[k]) is None
            &&& key is None ==> forall|i: int|
                0 <= i < environment@.len() && (#[trigger] environment@[i]) is Some && (forall|
                    k: int,
                | 0 <= k < i ==> (#[trigger] environment@[k]) is None) ==> crate::text::blank(
                    environment@[i]->0@,
                )
        },
{
    the_first_set_value_decides(environment@);
}

/// What is kept of a call: the model and the pages it asked for, how long it took, and the status
/// of a reply that arrived.
pub proof fn what_is_kept_of_a_call(
    model: &str,
    pages: Option<&[u32]>,
    elapsed_ms: u128,
    reply: &Reply,
    kept: CallRecord,
)
    requires
        call_ensures(call_record, (model, pages, elapsed_ms, reply), kept),
    ensures
        kept@.model == model@,
        kept@.pages is Some <==> pages is Some,
        pages is Some ==> kept@.pages->0 == pages->0@,
        kept@.elapsed_ms == elapsed_ms,
        reply is NoResponse ==> kept@.status is None,
        reply is Unreadable ==> kept@.status == Some(reply->Unreadable_status),
        reply is Answered ==> kept@.status == Some(reply->Answered_status),
{
}

/// [`LiteLlmHost::read_reply`] returns the provider's own pages for a success that could be read,
/// and a host error for anything else.
pub proof fn read_reply_returns_the_providers_pages(
    host: &LiteLlmHost,
    model: &str,
    reply: Reply,
    out: Result<OcrResult, Error>,
)
    requires
        call_ensures(LiteLlmHost::read_reply, (host, model, reply), out),
    ensures
        out is Ok <==> reply is Answered && 200 <= reply->Answered_status <= 299
            && reply->parsed is Ok,
        out is Ok ==> out->Ok_0@.pages.len() == reply->parsed->Ok_0@.pages.len() && forall|i: int|
            0 <= i < out->Ok_0@.pages.len() ==> (#[trigger] out->Ok_0@.pages[i]).index
                == reply->parsed->Ok_0@.pages[i].0 && out->Ok_0@.pages[i].markdown
                == reply->parsed->Ok_0@.pages[i].1,
        out is Err ==> out->Err_0@ is Host,
{
    let url = host@.base_url + "/v1/ocr"@;
    no_other_reply_is_taken(url, model@, reply);
    if out is Ok {
        a_reply_is_taken_as_it_came(url, model@, reply);
    }
}

/// What is said of a reply that is not taken: the endpoint, the status of a response that arrived,
/// and what went wrong, with no more than the first three hundred characters of the body.
pub proof fn what_is_said_of_a_refused_reply(url: Seq<char>, requested: Seq<char>, reply: Reply)
    ensures
        reply is NoResponse ==> reply_outcome(url, requested, reply) == Err::<
            OcrResultModel,
            ErrorModel,
        >(ErrorModel::Host("POST "@ + url + " failed: "@ + reply->NoResponse_detail@)),
        reply is Unreadable ==> reply_outcome(url, requested, reply) == Err::<
            OcrResultModel,
            ErrorModel,
        >(
            ErrorModel::Host(
                "POST "@ + url + " returned HTTP "@ + decimal(reply->Unreadable_status as nat)
                    + ", unreadable body: "@ + reply->Unreadable_detail@,
            ),
        ),
        reply is Answered && !(200 <= reply->Answered_status <= 299) ==> reply_outcome(
            url,
            requested,
            reply,
        ) == Err::<OcrResultModel, ErrorModel>(
            ErrorModel::Host(
                "POST "@ + url + " returned HTTP "@ + decimal(reply->Answered_status as nat) + ": "@
                    + cut(reply->text@, 300),
            ),
        ),
        reply is Answered && 200 <= reply->Answered_status <= 299 && reply->parsed is Err
            ==> reply_outcome(url, requested, reply) == Err::<OcrResultModel, ErrorModel>(
            ErrorModel::Host(
                "POST "@ + url + " returned HTTP "@ + decimal(reply->Answered_status as nat)
                    + " with unparseable JSON ("@ + reply->parsed->Err_0@ + "): "@ + cut(
                    reply->text@,
                    300,
                ),
            ),
        ),
{
}

} // verus!
