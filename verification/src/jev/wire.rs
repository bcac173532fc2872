//! Everything that goes on the wire to `POST /v1/systemone`, and comes back.
//!
//! Free of HTTP: this module turns page evidence into request bodies and turns a response back
//! into a probability for a named page. Answers are matched by the question's key, never by
//! position.

use crate::json::{
    json_models, member, member_model, member_models, number_model, text_models, wire_text, Json,
    JsonModel, Member,
};
use crate::judge::{evidence_models, PageEvidence, PageEvidenceModel};
use crate::number::{Real32, Real64};
use crate::text::{chars_of, decimal, decimal_injective, push_decimal, same_text, text_of};
use vstd::prelude::*;
use vstd::slice::*;
use vstd::string::*;
use vstd::utf8::encode_utf8;

verus! {

/// The hosted API.
pub const DEFAULT_BASE_URL: &'static str = "https://api.typesafe.ai";

/// The model asked for when nothing else is configured.
pub const DEFAULT_MODEL: &'static str = "jev-latest";

/// The one endpoint posted to, appended to the base URL.
pub const ENDPOINT_PATH: &'static str = "/v1/systemone";

/// How many characters of one page's text are sent.
///
/// A page's text is evidence, not the document. Pages cut here say so in their state object,
/// so the model is never told a fragment is the whole page.
pub const MAX_TEXT_CHARS: usize = 2000;

/// How many pages ride in one request before the document is split across several.
pub const MAX_PAGES_PER_REQUEST: usize = 50;

/// Soft ceiling on one request's serialised size, in bytes. Soft because a single page is
/// never split: a chunk always carries at least one page.
pub const MAX_REQUEST_BYTES: usize = 256 * 1024;

/// The prefix every question name carries.
pub const QUESTION_KEY_PREFIX: &'static str = "page_";

/// What the question on a page calls true.
pub const CRITERION_TRUE: &'static str = "The text is absent, is mojibake or nonsense from a broken font encoding, is a bad pre-existing OCR layer, is only a watermark, header or footer, or otherwise does not correspond to a page of readable content. Running OCR would recover content that is currently lost.";

/// What the question on a page calls false.
pub const CRITERION_FALSE: &'static str = "The text is coherent, readable prose, tabular or form content that plausibly reflects the whole printed page. Running OCR would cost money and return what is already in hand.";

/// The question name for a page.
pub open spec fn key_of(page: u32) -> Seq<char> {
    QUESTION_KEY_PREFIX@ + decimal(page as nat)
}

/// The question name for a page. `page` is 0-indexed, like everywhere else.
#[must_use]
pub fn question_key(page: u32) -> (r: String)
    ensures
        r@ == key_of(page),
{
    let mut key: String = QUESTION_KEY_PREFIX.to_owned();
    push_decimal(&mut key, page as u64);
    key
}

/// Two pages never share a question name, whatever request they ride in.
pub proof fn question_keys_are_distinct(a: u32, b: u32)
    requires
        key_of(a) == key_of(b),
    ensures
        a == b,
{
    let p = QUESTION_KEY_PREFIX@;
    assert(key_of(a).subrange(p.len() as int, key_of(a).len() as int) =~= decimal(a as nat));
    assert(key_of(b).subrange(p.len() as int, key_of(b).len() as int) =~= decimal(b as nat));
    decimal_injective(a as nat, b as nat);
}

/// The text of a page that is sent: all of it, or its first [`MAX_TEXT_CHARS`] characters.
pub open spec fn clipped(text: Seq<char>) -> Seq<char> {
    if text.len() > MAX_TEXT_CHARS {
        text.take(MAX_TEXT_CHARS as int)
    } else {
        text
    }
}

/// How many characters a page's text has; none when there is no text.
pub open spec fn text_chars(text: Option<Seq<char>>) -> nat {
    match text {
        Some(t) => t.len(),
        None => 0,
    }
}

/// One page as the model sees it: its text, clipped, and what the inspector thought of it.
/// `text` is null when there is none, which is distinct from an empty text; the length is that
/// of the whole text.
pub open spec fn state_model(e: PageEvidenceModel) -> JsonModel {
    JsonModel::Object(
        seq![
            ("page"@, number_model(e.page as nat)),
            (
                "text"@,
                match e.text {
                    Some(t) => JsonModel::Text(clipped(t)),
                    None => JsonModel::Null,
                },
            ),
            ("text_chars"@, number_model(text_chars(e.text))),
            ("text_truncated"@, JsonModel::Bool(text_chars(e.text) > MAX_TEXT_CHARS)),
            ("inspector_flagged"@, JsonModel::Bool(e.flagged_by_inspector)),
            ("inspector_reasons"@, JsonModel::List(text_models(e.reasons))),
            ("has_tables"@, JsonModel::Bool(e.has_tables)),
            ("has_columns"@, JsonModel::Bool(e.has_columns)),
            ("has_encoding_issues"@, JsonModel::Bool(e.has_encoding_issues)),
        ],
    )
}

/// One page as the model sees it.
///
/// Both halves of the evidence go in: the page's text, and what the inspector thought of it.
#[must_use]
pub fn page_state(evidence: &PageEvidence) -> (r: Json)
    ensures
        r@ == state_model(evidence@),
{
    let (text, chars): (Json, usize) = match &evidence.text {
        None => (Json::Null, 0usize),
        Some(text) => {
            let chars: Vec<char> = chars_of(text.as_str());
            if chars.len() > MAX_TEXT_CHARS {
                let head: String = text_of(&chars, 0, MAX_TEXT_CHARS);
                assert(head@ =~= clipped(text@));
                (Json::Text(head), chars.len())
            } else {
                (Json::text(text.as_str()), chars.len())
            }
        },
    };
    let mut members: Vec<Member> = Vec::new();
    members.push(member("page", Json::number(evidence.page as u64)));
    members.push(member("text", text));
    members.push(member("text_chars", Json::number(chars as u64)));
    members.push(member("text_truncated", Json::Bool(chars > MAX_TEXT_CHARS)));
    members.push(member("inspector_flagged", Json::Bool(evidence.flagged_by_inspector)));
    members.push(member("inspector_reasons", Json::texts(&evidence.reasons)));
    members.push(member("has_tables", Json::Bool(evidence.has_tables)));
    members.push(member("has_columns", Json::Bool(evidence.has_columns)));
    members.push(member("has_encoding_issues", Json::Bool(evidence.has_encoding_issues)));
    assert(member_models(members@) =~= state_model(evidence@)->Object_0);
    Json::object(members)
}

/// The instructions of the question about a page: true means the page needs OCR.
pub open spec fn instructions(page: u32) -> Seq<char> {
    "Look only at the entry in the state array whose `page` field is "@ + decimal(page as nat)
        + ". That page needs to be re-read with OCR: the text it carries is missing, or it is present but does not faithfully represent what is printed on the page."@
}

/// The `noul` question asked about one page.
pub open spec fn question_model(page: u32) -> JsonModel {
    JsonModel::Object(
        seq![
            ("type"@, JsonModel::Text("noul"@)),
            ("instructions"@, JsonModel::Text(instructions(page))),
            (
                "criteria"@,
                JsonModel::Object(
                    seq![
                        ("true"@, JsonModel::Text(CRITERION_TRUE@)),
                        ("false"@, JsonModel::Text(CRITERION_FALSE@)),
                    ],
                ),
            ),
        ],
    )
}

/// The `noul` question asked about one page.
///
/// The statement is phrased so that true means the page needs OCR. The criteria pin the
/// model's probability to that definition instead of to whatever the phrase suggests.
#[must_use]
pub fn page_question(page: u32) -> (r: Json)
    ensures
        r@ == question_model(page),
{
    let mut text: String =
        "Look only at the entry in the state array whose `page` field is ".to_owned();
    push_decimal(&mut text, page as u64);
    text.append(
        ". That page needs to be re-read with OCR: the text it carries is missing, or it is present but does not faithfully represent what is printed on the page.",
    );
    let mut criteria: Vec<Member> = Vec::new();
    criteria.push(member("true", Json::text(CRITERION_TRUE)));
    criteria.push(member("false", Json::text(CRITERION_FALSE)));
    assert(member_models(criteria@) =~= seq![
        ("true"@, JsonModel::Text(CRITERION_TRUE@)),
        ("false"@, JsonModel::Text(CRITERION_FALSE@)),
    ]);
    let mut members: Vec<Member> = Vec::new();
    members.push(member("type", Json::text("noul")));
    members.push(member("instructions", Json::Text(text)));
    members.push(member("criteria", Json::object(criteria)));
    assert(member_models(members@) =~= question_model(page)->Object_0);
    Json::object(members)
}

/// The states of a chunk of pages, in order.
pub open spec fn states_model(chunk: Seq<PageEvidenceModel>) -> Seq<JsonModel> {
    chunk.map_values(|e: PageEvidenceModel| state_model(e))
}

/// The questions about a chunk of pages, each under its page's name.
pub open spec fn questions_model(chunk: Seq<PageEvidenceModel>) -> Seq<(Seq<char>, JsonModel)> {
    chunk.map_values(|e: PageEvidenceModel| (key_of(e.page), question_model(e.page)))
}

/// The request body for one chunk of pages.
pub open spec fn body_model(model: Seq<char>, chunk: Seq<PageEvidenceModel>) -> JsonModel {
    JsonModel::Object(
        seq![
            ("model"@, JsonModel::Text(model)),
            ("state"@, JsonModel::List(states_model(chunk))),
            ("questions"@, JsonModel::Object(questions_model(chunk))),
        ],
    )
}

/// The request body for one chunk of pages, exactly as it goes on the wire.
#[must_use]
pub fn request_body(model: &str, chunk: &[PageEvidence]) -> (r: Json)
    ensures
        r@ == body_model(model@, evidence_models(chunk@)),
{
    let mut states: Vec<Json> = Vec::new();
    let mut questions: Vec<Member> = Vec::new();
    let mut i: usize = 0;
    let ghost all = evidence_models(chunk@);
    while i < chunk.len()
        invariant
            i <= chunk@.len(),
            all == evidence_models(chunk@),
            json_models(states@) == states_model(all).take(i as int),
            member_models(questions@) == questions_model(all).take(i as int),
        decreases chunk@.len() - i,
    {
        let ghost before = states@;
        let ghost earlier = questions@;
        let page: &PageEvidence = &chunk[i];
        states.push(page_state(page));
        let key: String = question_key(page.page);
        questions.push(Member { name: key, value: page_question(page.page) });
        proof {
            assert(all[i as int] == page@);
            assert(json_models(states@) =~= json_models(before).push(states@.last()@));
            assert(member_models(questions@) =~= member_models(earlier).push(
                member_model(questions@.last()),
            ));
            assert(states_model(all).take(i + 1) =~= states_model(all).take(i as int).push(
                state_model(page@),
            ));
            assert(questions_model(all).take(i + 1) =~= questions_model(all).take(i as int).push(
                (key_of(page.page), question_model(page.page)),
            ));
        }
        i += 1;
    }
    proof {
        assert(states_model(all).take(all.len() as int) =~= states_model(all));
        assert(questions_model(all).take(all.len() as int) =~= questions_model(all));
    }
    let mut members: Vec<Member> = Vec::new();
    members.push(member("model", Json::text(model)));
    members.push(member("state", Json::list(states)));
    members.push(member("questions", Json::object(questions)));
    assert(member_models(members@) =~= body_model(model@, all)->Object_0);
    Json::object(members)
}

/// How many bytes a JSON value takes on the wire.
pub open spec fn wire_bytes(json: JsonModel) -> usize {
    encode_utf8(wire_text(json)).len() as usize
}

/// What one page contributes to a request body, in bytes: its state and its question.
pub open spec fn page_bytes(e: PageEvidenceModel) -> nat {
    wire_bytes(state_model(e)) as nat + wire_bytes(question_model(e.page)) as nat
}

/// What one page contributes to a request body, in bytes.
pub fn wire_size(evidence: &PageEvidence) -> (r: u128)
    ensures
        r == page_bytes(evidence@),
{
    let state: String = page_state(evidence).to_wire();
    let question: String = page_question(evidence.page).to_wire();
    state.as_str().len() as u128 + question.as_str().len() as u128
}

/// What a run of pages contributes to a request body, in bytes.
pub open spec fn run_bytes(pages: Seq<PageEvidenceModel>) -> nat
    decreases pages.len(),
{
    if pages.len() == 0 {
        0
    } else {
        run_bytes(pages.drop_last()) + page_bytes(pages.last())
    }
}

/// The chunks one after another.
pub open spec fn laid_out(chunks: Seq<&[PageEvidence]>) -> Seq<PageEvidence>
    decreases chunks.len(),
{
    if chunks.len() == 0 {
        Seq::empty()
    } else {
        laid_out(chunks.drop_last()) + chunks.last()@
    }
}

/// A chunk that may be sent: not empty, at most [`MAX_PAGES_PER_REQUEST`] pages, and within
/// [`MAX_REQUEST_BYTES`] unless it is a single page.
pub open spec fn sendable(chunk: Seq<PageEvidence>) -> bool {
    &&& 1 <= chunk.len() <= MAX_PAGES_PER_REQUEST
    &&& chunk.len() > 1 ==> run_bytes(evidence_models(chunk)) <= MAX_REQUEST_BYTES
}

/// A chunk that has no room for `next`: one more page would break one of the two bounds.
pub open spec fn full_before(chunk: Seq<PageEvidence>, next: PageEvidence) -> bool {
    chunk.len() == MAX_PAGES_PER_REQUEST || run_bytes(evidence_models(chunk)) + page_bytes(next@)
        > MAX_REQUEST_BYTES
}

/// `chunks` are the requests a document is sent as: its pages in order, each chunk one that may
/// be sent, and none ended while the next page still had room in it.
pub open spec fn chunked(evidence: Seq<PageEvidence>, chunks: Seq<&[PageEvidence]>) -> bool {
    &&& laid_out(chunks) == evidence
    &&& forall|k: int| 0 <= k < chunks.len() ==> sendable(#[trigger] chunks[k]@)
    &&& forall|k: int|
        0 <= k < chunks.len() - 1 ==> full_before(#[trigger] chunks[k]@, chunks[k + 1]@[0])
}

/// Split a document into the requests it will be sent as, in page order.
///
/// Greedy, and bounded on both axes that actually break a request: the page count and the
/// serialised size, which is measured by serialising rather than estimated. Chunking is
/// invisible to the rest of the crate because question keys come from the page number and
/// never from a position within a chunk.
#[must_use]
pub fn chunks(evidence: &[PageEvidence]) -> (r: Vec<&[PageEvidence]>)
    ensures
        chunked(evidence@, r@),
{
    let mut out: Vec<&[PageEvidence]> = Vec::new();
    let mut start: usize = 0;
    let mut bytes: u128 = 0;
    let mut index: usize = 0;
    assert(evidence@.take(0) =~= laid_out(out@));
    while index < evidence.len()
        invariant
            start <= index <= evidence@.len(),
            index > 0 ==> start < index,
            index - start <= MAX_PAGES_PER_REQUEST,
            bytes == run_bytes(evidence_models(evidence@.subrange(start as int, index as int))),
            bytes <= (index - start) * 0x4_0000_0000_0000_0000,
            index - start > 1 ==> bytes <= MAX_REQUEST_BYTES,
            laid_out(out@) == evidence@.take(start as int),
            forall|k: int| 0 <= k < out@.len() ==> sendable(#[trigger] out@[k]@),
            forall|k: int|
                0 <= k < out@.len() - 1 ==> full_before(#[trigger] out@[k]@, out@[k + 1]@[0]),
            out@.len() > 0 && start < evidence@.len() ==> full_before(
                out@.last()@,
                evidence@[start as int],
            ),
        decreases evidence@.len() - index,
    {
        let size: u128 = wire_size(&evidence[index]);
        let too_many: bool = index - start >= MAX_PAGES_PER_REQUEST;
        // A lone oversized page still gets its own request.
        let too_big: bool = index > start && bytes + size > MAX_REQUEST_BYTES as u128;
        if too_many || too_big {
            let ghost before = out@;
            let chunk: &[PageEvidence] = slice_subrange(evidence, start, index);
            assert(sendable(chunk@));
            assert(full_before(chunk@, evidence@[index as int]));
            out.push(chunk);
            proof {
                assert(out@.drop_last() =~= before);
                assert(evidence@.take(index as int) =~= evidence@.take(start as int) + chunk@);
                assert forall|k: int| 0 <= k < out@.len() - 1 implies full_before(
                    #[trigger] out@[k]@,
                    out@[k + 1]@[0],
                ) by {
                    if k < before.len() - 1 {
                        assert(before[k] == out@[k]);
                        assert(before[k + 1] == out@[k + 1]);
                    } else {
                        assert(before.last() == out@[k]);
                        assert(chunk@[0] == evidence@[start as int]);
                    }
                }
            }
            start = index;
            bytes = 0;
        }
        proof {
            let run = evidence_models(evidence@.subrange(start as int, index as int));
            let longer = evidence_models(evidence@.subrange(start as int, index + 1));
            assert(longer.drop_last() =~= run);
            assert(longer.last() == evidence@[index as int]@);
            if start == index {
                assert(run_bytes(run) == 0);
            }
            assert(run_bytes(longer) == run_bytes(run) + page_bytes(evidence@[index as int]@));
        }
        bytes = bytes + size;
        index += 1;
    }
    if start < evidence.len() {
        let ghost before = out@;
        let chunk: &[PageEvidence] = slice_subrange(evidence, start, evidence.len());
        out.push(chunk);
        proof {
            assert(out@.drop_last() =~= before);
            assert(evidence@ =~= evidence@.take(start as int) + chunk@);
            assert forall|k: int| 0 <= k < out@.len() - 1 implies full_before(
                #[trigger] out@[k]@,
                out@[k + 1]@[0],
            ) by {
                if k < before.len() - 1 {
                    assert(before[k] == out@[k]);
                    assert(before[k + 1] == out@[k + 1]);
                } else {
                    assert(before.last() == out@[k]);
                    assert(chunk@[0] == evidence@[start as int]);
                }
            }
        }
    } else {
        assert(evidence@.take(start as int) =~= evidence@);
    }
    out
}

/// What a run of pages contributes grows with the run.
proof fn run_bytes_grow(pages: Seq<PageEvidenceModel>, n: int)
    requires
        0 <= n <= pages.len(),
    ensures
        run_bytes(pages.take(n)) <= run_bytes(pages),
    decreases pages.len() - n,
{
    if n < pages.len() {
        run_bytes_grow(pages, n + 1);
        assert(pages.take(n + 1).drop_last() =~= pages.take(n));
    } else {
        assert(pages.take(n) =~= pages);
    }
}

/// Each chunk stands in the document where the chunks before it end.
proof fn chunk_in_place(chunks: Seq<&[PageEvidence]>, k: int)
    requires
        0 <= k < chunks.len(),
    ensures
        ({
            let start = laid_out(chunks.take(k)).len();
            let end = start + chunks[k]@.len();
            &&& end == laid_out(chunks.take(k + 1)).len()
            &&& end <= laid_out(chunks).len()
            &&& laid_out(chunks).subrange(start as int, end as int) == chunks[k]@
        }),
    decreases chunks.len(),
{
    assert(chunks.take(k + 1).drop_last() =~= chunks.take(k));
    assert(chunks.take(k + 1).last() == chunks[k]);
    let start = laid_out(chunks.take(k)).len();
    let end = start + chunks[k]@.len();
    if k == chunks.len() - 1 {
        assert(chunks.drop_last() =~= chunks.take(k));
        assert(laid_out(chunks).subrange(start as int, end as int) =~= chunks[k]@);
    } else {
        let fewer = chunks.drop_last();
        chunk_in_place(fewer, k);
        assert(fewer.take(k) =~= chunks.take(k));
        assert(fewer.take(k + 1) =~= chunks.take(k + 1));
        assert(laid_out(chunks).subrange(start as int, end as int) =~= laid_out(fewer).subrange(
            start as int,
            end as int,
        ));
    }
}

/// A chunk that starts where one of another split starts is not longer than it.
proof fn no_longer_chunk(
    evidence: Seq<PageEvidence>,
    a: Seq<&[PageEvidence]>,
    b: Seq<&[PageEvidence]>,
    k: int,
)
    requires
        chunked(evidence, a),
        chunked(evidence, b),
        0 <= k < a.len(),
        0 <= k < b.len(),
        laid_out(a.take(k)).len() == laid_out(b.take(k)).len(),
    ensures
        a[k]@.len() >= b[k]@.len(),
{
    chunk_in_place(a, k);
    chunk_in_place(b, k);
    let start = laid_out(a.take(k)).len() as int;
    let short = a[k]@;
    let long = b[k]@;
    if short.len() < long.len() {
        assert(sendable(long));
        if k == a.len() - 1 {
            assert(a.take(k + 1) =~= a);
        } else {
            chunk_in_place(a, k + 1);
            assert(full_before(a[k]@, a[k + 1]@[0]));
            assert(sendable(a[k + 1]@));
            let next = a[k + 1]@[0];
            assert(next == evidence[start + short.len()]);
            assert(long[short.len() as int] == next);
            assert(long.take(short.len() as int) =~= short);
            let pages = evidence_models(long);
            let n = short.len() as int;
            assert(pages.take(n + 1).drop_last() =~= evidence_models(short));
            assert(pages.take(n + 1).last() == next@);
            run_bytes_grow(pages, n + 1);
        }
    }
}

/// There is one way to split a document: whoever keeps to the bounds and ends no chunk early
/// sends the same pages in the same requests.
pub proof fn a_document_is_split_in_one_way(
    evidence: Seq<PageEvidence>,
    a: Seq<&[PageEvidence]>,
    b: Seq<&[PageEvidence]>,
)
    requires
        chunked(evidence, a),
        chunked(evidence, b),
    ensures
        a.len() == b.len(),
        forall|k: int| 0 <= k < a.len() ==> (#[trigger] a[k])@ == b[k]@,
{
    let shorter = if a.len() <= b.len() {
        a.len() as int
    } else {
        b.len() as int
    };
    same_chunks(evidence, a, b, shorter);
    if a.len() < b.len() {
        assert(a.take(shorter) =~= a);
        chunk_in_place(b, shorter);
        assert(sendable(b[shorter]@));
    } else if b.len() < a.len() {
        assert(b.take(shorter) =~= b);
        chunk_in_place(a, shorter);
        assert(sendable(a[shorter]@));
    }
}

proof fn same_chunks(
    evidence: Seq<PageEvidence>,
    a: Seq<&[PageEvidence]>,
    b: Seq<&[PageEvidence]>,
    n: int,
)
    requires
        chunked(evidence, a),
        chunked(evidence, b),
        0 <= n <= a.len(),
        n <= b.len(),
    ensures
        laid_out(a.take(n)).len() == laid_out(b.take(n)).len(),
        forall|k: int| 0 <= k < n ==> (#[trigger] a[k])@ == b[k]@,
    decreases n,
{
    if n > 0 {
        same_chunks(evidence, a, b, n - 1);
        no_longer_chunk(evidence, a, b, n - 1);
        no_longer_chunk(evidence, b, a, n - 1);
        chunk_in_place(a, n - 1);
        chunk_in_place(b, n - 1);
    }
}

/// A response that arrived and parsed but does not answer the question asked.
#[derive(Debug, PartialEq)]
pub enum ProtocolError {
    /// No answer came back under this page's question key.
    MissingAnswer {
        /// The question key that went unanswered.
        key: String,
    },
    /// The answer came back, but as some other question type.
    WrongType {
        /// The question key.
        key: String,
        /// The `type` the server reported.
        found: String,
    },
    /// A `noul` answer with no `noul` field in it.
    MissingValue {
        /// The question key.
        key: String,
    },
    /// A `noul` value that is NaN or infinite. Clamping it the way an out-of-range number is
    /// clamped would turn nonsense into a confident verdict.
    NotFinite {
        /// The question key.
        key: String,
        /// The value as it arrived.
        value: Real64,
    },
}

/// A [`ProtocolError`] with its texts as character sequences.
pub ghost enum ProtocolErrorModel {
    MissingAnswer { key: Seq<char> },
    WrongType { key: Seq<char>, found: Seq<char> },
    MissingValue { key: Seq<char> },
    NotFinite { key: Seq<char>, value: Real64 },
}

impl View for ProtocolError {
    type V = ProtocolErrorModel;

    open spec fn view(&self) -> ProtocolErrorModel {
        match self {
            ProtocolError::MissingAnswer { key } => ProtocolErrorModel::MissingAnswer {
                key: key@,
            },
            ProtocolError::WrongType { key, found } => ProtocolErrorModel::WrongType {
                key: key@,
                found: found@,
            },
            ProtocolError::MissingValue { key } => ProtocolErrorModel::MissingValue { key: key@ },
            ProtocolError::NotFinite { key, value } => ProtocolErrorModel::NotFinite {
                key: key@,
                value: *value,
            },
        }
    }
}

impl ProtocolErrorModel {
    /// The sentence the error prints as.
    pub open spec fn text(self) -> Seq<char> {
        match self {
            ProtocolErrorModel::MissingAnswer { key } => "the response has no answer for "@ + key,
            ProtocolErrorModel::WrongType { key, found } => "the answer for "@ + key
                + " has type "@ + crate::text::quoted(found) + ", not \"noul\""@,
            ProtocolErrorModel::MissingValue { key } => "the answer for "@ + key
                + " carries no noul value"@,
            ProtocolErrorModel::NotFinite { key, value } => "the answer for "@ + key + " is "@
                + value.special_text() + ", which is not a probability"@,
        }
    }

    /// Only a number that is not finite is reported as such.
    pub open spec fn proper(self) -> bool {
        self matches ProtocolErrorModel::NotFinite { value, .. } ==> !value.finite()
    }
}

impl ProtocolError {
    /// The sentence the error prints as.
    pub fn message(&self) -> (r: String)
        requires
            self@.proper(),
        ensures
            r@ == self@.text(),
    {
        match self {
            ProtocolError::MissingAnswer { key } => "the response has no answer for ".to_owned().concat(
                key.as_str(),
            ),
            ProtocolError::WrongType { key, found } => {
                let quoted: String = crate::text::quote(found.as_str());
                "the answer for ".to_owned().concat(key.as_str()).concat(" has type ").concat(
                    quoted.as_str(),
                ).concat(", not \"noul\"")
            },
            ProtocolError::MissingValue { key } => "the answer for ".to_owned().concat(
                key.as_str(),
            ).concat(" carries no noul value"),
            ProtocolError::NotFinite { key, value } => "the answer for ".to_owned().concat(
                key.as_str(),
            ).concat(" is ").concat(value.special_name()).concat(", which is not a probability"),
        }
    }
}

/// The number of a `noul` answer, at the precisions a verdict needs.
#[derive(Clone, Copy, Debug, PartialEq, Eq, Structural)]
pub struct Noul {
    /// The number as it arrived.
    pub value: Real64,
    /// The number in single precision.
    pub probability: Real32,
    /// One minus the single-precision number, after that was pulled into 0..=1.
    pub complement: Real32,
}

/// One answer in a System One response, reduced to the fields a `noul` question produces.
#[derive(Debug, PartialEq)]
pub struct Answer {
    /// The question type the server says it answered.
    pub kind: Option<String>,
    /// The probability, for a `noul` answer.
    pub noul: Option<Noul>,
}

/// An [`Answer`] with its text as a character sequence.
pub ghost struct AnswerModel {
    pub kind: Option<Seq<char>>,
    pub noul: Option<Noul>,
}

impl View for Answer {
    type V = AnswerModel;

    open spec fn view(&self) -> AnswerModel {
        AnswerModel { kind: crate::text::opt_text(self.kind), noul: self.noul }
    }
}

/// Token usage, as reported. Recorded for cost reporting, never acted on.
#[derive(Clone, Copy, Debug, PartialEq, Eq, Structural)]
pub struct Usage {
    /// Input tokens billed.
    pub input_tokens: u64,
    /// Output tokens billed.
    pub output_tokens: u64,
}

/// One answer under the name of the question it answers.
#[derive(Debug, PartialEq)]
pub struct NamedAnswer {
    /// The question name.
    pub key: String,
    /// The answer.
    pub answer: Answer,
}

/// A response of `POST /v1/systemone`, reduced to the fields used here.
#[derive(Debug, PartialEq)]
pub struct SystemOneResponse {
    /// The model that actually answered.
    pub model: Option<String>,
    /// Answers by question name. The name is the only thing that identifies which page an
    /// answer is about.
    pub answers: Vec<NamedAnswer>,
    /// Token usage, when reported.
    pub usage: Option<Usage>,
}

/// The name and answer of a named answer.
pub open spec fn named_model(named: NamedAnswer) -> (Seq<char>, AnswerModel) {
    (named.key@, named.answer@)
}

/// The names and answers of a response.
pub open spec fn answers_model(answers: Seq<NamedAnswer>) -> Seq<(Seq<char>, AnswerModel)> {
    answers.map_values(|a: NamedAnswer| named_model(a))
}

/// The answer under a name, if there is one.
pub open spec fn answer_under(answers: Seq<(Seq<char>, AnswerModel)>, key: Seq<char>) -> Option<
    AnswerModel,
>
    decreases answers.len(),
{
    if answers.len() == 0 {
        None
    } else if answers[0].0 == key {
        Some(answers[0].1)
    } else {
        answer_under(answers.subrange(1, answers.len() as int), key)
    }
}

proof fn answer_under_at(answers: Seq<(Seq<char>, AnswerModel)>, key: Seq<char>, at: int)
    requires
        0 <= at <= answers.len(),
        forall|i: int| 0 <= i < at ==> (#[trigger] answers[i]).0 != key,
        at < answers.len() ==> answers[at].0 == key,
    ensures
        answer_under(answers, key) == (if at < answers.len() {
            Some(answers[at].1)
        } else {
            None
        }),
    decreases answers.len(),
{
    if at > 0 {
        let rest = answers.subrange(1, answers.len() as int);
        assert(answers[0].0 != key);
        assert forall|i: int| 0 <= i < at - 1 implies (#[trigger] rest[i]).0 != key by {
            assert(rest[i] == answers[i + 1]);
        }
        if at < answers.len() {
            assert(rest[at - 1] == answers[at]);
        }
        answer_under_at(rest, key, at - 1);
    }
}

/// The answer under a name is the first that stands under it; there is none only when no answer
/// does.
pub proof fn answer_under_is_the_first(answers: Seq<(Seq<char>, AnswerModel)>, key: Seq<char>)
    ensures
        answer_under(answers, key) is None ==> forall|i: int|
            0 <= i < answers.len() ==> (#[trigger] answers[i]).0 != key,
        answer_under(answers, key) is Some ==> exists|k: int|
            0 <= k < answers.len() && (#[trigger] answers[k]).0 == key && answer_under(
                answers,
                key,
            ) == Some(answers[k].1) && (forall|i: int|
                0 <= i < k ==> (#[trigger] answers[i]).0 != key),
    decreases answers.len(),
{
    if answers.len() > 0 {
        if answers[0].0 != key {
            let rest = answers.subrange(1, answers.len() as int);
            answer_under_is_the_first(rest, key);
            if answer_under(rest, key) is Some {
                let k = choose|k: int|
                    0 <= k < rest.len() && (#[trigger] rest[k]).0 == key && answer_under(rest, key)
                        == Some(rest[k].1) && (forall|i: int|
                        0 <= i < k ==> (#[trigger] rest[i]).0 != key);
                assert(answers[k + 1] == rest[k]);
                assert forall|i: int| 0 <= i < k + 1 implies (#[trigger] answers[i]).0 != key by {
                    if i > 0 {
                        assert(rest[i - 1] == answers[i]);
                    }
                }
            } else {
                assert forall|i: int| 0 <= i < answers.len() implies (#[trigger] answers[i]).0
                    != key by {
                    if i > 0 {
                        assert(rest[i - 1] == answers[i]);
                    }
                }
            }
        }
    }
}

/// A probability a page was given, with its complement.
#[derive(Clone, Copy, Debug, PartialEq, Eq, Structural)]
pub struct Reading {
    /// The probability that the page needs OCR, in 0..=1.
    pub probability: Real32,
    /// One minus the probability.
    pub complement: Real32,
}

/// What a response says about a page: the probability, pulled into 0..=1, or why there is
/// none. An answer that is absent, of another question type, without a value, or not a number
/// is never a quietly-defaulted "no".
pub open spec fn reading_of(answers: Seq<(Seq<char>, AnswerModel)>, page: u32) -> Result<
    Reading,
    ProtocolErrorModel,
> {
    let key = key_of(page);
    match answer_under(answers, key) {
        None => Err(ProtocolErrorModel::MissingAnswer { key }),
        Some(answer) => if answer.kind is Some && answer.kind->0 != "noul"@ {
            Err(ProtocolErrorModel::WrongType { key, found: answer.kind->0 })
        } else {
            match answer.noul {
                None => Err(ProtocolErrorModel::MissingValue { key }),
                Some(noul) => if !noul.value.finite() {
                    Err(ProtocolErrorModel::NotFinite { key, value: noul.value })
                } else {
                    Ok(
                        Reading {
                            probability: noul.probability.clamped(),
                            complement: noul.complement,
                        },
                    )
                },
            }
        },
    }
}

/// The model of a reading or an error.
pub open spec fn reading_outcome(r: Result<Reading, ProtocolError>) -> Result<
    Reading,
    ProtocolErrorModel,
> {
    match r {
        Ok(reading) => Ok(reading),
        Err(error) => Err(error@),
    }
}

impl SystemOneResponse {
    /// The probability this response reports for `page`, pulled into 0..=1.
    ///
    /// Clamping rather than refusing an out-of-range number is deliberate: a
    /// `1.0000000000000002` from a round trip is not a protocol violation. A value that is not
    /// a number at all is, and is refused.
    pub fn noul_for(&self, page: u32) -> (r: Result<Reading, ProtocolError>)
        ensures
            reading_outcome(r) == reading_of(answers_model(self.answers@), page),
            r is Err ==> r->Err_0@.proper(),
    {
        let key: String = question_key(page);
        let ghost models = answers_model(self.answers@);
        let mut i: usize = 0;
        while i < self.answers.len() && !same_text(self.answers[i].key.as_str(), key.as_str())
            invariant
                i <= self.answers@.len(),
                models == answers_model(self.answers@),
                key@ == key_of(page),
                forall|k: int| 0 <= k < i ==> (#[trigger] models[k]).0 != key@,
            decreases self.answers@.len() - i,
        {
            assert(models[i as int] == named_model(self.answers@[i as int]));
            i += 1;
        }
        proof {
            if i < self.answers@.len() {
                assert(models[i as int] == named_model(self.answers@[i as int]));
            }
            answer_under_at(models, key@, i as int);
        }
        if i >= self.answers.len() {
            return Err(ProtocolError::MissingAnswer { key });
        }
        let answer: &Answer = &self.answers[i].answer;
        if let Some(kind) = &answer.kind {
            if !same_text(kind.as_str(), "noul") {
                return Err(ProtocolError::WrongType { key, found: kind.clone() });
            }
        }
        match answer.noul {
            None => Err(ProtocolError::MissingValue { key }),
            Some(noul) => {
                if !noul.value.is_finite() {
                    return Err(ProtocolError::NotFinite { key, value: noul.value });
                }
                Ok(
                    Reading {
                        probability: noul.probability.clamp_unit(),
                        complement: noul.complement,
                    },
                )
            },
        }
    }
}

/// A reading depends only on the answer under the page's own name: an answer under any other
/// name, put in front, changes nothing.
pub proof fn readings_go_by_name(
    answers: Seq<(Seq<char>, AnswerModel)>,
    other: (Seq<char>, AnswerModel),
    page: u32,
)
    requires
        other.0 != key_of(page),
    ensures
        reading_of(seq![other] + answers, page) == reading_of(answers, page),
{
    let longer = seq![other] + answers;
    assert(longer.subrange(1, longer.len() as int) =~= answers);
    assert(longer[0] == other);
}

/// An object has this member.
pub open spec fn has_member(json: JsonModel, name: Seq<char>, value: JsonModel) -> bool {
    json is Object && exists|i: int|
        0 <= i < json->Object_0.len() && #[trigger] json->Object_0[i] == (name, value)
}

/// A page is described as it is: by its number, its text as far as 2000 characters, how long the
/// whole text is and whether it was cut, and everything the inspector said of it. A page without
/// text is described with none, which is not the same as an empty one.
pub proof fn a_page_is_described_as_it_is(e: PageEvidenceModel)
    ensures
        ({
            let state = state_model(e);
            &&& state is Object && state->Object_0.len() == 9
            &&& has_member(state, "page"@, JsonModel::Number(decimal(e.page as nat)))
            &&& e.text is None ==> has_member(state, "text"@, JsonModel::Null) && has_member(
                state,
                "text_chars"@,
                JsonModel::Number(decimal(0)),
            ) && has_member(state, "text_truncated"@, JsonModel::Bool(false))
            &&& e.text is Some ==> {
                &&& e.text->0.len() <= 2000 ==> has_member(
                    state,
                    "text"@,
                    JsonModel::Text(e.text->0),
                )
                &&& e.text->0.len() > 2000 ==> has_member(
                    state,
                    "text"@,
                    JsonModel::Text(e.text->0.subrange(0, 2000)),
                )
                &&& has_member(
                    state,
                    "text_chars"@,
                    JsonModel::Number(decimal(e.text->0.len())),
                )
                &&& has_member(
                    state,
                    "text_truncated"@,
                    JsonModel::Bool(e.text->0.len() > 2000),
                )
            }
            &&& has_member(state, "inspector_flagged"@, JsonModel::Bool(e.flagged_by_inspector))
            &&& has_member(state, "has_tables"@, JsonModel::Bool(e.has_tables))
            &&& has_member(state, "has_columns"@, JsonModel::Bool(e.has_columns))
            &&& has_member(state, "has_encoding_issues"@, JsonModel::Bool(e.has_encoding_issues))
            &&& exists|reasons: Seq<JsonModel>| #[trigger]
                has_member(state, "inspector_reasons"@, JsonModel::List(reasons)) && reasons.len()
                    == e.reasons.len() && forall|i: int|
                    0 <= i < reasons.len() ==> #[trigger] reasons[i] == JsonModel::Text(
                        e.reasons[i],
                    )
        }),
{
    let state = state_model(e);
    let members = state->Object_0;
    assert(members[0].0 == "page"@);
    assert(members[1].0 == "text"@);
    assert(members[2].0 == "text_chars"@);
    assert(members[3].0 == "text_truncated"@);
    assert(members[4].0 == "inspector_flagged"@);
    assert(members[5] == ("inspector_reasons"@, JsonModel::List(text_models(e.reasons))));
    assert(members[6].0 == "has_tables"@);
    assert(members[7].0 == "has_columns"@);
    assert(members[8].0 == "has_encoding_issues"@);
    assert(has_member(
        state,
        "inspector_reasons"@,
        JsonModel::List(text_models(e.reasons)),
    ));
    if e.text is Some && e.text->0.len() > 2000 {
        assert(e.text->0.take(2000) =~= e.text->0.subrange(0, 2000));
    }
}

/// A request names the model asked, describes every page of its chunk in order, and asks one
/// question about each under that page's own name: whether it needs OCR, with what counts as yes
/// and what as no.
pub proof fn a_request_asks_about_every_page(model: Seq<char>, chunk: Seq<PageEvidenceModel>)
    ensures
        ({
            let body = body_model(model, chunk);
            &&& body is Object && body->Object_0.len() == 3
            &&& has_member(body, "model"@, JsonModel::Text(model))
            &&& exists|states: Seq<JsonModel>| #[trigger]
                has_member(body, "state"@, JsonModel::List(states)) && states.len() == chunk.len()
                    && forall|i: int|
                    0 <= i < states.len() ==> #[trigger] states[i] == state_model(chunk[i])
            &&& exists|questions: Seq<(Seq<char>, JsonModel)>| #[trigger]
                has_member(body, "questions"@, JsonModel::Object(questions)) && questions.len()
                    == chunk.len() && forall|i: int|
                    0 <= i < questions.len() ==> (#[trigger] questions[i]).0 == "page_"@ + decimal(
                        chunk[i].page as nat,
                    ) && questions[i].1 == question_model(chunk[i].page)
        }),
        forall|page: u32|
            #![trigger question_model(page)]
            ({
                let question = question_model(page);
                &&& has_member(question, "type"@, JsonModel::Text("noul"@))
                &&& exists|text: Seq<char>| #[trigger]
                    has_member(question, "instructions"@, JsonModel::Text(text)) && exists|at: int|
                        0 <= at && at + decimal(page as nat).len() <= text.len()
                            && #[trigger] text.subrange(at, at + decimal(page as nat).len())
                            == decimal(page as nat)
                &&& exists|criteria: JsonModel| #[trigger]
                    has_member(question, "criteria"@, criteria) && has_member(
                        criteria,
                        "true"@,
                        JsonModel::Text(CRITERION_TRUE@),
                    ) && has_member(criteria, "false"@, JsonModel::Text(CRITERION_FALSE@))
            }),
{
    let body = body_model(model, chunk);
    let members = body->Object_0;
    assert(members[0].0 == "model"@);
    assert(members[1] == ("state"@, JsonModel::List(states_model(chunk))));
    assert(members[2] == ("questions"@, JsonModel::Object(questions_model(chunk))));
    assert(has_member(body, "state"@, JsonModel::List(states_model(chunk))));
    assert(has_member(body, "questions"@, JsonModel::Object(questions_model(chunk))));
    assert forall|page: u32|
        #![trigger question_model(page)]
        ({
            let question = question_model(page);
            &&& has_member(question, "type"@, JsonModel::Text("noul"@))
            &&& exists|text: Seq<char>| #[trigger]
                has_member(question, "instructions"@, JsonModel::Text(text)) && exists|at: int|
                    0 <= at && at + decimal(page as nat).len() <= text.len()
                        && #[trigger] text.subrange(at, at + decimal(page as nat).len()) == decimal(
                        page as nat,
                    )
            &&& exists|criteria: JsonModel| #[trigger]
                has_member(question, "criteria"@, criteria) && has_member(
                    criteria,
                    "true"@,
                    JsonModel::Text(CRITERION_TRUE@),
                ) && has_member(criteria, "false"@, JsonModel::Text(CRITERION_FALSE@))
        }) by {
        let question = question_model(page);
        let parts = question->Object_0;
        assert(parts[0].0 == "type"@);
        assert(parts[1] == ("instructions"@, JsonModel::Text(instructions(page))));
        assert(parts[2].0 == "criteria"@);
        let criteria = parts[2].1;
        assert(criteria->Object_0[0].0 == "true"@);
        assert(criteria->Object_0[1].0 == "false"@);
        let text = instructions(page);
        let at = "Look only at the entry in the state array whose `page` field is "@.len() as int;
        assert(text.subrange(at, at + decimal(page as nat).len()) =~= decimal(page as nat));
        assert(has_member(question, "instructions"@, JsonModel::Text(text)));
        assert(has_member(question, "criteria"@, criteria));
    }
}

/// A document goes out in order and in full: the chunks are consecutive runs of its pages, the
/// first starts with the first page and the last ends with the last. None is empty or has more
/// than fifty pages; one of several pages stays within 256 KiB, a page counting as what its state
/// and its question take on the wire; and a chunk ends only where the next page would break one
/// of the two bounds.
///
/// The starts say at which page each chunk begins, and where the last one ends.
pub proof fn a_document_goes_out_in_order_and_in_full(
    evidence: Seq<PageEvidence>,
    chunks: Seq<&[PageEvidence]>,
) -> (starts: Seq<int>)
    requires
        chunked(evidence, chunks),
    ensures
        starts.len() == chunks.len() + 1,
        starts[0] == 0,
        starts.last() == evidence.len(),
        forall|k: int|
            0 <= k < chunks.len() ==> 0 <= #[trigger] starts[k] && starts[k + 1] == starts[k]
                + chunks[k]@.len() && starts[k + 1] <= evidence.len() && evidence.subrange(
                starts[k],
                starts[k + 1],
            ) == chunks[k]@,
        forall|k: int| 0 <= k < chunks.len() ==> 1 <= (#[trigger] chunks[k])@.len() <= 50,
        forall|k: int|
            0 <= k < chunks.len() && (#[trigger] chunks[k])@.len() > 1 ==> run_bytes(
                evidence_models(chunks[k]@),
            ) <= 262_144,
        forall|k: int|
            0 <= k < chunks.len() - 1 ==> (#[trigger] chunks[k])@.len() == 50 || run_bytes(
                evidence_models(chunks[k]@),
            ) + page_bytes(chunks[k + 1]@[0]@) > 262_144,
{
    let starts = Seq::new((chunks.len() + 1) as nat, |k: int| laid_out(chunks.take(k)).len() as int);
    assert(chunks.take(0) =~= Seq::empty());
    assert(chunks.take(chunks.len() as int) =~= chunks);
    assert forall|k: int| 0 <= k < chunks.len() implies 0 <= #[trigger] starts[k] && starts[k + 1]
        == starts[k] + chunks[k]@.len() && starts[k + 1] <= evidence.len() && evidence.subrange(
        starts[k],
        starts[k + 1],
    ) == chunks[k]@ by {
        chunk_in_place(chunks, k);
    }
    assert forall|k: int| 0 <= k < chunks.len() implies 1 <= (#[trigger] chunks[k])@.len()
        <= 50 by {
        assert(sendable(chunks[k]@));
    }
    assert forall|k: int|
        0 <= k < chunks.len() && (#[trigger] chunks[k])@.len() > 1 implies run_bytes(
        evidence_models(chunks[k]@),
    ) <= 262_144 by {
        assert(sendable(chunks[k]@));
    }
    assert forall|k: int| 0 <= k < chunks.len() - 1 implies (#[trigger] chunks[k])@.len() == 50
        || run_bytes(evidence_models(chunks[k]@)) + page_bytes(chunks[k + 1]@[0]@) > 262_144 by {
        assert(full_before(chunks[k]@, chunks[k + 1]@[0]));
    }
    starts
}

/// What a run of pages takes on the wire is what its pages take, each its state and its question
/// as they are written out.
pub proof fn a_run_takes_what_its_pages_take(pages: Seq<PageEvidenceModel>, next: PageEvidenceModel)
    ensures
        run_bytes(Seq::<PageEvidenceModel>::empty()) == 0,
        run_bytes(pages.push(next)) == run_bytes(pages) + (encode_utf8(
            wire_text(state_model(next)),
        ).len() as usize) as nat + (encode_utf8(wire_text(question_model(next.page))).len() as usize) as nat,
{
    assert(pages.push(next).drop_last() =~= pages);
}

/// What a response says of a page is the number under the page's own name, pulled into 0..=1; an
/// answer that is absent, of another type, without a number, or with one that is not finite is
/// its own error, and names the page.
pub proof fn why_a_page_has_no_probability(answers: Seq<(Seq<char>, AnswerModel)>, page: u32)
    ensures
        ({
            let key = "page_"@ + decimal(page as nat);
            let found = reading_of(answers, page);
            &&& found matches Err(ProtocolErrorModel::MissingAnswer { key: named }) ==> named == key
            &&& found matches Err(ProtocolErrorModel::WrongType { key: named, .. }) ==> named == key
            &&& found matches Err(ProtocolErrorModel::MissingValue { key: named }) ==> named == key
            &&& found matches Err(ProtocolErrorModel::NotFinite { key: named, .. }) ==> named == key
            &&& (forall|i: int| 0 <= i < answers.len() ==> (#[trigger] answers[i]).0 != key) <==> (
            found is Err && found->Err_0 is MissingAnswer)
            &&& found is Ok ==> found->Ok_0.probability.bits <= 0x3f80_0000
                || found->Ok_0.probability.bits == 0x8000_0000 || found->Ok_0.probability.nan()
        }),
{
    answer_under_is_the_first(answers, key_of(page));
}

/// What a yes and a no to the question on a page mean: a yes, that its text is lost and OCR would
/// recover it; a no, that its text is in hand already. The question is about that page alone.
pub proof fn a_yes_means_the_page_needs_ocr(page: u32)
    ensures
        has_member(
            question_model(page),
            "instructions"@,
            JsonModel::Text(
                "Look only at the entry in the state array whose `page` field is "@ + decimal(
                    page as nat,
                )
                    + ". That page needs to be re-read with OCR: the text it carries is missing, or it is present but does not faithfully represent what is printed on the page."@,
            ),
        ),
        exists|criteria: JsonModel| #[trigger]
            has_member(question_model(page), "criteria"@, criteria) && has_member(
                criteria,
                "true"@,
                JsonModel::Text(
                    "The text is absent, is mojibake or nonsense from a broken font encoding, is a bad pre-existing OCR layer, is only a watermark, header or footer, or otherwise does not correspond to a page of readable content. Running OCR would recover content that is currently lost."@,
                ),
            ) && has_member(
                criteria,
                "false"@,
                JsonModel::Text(
                    "The text is coherent, readable prose, tabular or form content that plausibly reflects the whole printed page. Running OCR would cost money and return what is already in hand."@,
                ),
            ),
{
    let question = question_model(page);
    assert(question->Object_0[1].0 == "instructions"@);
    let criteria = question->Object_0[2].1;
    assert(question->Object_0[2] == ("criteria"@, criteria));
    assert(criteria->Object_0[0].0 == "true"@);
    assert(criteria->Object_0[1].0 == "false"@);
    assert(has_member(question, "criteria"@, criteria));
}

/// What is said of an answer that cannot be used: which page's name it stands under, and whether
/// it is missing, of another type, without a number, or not a number.
pub proof fn what_is_said_of_an_unusable_answer(key: Seq<char>, found: Seq<char>, value: Real64)
    ensures
        (ProtocolErrorModel::MissingAnswer { key }).text() == "the response has no answer for "@
            + key,
        (ProtocolErrorModel::WrongType { key, found }).text() == "the answer for "@ + key
            + " has type "@ + crate::text::quoted(found) + ", not \"noul\""@,
        (ProtocolErrorModel::MissingValue { key }).text() == "the answer for "@ + key
            + " carries no noul value"@,
        (ProtocolErrorModel::NotFinite { key, value }).text() == "the answer for "@ + key + " is "@
            + value.special_text() + ", which is not a probability"@,
{
}

} // verus!
