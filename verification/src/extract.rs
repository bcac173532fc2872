//! The OCR-response shape everything merges into, and local text-layer extraction.

use crate::classify::{is_pdf, pdf_magic};
use crate::error::{Error, ErrorModel};
use crate::inspector::{
    countable, extract_markdown, may_extract, numbered_as_asked, page_texts_model, PageText,
    PageTextModel,
};
use vstd::prelude::*;
use vstd::string::*;

verus! {

/// The pseudo-model name reported for pages read from the PDF's own text layer.
pub const LOCAL_MODEL: &'static str = "local_pdf/extract";

/// One page of extracted content.
#[derive(Debug, PartialEq, Eq)]
pub struct Page {
    /// The page's ORIGINAL 0-indexed position in the source document.
    pub index: u32,
    /// The page's content as markdown.
    pub markdown: String,
    /// The model that produced this page.
    pub model: String,
}

/// A [`Page`] with its texts as character sequences.
#[verifier::ext_equal]
pub ghost struct PageModel {
    pub index: u32,
    pub markdown: Seq<char>,
    pub model: Seq<char>,
}

impl View for Page {
    type V = PageModel;

    open spec fn view(&self) -> PageModel {
        PageModel { index: self.index, markdown: self.markdown@, model: self.model@ }
    }
}

/// The models of a list of pages.
pub open spec fn page_models(pages: Seq<Page>) -> Seq<PageModel> {
    pages.map_values(|p: Page| p@)
}

impl Page {
    /// A page produced by `model`.
    pub fn new(index: u32, markdown: &str, model: &str) -> (r: Self)
        ensures
            r@ == (PageModel { index, markdown: markdown@, model: model@ }),
    {
        Page { index, markdown: markdown.to_owned(), model: model.to_owned() }
    }
}

impl Clone for Page {
    fn clone(&self) -> (r: Self)
        ensures
            r@ == self@,
    {
        Page {
            index: self.index,
            markdown: self.markdown.clone(),
            model: self.model.clone(),
        }
    }
}

/// The subset of an OCR provider's response the router cares about.
#[derive(Debug, PartialEq, Eq)]
pub struct OcrResult {
    /// Extracted pages, in original page order once merged.
    pub pages: Vec<Page>,
    /// The model, or comma-joined models, that produced this result.
    pub model: String,
    /// How many pages were processed (summed across legs).
    pub pages_processed: u32,
    /// Size of the source document in bytes, when known.
    pub doc_size_bytes: Option<u64>,
}

/// An [`OcrResult`] with its texts as character sequences.
#[verifier::ext_equal]
pub ghost struct OcrResultModel {
    pub pages: Seq<PageModel>,
    pub model: Seq<char>,
    pub pages_processed: u32,
    pub doc_size_bytes: Option<u64>,
}

impl View for OcrResult {
    type V = OcrResultModel;

    open spec fn view(&self) -> OcrResultModel {
        OcrResultModel {
            pages: page_models(self.pages@),
            model: self.model@,
            pages_processed: self.pages_processed,
            doc_size_bytes: self.doc_size_bytes,
        }
    }
}

impl OcrResult {
    /// An empty result attributed to `model`.
    pub fn empty(model: &str) -> (r: Self)
        ensures
            r@ == (OcrResultModel {
                pages: Seq::empty(),
                model: model@,
                pages_processed: 0,
                doc_size_bytes: None,
            }),
    {
        let r = OcrResult {
            pages: Vec::new(),
            model: model.to_owned(),
            pages_processed: 0,
            doc_size_bytes: None,
        };
        assert(r@.pages =~= Seq::empty());
        r
    }
}

impl Clone for OcrResult {
    fn clone(&self) -> (r: Self)
        ensures
            r@ == self@,
    {
        OcrResult {
            pages: clone_pages(&self.pages),
            model: self.model.clone(),
            pages_processed: self.pages_processed,
            doc_size_bytes: self.doc_size_bytes,
        }
    }
}

/// A copy of a list of pages.
pub fn clone_pages(pages: &Vec<Page>) -> (r: Vec<Page>)
    ensures
        page_models(r@) == page_models(pages@),
{
    let mut out: Vec<Page> = Vec::new();
    let mut i: usize = 0;
    while i < pages.len()
        invariant
            i <= pages@.len(),
            page_models(out@) == page_models(pages@.take(i as int)),
        decreases pages@.len() - i,
    {
        let ghost before = out@;
        out.push(pages[i].clone());
        assert(page_models(out@) =~= page_models(before).push(pages@[i as int]@));
        assert(page_models(pages@.take(i + 1)) =~= page_models(pages@.take(i as int)).push(
            pages@[i as int]@,
        ));
        i += 1;
    }
    assert(pages@.take(pages@.len() as int) =~= pages@);
    out
}

/// The result local extraction reports for the pages the extractor returned: every one of
/// them, in the order it gave them, attributed to [`LOCAL_MODEL`].
pub open spec fn local_result(pages: Seq<PageTextModel>, size: u64) -> OcrResultModel {
    OcrResultModel {
        pages: pages.map_values(
            |p: PageTextModel|
                PageModel { index: p.page, markdown: p.markdown, model: LOCAL_MODEL@ },
        ),
        model: LOCAL_MODEL@,
        pages_processed: pages.len() as u32,
        doc_size_bytes: Some(size),
    }
}

/// Shape what the extractor returned into the result of the local leg.
pub fn local_result_of(pages: Vec<PageText>, size: u64) -> (r: OcrResult)
    ensures
        r@ == local_result(page_texts_model(pages@), size),
{
    let mut out: Vec<Page> = Vec::new();
    let mut i: usize = 0;
    while i < pages.len()
        invariant
            i <= pages@.len(),
            page_models(out@) == local_result(page_texts_model(pages@.take(i as int)), size).pages,
        decreases pages@.len() - i,
    {
        let ghost before = out@;
        let ghost taken = page_texts_model(pages@.take(i as int));
        let page: &PageText = &pages[i];
        out.push(Page::new(page.page, page.markdown.as_str(), LOCAL_MODEL));
        assert(page_texts_model(pages@.take(i + 1)) =~= taken.push(page@));
        assert(page_models(out@) =~= page_models(before).push(out@.last()@));
        assert(page_models(out@) =~= local_result(taken.push(page@), size).pages);
        i += 1;
    }
    assert(pages@.take(pages@.len() as int) =~= pages@);
    let r = OcrResult {
        pages_processed: out.len() as u32,
        pages: out,
        model: LOCAL_MODEL.to_owned(),
        doc_size_bytes: Some(size),
    };
    assert(page_texts_model(pages@).len() == page_models(r.pages@).len());
    r
}

/// What [`extract_local`] may return for these bytes and pages.
pub open spec fn may_extract_local(
    bytes: Seq<u8>,
    pages: Option<Seq<u32>>,
    out: Result<OcrResultModel, ErrorModel>,
) -> bool {
    if !pdf_magic(bytes) {
        out == Err::<OcrResultModel, ErrorModel>(ErrorModel::NotPdf)
    } else {
        match out {
            Ok(result) => exists|texts: Seq<PageTextModel>| #[trigger]
                may_extract(bytes, pages, Ok(texts)) && numbered_as_asked(pages, texts) && result
                    == local_result(texts, bytes.len() as u64),
            Err(error) => error is Pdf && may_extract(bytes, pages, Err(error->Pdf_0)),
        }
    }
}

/// The model of a result that carries an OCR response.
pub open spec fn ocr_outcome(r: Result<OcrResult, Error>) -> Result<OcrResultModel, ErrorModel> {
    match r {
        Ok(result) => Ok(result@),
        Err(error) => Err(error@),
    }
}

/// The numbers of an optional page list.
pub open spec fn opt_pages(pages: Option<&[u32]>) -> Option<Seq<u32>> {
    match pages {
        Some(list) => Some(list@),
        None => None,
    }
}

/// Read `pages` (0-indexed; `None` = every page) out of the PDF's text layer.
///
/// Pages the extractor flags as needing OCR are still returned, with whatever markdown it
/// produced (often empty), so downstream page counts stay honest. `Page.index` is the
/// original page number even when a subset was requested.
pub fn extract_local(bytes: &[u8], pages: Option<&[u32]>) -> (r: Result<OcrResult, Error>)
    requires
        countable(opt_pages(pages)),
    ensures
        may_extract_local(bytes@, opt_pages(pages), ocr_outcome(r)),
{
    if !is_pdf(bytes) {
        return Err(Error::NotPdf);
    }
    match extract_markdown(bytes, pages) {
        Ok(texts) => {
            let ghost model = page_texts_model(texts@);
            let r = local_result_of(texts, bytes.len() as u64);
            assert(may_extract(bytes@, opt_pages(pages), Ok(model)));
            Ok(r)
        },
        Err(detail) => Err(Error::Pdf(detail)),
    }
}

/// A successful local extraction has one page per page asked for, in the order asked for,
/// each under its original number and attributed to the local model.
pub proof fn local_extraction_keeps_page_numbers(
    bytes: Seq<u8>,
    pages: Seq<u32>,
    result: OcrResultModel,
)
    requires
        may_extract_local(bytes, Some(pages), Ok(result)),
    ensures
        result.pages.len() == pages.len(),
        forall|i: int|
            0 <= i < pages.len() ==> (#[trigger] result.pages[i]).index == pages[i]
                && result.pages[i].model == LOCAL_MODEL@,
{
}

/// A successful local extraction is what the extractor returned: as many pages, each under the
/// number and with the markdown the extractor gave it, character for character, all attributed to
/// the local extractor, with as many pages processed and the size of the document.
pub proof fn local_extraction_is_the_extractors_text(
    bytes: Seq<u8>,
    pages: Option<Seq<u32>>,
    result: OcrResultModel,
)
    requires
        may_extract_local(bytes, pages, Ok(result)),
    ensures
        pdf_magic(bytes),
        result.model == "local_pdf/extract"@,
        bytes.len() <= u64::MAX ==> result.doc_size_bytes == Some(bytes.len() as u64),
        result.pages.len() <= u32::MAX ==> result.pages_processed == result.pages.len(),
        exists|texts: Seq<PageTextModel>| #[trigger]
            may_extract(bytes, pages, Ok(texts)) && result.pages.len() == texts.len() && forall|
                i: int,
            |
                0 <= i < texts.len() ==> (#[trigger] result.pages[i]).index == texts[i].page
                    && result.pages[i].markdown == texts[i].markdown && result.pages[i].model
                    == "local_pdf/extract"@,
        pages is Some ==> result.pages.len() == pages->0.len() && forall|i: int|
            0 <= i < result.pages.len() ==> (#[trigger] result.pages[i]).index == pages->0[i],
        pages is None ==> forall|i: int|
            0 <= i < result.pages.len() ==> (#[trigger] result.pages[i]).index == i,
{
}

/// Why a local extraction fails: bytes that do not start with `%PDF`, and only those, are no PDF;
/// otherwise the extractor failed, and its words are passed on.
pub proof fn why_a_local_extraction_fails(
    bytes: Seq<u8>,
    pages: Option<Seq<u32>>,
    error: ErrorModel,
)
    requires
        may_extract_local(bytes, pages, Err(error)),
    ensures
        ({
            let opens = bytes.len() >= 4 && bytes[0] == 0x25 && bytes[1] == 0x50 && bytes[2] == 0x44
                && bytes[3] == 0x46;
            &&& !opens ==> error is NotPdf
            &&& opens ==> error is Pdf && may_extract(bytes, pages, Err(error->Pdf_0))
        }),
{
}

/// A page and an empty result are what they are made of.
pub proof fn pages_and_results_hold_what_they_are_made_of(
    index: u32,
    markdown: &str,
    model: &str,
    page: Page,
    nothing: OcrResult,
)
    requires
        call_ensures(Page::new, (index, markdown, model), page),
        call_ensures(OcrResult::empty, (model,), nothing),
    ensures
        page@.index == index,
        page@.markdown == markdown@,
        page@.model == model@,
        nothing@.pages.len() == 0,
        nothing@.model == model@,
        nothing@.pages_processed == 0,
        nothing@.doc_size_bytes is None,
{
}

/// [`extract_local`] returns the extractor's own text for the pages asked for.
pub proof fn extract_local_returns_the_extractors_text(
    bytes: &[u8],
    pages: Option<&[u32]>,
    out: Result<OcrResult, Error>,
)
    requires
        countable(opt_pages(pages)),
        call_ensures(extract_local, (bytes, pages), out),
        out is Ok,
    ensures
        exists|texts: Seq<PageTextModel>| #[trigger]
            may_extract(bytes@, opt_pages(pages), Ok(texts)) && out->Ok_0@.pages.len()
                == texts.len() && forall|i: int|
                0 <= i < texts.len() ==> (#[trigger] out->Ok_0@.pages[i]).index == texts[i].page
                    && out->Ok_0@.pages[i].markdown == texts[i].markdown
                    && out->Ok_0@.pages[i].model == "local_pdf/extract"@,
        pages is Some ==> out->Ok_0@.pages.len() == pages->0@.len() && forall|i: int|
            0 <= i < pages->0@.len() ==> (#[trigger] out->Ok_0@.pages[i]).index == pages->0@[i],
{
    local_extraction_is_the_extractors_text(bytes@, opt_pages(pages), out->Ok_0@);
}

} // verus!
