//! The boundary to the `pdf_inspector` crate, in plain values.
//!
//! Nothing is claimed here of how a document is inspected. Each call is tied to its
//! arguments by a relation that says only "this is something the inspector may answer": it
//! parses a document on several threads, where of two copies of one object the first to arrive
//! stays, and its heuristics walk hash maps, so one document may be read in more than one way.

use crate::classify::PdfType;
use crate::extract::opt_pages;
use crate::number::Real32;
use crate::text::texts;
use pdf_inspector::process_pdf_mem_with_options;
use pdf_inspector::PdfType as InspectorType;
use pdf_inspector::{DetectionConfig, PdfOptions, ProcessMode, ScanStrategy};
use vstd::prelude::*;

verus! {

/// Which pages the inspector looks at.
#[derive(Clone, Copy, Debug, PartialEq, Eq, Structural)]
pub enum Strategy {
    /// Every page.
    Full,
    /// Up to this many evenly spread pages.
    Sample(u32),
}

/// Why the inspector flagged one page.
#[derive(Debug, PartialEq)]
pub struct FlaggedPage {
    /// 1-indexed page number.
    pub page: u32,
    /// Machine-readable reason identifiers.
    pub reasons: Vec<String>,
}

/// A [`FlaggedPage`] with its texts as character sequences.
pub ghost struct FlaggedPageModel {
    pub page: u32,
    pub reasons: Seq<Seq<char>>,
}

impl View for FlaggedPage {
    type V = FlaggedPageModel;

    open spec fn view(&self) -> FlaggedPageModel {
        FlaggedPageModel { page: self.page, reasons: texts(self.reasons@) }
    }
}

/// What the detection pass reported.
#[derive(Debug, PartialEq)]
pub struct Detection {
    /// The document type, as the inspector labels it.
    pub pdf_type: PdfType,
    /// Detection confidence.
    pub confidence: Real32,
    /// Number of pages.
    pub page_count: u32,
    /// 1-indexed pages without a usable text layer.
    pub pages_needing_ocr: Vec<u32>,
}

/// A [`Detection`] over sequences.
pub ghost struct DetectionModel {
    pub pdf_type: PdfType,
    pub confidence: Real32,
    pub page_count: u32,
    pub pages_needing_ocr: Seq<u32>,
}

impl View for Detection {
    type V = DetectionModel;

    open spec fn view(&self) -> DetectionModel {
        DetectionModel {
            pdf_type: self.pdf_type,
            confidence: self.confidence,
            page_count: self.page_count,
            pages_needing_ocr: self.pages_needing_ocr@,
        }
    }
}

/// The model of a detection's outcome; the error is its printed text.
pub open spec fn detection_outcome(r: Result<Detection, String>) -> Result<
    DetectionModel,
    Seq<char>,
> {
    match r {
        Ok(detection) => Ok(detection@),
        Err(detail) => Err(detail@),
    }
}

/// `out` is something the inspector may answer when its detection pass runs over `bytes` with
/// this page strategy and this text-page ratio threshold.
pub uninterp spec fn may_detect(
    bytes: Seq<u8>,
    strategy: Strategy,
    ratio_threshold: u8,
    out: Result<DetectionModel, Seq<char>>,
) -> bool;

/// `pdf_inspector::process_pdf_mem_with_options` in `DetectOnly` mode, every option but the
/// two given here at its default.
///
/// Claimed of it: the outcome is one the inspector may give for exactly these arguments. The
/// error is the text the crate's own error prints. Which report a document gets is the
/// inspector's judgement, and nothing is said of it.
#[verifier::external_body]
pub(crate) fn detect(bytes: &[u8], strategy: Strategy, ratio_threshold: u8) -> (r: Result<
    Detection,
    String,
>)
    ensures
        may_detect(bytes@, strategy, ratio_threshold, detection_outcome(r)),
{
    let strategy = match strategy { Strategy::Full => ScanStrategy::Full, Strategy::Sample(n) => ScanStrategy::Sample(n) };
    let ratio = ratio_threshold.into();
    let detection = DetectionConfig { strategy, text_page_ratio_threshold: ratio, ..Default::default() };
    let options = PdfOptions::detect_only().detection(detection);
    let p = process_pdf_mem_with_options(bytes, options).map_err(|e| e.to_string())?;
    let pdf_type = match p.pdf_type {
        InspectorType::TextBased => PdfType::TextBased,
        InspectorType::Scanned => PdfType::Scanned,
        InspectorType::ImageBased => PdfType::ImageBased,
        InspectorType::Mixed => PdfType::Mixed,
    };
    let confidence = Real32 { bits: p.confidence.to_bits() };
    Ok(Detection { pdf_type, confidence, page_count: p.page_count, pages_needing_ocr: p.pages_needing_ocr })
}

/// What the analysis pass reported.
#[derive(Debug, PartialEq)]
pub struct Layout {
    /// Whether any page carries tables or columns.
    pub is_complex: bool,
    /// Whether broken font encodings were found.
    pub has_encoding_issues: bool,
    /// Why pages were flagged.
    pub flagged: Vec<FlaggedPage>,
    /// 1-indexed pages with table borders.
    pub pages_with_tables: Vec<u32>,
    /// 1-indexed pages with two or more text columns.
    pub pages_with_columns: Vec<u32>,
}

/// A [`Layout`] over sequences.
pub ghost struct LayoutModel {
    pub is_complex: bool,
    pub has_encoding_issues: bool,
    pub flagged: Seq<FlaggedPageModel>,
    pub pages_with_tables: Seq<u32>,
    pub pages_with_columns: Seq<u32>,
}

/// The models of a list of flagged pages.
pub open spec fn flagged_models(flagged: Seq<FlaggedPage>) -> Seq<FlaggedPageModel> {
    flagged.map_values(|f: FlaggedPage| f@)
}

impl View for Layout {
    type V = LayoutModel;

    open spec fn view(&self) -> LayoutModel {
        LayoutModel {
            is_complex: self.is_complex,
            has_encoding_issues: self.has_encoding_issues,
            flagged: flagged_models(self.flagged@),
            pages_with_tables: self.pages_with_tables@,
            pages_with_columns: self.pages_with_columns@,
        }
    }
}

/// The model of an analysis's outcome: its report, or nothing when it failed.
pub open spec fn layout_outcome(r: Option<Layout>) -> Option<LayoutModel> {
    match r {
        Some(layout) => Some(layout@),
        None => None,
    }
}

/// `out` is something the inspector may answer when its analysis pass runs over `bytes` with
/// this page strategy and this text-page ratio threshold; `None` is a pass that failed.
pub uninterp spec fn may_analyze(
    bytes: Seq<u8>,
    strategy: Strategy,
    ratio_threshold: u8,
    out: Option<LayoutModel>,
) -> bool;

/// `pdf_inspector::process_pdf_mem_with_options` in `Analyze` mode, every option but the two
/// given here at its default. A failed pass is `None`.
///
/// Claimed of it: the outcome is one the inspector may give for exactly these arguments, and
/// nothing else.
#[verifier::external_body]
pub(crate) fn analyze_layout(bytes: &[u8], strategy: Strategy, ratio_threshold: u8) -> (r: Option<
    Layout,
>)
    ensures
        may_analyze(bytes@, strategy, ratio_threshold, layout_outcome(r)),
{
    let strategy = match strategy { Strategy::Full => ScanStrategy::Full, Strategy::Sample(n) => ScanStrategy::Sample(n) };
    let ratio = ratio_threshold.into();
    let detection = DetectionConfig { strategy, text_page_ratio_threshold: ratio, ..Default::default() };
    let options = PdfOptions::new().mode(ProcessMode::Analyze).detection(detection);
    let p = process_pdf_mem_with_options(bytes, options).ok()?;
    let flagged = p.ocr_reasons_by_page.into_iter().map(|e| FlaggedPage { page: e.page, reasons: e.reasons });
    Some(Layout {
        is_complex: p.layout.is_complex,
        has_encoding_issues: p.has_encoding_issues,
        flagged: flagged.collect(),
        pages_with_tables: p.layout.pages_with_tables,
        pages_with_columns: p.layout.pages_with_columns,
    })
}

/// One page's markdown.
#[derive(Debug, PartialEq)]
pub struct PageText {
    /// 0-indexed page number in the source document.
    pub page: u32,
    /// The page rendered as markdown.
    pub markdown: String,
}

/// A [`PageText`] with its text as a character sequence.
pub ghost struct PageTextModel {
    pub page: u32,
    pub markdown: Seq<char>,
}

impl View for PageText {
    type V = PageTextModel;

    open spec fn view(&self) -> PageTextModel {
        PageTextModel { page: self.page, markdown: self.markdown@ }
    }
}

/// The models of a list of page texts.
pub open spec fn page_texts_model(pages: Seq<PageText>) -> Seq<PageTextModel> {
    pages.map_values(|p: PageText| p@)
}

/// The model of an extraction's outcome; the error is its printed text.
pub open spec fn texts_outcome(r: Result<Vec<PageText>, String>) -> Result<
    Seq<PageTextModel>,
    Seq<char>,
> {
    match r {
        Ok(pages) => Ok(page_texts_model(pages@)),
        Err(detail) => Err(detail@),
    }
}

/// `out` is something the inspector may answer when it is asked for the markdown of `pages`
/// (0-indexed; `None` = every page) of `bytes`.
pub uninterp spec fn may_extract(
    bytes: Seq<u8>,
    pages: Option<Seq<u32>>,
    out: Result<Seq<PageTextModel>, Seq<char>>,
) -> bool;

/// The extracted pages carry the numbers asked for, in the order asked for; with no list
/// they are numbered from 0 on.
pub open spec fn numbered_as_asked(asked: Option<Seq<u32>>, pages: Seq<PageTextModel>) -> bool {
    match asked {
        Some(list) => pages.len() == list.len() && forall|i: int|
            0 <= i < pages.len() ==> (#[trigger] pages[i]).page == list[i],
        None => forall|i: int| 0 <= i < pages.len() ==> (#[trigger] pages[i]).page == i,
    }
}

/// Every page number asked for has a successor among `u32` values.
pub open spec fn countable(asked: Option<Seq<u32>>) -> bool {
    asked is Some ==> forall|i: int| 0 <= i < asked->0.len() ==> #[trigger] asked->0[i] < u32::MAX
}

/// `pdf_inspector::extract_pages_markdown_mem`.
///
/// Claimed of it: the outcome is one the inspector may give for exactly these arguments; the
/// pages of a success are one per page asked for, under its own number and in that order, and
/// without a list they are numbered from 0 on. The error is the text the crate's own error
/// prints. The call counts page numbers from 1, so the largest `u32` is not one it takes.
#[verifier::external_body]
pub(crate) fn extract_markdown(bytes: &[u8], pages: Option<&[u32]>) -> (r: Result<
    Vec<PageText>,
    String,
>)
    requires
        countable(opt_pages(pages)),
    ensures
        may_extract(bytes@, opt_pages(pages), texts_outcome(r)),
        r is Ok ==> numbered_as_asked(opt_pages(pages), page_texts_model(r->Ok_0@)),
{
    match pdf_inspector::extract_pages_markdown_mem(bytes, pages) {
        Ok(extraction) => Ok(
            extraction.pages.into_iter().map(
                |p| PageText { page: p.page, markdown: p.markdown },
            ).collect(),
        ),
        Err(e) => Err(e.to_string()),
    }
}

} // verus!
