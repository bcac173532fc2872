//! Structural classification of a PDF.
//!
//! No model is called and nothing leaves the process: the inspector reads the document's own
//! structure and reports which pages carry a usable text layer; a page judge rules on that
//! evidence; the document's label is a summary of the pages the judge left.

use crate::error::{Error, ErrorModel};
use crate::inspector::{
    analyze_layout, detect, extract_markdown, flagged_models, layout_outcome, may_analyze,
    may_detect, may_extract, numbered_as_asked, page_texts_model, Detection, DetectionModel,
    FlaggedPage, FlaggedPageModel, Layout, LayoutModel, PageText, PageTextModel, Strategy,
};
use crate::judge::{
    evidence_models, verdict_models, HeuristicJudge, PageEvidence, PageEvidenceModel, PageJudge,
    PageVerdict, PageVerdictModel,
};
use crate::number::Real32;
use crate::order::{
    holds_page, increasing, increasing_fixed_by_contents, insert_by_at, insert_page, kept,
    kept_holds, sorted_by,
};
use crate::text::{chars_of, clone_texts, decimal, opt_text, push_decimal, same_text, texts};
use vstd::prelude::*;
use vstd::string::*;

verus! {

/// What the inspector thinks the document is.
#[derive(Clone, Copy, Debug, PartialEq, Eq, Hash, Structural)]
pub enum PdfType {
    /// Extractable text on every page.
    TextBased,
    /// Scanned images, no text layer.
    Scanned,
    /// Mostly images with minimal text.
    ImageBased,
    /// A mix of text pages and image pages.
    Mixed,
    /// Anything the classifier does not report as one of the above.
    Unknown,
}

/// The ASCII letters and digits of `s`, in order, letters in lower case.
pub open spec fn loose(s: Seq<char>) -> Seq<char>
    decreases s.len(),
{
    if s.len() == 0 {
        Seq::empty()
    } else {
        let rest = loose(s.drop_last());
        let c = s.last();
        if 'a' <= c <= 'z' || '0' <= c <= '9' {
            rest.push(c)
        } else if 'A' <= c <= 'Z' {
            rest.push((c as u8 + 32) as char)
        } else {
            rest
        }
    }
}

impl PdfType {
    /// The wire string for this type.
    pub open spec fn text(self) -> Seq<char> {
        match self {
            PdfType::TextBased => "text_based"@,
            PdfType::Scanned => "scanned"@,
            PdfType::ImageBased => "image_based"@,
            PdfType::Mixed => "mixed"@,
            PdfType::Unknown => "unknown"@,
        }
    }

    /// The wire string for this type.
    pub fn as_str(self) -> (r: &'static str)
        ensures
            r@ == self.text(),
    {
        match self {
            PdfType::TextBased => "text_based",
            PdfType::Scanned => "scanned",
            PdfType::ImageBased => "image_based",
            PdfType::Mixed => "mixed",
            PdfType::Unknown => "unknown",
        }
    }

    /// The type a name stands for once everything but its letters and digits is ignored.
    pub open spec fn parsed(s: Seq<char>) -> PdfType {
        if loose(s) == "textbased"@ {
            PdfType::TextBased
        } else if loose(s) == "scanned"@ {
            PdfType::Scanned
        } else if loose(s) == "imagebased"@ {
            PdfType::ImageBased
        } else if loose(s) == "mixed"@ {
            PdfType::Mixed
        } else {
            PdfType::Unknown
        }
    }

    /// Parse a type name, ignoring case and underscores, so both `"TextBased"` and
    /// `"text_based"` parse.
    pub fn parse_loose(s: &str) -> (r: PdfType)
        ensures
            r == PdfType::parsed(s@),
    {
        let chars: Vec<char> = chars_of(s);
        let mut name: String = String::new();
        let mut i: usize = 0;
        while i < chars.len()
            invariant
                i <= chars@.len(),
                name@ == loose(chars@.take(i as int)),
            decreases chars@.len() - i,
        {
            let c: char = chars[i];
            assert(chars@.take(i + 1).drop_last() =~= chars@.take(i as int));
            if ('a' <= c && c <= 'z') || ('0' <= c && c <= '9') {
                name.push(c);
            } else if 'A' <= c && c <= 'Z' {
                name.push((c as u8 + 32) as char);
            }
            i += 1;
        }
        assert(chars@.take(chars@.len() as int) =~= s@);
        if same_text(name.as_str(), "textbased") {
            PdfType::TextBased
        } else if same_text(name.as_str(), "scanned") {
            PdfType::Scanned
        } else if same_text(name.as_str(), "imagebased") {
            PdfType::ImageBased
        } else if same_text(name.as_str(), "mixed") {
            PdfType::Mixed
        } else {
            PdfType::Unknown
        }
    }
}

/// Why the inspector flagged one page for OCR, under its 0-indexed number.
#[derive(Debug, PartialEq)]
pub struct PageOcrReasons {
    /// 0-indexed page number, `< page_count`.
    pub page: u32,
    /// Machine-readable reason identifiers.
    pub reasons: Vec<String>,
}

/// A [`PageOcrReasons`] with its texts as character sequences.
#[verifier::ext_equal]
pub ghost struct PageOcrReasonsModel {
    pub page: u32,
    pub reasons: Seq<Seq<char>>,
}

impl View for PageOcrReasons {
    type V = PageOcrReasonsModel;

    open spec fn view(&self) -> PageOcrReasonsModel {
        PageOcrReasonsModel { page: self.page, reasons: texts(self.reasons@) }
    }
}

impl Clone for PageOcrReasons {
    fn clone(&self) -> (r: Self)
        ensures
            r@ == self@,
    {
        PageOcrReasons { page: self.page, reasons: clone_texts(&self.reasons) }
    }
}

/// The models of a list of page reasons.
pub open spec fn reason_models(reasons: Seq<PageOcrReasons>) -> Seq<PageOcrReasonsModel> {
    reasons.map_values(|e: PageOcrReasons| e@)
}

/// A copy of a list of page reasons.
pub fn clone_reasons(reasons: &Vec<PageOcrReasons>) -> (r: Vec<PageOcrReasons>)
    ensures
        reason_models(r@) == reason_models(reasons@),
{
    let mut out: Vec<PageOcrReasons> = Vec::new();
    let mut i: usize = 0;
    while i < reasons.len()
        invariant
            i <= reasons@.len(),
            reason_models(out@) == reason_models(reasons@.take(i as int)),
        decreases reasons@.len() - i,
    {
        let ghost before = out@;
        out.push(reasons[i].clone());
        assert(reason_models(out@) =~= reason_models(before).push(reasons@[i as int]@));
        assert(reason_models(reasons@.take(i + 1)) =~= reason_models(reasons@.take(i as int)).push(
            reasons@[i as int]@,
        ));
        i += 1;
    }
    assert(reasons@.take(reasons@.len() as int) =~= reasons@);
    out
}

/// What the structural classifier learned about one PDF.
#[derive(Debug, PartialEq)]
pub struct Classification {
    /// The detected document type.
    pub pdf_type: PdfType,
    /// Detection confidence, 0–1.
    pub confidence: Real32,
    /// Number of pages in the document.
    pub page_count: u32,
    /// 0-indexed pages with no usable text layer: sorted, de-duplicated, `< page_count`.
    pub pages_needing_ocr: Vec<u32>,
    /// True when any page carries tables or multi-column text.
    pub is_complex_layout: bool,
    /// True when the inspector found broken font encodings. False when the analysis pass was
    /// skipped or failed.
    pub has_encoding_issues: bool,
    /// Why each page was flagged. Empty when the analysis pass was skipped or failed.
    pub ocr_reasons: Vec<PageOcrReasons>,
    /// Wall-clock time spent classifying, in nanoseconds.
    pub classify_nanos: u64,
}

/// A [`Classification`] over sequences.
#[verifier::ext_equal]
pub ghost struct ClassificationModel {
    pub pdf_type: PdfType,
    pub confidence: Real32,
    pub page_count: u32,
    pub pages_needing_ocr: Seq<u32>,
    pub is_complex_layout: bool,
    pub has_encoding_issues: bool,
    pub ocr_reasons: Seq<PageOcrReasonsModel>,
    pub classify_nanos: u64,
}

impl View for Classification {
    type V = ClassificationModel;

    open spec fn view(&self) -> ClassificationModel {
        ClassificationModel {
            pdf_type: self.pdf_type,
            confidence: self.confidence,
            page_count: self.page_count,
            pages_needing_ocr: self.pages_needing_ocr@,
            is_complex_layout: self.is_complex_layout,
            has_encoding_issues: self.has_encoding_issues,
            ocr_reasons: reason_models(self.ocr_reasons@),
            classify_nanos: self.classify_nanos,
        }
    }
}

impl Clone for Classification {
    fn clone(&self) -> (r: Self)
        ensures
            r@ == self@,
    {
        Classification {
            pdf_type: self.pdf_type,
            confidence: self.confidence,
            page_count: self.page_count,
            pages_needing_ocr: clone_page_list(&self.pages_needing_ocr),
            is_complex_layout: self.is_complex_layout,
            has_encoding_issues: self.has_encoding_issues,
            ocr_reasons: clone_reasons(&self.ocr_reasons),
            classify_nanos: self.classify_nanos,
        }
    }
}

/// A copy of a page list.
pub fn clone_page_list(pages: &Vec<u32>) -> (r: Vec<u32>)
    ensures
        r@ == pages@,
{
    let mut out: Vec<u32> = Vec::new();
    let mut i: usize = 0;
    while i < pages.len()
        invariant
            i <= pages@.len(),
            out@ == pages@.take(i as int),
        decreases pages@.len() - i,
    {
        out.push(pages[i]);
        i += 1;
    }
    out
}

impl ClassificationModel {
    /// Every page needs OCR, and there is at least one page.
    pub open spec fn needs_ocr_everywhere(self) -> bool {
        self.page_count > 0 && self.pages_needing_ocr.len() >= self.page_count
    }

    /// The pages that do not need OCR, in order.
    pub open spec fn text_layer_pages(self) -> Seq<u32> {
        kept(self.page_count as nat, |p: u32| !self.pages_needing_ocr.contains(p))
    }

    /// The shape [`classify`] guarantees: the page list is strictly increasing and in range.
    pub open spec fn well_formed(self) -> bool {
        &&& increasing(self.pages_needing_ocr)
        &&& forall|i: int|
            0 <= i < self.pages_needing_ocr.len() ==> #[trigger] self.pages_needing_ocr[i]
                < self.page_count
    }
}

/// True when a list, in any order, holds `page`.
pub fn lists_page(pages: &Vec<u32>, page: u32) -> (r: bool)
    ensures
        r == pages@.contains(page),
{
    let mut i: usize = 0;
    while i < pages.len()
        invariant
            i <= pages@.len(),
            forall|j: int| 0 <= j < i ==> #[trigger] pages@[j] != page,
        decreases pages@.len() - i,
    {
        if pages[i] == page {
            assert(pages@[i as int] == page);
            return true;
        }
        i += 1;
    }
    false
}

impl Classification {
    /// True when every page needs OCR (and there is at least one page).
    pub fn needs_ocr_everywhere(&self) -> (r: bool)
        ensures
            r == self@.needs_ocr_everywhere(),
    {
        self.page_count > 0 && self.pages_needing_ocr.len() >= self.page_count as usize
    }

    /// The 0-indexed pages the local extractor can read.
    pub fn text_layer_pages(&self) -> (r: Vec<u32>)
        ensures
            r@ == self@.text_layer_pages(),
    {
        let ghost keep = |p: u32| !self@.pages_needing_ocr.contains(p);
        let mut out: Vec<u32> = Vec::new();
        let mut page: u32 = 0;
        while page < self.page_count
            invariant
                page <= self.page_count,
                keep == (|p: u32| !self@.pages_needing_ocr.contains(p)),
                out@ == kept(page as nat, keep),
            decreases self.page_count - page,
        {
            if !lists_page(&self.pages_needing_ocr, page) {
                out.push(page);
            }
            page += 1;
        }
        out
    }
}

/// Whether the bytes open with the PDF magic number.
pub open spec fn pdf_magic(bytes: Seq<u8>) -> bool {
    bytes.len() >= 4 && bytes[0] == 0x25 && bytes[1] == 0x50 && bytes[2] == 0x44 && bytes[3] == 0x46
}

/// True when `bytes` starts with the PDF magic number, `%PDF`.
pub fn is_pdf(bytes: &[u8]) -> (r: bool)
    ensures
        r == pdf_magic(bytes@),
{
    bytes.len() >= 4 && bytes[0] == 0x25 && bytes[1] == 0x50 && bytes[2] == 0x44 && bytes[3] == 0x46
}

/// The 0-indexed pages of a 1-indexed list: those below the page count, in increasing order,
/// each once.
pub open spec fn normalized(raw: Seq<u32>, page_count: u32) -> Seq<u32> {
    kept(page_count as nat, |p: u32| raw.contains((p + 1) as u32))
}

/// Coerce a 1-indexed page list into sorted, de-duplicated, in-range 0-indexed pages.
pub fn normalize_pages(raw: &[u32], page_count: u32) -> (r: Vec<u32>)
    ensures
        r@ == normalized(raw@, page_count),
{
    let mut out: Vec<u32> = Vec::new();
    let mut i: usize = 0;
    while i < raw.len()
        invariant
            i <= raw@.len(),
            increasing(out@),
            forall|p: u32| #[trigger]
                out@.contains(p) <==> p < page_count && raw@.take(i as int).contains((p + 1) as u32),
        decreases raw@.len() - i,
    {
        let ghost before = out@;
        let ghost seen = raw@.take(i as int);
        let number: u32 = raw[i];
        if number >= 1 && number - 1 < page_count {
            insert_page(&mut out, number - 1);
        }
        assert forall|p: u32| #[trigger] out@.contains(p) <==> p < page_count && raw@.take(
            i + 1,
        ).contains((p + 1) as u32) by {
            let now = raw@.take(i + 1);
            assert(now =~= seen.push(number));
            assert(now[i as int] == number);
            if p < page_count {
                if seen.contains((p + 1) as u32) {
                    let k = choose|k: int| 0 <= k < seen.len() && seen[k] == (p + 1) as u32;
                    assert(now[k] == (p + 1) as u32);
                }
                if now.contains((p + 1) as u32) {
                    let k = choose|k: int| 0 <= k < now.len() && now[k] == (p + 1) as u32;
                    if k < i {
                        assert(seen[k] == (p + 1) as u32);
                    }
                }
            }
        }
        i += 1;
    }
    assert(raw@.take(raw@.len() as int) =~= raw@);
    proof {
        let keep = |p: u32| raw@.contains((p + 1) as u32);
        kept_holds(page_count as nat, keep);
        increasing_fixed_by_contents(out@, kept(page_count as nat, keep));
    }
    out
}

/// The flagged pages that exist, under their 0-indexed numbers, in the order they came.
pub open spec fn shifted(raw: Seq<FlaggedPageModel>, page_count: u32) -> Seq<PageOcrReasonsModel>
    decreases raw.len(),
{
    if raw.len() == 0 {
        Seq::empty()
    } else {
        let rest = shifted(raw.drop_last(), page_count);
        let last = raw.last();
        if 1 <= last.page <= page_count {
            rest.push(
                PageOcrReasonsModel { page: (last.page - 1) as u32, reasons: last.reasons },
            )
        } else {
            rest
        }
    }
}

/// The key reasons are sorted by: their page.
pub open spec fn reason_key() -> spec_fn(PageOcrReasonsModel) -> int {
    |e: PageOcrReasonsModel| e.page as int
}

/// The flagged pages that exist, 0-indexed and stably sorted by page.
pub open spec fn normalized_reasons(raw: Seq<FlaggedPageModel>, page_count: u32) -> Seq<
    PageOcrReasonsModel,
> {
    sorted_by(shifted(raw, page_count), reason_key())
}

/// Put one page's reasons behind the last entry whose page is not above its own.
fn insert_reasons(reasons: &mut Vec<PageOcrReasons>, entry: PageOcrReasons)
    ensures
        reason_models(final(reasons)@) == crate::order::insert_by(
            reason_models(old(reasons)@),
            entry@,
            reason_key(),
        ),
{
    let ghost before = reasons@;
    let mut at: usize = reasons.len();
    while at > 0 && reasons[at - 1].page > entry.page
        invariant
            reasons@ == before,
            at <= before.len(),
            forall|i: int| at <= i < before.len() ==> (#[trigger] before[i]).page > entry.page,
        decreases at,
    {
        at -= 1;
    }
    proof {
        let models = reason_models(before);
        assert forall|i: int| at <= i < models.len() implies reason_key()(#[trigger] models[i])
            > reason_key()(entry@) by {
            assert(before[i].page > entry.page);
        }
        insert_by_at(models, entry@, reason_key(), at as int);
        assert(reason_models(before.insert(at as int, entry)) =~= models.insert(
            at as int,
            entry@,
        ));
    }
    reasons.insert(at, entry);
}

/// Coerce 1-indexed per-page reasons into sorted, in-range 0-indexed [`PageOcrReasons`]: page
/// 0 has no predecessor and anything past the last page is dropped.
pub fn normalize_ocr_reasons(raw: &Vec<FlaggedPage>, page_count: u32) -> (r: Vec<PageOcrReasons>)
    ensures
        reason_models(r@) == normalized_reasons(flagged_models(raw@), page_count),
{
    let mut out: Vec<PageOcrReasons> = Vec::new();
    let mut i: usize = 0;
    assert(reason_models(out@) =~= Seq::empty());
    while i < raw.len()
        invariant
            i <= raw@.len(),
            reason_models(out@) == normalized_reasons(
                flagged_models(raw@.take(i as int)),
                page_count,
            ),
        decreases raw@.len() - i,
    {
        let ghost now = flagged_models(raw@.take(i + 1));
        let ghost before = flagged_models(raw@.take(i as int));
        assert(now.drop_last() =~= before);
        assert(now.last() == raw@[i as int]@);
        let entry: &FlaggedPage = &raw[i];
        if entry.page >= 1 && entry.page - 1 < page_count {
            let shifted_entry = PageOcrReasons {
                page: entry.page - 1,
                reasons: clone_texts(&entry.reasons),
            };
            assert(shifted(now, page_count).drop_last() =~= shifted(before, page_count));
            assert(shifted(now, page_count).last() == shifted_entry@);
            insert_reasons(&mut out, shifted_entry);
        }
        i += 1;
    }
    assert(raw@.take(raw@.len() as int) =~= raw@);
    out
}

/// The document-level label a page list stands for. A label is a summary of the pages; the
/// pages are not a consequence of the label.
pub open spec fn label(reported: PdfType, pages_needing_ocr: Seq<u32>, page_count: u32) -> PdfType {
    if page_count == 0 {
        reported
    } else if pages_needing_ocr.len() == 0 {
        PdfType::TextBased
    } else if pages_needing_ocr.len() >= page_count {
        reported
    } else {
        PdfType::Mixed
    }
}

/// Derive the document-level label from the per-page OCR list.
///
/// * no page needs OCR: `TextBased`.
/// * every page needs OCR: the reported label stands. `Scanned` versus `ImageBased` turns on
///   image coverage, not on page counts, so it cannot be derived here.
/// * some pages need OCR: `Mixed`.
/// * no pages at all: the reported label stands.
pub fn label_from_pages(reported: PdfType, pages_needing_ocr: &[u32], page_count: u32) -> (r:
    PdfType)
    ensures
        r == label(reported, pages_needing_ocr@, page_count),
{
    if page_count == 0 {
        reported
    } else if pages_needing_ocr.len() == 0 {
        PdfType::TextBased
    } else if pages_needing_ocr.len() >= page_count as usize {
        reported
    } else {
        PdfType::Mixed
    }
}

/// What the analysis pass adds on top of detection, in 0-indexed, sorted, in-range form.
///
/// The default is what a skipped or failed pass yields: no complexity, no encoding issues, no
/// reasons, no per-page layout.
#[derive(Debug, PartialEq)]
pub struct Analysis {
    /// True when any page carries tables or multi-column text.
    pub is_complex: bool,
    /// True when broken font encodings were found.
    pub has_encoding_issues: bool,
    /// Why pages were flagged, sorted by page.
    pub ocr_reasons: Vec<PageOcrReasons>,
    /// Pages with table borders.
    pub pages_with_tables: Vec<u32>,
    /// Pages with two or more text columns.
    pub pages_with_columns: Vec<u32>,
}

/// An [`Analysis`] over sequences.
#[verifier::ext_equal]
pub ghost struct AnalysisModel {
    pub is_complex: bool,
    pub has_encoding_issues: bool,
    pub ocr_reasons: Seq<PageOcrReasonsModel>,
    pub pages_with_tables: Seq<u32>,
    pub pages_with_columns: Seq<u32>,
}

impl View for Analysis {
    type V = AnalysisModel;

    open spec fn view(&self) -> AnalysisModel {
        AnalysisModel {
            is_complex: self.is_complex,
            has_encoding_issues: self.has_encoding_issues,
            ocr_reasons: reason_models(self.ocr_reasons@),
            pages_with_tables: self.pages_with_tables@,
            pages_with_columns: self.pages_with_columns@,
        }
    }
}

impl AnalysisModel {
    /// What is known when the pass did not run, or failed.
    pub open spec fn unknown() -> AnalysisModel {
        AnalysisModel {
            is_complex: false,
            has_encoding_issues: false,
            ocr_reasons: Seq::empty(),
            pages_with_tables: Seq::empty(),
            pages_with_columns: Seq::empty(),
        }
    }

    /// What a pass that reported `layout` (or nothing) adds for a document of this length.
    pub open spec fn of(layout: Option<LayoutModel>, page_count: u32) -> AnalysisModel {
        match layout {
            Some(found) => AnalysisModel {
                is_complex: found.is_complex,
                has_encoding_issues: found.has_encoding_issues,
                ocr_reasons: normalized_reasons(found.flagged, page_count),
                pages_with_tables: normalized(found.pages_with_tables, page_count),
                pages_with_columns: normalized(found.pages_with_columns, page_count),
            },
            None => AnalysisModel::unknown(),
        }
    }

    /// Every list is in page order.
    pub open spec fn ordered(self) -> bool {
        &&& crate::order::in_key_order(self.ocr_reasons, reason_key())
        &&& increasing(self.pages_with_tables)
        &&& increasing(self.pages_with_columns)
    }
}

impl Default for Analysis {
    fn default() -> (r: Self)
        ensures
            r@ == AnalysisModel::unknown(),
            r@.ordered(),
    {
        let r = Analysis {
            is_complex: false,
            has_encoding_issues: false,
            ocr_reasons: Vec::new(),
            pages_with_tables: Vec::new(),
            pages_with_columns: Vec::new(),
        };
        assert(r@ =~= AnalysisModel::unknown());
        r
    }
}

/// What a pass that reported `layout` (or nothing) adds for a document of this length.
pub fn analysis_of(layout: Option<Layout>, page_count: u32) -> (r: Analysis)
    ensures
        r@ == AnalysisModel::of(layout_outcome(layout), page_count),
        r@.ordered(),
{
    match layout {
        Some(found) => {
            proof {
                crate::order::sorted_by_is_stable(
                    shifted(flagged_models(found.flagged@), page_count),
                    reason_key(),
                );
                kept_holds(
                    page_count as nat,
                    |p: u32| found.pages_with_tables@.contains((p + 1) as u32),
                );
                kept_holds(
                    page_count as nat,
                    |p: u32| found.pages_with_columns@.contains((p + 1) as u32),
                );
            }
            Analysis {
                is_complex: found.is_complex,
                has_encoding_issues: found.has_encoding_issues,
                ocr_reasons: normalize_ocr_reasons(&found.flagged, page_count),
                pages_with_tables: normalize_pages(&found.pages_with_tables, page_count),
                pages_with_columns: normalize_pages(&found.pages_with_columns, page_count),
            }
        },
        None => Analysis::default(),
    }
}

/// Run the analysis pass, or return [`Analysis::default`] if it fails.
///
/// A failure here is not fatal: detection already answered the questions the router cannot do
/// without, and everything this pass adds has a defined "not known" value.
pub fn analyze(bytes: &[u8], strategy: Strategy, ratio_threshold: u8, page_count: u32) -> (r:
    Analysis)
    ensures
        exists|layout: Option<LayoutModel>| #[trigger]
            may_analyze(bytes@, strategy, ratio_threshold, layout) && r@ == AnalysisModel::of(
                layout,
                page_count,
            ),
        r@.ordered(),
{
    let layout: Option<Layout> = analyze_layout(bytes, strategy, ratio_threshold);
    let ghost model = layout_outcome(layout);
    let r = analysis_of(layout, page_count);
    assert(may_analyze(bytes@, strategy, ratio_threshold, model));
    r
}

/// The markdown given for page `p`: the last one, should several be given.
pub open spec fn text_for(pages: Seq<PageTextModel>, p: int) -> Option<Seq<char>>
    decreases pages.len(),
{
    if pages.len() == 0 {
        None
    } else if pages.last().page == p {
        Some(pages.last().markdown)
    } else {
        text_for(pages.drop_last(), p)
    }
}

/// One text per page of the document; `None` where the extractor gave none.
pub open spec fn slots(extracted: Option<Seq<PageTextModel>>, page_count: u32) -> Seq<
    Option<Seq<char>>,
> {
    Seq::new(
        page_count as nat,
        |p: int|
            match extracted {
                Some(pages) => text_for(pages, p),
                None => None,
            },
    )
}

/// The characters of a list of optional texts.
pub open spec fn slot_models(texts: Seq<Option<String>>) -> Seq<Option<Seq<char>>> {
    texts.map_values(|t: Option<String>| opt_text(t))
}

/// One text per page of the document. A page the extractor did not return, and a whole
/// extraction that failed, both come back as `None`.
pub fn text_slots(extracted: Option<Vec<PageText>>, page_count: u32) -> (r: Vec<Option<String>>)
    ensures
        slot_models(r@) == slots(
            match extracted {
                Some(pages) => Some(page_texts_model(pages@)),
                None => None,
            },
            page_count,
        ),
{
    let mut out: Vec<Option<String>> = Vec::new();
    let mut page: u32 = 0;
    while page < page_count
        invariant
            page <= page_count,
            out@.len() == page,
            forall|i: int| 0 <= i < out@.len() ==> #[trigger] out@[i] is None,
        decreases page_count - page,
    {
        out.push(None);
        page += 1;
    }
    match extracted {
        Some(pages) => {
            let mut i: usize = 0;
            assert(slot_models(out@) =~= slots(
                Some(page_texts_model(pages@.take(0))),
                page_count,
            ));
            while i < pages.len()
                invariant
                    i <= pages@.len(),
                    out@.len() == page_count,
                    slot_models(out@) == slots(
                        Some(page_texts_model(pages@.take(i as int))),
                        page_count,
                    ),
                decreases pages@.len() - i,
            {
                let ghost before = out@;
                let ghost now = page_texts_model(pages@.take(i + 1));
                assert(now.drop_last() =~= page_texts_model(pages@.take(i as int)));
                assert(now.last() == pages@[i as int]@);
                let page: &PageText = &pages[i];
                if (page.page as usize) < out.len() {
                    out.set(page.page as usize, Some(page.markdown.clone()));
                }
                assert forall|p: int| 0 <= p < page_count implies #[trigger] slot_models(out@)[p]
                    == slots(Some(now), page_count)[p] by {
                    assert(slot_models(before)[p] == text_for(now.drop_last(), p));
                }
                assert(slot_models(out@) =~= slots(Some(now), page_count));
                i += 1;
            }
            assert(pages@.take(pages@.len() as int) =~= pages@);
        },
        None => {
            assert(slot_models(out@) =~= slots(None, page_count));
        },
    }
    out
}

/// `texts` is what a judge that asked for text may be given.
pub open spec fn may_give_texts(
    bytes: Seq<u8>,
    page_count: u32,
    texts: Seq<Option<Seq<char>>>,
) -> bool {
    ||| exists|pages: Seq<PageTextModel>| #[trigger]
        may_extract(bytes, None, Ok(pages)) && numbered_as_asked(None, pages) && texts == slots(
            Some(pages),
            page_count,
        )
    ||| exists|detail: Seq<char>| #[trigger]
        may_extract(bytes, None, Err(detail)) && texts == slots(None, page_count)
}

/// Extract every page's text for a judge that asked for it: exactly `page_count` entries.
pub fn page_texts(bytes: &[u8], page_count: u32) -> (r: Vec<Option<String>>)
    ensures
        may_give_texts(bytes@, page_count, slot_models(r@)),
{
    match extract_markdown(bytes, None) {
        Ok(pages) => {
            let ghost model = page_texts_model(pages@);
            let r = text_slots(Some(pages), page_count);
            assert(may_extract(bytes@, None, Ok(model)));
            r
        },
        Err(detail) => {
            assert(may_extract(bytes@, None, Err(detail@)));
            text_slots(None, page_count)
        },
    }
}

/// The reasons recorded for a page: those of its first entry, or none.
pub open spec fn reasons_for(reasons: Seq<PageOcrReasonsModel>, page: u32) -> Seq<Seq<char>>
    decreases reasons.len(),
{
    if reasons.len() == 0 {
        Seq::empty()
    } else if reasons[0].page == page {
        reasons[0].reasons
    } else {
        reasons_for(reasons.subrange(1, reasons.len() as int), page)
    }
}

proof fn reasons_for_at(reasons: Seq<PageOcrReasonsModel>, page: u32, at: int)
    requires
        0 <= at <= reasons.len(),
        forall|i: int| 0 <= i < at ==> (#[trigger] reasons[i]).page != page,
        at < reasons.len() ==> reasons[at].page == page,
    ensures
        reasons_for(reasons, page) == (if at < reasons.len() {
            reasons[at].reasons
        } else {
            Seq::empty()
        }),
    decreases reasons.len(),
{
    if at > 0 {
        let rest = reasons.subrange(1, reasons.len() as int);
        assert forall|i: int| 0 <= i < at - 1 implies (#[trigger] rest[i]).page != page by {
            assert(rest[i] == reasons[i + 1]);
        }
        assert(reasons[0].page != page);
        if at < reasons.len() {
            assert(rest[at - 1] == reasons[at]);
        }
        reasons_for_at(rest, page, at - 1);
    }
}

/// The reasons recorded for a page.
fn find_reasons(reasons: &Vec<PageOcrReasons>, page: u32) -> (r: Vec<String>)
    requires
        crate::order::in_key_order(reason_models(reasons@), reason_key()),
    ensures
        texts(r@) == reasons_for(reason_models(reasons@), page),
{
    let ghost models = reason_models(reasons@);
    let mut low: usize = 0;
    let mut high: usize = reasons.len();
    while low < high
        invariant
            low <= high <= reasons@.len(),
            models == reason_models(reasons@),
            crate::order::in_key_order(models, reason_key()),
            forall|i: int| 0 <= i < low ==> (#[trigger] models[i]).page < page,
            forall|i: int| high <= i < models.len() ==> (#[trigger] models[i]).page >= page,
        decreases high - low,
    {
        let mid: usize = low + (high - low) / 2;
        assert(models[mid as int].page == reasons@[mid as int].page);
        if reasons[mid].page < page {
            assert forall|i: int| 0 <= i < mid + 1 implies (#[trigger] models[i]).page < page by {
                if i < mid {
                    assert(reason_key()(models[i]) <= reason_key()(models[mid as int]));
                }
            }
            low = mid + 1;
        } else {
            assert forall|i: int| mid <= i < models.len() implies (#[trigger] models[i]).page
                >= page by {
                if mid < i {
                    assert(reason_key()(models[mid as int]) <= reason_key()(models[i]));
                }
            }
            high = mid;
        }
    }
    if low < reasons.len() && reasons[low].page == page {
        proof {
            assert(models[low as int].page == page);
            reasons_for_at(models, page, low as int);
        }
        clone_texts(&reasons[low].reasons)
    } else {
        proof {
            assert forall|i: int| 0 <= i < models.len() implies (#[trigger] models[i]).page
                != page by {
                if low < i {
                    assert(reason_key()(models[low as int]) <= reason_key()(models[i]));
                    assert(models[low as int].page == reasons@[low as int].page);
                } else if low == i {
                    assert(models[low as int].page == reasons@[low as int].page);
                }
            }
            reasons_for_at(models, page, models.len() as int);
        }
        let none: Vec<String> = Vec::new();
        assert(texts(none@) =~= Seq::empty());
        none
    }
}

/// What is known about page `p`.
pub open spec fn evidence_on(
    p: u32,
    inspector_pages: Seq<u32>,
    analysis: AnalysisModel,
    text: Option<Seq<char>>,
) -> PageEvidenceModel {
    PageEvidenceModel {
        page: p,
        text,
        reasons: reasons_for(analysis.ocr_reasons, p),
        flagged_by_inspector: inspector_pages.contains(p),
        has_tables: analysis.pages_with_tables.contains(p),
        has_columns: analysis.pages_with_columns.contains(p),
        has_encoding_issues: analysis.has_encoding_issues,
    }
}

/// The evidence on every page, in page order.
pub open spec fn evidence_list(
    inspector_pages: Seq<u32>,
    analysis: AnalysisModel,
    texts: Seq<Option<Seq<char>>>,
) -> Seq<PageEvidenceModel> {
    Seq::new(
        texts.len(),
        |i: int| evidence_on(i as u32, inspector_pages, analysis, texts[i]),
    )
}

/// Put together the evidence on every page, in page order.
pub fn gather_evidence(
    inspector_pages: &Vec<u32>,
    analysis: &Analysis,
    texts: &Vec<Option<String>>,
) -> (r: Vec<PageEvidence>)
    requires
        increasing(inspector_pages@),
        analysis@.ordered(),
        texts@.len() <= u32::MAX,
    ensures
        evidence_models(r@) == evidence_list(inspector_pages@, analysis@, slot_models(texts@)),
{
    let mut out: Vec<PageEvidence> = Vec::new();
    let mut i: usize = 0;
    let ghost all = evidence_list(inspector_pages@, analysis@, slot_models(texts@));
    assert(evidence_models(out@) =~= all.take(0));
    while i < texts.len()
        invariant
            i <= texts@.len() <= u32::MAX,
            increasing(inspector_pages@),
            analysis@.ordered(),
            all == evidence_list(inspector_pages@, analysis@, slot_models(texts@)),
            evidence_models(out@) == all.take(i as int),
        decreases texts@.len() - i,
    {
        let ghost before = out@;
        let page: u32 = i as u32;
        let entry = PageEvidence {
            page,
            text: crate::text::clone_opt_text(&texts[i]),
            reasons: find_reasons(&analysis.ocr_reasons, page),
            flagged_by_inspector: holds_page(inspector_pages, page),
            has_tables: holds_page(&analysis.pages_with_tables, page),
            has_columns: holds_page(&analysis.pages_with_columns, page),
            has_encoding_issues: analysis.has_encoding_issues,
        };
        assert(slot_models(texts@)[i as int] == opt_text(texts@[i as int]));
        assert(entry@ == all[i as int]);
        out.push(entry);
        assert(evidence_models(out@) =~= evidence_models(before).push(entry@));
        assert(all.take(i + 1) =~= all.take(i as int).push(all[i as int]));
        i += 1;
    }
    assert(all.take(texts@.len() as int) =~= all);
    out
}

/// What is wrong with the verdicts from position `i` on, as a sentence: the first verdict
/// that names a page past the end, or another page than the one it should answer.
pub open spec fn verdict_fault(
    judge: Seq<char>,
    evidence: Seq<PageEvidenceModel>,
    verdicts: Seq<PageVerdictModel>,
    page_count: u32,
    i: int,
) -> Option<Seq<char>>
    decreases verdicts.len() - i,
{
    if i < 0 || i >= verdicts.len() {
        None
    } else if verdicts[i].page >= page_count {
        Some(
            "judge `"@ + judge + "` returned a verdict for page "@ + decimal(
                verdicts[i].page as nat,
            ) + " of a "@ + decimal(page_count as nat) + "-page document"@,
        )
    } else if verdicts[i].page != evidence[i].page {
        Some(
            "judge `"@ + judge + "` returned a verdict for page "@ + decimal(
                verdicts[i].page as nat,
            ) + " where page "@ + decimal(evidence[i].page as nat) + " was expected"@,
        )
    } else {
        verdict_fault(judge, evidence, verdicts, page_count, i + 1)
    }
}

/// The pages some verdict sends to OCR, in increasing order.
pub open spec fn wanted_pages(verdicts: Seq<PageVerdictModel>, page_count: u32) -> Seq<u32> {
    kept(
        page_count as nat,
        |p: u32|
            exists|i: int|
                0 <= i < verdicts.len() && (#[trigger] verdicts[i]).page == p
                    && verdicts[i].needs_ocr,
    )
}

/// The page list a judge's verdicts stand for, or why they are not usable.
pub open spec fn ruled_pages(
    judge: Seq<char>,
    evidence: Seq<PageEvidenceModel>,
    verdicts: Seq<PageVerdictModel>,
    page_count: u32,
) -> Result<Seq<u32>, ErrorModel> {
    if verdicts.len() != evidence.len() {
        Err(
            ErrorModel::Judge(
                "judge `"@ + judge + "` returned "@ + decimal(verdicts.len()) + " verdict(s) for "@
                    + decimal(evidence.len()) + " page(s)"@,
            ),
        )
    } else {
        match verdict_fault(judge, evidence, verdicts, page_count, 0) {
            Some(fault) => Err(ErrorModel::Judge(fault)),
            None => Ok(wanted_pages(verdicts, page_count)),
        }
    }
}

/// The model of a page list or an error.
pub open spec fn pages_outcome(r: Result<Vec<u32>, Error>) -> Result<Seq<u32>, ErrorModel> {
    match r {
        Ok(pages) => Ok(pages@),
        Err(error) => Err(error@),
    }
}

/// Turn a judge's verdicts into a page list, or say why they are not usable.
///
/// The contract is one verdict per page in page order, and it is checked rather than assumed:
/// a short list would silently drop pages from the document and a stray page number would
/// route bytes that do not exist.
pub fn pages_from_verdicts(
    judge: &str,
    evidence: &[PageEvidence],
    verdicts: &[PageVerdict],
    page_count: u32,
) -> (r: Result<Vec<u32>, Error>)
    ensures
        pages_outcome(r) == ruled_pages(
            judge@,
            evidence_models(evidence@),
            verdict_models(verdicts@),
            page_count,
        ),
{
    let ghost e = evidence_models(evidence@);
    let ghost v = verdict_models(verdicts@);
    if verdicts.len() != evidence.len() {
        let mut text: String = "judge `".to_owned();
        text.append(judge);
        text.append("` returned ");
        push_decimal(&mut text, verdicts.len() as u64);
        text.append(" verdict(s) for ");
        push_decimal(&mut text, evidence.len() as u64);
        text.append(" page(s)");
        return Err(Error::Judge(text));
    }
    let mut i: usize = 0;
    while i < verdicts.len()
        invariant
            i <= verdicts@.len() == evidence@.len(),
            e == evidence_models(evidence@),
            v == verdict_models(verdicts@),
            verdict_fault(judge@, e, v, page_count, 0) == verdict_fault(
                judge@,
                e,
                v,
                page_count,
                i as int,
            ),
            forall|k: int| 0 <= k < i ==> (#[trigger] v[k]).page < page_count,
        decreases verdicts@.len() - i,
    {
        assert(v[i as int] == verdicts@[i as int]@);
        assert(e[i as int] == evidence@[i as int]@);
        let page: u32 = verdicts[i].page;
        if page >= page_count {
            let mut text: String = "judge `".to_owned();
            text.append(judge);
            text.append("` returned a verdict for page ");
            push_decimal(&mut text, page as u64);
            text.append(" of a ");
            push_decimal(&mut text, page_count as u64);
            text.append("-page document");
            return Err(Error::Judge(text));
        }
        if page != evidence[i].page {
            let mut text: String = "judge `".to_owned();
            text.append(judge);
            text.append("` returned a verdict for page ");
            push_decimal(&mut text, page as u64);
            text.append(" where page ");
            push_decimal(&mut text, evidence[i].page as u64);
            text.append(" was expected");
            return Err(Error::Judge(text));
        }
        i += 1;
    }
    let mut pages: Vec<u32> = Vec::new();
    let mut i: usize = 0;
    while i < verdicts.len()
        invariant
            i <= verdicts@.len(),
            v == verdict_models(verdicts@),
            forall|k: int| 0 <= k < v.len() ==> (#[trigger] v[k]).page < page_count,
            increasing(pages@),
            forall|p: u32| #[trigger]
                pages@.contains(p) <==> exists|k: int|
                    0 <= k < i && (#[trigger] v[k]).page == p && v[k].needs_ocr,
        decreases verdicts@.len() - i,
    {
        assert(v[i as int] == verdicts@[i as int]@);
        if verdicts[i].needs_ocr {
            insert_page(&mut pages, verdicts[i].page);
        }
        i += 1;
    }
    proof {
        let keep = |p: u32|
            exists|k: int| 0 <= k < v.len() && (#[trigger] v[k]).page == p && v[k].needs_ocr;
        kept_holds(page_count as nat, keep);
        increasing_fixed_by_contents(pages@, kept(page_count as nat, keep));
    }
    Ok(pages)
}

/// The text-page ratio at which the inspector's own erasing step is reachable only when there
/// is nothing to erase.
///
/// Below 1 the inspector labels a document text-based once enough pages carry text, and then
/// throws its per-page list away for exactly that label. At 1 every page has text before that
/// happens, so the list that comes back is the list that was measured.
pub const TEXT_PAGE_RATIO_THRESHOLD: u8 = 1;

/// Whether the analysis pass runs: not for a document whose every page is an image.
///
/// This has to be settled before the judge speaks, so it turns on the label the page list
/// arrives with, not the one it leaves with.
pub open spec fn analysis_due(detection: DetectionModel) -> bool {
    let arriving = label(
        detection.pdf_type,
        normalized(detection.pages_needing_ocr, detection.page_count),
        detection.page_count,
    );
    arriving != PdfType::Scanned && arriving != PdfType::ImageBased
}

/// The classification a document gets from its detection, its analysis, the evidence put to
/// the judge, and the judge's answer.
pub open spec fn concluded(
    judge: Seq<char>,
    detection: DetectionModel,
    analysis: AnalysisModel,
    evidence: Seq<PageEvidenceModel>,
    answer: Result<Seq<PageVerdictModel>, ErrorModel>,
    classify_nanos: u64,
) -> Result<ClassificationModel, ErrorModel> {
    match answer {
        Err(error) => Err(error),
        Ok(verdicts) => match ruled_pages(judge, evidence, verdicts, detection.page_count) {
            Err(error) => Err(error),
            Ok(pages) => Ok(
                ClassificationModel {
                    pdf_type: label(detection.pdf_type, pages, detection.page_count),
                    confidence: if detection.confidence.finite() {
                        detection.confidence
                    } else {
                        Real32::spec_zero()
                    },
                    page_count: detection.page_count,
                    pages_needing_ocr: pages,
                    is_complex_layout: analysis.is_complex,
                    has_encoding_issues: analysis.has_encoding_issues,
                    ocr_reasons: analysis.ocr_reasons,
                    classify_nanos,
                },
            ),
        },
    }
}

/// The model of a classification or an error.
pub open spec fn classification_outcome(r: Result<Classification, Error>) -> Result<
    ClassificationModel,
    ErrorModel,
> {
    match r {
        Ok(classification) => Ok(classification@),
        Err(error) => Err(error@),
    }
}

/// Draw the classification from the judge's verdicts. The label is a summary of the page list
/// the judge left, so a judge that moves pages moves the label with them.
pub fn conclude(
    judge: &str,
    detection: &Detection,
    analysis: Analysis,
    evidence: &[PageEvidence],
    verdicts: &[PageVerdict],
    classify_nanos: u64,
) -> (r: Result<Classification, Error>)
    ensures
        classification_outcome(r) == concluded(
            judge@,
            detection@,
            analysis@,
            evidence_models(evidence@),
            Ok(verdict_models(verdicts@)),
            classify_nanos,
        ),
{
    let page_count: u32 = detection.page_count;
    match pages_from_verdicts(judge, evidence, verdicts, page_count) {
        Err(error) => Err(error),
        Ok(pages) => {
            let pdf_type: PdfType = label_from_pages(detection.pdf_type, &pages, page_count);
            Ok(
                Classification {
                    pdf_type,
                    confidence: if detection.confidence.is_finite() {
                        detection.confidence
                    } else {
                        Real32::zero()
                    },
                    page_count,
                    pages_needing_ocr: pages,
                    is_complex_layout: analysis.is_complex,
                    has_encoding_issues: analysis.has_encoding_issues,
                    ocr_reasons: analysis.ocr_reasons,
                    classify_nanos,
                },
            )
        },
    }
}

/// `analysis` is what the classifier may know about the layout of a document with this
/// detection: unknown when the pass is not due, else what one pass may report.
pub open spec fn may_know(
    bytes: Seq<u8>,
    detection: DetectionModel,
    analysis: AnalysisModel,
) -> bool {
    if analysis_due(detection) {
        exists|layout: Option<LayoutModel>| #[trigger]
            may_analyze(bytes, Strategy::Full, TEXT_PAGE_RATIO_THRESHOLD, layout) && analysis
                == AnalysisModel::of(layout, detection.page_count)
    } else {
        analysis == AnalysisModel::unknown()
    }
}

/// `texts` is what a judge may be given: nothing on any page unless it asked.
pub open spec fn may_hand_over(
    bytes: Seq<u8>,
    page_count: u32,
    asked: bool,
    texts: Seq<Option<Seq<char>>>,
) -> bool {
    if asked {
        may_give_texts(bytes, page_count, texts)
    } else {
        texts == slots(None, page_count)
    }
}

/// `out` is a classification these bytes may get from one detection report.
pub open spec fn may_conclude<J: PageJudge + ?Sized>(
    bytes: Seq<u8>,
    judge: &J,
    detection: DetectionModel,
    analysis: AnalysisModel,
    texts: Seq<Option<Seq<char>>>,
    answer: Result<Seq<PageVerdictModel>, ErrorModel>,
    out: Result<ClassificationModel, ErrorModel>,
) -> bool {
    let evidence = evidence_list(
        normalized(detection.pages_needing_ocr, detection.page_count),
        analysis,
        texts,
    );
    &&& may_know(bytes, detection, analysis)
    &&& may_hand_over(bytes, detection.page_count, judge.wants_text(), texts)
    &&& judge.may_answer(evidence, answer)
    &&& exists|nanos: u64|
        out == #[trigger] concluded(
            judge.identifier(),
            detection,
            analysis,
            evidence,
            answer,
            nanos,
        )
}

/// `out` is something [`classify_with`] may return: the two gates in order, then what one
/// detection report, one analysis, one set of texts and one answer of the judge lead to.
pub open spec fn may_classify<J: PageJudge + ?Sized>(
    bytes: Seq<u8>,
    judge: &J,
    out: Result<ClassificationModel, ErrorModel>,
) -> bool {
    if !pdf_magic(bytes) {
        out == Err::<ClassificationModel, ErrorModel>(ErrorModel::NotPdf)
    } else {
        ||| exists|detail: Seq<char>| #[trigger]
            may_detect(bytes, Strategy::Full, TEXT_PAGE_RATIO_THRESHOLD, Err(detail)) && out == Err::<
                ClassificationModel,
                ErrorModel,
            >(ErrorModel::Pdf(detail))
        ||| exists|
            detection: DetectionModel,
            analysis: AnalysisModel,
            texts: Seq<Option<Seq<char>>>,
            answer: Result<Seq<PageVerdictModel>, ErrorModel>,
        |
            may_detect(bytes, Strategy::Full, TEXT_PAGE_RATIO_THRESHOLD, Ok(detection))
                && #[trigger] may_conclude(bytes, judge, detection, analysis, texts, answer, out)
    }
}

/// Classify raw PDF bytes.
///
/// Every page is looked at ([`Strategy::Full`]): a sample would describe a document that does
/// not exist. Detection supplies the confidence, the page count and the page list; the
/// analysis pass, with the same options, supplies layout, encodings and reasons, and is
/// skipped for documents the inspector would short-circuit anyway; text is extracted only for
/// a judge that asks. The per-page decision itself is the judge's.
///
/// Errors when the bytes are not a PDF, when they cannot be read as one, and when the judge
/// fails or breaks its contract.
pub fn classify_with<J: PageJudge + ?Sized>(bytes: &[u8], judge: &J) -> (r: Result<Classification, Error>)
    ensures
        may_classify(bytes@, judge, classification_outcome(r)),
{
    match classify_judged(bytes, judge) {
        Ok((classification, _verdicts)) => Ok(classification),
        Err(error) => Err(error),
    }
}

/// The classification of a judged document, without its verdicts.
pub open spec fn judged_outcome(r: Result<(Classification, Vec<PageVerdict>), Error>) -> Result<
    ClassificationModel,
    ErrorModel,
> {
    match r {
        Ok((classification, _verdicts)) => Ok(classification@),
        Err(error) => Err(error@),
    }
}

/// `out` is a classification these bytes may get from these verdicts of the judge.
pub open spec fn may_follow<J: PageJudge + ?Sized>(
    bytes: Seq<u8>,
    judge: &J,
    verdicts: Seq<PageVerdictModel>,
    out: ClassificationModel,
) -> bool {
    exists|
        detection: DetectionModel,
        analysis: AnalysisModel,
        texts: Seq<Option<Seq<char>>>,
    | #[trigger]
        may_conclude(bytes, judge, detection, analysis, texts, Ok(verdicts), Ok(out))
}

/// [`classify_with`], with the verdicts the classification was drawn from.
pub fn classify_judged<J: PageJudge + ?Sized>(bytes: &[u8], judge: &J) -> (r: Result<
    (Classification, Vec<PageVerdict>),
    Error,
>)
    ensures
        may_classify(bytes@, judge, judged_outcome(r)),
        r is Ok ==> may_follow(bytes@, judge, verdict_models(r->Ok_0.1@), r->Ok_0.0@),
{
    let start = crate::clock::now();
    if !is_pdf(bytes) {
        return Err(Error::NotPdf);
    }
    let detection: Detection = match detect(bytes, Strategy::Full, TEXT_PAGE_RATIO_THRESHOLD) {
        Ok(found) => found,
        Err(detail) => {
            assert(may_detect(bytes@, Strategy::Full, TEXT_PAGE_RATIO_THRESHOLD, Err(detail@)));
            return Err(Error::Pdf(detail));
        },
    };
    let page_count: u32 = detection.page_count;
    let inspector_pages: Vec<u32> = normalize_pages(&detection.pages_needing_ocr, page_count);
    proof {
        kept_holds(
            page_count as nat,
            |p: u32| detection.pages_needing_ocr@.contains((p + 1) as u32),
        );
    }
    let arriving: PdfType = label_from_pages(detection.pdf_type, &inspector_pages, page_count);
    let analysis: Analysis = match arriving {
        PdfType::Scanned => Analysis::default(),
        PdfType::ImageBased => Analysis::default(),
        _ => analyze(bytes, Strategy::Full, TEXT_PAGE_RATIO_THRESHOLD, page_count),
    };
    let texts: Vec<Option<String>> = if judge.needs_text() {
        page_texts(bytes, page_count)
    } else {
        text_slots(None, page_count)
    };
    let ghost texts_model = slot_models(texts@);
    let ghost analysis_model = analysis@;
    assert(slot_models(texts@).len() == page_count);
    let evidence: Vec<PageEvidence> = gather_evidence(&inspector_pages, &analysis, &texts);
    let ghost evidence_model = evidence_models(evidence@);
    match judge.judge(evidence.as_slice()) {
        Err(error) => {
            proof {
                let answer = Err::<Seq<PageVerdictModel>, ErrorModel>(error@);
                let out = Err::<ClassificationModel, ErrorModel>(error@);
                assert(out == concluded(
                    judge.identifier(),
                    detection@,
                    analysis_model,
                    evidence_model,
                    answer,
                    0,
                ));
                assert(may_conclude(
                    bytes@,
                    judge,
                    detection@,
                    analysis_model,
                    texts_model,
                    answer,
                    out,
                ));
            }
            Err(error)
        },
        Ok(verdicts) => {
            let nanos: u64 = crate::clock::nanos_since(&start);
            let concluded_so = conclude(
                judge.name(),
                &detection,
                analysis,
                evidence.as_slice(),
                verdicts.as_slice(),
                nanos,
            );
            let ghost out = classification_outcome(concluded_so);
            proof {
                let answer = Ok::<Seq<PageVerdictModel>, ErrorModel>(verdict_models(verdicts@));
                assert(out == concluded(
                    judge.identifier(),
                    detection@,
                    analysis_model,
                    evidence_model,
                    answer,
                    nanos,
                ));
                assert(may_conclude(
                    bytes@,
                    judge,
                    detection@,
                    analysis_model,
                    texts_model,
                    answer,
                    out,
                ));
            }
            match concluded_so {
                Ok(classification) => Ok((classification, verdicts)),
                Err(error) => Err(error),
            }
        },
    }
}

/// Classify raw PDF bytes with the default page judge, the inspector's own page list taken as
/// the answer.
pub fn classify(bytes: &[u8]) -> (r: Result<Classification, Error>)
    ensures
        may_classify(bytes@, &HeuristicJudge, classification_outcome(r)),
{
    classify_with(bytes, &HeuristicJudge)
}

/// A page list a judge's verdicts stand for is strictly increasing and in range.
pub proof fn ruled_pages_are_in_range(
    judge: Seq<char>,
    evidence: Seq<PageEvidenceModel>,
    verdicts: Seq<PageVerdictModel>,
    page_count: u32,
)
    requires
        ruled_pages(judge, evidence, verdicts, page_count) is Ok,
    ensures
        increasing(ruled_pages(judge, evidence, verdicts, page_count)->Ok_0),
        forall|i: int|
            0 <= i < ruled_pages(judge, evidence, verdicts, page_count)->Ok_0.len()
                ==> #[trigger] ruled_pages(judge, evidence, verdicts, page_count)->Ok_0[i]
                < page_count,
        ruled_pages(judge, evidence, verdicts, page_count)->Ok_0.len() <= page_count,
{
    kept_holds(
        page_count as nat,
        |p: u32|
            exists|i: int|
                0 <= i < verdicts.len() && (#[trigger] verdicts[i]).page == p
                    && verdicts[i].needs_ocr,
    );
}

/// Whatever the inspector and the judge say, a classification that comes out is well formed:
/// its page list is strictly increasing and in range, its confidence is finite, and its label
/// is the summary of that list.
pub proof fn classification_is_well_formed<J: PageJudge + ?Sized>(
    bytes: Seq<u8>,
    judge: &J,
    out: ClassificationModel,
)
    requires
        may_classify(bytes, judge, Ok(out)),
    ensures
        out.well_formed(),
        out.confidence.finite(),
        out.page_count > 0 && out.pages_needing_ocr.len() == 0 ==> out.pdf_type
            == PdfType::TextBased,
        0 < out.pages_needing_ocr.len() < out.page_count ==> out.pdf_type == PdfType::Mixed,
{
    let (detection, analysis, texts, answer) = choose|
        detection: DetectionModel,
        analysis: AnalysisModel,
        texts: Seq<Option<Seq<char>>>,
        answer: Result<Seq<PageVerdictModel>, ErrorModel>,
    |
        may_detect(bytes, Strategy::Full, TEXT_PAGE_RATIO_THRESHOLD, Ok(detection))
            && #[trigger] may_conclude(bytes, judge, detection, analysis, texts, answer, Ok(out));
    let evidence = evidence_list(
        normalized(detection.pages_needing_ocr, detection.page_count),
        analysis,
        texts,
    );
    ruled_pages_are_in_range(judge.identifier(), evidence, answer->Ok_0, detection.page_count);
}

proof fn evidence_has_no_fault(
    judge: Seq<char>,
    evidence: Seq<PageEvidenceModel>,
    verdicts: Seq<PageVerdictModel>,
    page_count: u32,
    i: int,
)
    requires
        0 <= i,
        verdicts.len() == evidence.len(),
        forall|k: int|
            0 <= k < verdicts.len() ==> (#[trigger] verdicts[k]).page == evidence[k].page
                && verdicts[k].page < page_count,
    ensures
        verdict_fault(judge, evidence, verdicts, page_count, i) is None,
    decreases verdicts.len() - i,
{
    if i < verdicts.len() {
        assert(verdicts[i].page == evidence[i].page);
        evidence_has_no_fault(judge, evidence, verdicts, page_count, i + 1);
    }
}

/// `out` carries a detection's page count, its page list normalised, its confidence where that
/// is a number, and the label that summarises the list.
pub open spec fn reports(detection: DetectionModel, out: ClassificationModel) -> bool {
    let pages = normalized(detection.pages_needing_ocr, detection.page_count);
    &&& out.page_count == detection.page_count
    &&& out.pages_needing_ocr == pages
    &&& out.pdf_type == label(detection.pdf_type, pages, detection.page_count)
    &&& detection.confidence.finite() ==> out.confidence == detection.confidence
}

/// `out` carries an analysis's layout and encodings exactly: `layout` is what the pass reported,
/// where it ran and did not fail, and nothing is complex or broken where it did not. The pass is
/// left out only for a document reported as images whose every page is flagged.
pub open spec fn reports_layout(
    bytes: Seq<u8>,
    detection: DetectionModel,
    layout: Option<LayoutModel>,
    out: ClassificationModel,
) -> bool {
    let all_images = (detection.pdf_type == PdfType::Scanned || detection.pdf_type
        == PdfType::ImageBased) && forall|p: int|
        0 <= p < detection.page_count ==> detection.pages_needing_ocr.contains(
            #[trigger] ((p + 1) as u32),
        );
    &&& all_images ==> layout is None
    &&& !all_images ==> may_analyze(bytes, Strategy::Full, 1, layout)
    &&& out.is_complex_layout <==> layout is Some && layout->0.is_complex
    &&& out.has_encoding_issues <==> layout is Some && layout->0.has_encoding_issues
}

/// With the default judge the page list is the inspector's own, normalised: the judge moves no
/// page.
pub proof fn default_judge_keeps_the_inspectors_pages(
    detection: DetectionModel,
    analysis: AnalysisModel,
    texts: Seq<Option<Seq<char>>>,
)
    requires
        texts.len() == detection.page_count,
    ensures
        ({
            let pages = normalized(detection.pages_needing_ocr, detection.page_count);
            let evidence = evidence_list(pages, analysis, texts);
            ruled_pages(
                "heuristic"@,
                evidence,
                crate::judge::heuristic_verdicts(evidence),
                detection.page_count,
            ) == Ok::<Seq<u32>, ErrorModel>(pages)
        }),
{
    let count = detection.page_count;
    let pages = normalized(detection.pages_needing_ocr, count);
    let evidence = evidence_list(pages, analysis, texts);
    let verdicts = crate::judge::heuristic_verdicts(evidence);
    assert forall|k: int| 0 <= k < verdicts.len() implies (#[trigger] verdicts[k]).page
        == evidence[k].page && verdicts[k].page < count by {
        assert(evidence[k].page == k as u32);
    }
    evidence_has_no_fault("heuristic"@, evidence, verdicts, count, 0);
    let keep = |p: u32|
        exists|i: int|
            0 <= i < verdicts.len() && (#[trigger] verdicts[i]).page == p && verdicts[i].needs_ocr;
    kept_holds(count as nat, keep);
    kept_holds(count as nat, |p: u32| detection.pages_needing_ocr.contains((p + 1) as u32));
    assert forall|p: u32| kept(count as nat, keep).contains(p) <==> pages.contains(p) by {
        if p < count {
            assert(verdicts[p as int].page == p);
            assert(verdicts[p as int].needs_ocr == pages.contains(p));
        }
    }
    increasing_fixed_by_contents(kept(count as nat, keep), pages);
}

/// With the default judge a document that the inspector reads is always classified, and the
/// classification is the inspector's report: its page count, its page list normalised, the label
/// that summarises that list, and the layout and the encodings its analysis reported.
pub proof fn default_classification_is_the_inspectors(
    bytes: Seq<u8>,
    out: Result<ClassificationModel, ErrorModel>,
)
    requires
        pdf_magic(bytes),
        may_classify(bytes, &HeuristicJudge, out),
    ensures
        ({
            ||| exists|detail: Seq<char>| #[trigger]
                may_detect(bytes, Strategy::Full, TEXT_PAGE_RATIO_THRESHOLD, Err(detail)) && out
                    == Err::<ClassificationModel, ErrorModel>(ErrorModel::Pdf(detail))
            ||| exists|detection: DetectionModel| #[trigger]
                may_detect(bytes, Strategy::Full, TEXT_PAGE_RATIO_THRESHOLD, Ok(detection)) && out
                    is Ok && reports(detection, out->Ok_0) && exists|layout: Option<LayoutModel>|
                    #[trigger] reports_layout(bytes, detection, layout, out->Ok_0)
        }),
{
    let unreadable = exists|detail: Seq<char>| #[trigger]
        may_detect(bytes, Strategy::Full, TEXT_PAGE_RATIO_THRESHOLD, Err(detail)) && out == Err::<
            ClassificationModel,
            ErrorModel,
        >(ErrorModel::Pdf(detail));
    if !unreadable {
        let (detection, analysis, texts, answer) = choose|
            detection: DetectionModel,
            analysis: AnalysisModel,
            texts: Seq<Option<Seq<char>>>,
            answer: Result<Seq<PageVerdictModel>, ErrorModel>,
        |
            may_detect(bytes, Strategy::Full, TEXT_PAGE_RATIO_THRESHOLD, Ok(detection))
                && #[trigger] may_conclude(
                bytes,
                &HeuristicJudge,
                detection,
                analysis,
                texts,
                answer,
                out,
            );
        default_judge_keeps_the_inspectors_pages(detection, analysis, texts);
        assert(reports(detection, out->Ok_0));
        analysis_is_due_unless_all_images(detection);
        let layout = if analysis_due(detection) {
            choose|layout: Option<LayoutModel>| #[trigger]
                may_analyze(bytes, Strategy::Full, TEXT_PAGE_RATIO_THRESHOLD, layout) && analysis
                    == AnalysisModel::of(layout, detection.page_count)
        } else {
            None
        };
        assert(reports_layout(bytes, detection, layout, out->Ok_0));
    }
}

/// A 1-indexed page list, normalised, holds exactly the pages below the page count whose
/// successors are on it, in increasing order.
pub proof fn normalized_pages_are_the_numbered_ones(raw: Seq<u32>, page_count: u32)
    ensures
        increasing(normalized(raw, page_count)),
        forall|p: u32| #[trigger]
            normalized(raw, page_count).contains(p) <==> p < page_count && raw.contains(
                (p + 1) as u32,
            ),
{
    kept_holds(page_count as nat, |p: u32| raw.contains((p + 1) as u32));
}

/// Where the shifted entries came from: positions of the flagged pages that exist, in order.
proof fn shifted_come_from(raw: Seq<FlaggedPageModel>, page_count: u32) -> (from: Seq<int>)
    ensures
        from.len() == shifted(raw, page_count).len(),
        forall|i: int|
            0 <= i < from.len() ==> 0 <= #[trigger] from[i] < raw.len() && 1 <= raw[from[i]].page
                <= page_count && shifted(raw, page_count)[i].page == raw[from[i]].page - 1
                && shifted(raw, page_count)[i].reasons == raw[from[i]].reasons,
        forall|k: int|
            0 <= k < raw.len() && 1 <= (#[trigger] raw[k]).page <= page_count ==> from.contains(k),
        forall|i: int, j: int|
            0 <= i < j < from.len() ==> #[trigger] from[i] < #[trigger] from[j],
    decreases raw.len(),
{
    if raw.len() == 0 {
        Seq::empty()
    } else {
        let rest = raw.drop_last();
        let n = rest.len() as int;
        let before = shifted_come_from(rest, page_count);
        let keeps = 1 <= raw.last().page <= page_count;
        let from = if keeps {
            before.push(n)
        } else {
            before
        };
        assert forall|i: int| 0 <= i < from.len() implies 0 <= #[trigger] from[i] < raw.len() && 1
            <= raw[from[i]].page <= page_count && shifted(raw, page_count)[i].page
            == raw[from[i]].page - 1 && shifted(raw, page_count)[i].reasons
            == raw[from[i]].reasons by {
            if i < before.len() {
                assert(from[i] == before[i]);
                assert(rest[before[i]] == raw[before[i]]);
                assert(shifted(raw, page_count)[i] == shifted(rest, page_count)[i]);
            }
        }
        assert forall|k: int|
            0 <= k < raw.len() && 1 <= (#[trigger] raw[k]).page <= page_count implies from.contains(
            k,
        ) by {
            if k < n {
                assert(rest[k] == raw[k]);
                assert(before.contains(k));
                let i = choose|i: int| 0 <= i < before.len() && before[i] == k;
                assert(from[i] == k);
            } else {
                assert(from[before.len() as int] == k);
            }
        }
        assert forall|i: int, j: int| 0 <= i < j < from.len() implies #[trigger] from[i]
            < #[trigger] from[j] by {
            assert(from[i] == before[i]);
            if j < before.len() {
                assert(from[j] == before[j]);
            }
        }
        from
    }
}

/// The flagged pages of a report that exist come out under the number before their own, each
/// with its own reasons, sorted by page; entries for one page stay in the order they came in.
///
/// The origins say which entry of the report each one is.
pub proof fn reasons_are_the_reports_own(raw: Seq<FlaggedPageModel>, page_count: u32) -> (origins:
    Seq<int>)
    ensures
        origins.len() == normalized_reasons(raw, page_count).len(),
        forall|i: int|
            0 <= i < origins.len() ==> 0 <= #[trigger] origins[i] < raw.len() && 1
                <= raw[origins[i]].page <= page_count && normalized_reasons(raw, page_count)[i].page
                == raw[origins[i]].page - 1 && normalized_reasons(raw, page_count)[i].reasons
                == raw[origins[i]].reasons,
        forall|k: int|
            0 <= k < raw.len() && 1 <= (#[trigger] raw[k]).page <= page_count ==> origins.contains(
                k,
            ),
        forall|i: int, j: int|
            0 <= i < j < origins.len() ==> raw[#[trigger] origins[i]].page
                < raw[#[trigger] origins[j]].page || (raw[origins[i]].page == raw[origins[j]].page
                && origins[i] < origins[j]),
{
    let entries = shifted(raw, page_count);
    let from = shifted_come_from(raw, page_count);
    let places = crate::order::sorted_by_rearranges(entries, reason_key());
    let out = normalized_reasons(raw, page_count);
    let origins = Seq::new(places.len(), |i: int| from[places[i]]);
    assert forall|i: int| 0 <= i < origins.len() implies 0 <= #[trigger] origins[i] < raw.len() && 1
        <= raw[origins[i]].page <= page_count && out[i].page == raw[origins[i]].page - 1
        && out[i].reasons == raw[origins[i]].reasons by {
        assert(origins[i] == from[places[i]]);
        assert(out[i] == entries[places[i]]);
    }
    assert forall|k: int|
        0 <= k < raw.len() && 1 <= (#[trigger] raw[k]).page <= page_count implies origins.contains(
        k,
    ) by {
        assert(from.contains(k));
        let n = choose|n: int| 0 <= n < from.len() && from[n] == k;
        assert(places.contains(n));
        let i = choose|i: int| 0 <= i < places.len() && places[i] == n;
        assert(origins[i] == k);
    }
    assert forall|i: int, j: int| 0 <= i < j < origins.len() implies raw[#[trigger] origins[i]].page
        < raw[#[trigger] origins[j]].page || (raw[origins[i]].page == raw[origins[j]].page
        && origins[i] < origins[j]) by {
        assert(origins[i] == from[places[i]] && origins[j] == from[places[j]]);
        assert(reason_key()(entries[places[i]]) == entries[places[i]].page);
        assert(reason_key()(entries[places[j]]) == entries[places[j]].page);
    }
    origins
}

/// The reasons put before the judge on page `p` are those a report gives the page first, or none
/// when it gives none.
pub open spec fn first_reasons(
    flagged: Seq<FlaggedPageModel>,
    p: int,
    reasons: Seq<Seq<char>>,
) -> bool {
    ||| exists|k: int|
        0 <= k < flagged.len() && (#[trigger] flagged[k]).page == p + 1 && reasons
            == flagged[k].reasons && (forall|i: int|
            0 <= i < k ==> (#[trigger] flagged[i]).page != p + 1)
    ||| reasons.len() == 0 && forall|k: int|
        0 <= k < flagged.len() ==> (#[trigger] flagged[k]).page != p + 1
}

proof fn reasons_for_is_the_first(reasons: Seq<PageOcrReasonsModel>, page: u32)
    ensures
        ({
            ||| exists|at: int|
                0 <= at < reasons.len() && (#[trigger] reasons[at]).page == page && reasons_for(
                    reasons,
                    page,
                ) == reasons[at].reasons && (forall|i: int|
                    0 <= i < at ==> (#[trigger] reasons[i]).page != page)
            ||| reasons_for(reasons, page).len() == 0 && forall|i: int|
                0 <= i < reasons.len() ==> (#[trigger] reasons[i]).page != page
        }),
    decreases reasons.len(),
{
    if reasons.len() > 0 && reasons[0].page != page {
        let rest = reasons.subrange(1, reasons.len() as int);
        reasons_for_is_the_first(rest, page);
        if forall|i: int| 0 <= i < rest.len() ==> (#[trigger] rest[i]).page != page {
            assert forall|i: int| 0 <= i < reasons.len() implies (#[trigger] reasons[i]).page
                != page by {
                if i > 0 {
                    assert(rest[i - 1] == reasons[i]);
                }
            }
        } else {
            let at = choose|at: int|
                0 <= at < rest.len() && (#[trigger] rest[at]).page == page && reasons_for(
                    rest,
                    page,
                ) == rest[at].reasons && (forall|i: int|
                    0 <= i < at ==> (#[trigger] rest[i]).page != page);
            assert(reasons[at + 1] == rest[at]);
            assert forall|i: int| 0 <= i < at + 1 implies (#[trigger] reasons[i]).page != page by {
                if i > 0 {
                    assert(rest[i - 1] == reasons[i]);
                }
            }
        }
    }
}

proof fn reasons_on_a_page(flagged: Seq<FlaggedPageModel>, page_count: u32, page: u32)
    requires
        page < page_count,
    ensures
        first_reasons(flagged, page as int, reasons_for(normalized_reasons(flagged, page_count), page)),
{
    let sorted = normalized_reasons(flagged, page_count);
    let origins = reasons_are_the_reports_own(flagged, page_count);
    reasons_for_is_the_first(sorted, page);
    if forall|i: int| 0 <= i < sorted.len() ==> (#[trigger] sorted[i]).page != page {
        assert forall|k: int| 0 <= k < flagged.len() implies (#[trigger] flagged[k]).page != page
            + 1 by {
            if flagged[k].page == page + 1 {
                assert(origins.contains(k));
                let i = choose|i: int| 0 <= i < origins.len() && origins[i] == k;
                assert(sorted[i].page == page);
            }
        }
    } else {
        let at = choose|at: int|
            0 <= at < sorted.len() && (#[trigger] sorted[at]).page == page && reasons_for(
                sorted,
                page,
            ) == sorted[at].reasons && (forall|i: int|
                0 <= i < at ==> (#[trigger] sorted[i]).page != page);
        let k = origins[at];
        assert forall|n: int| 0 <= n < k implies (#[trigger] flagged[n]).page != page + 1 by {
            if flagged[n].page == page + 1 {
                assert(origins.contains(n));
                let i = choose|i: int| 0 <= i < origins.len() && origins[i] == n;
                assert(sorted[i].page == page);
                if i > at {
                    assert(origins[at] < origins[i]);
                }
            }
        }
        assert(flagged[k].page == page + 1);
    }
}

/// What is put before the judge about a document: one piece of evidence per page, in page order,
/// under the page's number. The page is flagged exactly when its 1-indexed number is on the
/// detection's list; its tables, columns and reasons, and broken encodings, are those the
/// analysis reported, and none where there is no analysis; its text is the extractor's, where
/// one was asked for and given.
pub open spec fn evidence_of(
    detection: DetectionModel,
    layout: Option<LayoutModel>,
    extracted: Option<Seq<PageTextModel>>,
    evidence: Seq<PageEvidenceModel>,
) -> bool {
    &&& evidence.len() == detection.page_count
    &&& forall|p: int|
        0 <= p < evidence.len() ==> {
            let e = #[trigger] evidence[p];
            &&& e.page == p
            &&& e.flagged_by_inspector <==> detection.pages_needing_ocr.contains((p + 1) as u32)
            &&& e.has_tables <==> layout is Some && layout->0.pages_with_tables.contains(
                (p + 1) as u32,
            )
            &&& e.has_columns <==> layout is Some && layout->0.pages_with_columns.contains(
                (p + 1) as u32,
            )
            &&& e.has_encoding_issues <==> layout is Some && layout->0.has_encoding_issues
            &&& layout is Some ==> first_reasons(layout->0.flagged, p, e.reasons)
            &&& layout is None ==> e.reasons.len() == 0
            &&& e.text == (if extracted is Some && p < extracted->0.len() {
                Some(extracted->0[p].markdown)
            } else {
                None
            })
        }
}

/// What a classification says of a document: the detection's page count and its confidence where
/// that is a number; the analysis's own findings, and nothing found where there is no analysis;
/// the pages the verdicts send to OCR, in order; and a label that sums those pages up, the
/// reported one where all of them are sent or there are none.
pub open spec fn says(
    detection: DetectionModel,
    layout: Option<LayoutModel>,
    verdicts: Seq<PageVerdictModel>,
    out: ClassificationModel,
) -> bool {
    let none = forall|p: int| 0 <= p < verdicts.len() ==> !(#[trigger] verdicts[p]).needs_ocr;
    let all = forall|p: int| 0 <= p < verdicts.len() ==> (#[trigger] verdicts[p]).needs_ocr;
    let bits = detection.confidence.bits;
    &&& verdicts.len() == detection.page_count
    &&& forall|p: int| 0 <= p < verdicts.len() ==> (#[trigger] verdicts[p]).page == p
    &&& out.page_count == detection.page_count
    &&& bits < 0x7f80_0000 || 0x8000_0000 <= bits < 0xff80_0000 ==> out.confidence
        == detection.confidence
    &&& 0x7f80_0000 <= bits < 0x8000_0000 || bits >= 0xff80_0000 ==> out.confidence.bits == 0
    &&& out.is_complex_layout <==> layout is Some && layout->0.is_complex
    &&& out.has_encoding_issues <==> layout is Some && layout->0.has_encoding_issues
    &&& layout is None ==> out.ocr_reasons.len() == 0
    &&& layout is Some ==> {
        &&& forall|i: int|
            0 <= i < out.ocr_reasons.len() ==> exists|k: int|
                0 <= k < layout->0.flagged.len() && (#[trigger] layout->0.flagged[k]).page == (
                #[trigger] out.ocr_reasons[i]).page + 1 && layout->0.flagged[k].reasons
                    == out.ocr_reasons[i].reasons
        &&& forall|k: int|
            0 <= k < layout->0.flagged.len() && 1 <= (#[trigger] layout->0.flagged[k]).page
                <= out.page_count ==> exists|i: int|
                0 <= i < out.ocr_reasons.len() && (#[trigger] out.ocr_reasons[i]).page
                    == layout->0.flagged[k].page - 1 && out.ocr_reasons[i].reasons
                    == layout->0.flagged[k].reasons
        &&& forall|i: int, j: int|
            0 <= i < j < out.ocr_reasons.len() ==> (#[trigger] out.ocr_reasons[i]).page <= (
            #[trigger] out.ocr_reasons[j]).page
        &&& forall|i: int|
            0 <= i < out.ocr_reasons.len() ==> (#[trigger] out.ocr_reasons[i]).page
                < out.page_count
    }
    &&& increasing(out.pages_needing_ocr)
    &&& forall|p: u32| #[trigger]
        out.pages_needing_ocr.contains(p) <==> p < out.page_count && verdicts[p as int].needs_ocr
    &&& out.page_count == 0 ==> out.pdf_type == detection.pdf_type
    &&& out.page_count > 0 && none ==> out.pdf_type == PdfType::TextBased
    &&& out.page_count > 0 && all ==> out.pdf_type == detection.pdf_type
    &&& !none && !all ==> out.pdf_type == PdfType::Mixed
}

/// `out` follows from what was found in these bytes: one detection over every page; one analysis
/// with the same options, left out exactly for a document that was reported as images and has
/// every page flagged; the extractor's text exactly for a judge that asks for it; and the
/// judge's verdicts on that evidence.
pub open spec fn follows<J: PageJudge + ?Sized>(
    bytes: Seq<u8>,
    judge: &J,
    detection: DetectionModel,
    layout: Option<LayoutModel>,
    extracted: Option<Seq<PageTextModel>>,
    evidence: Seq<PageEvidenceModel>,
    verdicts: Seq<PageVerdictModel>,
    out: ClassificationModel,
) -> bool {
    let all_images = (detection.pdf_type == PdfType::Scanned || detection.pdf_type
        == PdfType::ImageBased) && forall|p: int|
        0 <= p < detection.page_count ==> detection.pages_needing_ocr.contains(
            #[trigger] ((p + 1) as u32),
        );
    &&& may_detect(bytes, Strategy::Full, 1, Ok(detection))
    &&& all_images ==> layout is None
    &&& !all_images ==> may_analyze(bytes, Strategy::Full, 1, layout)
    &&& !judge.wants_text() ==> extracted is None
    &&& judge.wants_text() && extracted is Some ==> may_extract(bytes, None, Ok(extracted->0))
    &&& judge.wants_text() && extracted is None ==> exists|detail: Seq<char>| #[trigger]
        may_extract(bytes, None, Err(detail))
    &&& evidence_of(detection, layout, extracted, evidence)
    &&& judge.may_answer(evidence, Ok(verdicts))
    &&& says(detection, layout, verdicts, out)
}

/// Every classification, whatever the judge, says what was found: the layout and the encodings
/// are exactly what the analysis reported when it is due and succeeds, the page count and the
/// confidence are the detection's, the pages that need OCR are those the judge's verdicts send
/// there, and the label sums them up.
pub proof fn a_classification_says_what_was_found<J: PageJudge + ?Sized>(
    bytes: Seq<u8>,
    judge: &J,
    out: ClassificationModel,
)
    requires
        may_classify(bytes, judge, Ok(out)),
    ensures
        exists|
            detection: DetectionModel,
            layout: Option<LayoutModel>,
            extracted: Option<Seq<PageTextModel>>,
            evidence: Seq<PageEvidenceModel>,
            verdicts: Seq<PageVerdictModel>,
        | #[trigger]
            follows(bytes, judge, detection, layout, extracted, evidence, verdicts, out),
{
    let (detection, analysis, texts, answer) = choose|
        detection: DetectionModel,
        analysis: AnalysisModel,
        texts: Seq<Option<Seq<char>>>,
        answer: Result<Seq<PageVerdictModel>, ErrorModel>,
    |
        may_detect(bytes, Strategy::Full, TEXT_PAGE_RATIO_THRESHOLD, Ok(detection))
            && #[trigger] may_conclude(bytes, judge, detection, analysis, texts, answer, Ok(out));
    let count = detection.page_count;
    let raw = detection.pages_needing_ocr;
    let pages = normalized(raw, count);
    let evidence = evidence_list(pages, analysis, texts);
    let verdicts = answer->Ok_0;
    let all_images = (detection.pdf_type == PdfType::Scanned || detection.pdf_type
        == PdfType::ImageBased) && forall|p: int|
        0 <= p < count ==> raw.contains(#[trigger] ((p + 1) as u32));
    analysis_is_due_unless_all_images(detection);
    let layout = if analysis_due(detection) {
        choose|layout: Option<LayoutModel>| #[trigger]
            may_analyze(bytes, Strategy::Full, TEXT_PAGE_RATIO_THRESHOLD, layout) && analysis
                == AnalysisModel::of(layout, count)
    } else {
        None
    };
    assert(analysis == AnalysisModel::of(layout, count));
    let extracted = texts_come_from(bytes, count, judge.wants_text(), texts);
    evidence_is_gathered(detection, layout, extracted, texts);
    no_fault_is_page_by_page(judge.identifier(), evidence, verdicts, count, 0);
    the_verdicts_decide(detection, layout, evidence, verdicts, judge.identifier(), out);
    assert(follows(bytes, judge, detection, layout, extracted, evidence, verdicts, out));
}

proof fn analysis_is_due_unless_all_images(detection: DetectionModel)
    ensures
        analysis_due(detection) <==> !((detection.pdf_type == PdfType::Scanned
            || detection.pdf_type == PdfType::ImageBased) && forall|p: int|
            0 <= p < detection.page_count ==> detection.pages_needing_ocr.contains(
                #[trigger] ((p + 1) as u32),
            )),
{
    let raw = detection.pages_needing_ocr;
    let count = detection.page_count;
    let keep = |p: u32| raw.contains((p + 1) as u32);
    kept_holds(count as nat, keep);
    crate::order::kept_of_all(count as nat, keep);
    let every = forall|p: int| 0 <= p < count ==> raw.contains(#[trigger] ((p + 1) as u32));
    assert(every <==> forall|p: u32| p < count ==> #[trigger] keep(p)) by {
        if every {
            assert forall|p: u32| p < count implies #[trigger] keep(p) by {
                assert(0 <= p as int);
                assert(raw.contains((p as int + 1) as u32));
            }
        }
        if forall|p: u32| p < count ==> #[trigger] keep(p) {
            assert forall|p: int| 0 <= p < count implies raw.contains(
                #[trigger] ((p + 1) as u32),
            ) by {
                assert(keep(p as u32));
            }
        }
    }
    if count > 0 && every {
        assert(keep(0));
        assert(normalized(raw, count).contains(0));
    }
}

proof fn texts_come_from(
    bytes: Seq<u8>,
    page_count: u32,
    asked: bool,
    texts: Seq<Option<Seq<char>>>,
) -> (extracted: Option<Seq<PageTextModel>>)
    requires
        may_hand_over(bytes, page_count, asked, texts),
    ensures
        texts.len() == page_count,
        !asked ==> extracted is None,
        asked && extracted is Some ==> may_extract(bytes, None, Ok(extracted->0)),
        asked && extracted is None ==> exists|detail: Seq<char>| #[trigger]
            may_extract(bytes, None, Err(detail)),
        forall|p: int|
            0 <= p < page_count ==> #[trigger] texts[p] == (if extracted is Some && p
                < extracted->0.len() {
                Some(extracted->0[p].markdown)
            } else {
                None
            }),
{
    if asked && exists|pages: Seq<PageTextModel>| #[trigger]
        may_extract(bytes, None, Ok(pages)) && numbered_as_asked(None, pages) && texts == slots(
            Some(pages),
            page_count,
        ) {
        let pages = choose|pages: Seq<PageTextModel>| #[trigger]
            may_extract(bytes, None, Ok(pages)) && numbered_as_asked(None, pages) && texts == slots(
                Some(pages),
                page_count,
            );
        assert forall|p: int| 0 <= p < page_count implies #[trigger] texts[p] == (if p
            < pages.len() {
            Some(pages[p].markdown)
        } else {
            None
        }) by {
            text_for_numbered(pages, p);
        }
        Some(pages)
    } else {
        None
    }
}

proof fn text_for_numbered(pages: Seq<PageTextModel>, p: int)
    requires
        0 <= p,
        forall|i: int| 0 <= i < pages.len() ==> (#[trigger] pages[i]).page == i,
    ensures
        text_for(pages, p) == (if p < pages.len() {
            Some(pages[p].markdown)
        } else {
            None
        }),
    decreases pages.len(),
{
    if pages.len() > 0 {
        let rest = pages.drop_last();
        assert(pages[pages.len() - 1].page == pages.len() - 1);
        assert forall|i: int| 0 <= i < rest.len() implies (#[trigger] rest[i]).page == i by {
            assert(rest[i] == pages[i]);
        }
        text_for_numbered(rest, p);
    }
}

proof fn evidence_is_gathered(
    detection: DetectionModel,
    layout: Option<LayoutModel>,
    extracted: Option<Seq<PageTextModel>>,
    texts: Seq<Option<Seq<char>>>,
)
    requires
        texts.len() == detection.page_count,
        forall|p: int|
            0 <= p < texts.len() ==> #[trigger] texts[p] == (if extracted is Some && p
                < extracted->0.len() {
                Some(extracted->0[p].markdown)
            } else {
                None
            }),
    ensures
        evidence_of(
            detection,
            layout,
            extracted,
            evidence_list(
                normalized(detection.pages_needing_ocr, detection.page_count),
                AnalysisModel::of(layout, detection.page_count),
                texts,
            ),
        ),
{
    let count = detection.page_count;
    let pages = normalized(detection.pages_needing_ocr, count);
    let analysis = AnalysisModel::of(layout, count);
    let evidence = evidence_list(pages, analysis, texts);
    normalized_pages_are_the_numbered_ones(detection.pages_needing_ocr, count);
    if layout is Some {
        normalized_pages_are_the_numbered_ones(layout->0.pages_with_tables, count);
        normalized_pages_are_the_numbered_ones(layout->0.pages_with_columns, count);
    }
    assert forall|p: int| 0 <= p < evidence.len() implies {
        let e = #[trigger] evidence[p];
        &&& e.page == p
        &&& e.flagged_by_inspector <==> detection.pages_needing_ocr.contains((p + 1) as u32)
        &&& e.has_tables <==> layout is Some && layout->0.pages_with_tables.contains(
            (p + 1) as u32,
        )
        &&& e.has_columns <==> layout is Some && layout->0.pages_with_columns.contains(
            (p + 1) as u32,
        )
        &&& e.has_encoding_issues <==> layout is Some && layout->0.has_encoding_issues
        &&& layout is Some ==> first_reasons(layout->0.flagged, p, e.reasons)
        &&& layout is None ==> e.reasons.len() == 0
        &&& e.text == (if extracted is Some && p < extracted->0.len() {
            Some(extracted->0[p].markdown)
        } else {
            None
        })
    } by {
        let page = p as u32;
        assert(page + 1 == p + 1);
        assert(pages.contains(page) <==> detection.pages_needing_ocr.contains((page + 1) as u32));
        if layout is Some {
            reasons_on_a_page(layout->0.flagged, count, page);
            assert(analysis.pages_with_tables.contains(page)
                <==> layout->0.pages_with_tables.contains((page + 1) as u32));
            assert(analysis.pages_with_columns.contains(page)
                <==> layout->0.pages_with_columns.contains((page + 1) as u32));
        }
    }
}

proof fn no_fault_is_page_by_page(
    judge: Seq<char>,
    evidence: Seq<PageEvidenceModel>,
    verdicts: Seq<PageVerdictModel>,
    page_count: u32,
    i: int,
)
    requires
        0 <= i,
    ensures
        verdict_fault(judge, evidence, verdicts, page_count, i) is None <==> forall|k: int|
            i <= k < verdicts.len() ==> (#[trigger] verdicts[k]).page < page_count
                && verdicts[k].page == evidence[k].page,
    decreases verdicts.len() - i,
{
    if i < verdicts.len() {
        no_fault_is_page_by_page(judge, evidence, verdicts, page_count, i + 1);
        let rest = forall|k: int|
            i + 1 <= k < verdicts.len() ==> (#[trigger] verdicts[k]).page < page_count
                && verdicts[k].page == evidence[k].page;
        let all = forall|k: int|
            i <= k < verdicts.len() ==> (#[trigger] verdicts[k]).page < page_count
                && verdicts[k].page == evidence[k].page;
        if all {
            assert(verdicts[i].page < page_count && verdicts[i].page == evidence[i].page);
        }
        if rest && verdicts[i].page < page_count && verdicts[i].page == evidence[i].page {
            assert forall|k: int| i <= k < verdicts.len() implies (#[trigger] verdicts[k]).page
                < page_count && verdicts[k].page == evidence[k].page by {}
        }
    }
}

proof fn the_verdicts_decide(
    detection: DetectionModel,
    layout: Option<LayoutModel>,
    evidence: Seq<PageEvidenceModel>,
    verdicts: Seq<PageVerdictModel>,
    judge: Seq<char>,
    out: ClassificationModel,
)
    requires
        evidence.len() == detection.page_count,
        forall|p: int| 0 <= p < evidence.len() ==> (#[trigger] evidence[p]).page == p,
        exists|nanos: u64|
            Ok::<ClassificationModel, ErrorModel>(out) == #[trigger] concluded(
                judge,
                detection,
                AnalysisModel::of(layout, detection.page_count),
                evidence,
                Ok(verdicts),
                nanos,
            ),
    ensures
        says(detection, layout, verdicts, out),
{
    let count = detection.page_count;
    let keep = |p: u32|
        exists|i: int|
            0 <= i < verdicts.len() && (#[trigger] verdicts[i]).page == p && verdicts[i].needs_ocr;
    no_fault_is_page_by_page(judge, evidence, verdicts, count, 0);
    assert(verdicts.len() == count);
    assert forall|p: int| 0 <= p < verdicts.len() implies (#[trigger] verdicts[p]).page == p by {
        assert(verdicts[p].page == evidence[p].page);
    }
    kept_holds(count as nat, keep);
    crate::order::kept_of_all(count as nat, keep);
    assert forall|p: u32| p < count implies (#[trigger] keep(p) <==> verdicts[p as int].needs_ocr)
        by {
        if verdicts[p as int].needs_ocr {
            assert(verdicts[p as int].page == p);
        }
    }
    let pages = out.pages_needing_ocr;
    assert(pages == kept(count as nat, keep));
    let none = forall|p: int| 0 <= p < verdicts.len() ==> !(#[trigger] verdicts[p]).needs_ocr;
    let all = forall|p: int| 0 <= p < verdicts.len() ==> (#[trigger] verdicts[p]).needs_ocr;
    assert(none <==> pages.len() == 0) by {
        if pages.len() > 0 {
            let p = pages[0];
            assert(keep(p));
            assert(verdicts[p as int].needs_ocr);
        }
        if !none {
            let p = choose|p: int| 0 <= p < verdicts.len() && (#[trigger] verdicts[p]).needs_ocr;
            assert(keep(p as u32));
            assert(pages.contains(p as u32));
        }
    }
    assert(all <==> pages.len() == count) by {
        if all {
            assert forall|p: u32| p < count implies #[trigger] keep(p) by {
                assert(verdicts[p as int].needs_ocr);
            }
        }
        if pages.len() == count {
            assert forall|p: int| 0 <= p < verdicts.len() implies (
            #[trigger] verdicts[p]).needs_ocr by {
                assert(keep(p as u32));
            }
        }
    }
    if layout is Some {
        let flagged = layout->0.flagged;
        let origins = reasons_are_the_reports_own(flagged, count);
        assert forall|i: int| 0 <= i < out.ocr_reasons.len() implies exists|k: int|
            0 <= k < flagged.len() && (#[trigger] flagged[k]).page == (
            #[trigger] out.ocr_reasons[i]).page + 1 && flagged[k].reasons
                == out.ocr_reasons[i].reasons by {
            assert(flagged[origins[i]].page == out.ocr_reasons[i].page + 1);
        }
        assert forall|k: int|
            0 <= k < flagged.len() && 1 <= (#[trigger] flagged[k]).page
                <= out.page_count implies exists|i: int|
            0 <= i < out.ocr_reasons.len() && (#[trigger] out.ocr_reasons[i]).page
                == flagged[k].page - 1 && out.ocr_reasons[i].reasons == flagged[k].reasons by {
            assert(origins.contains(k));
            let i = choose|i: int| 0 <= i < origins.len() && origins[i] == k;
            assert(out.ocr_reasons[i].page == flagged[k].page - 1);
        }
        assert forall|i: int, j: int| 0 <= i < j < out.ocr_reasons.len() implies (
        #[trigger] out.ocr_reasons[i]).page <= (#[trigger] out.ocr_reasons[j]).page by {
            assert(flagged[origins[i]].page <= flagged[origins[j]].page);
        }
        assert forall|i: int| 0 <= i < out.ocr_reasons.len() implies (
        #[trigger] out.ocr_reasons[i]).page < out.page_count by {
            assert(flagged[origins[i]].page <= count);
        }
    }
}

/// A judge's answer is taken whole or not at all: it leads to a classification exactly when it
/// gives one verdict per page, in order, each about its own page. An error of the judge's is
/// passed on as it is.
pub proof fn an_answer_is_taken_whole_or_refused(
    judge: Seq<char>,
    detection: DetectionModel,
    analysis: AnalysisModel,
    evidence: Seq<PageEvidenceModel>,
    answer: Result<Seq<PageVerdictModel>, ErrorModel>,
    nanos: u64,
)
    ensures
        concluded(judge, detection, analysis, evidence, answer, nanos) is Ok <==> {
            &&& answer is Ok
            &&& answer->Ok_0.len() == evidence.len()
            &&& forall|k: int|
                0 <= k < evidence.len() ==> (#[trigger] answer->Ok_0[k]).page == evidence[k].page
                    && answer->Ok_0[k].page < detection.page_count
        },
        answer is Err ==> concluded(judge, detection, analysis, evidence, answer, nanos) == Err::<
            ClassificationModel,
            ErrorModel,
        >(answer->Err_0),
        answer is Ok && concluded(judge, detection, analysis, evidence, answer, nanos) is Err
            ==> concluded(judge, detection, analysis, evidence, answer, nanos)->Err_0 is Judge,
{
    if answer is Ok {
        no_fault_is_page_by_page(judge, evidence, answer->Ok_0, detection.page_count, 0);
    }
}

/// Why a classification fails. Bytes that do not start with `%PDF`, and only those, are no PDF.
/// Otherwise the inspector's detection failed, and its words are passed on; or the judge failed,
/// and its error is passed on as it is; or the judge's answer is not one verdict per page, in
/// order, each about its own page.
pub proof fn why_a_classification_fails<J: PageJudge + ?Sized>(
    bytes: Seq<u8>,
    judge: &J,
    error: ErrorModel,
)
    requires
        may_classify(bytes, judge, Err(error)),
    ensures
        ({
            let opens = bytes.len() >= 4 && bytes[0] == 0x25 && bytes[1] == 0x50 && bytes[2] == 0x44
                && bytes[3] == 0x46;
            &&& !opens ==> error is NotPdf
            &&& opens ==> {
                ||| exists|detail: Seq<char>| #[trigger]
                    may_detect(bytes, Strategy::Full, 1, Err(detail)) && error == ErrorModel::Pdf(
                        detail,
                    )
                ||| exists|detection: DetectionModel, evidence: Seq<PageEvidenceModel>|
                    #![trigger may_detect(bytes, Strategy::Full, 1, Ok(detection)), judge.may_answer(evidence, Err(error))]
                    may_detect(bytes, Strategy::Full, 1, Ok(detection)) && evidence.len()
                        == detection.page_count && judge.may_answer(evidence, Err(error))
                ||| error is Judge && exists|
                    detection: DetectionModel,
                    evidence: Seq<PageEvidenceModel>,
                    verdicts: Seq<PageVerdictModel>,
                |
                    #![trigger may_detect(bytes, Strategy::Full, 1, Ok(detection)), judge.may_answer(evidence, Ok(verdicts))]
                    may_detect(bytes, Strategy::Full, 1, Ok(detection)) && evidence.len()
                        == detection.page_count && judge.may_answer(evidence, Ok(verdicts)) && !(
                    verdicts.len() == evidence.len() && forall|p: int|
                        0 <= p < verdicts.len() ==> (#[trigger] verdicts[p]).page == p)
            }
        }),
{
    if pdf_magic(bytes) && !exists|detail: Seq<char>| #[trigger]
        may_detect(bytes, Strategy::Full, 1, Err(detail)) && error == ErrorModel::Pdf(detail) {
        let (detection, analysis, texts, answer) = choose|
            detection: DetectionModel,
            analysis: AnalysisModel,
            texts: Seq<Option<Seq<char>>>,
            answer: Result<Seq<PageVerdictModel>, ErrorModel>,
        |
            may_detect(bytes, Strategy::Full, TEXT_PAGE_RATIO_THRESHOLD, Ok(detection))
                && #[trigger] may_conclude(
                bytes,
                judge,
                detection,
                analysis,
                texts,
                answer,
                Err(error),
            );
        let count = detection.page_count;
        let evidence = evidence_list(
            normalized(detection.pages_needing_ocr, count),
            analysis,
            texts,
        );
        texts_come_from(bytes, count, judge.wants_text(), texts);
        assert(may_detect(bytes, Strategy::Full, 1, Ok(detection)));
        match answer {
            Err(other) => {
                assert(judge.may_answer(evidence, Err(error)));
            },
            Ok(verdicts) => {
                assert(judge.may_answer(evidence, Ok(verdicts)));
                no_fault_is_page_by_page(judge.identifier(), evidence, verdicts, count, 0);
                assert forall|p: int| 0 <= p < count implies (#[trigger] evidence[p]).page == p by {}
                if verdicts.len() == evidence.len() {
                    let k = choose|k: int|
                        0 <= k < verdicts.len() && !((#[trigger] verdicts[k]).page < count
                            && verdicts[k].page == evidence[k].page);
                    assert(evidence[k].page == k);
                    assert(verdicts[k].page != k);
                }
            },
        }
    }
}

/// The verdicts handed back with a classification are those it sums up: one per page, in order,
/// and a page is on its list exactly when its verdict sends it to OCR.
pub proof fn a_classification_sums_up_its_verdicts<J: PageJudge + ?Sized>(
    bytes: Seq<u8>,
    judge: &J,
    verdicts: Seq<PageVerdictModel>,
    out: ClassificationModel,
)
    requires
        may_follow(bytes, judge, verdicts, out),
    ensures
        verdicts.len() == out.page_count,
        forall|p: int| 0 <= p < verdicts.len() ==> (#[trigger] verdicts[p]).page == p,
        forall|p: u32| #[trigger]
            out.pages_needing_ocr.contains(p) <==> p < out.page_count
                && verdicts[p as int].needs_ocr,
        increasing(out.pages_needing_ocr),
{
    let (detection, analysis, texts) = choose|
        detection: DetectionModel,
        analysis: AnalysisModel,
        texts: Seq<Option<Seq<char>>>,
    | #[trigger]
        may_conclude(bytes, judge, detection, analysis, texts, Ok(verdicts), Ok(out));
    let count = detection.page_count;
    let evidence = evidence_list(normalized(detection.pages_needing_ocr, count), analysis, texts);
    texts_come_from(bytes, count, judge.wants_text(), texts);
    let layout = if analysis_due(detection) {
        choose|layout: Option<LayoutModel>| #[trigger]
            may_analyze(bytes, Strategy::Full, TEXT_PAGE_RATIO_THRESHOLD, layout) && analysis
                == AnalysisModel::of(layout, count)
    } else {
        None
    };
    assert(analysis == AnalysisModel::of(layout, count));
    assert forall|p: int| 0 <= p < evidence.len() implies (#[trigger] evidence[p]).page == p by {}
    the_verdicts_decide(detection, layout, evidence, verdicts, judge.identifier(), out);
}

/// A page is in a classification's text layer exactly when it exists and is not on the list, and
/// the text layer is in order.
pub proof fn the_text_layer_is_what_needs_no_ocr(c: ClassificationModel)
    ensures
        increasing(c.text_layer_pages()),
        forall|p: u32| #[trigger]
            c.text_layer_pages().contains(p) <==> p < c.page_count && !c.pages_needing_ocr.contains(
                p,
            ),
{
    let keep = |p: u32| !c.pages_needing_ocr.contains(p);
    kept_holds(c.page_count as nat, keep);
    assert forall|p: u32| #[trigger] c.text_layer_pages().contains(p) <==> p < c.page_count
        && !c.pages_needing_ocr.contains(p) by {
        assert(kept(c.page_count as nat, keep).contains(p) <==> p < c.page_count && keep(p));
    }
}

proof fn loose_reads_part_by_part(a: Seq<char>, b: Seq<char>)
    ensures
        loose(a + b) == loose(a) + loose(b),
    decreases b.len(),
{
    if b.len() == 0 {
        assert(a + b =~= a);
    } else {
        loose_reads_part_by_part(a, b.drop_last());
        assert((a + b).drop_last() =~= a + b.drop_last());
        assert((a + b).last() == b.last());
    }
}

/// A type is read loosely: a character that is no ASCII letter or digit makes no difference,
/// wherever it stands, and neither does the case of a letter.
pub proof fn spelling_does_not_matter(a: Seq<char>, c: char, b: Seq<char>)
    ensures
        !('a' <= c <= 'z') && !('A' <= c <= 'Z') && !('0' <= c <= '9') ==> PdfType::parsed(
            a + seq![c] + b,
        ) == PdfType::parsed(a + b),
        'A' <= c <= 'Z' ==> PdfType::parsed(a + seq![c] + b) == PdfType::parsed(
            a + seq![(c as u8 + 32) as char] + b,
        ),
{
    let lower = (c as u8 + 32) as char;
    loose_reads_part_by_part(a + seq![c], b);
    loose_reads_part_by_part(a, seq![c]);
    loose_reads_part_by_part(a, b);
    loose_reads_part_by_part(a + seq![lower], b);
    loose_reads_part_by_part(a, seq![lower]);
    assert(seq![c].drop_last() =~= Seq::empty());
    assert(seq![lower].drop_last() =~= Seq::empty());
    reveal_with_fuel(loose, 2);
    if !('a' <= c <= 'z') && !('A' <= c <= 'Z') && !('0' <= c <= '9') {
        assert(loose(seq![c]) =~= Seq::empty());
        assert(loose(a + seq![c] + b) =~= loose(a + b));
    }
    if 'A' <= c <= 'Z' {
        assert(loose(seq![c]) =~= seq![lower]);
        assert(loose(seq![lower]) =~= seq![lower]);
    }
}

/// [`conclude`] reports what the detection and the analysis found, and sends to OCR the pages its
/// verdicts send there. It succeeds exactly when there is one verdict per piece of evidence, in
/// order, each about its own page.
pub proof fn conclude_reports_what_was_found(
    judge: &str,
    detection: &Detection,
    analysis: Analysis,
    evidence: &[PageEvidence],
    verdicts: &[PageVerdict],
    classify_nanos: u64,
    out: Result<Classification, Error>,
)
    requires
        call_ensures(
            conclude,
            (judge, detection, analysis, evidence, verdicts, classify_nanos),
            out,
        ),
    ensures
        out is Ok <==> verdicts@.len() == evidence@.len() && forall|k: int|
            0 <= k < evidence@.len() ==> (#[trigger] verdicts@[k])@.page == evidence@[k]@.page
                && verdicts@[k]@.page < detection@.page_count,
        out is Ok ==> {
            let c = out->Ok_0@;
            &&& c.page_count == detection@.page_count
            &&& c.is_complex_layout == analysis@.is_complex
            &&& c.has_encoding_issues == analysis@.has_encoding_issues
            &&& c.ocr_reasons == analysis@.ocr_reasons
            &&& c.classify_nanos == classify_nanos
            &&& increasing(c.pages_needing_ocr)
            &&& forall|p: u32| #[trigger]
                c.pages_needing_ocr.contains(p) <==> p < c.page_count && exists|i: int|
                    0 <= i < verdicts@.len() && (#[trigger] verdicts@[i])@.page == p
                        && verdicts@[i]@.needs_ocr
        },
        out is Err ==> out->Err_0@ is Judge,
{
    let models = verdict_models(verdicts@);
    let pieces = evidence_models(evidence@);
    assert(models.len() == verdicts@.len() && pieces.len() == evidence@.len());
    assert forall|k: int| 0 <= k < verdicts@.len() implies #[trigger] verdicts@[k]@
        == models[k] by {}
    assert forall|k: int| 0 <= k < evidence@.len() implies #[trigger] evidence@[k]@
        == pieces[k] by {}
    an_answer_is_taken_whole_or_refused(
        judge@,
        detection@,
        analysis@,
        pieces,
        Ok(models),
        classify_nanos,
    );
    if out is Ok {
        let c = out->Ok_0@;
        let wanted = |p: u32|
            exists|i: int|
                0 <= i < models.len() && (#[trigger] models[i]).page == p && models[i].needs_ocr;
        kept_holds(c.page_count as nat, wanted);
        assert(c.pages_needing_ocr == kept(c.page_count as nat, wanted));
        assert forall|p: u32| #[trigger] c.pages_needing_ocr.contains(p) <==> p < c.page_count
            && exists|i: int|
            0 <= i < verdicts@.len() && (#[trigger] verdicts@[i])@.page == p
                && verdicts@[i]@.needs_ocr by {
            assert(kept(c.page_count as nat, wanted).contains(p) <==> p < c.page_count && wanted(
                p,
            ));
            if wanted(p) {
                let i = choose|i: int|
                    0 <= i < models.len() && (#[trigger] models[i]).page == p
                        && models[i].needs_ocr;
                assert(verdicts@[i]@ == models[i]);
            }
            if exists|i: int|
                0 <= i < verdicts@.len() && (#[trigger] verdicts@[i])@.page == p
                    && verdicts@[i]@.needs_ocr {
                let i = choose|i: int|
                    0 <= i < verdicts@.len() && (#[trigger] verdicts@[i])@.page == p
                        && verdicts@[i]@.needs_ocr;
                assert(models[i] == verdicts@[i]@);
            }
        }
    }
}

/// [`classify_with`] says what was found in the bytes, whatever the judge.
pub proof fn classify_with_says_what_was_found<J: PageJudge + ?Sized>(
    bytes: &[u8],
    judge: &J,
    out: Result<Classification, Error>,
)
    requires
        call_ensures(classify_with::<J>, (bytes, judge), out),
        out is Ok,
    ensures
        exists|
            detection: DetectionModel,
            layout: Option<LayoutModel>,
            extracted: Option<Seq<PageTextModel>>,
            evidence: Seq<PageEvidenceModel>,
            verdicts: Seq<PageVerdictModel>,
        | #[trigger]
            follows(
                bytes@,
                judge,
                detection,
                layout,
                extracted,
                evidence,
                verdicts,
                out->Ok_0@,
            ),
{
    a_classification_says_what_was_found(bytes@, judge, out->Ok_0@);
}

} // verus!
