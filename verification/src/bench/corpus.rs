//! The ground-truth corpus: what each document really is, page by page.
//!
//! Ground truth is per page, not per document, and every page number is 0-indexed. Paths are
//! relative to the manifest's own directory.

use crate::order::{
    holds_page, increasing, increasing_fixed_by_contents, insert_page, kept, kept_holds,
};
use crate::text::{
    bracket_pages, bracketed, clone_opt_text, decimal, opt_text, push_decimal, same_text, texts,
};
use vstd::prelude::*;
use vstd::string::*;

verus! {

/// `directory` may be the parent of `path`.
pub uninterp spec fn may_lie_in(path: Seq<char>, directory: Option<Seq<char>>) -> bool;

/// `out` may be `file` resolved against `directory`.
pub uninterp spec fn may_join(directory: Seq<char>, file: Seq<char>, out: Seq<char>) -> bool;

/// `name` may be the final component of `path`.
pub uninterp spec fn may_name(path: Seq<char>, name: Option<Seq<char>>) -> bool;

/// `Path::parent`, on text.
///
/// What a path's components are depends on the platform, so the result is only related to the
/// path and not fixed by it.
#[verifier::external_body]
pub(crate) fn parent_of(path: &str) -> (r: Option<String>)
    ensures
        may_lie_in(path@, opt_text(r)),
{
    std::path::Path::new(path).parent().map(|parent| parent.to_string_lossy().into_owned())
}

/// `Path::join`, on text: an absolute `file` replaces the directory.
///
/// What is absolute depends on the platform, so the result is only related to the arguments
/// and not fixed by them.
#[verifier::external_body]
pub(crate) fn join_path(directory: &str, file: &str) -> (r: String)
    ensures
        may_join(directory@, file@, r@),
{
    std::path::Path::new(directory).join(file).to_string_lossy().into_owned()
}

/// `Path::file_name`, on text.
///
/// What a path's components are depends on the platform, so the result is only related to the
/// path and not fixed by it.
#[verifier::external_body]
pub(crate) fn file_name_of(path: &str) -> (r: Option<String>)
    ensures
        may_name(path@, opt_text(r)),
{
    std::path::Path::new(path).file_name().map(|name| name.to_string_lossy().into_owned())
}

/// One row of the manifest: one document and its hand-labelled truth.
#[derive(Debug, PartialEq, Eq)]
pub struct DocumentSpec {
    /// Path to the document, relative to the manifest's directory (or absolute).
    pub file: String,
    /// Where the document came from, e.g. `"synthetic"` or `"real"`. Groups the report.
    pub source: String,
    /// How many pages the document has.
    pub page_count: u32,
    /// The 0-indexed pages that truly need OCR, each once, every one below `page_count`.
    pub needs_ocr: Vec<u32>,
    /// Why this document is in the corpus.
    pub note: Option<String>,
}

/// A [`DocumentSpec`] over sequences.
#[verifier::ext_equal]
pub ghost struct DocumentSpecModel {
    pub file: Seq<char>,
    pub source: Seq<char>,
    pub page_count: u32,
    pub needs_ocr: Seq<u32>,
    pub note: Option<Seq<char>>,
}

impl View for DocumentSpec {
    type V = DocumentSpecModel;

    open spec fn view(&self) -> DocumentSpecModel {
        DocumentSpecModel {
            file: self.file@,
            source: self.source@,
            page_count: self.page_count,
            needs_ocr: self.needs_ocr@,
            note: opt_text(self.note),
        }
    }
}

impl Clone for DocumentSpec {
    fn clone(&self) -> (r: Self)
        ensures
            r@ == self@,
    {
        DocumentSpec {
            file: self.file.clone(),
            source: self.source.clone(),
            page_count: self.page_count,
            needs_ocr: crate::classify::clone_page_list(&self.needs_ocr),
            note: clone_opt_text(&self.note),
        }
    }
}

/// A whole manifest.
#[derive(Debug, PartialEq, Eq)]
pub struct Manifest {
    /// Every document in the corpus, in report order.
    pub documents: Vec<DocumentSpec>,
}

/// The models of a list of rows.
pub open spec fn spec_models(rows: Seq<DocumentSpec>) -> Seq<DocumentSpecModel> {
    rows.map_values(|row: DocumentSpec| row@)
}

/// What is wrong with one row.
#[derive(Debug, PartialEq, Eq)]
pub enum RowFault {
    /// The same page is listed twice.
    Repeated,
    /// This page is past the end of the document.
    PastTheEnd(u32),
}

/// A page is listed at two places.
pub open spec fn repeats(pages: Seq<u32>) -> bool {
    exists|i: int, j: int| 0 <= i < j < pages.len() && #[trigger] pages[i] == #[trigger] pages[j]
}

/// The pages of a list, in increasing order, each once.
pub open spec fn in_order(pages: Seq<u32>) -> Seq<u32> {
    kept(0x1_0000_0000, |p: u32| pages.contains(p))
}

/// The first page of an increasing list that is not below `page_count`.
pub open spec fn first_past(pages: Seq<u32>, page_count: u32) -> Option<u32>
    decreases pages.len(),
{
    if pages.len() == 0 {
        None
    } else if pages[0] >= page_count {
        Some(pages[0])
    } else {
        first_past(pages.subrange(1, pages.len() as int), page_count)
    }
}

/// The truth a row states: its pages in increasing order. A repeated page and a page past the
/// end are mistakes in the row, not data to be cleaned up quietly.
pub open spec fn truth_of(row: DocumentSpecModel) -> Result<Seq<u32>, RowFault> {
    if repeats(row.needs_ocr) {
        Err(RowFault::Repeated)
    } else {
        match first_past(in_order(row.needs_ocr), row.page_count) {
            Some(page) => Err(RowFault::PastTheEnd(page)),
            None => Ok(in_order(row.needs_ocr)),
        }
    }
}

/// The model of a truth or a fault.
pub open spec fn truth_outcome(r: Result<Vec<u32>, RowFault>) -> Result<Seq<u32>, RowFault> {
    match r {
        Ok(pages) => Ok(pages@),
        Err(fault) => Err(fault),
    }
}

/// Check a row's pages and return them in increasing order.
pub fn validated_truth(row: &DocumentSpec) -> (r: Result<Vec<u32>, RowFault>)
    ensures
        truth_outcome(r) == truth_of(row@),
{
    let mut pages: Vec<u32> = Vec::new();
    let mut repeated: bool = false;
    let mut i: usize = 0;
    while i < row.needs_ocr.len() && !repeated
        invariant
            i <= row.needs_ocr@.len(),
            increasing(pages@),
            !repeated ==> forall|p: u32| #[trigger]
                pages@.contains(p) <==> row.needs_ocr@.take(i as int).contains(p),
            !repeated ==> forall|a: int, b: int|
                0 <= a < b < i ==> #[trigger] row.needs_ocr@[a] != #[trigger] row.needs_ocr@[b],
            repeated ==> repeats(row.needs_ocr@),
        decreases row.needs_ocr@.len() - i,
    {
        let page: u32 = row.needs_ocr[i];
        let ghost done = row.needs_ocr@.take(i as int);
        let ghost next = row.needs_ocr@.take(i + 1);
        if holds_page(&pages, page) {
            proof {
                assert(done.contains(page));
                let a = choose|a: int| 0 <= a < done.len() && done[a] == page;
                assert(row.needs_ocr@[a] == row.needs_ocr@[i as int]);
            }
            repeated = true;
        } else {
            insert_page(&mut pages, page);
            proof {
                assert(next =~= done.push(page));
                assert forall|p: u32| #[trigger] pages@.contains(p) <==> next.contains(p) by {
                    if next.contains(p) {
                        let k = choose|k: int| 0 <= k < next.len() && next[k] == p;
                        if k < i {
                            assert(done[k] == p);
                        }
                    }
                    if done.contains(p) {
                        let k = choose|k: int| 0 <= k < done.len() && done[k] == p;
                        assert(next[k] == p);
                    }
                    assert(next[i as int] == page);
                }
                assert forall|a: int, b: int| 0 <= a < b < i + 1 implies #[trigger]
                    row.needs_ocr@[a] != #[trigger] row.needs_ocr@[b] by {
                    if b == i {
                        assert(done[a] == row.needs_ocr@[a]);
                        assert(done.contains(done[a]));
                    }
                }
            }
        }
        i += 1;
    }
    if repeated {
        return Err(RowFault::Repeated);
    }
    let ghost wanted = |p: u32| row.needs_ocr@.contains(p);
    proof {
        assert(row.needs_ocr@.take(i as int) =~= row.needs_ocr@);
        kept_holds(0x1_0000_0000, wanted);
        assert forall|p: u32| pages@.contains(p) <==> in_order(row.needs_ocr@).contains(p) by {
            assert(wanted(p) == row.needs_ocr@.contains(p));
        }
        increasing_fixed_by_contents(pages@, in_order(row.needs_ocr@));
        assert(!repeats(row.needs_ocr@));
        assert(pages@.subrange(0, pages@.len() as int) =~= pages@);
    }
    let mut k: usize = 0;
    while k < pages.len()
        invariant
            k <= pages@.len(),
            pages@ == in_order(row.needs_ocr@),
            !repeats(row.needs_ocr@),
            first_past(pages@, row.page_count) == first_past(
                pages@.subrange(k as int, pages@.len() as int),
                row.page_count,
            ),
        decreases pages@.len() - k,
    {
        proof {
            let rest = pages@.subrange(k as int, pages@.len() as int);
            assert(rest[0] == pages@[k as int]);
            assert(rest.subrange(1, rest.len() as int) =~= pages@.subrange(
                k + 1,
                pages@.len() as int,
            ));
        }
        if pages[k] >= row.page_count {
            return Err(RowFault::PastTheEnd(pages[k]));
        }
        k += 1;
    }
    Ok(pages)
}

/// One row with its path resolved and its truth validated.
#[derive(Debug, PartialEq, Eq)]
pub struct CorpusDocument {
    /// The row as written.
    pub spec: DocumentSpec,
    /// The row's file resolved against the manifest's directory.
    pub path: String,
    /// The pages that truly need OCR: increasing, in range.
    pub truth: Vec<u32>,
}

impl CorpusDocument {
    /// A name a document may go by: its file's base name, or the file as written when it has
    /// none.
    pub open spec fn may_be_called(self, label: Seq<char>) -> bool {
        exists|name: Option<Seq<char>>| #[trigger]
            may_name(self.path@, name) && label == (match name {
                Some(name) => name,
                None => self.spec.file@,
            })
    }

    /// A short name for the report: the file's base name, or the file as written when it has
    /// none.
    pub fn label(&self) -> (r: String)
        ensures
            self.may_be_called(r@),
    {
        let name: Option<String> = file_name_of(self.path.as_str());
        self.label_from(name)
    }

    /// The name for the report, given the base name of the document's path.
    pub fn label_from(&self, name: Option<String>) -> (r: String)
        ensures
            r@ == (match opt_text(name) {
                Some(name) => name,
                None => self.spec.file@,
            }),
    {
        match name {
            Some(name) => name,
            None => self.spec.file.clone(),
        }
    }
}

/// Why a manifest could not be used.
#[derive(Debug, PartialEq, Eq)]
pub enum CorpusError {
    /// A row is wrong.
    Row {
        /// The manifest.
        manifest: String,
        /// The row.
        row: DocumentSpec,
        /// What is wrong with it.
        fault: RowFault,
    },
    /// The manifest lists no documents.
    Empty {
        /// The manifest.
        manifest: String,
    },
}

/// How a row's fault reads.
pub open spec fn fault_text(row: DocumentSpecModel, fault: RowFault) -> Seq<char> {
    match fault {
        RowFault::Repeated => "needs_ocr lists the same page twice: "@ + bracketed(row.needs_ocr),
        RowFault::PastTheEnd(page) => "needs_ocr contains page "@ + decimal(page as nat)
            + " but page_count is "@ + decimal(row.page_count as nat)
            + " (pages are 0-indexed, so the last page is "@ + decimal(
            if row.page_count == 0 {
                0
            } else {
                (row.page_count - 1) as nat
            },
        ) + ")"@,
    }
}

impl CorpusError {
    /// How the error reads.
    pub open spec fn text(self) -> Seq<char> {
        match self {
            CorpusError::Row { manifest, row, fault } => "in corpus manifest "@ + manifest@
                + ": in manifest entry `"@ + row@.file + "`: "@ + fault_text(row@, fault),
            CorpusError::Empty { manifest } => "corpus manifest "@ + manifest@
                + " lists no documents"@,
        }
    }

    /// How the error reads.
    pub fn message(&self) -> (r: String)
        ensures
            r@ == self.text(),
    {
        match self {
            CorpusError::Row { manifest, row, fault } => {
                let mut text: String = "in corpus manifest ".to_owned();
                text.append(manifest.as_str());
                text.append(": in manifest entry `");
                text.append(row.file.as_str());
                text.append("`: ");
                match fault {
                    RowFault::Repeated => {
                        let mut reading: String =
                            "needs_ocr lists the same page twice: ".to_owned();
                        reading.append(bracket_pages(row.needs_ocr.as_slice()).as_str());
                        text.append(reading.as_str());
                    },
                    RowFault::PastTheEnd(page) => {
                        let mut reading: String = "needs_ocr contains page ".to_owned();
                        push_decimal(&mut reading, *page as u64);
                        reading.append(" but page_count is ");
                        push_decimal(&mut reading, row.page_count as u64);
                        reading.append(" (pages are 0-indexed, so the last page is ");
                        let last: u32 = if row.page_count == 0 {
                            0
                        } else {
                            row.page_count - 1
                        };
                        push_decimal(&mut reading, last as u64);
                        reading.append(")");
                        text.append(reading.as_str());
                    },
                }
                text
            },
            CorpusError::Empty { manifest } => {
                let mut text: String = "corpus manifest ".to_owned();
                text.append(manifest.as_str());
                text.append(" lists no documents");
                text
            },
        }
    }
}

/// A validated corpus.
#[derive(Debug, PartialEq, Eq)]
pub struct Corpus {
    /// Where the manifest was read from.
    pub manifest_path: String,
    /// The documents, in manifest order.
    pub documents: Vec<CorpusDocument>,
}

/// The first row that is wrong.
pub open spec fn first_bad_row(rows: Seq<DocumentSpecModel>) -> Option<(
    DocumentSpecModel,
    RowFault,
)>
    decreases rows.len(),
{
    if rows.len() == 0 {
        None
    } else {
        match truth_of(rows[0]) {
            Err(fault) => Some((rows[0], fault)),
            Ok(_) => first_bad_row(rows.subrange(1, rows.len() as int)),
        }
    }
}

/// `document` is `row` with its truth validated and its file resolved against `directory`.
pub open spec fn placed(
    row: DocumentSpecModel,
    directory: Seq<char>,
    document: CorpusDocument,
) -> bool {
    &&& document.spec@ == row
    &&& truth_of(row) == Ok::<Seq<u32>, RowFault>(document.truth@)
    &&& may_join(directory, row.file, document.path@)
}

/// `directory` may be where the files of the manifest at `path` are looked for.
pub open spec fn may_be_base(path: Seq<char>, directory: Seq<char>) -> bool {
    exists|parent: Option<Seq<char>>| #[trigger]
        may_lie_in(path, parent) && directory == (match parent {
            Some(parent) => parent,
            None => "."@,
        })
}

impl Corpus {
    /// `r` is what the rows of the manifest at `path` come to when their files are looked for
    /// in `directory`.
    pub open spec fn built(
        path: Seq<char>,
        rows: Seq<DocumentSpecModel>,
        directory: Seq<char>,
        r: Result<Corpus, CorpusError>,
    ) -> bool {
        match first_bad_row(rows) {
            Some((row, fault)) => r is Err && r->Err_0 is Row && r->Err_0->Row_manifest@ == path
                && r->Err_0->row@ == row && r->Err_0->fault == fault,
            None => if rows.len() == 0 {
                r is Err && r->Err_0 is Empty && r->Err_0->Empty_manifest@ == path
            } else {
                &&& r is Ok
                &&& r->Ok_0.manifest_path@ == path
                &&& r->Ok_0.documents@.len() == rows.len()
                &&& forall|i: int|
                    0 <= i < rows.len() ==> placed(
                        #[trigger] rows[i],
                        directory,
                        r->Ok_0.documents@[i],
                    )
            },
        }
    }

    /// Validate a manifest. `path` resolves the documents' relative paths and names the file
    /// in errors.
    pub fn parse(path: &str, manifest: Manifest) -> (r: Result<Corpus, CorpusError>)
        ensures
            exists|directory: Seq<char>| #[trigger]
                may_be_base(path@, directory) && Corpus::built(
                    path@,
                    spec_models(manifest.documents@),
                    directory,
                    r,
                ),
    {
        let directory: String = match parent_of(path) {
            Some(parent) => parent,
            None => ".".to_owned(),
        };
        assert(may_be_base(path@, directory@));
        Corpus::place(path, manifest, directory.as_str())
    }

    /// Validate a manifest whose files are looked for in `directory`.
    pub fn place(path: &str, manifest: Manifest, directory: &str) -> (r: Result<
        Corpus,
        CorpusError,
    >)
        ensures
            Corpus::built(path@, spec_models(manifest.documents@), directory@, r),
    {
        let ghost rows = spec_models(manifest.documents@);
        let mut documents: Vec<CorpusDocument> = Vec::new();
        let mut i: usize = 0;
        assert(rows.subrange(0, rows.len() as int) =~= rows);
        while i < manifest.documents.len()
            invariant
                i <= manifest.documents@.len(),
                rows == spec_models(manifest.documents@),
                first_bad_row(rows) == first_bad_row(rows.subrange(i as int, rows.len() as int)),
                documents@.len() == i,
                forall|k: int|
                    0 <= k < i ==> placed(#[trigger] rows[k], directory@, documents@[k]),
            decreases manifest.documents@.len() - i,
        {
            let row: &DocumentSpec = &manifest.documents[i];
            proof {
                let rest = rows.subrange(i as int, rows.len() as int);
                assert(rest[0] == row@);
                assert(rest.subrange(1, rest.len() as int) =~= rows.subrange(
                    i + 1,
                    rows.len() as int,
                ));
            }
            match validated_truth(row) {
                Ok(truth) => {
                    let document = CorpusDocument {
                        path: join_path(directory, row.file.as_str()),
                        spec: row.clone(),
                        truth,
                    };
                    assert(placed(rows[i as int], directory@, document));
                    documents.push(document);
                },
                Err(fault) => {
                    return Err(
                        CorpusError::Row { manifest: path.to_owned(), row: row.clone(), fault },
                    );
                },
            }
            i += 1;
        }
        assert(first_bad_row(rows) is None);
        if documents.len() == 0 {
            return Err(CorpusError::Empty { manifest: path.to_owned() });
        }
        Ok(Corpus { manifest_path: path.to_owned(), documents })
    }

    /// The distinct `source` values, in first-seen order.
    pub fn sources(&self) -> (r: Vec<String>)
        ensures
            texts(r@) == first_seen(sources_of(self.documents@)),
    {
        let ghost all = sources_of(self.documents@);
        let mut seen: Vec<String> = Vec::new();
        let mut i: usize = 0;
        assert(texts(seen@) =~= first_seen(all.take(0)));
        while i < self.documents.len()
            invariant
                i <= self.documents@.len(),
                all == sources_of(self.documents@),
                texts(seen@) == first_seen(all.take(i as int)),
            decreases self.documents@.len() - i,
        {
            let source: &String = &self.documents[i].spec.source;
            proof {
                assert(all.take(i + 1).drop_last() =~= all.take(i as int));
                assert(all.take(i + 1).last() == source@);
            }
            if !holds_text(&seen, source.as_str()) {
                crate::text::push_text(&mut seen, source.clone());
            }
            i += 1;
        }
        assert(all.take(all.len() as int) =~= all);
        seen
    }
}

/// The sources of a list of documents.
pub open spec fn sources_of(documents: Seq<CorpusDocument>) -> Seq<Seq<char>> {
    documents.map_values(|d: CorpusDocument| d.spec.source@)
}

/// Each text once, where it first stands.
pub open spec fn first_seen(all: Seq<Seq<char>>) -> Seq<Seq<char>>
    decreases all.len(),
{
    if all.len() == 0 {
        Seq::empty()
    } else {
        let before = first_seen(all.drop_last());
        if before.contains(all.last()) {
            before
        } else {
            before.push(all.last())
        }
    }
}

/// Whether a list of texts holds `text`.
pub fn holds_text(parts: &Vec<String>, text: &str) -> (r: bool)
    ensures
        r == texts(parts@).contains(text@),
{
    let mut i: usize = 0;
    while i < parts.len()
        invariant
            i <= parts@.len(),
            forall|k: int| 0 <= k < i ==> #[trigger] texts(parts@)[k] != text@,
        decreases parts@.len() - i,
    {
        assert(texts(parts@)[i as int] == parts@[i as int]@);
        if same_text(parts[i].as_str(), text) {
            return true;
        }
        i += 1;
    }
    false
}

/// The listed sources are exactly those of the documents, and none is listed twice.
pub proof fn sources_are_listed_once(all: Seq<Seq<char>>)
    ensures
        first_seen(all).no_duplicates(),
        forall|s: Seq<char>| #[trigger] first_seen(all).contains(s) <==> all.contains(s),
    decreases all.len(),
{
    if all.len() > 0 {
        let rest = all.drop_last();
        let before = first_seen(rest);
        sources_are_listed_once(rest);
        assert forall|s: Seq<char>| #[trigger] first_seen(all).contains(s) <==> all.contains(
            s,
        ) by {
            if all.contains(s) {
                let k = choose|k: int| 0 <= k < all.len() && all[k] == s;
                if k < rest.len() {
                    assert(rest[k] == s);
                    assert(before.contains(s));
                    let m = choose|m: int| 0 <= m < before.len() && before[m] == s;
                    assert(first_seen(all)[m] == s);
                } else if !before.contains(s) {
                    assert(first_seen(all)[before.len() as int] == s);
                }
            }
            if first_seen(all).contains(s) {
                let m = choose|m: int| 0 <= m < first_seen(all).len() && first_seen(all)[m] == s;
                if m < before.len() {
                    assert(before[m] == s);
                    assert(before.contains(s));
                    assert(rest.contains(s));
                    let k = choose|k: int| 0 <= k < rest.len() && rest[k] == s;
                    assert(all[k] == s);
                } else {
                    assert(all[all.len() - 1] == s);
                }
            }
        }
    }
}

/// A validated truth is increasing, in range, and lists exactly the pages of its row.
pub proof fn truth_is_the_row_in_order(row: DocumentSpecModel)
    requires
        truth_of(row) is Ok,
    ensures
        increasing(truth_of(row)->Ok_0),
        forall|p: u32| #[trigger] truth_of(row)->Ok_0.contains(p) <==> row.needs_ocr.contains(p),
        forall|i: int|
            0 <= i < truth_of(row)->Ok_0.len() ==> #[trigger] truth_of(row)->Ok_0[i]
                < row.page_count,
{
    let wanted = |p: u32| row.needs_ocr.contains(p);
    let truth = in_order(row.needs_ocr);
    kept_holds(0x1_0000_0000, wanted);
    assert forall|p: u32| #[trigger] truth.contains(p) <==> row.needs_ocr.contains(p) by {
        assert(wanted(p) == row.needs_ocr.contains(p));
    }
    assert(truth.subrange(0, truth.len() as int) =~= truth);
    none_past(truth, row.page_count);
}

proof fn none_past(pages: Seq<u32>, page_count: u32)
    requires
        first_past(pages, page_count) is None,
    ensures
        forall|i: int| 0 <= i < pages.len() ==> #[trigger] pages[i] < page_count,
    decreases pages.len(),
{
    if pages.len() > 0 {
        let rest = pages.subrange(1, pages.len() as int);
        none_past(rest, page_count);
        assert forall|i: int| 0 <= i < pages.len() implies #[trigger] pages[i] < page_count by {
            if i > 0 {
                assert(rest[i - 1] == pages[i]);
            }
        }
    }
}

/// When a row's truth is taken: exactly when no page is listed twice and every one exists. A
/// repeated page is the fault wherever there is one; otherwise it is the least page that does not
/// exist.
pub proof fn when_a_rows_truth_is_taken(row: DocumentSpecModel)
    ensures
        truth_of(row) is Ok <==> (forall|i: int, j: int|
            0 <= i < j < row.needs_ocr.len() ==> #[trigger] row.needs_ocr[i]
                != #[trigger] row.needs_ocr[j]) && (forall|i: int|
            0 <= i < row.needs_ocr.len() ==> #[trigger] row.needs_ocr[i] < row.page_count),
        truth_of(row) == Err::<Seq<u32>, RowFault>(RowFault::Repeated) <==> exists|i: int, j: int|
            0 <= i < j < row.needs_ocr.len() && #[trigger] row.needs_ocr[i]
                == #[trigger] row.needs_ocr[j],
        truth_of(row) matches Err(RowFault::PastTheEnd(page)) ==> {
            &&& row.needs_ocr.contains(page)
            &&& page >= row.page_count
            &&& forall|i: int|
                0 <= i < row.needs_ocr.len() && #[trigger] row.needs_ocr[i] >= row.page_count
                    ==> row.needs_ocr[i] >= page
        },
{
    let wanted = |p: u32| row.needs_ocr.contains(p);
    let sorted = in_order(row.needs_ocr);
    kept_holds(0x1_0000_0000, wanted);
    assert forall|p: u32| #[trigger] sorted.contains(p) <==> row.needs_ocr.contains(p) by {
        assert(wanted(p) == row.needs_ocr.contains(p));
    }
    first_past_is_the_first(sorted, row.page_count);
    if first_past(sorted, row.page_count) is None {
        assert forall|i: int| 0 <= i < row.needs_ocr.len() implies #[trigger] row.needs_ocr[i]
            < row.page_count by {
            assert(row.needs_ocr.contains(row.needs_ocr[i]));
            assert(sorted.contains(row.needs_ocr[i]));
            let k = choose|k: int| 0 <= k < sorted.len() && sorted[k] == row.needs_ocr[i];
            assert(sorted[k] < row.page_count);
        }
    } else {
        let page = first_past(sorted, row.page_count)->0;
        assert(sorted.contains(page));
        assert(row.needs_ocr.contains(page));
        let at = choose|at: int| 0 <= at < row.needs_ocr.len() && row.needs_ocr[at] == page;
        assert(row.needs_ocr[at] >= row.page_count);
        assert forall|i: int|
            0 <= i < row.needs_ocr.len() && #[trigger] row.needs_ocr[i]
                >= row.page_count implies row.needs_ocr[i] >= page by {
            assert(row.needs_ocr.contains(row.needs_ocr[i]));
            assert(sorted.contains(row.needs_ocr[i]));
            let k = choose|k: int| 0 <= k < sorted.len() && sorted[k] == row.needs_ocr[i];
            assert(sorted[k] >= page);
        }
    }
}

proof fn first_past_is_the_first(pages: Seq<u32>, page_count: u32)
    requires
        increasing(pages),
    ensures
        first_past(pages, page_count) is None <==> forall|i: int|
            0 <= i < pages.len() ==> #[trigger] pages[i] < page_count,
        first_past(pages, page_count) is Some ==> pages.contains(first_past(pages, page_count)->0)
            && first_past(pages, page_count)->0 >= page_count && forall|i: int|
            0 <= i < pages.len() && #[trigger] pages[i] >= page_count ==> pages[i] >= first_past(
                pages,
                page_count,
            )->0,
    decreases pages.len(),
{
    if pages.len() > 0 {
        if pages[0] >= page_count {
            assert(pages.contains(pages[0]));
            assert forall|i: int| 0 <= i < pages.len() && #[trigger] pages[i]
                >= page_count implies pages[i] >= pages[0] by {
                if i > 0 {
                    assert(pages[0] < pages[i]);
                }
            }
        } else {
            let rest = pages.subrange(1, pages.len() as int);
            assert forall|i: int, j: int| 0 <= i < j < rest.len() implies #[trigger] rest[i]
                < #[trigger] rest[j] by {
                assert(pages[i + 1] < pages[j + 1]);
            }
            first_past_is_the_first(rest, page_count);
            if first_past(rest, page_count) is Some {
                let found = first_past(rest, page_count)->0;
                let k = choose|k: int| 0 <= k < rest.len() && rest[k] == found;
                assert(pages[k + 1] == found);
                assert forall|i: int| 0 <= i < pages.len() && #[trigger] pages[i]
                    >= page_count implies pages[i] >= found by {
                    assert(rest[i - 1] == pages[i]);
                }
            } else {
                assert forall|i: int| 0 <= i < pages.len() implies #[trigger] pages[i]
                    < page_count by {
                    if i > 0 {
                        assert(rest[i - 1] == pages[i]);
                    }
                }
            }
        }
    }
}

proof fn first_bad_row_is_the_first(rows: Seq<DocumentSpecModel>)
    ensures
        first_bad_row(rows) is None <==> forall|i: int|
            0 <= i < rows.len() ==> truth_of(#[trigger] rows[i]) is Ok,
        first_bad_row(rows) is Some ==> exists|i: int|
            0 <= i < rows.len() && (#[trigger] rows[i]) == (first_bad_row(rows)->0).0 && truth_of(
                rows[i],
            ) == Err::<Seq<u32>, RowFault>((first_bad_row(rows)->0).1) && forall|k: int|
                0 <= k < i ==> truth_of(#[trigger] rows[k]) is Ok,
    decreases rows.len(),
{
    if rows.len() > 0 {
        if truth_of(rows[0]) is Ok {
            let rest = rows.subrange(1, rows.len() as int);
            first_bad_row_is_the_first(rest);
            if first_bad_row(rest) is Some {
                let i = choose|i: int|
                    0 <= i < rest.len() && (#[trigger] rest[i]) == (first_bad_row(rest)->0).0
                        && truth_of(rest[i]) == Err::<Seq<u32>, RowFault>(
                        (first_bad_row(rest)->0).1,
                    ) && forall|k: int| 0 <= k < i ==> truth_of(#[trigger] rest[k]) is Ok;
                assert(rows[i + 1] == rest[i]);
                assert forall|k: int| 0 <= k < i + 1 implies truth_of(#[trigger] rows[k]) is Ok by {
                    if k > 0 {
                        assert(rest[k - 1] == rows[k]);
                    }
                }
            } else {
                assert forall|k: int| 0 <= k < rows.len() implies truth_of(
                    #[trigger] rows[k],
                ) is Ok by {
                    if k > 0 {
                        assert(rest[k - 1] == rows[k]);
                    }
                }
            }
        } else {
            assert(rows[0] == (first_bad_row(rows)->0).0);
        }
    }
}

/// When a manifest is taken: exactly when it lists a document and every row's truth is taken. The
/// documents are then the rows, in order, each with its truth. Otherwise the first row with a
/// fault is named, or that there is none at all.
pub proof fn when_a_manifest_is_taken(
    path: Seq<char>,
    rows: Seq<DocumentSpecModel>,
    directory: Seq<char>,
    r: Result<Corpus, CorpusError>,
)
    requires
        Corpus::built(path, rows, directory, r),
    ensures
        r is Ok <==> rows.len() > 0 && forall|i: int|
            0 <= i < rows.len() ==> truth_of(#[trigger] rows[i]) is Ok,
        r is Ok ==> {
            &&& r->Ok_0.manifest_path@ == path
            &&& r->Ok_0.documents@.len() == rows.len()
            &&& forall|i: int|
                0 <= i < rows.len() ==> (#[trigger] r->Ok_0.documents@[i]).spec@ == rows[i]
                    && truth_of(rows[i]) == Ok::<Seq<u32>, RowFault>(
                    r->Ok_0.documents@[i].truth@,
                ) && may_join(directory, rows[i].file, r->Ok_0.documents@[i].path@)
        },
        r is Err && r->Err_0 is Row ==> exists|i: int|
            0 <= i < rows.len() && (#[trigger] rows[i]) == r->Err_0->row@ && truth_of(rows[i])
                == Err::<Seq<u32>, RowFault>(r->Err_0->fault) && forall|k: int|
                0 <= k < i ==> truth_of(#[trigger] rows[k]) is Ok,
        r is Err && r->Err_0 is Empty <==> rows.len() == 0,
{
    first_bad_row_is_the_first(rows);
    if r is Ok {
        assert forall|i: int| 0 <= i < rows.len() implies (
        #[trigger] r->Ok_0.documents@[i]).spec@ == rows[i] && truth_of(rows[i]) == Ok::<
            Seq<u32>,
            RowFault,
        >(r->Ok_0.documents@[i].truth@) && may_join(
            directory,
            rows[i].file,
            r->Ok_0.documents@[i].path@,
        ) by {
            assert(placed(rows[i], directory, r->Ok_0.documents@[i]));
        }
    }
}

/// A document goes by the name its path ends with, or by the manifest's file where it has none.
pub proof fn a_document_goes_by_its_name(
    document: &CorpusDocument,
    name: Option<String>,
    label: String,
)
    requires
        call_ensures(CorpusDocument::label_from, (document, name), label),
    ensures
        name is Some ==> label@ == name->0@,
        name is None ==> label@ == document.spec.file@,
{
}

} // verus!
