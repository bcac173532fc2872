//! The one error type the routing core returns.

use vstd::prelude::*;
use vstd::string::*;

verus! {

/// Everything that can go wrong inside the routing core.
///
/// The core never performs I/O of its own, so every variant is a configuration mistake, a
/// malformed document, or a failure reported by the host that executes the OCR legs.
#[derive(Debug)]
pub enum Error {
    /// The configuration block is not usable as written.
    InvalidConfig(String),
    /// The bytes handed in do not start with the `%PDF` magic number.
    NotPdf,
    /// The inspector could not read the document.
    Pdf(String),
    /// The document could not be split into a page subset.
    Split(String),
    /// The host reported a failure while running a leg.
    Host(String),
    /// A page judge failed, or broke the one-verdict-per-page-in-order contract.
    Judge(String),
    /// One leg of a multi-leg plan failed.
    LegFailed {
        /// The model the failed leg was routed to.
        model: String,
        /// The underlying failure.
        source: Box<Error>,
    },
}

/// An [`Error`] with its texts as character sequences.
pub ghost enum ErrorModel {
    InvalidConfig(Seq<char>),
    NotPdf,
    Pdf(Seq<char>),
    Split(Seq<char>),
    Host(Seq<char>),
    Judge(Seq<char>),
    LegFailed { model: Seq<char>, source: Box<ErrorModel> },
}

impl Error {
    /// The error with its texts as character sequences.
    pub open spec fn model(self) -> ErrorModel
        decreases self,
    {
        match self {
            Error::InvalidConfig(detail) => ErrorModel::InvalidConfig(detail@),
            Error::NotPdf => ErrorModel::NotPdf,
            Error::Pdf(detail) => ErrorModel::Pdf(detail@),
            Error::Split(detail) => ErrorModel::Split(detail@),
            Error::Host(detail) => ErrorModel::Host(detail@),
            Error::Judge(detail) => ErrorModel::Judge(detail@),
            Error::LegFailed { model, source } => ErrorModel::LegFailed {
                model: model@,
                source: Box::new((*source).model()),
            },
        }
    }
}

impl View for Error {
    type V = ErrorModel;

    open spec fn view(&self) -> ErrorModel {
        self.model()
    }
}

impl ErrorModel {
    /// The sentence the error prints as.
    pub open spec fn text(self) -> Seq<char>
        decreases self,
    {
        match self {
            ErrorModel::InvalidConfig(detail) => "invalid doc_router config: "@ + detail,
            ErrorModel::NotPdf => "document is not a PDF"@,
            ErrorModel::Pdf(detail) => "PDF error: "@ + detail,
            ErrorModel::Split(detail) => "PDF split failed: "@ + detail,
            ErrorModel::Host(detail) => "OCR host error: "@ + detail,
            ErrorModel::Judge(detail) => "page judge error: "@ + detail,
            ErrorModel::LegFailed { model, source } => "leg for model "@ + model + " failed: "@
                + source.text(),
        }
    }
}

impl Error {
    /// The sentence the error prints as.
    pub fn message(&self) -> (r: String)
        ensures
            r@ == self@.text(),
        decreases self,
    {
        match self {
            Error::InvalidConfig(detail) => "invalid doc_router config: ".to_owned().concat(
                detail.as_str(),
            ),
            Error::NotPdf => "document is not a PDF".to_owned(),
            Error::Pdf(detail) => "PDF error: ".to_owned().concat(detail.as_str()),
            Error::Split(detail) => "PDF split failed: ".to_owned().concat(detail.as_str()),
            Error::Host(detail) => "OCR host error: ".to_owned().concat(detail.as_str()),
            Error::Judge(detail) => "page judge error: ".to_owned().concat(detail.as_str()),
            Error::LegFailed { model, source } => {
                let inner: String = source.message();
                "leg for model ".to_owned().concat(model.as_str()).concat(" failed: ").concat(
                    inner.as_str(),
                )
            },
        }
    }
}

/// What an error prints as: what failed, then the detail it carries, word for word.
pub proof fn an_error_prints_its_detail(detail: Seq<char>, model: Seq<char>, source: ErrorModel)
    ensures
        ErrorModel::InvalidConfig(detail).text() == "invalid doc_router config: "@ + detail,
        ErrorModel::NotPdf.text() == "document is not a PDF"@,
        ErrorModel::Pdf(detail).text() == "PDF error: "@ + detail,
        ErrorModel::Split(detail).text() == "PDF split failed: "@ + detail,
        ErrorModel::Host(detail).text() == "OCR host error: "@ + detail,
        ErrorModel::Judge(detail).text() == "page judge error: "@ + detail,
        (ErrorModel::LegFailed { model, source: Box::new(source) }).text() == "leg for model "@
            + model + " failed: "@ + source.text(),
{
    reveal_with_fuel(ErrorModel::text, 2);
}

} // verus!
