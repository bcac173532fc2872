# doc_router

Per-page routing of PDF documents between local text extraction and OCR models, written and
verified in Verus.

A document is classified page by page, a decision table turns the classification into a plan,
the plan's legs run locally or on an OCR host, and their pages are merged back in order. A judge
decides which pages need OCR; a benchmark scores judges against documents whose truth is known.

## Layout

- `src/` — the verified library.
  - `classify`, `judge`, `policy`, `run`, `merge`, `metadata`, `extract`, `config`, `error`: the
    router.
  - `split`, `pdf`: page subsetting, over the objects of the `lopdf` crate.
  - `inspector`, `clock`, `json`: boundaries to `pdf_inspector`, the clock and `serde_json`.
  - `jev`: a judge that asks a hosted model, as a state machine without the HTTP.
  - `cli`: requests and replies of the OCR host, judge names, and what the command line prints.
  - `bench`: manifests, scoring, judge reports and their rendering.
  - `binding`: the shapes a dynamically typed caller passes in and gets back.
  - `text`, `number`, `order`: text layout, IEEE numbers by their bits, ordered page lists.
- `app/` — ordinary Rust around the library: the command line, HTTP, threads, files, serde, the
  floating-point figures of a report, and a Python extension module.
- `tests/` — tests of the library from outside.

## What is proved

Every function of `src/` states what it returns over mathematical models and is proved against
that statement, free of panics and overflow. Calls into outside crates stand behind small
functions whose contracts are believed; each says in its comment what is claimed of the call and
what is not. Inside such a call nothing is proved: a malformed PDF whose page tree declares an
enormous page count can make `pdf_inspector` reserve memory that no machine has, and abort. Where
an outside call may answer one document in more than one way, the contract is
a relation: the result is one that some answer of the call leads to.

Single and double precision numbers appear in `src/` as their bit patterns. Rates, money and
times are computed in `app/` and handed to the library as the text they print as.
