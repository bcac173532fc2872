//! The policy around the hosted model.
//!
//! [`wire`](crate::jev::wire) knows the protocol; this module knows what to do about it: what
//! a confidence means, when to call at all, and what to do when a call fails. The HTTP call
//! itself is made outside: an [`Inquiry`] says which chunk to ask about next and takes what
//! came back.

use crate::error::{Error, ErrorModel};
use crate::jev::wire::{
    answers_model, chunked, chunks, laid_out, reading_of, ProtocolError, ProtocolErrorModel,
    Reading, SystemOneResponse, DEFAULT_BASE_URL, DEFAULT_MODEL, ENDPOINT_PATH,
};
use crate::judge::{
    evidence_models, heuristic_verdicts, verdict_models, verdict_outcome, HeuristicJudge,
    PageEvidence, PageEvidenceModel, PageVerdict, PageVerdictModel,
};
use crate::number::Real32;
use crate::text::{
    blank, chars_of, cut, decimal, is_blank, opt_text, push_decimal, text_of, truncate,
};
use vstd::prelude::*;
use vstd::string::*;

verus! {

/// The registry name for [`JevMode::Always`].
pub const JUDGE_NAME_ALWAYS: &'static str = "jev";

/// The registry name for [`JevMode::Gated`].
pub const JUDGE_NAME_GATED: &'static str = "jev_gated";

/// Default probability at or above which a page is routed to OCR: the bit pattern of 0.5.
pub const DEFAULT_THRESHOLD: u32 = 0x3f00_0000;

/// Consecutive failures that open the circuit breaker.
pub const DEFAULT_FAILURE_THRESHOLD: u32 = 3;

/// How long the breaker stays open before the next call is allowed through: 30 seconds.
pub const DEFAULT_COOL_OFF_NANOS: u64 = 30_000_000_000;

/// Environment variable that overrides [`DEFAULT_BASE_URL`].
pub const BASE_URL_ENV_VAR: &'static str = "TYPESAFE_BASE_URL";

/// Environment variable that overrides [`DEFAULT_MODEL`].
pub const MODEL_ENV_VAR: &'static str = "TYPESAFE_MODEL";

/// Recorded on a page the model says needs OCR.
pub const REASON_NEEDS_OCR: &'static str = "jev_needs_ocr";

/// Recorded on a page the model says is fine as extracted.
pub const REASON_CLEAR: &'static str = "jev_clear";

/// Recorded on every page of a document that is not ambiguous, when only ambiguous ones are
/// asked about. The verdicts are the heuristic's; the reason says so.
pub const REASON_NOT_ESCALATED: &'static str = "jev_not_escalated";

/// Recorded on a fallback because the request timed out.
pub const REASON_FALLBACK_TIMEOUT: &'static str = "jev_fallback_timeout";

/// Recorded on a fallback because of a transport failure or a non-2xx status.
pub const REASON_FALLBACK_HTTP: &'static str = "jev_fallback_http";

/// Recorded on a fallback because the response did not answer the question asked.
pub const REASON_FALLBACK_PROTOCOL: &'static str = "jev_fallback_protocol";

/// Recorded on a fallback without a call, because the circuit breaker is open.
pub const REASON_FALLBACK_BREAKER_OPEN: &'static str = "jev_fallback_breaker_open";

/// How many characters of a failing response body land in the error message.
pub const ERROR_BODY_CHARS: usize = 300;

/// When the judge calls out to the hosted model. One judge with two admission policies.
#[derive(Clone, Copy, Debug, PartialEq, Eq, Structural)]
pub enum JevMode {
    /// Every document goes to the model, every page of it.
    Always,
    /// Only documents [`is_ambiguous`] calls ambiguous go to the model.
    Gated,
}

impl Default for JevMode {
    fn default() -> (r: Self)
        ensures
            r == JevMode::Always,
    {
        JevMode::Always
    }
}

impl JevMode {
    /// The stable name this mode is registered and reported under.
    pub open spec fn name(self) -> Seq<char> {
        match self {
            JevMode::Always => JUDGE_NAME_ALWAYS@,
            JevMode::Gated => JUDGE_NAME_GATED@,
        }
    }

    /// The stable name this mode is registered and reported under.
    #[must_use]
    pub fn judge_name(self) -> (r: &'static str)
        ensures
            r@ == self.name(),
    {
        match self {
            JevMode::Always => JUDGE_NAME_ALWAYS,
            JevMode::Gated => JUDGE_NAME_GATED,
        }
    }
}

/// Whether a document is worth paying a hosted model to look at: broken encodings somewhere,
/// or some pages flagged and others not, or a flagged page without a reason.
pub open spec fn ambiguous(evidence: Seq<PageEvidenceModel>) -> bool {
    ||| exists|i: int| 0 <= i < evidence.len() && (#[trigger] evidence[i]).has_encoding_issues
    ||| (exists|i: int| 0 <= i < evidence.len() && (#[trigger] evidence[i]).flagged_by_inspector)
        && (exists|i: int|
        0 <= i < evidence.len() && !(#[trigger] evidence[i]).flagged_by_inspector)
    ||| exists|i: int|
        0 <= i < evidence.len() && (#[trigger] evidence[i]).flagged_by_inspector
            && evidence[i].reasons.len() == 0
}

/// Is this document worth paying a hosted model to look at?
///
/// Each clause is a different way for the inspector's own answer to be untrustworthy. Layout
/// complexity is deliberately not one of them: a complex layout that extracts correctly needs
/// no OCR.
#[must_use]
pub fn is_ambiguous(evidence: &[PageEvidence]) -> (r: bool)
    ensures
        r == ambiguous(evidence_models(evidence@)),
{
    let ghost models = evidence_models(evidence@);
    let mut flagged: bool = false;
    let mut clear: bool = false;
    let mut i: usize = 0;
    while i < evidence.len()
        invariant
            i <= evidence@.len(),
            models == evidence_models(evidence@),
            flagged <==> exists|k: int| 0 <= k < i && (#[trigger] models[k]).flagged_by_inspector,
            clear <==> exists|k: int| 0 <= k < i && !(#[trigger] models[k]).flagged_by_inspector,
            forall|k: int|
                0 <= k < i ==> !(#[trigger] models[k]).has_encoding_issues && !(
                models[k].flagged_by_inspector && models[k].reasons.len() == 0),
        decreases evidence@.len() - i,
    {
        let page: &PageEvidence = &evidence[i];
        assert(models[i as int] == page@);
        if page.has_encoding_issues {
            return true;
        }
        if page.flagged_by_inspector {
            if page.reasons.len() == 0 {
                return true;
            }
            flagged = true;
        } else {
            clear = true;
        }
        i += 1;
    }
    flagged && clear
}

/// Layout complexity alone never makes a document ambiguous.
pub proof fn layout_is_not_ambiguity(
    evidence: Seq<PageEvidenceModel>,
    other: Seq<PageEvidenceModel>,
)
    requires
        evidence.len() == other.len(),
        forall|i: int|
            0 <= i < evidence.len() ==> (#[trigger] evidence[i]).has_encoding_issues
                == other[i].has_encoding_issues && evidence[i].flagged_by_inspector
                == other[i].flagged_by_inspector && evidence[i].reasons == other[i].reasons,
    ensures
        ambiguous(evidence) == ambiguous(other),
{
    assert forall|i: int| 0 <= i < other.len() implies (
    #[trigger] other[i]).has_encoding_issues == evidence[i].has_encoding_issues
        && other[i].flagged_by_inspector == evidence[i].flagged_by_inspector && other[i].reasons
        == evidence[i].reasons by {}
}

/// One call as it happened, for cost and latency reporting.
#[derive(Debug, PartialEq, Eq)]
pub struct CallRecord {
    /// The 0-indexed pages this call asked about.
    pub pages: Vec<u32>,
    /// Wall-clock duration of the HTTP round trip, in milliseconds.
    pub elapsed_ms: u128,
    /// The HTTP status returned, when a response arrived at all.
    pub status: Option<u16>,
    /// Input tokens the response reported, when it reported any.
    pub input_tokens: Option<u64>,
    /// Output tokens the response reported, when it reported any.
    pub output_tokens: Option<u64>,
}

/// How a call failed, in the granularity the reason strings distinguish.
#[derive(Clone, Copy, Debug, PartialEq, Eq, Structural)]
pub enum FailureClass {
    /// No response in time.
    Timeout,
    /// A transport failure or a non-2xx status.
    Http,
    /// A response that does not answer the question asked.
    Protocol,
    /// No call was made: the breaker is open.
    BreakerOpen,
}

impl FailureClass {
    /// The reason recorded on a fallback of this class.
    pub open spec fn text(self) -> Seq<char> {
        match self {
            FailureClass::Timeout => REASON_FALLBACK_TIMEOUT@,
            FailureClass::Http => REASON_FALLBACK_HTTP@,
            FailureClass::Protocol => REASON_FALLBACK_PROTOCOL@,
            FailureClass::BreakerOpen => REASON_FALLBACK_BREAKER_OPEN@,
        }
    }

    /// The reason recorded on a fallback of this class.
    pub fn reason(self) -> (r: &'static str)
        ensures
            r@ == self.text(),
    {
        match self {
            FailureClass::Timeout => REASON_FALLBACK_TIMEOUT,
            FailureClass::Http => REASON_FALLBACK_HTTP,
            FailureClass::Protocol => REASON_FALLBACK_PROTOCOL,
            FailureClass::BreakerOpen => REASON_FALLBACK_BREAKER_OPEN,
        }
    }
}

/// A failed call: what class it was, and a message that names no credentials.
#[derive(Debug, PartialEq)]
pub struct Failure {
    /// What class of failure it was.
    pub class: FailureClass,
    /// The message.
    pub detail: String,
}

/// A [`Failure`] with its text as a character sequence.
pub ghost struct FailureModel {
    pub class: FailureClass,
    pub detail: Seq<char>,
}

impl View for Failure {
    type V = FailureModel;

    open spec fn view(&self) -> FailureModel {
        FailureModel { class: self.class, detail: self.detail@ }
    }
}

/// The failure an unusable response counts as.
pub open spec fn protocol_failure_model(error: ProtocolErrorModel) -> FailureModel {
    FailureModel {
        class: FailureClass::Protocol,
        detail: "System One response is unusable: "@ + error.text(),
    }
}

/// The failure an unusable response counts as.
pub fn protocol_failure(error: &ProtocolError) -> (r: Failure)
    requires
        error@.proper(),
    ensures
        r@ == protocol_failure_model(error@),
{
    let text: String = error.message();
    Failure {
        class: FailureClass::Protocol,
        detail: "System One response is unusable: ".to_owned().concat(text.as_str()),
    }
}

/// How long ago `then` was: nothing when it is not in the past.
pub open spec fn elapsed(then: u64, now: u64) -> int {
    if now >= then {
        now - then
    } else {
        0
    }
}

/// Consecutive-failure state. Moments are nanoseconds on one monotonic clock.
#[derive(Clone, Copy, Debug, PartialEq, Eq, Structural)]
pub struct Breaker {
    /// How many calls in a row have failed.
    pub consecutive_failures: u32,
    /// When the breaker opened, while it is open.
    pub opened_at: Option<u64>,
}

impl Default for Breaker {
    fn default() -> (r: Self)
        ensures
            r == Breaker::closed(),
    {
        Breaker { consecutive_failures: 0, opened_at: None }
    }
}

impl Breaker {
    /// No failure on record.
    pub open spec fn closed() -> Breaker {
        Breaker { consecutive_failures: 0, opened_at: None }
    }

    /// The cool-off of an open breaker has elapsed.
    pub open spec fn expired(self, now: u64, cool_off: u64) -> bool {
        self.opened_at is Some && elapsed(self.opened_at->0, now) >= cool_off
    }

    /// Calls are refused.
    pub open spec fn refuses(self, now: u64, cool_off: u64) -> bool {
        self.opened_at is Some && !self.expired(now, cool_off)
    }

    /// The state after one more failure.
    pub open spec fn failed(self, threshold: u32, now: u64) -> Breaker {
        let run = if self.consecutive_failures == u32::MAX {
            u32::MAX
        } else {
            (self.consecutive_failures + 1) as u32
        };
        Breaker {
            consecutive_failures: run,
            opened_at: if threshold > 0 && run >= threshold {
                Some(now)
            } else {
                self.opened_at
            },
        }
    }

    /// True when the breaker is open and the cool-off has not yet elapsed.
    ///
    /// Reading it also closes an expired breaker, so the next call goes through and either
    /// succeeds (resetting the count) or fails (counting towards opening it again): one probe
    /// per cool-off period.
    pub fn is_open(&mut self, now: u64, cool_off: u64) -> (r: bool)
        ensures
            r == old(self).refuses(now, cool_off),
            *final(self) == (if old(self).expired(now, cool_off) {
                Breaker::closed()
            } else {
                *old(self)
            }),
    {
        match self.opened_at {
            None => false,
            Some(opened_at) => {
                if now.saturating_sub(opened_at) >= cool_off {
                    self.opened_at = None;
                    self.consecutive_failures = 0;
                    false
                } else {
                    true
                }
            },
        }
    }

    /// A call succeeded: the run of failures is over.
    pub fn record_success(&mut self)
        ensures
            *final(self) == Breaker::closed(),
    {
        self.consecutive_failures = 0;
        self.opened_at = None;
    }

    /// A call failed. The breaker opens once the run reaches `threshold`; zero disables it.
    pub fn record_failure(&mut self, threshold: u32, now: u64)
        ensures
            *final(self) == old(self).failed(threshold, now),
    {
        self.consecutive_failures = self.consecutive_failures.saturating_add(1);
        if threshold > 0 && self.consecutive_failures >= threshold {
            self.opened_at = Some(now);
        }
    }
}

/// The state after `n` failures in a row, all at `now`.
pub open spec fn after_failures(b: Breaker, threshold: u32, now: u64, n: nat) -> Breaker
    decreases n,
{
    if n == 0 {
        b
    } else {
        after_failures(b, threshold, now, (n - 1) as nat).failed(threshold, now)
    }
}

/// From closed, the breaker opens on exactly the configured failure of a run: not before, and
/// from then on it stays open.
pub proof fn breaker_opens_at_the_threshold(threshold: u32, now: u64, n: nat)
    requires
        threshold > 0,
        n < u32::MAX,
    ensures
        after_failures(Breaker::closed(), threshold, now, n).consecutive_failures == n,
        after_failures(Breaker::closed(), threshold, now, n).opened_at is Some <==> n >= threshold,
    decreases n,
{
    if n > 0 {
        breaker_opens_at_the_threshold(threshold, now, (n - 1) as nat);
    }
}

/// A threshold of zero disables the breaker: no run of failures opens it.
pub proof fn zero_threshold_disables_the_breaker(now: u64, n: nat)
    ensures
        after_failures(Breaker::closed(), 0, now, n).opened_at is None,
    decreases n,
{
    if n > 0 {
        zero_threshold_disables_the_breaker(now, (n - 1) as nat);
    }
}

/// A judge that asks a hosted model about each page: everything about it but the connection.
#[derive(PartialEq)]
pub struct JevJudge {
    /// The API's origin, without a trailing slash.
    pub base_url: String,
    /// The key requests authenticate with.
    pub api_key: String,
    /// The model asked for.
    pub model: String,
    /// When to call.
    pub mode: JevMode,
    /// The probability at or above which a page is routed to OCR.
    pub threshold: Real32,
    /// Whether a failed call is an error rather than a fallback.
    pub strict: bool,
    /// How many consecutive failures open the breaker.
    pub failure_threshold: u32,
    /// How long an open breaker stays open, in nanoseconds.
    pub cool_off_nanos: u64,
}

/// A [`JevJudge`] with its texts as character sequences.
#[verifier::ext_equal]
pub ghost struct JevJudgeModel {
    pub base_url: Seq<char>,
    pub api_key: Seq<char>,
    pub model: Seq<char>,
    pub mode: JevMode,
    pub threshold: Real32,
    pub strict: bool,
    pub failure_threshold: u32,
    pub cool_off_nanos: u64,
}

impl View for JevJudge {
    type V = JevJudgeModel;

    open spec fn view(&self) -> JevJudgeModel {
        JevJudgeModel {
            base_url: self.base_url@,
            api_key: self.api_key@,
            model: self.model@,
            mode: self.mode,
            threshold: self.threshold,
            strict: self.strict,
            failure_threshold: self.failure_threshold,
            cool_off_nanos: self.cool_off_nanos,
        }
    }
}

/// `s` without the slashes at its end.
pub open spec fn without_trailing_slashes(s: Seq<char>) -> Seq<char>
    decreases s.len(),
{
    if s.len() > 0 && s.last() == '/' {
        without_trailing_slashes(s.drop_last())
    } else {
        s
    }
}

/// `s` without the slashes at its end.
pub fn trim_trailing_slashes(s: &str) -> (r: String)
    ensures
        r@ == without_trailing_slashes(s@),
{
    let chars: Vec<char> = chars_of(s);
    let mut end: usize = chars.len();
    assert(chars@.take(end as int) =~= s@);
    while end > 0 && chars[end - 1] == '/'
        invariant
            end <= chars@.len(),
            chars@ == s@,
            without_trailing_slashes(s@) == without_trailing_slashes(chars@.take(end as int)),
        decreases end,
    {
        assert(chars@.take(end as int).drop_last() =~= chars@.take(end - 1));
        assert(chars@.take(end as int).last() == chars@[end - 1]);
        end -= 1;
    }
    assert(end > 0 ==> chars@.take(end as int).last() == chars@[end - 1]);
    assert(chars@.subrange(0, end as int) =~= chars@.take(end as int));
    text_of(&chars, 0, end)
}

impl JevJudgeModel {
    /// A judge with every setting at its default.
    pub open spec fn defaults(api_key: Seq<char>) -> JevJudgeModel {
        JevJudgeModel {
            base_url: DEFAULT_BASE_URL@,
            api_key,
            model: DEFAULT_MODEL@,
            mode: JevMode::Always,
            threshold: Real32 { bits: DEFAULT_THRESHOLD },
            strict: false,
            failure_threshold: DEFAULT_FAILURE_THRESHOLD,
            cool_off_nanos: DEFAULT_COOL_OFF_NANOS,
        }
    }

    /// The endpoint posted to.
    pub open spec fn endpoint(self) -> Seq<char> {
        self.base_url + ENDPOINT_PATH@
    }

    /// The verdict a probability stands for. The confidence is the judge's own probability
    /// that its verdict is right: the probability itself for "needs OCR", its complement for
    /// "does not".
    pub open spec fn verdict(self, page: u32, reading: Reading) -> PageVerdictModel {
        let p = reading.probability.clamped();
        if p.at_least(self.threshold) {
            PageVerdictModel { page, needs_ocr: true, confidence: p, reason: REASON_NEEDS_OCR@ }
        } else {
            PageVerdictModel {
                page,
                needs_ocr: false,
                confidence: reading.complement,
                reason: REASON_CLEAR@,
            }
        }
    }

    /// What a failure comes to: an error when strict, else the heuristic's verdicts under the
    /// failure's reason.
    pub open spec fn fallen_back(
        self,
        failure: FailureModel,
        heuristic: Seq<PageVerdictModel>,
    ) -> Result<Seq<PageVerdictModel>, ErrorModel> {
        if self.strict {
            Err(ErrorModel::Judge(failure.detail))
        } else {
            Ok(relabelled(heuristic, failure.class.text()))
        }
    }

    /// The failure reported while the breaker refuses calls.
    pub open spec fn refusal(self) -> FailureModel {
        FailureModel {
            class: FailureClass::BreakerOpen,
            detail: decimal(self.failure_threshold as nat)
                + " consecutive failures; not calling "@ + self.endpoint()
                + " until the cool-off elapses"@,
        }
    }
}

/// The verdicts under another reason; decision and confidence stay.
pub open spec fn relabelled(verdicts: Seq<PageVerdictModel>, reason: Seq<char>) -> Seq<
    PageVerdictModel,
> {
    verdicts.map_values(|v: PageVerdictModel| PageVerdictModel { reason, ..v })
}

impl JevJudge {
    /// A judge authenticating with `api_key`, against the hosted API, in
    /// [`JevMode::Always`] and non-strict.
    #[must_use]
    pub fn new(api_key: &str) -> (r: Self)
        ensures
            r@ == JevJudgeModel::defaults(api_key@),
    {
        JevJudge {
            base_url: DEFAULT_BASE_URL.to_owned(),
            api_key: api_key.to_owned(),
            model: DEFAULT_MODEL.to_owned(),
            mode: JevMode::Always,
            threshold: Real32 { bits: DEFAULT_THRESHOLD },
            strict: false,
            failure_threshold: DEFAULT_FAILURE_THRESHOLD,
            cool_off_nanos: DEFAULT_COOL_OFF_NANOS,
        }
    }

    /// A judge configured from what the environment holds, or `None` when no key is set.
    ///
    /// `keys` are the values of the key variables in the order they are consulted; the first
    /// that is set and not blank wins. The origin and the model are honoured when set and not
    /// blank.
    #[must_use]
    pub fn from_settings(
        keys: &Vec<Option<String>>,
        base_url: Option<String>,
        model: Option<String>,
    ) -> (r: Option<Self>)
        ensures
            match first_key(keys@) {
                None => r is None,
                Some(key) => r is Some && r->0@ == (JevJudgeModel {
                    base_url: match non_blank(opt_text(base_url)) {
                        Some(url) => without_trailing_slashes(url),
                        None => DEFAULT_BASE_URL@,
                    },
                    model: match non_blank(opt_text(model)) {
                        Some(name) => name,
                        None => DEFAULT_MODEL@,
                    },
                    ..JevJudgeModel::defaults(key)
                }),
            },
    {
        let mut i: usize = 0;
        assert(keys@.subrange(0, keys@.len() as int) =~= keys@);
        while i < keys.len()
            invariant
                i <= keys@.len(),
                first_key(keys@) == first_key(keys@.subrange(i as int, keys@.len() as int)),
            decreases keys@.len() - i,
        {
            let ghost rest = keys@.subrange(i as int, keys@.len() as int);
            assert(rest[0] == keys@[i as int]);
            assert(rest.subrange(1, rest.len() as int) =~= keys@.subrange(
                i + 1,
                keys@.len() as int,
            ));
            if let Some(key) = &keys[i] {
                if !is_blank(key.as_str()) {
                    let mut judge: JevJudge = JevJudge::new(key.as_str());
                    if let Some(url) = &base_url {
                        if !is_blank(url.as_str()) {
                            judge = judge.with_base_url(url.as_str());
                        }
                    }
                    if let Some(name) = &model {
                        if !is_blank(name.as_str()) {
                            judge = judge.with_model(name.as_str());
                        }
                    }
                    return Some(judge);
                }
            }
            i += 1;
        }
        None
    }

    /// Point the judge at another origin. Trailing slashes are trimmed so
    /// [`JevJudge::endpoint`] never produces a double slash.
    #[must_use]
    pub fn with_base_url(self, base_url: &str) -> (r: Self)
        ensures
            r@ == (JevJudgeModel { base_url: without_trailing_slashes(base_url@), ..self@ }),
    {
        let mut judge: JevJudge = self;
        judge.base_url = trim_trailing_slashes(base_url);
        judge
    }

    /// Ask for a specific model rather than the default alias.
    #[must_use]
    pub fn with_model(self, model: &str) -> (r: Self)
        ensures
            r@ == (JevJudgeModel { model: model@, ..self@ }),
    {
        let mut judge: JevJudge = self;
        judge.model = model.to_owned();
        judge
    }

    /// Choose [`JevMode::Always`] or [`JevMode::Gated`]. This also changes the judge's name.
    #[must_use]
    pub fn with_mode(self, mode: JevMode) -> (r: Self)
        ensures
            r@ == (JevJudgeModel { mode, ..self@ }),
    {
        let mut judge: JevJudge = self;
        judge.mode = mode;
        judge
    }

    /// The probability at or above which a page is routed to OCR. Clamped into 0..=1; a
    /// non-finite value leaves the threshold unchanged.
    #[must_use]
    pub fn with_threshold(self, threshold: Real32) -> (r: Self)
        ensures
            r@ == (JevJudgeModel {
                threshold: if threshold.finite() {
                    threshold.clamped()
                } else {
                    self@.threshold
                },
                ..self@
            }),
    {
        let mut judge: JevJudge = self;
        if threshold.is_finite() {
            judge.threshold = threshold.clamp_unit();
        }
        judge
    }

    /// Turn failures into errors instead of heuristic verdicts. A benchmark must be strict: a
    /// silent fallback would report the heuristic's score under this judge's name.
    #[must_use]
    pub fn with_strict(self, strict: bool) -> (r: Self)
        ensures
            r@ == (JevJudgeModel { strict, ..self@ }),
    {
        let mut judge: JevJudge = self;
        judge.strict = strict;
        judge
    }

    /// How many consecutive failures open the breaker. Zero disables it.
    #[must_use]
    pub fn with_failure_threshold(self, failures: u32) -> (r: Self)
        ensures
            r@ == (JevJudgeModel { failure_threshold: failures, ..self@ }),
    {
        let mut judge: JevJudge = self;
        judge.failure_threshold = failures;
        judge
    }

    /// How long an open breaker stays open.
    #[must_use]
    pub fn with_cool_off_nanos(self, nanos: u64) -> (r: Self)
        ensures
            r@ == (JevJudgeModel { cool_off_nanos: nanos, ..self@ }),
    {
        let mut judge: JevJudge = self;
        judge.cool_off_nanos = nanos;
        judge
    }

    /// The endpoint this judge posts to.
    #[must_use]
    pub fn endpoint(&self) -> (r: String)
        ensures
            r@ == self@.endpoint(),
    {
        self.base_url.clone().concat(ENDPOINT_PATH)
    }

    /// The mode this judge runs in.
    #[must_use]
    pub fn mode(&self) -> (r: JevMode)
        ensures
            r == self@.mode,
    {
        self.mode
    }

    /// The probability at or above which this judge routes a page to OCR.
    #[must_use]
    pub fn threshold(&self) -> (r: Real32)
        ensures
            r == self@.threshold,
    {
        self.threshold
    }

    /// Whether this judge propagates failures rather than falling back.
    #[must_use]
    pub fn is_strict(&self) -> (r: bool)
        ensures
            r == self@.strict,
    {
        self.strict
    }

    /// Turn one page's probability into a verdict.
    ///
    /// The probability is that the page needs OCR; the verdict's confidence is that the
    /// verdict is right. A probability of 0.02 is a confident "no", not an unconfident "yes".
    pub fn verdict(&self, page: u32, reading: Reading) -> (r: PageVerdict)
        ensures
            r@ == self@.verdict(page, reading),
    {
        let p: Real32 = reading.probability.clamp_unit();
        if p.is_at_least(self.threshold) {
            PageVerdict {
                page,
                needs_ocr: true,
                confidence: p,
                reason: REASON_NEEDS_OCR.to_owned(),
            }
        } else {
            PageVerdict {
                page,
                needs_ocr: false,
                confidence: reading.complement,
                reason: REASON_CLEAR.to_owned(),
            }
        }
    }

    /// Replace every verdict's reason, keeping the decision and the confidence, so a verdict
    /// this judge did not form is always labelled as such.
    pub fn relabel(verdicts: &Vec<PageVerdict>, reason: &str) -> (r: Vec<PageVerdict>)
        ensures
            verdict_models(r@) == relabelled(verdict_models(verdicts@), reason@),
    {
        let mut out: Vec<PageVerdict> = Vec::new();
        let mut i: usize = 0;
        let ghost all = relabelled(verdict_models(verdicts@), reason@);
        assert(verdict_models(out@) =~= all.take(0));
        while i < verdicts.len()
            invariant
                i <= verdicts@.len(),
                all == relabelled(verdict_models(verdicts@), reason@),
                verdict_models(out@) == all.take(i as int),
            decreases verdicts@.len() - i,
        {
            let ghost before = out@;
            let verdict: &PageVerdict = &verdicts[i];
            out.push(
                PageVerdict {
                    page: verdict.page,
                    needs_ocr: verdict.needs_ocr,
                    confidence: verdict.confidence,
                    reason: reason.to_owned(),
                },
            );
            assert(verdict_models(out@) =~= verdict_models(before).push(out@.last()@));
            assert(all.take(i + 1) =~= all.take(i as int).push(all[i as int]));
            i += 1;
        }
        assert(all.take(all.len() as int) =~= all);
        out
    }

    /// Apply the failure policy: propagate when strict, relabel the heuristic's verdicts when
    /// not.
    pub fn fall_back(&self, failure: &Failure, heuristic: &Vec<PageVerdict>) -> (r: Result<
        Vec<PageVerdict>,
        Error,
    >)
        ensures
            verdict_outcome(r) == self@.fallen_back(failure@, verdict_models(heuristic@)),
    {
        if self.strict {
            return Err(Error::Judge(failure.detail.clone()));
        }
        Ok(JevJudge::relabel(heuristic, failure.class.reason()))
    }
}

/// The value, unless it is blank.
pub open spec fn non_blank(value: Option<Seq<char>>) -> Option<Seq<char>> {
    match value {
        Some(text) => if blank(text) {
            None
        } else {
            Some(text)
        },
        None => None,
    }
}

/// The first key that is set and not blank.
pub open spec fn first_key(keys: Seq<Option<String>>) -> Option<Seq<char>>
    decreases keys.len(),
{
    if keys.len() == 0 {
        None
    } else {
        match non_blank(opt_text(keys[0])) {
            Some(key) => Some(key),
            None => first_key(keys.subrange(1, keys.len() as int)),
        }
    }
}

/// Relabelling never changes a decision or a confidence, nor which page a verdict is about.
pub proof fn relabelling_keeps_decisions(verdicts: Seq<PageVerdictModel>, reason: Seq<char>)
    ensures
        relabelled(verdicts, reason).len() == verdicts.len(),
        forall|i: int|
            0 <= i < verdicts.len() ==> (#[trigger] relabelled(verdicts, reason)[i]).page
                == verdicts[i].page && relabelled(verdicts, reason)[i].needs_ocr
                == verdicts[i].needs_ocr && relabelled(verdicts, reason)[i].confidence
                == verdicts[i].confidence && relabelled(verdicts, reason)[i].reason == reason,
{
}

/// What the HTTP layer saw of one call.
#[derive(Debug)]
pub enum Exchange {
    /// No response arrived.
    NoResponse {
        /// Whether the client gave up waiting.
        timed_out: bool,
        /// What the client reported.
        detail: String,
    },
    /// A response arrived whose body could not be read.
    Unreadable {
        /// The HTTP status.
        status: u16,
        /// What the client reported.
        detail: String,
    },
    /// A response arrived.
    Answered {
        /// The HTTP status.
        status: u16,
        /// The body.
        text: String,
        /// The body read as a response, or what the reader reported.
        parsed: Result<SystemOneResponse, String>,
    },
}

/// A status that reports success.
pub open spec fn successful(status: u16) -> bool {
    200 <= status < 300
}

/// The failure an exchange amounts to, or `None` when it carries a response. The message names
/// the endpoint and what came back, never the key.
pub open spec fn exchange_failure(url: Seq<char>, exchange: Exchange) -> Option<FailureModel> {
    match exchange {
        Exchange::NoResponse { timed_out, detail } => Some(
            FailureModel {
                class: if timed_out {
                    FailureClass::Timeout
                } else {
                    FailureClass::Http
                },
                detail: "POST "@ + url + " failed: "@ + detail@,
            },
        ),
        Exchange::Unreadable { status, detail } => Some(
            FailureModel {
                class: FailureClass::Http,
                detail: "POST "@ + url + " returned HTTP "@ + decimal(status as nat)
                    + ", unreadable body: "@ + detail@,
            },
        ),
        Exchange::Answered { status, text, parsed } => if !successful(status) {
            Some(
                FailureModel {
                    class: FailureClass::Http,
                    detail: "POST "@ + url + " returned HTTP "@ + decimal(status as nat) + ": "@
                        + cut(text@, ERROR_BODY_CHARS as nat),
                },
            )
        } else {
            match parsed {
                Ok(_) => None,
                Err(reported) => Some(
                    FailureModel {
                        class: FailureClass::Protocol,
                        detail: "POST "@ + url + " returned HTTP "@ + decimal(status as nat)
                            + " with unparseable JSON ("@ + reported@ + "): "@ + cut(
                            text@,
                            ERROR_BODY_CHARS as nat,
                        ),
                    },
                ),
            }
        },
    }
}

/// The status an exchange reports, when a response arrived at all.
pub open spec fn exchange_status(exchange: Exchange) -> Option<u16> {
    match exchange {
        Exchange::NoResponse { .. } => None,
        Exchange::Unreadable { status, .. } => Some(status),
        Exchange::Answered { status, .. } => Some(status),
    }
}

/// The token usage a usable response reported.
pub open spec fn exchange_usage(exchange: Exchange) -> Option<crate::jev::wire::Usage> {
    match exchange {
        Exchange::Answered { status, parsed: Ok(response), .. } => if successful(status) {
            response.usage
        } else {
            None
        },
        _ => None,
    }
}

/// The text a failed call starts with.
fn posted(url: &str, status: u16) -> (r: String)
    ensures
        r@ == "POST "@ + url@ + " returned HTTP "@ + decimal(status as nat),
{
    let mut text: String = "POST ".to_owned();
    text.append(url);
    text.append(" returned HTTP ");
    push_decimal(&mut text, status as u64);
    text
}

/// Read one exchange: the record of the call, and the response or the failure it amounts to.
pub fn read_exchange(url: &str, pages: Vec<u32>, elapsed_ms: u128, exchange: Exchange) -> (r: (
    CallRecord,
    Result<SystemOneResponse, Failure>,
))
    ensures
        r.0.pages@ == pages@,
        r.0.elapsed_ms == elapsed_ms,
        r.0.status == exchange_status(exchange),
        r.0.input_tokens == (match exchange_usage(exchange) {
            Some(usage) => Some(usage.input_tokens),
            None => None,
        }),
        r.0.output_tokens == (match exchange_usage(exchange) {
            Some(usage) => Some(usage.output_tokens),
            None => None,
        }),
        match exchange_failure(url@, exchange) {
            Some(failure) => r.1 is Err && r.1->Err_0@ == failure,
            None => r.1 is Ok && exchange is Answered && exchange->parsed == Ok::<
                SystemOneResponse,
                String,
            >(r.1->Ok_0),
        },
{
    let mut record = CallRecord {
        pages,
        elapsed_ms,
        status: None,
        input_tokens: None,
        output_tokens: None,
    };
    match exchange {
        Exchange::NoResponse { timed_out, detail } => {
            let mut text: String = "POST ".to_owned();
            text.append(url);
            text.append(" failed: ");
            text.append(detail.as_str());
            let class: FailureClass = if timed_out {
                FailureClass::Timeout
            } else {
                FailureClass::Http
            };
            (record, Err(Failure { class, detail: text }))
        },
        Exchange::Unreadable { status, detail } => {
            record.status = Some(status);
            let mut text: String = posted(url, status);
            text.append(", unreadable body: ");
            text.append(detail.as_str());
            (record, Err(Failure { class: FailureClass::Http, detail: text }))
        },
        Exchange::Answered { status, text, parsed } => {
            record.status = Some(status);
            if status < 200 || status >= 300 {
                let mut message: String = posted(url, status);
                message.append(": ");
                message.append(truncate(text.as_str(), ERROR_BODY_CHARS).as_str());
                return (record, Err(Failure { class: FailureClass::Http, detail: message }));
            }
            match parsed {
                Ok(response) => {
                    if let Some(usage) = response.usage {
                        record.input_tokens = Some(usage.input_tokens);
                        record.output_tokens = Some(usage.output_tokens);
                    }
                    (record, Ok(response))
                },
                Err(reported) => {
                    let mut message: String = posted(url, status);
                    message.append(" with unparseable JSON (");
                    message.append(reported.as_str());
                    message.append("): ");
                    message.append(truncate(text.as_str(), ERROR_BODY_CHARS).as_str());
                    (record, Err(Failure { class: FailureClass::Protocol, detail: message }))
                },
            }
        },
    }
}

/// The verdicts a response gives on a chunk of pages, in order, or the first page it does not
/// answer for.
pub open spec fn chunk_verdicts(
    judge: JevJudgeModel,
    answers: Seq<(Seq<char>, crate::jev::wire::AnswerModel)>,
    chunk: Seq<PageEvidenceModel>,
) -> Result<Seq<PageVerdictModel>, ProtocolErrorModel>
    decreases chunk.len(),
{
    if chunk.len() == 0 {
        Ok(Seq::empty())
    } else {
        match chunk_verdicts(judge, answers, chunk.drop_last()) {
            Err(error) => Err(error),
            Ok(verdicts) => match reading_of(answers, chunk.last().page) {
                Err(error) => Err(error),
                Ok(reading) => Ok(verdicts.push(judge.verdict(chunk.last().page, reading))),
            },
        }
    }
}

proof fn chunk_error_stands(
    judge: JevJudgeModel,
    answers: Seq<(Seq<char>, crate::jev::wire::AnswerModel)>,
    chunk: Seq<PageEvidenceModel>,
    n: int,
)
    requires
        0 <= n <= chunk.len(),
        chunk_verdicts(judge, answers, chunk.take(n)) is Err,
    ensures
        chunk_verdicts(judge, answers, chunk) == chunk_verdicts(judge, answers, chunk.take(n)),
    decreases chunk.len() - n,
{
    if n < chunk.len() {
        assert(chunk.take(n + 1).drop_last() =~= chunk.take(n));
        chunk_error_stands(judge, answers, chunk, n + 1);
    } else {
        assert(chunk.take(n) =~= chunk);
    }
}

/// What one call's outcome comes to: the chunk's verdicts, or the failure that ends the
/// inquiry. A response that does not answer for a page counts against the breaker as a failed
/// call does; only a chunk that is answered in full ends a run of failures.
pub open spec fn chunk_outcome(
    judge: JevJudgeModel,
    breaker: Breaker,
    now: u64,
    chunk: Seq<PageEvidenceModel>,
    outcome: Result<SystemOneResponse, Failure>,
) -> (Breaker, Result<Seq<PageVerdictModel>, FailureModel>) {
    match outcome {
        Err(failure) => (breaker.failed(judge.failure_threshold, now), Err(failure@)),
        Ok(response) => match chunk_verdicts(judge, answers_model(response.answers@), chunk) {
            Ok(verdicts) => (Breaker::closed(), Ok(verdicts)),
            Err(error) => (
                breaker.failed(judge.failure_threshold, now),
                Err(protocol_failure_model(error)),
            ),
        },
    }
}

/// One call as it ended: when, about which pages, and with what.
pub ghost struct EndedCall {
    pub now: u64,
    pub chunk: Seq<PageEvidenceModel>,
    pub outcome: Result<SystemOneResponse, Failure>,
}

impl EndedCall {
    /// A page of the chunk is left without an answer: the call failed, or the response does not
    /// answer for every page.
    pub open spec fn unusable(self, judge: JevJudgeModel) -> bool {
        match self.outcome {
            Err(_) => true,
            Ok(response) => chunk_verdicts(
                judge,
                answers_model(response.answers@),
                self.chunk,
            ) is Err,
        }
    }
}

/// The breaker after a run of calls, one after another.
pub open spec fn after_calls(
    judge: JevJudgeModel,
    breaker: Breaker,
    calls: Seq<EndedCall>,
) -> Breaker
    decreases calls.len(),
{
    if calls.len() == 0 {
        breaker
    } else {
        let last = calls.last();
        chunk_outcome(
            judge,
            after_calls(judge, breaker, calls.drop_last()),
            last.now,
            last.chunk,
            last.outcome,
        ).0
    }
}

/// Unusable answers open the breaker as failed calls do: as many in a row as the threshold says,
/// of whatever kind and in whatever order, leave it open from the last of them on, and calls are
/// refused until the cool-off elapses.
pub proof fn unusable_answers_open_the_breaker(
    judge: JevJudgeModel,
    breaker: Breaker,
    calls: Seq<EndedCall>,
)
    requires
        judge.failure_threshold > 0,
        calls.len() >= judge.failure_threshold,
        forall|i: int| 0 <= i < calls.len() ==> (#[trigger] calls[i]).unusable(judge),
    ensures
        after_calls(judge, breaker, calls).opened_at == Some(calls.last().now),
        judge.cool_off_nanos > 0 ==> after_calls(judge, breaker, calls).refuses(
            calls.last().now,
            judge.cool_off_nanos,
        ),
{
    unusable_answers_are_counted(judge, breaker, calls);
}

proof fn unusable_answers_are_counted(
    judge: JevJudgeModel,
    breaker: Breaker,
    calls: Seq<EndedCall>,
)
    requires
        judge.failure_threshold > 0,
        forall|i: int| 0 <= i < calls.len() ==> (#[trigger] calls[i]).unusable(judge),
    ensures
        ({
            let count = after_calls(judge, breaker, calls).consecutive_failures;
            count == u32::MAX || count >= calls.len()
        }),
        calls.len() >= judge.failure_threshold ==> after_calls(judge, breaker, calls).opened_at
            == Some(calls.last().now),
    decreases calls.len(),
{
    if calls.len() > 0 {
        let earlier = calls.drop_last();
        assert forall|i: int| 0 <= i < earlier.len() implies (#[trigger] earlier[i]).unusable(
            judge,
        ) by {
            assert(earlier[i] == calls[i]);
        }
        assert(calls[calls.len() - 1].unusable(judge));
        unusable_answers_are_counted(judge, breaker, earlier);
    }
}

/// The model of verdicts or a failure.
pub open spec fn asked_outcome(r: Result<Vec<PageVerdict>, Failure>) -> Result<
    Seq<PageVerdictModel>,
    FailureModel,
> {
    match r {
        Ok(verdicts) => Ok(verdict_models(verdicts@)),
        Err(failure) => Err(failure@),
    }
}

impl JevJudge {
    /// Take the outcome of the call about `chunk`.
    pub fn take_chunk(
        &self,
        breaker: &mut Breaker,
        now: u64,
        chunk: &[PageEvidence],
        outcome: Result<SystemOneResponse, Failure>,
    ) -> (r: Result<Vec<PageVerdict>, Failure>)
        ensures
            (*final(breaker), asked_outcome(r)) == chunk_outcome(
                self@,
                *old(breaker),
                now,
                evidence_models(chunk@),
                outcome,
            ),
    {
        let response: SystemOneResponse = match outcome {
            Ok(found) => found,
            Err(failure) => {
                breaker.record_failure(self.failure_threshold, now);
                return Err(failure);
            },
        };
        let ghost answers = answers_model(response.answers@);
        let ghost pages = evidence_models(chunk@);
        let mut verdicts: Vec<PageVerdict> = Vec::new();
        let mut failed: Option<Failure> = None;
        let mut i: usize = 0;
        assert(pages.take(0) =~= Seq::empty());
        assert(verdict_models(verdicts@) =~= Seq::empty());
        while i < chunk.len() && failed.is_none()
            invariant
                i <= chunk@.len(),
                answers == answers_model(response.answers@),
                pages == evidence_models(chunk@),
                match failed {
                    Some(failure) => chunk_verdicts(self@, answers, pages) is Err && failure@
                        == protocol_failure_model(
                        chunk_verdicts(self@, answers, pages)->Err_0,
                    ),
                    None => chunk_verdicts(self@, answers, pages.take(i as int)) == Ok::<
                        Seq<PageVerdictModel>,
                        ProtocolErrorModel,
                    >(verdict_models(verdicts@)),
                },
            decreases chunk@.len() - i,
        {
            let page: u32 = chunk[i].page;
            proof {
                assert(pages.take(i + 1).drop_last() =~= pages.take(i as int));
                assert(pages.take(i + 1).last() == chunk@[i as int]@);
            }
            match response.noul_for(page) {
                Ok(reading) => {
                    let ghost before = verdicts@;
                    verdicts.push(self.verdict(page, reading));
                    assert(verdict_models(verdicts@) =~= verdict_models(before).push(
                        self@.verdict(page, reading),
                    ));
                },
                Err(error) => {
                    proof {
                        chunk_error_stands(self@, answers, pages, i + 1);
                    }
                    failed = Some(protocol_failure(&error));
                },
            }
            i += 1;
        }
        match failed {
            Some(failure) => {
                breaker.record_failure(self.failure_threshold, now);
                Err(failure)
            },
            None => {
                assert(pages.take(pages.len() as int) =~= pages);
                breaker.record_success();
                Ok(verdicts)
            },
        }
    }
}

/// A document being asked about, chunk by chunk.
pub struct Inquiry<'a> {
    /// The whole document.
    pub evidence: &'a [PageEvidence],
    /// The requests it is sent as, in page order.
    pub chunks: Vec<&'a [PageEvidence]>,
    /// How many of them have been answered.
    pub answered: usize,
    /// The verdicts so far, in page order.
    pub verdicts: Vec<PageVerdict>,
}

/// Verdicts that answer for pages: one per page, in order, under its number.
pub open spec fn answers_for(
    verdicts: Seq<PageVerdictModel>,
    pages: Seq<PageEvidenceModel>,
) -> bool {
    verdicts.len() == pages.len() && forall|i: int|
        0 <= i < pages.len() ==> (#[trigger] verdicts[i]).page == pages[i].page
}

/// The verdicts a response gives answer for the pages it was asked about.
proof fn chunk_verdicts_answer(
    judge: JevJudgeModel,
    answers: Seq<(Seq<char>, crate::jev::wire::AnswerModel)>,
    chunk: Seq<PageEvidenceModel>,
)
    requires
        chunk_verdicts(judge, answers, chunk) is Ok,
    ensures
        answers_for(chunk_verdicts(judge, answers, chunk)->Ok_0, chunk),
    decreases chunk.len(),
{
    if chunk.len() > 0 {
        chunk_verdicts_answer(judge, answers, chunk.drop_last());
    }
}

impl<'a> Inquiry<'a> {
    /// The chunks lay out the document, and the verdicts so far answer for the chunks so far.
    pub open spec fn consistent(self) -> bool {
        &&& self.answered <= self.chunks@.len()
        &&& laid_out(self.chunks@) == self.evidence@
        &&& answers_for(
            verdict_models(self.verdicts@),
            evidence_models(laid_out(self.chunks@.take(self.answered as int))),
        )
    }

    /// The chunk to ask about next, or `None` when every chunk has been answered.
    pub fn next_chunk(&self) -> (r: Option<&'a [PageEvidence]>)
        ensures
            match r {
                Some(chunk) => self.answered < self.chunks@.len() && chunk
                    == self.chunks@[self.answered as int],
                None => self.answered >= self.chunks@.len(),
            },
    {
        if self.answered < self.chunks.len() {
            Some(self.chunks[self.answered])
        } else {
            None
        }
    }
}

/// How an inquiry starts.
pub enum Opening<'a> {
    /// No call is needed: this is the answer.
    Answered(Result<Vec<PageVerdict>, Error>),
    /// Ask about the chunks of this inquiry, in order.
    Ask(Inquiry<'a>),
}

/// Where an inquiry stands after a call.
pub enum Step<'a> {
    /// Ask about the next chunk.
    Continue(Inquiry<'a>),
    /// The inquiry is over: this is the answer.
    Finished(Result<Vec<PageVerdict>, Error>),
}

/// The answer that needs no call, if there is one: none for no pages, the heuristic's for a
/// document that is not worth asking about, the failure policy's while the breaker refuses.
pub open spec fn answer_without_asking(
    judge: JevJudgeModel,
    breaker: Breaker,
    now: u64,
    evidence: Seq<PageEvidenceModel>,
) -> Option<Result<Seq<PageVerdictModel>, ErrorModel>> {
    if evidence.len() == 0 {
        Some(Ok(Seq::empty()))
    } else if judge.mode == JevMode::Gated && !ambiguous(evidence) {
        Some(Ok(relabelled(heuristic_verdicts(evidence), REASON_NOT_ESCALATED@)))
    } else if breaker.refuses(now, judge.cool_off_nanos) {
        Some(judge.fallen_back(judge.refusal(), heuristic_verdicts(evidence)))
    } else {
        None
    }
}

/// The breaker is consulted only for a document that is worth asking about.
pub open spec fn breaker_after_opening(
    judge: JevJudgeModel,
    breaker: Breaker,
    now: u64,
    evidence: Seq<PageEvidenceModel>,
) -> Breaker {
    if evidence.len() == 0 || (judge.mode == JevMode::Gated && !ambiguous(evidence)) {
        breaker
    } else if breaker.expired(now, judge.cool_off_nanos) {
        Breaker::closed()
    } else {
        breaker
    }
}

impl JevJudge {
    /// Start judging a document: answer at once where no call is needed, otherwise say what to
    /// ask. A refusal by the breaker is not recorded against it: nothing was learned by not
    /// calling.
    pub fn open<'a>(&self, breaker: &mut Breaker, now: u64, evidence: &'a [PageEvidence]) -> (r:
        Opening<'a>)
        ensures
            *final(breaker) == breaker_after_opening(
                self@,
                *old(breaker),
                now,
                evidence_models(evidence@),
            ),
            match answer_without_asking(
                self@,
                *old(breaker),
                now,
                evidence_models(evidence@),
            ) {
                Some(answer) => r is Answered && verdict_outcome(r->Answered_0) == answer,
                None => r is Ask && r->Ask_0.consistent() && r->Ask_0.answered == 0
                    && r->Ask_0.verdicts@.len() == 0 && r->Ask_0.evidence@ == evidence@
                    && r->Ask_0.chunks@.len() > 0 && chunked(evidence@, r->Ask_0.chunks@),
            },
    {
        if evidence.len() == 0 {
            let none: Vec<PageVerdict> = Vec::new();
            assert(verdict_models(none@) =~= Seq::empty());
            return Opening::Answered(Ok(none));
        }
        let heuristic: Vec<PageVerdict> = HeuristicJudge.verdicts(evidence);
        if self.mode == JevMode::Gated && !is_ambiguous(evidence) {
            return Opening::Answered(Ok(JevJudge::relabel(&heuristic, REASON_NOT_ESCALATED)));
        }
        if breaker.is_open(now, self.cool_off_nanos) {
            let mut detail: String = crate::text::decimal_text(self.failure_threshold as u64);
            detail.append(" consecutive failures; not calling ");
            detail.append(self.endpoint().as_str());
            detail.append(" until the cool-off elapses");
            let failure = Failure { class: FailureClass::BreakerOpen, detail };
            return Opening::Answered(self.fall_back(&failure, &heuristic));
        }
        let parts: Vec<&'a [PageEvidence]> = chunks(evidence);
        let inquiry = Inquiry { evidence, chunks: parts, answered: 0, verdicts: Vec::new() };
        proof {
            assert(inquiry.chunks@.take(0) =~= Seq::empty());
            assert(laid_out(inquiry.chunks@.take(0)) =~= Seq::empty());
            if inquiry.chunks@.len() == 0 {
                assert(laid_out(inquiry.chunks@).len() == 0);
            }
        }
        Opening::Ask(inquiry)
    }

    /// Take the outcome of the call about the inquiry's next chunk.
    ///
    /// The first failure ends the inquiry: a half-answered document cannot be completed, and
    /// mixing this judge's verdicts with the heuristic's would leave a confidence column that
    /// means two different things in two halves.
    pub fn advance<'a>(
        &self,
        breaker: &mut Breaker,
        now: u64,
        inquiry: Inquiry<'a>,
        outcome: Result<SystemOneResponse, Failure>,
    ) -> (r: Step<'a>)
        requires
            inquiry.consistent(),
            inquiry.answered < inquiry.chunks@.len(),
        ensures
            ({
                let chunk = evidence_models(inquiry.chunks@[inquiry.answered as int]@);
                let took = chunk_outcome(self@, *old(breaker), now, chunk, outcome);
                &&& *final(breaker) == took.0
                &&& match took.1 {
                    Err(failure) => r is Finished && verdict_outcome(r->Finished_0)
                        == self@.fallen_back(
                        failure,
                        heuristic_verdicts(evidence_models(inquiry.evidence@)),
                    ),
                    Ok(verdicts) => if inquiry.answered + 1 == inquiry.chunks@.len() {
                        r is Finished && r->Finished_0 is Ok && verdict_models(
                            r->Finished_0->Ok_0@,
                        ) == verdict_models(inquiry.verdicts@) + verdicts && answers_for(
                            verdict_models(r->Finished_0->Ok_0@),
                            evidence_models(inquiry.evidence@),
                        )
                    } else {
                        r is Continue && r->Continue_0.consistent() && r->Continue_0.evidence@
                            == inquiry.evidence@ && r->Continue_0.chunks@ == inquiry.chunks@
                            && r->Continue_0.answered == inquiry.answered + 1 && verdict_models(
                            r->Continue_0.verdicts@,
                        ) == verdict_models(inquiry.verdicts@) + verdicts
                    },
                }
            }),
    {
        let ghost before = inquiry;
        let total: usize = inquiry.chunks.len();
        let chunk: &'a [PageEvidence] = inquiry.chunks[inquiry.answered];
        let ghost response = outcome;
        match self.take_chunk(breaker, now, chunk, outcome) {
            Err(failure) => {
                let heuristic: Vec<PageVerdict> = HeuristicJudge.verdicts(inquiry.evidence);
                Step::Finished(self.fall_back(&failure, &heuristic))
            },
            Ok(found) => {
                let ghost added = verdict_models(found@);
                let mut found: Vec<PageVerdict> = found;
                let mut verdicts: Vec<PageVerdict> = inquiry.verdicts;
                verdicts.append(&mut found);
                let answered: usize = inquiry.answered + 1;
                proof {
                    assert(verdict_models(verdicts@) =~= verdict_models(before.verdicts@)
                        + added);
                    let earlier = before.chunks@.take(before.answered as int);
                    let now_done = before.chunks@.take(before.answered + 1);
                    assert(now_done.drop_last() =~= earlier);
                    assert(laid_out(now_done) =~= laid_out(earlier) + chunk@);
                    assert(evidence_models(laid_out(now_done)) =~= evidence_models(
                        laid_out(earlier),
                    ) + evidence_models(chunk@));
                    assert(response is Ok);
                    chunk_verdicts_answer(
                        self@,
                        answers_model(response->Ok_0.answers@),
                        evidence_models(chunk@),
                    );
                    assert(answers_for(
                        verdict_models(verdicts@),
                        evidence_models(laid_out(now_done)),
                    ));
                    if before.answered + 1 == before.chunks@.len() {
                        assert(now_done =~= before.chunks@);
                    }
                }
                if answered == total {
                    Step::Finished(Ok(verdicts))
                } else {
                    Step::Continue(
                        Inquiry {
                            evidence: inquiry.evidence,
                            chunks: inquiry.chunks,
                            answered,
                            verdicts,
                        },
                    )
                }
            },
        }
    }
}

/// A gated judge that does not escalate, and one whose breaker refuses, give the heuristic's
/// decisions on every page: only the reason differs, and strictness turns only the refusal
/// into an error.
pub proof fn answers_without_asking_are_the_heuristics(
    judge: JevJudgeModel,
    breaker: Breaker,
    now: u64,
    evidence: Seq<PageEvidenceModel>,
    verdicts: Seq<PageVerdictModel>,
)
    requires
        answer_without_asking(judge, breaker, now, evidence) == Some(
            Ok::<Seq<PageVerdictModel>, ErrorModel>(verdicts),
        ),
    ensures
        verdicts.len() == evidence.len(),
        forall|i: int|
            0 <= i < evidence.len() ==> (#[trigger] verdicts[i]).page == evidence[i].page
                && verdicts[i].needs_ocr == evidence[i].flagged_by_inspector,
{
}

/// A failed call never breaks routing unless the judge is strict: there is one verdict for each
/// page, in order, the decision is the inspector's, and the reason names the failure.
pub proof fn a_lenient_judge_always_answers(
    judge: JevJudgeModel,
    failure: FailureModel,
    evidence: Seq<PageEvidenceModel>,
)
    requires
        !judge.strict,
    ensures
        ({
            let answer = judge.fallen_back(failure, heuristic_verdicts(evidence));
            &&& answer is Ok
            &&& answers_for(answer->Ok_0, evidence)
            &&& forall|i: int|
                0 <= i < evidence.len() ==> (#[trigger] answer->Ok_0[i]).needs_ocr
                    == evidence[i].flagged_by_inspector && answer->Ok_0[i].reason
                    == failure.class.text()
        }),
{
}

/// A strict judge never passes the heuristic's answer off as its own: every failure is its
/// error, word for word.
pub proof fn a_strict_judge_propagates_every_failure(
    judge: JevJudgeModel,
    failure: FailureModel,
    heuristic: Seq<PageVerdictModel>,
)
    requires
        judge.strict,
    ensures
        judge.fallen_back(failure, heuristic) == Err::<Seq<PageVerdictModel>, ErrorModel>(
            ErrorModel::Judge(failure.detail),
        ),
{
}

/// A probability reaches a threshold, by their encodings: a probability above 1 counts as 1 and
/// one below 0 as 0, any probability reaches a threshold that is not above 0, and a NaN on
/// either side reaches nothing.
pub open spec fn reaches(probability: Real32, threshold: Real32) -> bool {
    let p = probability.bits;
    let t = threshold.bits;
    let counted = if p >= 0x8000_0000 {
        0
    } else if p > 0x3f80_0000 {
        0x3f80_0000
    } else {
        p
    };
    &&& !(0x7f80_0000 < p < 0x8000_0000 || p > 0xff80_0000)
    &&& !(0x7f80_0000 < t < 0x8000_0000 || t > 0xff80_0000)
    &&& t >= 0x8000_0000 || counted >= t
}

/// A page needs OCR exactly when its probability is at least the judge's threshold, whatever the
/// page and the judge. The verdict is about the page asked about. It carries the probability as
/// its confidence when the page needs OCR and the complement when it does not, and says which of
/// the two it is.
pub proof fn a_page_needs_ocr_from_the_threshold_on(
    judge: JevJudgeModel,
    page: u32,
    reading: Reading,
)
    ensures
        judge.verdict(page, reading).page == page,
        judge.verdict(page, reading).needs_ocr <==> reaches(reading.probability, judge.threshold),
        reading.probability.bits <= 0x3f80_0000 && judge.threshold.bits <= 0x3f80_0000 ==> (
        judge.verdict(page, reading).needs_ocr <==> reading.probability.bits
            >= judge.threshold.bits),
        judge.verdict(page, reading).needs_ocr ==> {
            &&& judge.verdict(page, reading).reason == "jev_needs_ocr"@
            &&& reading.probability.bits <= 0x3f80_0000 ==> judge.verdict(page, reading).confidence
                == reading.probability
        },
        !judge.verdict(page, reading).needs_ocr ==> {
            &&& judge.verdict(page, reading).reason == "jev_clear"@
            &&& judge.verdict(page, reading).confidence == reading.complement
        },
{
}

/// A higher probability never turns a page that needs OCR into a clear one, and neither does a
/// lower threshold.
pub proof fn a_higher_probability_never_clears_a_page(
    judge: JevJudgeModel,
    lower: JevJudgeModel,
    page: u32,
    reading: Reading,
    higher: Reading,
)
    requires
        reading.probability.bits <= higher.probability.bits <= 0x3f80_0000,
        lower.threshold.bits <= judge.threshold.bits <= 0x3f80_0000,
        judge.verdict(page, reading).needs_ocr,
    ensures
        lower.verdict(page, higher).needs_ocr,
{
}

/// The answer at position `k` is the one that counts for a page: it stands under the page's own
/// name, and none before it does.
pub open spec fn answers_at(
    answers: Seq<(Seq<char>, crate::jev::wire::AnswerModel)>,
    page: u32,
    k: int,
) -> bool {
    &&& 0 <= k < answers.len()
    &&& answers[k].0 == "page_"@ + decimal(page as nat)
    &&& forall|i: int| 0 <= i < k ==> (#[trigger] answers[i]).0 != answers[k].0
}

/// An answer holds a probability: it is a `noul` answer, or does not say what it is, and its
/// number is there and finite.
pub open spec fn holds_a_probability(answer: crate::jev::wire::AnswerModel) -> bool {
    &&& answer.kind is None || answer.kind->0 == "noul"@
    &&& answer.noul is Some
    &&& answer.noul->0.value.bits < 0x7ff0_0000_0000_0000 || 0x8000_0000_0000_0000
        <= answer.noul->0.value.bits < 0xfff0_0000_0000_0000
}

/// A verdict is what an answer comes to: OCR is needed exactly when its number reaches the
/// threshold, and the verdict is as sure as the answer is of that.
pub open spec fn judged_by(
    judge: JevJudgeModel,
    answer: crate::jev::wire::AnswerModel,
    verdict: PageVerdictModel,
) -> bool {
    let p = answer.noul->0.probability;
    &&& verdict.needs_ocr <==> reaches(p, judge.threshold)
    &&& verdict.needs_ocr ==> verdict.reason == "jev_needs_ocr"@ && (p.bits <= 0x3f80_0000
        ==> verdict.confidence == p) && (0x3f80_0000 < p.bits <= 0x7f80_0000
        ==> verdict.confidence.bits == 0x3f80_0000)
    &&& !verdict.needs_ocr ==> verdict.reason == "jev_clear"@ && verdict.confidence
        == answer.noul->0.complement
}

proof fn reading_is_the_answer_at(
    answers: Seq<(Seq<char>, crate::jev::wire::AnswerModel)>,
    page: u32,
)
    ensures
        reading_of(answers, page) is Ok <==> exists|k: int| #[trigger]
            answers_at(answers, page, k) && holds_a_probability(answers[k].1),
        reading_of(answers, page) is Ok ==> exists|k: int| #[trigger]
            answers_at(answers, page, k) && holds_a_probability(answers[k].1) && reading_of(
                answers,
                page,
            )->Ok_0.probability == answers[k].1.noul->0.probability.clamped() && reading_of(
                answers,
                page,
            )->Ok_0.complement == answers[k].1.noul->0.complement,
{
    let key = crate::jev::wire::key_of(page);
    crate::jev::wire::answer_under_is_the_first(answers, key);
    assert forall|j: int, k: int|
        #[trigger] answers_at(answers, page, j) && #[trigger] answers_at(answers, page, k) implies j
        == k by {
        if j < k {
            assert(answers[j].0 == answers[k].0);
        } else if k < j {
            assert(answers[k].0 == answers[j].0);
        }
    }
    if exists|k: int|
        0 <= k < answers.len() && (#[trigger] answers[k]).0 == key && (forall|i: int|
            0 <= i < k ==> (#[trigger] answers[i]).0 != key) {
        let k = choose|k: int|
            0 <= k < answers.len() && (#[trigger] answers[k]).0 == key && (forall|i: int|
                0 <= i < k ==> (#[trigger] answers[i]).0 != key);
        assert(answers_at(answers, page, k));
    }
}

/// A response answers for a chunk exactly when every page of it has a probability under its own
/// name. There is then one verdict for each page, in order, and a page's verdict needs OCR
/// exactly when the number answered under that page's name is at least the judge's threshold. It
/// carries that number as its confidence, or its complement where the page is clear.
pub proof fn a_chunk_is_judged_by_the_answers_under_its_pages_names(
    judge: JevJudgeModel,
    answers: Seq<(Seq<char>, crate::jev::wire::AnswerModel)>,
    chunk: Seq<PageEvidenceModel>,
)
    ensures
        chunk_verdicts(judge, answers, chunk) is Ok <==> forall|i: int|
            0 <= i < chunk.len() ==> exists|k: int| #[trigger]
                answers_at(answers, (#[trigger] chunk[i]).page, k) && holds_a_probability(
                    answers[k].1,
                ),
        chunk_verdicts(judge, answers, chunk) is Ok ==> {
            let verdicts = chunk_verdicts(judge, answers, chunk)->Ok_0;
            &&& verdicts.len() == chunk.len()
            &&& forall|i: int|
                0 <= i < chunk.len() ==> (#[trigger] verdicts[i]).page == chunk[i].page && exists|
                    k: int,
                | #[trigger]
                    answers_at(answers, chunk[i].page, k) && holds_a_probability(answers[k].1)
                        && judged_by(judge, answers[k].1, verdicts[i])
        },
    decreases chunk.len(),
{
    if chunk.len() > 0 {
        let rest = chunk.drop_last();
        let last = chunk.last();
        let n = rest.len() as int;
        a_chunk_is_judged_by_the_answers_under_its_pages_names(judge, answers, rest);
        reading_is_the_answer_at(answers, last.page);
        let all = chunk_verdicts(judge, answers, chunk);
        if all is Ok {
            let verdicts = all->Ok_0;
            let before = chunk_verdicts(judge, answers, rest)->Ok_0;
            let reading = reading_of(answers, last.page)->Ok_0;
            a_page_needs_ocr_from_the_threshold_on(judge, last.page, reading);
            assert forall|i: int| 0 <= i < chunk.len() implies exists|k: int| #[trigger]
                answers_at(answers, (#[trigger] chunk[i]).page, k) && holds_a_probability(
                    answers[k].1,
                ) by {
                if i < n {
                    assert(rest[i] == chunk[i]);
                }
            }
            assert forall|i: int| 0 <= i < chunk.len() implies (#[trigger] verdicts[i]).page
                == chunk[i].page && exists|k: int| #[trigger]
                answers_at(answers, chunk[i].page, k) && holds_a_probability(answers[k].1)
                && judged_by(judge, answers[k].1, verdicts[i]) by {
                if i < n {
                    assert(verdicts[i] == before[i]);
                    assert(rest[i] == chunk[i]);
                } else {
                    let k = choose|k: int| #[trigger]
                        answers_at(answers, last.page, k) && holds_a_probability(answers[k].1)
                            && reading.probability == answers[k].1.noul->0.probability.clamped()
                            && reading.complement == answers[k].1.noul->0.complement;
                    assert(answers_at(answers, chunk[i].page, k));
                }
            }
        } else {
            assert(!(forall|i: int|
                0 <= i < chunk.len() ==> exists|k: int| #[trigger]
                    answers_at(answers, (#[trigger] chunk[i]).page, k) && holds_a_probability(
                        answers[k].1,
                    ))) by {
                if chunk_verdicts(judge, answers, rest) is Err {
                    let i = choose|i: int|
                        0 <= i < rest.len() && !(exists|k: int| #[trigger]
                            answers_at(answers, (#[trigger] rest[i]).page, k)
                                && holds_a_probability(answers[k].1));
                    assert(chunk[i] == rest[i]);
                } else {
                    assert(chunk[n] == last);
                }
            }
        }
    }
}

/// A call counts as answered exactly when its response answers for every page of the chunk: the
/// verdicts are then the response's and the run of failures is over. Every other call is one
/// more failure in the run, and its verdicts are none.
pub proof fn only_a_full_answer_ends_a_run_of_failures(
    judge: JevJudgeModel,
    breaker: Breaker,
    now: u64,
    chunk: Seq<PageEvidenceModel>,
    outcome: Result<SystemOneResponse, Failure>,
)
    ensures
        ({
            let after = chunk_outcome(judge, breaker, now, chunk, outcome);
            let full = outcome is Ok && forall|i: int|
                0 <= i < chunk.len() ==> exists|k: int| #[trigger]
                    answers_at(
                        answers_model(outcome->Ok_0.answers@),
                        (#[trigger] chunk[i]).page,
                        k,
                    ) && holds_a_probability(answers_model(outcome->Ok_0.answers@)[k].1);
            &&& after.1 is Ok <==> full
            &&& full ==> after.0.consecutive_failures == 0 && after.0.opened_at is None
            &&& !full && breaker.consecutive_failures < u32::MAX ==> after.0.consecutive_failures
                == breaker.consecutive_failures + 1
            &&& !full ==> (after.0.opened_at == Some(now) || after.0.opened_at
                == breaker.opened_at)
            &&& !full && judge.failure_threshold > 0 && after.0.consecutive_failures
                >= judge.failure_threshold ==> after.0.opened_at == Some(now)
            &&& !full && (judge.failure_threshold == 0 || after.0.consecutive_failures
                < judge.failure_threshold) ==> after.0.opened_at == breaker.opened_at
        }),
{
    if outcome is Ok {
        a_chunk_is_judged_by_the_answers_under_its_pages_names(
            judge,
            answers_model(outcome->Ok_0.answers@),
            chunk,
        );
    }
}

/// A document is asked about exactly when it has pages, the judge asks about every document or
/// the inspector's answer is in doubt, and the breaker does not hold calls back: it is not open,
/// or it opened at least a cool-off ago. The answer is in doubt when an encoding is broken, when
/// some pages are flagged and others not, and when a flagged page comes without a reason.
pub proof fn when_a_document_is_asked_about(
    judge: JevJudgeModel,
    breaker: Breaker,
    now: u64,
    evidence: Seq<PageEvidenceModel>,
)
    ensures
        ({
            let trusted = {
                &&& forall|i: int|
                    0 <= i < evidence.len() ==> !(#[trigger] evidence[i]).has_encoding_issues
                &&& {
                    ||| forall|i: int|
                        0 <= i < evidence.len() ==> (#[trigger] evidence[i]).flagged_by_inspector
                            && evidence[i].reasons.len() > 0
                    ||| forall|i: int|
                        0 <= i < evidence.len() ==> !(#[trigger] evidence[i]).flagged_by_inspector
                }
            };
            let held_back = breaker.opened_at is Some && (now < breaker.opened_at->0
                + judge.cool_off_nanos);
            let answer = answer_without_asking(judge, breaker, now, evidence);
            &&& judge.cool_off_nanos > 0 ==> (answer is None <==> evidence.len() > 0 && (judge.mode
                == JevMode::Always || !trusted) && !held_back)
            &&& judge.cool_off_nanos == 0 ==> (answer is None <==> evidence.len() > 0 && (
            judge.mode == JevMode::Always || !trusted))
            &&& answer is Some && answer->0 is Err ==> judge.strict && held_back
        }),
{
    let trusted = {
        &&& forall|i: int| 0 <= i < evidence.len() ==> !(#[trigger] evidence[i]).has_encoding_issues
        &&& {
            ||| forall|i: int|
                0 <= i < evidence.len() ==> (#[trigger] evidence[i]).flagged_by_inspector
                    && evidence[i].reasons.len() > 0
            ||| forall|i: int|
                0 <= i < evidence.len() ==> !(#[trigger] evidence[i]).flagged_by_inspector
        }
    };
    assert(trusted <==> !ambiguous(evidence));
}

/// What a call that brought no usable response counts as. A client that gave up waiting is a
/// timeout; a success whose body cannot be read as a response breaks the protocol; every other
/// call without a response, with an unreadable body or without a success status is a failure of
/// the connection. Only a success whose body was read as a response is none of these.
pub proof fn what_a_failed_call_counts_as(url: Seq<char>, exchange: Exchange)
    ensures
        exchange_failure(url, exchange) is None <==> exchange is Answered && 200
            <= exchange->Answered_status <= 299 && exchange->parsed is Ok,
        exchange_failure(url, exchange) is Some ==> {
            let class = exchange_failure(url, exchange)->0.class;
            &&& class == FailureClass::Timeout <==> exchange is NoResponse && exchange->timed_out
            &&& class == FailureClass::Protocol <==> exchange is Answered && 200
                <= exchange->Answered_status <= 299
            &&& class != FailureClass::BreakerOpen
        },
{
}

/// A judge with another key, and otherwise the same.
pub open spec fn with_key(judge: JevJudgeModel, key: Seq<char>) -> JevJudgeModel {
    JevJudgeModel { api_key: key, ..judge }
}

/// The key reaches no verdict and no error: whatever a judge answers, and whatever state its
/// breaker is left in, it would be the same with any other key.
pub proof fn the_key_reaches_no_answer(
    judge: JevJudgeModel,
    key: Seq<char>,
    breaker: Breaker,
    now: u64,
    evidence: Seq<PageEvidenceModel>,
    chunk: Seq<PageEvidenceModel>,
    outcome: Result<SystemOneResponse, Failure>,
    failure: FailureModel,
)
    ensures
        answer_without_asking(with_key(judge, key), breaker, now, evidence)
            == answer_without_asking(judge, breaker, now, evidence),
        breaker_after_opening(with_key(judge, key), breaker, now, evidence)
            == breaker_after_opening(judge, breaker, now, evidence),
        chunk_outcome(with_key(judge, key), breaker, now, chunk, outcome) == chunk_outcome(
            judge,
            breaker,
            now,
            chunk,
            outcome,
        ),
        with_key(judge, key).fallen_back(failure, heuristic_verdicts(evidence))
            == judge.fallen_back(failure, heuristic_verdicts(evidence)),
        with_key(judge, key).endpoint() == judge.endpoint(),
{
    if outcome is Ok {
        key_changes_no_verdict(judge, key, answers_model(outcome->Ok_0.answers@), chunk);
    }
}

proof fn key_changes_no_verdict(
    judge: JevJudgeModel,
    key: Seq<char>,
    answers: Seq<(Seq<char>, crate::jev::wire::AnswerModel)>,
    chunk: Seq<PageEvidenceModel>,
)
    ensures
        chunk_verdicts(with_key(judge, key), answers, chunk) == chunk_verdicts(
            judge,
            answers,
            chunk,
        ),
    decreases chunk.len(),
{
    if chunk.len() > 0 {
        key_changes_no_verdict(judge, key, answers, chunk.drop_last());
    }
}

/// The first key that is set and not blank is the one used, whatever comes behind it; there is
/// none exactly when every one is missing or blank.
pub proof fn the_first_usable_key_is_used(keys: Seq<Option<String>>)
    ensures
        first_key(keys) is None <==> forall|i: int|
            0 <= i < keys.len() ==> (#[trigger] keys[i]) is None || blank(keys[i]->0@),
        first_key(keys) is Some ==> exists|i: int|
            0 <= i < keys.len() && (#[trigger] keys[i]) is Some && !blank(keys[i]->0@)
                && keys[i]->0@ == first_key(keys)->0 && forall|k: int|
                0 <= k < i ==> (#[trigger] keys[k]) is None || blank(keys[k]->0@),
    decreases keys.len(),
{
    if keys.len() > 0 && non_blank(opt_text(keys[0])) is None {
        let rest = keys.subrange(1, keys.len() as int);
        the_first_usable_key_is_used(rest);
        if first_key(rest) is Some {
            let i = choose|i: int|
                0 <= i < rest.len() && (#[trigger] rest[i]) is Some && !blank(rest[i]->0@)
                    && rest[i]->0@ == first_key(rest)->0 && forall|k: int|
                    0 <= k < i ==> (#[trigger] rest[k]) is None || blank(rest[k]->0@);
            assert(keys[i + 1] == rest[i]);
            assert forall|k: int| 0 <= k < i + 1 implies (#[trigger] keys[k]) is None || blank(
                keys[k]->0@,
            ) by {
                if k > 0 {
                    assert(rest[k - 1] == keys[k]);
                }
            }
        } else {
            assert forall|k: int| 0 <= k < keys.len() implies (#[trigger] keys[k]) is None || blank(
                keys[k]->0@,
            ) by {
                if k > 0 {
                    assert(rest[k - 1] == keys[k]);
                }
            }
        }
    } else if keys.len() > 0 {
        assert(keys[0] is Some && !blank(keys[0]->0@));
    }
}

/// An origin loses the slashes at its end and nothing else, so the endpoint never has two in a
/// row where they meet.
pub proof fn an_origin_loses_only_its_trailing_slashes(s: Seq<char>)
    ensures
        ({
            let kept = without_trailing_slashes(s);
            &&& kept.len() <= s.len()
            &&& kept == s.subrange(0, kept.len() as int)
            &&& forall|i: int| kept.len() <= i < s.len() ==> #[trigger] s[i] == '/'
            &&& kept.len() > 0 ==> kept.last() != '/'
        }),
    decreases s.len(),
{
    if s.len() > 0 && s.last() == '/' {
        let rest = s.drop_last();
        an_origin_loses_only_its_trailing_slashes(rest);
        let kept = without_trailing_slashes(rest);
        assert(rest.subrange(0, kept.len() as int) =~= s.subrange(0, kept.len() as int));
        assert forall|i: int| kept.len() <= i < s.len() implies #[trigger] s[i] == '/' by {
            if i < rest.len() {
                assert(rest[i] == s[i]);
            }
        }
    } else {
        assert(s.subrange(0, s.len() as int) =~= s);
    }
}

/// A judge at its defaults: the hosted API and its latest model, every document asked about, a
/// page sent to OCR from a probability of one half on, failures forgiven, and a breaker that opens
/// on the third failure in a row and stays open for thirty seconds.
pub proof fn what_a_judges_defaults_are(key: Seq<char>)
    ensures
        ({
            let judge = JevJudgeModel::defaults(key);
            &&& judge.api_key == key
            &&& judge.base_url == "https://api.typesafe.ai"@
            &&& judge.endpoint() == "https://api.typesafe.ai"@ + "/v1/systemone"@
            &&& judge.model == "jev-latest"@
            &&& judge.mode == JevMode::Always
            &&& judge.threshold.bits == 0x3f00_0000
            &&& !judge.strict
            &&& judge.failure_threshold == 3
            &&& judge.cool_off_nanos == 30_000_000_000
        }),
{
}

/// A threshold is taken as it is where it lies between 0 and 1, as the nearer of the two where it
/// lies outside, and not at all where it is no number; nothing else about the judge changes.
pub proof fn a_threshold_is_kept_between_none_and_all(
    judge: JevJudge,
    threshold: Real32,
    set: JevJudge,
)
    requires
        call_ensures(JevJudge::with_threshold, (judge, threshold), set),
    ensures
        threshold.bits <= 0x3f80_0000 ==> set@.threshold == threshold,
        0x3f80_0000 < threshold.bits < 0x7f80_0000 ==> set@.threshold.bits == 0x3f80_0000,
        0x8000_0000 < threshold.bits < 0xff80_0000 ==> set@.threshold.bits == 0,
        0x7f80_0000 <= threshold.bits < 0x8000_0000 || threshold.bits >= 0xff80_0000
            ==> set@.threshold == judge@.threshold,
        set@ == (JevJudgeModel { threshold: set@.threshold, ..judge@ }),
{
}

/// What a verdict that is not the hosted model's own is labelled: a document that was not worth
/// asking about as not escalated, and a failure by what failed.
pub proof fn what_a_fallback_is_labelled(
    judge: JevJudgeModel,
    breaker: Breaker,
    now: u64,
    evidence: Seq<PageEvidenceModel>,
)
    ensures
        FailureClass::Timeout.text() == "jev_fallback_timeout"@,
        FailureClass::Http.text() == "jev_fallback_http"@,
        FailureClass::Protocol.text() == "jev_fallback_protocol"@,
        FailureClass::BreakerOpen.text() == "jev_fallback_breaker_open"@,
        answer_without_asking(judge, breaker, now, evidence) matches Some(Ok(verdicts)) ==> forall|
            i: int,
        |
            0 <= i < verdicts.len() ==> (#[trigger] verdicts[i]).confidence.bits == 0x3f80_0000 && (
            verdicts[i].reason == "jev_not_escalated"@ || verdicts[i].reason
                == "jev_fallback_breaker_open"@),
        judge.mode == JevMode::Always ==> (answer_without_asking(
            judge,
            breaker,
            now,
            evidence,
        ) matches Some(Ok(verdicts)) ==> forall|i: int|
            0 <= i < verdicts.len() ==> (#[trigger] verdicts[i]).reason
                == "jev_fallback_breaker_open"@),
{
}

/// Whether a breaker holds calls back, and what asking leaves of it: it does until a cool-off has
/// passed since it opened; the first to ask after that finds it closed, with no failure on record;
/// and before that, or where it never opened, asking changes nothing.
pub proof fn an_open_breaker_closes_after_its_cool_off(
    breaker: &mut Breaker,
    now: u64,
    cool_off: u64,
    refused: bool,
)
    requires
        call_ensures(Breaker::is_open, (breaker, now, cool_off), refused),
    ensures
        old(breaker).opened_at is None ==> !refused && *final(breaker) == *old(breaker),
        old(breaker).opened_at is Some && now >= old(breaker).opened_at->0 + cool_off ==> !refused
            && final(breaker).opened_at is None && final(breaker).consecutive_failures == 0,
        old(breaker).opened_at is Some && now < old(breaker).opened_at->0 + cool_off && cool_off > 0
            ==> refused && *final(breaker) == *old(breaker),
{
}

/// Where an inquiry stands after a call.
///
/// A call whose response answers for every page of the chunk adds one verdict for each of them, in
/// order, behind those that were there; the inquiry goes on with the next chunk, or after the last
/// one is over with what it has. Any other call ends the inquiry: a strict judge reports an error,
/// and any other gives the inspector's decision on every page of the document.
pub proof fn an_inquiry_goes_on_chunk_by_chunk<'a>(
    judge: &JevJudge,
    breaker: &mut Breaker,
    now: u64,
    inquiry: Inquiry<'a>,
    outcome: Result<SystemOneResponse, Failure>,
    step: Step<'a>,
)
    requires
        inquiry.consistent(),
        inquiry.answered < inquiry.chunks@.len(),
        call_ensures(JevJudge::advance, (judge, breaker, now, inquiry, outcome), step),
    ensures
        ({
            let chunk = evidence_models(inquiry.chunks@[inquiry.answered as int]@);
            let document = evidence_models(inquiry.evidence@);
            let before = verdict_models(inquiry.verdicts@);
            let n = before.len() as int;
            let full = outcome is Ok && forall|i: int|
                0 <= i < chunk.len() ==> exists|k: int| #[trigger]
                    answers_at(
                        answers_model(outcome->Ok_0.answers@),
                        (#[trigger] chunk[i]).page,
                        k,
                    ) && holds_a_probability(answers_model(outcome->Ok_0.answers@)[k].1);
            let last = inquiry.answered + 1 == inquiry.chunks@.len();
            &&& step is Continue <==> full && !last
            &&& step is Continue ==> {
                let next = step->Continue_0;
                let after = verdict_models(next.verdicts@);
                &&& next.answered == inquiry.answered + 1
                &&& next.evidence@ == inquiry.evidence@
                &&& next.chunks@ == inquiry.chunks@
                &&& after.len() == n + chunk.len()
                &&& forall|i: int| 0 <= i < n ==> #[trigger] after[i] == before[i]
                &&& forall|i: int|
                    0 <= i < chunk.len() ==> (#[trigger] after[n + i]).page == chunk[i].page
            }
            &&& full && last ==> step->Finished_0 is Ok && {
                let after = verdict_models(step->Finished_0->Ok_0@);
                &&& after.len() == n + chunk.len()
                &&& forall|i: int| 0 <= i < n ==> #[trigger] after[i] == before[i]
                &&& forall|i: int|
                    0 <= i < chunk.len() ==> (#[trigger] after[n + i]).page == chunk[i].page
            }
            &&& !full && judge@.strict ==> step->Finished_0 is Err && step->Finished_0->Err_0@ is Judge
            &&& !full && !judge@.strict ==> step->Finished_0 is Ok && {
                let after = verdict_models(step->Finished_0->Ok_0@);
                &&& after.len() == document.len()
                &&& forall|i: int|
                    0 <= i < document.len() ==> (#[trigger] after[i]).page == document[i].page
                        && after[i].needs_ocr == document[i].flagged_by_inspector
            }
            &&& full ==> final(breaker).consecutive_failures == 0 && final(breaker).opened_at is None
        }),
{
    let chunk = evidence_models(inquiry.chunks@[inquiry.answered as int]@);
    let took = chunk_outcome(judge@, *old(breaker), now, chunk, outcome);
    only_a_full_answer_ends_a_run_of_failures(judge@, *old(breaker), now, chunk, outcome);
    if took.1 is Ok {
        let answers = answers_model(outcome->Ok_0.answers@);
        a_chunk_is_judged_by_the_answers_under_its_pages_names(judge@, answers, chunk);
        let n = inquiry.verdicts@.len() as int;
        let verdicts = took.1->Ok_0;
        let after = verdict_models(inquiry.verdicts@) + verdicts;
        assert forall|i: int| 0 <= i < chunk.len() implies (#[trigger] after[n + i]).page
            == chunk[i].page by {
            assert(after[n + i] == verdicts[i]);
        }
    }
}

/// A document is asked about, from its first page on, exactly when it has pages, the judge asks
/// about every document or the inspector's answer is in doubt, and the breaker does not hold calls
/// back. The chunks are then those of the whole document.
pub proof fn an_inquiry_is_about_the_whole_document<'a>(
    judge: &JevJudge,
    breaker: &mut Breaker,
    now: u64,
    evidence: &'a [PageEvidence],
    opening: Opening<'a>,
)
    requires
        judge@.cool_off_nanos > 0,
        call_ensures(JevJudge::open, (judge, breaker, now, evidence), opening),
    ensures
        ({
            let pages = evidence_models(evidence@);
            let trusted = {
                &&& forall|i: int|
                    0 <= i < pages.len() ==> !(#[trigger] pages[i]).has_encoding_issues
                &&& {
                    ||| forall|i: int|
                        0 <= i < pages.len() ==> (#[trigger] pages[i]).flagged_by_inspector
                            && pages[i].reasons.len() > 0
                    ||| forall|i: int|
                        0 <= i < pages.len() ==> !(#[trigger] pages[i]).flagged_by_inspector
                }
            };
            let held_back = old(breaker).opened_at is Some && (now < old(breaker).opened_at->0
                + judge@.cool_off_nanos);
            &&& opening is Ask <==> pages.len() > 0 && (judge@.mode == JevMode::Always || !trusted)
                && !held_back
            &&& opening is Ask ==> {
                let inquiry = opening->Ask_0;
                &&& inquiry.answered == 0
                &&& inquiry.verdicts@.len() == 0
                &&& inquiry.evidence@ == evidence@
                &&& inquiry.chunks@.len() > 0
                &&& chunked(evidence@, inquiry.chunks@)
            }
        }),
{
    when_a_document_is_asked_about(judge@, *old(breaker), now, evidence_models(evidence@));
}

/// What is set up from the environment: nothing without a key that is not blank; otherwise a judge
/// with the first such key, the origin and the model that are set and not blank, the hosted API's
/// own where they are not, and the defaults for everything else.
pub proof fn what_the_environment_sets_up(
    keys: &Vec<Option<String>>,
    base_url: Option<String>,
    model: Option<String>,
    made: Option<JevJudge>,
)
    requires
        call_ensures(JevJudge::from_settings, (keys, base_url, model), made),
    ensures
        made is Some <==> exists|i: int|
            0 <= i < keys@.len() && (#[trigger] keys@[i]) is Some && !blank(keys@[i]->0@),
        made is Some ==> {
            let judge = made->0@;
            let usual = JevJudgeModel::defaults(judge.api_key);
            &&& exists|i: int|
                0 <= i < keys@.len() && (#[trigger] keys@[i]) is Some && !blank(keys@[i]->0@)
                    && keys@[i]->0@ == judge.api_key
            &&& model is Some && !blank(model->0@) ==> judge.model == model->0@
            &&& model is None || blank(model->0@) ==> judge.model == usual.model
            &&& base_url is Some && !blank(base_url->0@) ==> judge.base_url
                == without_trailing_slashes(base_url->0@)
            &&& base_url is None || blank(base_url->0@) ==> judge.base_url == usual.base_url
            &&& judge.mode == usual.mode
            &&& judge.threshold == usual.threshold
            &&& judge.strict == usual.strict
            &&& judge.failure_threshold == usual.failure_threshold
            &&& judge.cool_off_nanos == usual.cool_off_nanos
        },
{
    the_first_usable_key_is_used(keys@);
}

/// A setting changes what it is named for and nothing else.
pub proof fn a_setting_changes_only_itself(
    judge: JevJudge,
    text: &str,
    mode: JevMode,
    strict: bool,
    failures: u32,
    nanos: u64,
    set: JevJudge,
)
    ensures
        call_ensures(JevJudge::with_model, (judge, text), set) ==> set@.model == text@ && set@ == (
        JevJudgeModel { model: set@.model, ..judge@ }),
        call_ensures(JevJudge::with_base_url, (judge, text), set) ==> set@ == (JevJudgeModel {
            base_url: set@.base_url,
            ..judge@
        }),
        call_ensures(JevJudge::with_mode, (judge, mode), set) ==> set@.mode == mode && set@ == (
        JevJudgeModel { mode: set@.mode, ..judge@ }),
        call_ensures(JevJudge::with_strict, (judge, strict), set) ==> set@.strict == strict && set@
            == (JevJudgeModel { strict: set@.strict, ..judge@ }),
        call_ensures(JevJudge::with_failure_threshold, (judge, failures), set)
            ==> set@.failure_threshold == failures && set@ == (JevJudgeModel {
            failure_threshold: set@.failure_threshold,
            ..judge@
        }),
        call_ensures(JevJudge::with_cool_off_nanos, (judge, nanos), set) ==> set@.cool_off_nanos
            == nanos && set@ == (JevJudgeModel { cool_off_nanos: set@.cool_off_nanos, ..judge@ }),
{
}

/// What is kept of a call: the pages it asked about, how long it took, the status of a response
/// that arrived, and the tokens of one that was a success and said so. The response itself comes
/// back exactly where it was a success that could be read.
pub proof fn what_is_kept_of_a_call(
    url: &str,
    pages: Vec<u32>,
    elapsed_ms: u128,
    exchange: Exchange,
    kept: (CallRecord, Result<SystemOneResponse, Failure>),
)
    requires
        call_ensures(read_exchange, (url, pages, elapsed_ms, exchange), kept),
    ensures
        kept.0.pages@ == pages@,
        kept.0.elapsed_ms == elapsed_ms,
        exchange is NoResponse ==> kept.0.status is None,
        exchange is Unreadable ==> kept.0.status == Some(exchange->Unreadable_status),
        exchange is Answered ==> kept.0.status == Some(exchange->Answered_status),
        ({
            let usable = exchange is Answered && 200 <= exchange->Answered_status <= 299
                && exchange->parsed is Ok;
            &&& kept.1 is Ok <==> usable
            &&& usable ==> kept.1->Ok_0 == exchange->parsed->Ok_0
            &&& kept.0.input_tokens is Some <==> usable && exchange->parsed->Ok_0.usage is Some
            &&& kept.0.output_tokens is Some <==> usable && exchange->parsed->Ok_0.usage is Some
            &&& kept.0.input_tokens is Some ==> kept.0.input_tokens->0
                == exchange->parsed->Ok_0.usage->0.input_tokens && kept.0.output_tokens->0
                == exchange->parsed->Ok_0.usage->0.output_tokens
        }),
{
}

/// [`JevJudge::verdict`] sends a page to OCR exactly when its probability is at least the judge's
/// threshold.
pub proof fn verdict_goes_by_the_threshold(
    judge: &JevJudge,
    page: u32,
    reading: Reading,
    out: PageVerdict,
)
    requires
        call_ensures(JevJudge::verdict, (judge, page, reading), out),
    ensures
        out@.page == page,
        out@.needs_ocr <==> reaches(reading.probability, judge@.threshold),
        !out@.needs_ocr ==> out@.confidence == reading.complement,
        out@.needs_ocr && reading.probability.bits <= 0x3f80_0000 ==> out@.confidence
            == reading.probability,
{
    a_page_needs_ocr_from_the_threshold_on(judge@, page, reading);
}

/// [`JevJudge::fall_back`] fails with the failure's own words where the judge is strict, and
/// otherwise keeps every verdict it was given but for the reason.
pub proof fn fall_back_keeps_the_heuristics_decisions(
    judge: &JevJudge,
    failure: &Failure,
    heuristic: &Vec<PageVerdict>,
    out: Result<Vec<PageVerdict>, Error>,
)
    requires
        call_ensures(JevJudge::fall_back, (judge, failure, heuristic), out),
    ensures
        out is Err <==> judge@.strict,
        out is Err ==> out->Err_0@ == ErrorModel::Judge(failure@.detail),
        out is Ok ==> out->Ok_0@.len() == heuristic@.len() && forall|i: int|
            0 <= i < heuristic@.len() ==> (#[trigger] out->Ok_0@[i])@.page == heuristic@[i]@.page
                && out->Ok_0@[i]@.needs_ocr == heuristic@[i]@.needs_ocr && out->Ok_0@[i]@.confidence
                == heuristic@[i]@.confidence && out->Ok_0@[i]@.reason == failure@.class.text(),
{
    if out is Ok {
        let before = verdict_models(heuristic@);
        let after = verdict_models(out->Ok_0@);
        assert(after.len() == before.len());
        assert forall|i: int| 0 <= i < heuristic@.len() implies (
        #[trigger] out->Ok_0@[i])@.page == heuristic@[i]@.page && out->Ok_0@[i]@.needs_ocr
            == heuristic@[i]@.needs_ocr && out->Ok_0@[i]@.confidence == heuristic@[i]@.confidence
            && out->Ok_0@[i]@.reason == failure@.class.text() by {
            assert(after[i] == out->Ok_0@[i]@);
            assert(before[i] == heuristic@[i]@);
        }
    }
}

/// What is said of a call that failed: the endpoint, the status of a response that arrived, and
/// what went wrong, with no more than the first three hundred characters of the body.
pub proof fn what_is_said_of_a_failed_call(url: Seq<char>, exchange: Exchange)
    ensures
        exchange is NoResponse ==> exchange_failure(url, exchange)->0.detail == "POST "@ + url
            + " failed: "@ + exchange->NoResponse_detail@,
        exchange is Unreadable ==> exchange_failure(url, exchange)->0.detail == "POST "@ + url
            + " returned HTTP "@ + decimal(exchange->Unreadable_status as nat)
            + ", unreadable body: "@ + exchange->Unreadable_detail@,
        exchange is Answered && !(200 <= exchange->Answered_status <= 299) ==> exchange_failure(
            url,
            exchange,
        )->0.detail == "POST "@ + url + " returned HTTP "@ + decimal(
            exchange->Answered_status as nat,
        ) + ": "@ + cut(exchange->text@, 300),
        exchange is Answered && 200 <= exchange->Answered_status <= 299 && exchange->parsed is Err
            ==> exchange_failure(url, exchange)->0.detail == "POST "@ + url + " returned HTTP "@
            + decimal(exchange->Answered_status as nat) + " with unparseable JSON ("@
            + exchange->parsed->Err_0@ + "): "@ + cut(exchange->text@, 300),
{
}

/// What is said while the breaker holds calls back: how many failures it took, and the endpoint
/// that is not called.
pub proof fn what_is_said_of_a_held_call(judge: JevJudgeModel)
    ensures
        judge.refusal().class == FailureClass::BreakerOpen,
        judge.refusal().detail == decimal(judge.failure_threshold as nat)
            + " consecutive failures; not calling "@ + judge.base_url + "/v1/systemone"@
            + " until the cool-off elapses"@,
{
    assert(judge.refusal().detail =~= decimal(judge.failure_threshold as nat)
        + " consecutive failures; not calling "@ + judge.base_url + "/v1/systemone"@
        + " until the cool-off elapses"@);
}

} // verus!
