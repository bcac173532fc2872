//! Name to judge. The one place a new judge is registered.
//!
//! A name that is not registered and a name this machine cannot build are different answers:
//! the first is a typo, the second an unset variable.

use crate::jev::judge::{
    first_key, non_blank, without_trailing_slashes, JevJudge, JevJudgeModel, JevMode,
    JUDGE_NAME_ALWAYS, JUDGE_NAME_GATED, REASON_FALLBACK_BREAKER_OPEN, REASON_FALLBACK_HTTP,
    REASON_FALLBACK_PROTOCOL, REASON_FALLBACK_TIMEOUT,
};
use crate::jev::wire::{DEFAULT_BASE_URL, DEFAULT_MODEL};
use crate::judge::{verdict_models, PageVerdict, PageVerdictModel};
use crate::text::{decimal, join, joined, opt_text, same_text, texts};
use vstd::prelude::*;
use vstd::string::*;

verus! {

/// The judge used when nothing asks for another one.
pub const BASELINE_JUDGE: &'static str = "heuristic";

/// The first variable an API key is looked for in.
pub const API_KEY_ENV_VAR: &'static str = "TYPESAFE_API_KEY";

/// The second variable an API key is looked for in.
pub const ALTERNATE_API_KEY_ENV_VAR: &'static str = "JEV_API_KEY";

/// Every registered name, in the order they are advertised.
pub open spec fn names() -> Seq<Seq<char>> {
    seq![BASELINE_JUDGE@, JUDGE_NAME_ALWAYS@, JUDGE_NAME_GATED@]
}

/// Every name [`judge_by_name`] answers to, for help texts and error messages.
pub fn judge_names() -> (r: Vec<String>)
    ensures
        texts(r@) == names(),
{
    let mut out: Vec<String> = Vec::new();
    out.push(BASELINE_JUDGE.to_owned());
    out.push(JUDGE_NAME_ALWAYS.to_owned());
    out.push(JUDGE_NAME_GATED.to_owned());
    assert(texts(out@) =~= names());
    out
}

/// What a hosted judge should do when the API does not answer.
#[derive(Clone, Copy, Debug, PartialEq, Eq, Structural)]
pub enum OnApiFailure {
    /// Fall back to the heuristic for that document, labelling every page with the reason.
    FallBack,
    /// Fail the document, so nothing is reported under a name that did not produce it.
    Fail,
}

/// What a registered name resolved to.
pub enum JudgeLookup {
    /// The built-in heuristic.
    Heuristic,
    /// A hosted judge, ready to be connected.
    Hosted(JevJudge),
    /// A registered judge this machine cannot construct.
    Unavailable {
        /// The registered name, so a failure can be reported by name.
        name: &'static str,
        /// What is missing, phrased as something to do.
        reason: String,
    },
}

/// The mode a registered hosted name stands for.
pub open spec fn hosted_mode(name: Seq<char>) -> Option<JevMode> {
    if name == JUDGE_NAME_ALWAYS@ {
        Some(JevMode::Always)
    } else if name == JUDGE_NAME_GATED@ {
        Some(JevMode::Gated)
    } else {
        None
    }
}

/// What to tell an operator whose environment holds no key.
pub open spec fn missing_key_reason() -> Seq<char> {
    "no API key in the environment: set "@ + API_KEY_ENV_VAR@ + " (or "@
        + ALTERNATE_API_KEY_ENV_VAR@ + ")"@
}

/// What the environment configures a hosted judge with: the values of the key variables in
/// order, and those of the two overrides.
pub ghost struct JudgeSettings {
    pub keys: Seq<Option<String>>,
    pub base_url: Option<Seq<char>>,
    pub model: Option<Seq<char>>,
}

/// The hosted judge of this mode with this key: strict exactly when a failure must fail the
/// document, the overrides honoured when they are set and not blank, everything else at its
/// default.
pub open spec fn hosted_judge(
    mode: JevMode,
    on_api_failure: OnApiFailure,
    key: Seq<char>,
    settings: JudgeSettings,
) -> JevJudgeModel {
    JevJudgeModel {
        base_url: match non_blank(settings.base_url) {
            Some(url) => without_trailing_slashes(url),
            None => DEFAULT_BASE_URL@,
        },
        model: match non_blank(settings.model) {
            Some(name) => name,
            None => DEFAULT_MODEL@,
        },
        mode,
        strict: on_api_failure == OnApiFailure::Fail,
        ..JevJudgeModel::defaults(key)
    }
}

/// `r` is the hosted judge of this mode the settings allow, or says that it is unavailable for
/// want of a key.
pub open spec fn hosted_lookup(
    mode: JevMode,
    on_api_failure: OnApiFailure,
    settings: JudgeSettings,
    r: JudgeLookup,
) -> bool {
    match first_key(settings.keys) {
        Some(key) => r is Hosted && r->Hosted_0@ == hosted_judge(
            mode,
            on_api_failure,
            key,
            settings,
        ),
        None => r is Unavailable && r->name@ == mode.name() && r->reason@ == missing_key_reason(),
    }
}

/// Build the hosted judge from what the environment holds.
pub fn jev(
    mode: JevMode,
    on_api_failure: OnApiFailure,
    keys: &Vec<Option<String>>,
    base_url: Option<String>,
    model: Option<String>,
) -> (r: JudgeLookup)
    ensures
        hosted_lookup(
            mode,
            on_api_failure,
            (JudgeSettings { keys: keys@, base_url: opt_text(base_url), model: opt_text(model) }),
            r,
        ),
{
    match JevJudge::from_settings(keys, base_url, model) {
        Some(judge) => {
            let strict: bool = on_api_failure == OnApiFailure::Fail;
            JudgeLookup::Hosted(judge.with_mode(mode).with_strict(strict))
        },
        None => {
            let mut reason: String = "no API key in the environment: set ".to_owned();
            reason.append(API_KEY_ENV_VAR);
            reason.append(" (or ");
            reason.append(ALTERNATE_API_KEY_ENV_VAR);
            reason.append(")");
            JudgeLookup::Unavailable { name: mode.judge_name(), reason }
        },
    }
}

/// Resolve a judge's name. `keys` are the values of the key variables in order; `base_url` and
/// `model` those of the two overrides.
///
/// `None` means "no judge by that name". A registered judge that cannot be built on this
/// machine is [`JudgeLookup::Unavailable`] and not `None`.
pub fn judge_by_name(
    name: &str,
    on_api_failure: OnApiFailure,
    keys: &Vec<Option<String>>,
    base_url: Option<String>,
    model: Option<String>,
) -> (r: Option<JudgeLookup>)
    ensures
        if name@ == BASELINE_JUDGE@ {
            r is Some && r->0 is Heuristic
        } else {
            match hosted_mode(name@) {
                Some(mode) => r is Some && hosted_lookup(
                    mode,
                    on_api_failure,
                    (JudgeSettings {
                        keys: keys@,
                        base_url: opt_text(base_url),
                        model: opt_text(model),
                    }),
                    r->0,
                ),
                None => r is None,
            }
        },
{
    if same_text(name, BASELINE_JUDGE) {
        Some(JudgeLookup::Heuristic)
    } else if same_text(name, JUDGE_NAME_ALWAYS) {
        Some(jev(JevMode::Always, on_api_failure, keys, base_url, model))
    } else if same_text(name, JUDGE_NAME_GATED) {
        Some(jev(JevMode::Gated, on_api_failure, keys, base_url, model))
    } else {
        None
    }
}

/// Every advertised name resolves, and no other name does.
pub proof fn exactly_the_advertised_names_resolve(name: Seq<char>)
    ensures
        names().contains(name) <==> name == BASELINE_JUDGE@ || hosted_mode(name) is Some,
{
    assert(names()[0] == BASELINE_JUDGE@);
    assert(names()[1] == JUDGE_NAME_ALWAYS@);
    assert(names()[2] == JUDGE_NAME_GATED@);
}

/// The error for a name nobody registered.
pub fn unknown_judge(name: &str) -> (r: String)
    ensures
        r@ == "unknown judge `"@ + name@ + "`; registered judges are: "@ + joined(names(), ", "@),
{
    let mut text: String = "unknown judge `".to_owned();
    text.append(name);
    text.append("`; registered judges are: ");
    text.append(join(&judge_names(), ", ").as_str());
    text
}

/// The error for a registered judge this machine cannot build.
pub fn unavailable_judge(name: &str, reason: &str) -> (r: String)
    ensures
        r@ == "judge `"@ + name@ + "` is unavailable: "@ + reason@,
{
    let mut text: String = "judge `".to_owned();
    text.append(name);
    text.append("` is unavailable: ");
    text.append(reason);
    text
}

/// A help text: `lead`, then every registered name. `baseline_label` says what the baseline is
/// to this front end.
pub fn judge_help(lead: &str, baseline_label: &str) -> (r: String)
    ensures
        r@ == lead@ + " One of: "@ + joined(names(), ", "@) + " ("@ + baseline_label@ + ": "@
            + BASELINE_JUDGE@ + ")"@,
{
    let mut text: String = lead.to_owned();
    text.append(" One of: ");
    text.append(join(&judge_names(), ", ").as_str());
    text.append(" (");
    text.append(baseline_label);
    text.append(": ");
    text.append(BASELINE_JUDGE);
    text.append(")");
    text
}

/// A reason a hosted judge records on a page it could not answer.
pub open spec fn is_fallback(reason: Seq<char>) -> bool {
    ||| reason == REASON_FALLBACK_TIMEOUT@
    ||| reason == REASON_FALLBACK_HTTP@
    ||| reason == REASON_FALLBACK_PROTOCOL@
    ||| reason == REASON_FALLBACK_BREAKER_OPEN@
}

/// True for a reason a hosted judge records on a page it could not answer.
pub fn is_fallback_reason(reason: &str) -> (r: bool)
    ensures
        r == is_fallback(reason@),
{
    same_text(reason, REASON_FALLBACK_TIMEOUT) || same_text(reason, REASON_FALLBACK_HTTP)
        || same_text(reason, REASON_FALLBACK_PROTOCOL) || same_text(
        reason,
        REASON_FALLBACK_BREAKER_OPEN,
    )
}

/// Pages a judge answered with a fallback, by reason.
#[derive(Debug, PartialEq, Eq)]
pub struct JudgeFallback {
    /// The verdict reason, e.g. `jev_fallback_http`.
    pub reason: String,
    /// How many pages carried it.
    pub pages: u32,
}

/// The reason and page count of a fallback.
pub open spec fn fallback_model(fallback: JudgeFallback) -> (Seq<char>, u32) {
    (fallback.reason@, fallback.pages)
}

/// The reasons and page counts of a list of fallbacks.
pub open spec fn fallback_models(fallbacks: Seq<JudgeFallback>) -> Seq<(Seq<char>, u32)> {
    fallbacks.map_values(|f: JudgeFallback| fallback_model(f))
}

/// Where a reason stands in a tally; its length when it does not.
pub open spec fn tally_position(tally: Seq<(Seq<char>, u32)>, reason: Seq<char>) -> int
    decreases tally.len(),
{
    if tally.len() == 0 || tally[0].0 == reason {
        0
    } else {
        1 + tally_position(tally.subrange(1, tally.len() as int), reason)
    }
}

proof fn tally_position_is(tally: Seq<(Seq<char>, u32)>, reason: Seq<char>, at: int)
    requires
        0 <= at <= tally.len(),
        forall|i: int| 0 <= i < at ==> (#[trigger] tally[i]).0 != reason,
        at < tally.len() ==> tally[at].0 == reason,
    ensures
        tally_position(tally, reason) == at,
    decreases tally.len(),
{
    if at > 0 {
        let rest = tally.subrange(1, tally.len() as int);
        assert(tally[0].0 != reason);
        assert forall|i: int| 0 <= i < at - 1 implies (#[trigger] rest[i]).0 != reason by {
            assert(rest[i] == tally[i + 1]);
        }
        if at < tally.len() {
            assert(rest[at - 1] == tally[at]);
        }
        tally_position_is(rest, reason, at - 1);
    }
}

/// One more page under `reason`: counted where the reason already stands, else a new entry at
/// the end. A count does not go past the largest `u32`.
pub open spec fn counted(tally: Seq<(Seq<char>, u32)>, reason: Seq<char>) -> Seq<(Seq<char>, u32)> {
    let at = tally_position(tally, reason);
    if at < tally.len() {
        tally.update(
            at,
            (
                reason,
                if tally[at].1 == u32::MAX {
                    u32::MAX
                } else {
                    (tally[at].1 + 1) as u32
                },
            ),
        )
    } else {
        tally.push((reason, 1u32))
    }
}

/// The tally after these verdicts: every fallback reason counted, in first-seen order.
pub open spec fn tallied(
    tally: Seq<(Seq<char>, u32)>,
    verdicts: Seq<PageVerdictModel>,
) -> Seq<(Seq<char>, u32)>
    decreases verdicts.len(),
{
    if verdicts.len() == 0 {
        tally
    } else {
        let before = tallied(tally, verdicts.drop_last());
        if is_fallback(verdicts.last().reason) {
            counted(before, verdicts.last().reason)
        } else {
            before
        }
    }
}

fn count_reason(fallbacks: &mut Vec<JudgeFallback>, reason: &String)
    ensures
        fallback_models(final(fallbacks)@) == counted(
            fallback_models(old(fallbacks)@),
            reason@,
        ),
{
    let ghost before = fallback_models(fallbacks@);
    let mut i: usize = 0;
    while i < fallbacks.len() && !same_text(fallbacks[i].reason.as_str(), reason.as_str())
        invariant
            i <= fallbacks@.len(),
            before == fallback_models(fallbacks@),
            forall|k: int| 0 <= k < i ==> (#[trigger] before[k]).0 != reason@,
        decreases fallbacks@.len() - i,
    {
        assert(before[i as int] == fallback_model(fallbacks@[i as int]));
        i += 1;
    }
    proof {
        if i < fallbacks@.len() {
            assert(before[i as int] == fallback_model(fallbacks@[i as int]));
        }
        tally_position_is(before, reason@, i as int);
    }
    if i < fallbacks.len() {
        let pages: u32 = fallbacks[i].pages.saturating_add(1);
        fallbacks.set(i, JudgeFallback { reason: reason.clone(), pages });
        assert(fallback_models(fallbacks@) =~= counted(before, reason@));
    } else {
        fallbacks.push(JudgeFallback { reason: reason.clone(), pages: 1 });
        assert(fallback_models(fallbacks@) =~= counted(before, reason@));
    }
}

/// Count the pages a judge could not answer for itself, by reason, in first-seen order.
///
/// A non-strict hosted judge answers a failed call with the heuristic's verdicts relabelled;
/// the reasons are the only trace of it.
pub fn record_fallbacks(fallbacks: &mut Vec<JudgeFallback>, verdicts: &Vec<PageVerdict>)
    ensures
        fallback_models(final(fallbacks)@) == tallied(
            fallback_models(old(fallbacks)@),
            verdict_models(verdicts@),
        ),
{
    let ghost start = fallback_models(fallbacks@);
    let ghost all = verdict_models(verdicts@);
    let mut i: usize = 0;
    assert(all.take(0) =~= Seq::empty());
    while i < verdicts.len()
        invariant
            i <= verdicts@.len(),
            all == verdict_models(verdicts@),
            fallback_models(fallbacks@) == tallied(start, all.take(i as int)),
        decreases verdicts@.len() - i,
    {
        proof {
            assert(all.take(i + 1).drop_last() =~= all.take(i as int));
            assert(all.take(i + 1).last() == verdicts@[i as int]@);
        }
        if is_fallback_reason(verdicts[i].reason.as_str()) {
            count_reason(fallbacks, &verdicts[i].reason);
        }
        i += 1;
    }
    assert(all.take(all.len() as int) =~= all);
}

/// Which judge produced a run's verdicts.
#[derive(Debug, PartialEq, Eq)]
pub struct JudgeProvenance {
    /// The registered name of the judge that ran.
    pub name: String,
    /// Pages the judge could not answer for itself.
    pub fallbacks: Vec<JudgeFallback>,
}

/// How one fallback is described.
pub open spec fn fallback_text(fallback: (Seq<char>, u32)) -> Seq<char> {
    decimal(fallback.1 as nat) + " page(s) "@ + fallback.0
}

/// How fallbacks are described, one by one.
pub open spec fn fallback_texts(fallbacks: Seq<(Seq<char>, u32)>) -> Seq<Seq<char>> {
    fallbacks.map_values(|f: (Seq<char>, u32)| fallback_text(f))
}

impl JudgeProvenance {
    /// One line to report when the judge fell back, or `None` when it did not.
    pub fn fallback_note(&self) -> (r: Option<String>)
        ensures
            opt_text(r) == (if self.fallbacks@.len() == 0 {
                None
            } else {
                Some(
                    "judge `"@ + self.name@ + "` fell back to the heuristic: "@ + joined(
                        fallback_texts(fallback_models(self.fallbacks@)),
                        ", "@,
                    ),
                )
            }),
    {
        if self.fallbacks.len() == 0 {
            return None;
        }
        let ghost all = fallback_texts(fallback_models(self.fallbacks@));
        let mut detail: Vec<String> = Vec::new();
        let mut i: usize = 0;
        assert(texts(detail@) =~= all.take(0));
        while i < self.fallbacks.len()
            invariant
                i <= self.fallbacks@.len(),
                all == fallback_texts(fallback_models(self.fallbacks@)),
                texts(detail@) == all.take(i as int),
            decreases self.fallbacks@.len() - i,
        {
            let ghost before = detail@;
            let mut text: String = crate::text::decimal_text(self.fallbacks[i].pages as u64);
            text.append(" page(s) ");
            text.append(self.fallbacks[i].reason.as_str());
            proof {
                assert(all[i as int] == fallback_text(
                    fallback_model(self.fallbacks@[i as int]),
                ));
            }
            detail.push(text);
            assert(texts(detail@) =~= texts(before).push(detail@.last()@));
            assert(all.take(i + 1) =~= all.take(i as int).push(all[i as int]));
            i += 1;
        }
        assert(all.take(all.len() as int) =~= all);
        let mut note: String = "judge `".to_owned();
        note.append(self.name.as_str());
        note.append("` fell back to the heuristic: ");
        note.append(join(&detail, ", ").as_str());
        Some(note)
    }
}

/// Verdicts that carry no fallback reason leave the tally as it is.
pub proof fn own_answers_are_not_counted(
    tally: Seq<(Seq<char>, u32)>,
    verdicts: Seq<PageVerdictModel>,
)
    requires
        forall|i: int| 0 <= i < verdicts.len() ==> !is_fallback((#[trigger] verdicts[i]).reason),
    ensures
        tallied(tally, verdicts) == tally,
    decreases verdicts.len(),
{
    if verdicts.len() > 0 {
        let rest = verdicts.drop_last();
        assert forall|i: int| 0 <= i < rest.len() implies !is_fallback(
            (#[trigger] rest[i]).reason,
        ) by {
            assert(rest[i] == verdicts[i]);
        }
        own_answers_are_not_counted(tally, rest);
        assert(!is_fallback(verdicts[verdicts.len() - 1].reason));
    }
}

/// Four reasons say that a judge did not answer for itself: a call that timed out, one that
/// failed, one that was answered uselessly, and one that was not made.
pub proof fn which_reasons_are_fallbacks(reason: Seq<char>)
    ensures
        is_fallback(reason) <==> reason == "jev_fallback_timeout"@ || reason
            == "jev_fallback_http"@ || reason == "jev_fallback_protocol"@ || reason
            == "jev_fallback_breaker_open"@,
        !is_fallback("jev_needs_ocr"@),
        !is_fallback("jev_clear"@),
        !is_fallback("jev_not_escalated"@),
{
    reveal_strlit("jev_fallback_timeout");
    reveal_strlit("jev_fallback_http");
    reveal_strlit("jev_fallback_protocol");
    reveal_strlit("jev_fallback_breaker_open");
    reveal_strlit("jev_needs_ocr");
    reveal_strlit("jev_clear");
    reveal_strlit("jev_not_escalated");
    assert("jev_fallback_timeout"@[4] == 'f');
    assert("jev_fallback_http"@[4] == 'f');
    assert("jev_fallback_protocol"@[4] == 'f');
    assert("jev_fallback_breaker_open"@[4] == 'f');
    assert("jev_needs_ocr"@[4] == 'n');
    assert("jev_clear"@[4] == 'c');
    assert("jev_not_escalated"@[4] == 'n');
}

/// One more verdict changes a tally only where it says the judge fell back, and then by one page:
/// under its reason where that stands already, or as a new reason at the end.
pub proof fn one_more_fallback_counts_once(
    tally: Seq<(Seq<char>, u32)>,
    verdicts: Seq<PageVerdictModel>,
    next: PageVerdictModel,
)
    ensures
        ({
            let before = tallied(tally, verdicts);
            let after = tallied(tally, verdicts.push(next));
            let fell = is_fallback(next.reason);
            &&& !fell ==> after == before
            &&& fell && (forall|i: int|
                0 <= i < before.len() ==> (#[trigger] before[i]).0 != next.reason) ==> after
                == before.push((next.reason, 1u32))
            &&& forall|at: int|
                fell && 0 <= at < before.len() && (#[trigger] before[at]).0 == next.reason && (
                forall|i: int| 0 <= i < at ==> (#[trigger] before[i]).0 != next.reason) ==> {
                    &&& after.len() == before.len()
                    &&& after[at].0 == next.reason
                    &&& before[at].1 < u32::MAX ==> after[at].1 == before[at].1 + 1
                    &&& before[at].1 == u32::MAX ==> after[at].1 == u32::MAX
                    &&& forall|i: int|
                        0 <= i < before.len() && i != at ==> #[trigger] after[i] == before[i]
                }
        }),
        tallied(tally, Seq::<PageVerdictModel>::empty()) == tally,
{
    let before = tallied(tally, verdicts);
    let all = verdicts.push(next);
    assert(all.drop_last() =~= verdicts);
    assert(all.last() == next);
    if is_fallback(next.reason) {
        if forall|i: int| 0 <= i < before.len() ==> (#[trigger] before[i]).0 != next.reason {
            tally_position_is(before, next.reason, before.len() as int);
        }
        assert forall|at: int|
            0 <= at < before.len() && (#[trigger] before[at]).0 == next.reason && (forall|i: int|
                0 <= i < at ==> (#[trigger] before[i]).0 != next.reason) implies tally_position(
            before,
            next.reason,
        ) == at by {
            tally_position_is(before, next.reason, at);
        }
    }
}

/// What a registered name stands for: the built-in judge, or the hosted one that asks about every
/// document or only about those in doubt. No two names stand for the same.
pub proof fn what_the_names_stand_for()
    ensures
        names() == seq!["heuristic"@, "jev"@, "jev_gated"@],
        hosted_mode("jev"@) == Some(JevMode::Always),
        hosted_mode("jev_gated"@) == Some(JevMode::Gated),
        hosted_mode("heuristic"@) is None,
{
    reveal_strlit("jev");
    reveal_strlit("jev_gated");
    reveal_strlit("heuristic");
    assert("jev"@.len() == 3);
    assert("jev_gated"@.len() == 9);
    assert("heuristic"@[0] == 'h');
    assert("jev_gated"@[0] == 'j');
    assert("heuristic"@.len() == 9);
    assert(names() =~= seq!["heuristic"@, "jev"@, "jev_gated"@]);
}

/// A hosted judge looked up by name has the mode of the name, the key that was found, the origin
/// and the model of the environment where they are set, and fails documents exactly when it was
/// asked to. Everything else is at its default.
pub proof fn a_hosted_judge_is_set_up_as_asked(
    mode: JevMode,
    on_api_failure: OnApiFailure,
    key: Seq<char>,
    settings: JudgeSettings,
)
    ensures
        ({
            let judge = hosted_judge(mode, on_api_failure, key, settings);
            let defaults = JevJudgeModel::defaults(key);
            &&& judge.mode == mode
            &&& judge.strict <==> on_api_failure == OnApiFailure::Fail
            &&& judge.api_key == key
            &&& judge.threshold == defaults.threshold
            &&& judge.failure_threshold == defaults.failure_threshold
            &&& judge.cool_off_nanos == defaults.cool_off_nanos
            &&& settings.base_url is None || crate::text::blank(settings.base_url->0)
                ==> judge.base_url == defaults.base_url
            &&& settings.base_url is Some && !crate::text::blank(settings.base_url->0)
                ==> judge.base_url == without_trailing_slashes(settings.base_url->0)
            &&& settings.model is None || crate::text::blank(settings.model->0) ==> judge.model
                == defaults.model
            &&& settings.model is Some && !crate::text::blank(settings.model->0) ==> judge.model
                == settings.model->0
        }),
{
}

/// What a name is looked up as: the built-in judge under its own name; under one of the two hosted
/// names the hosted judge with the first key that is not blank, or that it is unavailable where
/// there is none; and nothing under any other name.
pub proof fn what_a_name_is_looked_up_as(
    name: &str,
    on_api_failure: OnApiFailure,
    keys: &Vec<Option<String>>,
    base_url: Option<String>,
    model: Option<String>,
    found: Option<JudgeLookup>,
)
    requires
        call_ensures(judge_by_name, (name, on_api_failure, keys, base_url, model), found),
    ensures
        ({
            let keyed = exists|i: int|
                0 <= i < keys@.len() && (#[trigger] keys@[i]) is Some && !crate::text::blank(
                    keys@[i]->0@,
                );
            let hosted = name@ == "jev"@ || name@ == "jev_gated"@;
            &&& found is Some <==> name@ == "heuristic"@ || hosted
            &&& name@ == "heuristic"@ ==> found->0 is Heuristic
            &&& hosted && keyed ==> found->0 is Hosted && found->0->Hosted_0@.mode == (if name@
                == "jev"@ {
                JevMode::Always
            } else {
                JevMode::Gated
            }) && (found->0->Hosted_0@.strict <==> on_api_failure == OnApiFailure::Fail)
                && exists|i: int|
                0 <= i < keys@.len() && (#[trigger] keys@[i]) is Some && found->0->Hosted_0@.api_key
                    == keys@[i]->0@
            &&& hosted && !keyed ==> found->0 is Unavailable && found->0->name@ == name@
        }),
{
    what_the_names_stand_for();
    crate::jev::judge::the_first_usable_key_is_used(keys@);
    reveal_strlit("jev");
    reveal_strlit("jev_gated");
    reveal_strlit("heuristic");
    assert("jev"@.len() == 3 && "heuristic"@.len() == 9 && "jev_gated"@.len() == 9);
    assert("heuristic"@[0] == 'h' && "jev_gated"@[0] == 'j');
}

/// A note on fallbacks is given exactly where there was one, and names the judge.
pub proof fn a_fallback_is_noted(provenance: &JudgeProvenance, note: Option<String>)
    requires
        call_ensures(JudgeProvenance::fallback_note, (provenance,), note),
    ensures
        note is Some <==> provenance.fallbacks@.len() > 0,
        provenance.fallbacks@.len() == 1 ==> note->0@ == "judge `"@ + provenance.name@
            + "` fell back to the heuristic: "@ + decimal(
            provenance.fallbacks@[0].pages as nat,
        ) + " page(s) "@ + provenance.fallbacks@[0].reason@,
{
    if provenance.fallbacks@.len() == 1 {
        let all = fallback_texts(fallback_models(provenance.fallbacks@));
        let one = decimal(provenance.fallbacks@[0].pages as nat) + " page(s) "@
            + provenance.fallbacks@[0].reason@;
        assert(all =~= seq![one]);
        reveal_with_fuel(joined, 2);
        assert(joined(all, ", "@) =~= one);
        assert("judge `"@ + provenance.name@ + "` fell back to the heuristic: "@ + one =~= "judge `"@
            + provenance.name@ + "` fell back to the heuristic: "@ + decimal(
            provenance.fallbacks@[0].pages as nat,
        ) + " page(s) "@ + provenance.fallbacks@[0].reason@);
    }
}

} // verus!
