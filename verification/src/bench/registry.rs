//! Turning the requested names into judges to run.
//!
//! A hosted judge that cannot reach its API must fail the document here: falling back would
//! print one judge's numbers under another's name.

use crate::bench::corpus::{first_seen, holds_text};
use crate::cli::judge::{
    hosted_lookup, hosted_mode, judge_by_name, missing_key_reason, unknown_judge, JudgeLookup,
    JudgeSettings, OnApiFailure, BASELINE_JUDGE,
};
use crate::jev::judge::first_key;
use crate::text::{clone_opt_text, joined, opt_text, push_text, texts};
use vstd::prelude::*;
use vstd::string::*;

verus! {

/// A registered judge that could not be built on this machine, and why. Neither a failed
/// document nor an error: an unset key is the normal state of a fresh checkout.
#[derive(Debug, PartialEq, Eq)]
pub struct SkippedJudge {
    /// The registered name that was asked for.
    pub judge: String,
    /// What is missing, phrased as something to do about it.
    pub reason: String,
}

/// The outcome of turning names into judges.
pub struct ResolvedJudges {
    /// The judges that will run, baseline first.
    pub judges: Vec<JudgeLookup>,
    /// The requested judges that could not be built here.
    pub skipped: Vec<SkippedJudge>,
}

/// A name that stands for a judge.
pub open spec fn registered(name: Seq<char>) -> bool {
    name == BASELINE_JUDGE@ || hosted_mode(name) is Some
}

/// A registered name that can be built from these keys.
pub open spec fn buildable(name: Seq<char>, keys: Seq<Option<String>>) -> bool {
    name == BASELINE_JUDGE@ || first_key(keys) is Some
}

/// What to tell an operator about a judge that was skipped.
pub open spec fn skip_reason() -> Seq<char> {
    missing_key_reason() + ", or put it in a .env file at the workspace root"@
}

/// The names to run: the baseline first, then whatever was asked for, each at most once.
pub open spec fn names_to_run(requested: Seq<Seq<char>>) -> Seq<Seq<char>> {
    first_seen(seq![BASELINE_JUDGE@] + requested)
}

/// The names to run.
pub fn judge_order(requested: &Vec<String>) -> (r: Vec<String>)
    ensures
        texts(r@) == names_to_run(texts(requested@)),
{
    let mut names: Vec<String> = Vec::new();
    push_text(&mut names, BASELINE_JUDGE.to_owned());
    let ghost all = seq![BASELINE_JUDGE@] + texts(requested@);
    let mut i: usize = 0;
    proof {
        assert(all.take(1).drop_last() =~= Seq::empty());
        assert(all.take(1).last() == BASELINE_JUDGE@);
        assert(first_seen(all.take(1).drop_last()) =~= Seq::empty());
        assert(texts(names@) =~= first_seen(all.take(1)));
    }
    while i < requested.len()
        invariant
            i <= requested@.len(),
            all == seq![BASELINE_JUDGE@] + texts(requested@),
            texts(names@) == first_seen(all.take(i + 1)),
        decreases requested@.len() - i,
    {
        proof {
            assert(all.take(i + 2).drop_last() =~= all.take(i + 1));
            assert(all.take(i + 2).last() == requested@[i as int]@);
        }
        if !holds_text(&names, requested[i].as_str()) {
            push_text(&mut names, requested[i].clone());
        }
        i += 1;
    }
    assert(all.take(i + 1) =~= all);
    names
}

/// The judge a buildable name stands for: the heuristic, or a hosted judge that fails the
/// document when the API does not answer.
pub open spec fn stands_for(
    name: Seq<char>,
    settings: JudgeSettings,
    lookup: JudgeLookup,
) -> bool {
    if name == BASELINE_JUDGE@ {
        lookup is Heuristic
    } else {
        hosted_mode(name) is Some && lookup is Hosted && hosted_lookup(
            hosted_mode(name)->0,
            OnApiFailure::Fail,
            settings,
            lookup,
        )
    }
}

/// The names that can be built, in order.
pub open spec fn ready_names(names: Seq<Seq<char>>, keys: Seq<Option<String>>) -> Seq<Seq<char>>
    decreases names.len(),
{
    if names.len() == 0 {
        Seq::empty()
    } else if buildable(names.last(), keys) {
        ready_names(names.drop_last(), keys).push(names.last())
    } else {
        ready_names(names.drop_last(), keys)
    }
}

/// The names that cannot be built, in order.
pub open spec fn skipped_names(names: Seq<Seq<char>>, keys: Seq<Option<String>>) -> Seq<Seq<char>>
    decreases names.len(),
{
    if names.len() == 0 {
        Seq::empty()
    } else if buildable(names.last(), keys) {
        skipped_names(names.drop_last(), keys)
    } else {
        skipped_names(names.drop_last(), keys).push(names.last())
    }
}

/// The first name that stands for no judge.
pub open spec fn first_unknown(names: Seq<Seq<char>>) -> Option<Seq<char>>
    decreases names.len(),
{
    if names.len() == 0 {
        None
    } else if !registered(names[0]) {
        Some(names[0])
    } else {
        first_unknown(names.subrange(1, names.len() as int))
    }
}

/// `resolved` is what these registered names come to.
pub open spec fn resolution(
    names: Seq<Seq<char>>,
    settings: JudgeSettings,
    judges: Seq<JudgeLookup>,
    skipped: Seq<SkippedJudge>,
) -> bool {
    let ready = ready_names(names, settings.keys);
    let left = skipped_names(names, settings.keys);
    &&& judges.len() == ready.len()
    &&& forall|i: int|
        0 <= i < judges.len() ==> stands_for(ready[i], settings, #[trigger] judges[i])
    &&& skipped.len() == left.len()
    &&& forall|i: int|
        0 <= i < skipped.len() ==> (#[trigger] skipped[i]).judge@ == left[i]
            && skipped[i].reason@ == skip_reason()
}

/// How an unregistered name is refused.
pub open spec fn unknown_text(name: Seq<char>) -> Seq<char> {
    "unknown judge `"@ + name + "`; registered judges are: "@ + joined(
        crate::cli::judge::names(),
        ", "@,
    )
}

/// Resolve the judges to run: the baseline first, then whatever was asked for, each at most
/// once. `keys`, `base_url` and `model` are the values of the environment variables a hosted
/// judge is built from.
///
/// An unregistered name stops the run: it is a typo, and scoring three judges when four were
/// asked for would hide it. A registered judge that cannot be built here is skipped.
pub fn resolve_judges(
    requested: &Vec<String>,
    keys: &Vec<Option<String>>,
    base_url: &Option<String>,
    model: &Option<String>,
) -> (r: Result<ResolvedJudges, String>)
    ensures
        match first_unknown(names_to_run(texts(requested@))) {
            Some(name) => r is Err && r->Err_0@ == unknown_text(name),
            None => r is Ok && resolution(
                names_to_run(texts(requested@)),
                (JudgeSettings {
                    keys: keys@,
                    base_url: opt_text(*base_url),
                    model: opt_text(*model),
                }),
                r->Ok_0.judges@,
                r->Ok_0.skipped@,
            ),
        },
{
    let names: Vec<String> = judge_order(requested);
    let ghost all = names_to_run(texts(requested@));
    let ghost settings = JudgeSettings {
        keys: keys@,
        base_url: opt_text(*base_url),
        model: opt_text(*model),
    };
    let mut judges: Vec<JudgeLookup> = Vec::new();
    let mut skipped: Vec<SkippedJudge> = Vec::new();
    let mut i: usize = 0;
    assert(all.subrange(0, all.len() as int) =~= all);
    assert(all.take(0) =~= Seq::empty());
    while i < names.len()
        invariant
            i <= names@.len(),
            all == texts(names@),
            all == names_to_run(texts(requested@)),
            first_unknown(all) == first_unknown(all.subrange(i as int, all.len() as int)),
            settings.keys == keys@,
            settings.base_url == opt_text(*base_url),
            settings.model == opt_text(*model),
            resolution(all.take(i as int), settings, judges@, skipped@),
        decreases names@.len() - i,
    {
        let ghost judges_before = judges@;
        let ghost skipped_before = skipped@;
        let ghost name = names@[i as int]@;
        proof {
            let rest = all.subrange(i as int, all.len() as int);
            assert(rest[0] == name);
            assert(rest.subrange(1, rest.len() as int) =~= all.subrange(i + 1, all.len() as int));
            assert(all.take(i + 1).drop_last() =~= all.take(i as int));
            assert(all.take(i + 1).last() == name);
        }
        let found: Option<JudgeLookup> = judge_by_name(
            names[i].as_str(),
            OnApiFailure::Fail,
            keys,
            clone_opt_text(base_url),
            clone_opt_text(model),
        );
        match found {
            None => {
                return Err(unknown_judge(names[i].as_str()));
            },
            Some(JudgeLookup::Unavailable { name: skipped_name, reason }) => {
                let mut reason: String = reason;
                reason.append(", or put it in a .env file at the workspace root");
                let skip = SkippedJudge { judge: skipped_name.to_owned(), reason };
                proof {
                    assert(hosted_mode(name) is Some);
                    assert(hosted_mode(name)->0.name() == name);
                }
                skipped.push(skip);
                assert(forall|k: int|
                    0 <= k < skipped_before.len() ==> #[trigger] skipped@[k] == skipped_before[k]);
            },
            Some(ready) => {
                judges.push(ready);
                assert(forall|k: int|
                    0 <= k < judges_before.len() ==> #[trigger] judges@[k] == judges_before[k]);
            },
        }
        i += 1;
    }
    assert(all.take(i as int) =~= all);
    Ok(ResolvedJudges { judges, skipped })
}

proof fn first_seen_keeps_the_head(all: Seq<Seq<char>>)
    requires
        all.len() > 0,
    ensures
        first_seen(all).len() > 0,
        first_seen(all)[0] == all[0],
    decreases all.len(),
{
    if all.len() > 1 {
        first_seen_keeps_the_head(all.drop_last());
    } else {
        assert(first_seen(all.drop_last()) =~= Seq::empty());
    }
}

/// The baseline is always among the names to run, first and once.
pub proof fn the_baseline_runs_first_and_once(requested: Seq<Seq<char>>)
    ensures
        names_to_run(requested).len() > 0,
        names_to_run(requested)[0] == BASELINE_JUDGE@,
        names_to_run(requested).no_duplicates(),
{
    first_seen_keeps_the_head(seq![BASELINE_JUDGE@] + requested);
    crate::bench::corpus::sources_are_listed_once(seq![BASELINE_JUDGE@] + requested);
}

/// The names to run are the baseline and those asked for, and no others.
pub proof fn exactly_the_names_asked_for_run(requested: Seq<Seq<char>>, name: Seq<char>)
    ensures
        names_to_run(requested).contains(name) <==> name == "heuristic"@ || requested.contains(name),
{
    let all = seq![BASELINE_JUDGE@] + requested;
    crate::bench::corpus::sources_are_listed_once(all);
    assert(all[0] == BASELINE_JUDGE@);
    if requested.contains(name) {
        let k = choose|k: int| 0 <= k < requested.len() && requested[k] == name;
        assert(all[k + 1] == name);
    }
    if all.contains(name) && name != BASELINE_JUDGE@ {
        let k = choose|k: int| 0 <= k < all.len() && all[k] == name;
        assert(requested[k - 1] == name);
    }
}

/// A name either runs or is skipped, and keeps its place: the baseline always runs, and any other
/// exactly when there is a key that is not blank.
pub proof fn one_more_name_runs_or_is_skipped(
    names: Seq<Seq<char>>,
    next: Seq<char>,
    keys: Seq<Option<String>>,
)
    ensures
        ({
            let runs = next == "heuristic"@ || exists|i: int|
                0 <= i < keys.len() && (#[trigger] keys[i]) is Some && !crate::text::blank(
                    keys[i]->0@,
                );
            &&& runs ==> ready_names(names.push(next), keys) == ready_names(names, keys).push(next)
                && skipped_names(names.push(next), keys) == skipped_names(names, keys)
            &&& !runs ==> ready_names(names.push(next), keys) == ready_names(names, keys)
                && skipped_names(names.push(next), keys) == skipped_names(names, keys).push(next)
        }),
        ready_names(Seq::<Seq<char>>::empty(), keys).len() == 0,
        skipped_names(Seq::<Seq<char>>::empty(), keys).len() == 0,
{
    assert(names.push(next).drop_last() =~= names);
    crate::jev::judge::the_first_usable_key_is_used(keys);
}

/// The name a run is refused for is the first that stands for no judge.
pub proof fn the_first_unknown_name_is_refused(names: Seq<Seq<char>>)
    ensures
        first_unknown(names) is None <==> forall|i: int|
            0 <= i < names.len() ==> registered(#[trigger] names[i]),
        first_unknown(names) is Some ==> exists|i: int|
            0 <= i < names.len() && (#[trigger] names[i]) == first_unknown(names)->0
                && !registered(names[i]) && forall|k: int|
                0 <= k < i ==> registered(#[trigger] names[k]),
    decreases names.len(),
{
    if names.len() > 0 {
        if registered(names[0]) {
            let rest = names.subrange(1, names.len() as int);
            the_first_unknown_name_is_refused(rest);
            if first_unknown(rest) is Some {
                let i = choose|i: int|
                    0 <= i < rest.len() && (#[trigger] rest[i]) == first_unknown(rest)->0
                        && !registered(rest[i]) && forall|k: int|
                        0 <= k < i ==> registered(#[trigger] rest[k]);
                assert(names[i + 1] == rest[i]);
                assert forall|k: int| 0 <= k < i + 1 implies registered(#[trigger] names[k]) by {
                    if k > 0 {
                        assert(rest[k - 1] == names[k]);
                    }
                }
            } else {
                assert forall|k: int| 0 <= k < names.len() implies registered(
                    #[trigger] names[k],
                ) by {
                    if k > 0 {
                        assert(rest[k - 1] == names[k]);
                    }
                }
            }
        } else {
            assert(!registered(names[0]));
        }
    }
}

/// What is made of the names asked for: they are refused exactly when one of them stands for no
/// judge. Otherwise there is a judge for each that can run, in order, the built-in one or a hosted
/// one that fails documents it cannot judge; and the others are listed as skipped.
pub proof fn what_is_made_of_the_names_asked_for(
    requested: &Vec<String>,
    keys: &Vec<Option<String>>,
    base_url: &Option<String>,
    model: &Option<String>,
    made: Result<ResolvedJudges, String>,
)
    requires
        call_ensures(resolve_judges, (requested, keys, base_url, model), made),
    ensures
        ({
            let names = names_to_run(texts(requested@));
            &&& made is Ok <==> forall|i: int| 0 <= i < names.len() ==> registered(#[trigger] names[i])
            &&& made is Ok ==> {
                let ready = ready_names(names, keys@);
                let left = skipped_names(names, keys@);
                &&& made->Ok_0.judges@.len() == ready.len()
                &&& made->Ok_0.skipped@.len() == left.len()
                &&& forall|i: int|
                    0 <= i < ready.len() ==> (ready[i] == "heuristic"@ ==> (
                    #[trigger] made->Ok_0.judges@[i]) is Heuristic) && (ready[i] != "heuristic"@
                        ==> made->Ok_0.judges@[i] is Hosted && made->Ok_0.judges@[i]->Hosted_0@.strict)
                &&& forall|i: int|
                    0 <= i < left.len() ==> (#[trigger] made->Ok_0.skipped@[i]).judge@ == left[i]
            }
        }),
{
    the_first_unknown_name_is_refused(names_to_run(texts(requested@)));
    if made is Ok {
        let names = names_to_run(texts(requested@));
        let ready = ready_names(names, keys@);
        let settings = JudgeSettings {
            keys: keys@,
            base_url: opt_text(*base_url),
            model: opt_text(*model),
        };
        assert forall|i: int| 0 <= i < ready.len() implies (ready[i] == "heuristic"@ ==> (
        #[trigger] made->Ok_0.judges@[i]) is Heuristic) && (ready[i] != "heuristic"@
            ==> made->Ok_0.judges@[i] is Hosted && made->Ok_0.judges@[i]->Hosted_0@.strict) by {
            assert(stands_for(ready[i], settings, made->Ok_0.judges@[i]));
        }
    }
}

} // verus!
