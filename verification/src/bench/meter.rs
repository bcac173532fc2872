//! What a judge's own calls used.

use crate::jev::judge::CallRecord;
use vstd::prelude::*;

verus! {

/// What a judge's calls have used over the whole run.
#[derive(Clone, Copy, Debug, PartialEq, Eq, Structural)]
pub struct TokenUsage {
    /// Calls made, whether or not they came back.
    pub calls: u32,
    /// How many of those reported their token usage.
    pub calls_reporting_usage: u32,
    /// Input tokens over the calls that reported any.
    pub input_tokens: u64,
    /// Output tokens over the calls that reported any.
    pub output_tokens: u64,
}

impl Default for TokenUsage {
    fn default() -> (r: Self)
        ensures
            r == (TokenUsage {
                calls: 0,
                calls_reporting_usage: 0,
                input_tokens: 0,
                output_tokens: 0,
            }),
    {
        TokenUsage { calls: 0, calls_reporting_usage: 0, input_tokens: 0, output_tokens: 0 }
    }
}

/// A call that said what it used.
pub open spec fn reported(call: CallRecord) -> bool {
    call.input_tokens is Some || call.output_tokens is Some
}

/// A token count, or none.
pub open spec fn tokens(count: Option<u64>) -> nat {
    match count {
        Some(n) => n as nat,
        None => 0,
    }
}

/// How many calls said what they used.
pub open spec fn reporting(calls: Seq<CallRecord>) -> nat
    decreases calls.len(),
{
    if calls.len() == 0 {
        0
    } else {
        reporting(calls.drop_last()) + if reported(calls.last()) {
            1nat
        } else {
            0nat
        }
    }
}

/// The input tokens of a list of calls.
pub open spec fn total_input(calls: Seq<CallRecord>) -> nat
    decreases calls.len(),
{
    if calls.len() == 0 {
        0
    } else {
        total_input(calls.drop_last()) + tokens(calls.last().input_tokens)
    }
}

/// The output tokens of a list of calls.
pub open spec fn total_output(calls: Seq<CallRecord>) -> nat
    decreases calls.len(),
{
    if calls.len() == 0 {
        0
    } else {
        total_output(calls.drop_last()) + tokens(calls.last().output_tokens)
    }
}

proof fn totals_grow(calls: Seq<CallRecord>, n: int)
    requires
        0 <= n <= calls.len(),
    ensures
        reporting(calls.take(n)) <= n,
        total_input(calls.take(n)) <= total_input(calls),
        total_output(calls.take(n)) <= total_output(calls),
    decreases calls.len() + n,
{
    if n < calls.len() {
        assert(calls.drop_last().take(n) =~= calls.take(n));
        totals_grow(calls.drop_last(), n);
    } else {
        assert(calls.take(n) =~= calls);
        if n > 0 {
            assert(calls.drop_last().take(n - 1) =~= calls.drop_last());
            totals_grow(calls.drop_last(), n - 1);
        }
    }
}

/// One judge's call log.
///
/// Holding one is what distinguishes "this judge used no tokens" from "nobody can say what this
/// judge used".
#[derive(Debug, PartialEq, Eq)]
pub struct JudgeMeter {
    /// The calls the judge made.
    pub log: Vec<CallRecord>,
}

impl JudgeMeter {
    /// A meter over `log`.
    #[must_use]
    pub fn new(log: Vec<CallRecord>) -> (r: Self)
        ensures
            r.log@ == log@,
    {
        JudgeMeter { log }
    }

    /// Usage over every call in the log.
    #[must_use]
    pub fn usage(&self) -> (r: TokenUsage)
        requires
            self.log@.len() <= u32::MAX,
            total_input(self.log@) <= u64::MAX,
            total_output(self.log@) <= u64::MAX,
        ensures
            r.calls == self.log@.len(),
            r.calls_reporting_usage == reporting(self.log@),
            r.input_tokens == total_input(self.log@),
            r.output_tokens == total_output(self.log@),
    {
        let mut usage: TokenUsage = TokenUsage::default();
        let mut i: usize = 0;
        while i < self.log.len()
            invariant
                i <= self.log@.len() <= u32::MAX,
                total_input(self.log@) <= u64::MAX,
                total_output(self.log@) <= u64::MAX,
                usage.calls == i,
                usage.calls_reporting_usage == reporting(self.log@.take(i as int)),
                usage.input_tokens == total_input(self.log@.take(i as int)),
                usage.output_tokens == total_output(self.log@.take(i as int)),
            decreases self.log@.len() - i,
        {
            let call: &CallRecord = &self.log[i];
            proof {
                assert(self.log@.take(i + 1).drop_last() =~= self.log@.take(i as int));
                assert(self.log@.take(i + 1).last() == *call);
                totals_grow(self.log@, i as int);
                totals_grow(self.log@, i + 1);
            }
            usage.calls = usage.calls + 1;
            if call.input_tokens.is_some() || call.output_tokens.is_some() {
                usage.calls_reporting_usage = usage.calls_reporting_usage + 1;
            }
            if let Some(n) = call.input_tokens {
                usage.input_tokens = usage.input_tokens + n;
            }
            if let Some(n) = call.output_tokens {
                usage.output_tokens = usage.output_tokens + n;
            }
            i += 1;
        }
        assert(self.log@.take(i as int) =~= self.log@);
        usage
    }
}

/// A call that reports nothing is counted as a call and moves no total.
pub proof fn silent_calls_only_count_as_calls(calls: Seq<CallRecord>, call: CallRecord)
    requires
        !reported(call),
    ensures
        reporting(calls.push(call)) == reporting(calls),
        total_input(calls.push(call)) == total_input(calls),
        total_output(calls.push(call)) == total_output(calls),
{
    assert(calls.push(call).drop_last() =~= calls);
}

/// One more call adds what it reported, and counts as reporting exactly when it reported either
/// figure. Without a call there is nothing.
pub proof fn one_more_call_adds_what_it_used(calls: Seq<CallRecord>, call: CallRecord)
    ensures
        total_input(calls.push(call)) == total_input(calls) + (if call.input_tokens is Some {
            call.input_tokens->0 as nat
        } else {
            0
        }),
        total_output(calls.push(call)) == total_output(calls) + (if call.output_tokens is Some {
            call.output_tokens->0 as nat
        } else {
            0
        }),
        reporting(calls.push(call)) == reporting(calls) + (if call.input_tokens is Some
            || call.output_tokens is Some {
            1nat
        } else {
            0
        }),
        total_input(Seq::<CallRecord>::empty()) == 0,
        total_output(Seq::<CallRecord>::empty()) == 0,
        reporting(Seq::<CallRecord>::empty()) == 0,
{
    assert(calls.push(call).drop_last() =~= calls);
}

/// What a meter reports is what its calls add up to: one for each, and their tokens.
pub proof fn a_meter_adds_up_its_calls(meter: &JudgeMeter, used: TokenUsage)
    requires
        meter.log@.len() <= u32::MAX,
        total_input(meter.log@) <= u64::MAX,
        total_output(meter.log@) <= u64::MAX,
        call_ensures(JudgeMeter::usage, (meter,), used),
    ensures
        used.calls == meter.log@.len(),
        used.calls_reporting_usage == reporting(meter.log@),
        used.input_tokens == total_input(meter.log@),
        used.output_tokens == total_output(meter.log@),
{
}

} // verus!
