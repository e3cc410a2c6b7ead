//! Final-stage validation: the best candidates, one after the other, are given
//! one long request, until one of them holds up.
use crate::candidates::capped_product;
use crate::measure::{falling, order_falling, Real};
use crate::profile::{
    usable, CandidateConfig, CandidateView, Outcome, ProfileResult, RealisticValidation,
    ResultView, RunMetrics, SafetyLimits, ValidationView,
};
use crate::ranking::{score_of, score_source, Score, Source};
use crate::record::{opt_view, views, Duplicate};
use crate::text;
use crate::tuning::{fit_runs, list_fit_runs};
use vstd::prelude::*;

verus! {

/// The most tokens that a validation asks for.
pub const REALISTIC_OUTPUT_TOKENS: u64 = 1024;

/// The least share of the throughput that has to be kept, as a
/// double-precision number: a quarter.
pub const QUARTER: u64 = 0x3fd0_0000_0000_0000;

/// The shortest time that a request is given, in nanoseconds.
pub const REQUEST_TIMEOUT_NANOS: u128 = 600_000_000_000;

/// The longest time that a validation is given, in nanoseconds.
pub const REALISTIC_TIMEOUT_NANOS: u128 = 7_200_000_000_000;

// ---------------------------------------------------------------------------
// Targets

/// The size in tokens of the prompt of a validation: a quarter of the context,
/// between 16k and 64k, with room left for the output.
pub open spec fn validation_target(context: u64) -> int {
    let quarter = context as int / 4;
    let target = if quarter < 16_000 {
        16_000
    } else if quarter > 64_000 {
        64_000
    } else {
        quarter
    };
    let room = if context as int - REALISTIC_OUTPUT_TOKENS < 1 {
        1
    } else {
        context - REALISTIC_OUTPUT_TOKENS
    };
    if target < room {
        target
    } else {
        room
    }
}

/// The size in tokens of the prompt of a validation.
pub fn realistic_validation_prompt_target(context: u64) -> (r: u64)
    ensures
        r == validation_target(context),
{
    let quarter: u64 = context / 4;
    let target: u64 = if quarter < 16_000 {
        16_000
    } else if quarter > 64_000 {
        64_000
    } else {
        quarter
    };
    let room: u64 = if context <= REALISTIC_OUTPUT_TOKENS {
        1
    } else {
        context - REALISTIC_OUTPUT_TOKENS
    };
    if target < room {
        target
    } else {
        room
    }
}

/// The prompt of a validation is never empty nor above 64k tokens, and leaves
/// room for its output in every context that is larger than the output.
pub proof fn validation_prompts_leave_room(context: u64)
    ensures
        1 <= validation_target(context) <= 64_000,
        context > REALISTIC_OUTPUT_TOKENS ==> validation_target(context) + REALISTIC_OUTPUT_TOKENS
            <= context,
{
}

/// The size in tokens of a prompt that nearly fills the context.
pub open spec fn near_full_target(context: u64) -> nat {
    if context <= 2_048 {
        capped_product(context as nat, 3) / 4
    } else {
        let most = capped_product(context as nat, 94) / 100;
        if most < context - 1024 {
            if most < 1 {
                1
            } else {
                most
            }
        } else {
            (context - 1024) as nat
        }
    }
}

fn product(a: u64, b: u64) -> (r: u64)
    ensures
        r == capped_product(a as nat, b as nat),
{
    match a.checked_mul(b) {
        Some(p) => p,
        None => u64::MAX,
    }
}

/// The size in tokens of a prompt that nearly fills the context.
pub fn near_full_ingest_target(requested_context: u64) -> (r: u64)
    ensures
        r == near_full_target(requested_context),
{
    if requested_context <= 2_048 {
        return product(requested_context, 3) / 4;
    }
    let most: u64 = product(requested_context, 94) / 100;
    let room: u64 = requested_context - 1024;
    if most < room {
        if most < 1 {
            1
        } else {
            most
        }
    } else {
        room
    }
}

/// A prompt that nearly fills the context stays below it.
pub proof fn near_full_prompts_fit(context: u64)
    requires
        context > 0,
    ensures
        near_full_target(context) < context,
{
}

/// The size in tokens of the prompt of a full-context run: 80 % of the context,
/// or what was asked for, but below the context.
pub open spec fn fullctx_target(context: u64, asked: Option<u64>) -> nat {
    let most: nat = if context <= 2 {
        1
    } else {
        (context - 1) as nat
    };
    let wanted: nat = match asked {
        Some(n) => n as nat,
        None => capped_product(context as nat, 80) / 100,
    };
    if wanted < 1 {
        1
    } else if wanted > most {
        most
    } else {
        wanted
    }
}

/// The size in tokens of the prompt of a full-context run.
pub fn fullctx_prompt_target(requested_context: u64, override_tokens: Option<u64>) -> (r: u64)
    ensures
        r == fullctx_target(requested_context, override_tokens),
{
    let most: u64 = if requested_context <= 2 {
        1
    } else {
        requested_context - 1
    };
    let wanted: u64 = match override_tokens {
        Some(n) => n,
        None => product(requested_context, 80) / 100,
    };
    if wanted < 1 {
        1
    } else if wanted > most {
        most
    } else {
        wanted
    }
}

/// The prompt of a full-context run is never empty, and stays below every
/// context of at least two tokens, whatever was asked for.
pub proof fn fullctx_prompts_fit(context: u64, asked: Option<u64>)
    ensures
        fullctx_target(context, asked) >= 1,
        context >= 2 ==> fullctx_target(context, asked) < context,
{
}

/// The time that a validation is given, from an estimate: between ten minutes
/// and two hours.
pub fn realistic_validation_timeout(estimate_nanos: u128) -> (r: u128)
    ensures
        r == (if estimate_nanos < REQUEST_TIMEOUT_NANOS {
            REQUEST_TIMEOUT_NANOS
        } else if estimate_nanos > REALISTIC_TIMEOUT_NANOS {
            REALISTIC_TIMEOUT_NANOS
        } else {
            estimate_nanos
        }),
{
    if estimate_nanos < REQUEST_TIMEOUT_NANOS {
        REQUEST_TIMEOUT_NANOS
    } else if estimate_nanos > REALISTIC_TIMEOUT_NANOS {
        REALISTIC_TIMEOUT_NANOS
    } else {
        estimate_nanos
    }
}

// ---------------------------------------------------------------------------
// Order

/// The first of the first `n` runs in an order, of each candidate.
pub open spec fn first_of_each(runs: Seq<ResultView>, order: Seq<int>, n: nat) -> Seq<int>
    decreases n,
{
    if n == 0 {
        seq![]
    } else {
        let before = first_of_each(runs, order, (n - 1) as nat);
        let i = order[n - 1];
        if exists|k: int|
            0 <= k < before.len() && runs[#[trigger] before[k]].candidate.id
                == runs[i].candidate.id {
            before
        } else {
            before.push(i)
        }
    }
}

/// The runs to validate: by falling balance, each candidate once.
pub open spec fn validation_order(runs: Seq<ResultView>, scores: Seq<Real>) -> Seq<int> {
    first_of_each(runs, falling(scores, runs.len()), runs.len())
}

/// The runs to validate, given the balance of each.
pub fn rank_for_validation(results: &Vec<ProfileResult>, scores: &Vec<Real>) -> (r: Vec<usize>)
    requires
        results@.len() == scores@.len(),
    ensures
        r@.len() == validation_order(views(results@), scores@).len(),
        forall|k: int|
            0 <= k < r@.len() ==> (#[trigger] r@[k]) == validation_order(
                views(results@),
                scores@,
            )[k] && r@[k] < results@.len(),
{
    let ghost runs = views(results@);
    let order = order_falling(scores);
    let ghost s = falling(scores@, scores@.len());
    let mut r: Vec<usize> = Vec::new();
    for n in 0..order.len()
        invariant
            runs == views(results@),
            results@.len() == scores@.len(),
            order@.len() == scores@.len(),
            s == falling(scores@, scores@.len()),
            forall|j: int|
                0 <= j < order@.len() ==> #[trigger] order@[j] == s[j] && order@[j] < scores@.len(),
            r@.len() == first_of_each(runs, s, n as nat).len(),
            forall|k: int|
                0 <= k < r@.len() ==> (#[trigger] r@[k]) == first_of_each(runs, s, n as nat)[k],
            forall|k: int| 0 <= k < r@.len() ==> (#[trigger] r@[k]) < results@.len(),
    {
        let i = order[n];
        let ghost before = first_of_each(runs, s, n as nat);
        proof {
            assert(order@[n as int] == s[n as int]);
        }
        let mut found = false;
        for k in 0..r.len()
            invariant
                runs == views(results@),
                i < results@.len(),
                r@.len() == before.len(),
                forall|k: int| 0 <= k < r@.len() ==> (#[trigger] r@[k]) == before[k],
                forall|k: int| 0 <= k < r@.len() ==> (#[trigger] r@[k]) < results@.len(),
                found == (exists|j: int|
                    0 <= j < k && runs[#[trigger] before[j]].candidate.id
                        == runs[i as int].candidate.id),
        {
            proof {
                assert(r@[k as int] == before[k as int]);
            }
            let here = text::same_text(
                results[r[k]].candidate.id.as_str(),
                results[i].candidate.id.as_str(),
            );
            proof {
                assert(here == (runs[before[k as int]].candidate.id == runs[i as int].candidate.id));
            }
            found = found || here;
        }
        let ghost old_r = r@;
        if !found {
            r.push(i);
        }
        proof {
            let after = first_of_each(runs, s, (n + 1) as nat);
            assert forall|k: int| 0 <= k < r@.len() implies (#[trigger] r@[k]) == after[k]
                && r@[k] < results@.len() by {
                if k < old_r.len() {
                    assert(r@[k] == old_r[k]);
                }
            }
        }
    }
    r
}

/// The runs to validate, which of them comes next, and whether one passed.
pub struct ValidationSession {
    pub order: Vec<usize>,
    pub next: usize,
    pub passed: bool,
}

impl ValidationSession {
    pub open spec fn wf(self) -> bool {
        self.next <= self.order@.len()
    }

    /// A validation of these runs, in this order.
    pub fn new(order: Vec<usize>) -> (r: ValidationSession)
        ensures
            r.wf(),
            r.order@ == order@,
            r.next == 0,
            !r.passed,
    {
        ValidationSession { order, next: 0, passed: false }
    }

    /// The run to validate next: none once one passed or all were tried.
    pub fn next_run(&mut self) -> (r: Option<usize>)
        requires
            old(self).wf(),
        ensures
            final(self).wf(),
            final(self).order@ == old(self).order@,
            final(self).passed == old(self).passed,
            if old(self).passed || old(self).next == old(self).order@.len() {
                r is None && final(self).next == old(self).next
            } else {
                r == Some(old(self).order@[old(self).next as int]) && final(self).next == old(
                    self,
                ).next + 1
            },
    {
        if self.passed || self.next == self.order.len() {
            return None;
        }
        let run = self.order[self.next];
        self.next = self.next + 1;
        Some(run)
    }

    /// Takes the outcome of a validation.
    pub fn record(&mut self, outcome: Outcome)
        requires
            old(self).wf(),
        ensures
            final(self).wf(),
            final(self).order@ == old(self).order@,
            final(self).next == old(self).next,
            final(self).passed == (old(self).passed || usable(outcome)),
    {
        if outcome.is_usable() {
            self.passed = true;
        }
    }
}

/// The candidate of a validation.
pub open spec fn validation_candidate_of(c: CandidateView, target: u64) -> CandidateView {
    CandidateView {
        id: c.id + "-realistic-validation"@,
        note: "Final-stage realistic validation of selected observed candidate "@ + c.id
            + " with about "@ + text::decimal(target as nat) + " prompt tokens and up to "@
            + text::decimal(REALISTIC_OUTPUT_TOKENS as nat) + " output tokens"@,
        ..c
    }
}

/// The candidate of a validation.
pub fn validation_candidate(baseline: &CandidateConfig, target: u64) -> (r: CandidateConfig)
    ensures
        r@ == validation_candidate_of(baseline@, target),
{
    let mut c = baseline.duplicate();
    let mut id = baseline.id.clone();
    id.append("-realistic-validation");
    c.id = id;
    let mut note = "Final-stage realistic validation of selected observed candidate ".to_string();
    note.append(baseline.id.as_str());
    note.append(" with about ");
    note.append(text::number(target).as_str());
    note.append(" prompt tokens and up to ");
    note.append(text::number(REALISTIC_OUTPUT_TOKENS).as_str());
    note.append(" output tokens");
    c.note = note;
    c
}

// ---------------------------------------------------------------------------
// Assessment

/// The two speeds whose ratio tells how much of the throughput was kept, where
/// the ratio has a meaning: both are finite and the baseline is positive.
pub open spec fn comparable(measured: Option<Real>, baseline: Option<Real>) -> Option<
    (Real, Real),
> {
    match (measured, baseline) {
        (Some(m), Some(b)) => if b.positive() && m.finite() && b.finite() {
            Some((m, b))
        } else {
            None
        },
        _ => None,
    }
}

/// The two speeds whose ratio tells how much of the throughput was kept.
pub fn retained_pair(measured: Option<Real>, baseline: Option<Real>) -> (r: Option<(Real, Real)>)
    ensures
        r == comparable(measured, baseline),
{
    match (measured, baseline) {
        (Some(m), Some(b)) => if b.is_positive() && m.is_finite() && b.is_finite() {
            Some((m, b))
        } else {
            None
        },
        _ => None,
    }
}

/// A ratio is below a quarter.
pub open spec fn collapsed(ratio: Option<Real>) -> bool {
    ratio matches Some(x) && x.less(Real { bits: QUARTER })
}

/// Fewer tokens came back than were asked for.
pub open spec fn incomplete(tokens: Option<u64>) -> bool {
    match tokens {
        Some(n) => n < REALISTIC_OUTPUT_TOKENS,
        None => true,
    }
}

/// A run after its validation was judged against its baseline.
pub open spec fn assessed(
    r: ResultView,
    baseline_run_id: Seq<char>,
    target: u64,
    prompt_ratio: Option<Real>,
    generation_ratio: Option<Real>,
) -> ResultView {
    let degraded = usable(r.outcome) && (collapsed(prompt_ratio) || collapsed(generation_ratio));
    ResultView {
        realistic_validation: Some(
            ValidationView {
                baseline_run_id,
                target_prompt_tokens: target,
                requested_output_tokens: REALISTIC_OUTPUT_TOKENS,
                actual_prompt_tokens: r.prompt_tokens,
                actual_output_tokens: r.completion_tokens,
                prompt_retained_ratio: prompt_ratio,
                generation_retained_ratio: generation_ratio,
                incomplete_generation: incomplete(r.completion_tokens),
            },
        ),
        outcome: if degraded {
            Outcome::PerformanceDegraded
        } else {
            r.outcome
        },
        note: if degraded {
            "realistic validation retained less than 25% of short-probe throughput"@
        } else if usable(r.outcome) && incomplete(r.completion_tokens) {
            "realistic validation passed with early EOS after "@ + text::decimal(
                match r.completion_tokens {
                    Some(n) => n as nat,
                    None => 0,
                },
            ) + " of up to "@ + text::decimal(REALISTIC_OUTPUT_TOKENS as nat)
                + " requested output tokens"@
        } else if usable(r.outcome) {
            "realistic validation passed"@
        } else {
            r.note
        },
        ..r
    }
}

fn is_collapsed(ratio: Option<Real>) -> (r: bool)
    ensures
        r == collapsed(ratio),
{
    match ratio {
        Some(x) => x.is_less(Real { bits: QUARTER }),
        None => false,
    }
}

/// Judges a validation against its baseline, given how much of the throughput
/// was kept.
pub fn apply_realistic_validation_assessment(
    result: &mut ProfileResult,
    baseline: &ProfileResult,
    target_prompt_tokens: u64,
    prompt_retained_ratio: Option<Real>,
    generation_retained_ratio: Option<Real>,
)
    ensures
        final(result)@ == assessed(
            old(result)@,
            baseline.run_id@,
            target_prompt_tokens,
            prompt_retained_ratio,
            generation_retained_ratio,
        ),
{
    let early = match result.completion_tokens {
        Some(n) => n < REALISTIC_OUTPUT_TOKENS,
        None => true,
    };
    result.realistic_validation = Some(
        RealisticValidation {
            baseline_run_id: baseline.run_id.clone(),
            target_prompt_tokens,
            requested_output_tokens: REALISTIC_OUTPUT_TOKENS,
            actual_prompt_tokens: result.prompt_tokens,
            actual_output_tokens: result.completion_tokens,
            prompt_retained_ratio,
            generation_retained_ratio,
            incomplete_generation: early,
        },
    );
    if !result.outcome.is_usable() {
        return;
    }
    if is_collapsed(prompt_retained_ratio) || is_collapsed(generation_retained_ratio) {
        result.outcome = Outcome::PerformanceDegraded;
        result.note =
        "realistic validation retained less than 25% of short-probe throughput".to_string();
    } else if early {
        let tokens: u64 = match result.completion_tokens {
            Some(n) => n,
            None => 0,
        };
        let mut note = "realistic validation passed with early EOS after ".to_string();
        note.append(text::number(tokens).as_str());
        note.append(" of up to ");
        note.append(text::number(REALISTIC_OUTPUT_TOKENS).as_str());
        note.append(" requested output tokens");
        result.note = note;
    } else {
        result.note = "realistic validation passed".to_string();
    }
}

/// A validation that ended early is no failure, and one that kept less than a
/// quarter of either throughput is one; a run that failed by itself stays as it
/// is.
pub proof fn only_collapse_fails_a_validation(
    r: ResultView,
    baseline_run_id: Seq<char>,
    target: u64,
    prompt_ratio: Option<Real>,
    generation_ratio: Option<Real>,
)
    ensures
        ({
            let a = assessed(r, baseline_run_id, target, prompt_ratio, generation_ratio);
            &&& usable(a.outcome) == (usable(r.outcome) && !collapsed(prompt_ratio) && !collapsed(
                generation_ratio,
            ))
            &&& !usable(r.outcome) ==> a.outcome == r.outcome && a.note == r.note
        }),
{
}

// ---------------------------------------------------------------------------
// Baselines

/// The runs at these places.
pub open spec fn picked_runs(runs: Seq<ResultView>, places: Seq<int>) -> Seq<ResultView> {
    Seq::new(places.len(), |i: int| runs[places[i]])
}

/// The runs that a validation can start from: those of the search within the
/// limits, the refined one, and the confirming ones within the limits.
pub open spec fn baselines_of(
    results: Seq<ResultView>,
    refined: Option<ResultView>,
    confirmed: Seq<ResultView>,
    safety: SafetyLimits,
) -> Seq<ResultView> {
    picked_runs(results, fit_runs(results, safety, results.len())) + (match refined {
        Some(run) => seq![run],
        None => seq![],
    }) + picked_runs(confirmed, fit_runs(confirmed, safety, confirmed.len()))
}

fn pick_fit(results: &Vec<ProfileResult>, safety: &SafetyLimits) -> (r: Vec<ProfileResult>)
    ensures
        views(r@) == picked_runs(
            views(results@),
            fit_runs(views(results@), *safety, results@.len()),
        ),
{
    let ghost runs = views(results@);
    let ghost places = fit_runs(runs, *safety, runs.len());
    let fit = list_fit_runs(results, safety);
    let mut r: Vec<ProfileResult> = Vec::new();
    for k in 0..fit.len()
        invariant
            runs == views(results@),
            fit@.len() == places.len(),
            forall|k: int| 0 <= k < fit@.len() ==> (#[trigger] fit@[k]) == places[k],
            forall|k: int| 0 <= k < fit@.len() ==> (#[trigger] fit@[k]) < results@.len(),
            r@.len() == k,
            forall|j: int| 0 <= j < k ==> (#[trigger] r@[j])@ == runs[places[j]],
    {
        r.push(results[fit[k]].duplicate());
    }
    proof {
        assert(views(r@) =~= picked_runs(runs, places));
    }
    r
}

/// The runs that a validation can start from.
pub fn validation_baselines(
    results: &Vec<ProfileResult>,
    refined: &Option<ProfileResult>,
    confirmed: &Vec<ProfileResult>,
    safety: &SafetyLimits,
) -> (r: Vec<ProfileResult>)
    ensures
        views(r@) == baselines_of(views(results@), opt_view(*refined), views(confirmed@), *safety),
{
    let mut r = pick_fit(results, safety);
    let ghost first = views(r@);
    proof {
        assert(first + seq![] =~= first);
    }
    if let Some(run) = refined {
        let copy = run.duplicate();
        r.push(copy);
        proof {
            assert(views(r@) =~= first + seq![copy@]);
        }
    }
    let ghost two = views(r@);
    let mut rest = pick_fit(confirmed, safety);
    let ghost three = views(rest@);
    r.append(&mut rest);
    proof {
        assert(views(r@) =~= two + three);
    }
    r
}

/// A run with the medians of its repeated measurements.
pub open spec fn with_medians(run: ResultView, score: Score) -> ResultView {
    ResultView {
        metrics: RunMetrics {
            server_generation_toks_per_s: score.generation,
            server_prompt_eval_toks_per_s: score.prompt,
            ..run.metrics
        },
        ..run
    }
}

/// The measurements of several runs, repeated ones combined: the first run of
/// each, with the medians.
pub fn combine_measurements(
    results: &Vec<ProfileResult>,
    sources: &Vec<Source>,
    scores: &Vec<Score>,
) -> (r: Vec<ProfileResult>)
    requires
        sources@.len() == scores@.len(),
        forall|k: int| 0 <= k < sources@.len() ==> (#[trigger] sources@[k]).run < results@.len(),
    ensures
        views(r@) == Seq::new(
            sources@.len(),
            |k: int|
                with_medians(
                    views(results@)[sources@[k].run as int],
                    score_of(sources@[k], scores@[k]),
                ),
        ),
{
    let ghost all = Seq::new(
        sources@.len(),
        |k: int|
                with_medians(
                    views(results@)[sources@[k].run as int],
                    score_of(sources@[k], scores@[k]),
                ),
    );
    let mut r: Vec<ProfileResult> = Vec::new();
    for k in 0..sources.len()
        invariant
            sources@.len() == scores@.len(),
            forall|k: int|
                0 <= k < sources@.len() ==> (#[trigger] sources@[k]).run < results@.len(),
            all == Seq::new(
                sources@.len(),
                |k: int|
                with_medians(
                    views(results@)[sources@[k].run as int],
                    score_of(sources@[k], scores@[k]),
                ),
            ),
            r@.len() == k,
            forall|j: int| 0 <= j < k ==> (#[trigger] r@[j])@ == all[j],
    {
        let mut run = results[sources[k].run].duplicate();
        let score = score_source(&sources[k], &scores[k]);
        run.metrics.server_generation_toks_per_s = score.generation;
        run.metrics.server_prompt_eval_toks_per_s = score.prompt;
        r.push(run);
    }
    proof {
        assert(views(r@) =~= all);
    }
    r
}

/// The prompt of a validation is a quarter of the context, where that is between
/// 16 and 64 thousand tokens, and the nearer of these otherwise; in a small
/// context it leaves 1024 tokens.
pub proof fn validation_prompts_are_a_quarter(context: u64)
    ensures
        64_000 <= context <= 256_000 ==> {
            &&& 4 * validation_target(context) <= context
            &&& context < 4 * validation_target(context) + 4
        },
        context > 256_000 ==> validation_target(context) == 64_000,
        17_024 <= context < 64_000 ==> validation_target(context) == 16_000,
        1_025 <= context < 17_024 ==> validation_target(context) == context - 1_024,
        context < 1_025 ==> validation_target(context) == 1,
{
}

/// A prompt that nearly fills the context takes 94 % of it, but leaves 1024
/// tokens; in a small context it takes three quarters.
pub proof fn near_full_prompts_are_large(context: u64)
    requires
        context <= 0x0100_0000_0000_0000,
    ensures
        context <= 2_048 ==> {
            &&& 4 * near_full_target(context) <= 3 * context
            &&& 3 * context < 4 * near_full_target(context) + 4
        },
        2_048 < context <= 17_000 ==> near_full_target(context) == context - 1_024,
        context >= 17_100 ==> {
            &&& 100 * near_full_target(context) <= 94 * context
            &&& 94 * context < 100 * near_full_target(context) + 100
        },
{
}

/// A full-context prompt is as long as was asked for, where it fits, and 80 % of
/// the context where nothing was.
pub proof fn fullctx_prompts_are_as_asked(context: u64, asked: u64)
    requires
        2 < context <= 0x0100_0000_0000_0000,
    ensures
        1 <= asked < context ==> fullctx_target(context, Some(asked)) == asked,
        asked >= context ==> fullctx_target(context, Some(asked)) == context - 1,
        fullctx_target(context, Some(0)) == 1,
        100 * fullctx_target(context, None) <= 80 * context,
        80 * context < 100 * fullctx_target(context, None) + 100,
{
}

/// A validation runs what it validates: only the id and the note differ.
pub proof fn validations_run_the_candidate(c: CandidateView, target: u64)
    ensures
        ({
            let v = validation_candidate_of(c, target);
            &&& v.id == c.id + "-realistic-validation"@
            &&& v.requested_context == c.requested_context
            &&& v.batch == c.batch
            &&& v.ubatch == c.ubatch
            &&& v.kv_cache == c.kv_cache
            &&& v.kv_cache_v == c.kv_cache_v
            &&& v.fit_target == c.fit_target
            &&& v.gpu_layers == c.gpu_layers
            &&& v.cpu_moe == c.cpu_moe
            &&& v.n_cpu_moe == c.n_cpu_moe
            &&& v.threads == c.threads
            &&& v.threads_batch == c.threads_batch
        }),
{
}

/// What is noted of a validation: whose baseline, what was asked for, what came
/// back, and that less came back than the 1024 tokens asked for. The rest of the
/// run stays, and its outcome changes only where a run that completed kept less
/// than a quarter of a throughput.
pub proof fn assessments_tell_the_validation(
    r: ResultView,
    baseline: Seq<char>,
    target: u64,
    prompt: Option<Real>,
    generation: Option<Real>,
)
    ensures
        ({
            let a = assessed(r, baseline, target, prompt, generation);
            let v = a.realistic_validation->0;
            let quarter = Real { bits: 0x3fd0_0000_0000_0000u64 };
            let slow = (prompt is Some && prompt->0.less(quarter)) || (generation is Some
                && generation->0.less(quarter));
            let completed = r.outcome == Outcome::Pass || r.outcome == Outcome::ParsePartial;
            &&& a.realistic_validation is Some
            &&& v.baseline_run_id == baseline
            &&& v.target_prompt_tokens == target
            &&& v.requested_output_tokens == 1024
            &&& v.actual_prompt_tokens == r.prompt_tokens
            &&& v.actual_output_tokens == r.completion_tokens
            &&& v.prompt_retained_ratio == prompt
            &&& v.generation_retained_ratio == generation
            &&& v.incomplete_generation == !(r.completion_tokens is Some && r.completion_tokens->0
                >= 1024)
            &&& completed && slow ==> a.outcome == Outcome::PerformanceDegraded
            &&& !(completed && slow) ==> a.outcome == r.outcome
            &&& !completed ==> a.note == r.note
            &&& completed && !slow && r.completion_tokens is Some && r.completion_tokens->0 >= 1024
                ==> a.note == "realistic validation passed"@
            &&& a.run_id == r.run_id
            &&& a.candidate == r.candidate
            &&& a.command == r.command
            &&& a.metrics == r.metrics
            &&& a.test_kind == r.test_kind
            &&& a.requested_context == r.requested_context
            &&& a.model_identity == r.model_identity
        }),
{
}

/// Each candidate is validated once: no two of the places hold the same one, and
/// every run's candidate has a place.
pub proof fn every_candidate_is_validated_once(runs: Seq<ResultView>, order: Seq<int>, n: nat)
    requires
        n <= order.len(),
    ensures
        forall|i: int, j: int|
            0 <= i < j < first_of_each(runs, order, n).len() ==> runs[#[trigger] first_of_each(
                runs,
                order,
                n,
            )[i]].candidate.id != runs[#[trigger] first_of_each(runs, order, n)[j]].candidate.id,
        forall|k: int| 0 <= k < n ==> #[trigger] has_place(runs, order[k], first_of_each(runs, order, n)),
    decreases n,
{
    if n > 0 {
        every_candidate_is_validated_once(runs, order, (n - 1) as nat);
        let before = first_of_each(runs, order, (n - 1) as nat);
        let all = first_of_each(runs, order, n);
        assert forall|k: int| 0 <= k < n implies #[trigger] has_place(runs, order[k], all) by {
            if k < n - 1 {
                assert(has_place(runs, order[k], before));
                let p = choose|p: int|
                    0 <= p < before.len() && runs[#[trigger] before[p]].candidate.id
                        == runs[order[k]].candidate.id;
                assert(all[p] == before[p]);
            } else if all.len() > before.len() {
                assert(all[all.len() - 1] == order[k]);
            }
        }
    }
}

/// The candidate of run `i` has a place in the list.
pub open spec fn has_place(runs: Seq<ResultView>, i: int, list: Seq<int>) -> bool {
    exists|p: int|
        0 <= p < list.len() && runs[#[trigger] list[p]].candidate.id == runs[i].candidate.id
}

} // verus!
