//! Probes: the requests that a run makes, in order, and what came of them.
use crate::matching;
use crate::measure::Real;
use crate::profile::{NamedProbe, NamedProbeView, Outcome, ProbeSummary, ProbeView};
use crate::record::views;
use crate::refinement::group_number;
use crate::stream::{estimate_tokens, token_estimate};
use crate::text;
use crate::validation::REQUEST_TIMEOUT_NANOS;
use vstd::prelude::*;

verus! {

// ---------------------------------------------------------------------------
// Prompts

/// A text, several times over.
pub open spec fn repeated(unit: Seq<char>, n: nat) -> Seq<char>
    decreases n,
{
    if n == 0 {
        seq![]
    } else {
        repeated(unit, (n - 1) as nat) + unit
    }
}

/// How often a source is repeated to reach a number of tokens.
pub open spec fn repeats_for(source: Seq<char>, target: u64) -> nat {
    let n = target as nat / token_estimate(source);
    if n < 1 {
        2
    } else {
        n + 1
    }
}

/// A prompt of about `target` tokens that asks for a summary.
pub open spec fn summary_prompt(source: Seq<char>, target: u64) -> Seq<char> {
    "Summarize the following repeated license text in one short sentence.\n\n"@ + repeated(
        source + "\n\n"@,
        repeats_for(source, target),
    )
}

/// A prompt of about `target_tokens` tokens that asks for a summary, and an
/// estimate of its tokens.
pub fn repeated_license_prompt(source: &str, target_tokens: u64) -> (r: (String, u64))
    requires
        target_tokens < u64::MAX,
    ensures
        r.0@ == summary_prompt(source@, target_tokens),
        r.1 == token_estimate(r.0@),
{
    let source_tokens = estimate_tokens(source);
    let fit: u64 = target_tokens / source_tokens;
    proof {
        assert(target_tokens as int / source_tokens as int <= target_tokens) by (nonlinear_arith)
            requires
                source_tokens >= 1,
        ;
    }
    let count: u64 = if fit < 1 {
        2
    } else {
        fit + 1
    };
    let mut unit = source.to_string();
    unit.append("\n\n");
    let mut body = String::new();
    for i in 0..count
        invariant
            unit@ == source@ + "\n\n"@,
            body@ == repeated(unit@, i as nat),
    {
        body.append(unit.as_str());
    }
    let mut prompt =
        "Summarize the following repeated license text in one short sentence.\n\n".to_string();
    prompt.append(body.as_str());
    let estimate = estimate_tokens(prompt.as_str());
    (prompt, estimate)
}

/// What a validation asks for.
pub const ANALYSIS_INSTRUCTION: &'static str = "Analyze the following repeated license text. Produce a detailed, structured review of its obligations, permissions, risks, and practical compliance steps. Continue until the analysis is comprehensive.\n\n";

/// A prompt of exactly `n` characters: the instruction, and the source over and
/// over, with a line break after each.
pub open spec fn analysis_prompt(source: Seq<char>, n: nat) -> Seq<char> {
    let unit = source.push('\n');
    let lead = ANALYSIS_INSTRUCTION@;
    Seq::new(
        n,
        |i: int|
            if i < lead.len() {
                lead[i]
            } else {
                unit[(i - lead.len()) % unit.len() as int]
            },
    )
}

/// The number of characters for a number of tokens.
pub open spec fn chars_for(target: u64) -> nat {
    if 4 * target > u64::MAX {
        chars_bound(u64::MAX as nat)
    } else {
        chars_bound(4 * target as nat)
    }
}

/// A number of characters, as far as memory can be addressed.
pub open spec fn chars_bound(n: nat) -> nat {
    if n > usize::MAX {
        usize::MAX as nat
    } else {
        n
    }
}

/// A prompt of `target_tokens` tokens that asks for an analysis, and an
/// estimate of its tokens.
pub fn repeated_realistic_prompt(source: &str, target_tokens: u64) -> (r: (String, u64))
    ensures
        r.0@ == analysis_prompt(source@, chars_for(target_tokens)),
        r.1 == token_estimate(r.0@),
{
    let wide: u64 = match target_tokens.checked_mul(4) {
        Some(n) => n,
        None => u64::MAX,
    };
    let count: usize = if wide > usize::MAX as u64 {
        usize::MAX
    } else {
        wide as usize
    };
    let lead = text::to_chars(ANALYSIS_INSTRUCTION);
    let mut unit = text::to_chars(source);
    unit.push('\n');
    let mut prompt = String::new();
    let mut at: usize = 0;
    let ghost whole = analysis_prompt(source@, count as nat);
    for i in 0..count
        invariant
            whole == analysis_prompt(source@, count as nat),
            lead@ == ANALYSIS_INSTRUCTION@,
            unit@ == source@.push('\n'),
            prompt@ == whole.take(i as int),
            at < unit@.len(),
            i <= lead@.len() ==> at == 0,
            i > lead@.len() ==> at == (i - lead@.len()) % unit@.len() as int,
    {
        proof {
            assert(whole.take(i + 1) =~= whole.take(i as int).push(whole[i as int]));
        }
        if i < lead.len() {
            prompt.push(lead[i]);
        } else {
            proof {
                let n = unit@.len() as int;
                let k = i - lead@.len();
                if k == 0 {
                    vstd::arithmetic::div_mod::lemma_small_mod(0, n as nat);
                }
                next_in_cycle(k, n);
            }
            prompt.push(unit[at]);
            if at == unit.len() - 1 {
                at = 0;
            } else {
                at = at + 1;
            }
        }
    }
    proof {
        assert(whole.take(count as int) =~= whole);
    }
    let estimate = estimate_tokens(prompt.as_str());
    (prompt, estimate)
}

proof fn next_in_cycle(k: int, n: int)
    requires
        k >= 0,
        n > 0,
    ensures
        (k + 1) % n == (if k % n == n - 1 {
            0
        } else {
            k % n + 1
        }),
{
    vstd::arithmetic::div_mod::lemma_add_mod_noop(k, 1, n);
    if n == 1 {
        assert((k + 1) % 1 == 0);
        assert(k % 1 == 0);
    } else {
        vstd::arithmetic::div_mod::lemma_small_mod(1, n as nat);
        let m = k % n;
        assert(0 <= m < n) by (nonlinear_arith)
            requires
                m == k % n,
                n > 0,
        ;
        if m + 1 < n {
            vstd::arithmetic::div_mod::lemma_small_mod((m + 1) as nat, n as nat);
        } else {
            vstd::arithmetic::div_mod::lemma_mod_self_0(n);
        }
    }
}

/// The estimate for the prompt of a validation is what was aimed at.
pub proof fn validation_prompts_have_their_size(source: Seq<char>, target: u64)
    requires
        1 <= target,
        4 * target <= usize::MAX,
    ensures
        token_estimate(analysis_prompt(source, chars_for(target))) == target,
{
}

// ---------------------------------------------------------------------------
// Steps

/// The requests that a run makes.
#[derive(Clone, Copy, Debug, PartialEq, Eq, Structural)]
pub enum PromptPlan {
    Tune { ingest_target_tokens: u64, near_full_ingest_tokens: Option<u64> },
    FullCtx { target_tokens: u64 },
    Realistic { target_tokens: u64, output_tokens: u64, timeout_nanos: u128 },
}

/// A request: its name, its prompt, the most tokens that it asks for, how long
/// it may take, and the size of its prompt where that was aimed at.
#[derive(Debug)]
pub struct ProbeStep {
    pub name: &'static str,
    pub prompt: String,
    pub max_tokens: u64,
    pub timeout_nanos: u128,
    pub prompt_estimate: Option<u64>,
}

/// What a request holds.
#[verifier::ext_equal]
pub struct StepView {
    pub name: Seq<char>,
    pub prompt: Seq<char>,
    pub max_tokens: u64,
    pub timeout_nanos: u128,
    pub prompt_estimate: Option<u64>,
}

impl View for ProbeStep {
    type V = StepView;

    open spec fn view(&self) -> StepView {
        StepView {
            name: self.name@,
            prompt: self.prompt@,
            max_tokens: self.max_tokens,
            timeout_nanos: self.timeout_nanos,
            prompt_estimate: self.prompt_estimate,
        }
    }
}

/// A request with a fixed prompt.
pub open spec fn plain_step(name: Seq<char>, prompt: Seq<char>, max_tokens: u64) -> StepView {
    StepView {
        name,
        prompt,
        max_tokens,
        timeout_nanos: REQUEST_TIMEOUT_NANOS,
        prompt_estimate: None,
    }
}

/// A request with a prompt of some size, for one token.
pub open spec fn sized_step(name: Seq<char>, source: Seq<char>, target: u64) -> StepView {
    let prompt = summary_prompt(source, target);
    StepView {
        name,
        prompt,
        max_tokens: 1,
        timeout_nanos: REQUEST_TIMEOUT_NANOS,
        prompt_estimate: Some(token_estimate(prompt) as u64),
    }
}

/// The first request: can the server answer at all?
pub open spec fn sanity_step() -> StepView {
    plain_step("sanity"@, "Reply with exactly the single character: K"@, 1)
}

/// The requests of a run, in order.
pub open spec fn steps_of(plan: PromptPlan, source: Seq<char>) -> Seq<StepView> {
    match plan {
        PromptPlan::Tune { ingest_target_tokens, near_full_ingest_tokens } => seq![
            sanity_step(),
            plain_step(
                "output"@,
                "Write a concise checklist for safely profiling a local llama.cpp model."@,
                128,
            ),
            sized_step("ingest"@, source, ingest_target_tokens),
        ] + (match near_full_ingest_tokens {
            Some(target) => seq![sized_step("near_full_ingest"@, source, target)],
            None => seq![],
        }),
        PromptPlan::FullCtx { target_tokens } => seq![
            sanity_step(),
            sized_step("fullctx"@, source, target_tokens),
        ],
        PromptPlan::Realistic { target_tokens, output_tokens, timeout_nanos } => {
            let prompt = analysis_prompt(source, chars_for(target_tokens));
            seq![
                StepView {
                    name: "realistic"@,
                    prompt,
                    max_tokens: output_tokens,
                    timeout_nanos,
                    prompt_estimate: Some(token_estimate(prompt) as u64),
                },
            ]
        },
    }
}

/// No prompt of the plan is asked to be as large as can be counted.
pub open spec fn countable(plan: PromptPlan) -> bool {
    match plan {
        PromptPlan::Tune { ingest_target_tokens, near_full_ingest_tokens } => ingest_target_tokens
            < u64::MAX && (near_full_ingest_tokens matches Some(n) ==> n < u64::MAX),
        PromptPlan::FullCtx { target_tokens } => target_tokens < u64::MAX,
        PromptPlan::Realistic { .. } => true,
    }
}

/// Whether the sizes of the prompts can be counted.
pub fn is_countable(plan: &PromptPlan) -> (r: bool)
    ensures
        r == countable(*plan),
{
    match plan {
        PromptPlan::Tune { ingest_target_tokens, near_full_ingest_tokens } => {
            *ingest_target_tokens < u64::MAX && match near_full_ingest_tokens {
                Some(n) => *n < u64::MAX,
                None => true,
            }
        },
        PromptPlan::FullCtx { target_tokens } => *target_tokens < u64::MAX,
        PromptPlan::Realistic { .. } => true,
    }
}

fn plain_probe(name: &'static str, prompt: &str, max_tokens: u64) -> (r: ProbeStep)
    ensures
        r@ == plain_step(name@, prompt@, max_tokens),
{
    ProbeStep {
        name,
        prompt: prompt.to_string(),
        max_tokens,
        timeout_nanos: REQUEST_TIMEOUT_NANOS,
        prompt_estimate: None,
    }
}

fn sized_probe(name: &'static str, source: &str, target: u64) -> (r: ProbeStep)
    requires
        target < u64::MAX,
    ensures
        r@ == sized_step(name@, source@, target),
{
    let (prompt, estimate) = repeated_license_prompt(source, target);
    ProbeStep {
        name,
        prompt,
        max_tokens: 1,
        timeout_nanos: REQUEST_TIMEOUT_NANOS,
        prompt_estimate: Some(estimate),
    }
}

/// The requests of a run, in order. `source` is the text that prompts repeat.
pub fn probe_steps(plan: &PromptPlan, source: &str) -> (r: Vec<ProbeStep>)
    requires
        countable(*plan),
    ensures
        views(r@) == steps_of(*plan, source@),
{
    let mut r: Vec<ProbeStep> = Vec::new();
    match plan {
        PromptPlan::Realistic { target_tokens, output_tokens, timeout_nanos } => {
            let (prompt, estimate) = repeated_realistic_prompt(source, *target_tokens);
            r.push(
                ProbeStep {
                    name: "realistic",
                    prompt,
                    max_tokens: *output_tokens,
                    timeout_nanos: *timeout_nanos,
                    prompt_estimate: Some(estimate),
                },
            );
        },
        PromptPlan::Tune { ingest_target_tokens, near_full_ingest_tokens } => {
            r.push(plain_probe("sanity", "Reply with exactly the single character: K", 1));
            r.push(
                plain_probe(
                    "output",
                    "Write a concise checklist for safely profiling a local llama.cpp model.",
                    128,
                ),
            );
            r.push(sized_probe("ingest", source, *ingest_target_tokens));
            if let Some(target) = near_full_ingest_tokens {
                r.push(sized_probe("near_full_ingest", source, *target));
            }
        },
        PromptPlan::FullCtx { target_tokens } => {
            r.push(plain_probe("sanity", "Reply with exactly the single character: K", 1));
            r.push(sized_probe("fullctx", source, *target_tokens));
        },
    }
    proof {
        assert(views(r@) =~= steps_of(*plan, source@));
    }
    r
}

/// What came of the requests of a run so far.
pub struct ProbeOutput {
    pub probes: Vec<NamedProbe>,
    pub error: Option<String>,
}

/// What a request came to, by name; the size of its prompt is the one that was
/// aimed at, where there is one.
pub open spec fn recorded(step: StepView, summary: ProbeView) -> NamedProbeView {
    NamedProbeView {
        name: step.name,
        summary: ProbeView {
            prompt_tokens: match step.prompt_estimate {
                Some(n) => Some(n),
                None => summary.prompt_tokens,
            },
            ..summary
        },
    }
}

/// What is said of a request that failed.
pub open spec fn failure_text(name: Seq<char>, error: Seq<char>) -> Seq<char> {
    name + " probe: "@ + error
}

impl ProbeOutput {
    /// Nothing came yet.
    pub fn new() -> (r: ProbeOutput)
        ensures
            r.probes@.len() == 0,
            r.error is None,
    {
        ProbeOutput { probes: Vec::new(), error: None }
    }

    /// Takes what a request came to.
    pub fn record(&mut self, step: &ProbeStep, summary: ProbeSummary)
        ensures
            views(final(self).probes@) == views(old(self).probes@).push(
                recorded(step@, summary@),
            ),
            final(self).error == old(self).error,
    {
        let ghost before = views(self.probes@);
        let ghost given = summary@;
        let mut kept = summary;
        if let Some(n) = step.prompt_estimate {
            kept.prompt_tokens = Some(n);
        }
        let probe = NamedProbe { name: step.name.to_string(), summary: kept };
        self.probes.push(probe);
        proof {
            assert(probe@ =~= recorded(step@, given));
            assert(views(self.probes@) =~= before.push(probe@));
        }
    }

    /// Takes the failure of a request, or of the server's start.
    pub fn fail(&mut self, name: &str, error: &str)
        ensures
            final(self).probes@ == old(self).probes@,
            final(self).error matches Some(s) && s@ == failure_text(name@, error@),
    {
        let mut message = name.to_string();
        message.append(" probe: ");
        message.append(error);
        self.error = Some(message);
    }
}

/// The requests of a run, made one after the other until one fails.
pub struct ProbeSession {
    pub steps: Vec<ProbeStep>,
    pub next: usize,
    pub output: ProbeOutput,
}

impl ProbeSession {
    /// The answered requests are the first ones, each kept by its name.
    pub open spec fn wf(self) -> bool {
        &&& self.next <= self.steps@.len()
        &&& self.output.probes@.len() == self.next
        &&& forall|i: int|
            0 <= i < self.next ==> (#[trigger] views(self.output.probes@)[i]).name
                == self.steps@[i]@.name
    }

    /// The session is over: a request failed, or all were made.
    pub open spec fn over(self) -> bool {
        self.output.error is Some || self.next == self.steps@.len()
    }

    /// A session that makes these requests.
    pub fn new(steps: Vec<ProbeStep>) -> (r: ProbeSession)
        ensures
            r.wf(),
            r.steps@ == steps@,
            r.next == 0,
            r.output.probes@.len() == 0,
            r.output.error is None,
    {
        ProbeSession { steps, next: 0, output: ProbeOutput::new() }
    }

    /// The request to make next, if any.
    pub fn current(&self) -> (r: Option<&ProbeStep>)
        requires
            self.wf(),
        ensures
            match r {
                Some(step) => !self.over() && step@ == self.steps@[self.next as int]@,
                None => self.over(),
            },
    {
        if self.output.error.is_some() || self.next == self.steps.len() {
            None
        } else {
            Some(&self.steps[self.next])
        }
    }

    /// Takes the answer to the request.
    pub fn answer(&mut self, summary: ProbeSummary)
        requires
            old(self).wf(),
            !old(self).over(),
        ensures
            final(self).wf(),
            final(self).steps@ == old(self).steps@,
            final(self).next == old(self).next + 1,
            final(self).output.error is None,
            views(final(self).output.probes@) == views(old(self).output.probes@).push(
                recorded(old(self).steps@[old(self).next as int]@, summary@),
            ),
    {
        proof {
            assert(self.next < self.steps.len());
        }
        let ghost before = views(self.output.probes@);
        let after: usize = self.next + 1;
        self.output.record(&self.steps[self.next], summary);
        self.next = after;
        proof {
            let kept = views(self.output.probes@);
            assert(kept.len() == self.output.probes@.len());
            assert forall|i: int| 0 <= i < self.next implies (#[trigger] kept[i]).name
                == self.steps@[i]@.name by {
                if i < before.len() {
                    assert(kept[i] == before[i]);
                }
            }
        }
    }

    /// Takes the failure of the request.
    pub fn refuse(&mut self, error: &str)
        requires
            old(self).wf(),
            !old(self).over(),
        ensures
            final(self).wf(),
            final(self).over(),
            final(self).steps@ == old(self).steps@,
            final(self).next == old(self).next,
            final(self).output.probes@ == old(self).output.probes@,
            final(self).output.error matches Some(s) && s@ == failure_text(
                old(self).steps@[old(self).next as int].name@,
                error@,
            ),
    {
        let name = self.steps[self.next].name;
        self.output.fail(name, error);
    }
}

/// No two requests of a run have the same name.
pub proof fn probe_names_are_distinct(plan: PromptPlan, source: Seq<char>, i: int, j: int)
    requires
        0 <= i < j < steps_of(plan, source).len(),
    ensures
        steps_of(plan, source)[i].name != steps_of(plan, source)[j].name,
{
    reveal_strlit("sanity");
    reveal_strlit("output");
    reveal_strlit("ingest");
    reveal_strlit("near_full_ingest");
    reveal_strlit("fullctx");
    assert("sanity"@[0] != "output"@[0]);
    assert("sanity"@[0] != "ingest"@[0]);
    assert("output"@[0] != "ingest"@[0]);
    assert("near_full_ingest"@.len() == 16);
    assert("fullctx"@.len() != "sanity"@.len());
}

/// What a session collects holds no name twice, where it makes the requests of
/// a run.
pub proof fn answers_have_distinct_names(
    session: ProbeSession,
    plan: PromptPlan,
    source: Seq<char>,
    i: int,
    j: int,
)
    requires
        session.wf(),
        views(session.steps@) == steps_of(plan, source),
        0 <= i < j < session.output.probes@.len(),
    ensures
        views(session.output.probes@)[i].name != views(session.output.probes@)[j].name,
{
    assert(views(session.steps@)[i] == session.steps@[i]@);
    assert(views(session.steps@)[j] == session.steps@[j]@);
    probe_names_are_distinct(plan, source, i, j);
}

// ---------------------------------------------------------------------------
// Failures

/// What the failure of a request means.
pub open spec fn outcome_of_error(note: Seq<char>) -> Outcome {
    let lower = text::lowered(note);
    if text::occurs(lower, "interrupted"@) {
        Outcome::Interrupted
    } else if text::occurs(lower, "timed out"@) || text::occurs(lower, "timeout"@) {
        Outcome::Timeout
    } else if text::occurs(lower, "out of memory"@) || text::occurs(lower, "oom"@) {
        Outcome::Oom
    } else {
        Outcome::ServerCrash
    }
}

/// What the failure of a request means.
pub fn classify_probe_error(note: &str) -> (r: Outcome)
    ensures
        r == outcome_of_error(note@),
{
    let lower = text::lowercase(note);
    let s = lower.as_str();
    if text::contains(s, "interrupted") {
        Outcome::Interrupted
    } else if text::contains(s, "timed out") || text::contains(s, "timeout") {
        Outcome::Timeout
    } else if text::contains(s, "out of memory") || text::contains(s, "oom") {
        Outcome::Oom
    } else {
        Outcome::ServerCrash
    }
}

/// A request that failed never counts as passed: the failure is an interruption,
/// a timeout or a want of memory where its text, whatever the case of its
/// letters, says so, in this order, and a crash of the server where it says none
/// of these.
pub proof fn failures_are_failures(note: Seq<char>)
    ensures
        outcome_of_error(note) != Outcome::Pass,
        outcome_of_error(note) != Outcome::ParsePartial,
        text::occurs(text::lowered(note), "interrupted"@) ==> outcome_of_error(note)
            == Outcome::Interrupted,
        !text::occurs(text::lowered(note), "interrupted"@) && (text::occurs(
            text::lowered(note),
            "timed out"@,
        ) || text::occurs(text::lowered(note), "timeout"@)) ==> outcome_of_error(note)
            == Outcome::Timeout,
        !text::occurs(text::lowered(note), "interrupted"@) && !text::occurs(
            text::lowered(note),
            "timed out"@,
        ) && !text::occurs(text::lowered(note), "timeout"@) && (text::occurs(
            text::lowered(note),
            "out of memory"@,
        ) || text::occurs(text::lowered(note), "oom"@)) ==> outcome_of_error(note) == Outcome::Oom,
        !text::occurs(text::lowered(note), "interrupted"@) && !text::occurs(
            text::lowered(note),
            "timed out"@,
        ) && !text::occurs(text::lowered(note), "timeout"@) && !text::occurs(
            text::lowered(note),
            "out of memory"@,
        ) && !text::occurs(text::lowered(note), "oom"@) ==> outcome_of_error(note)
            == Outcome::ServerCrash,
{
}

/// Requests that were cut short never count as passed either: they were
/// interrupted or timed out where the text says so, and otherwise the server
/// crashed.
pub proof fn aborts_are_failures(note: Seq<char>)
    ensures
        outcome_of_abort(note) != Outcome::Pass,
        outcome_of_abort(note) != Outcome::ParsePartial,
        text::occurs(note, "interrupted"@) ==> outcome_of_abort(note) == Outcome::Interrupted,
        !text::occurs(note, "interrupted"@) && text::occurs(note, "timed out"@)
            ==> outcome_of_abort(note) == Outcome::Timeout,
        !text::occurs(note, "interrupted"@) && !text::occurs(note, "timed out"@)
            ==> outcome_of_abort(note) == Outcome::ServerCrash,
{
}

/// A log speaks of memory that could not be had where it holds, in any case, one
/// of the words for it, wherever it stands.
pub proof fn logs_tell_of_memory(before: Seq<char>, after: Seq<char>)
    ensures
        oom_logged(before + "out of memory"@ + after),
        oom_logged(before + "cuda error"@ + after),
        oom_logged(before + "cudamalloc"@ + after),
        oom_logged(before + "failed to allocate"@ + after),
        oom_logged(before + "oom"@ + after),
        oom_logged(text::lowered(before)) == oom_logged(before),
        oom_logged(before) ==> oom_logged(before + after),
        before.len() < 3 ==> !oom_logged(before),
{
    reveal_strlit("out of memory");
    reveal_strlit("cuda error");
    reveal_strlit("cudamalloc");
    reveal_strlit("failed to allocate");
    reveal_strlit("oom");
    text::lowered_part(before, "out of memory"@, after);
    text::lowered_part(before, "cuda error"@, after);
    text::lowered_part(before, "cudamalloc"@, after);
    text::lowered_part(before, "failed to allocate"@, after);
    text::lowered_part(before, "oom"@, after);
    assert(text::lowered(text::lowered(before)) =~= text::lowered(before));
    assert(text::lowered(before + after) =~= text::lowered(before) + text::lowered(after));
    text::part_stays(text::lowered(before), text::lowered(after), "out of memory"@);
    text::part_stays(text::lowered(before), text::lowered(after), "cuda error"@);
    text::part_stays(text::lowered(before), text::lowered(after), "cudamalloc"@);
    text::part_stays(text::lowered(before), text::lowered(after), "failed to allocate"@);
    text::part_stays(text::lowered(before), text::lowered(after), "oom"@);
}

/// What it means that the requests could not be made at all.
pub open spec fn outcome_of_abort(note: Seq<char>) -> Outcome {
    if text::occurs(note, "interrupted"@) {
        Outcome::Interrupted
    } else if text::occurs(note, "timed out"@) {
        Outcome::Timeout
    } else {
        Outcome::ServerCrash
    }
}

/// What it means that the requests could not be made at all.
pub fn classify_abort(note: &str) -> (r: Outcome)
    ensures
        r == outcome_of_abort(note@),
{
    if text::contains(note, "interrupted") {
        Outcome::Interrupted
    } else if text::contains(note, "timed out") {
        Outcome::Timeout
    } else {
        Outcome::ServerCrash
    }
}

/// The log speaks of memory that could not be had.
pub open spec fn oom_logged(log: Seq<char>) -> bool {
    let lower = text::lowered(log);
    ||| text::occurs(lower, "out of memory"@)
    ||| text::occurs(lower, "cuda error"@)
    ||| text::occurs(lower, "cudamalloc"@)
    ||| text::occurs(lower, "failed to allocate"@)
    ||| text::occurs(lower, "oom"@)
}

/// Whether the log speaks of memory that could not be had.
pub fn log_indicates_oom(log_text: &str) -> (r: bool)
    ensures
        r == oom_logged(log_text@),
{
    let lower = text::lowercase(log_text);
    let s = lower.as_str();
    text::contains(s, "out of memory") || text::contains(s, "cuda error") || text::contains(
        s,
        "cudamalloc",
    ) || text::contains(s, "failed to allocate") || text::contains(s, "oom")
}

/// What is known of a server that is starting.
#[derive(Clone, Copy, Debug, PartialEq, Eq, Structural)]
pub enum StartupEvent {
    /// The process ended.
    Exited,
    /// The server answers.
    Healthy,
    /// The server does not answer yet.
    Silent,
}

/// What to do about a server that is starting.
#[derive(Clone, Copy, Debug, PartialEq, Eq, Structural)]
pub enum StartupAction {
    /// Send the requests.
    Proceed,
    /// Give up: the process ended.
    ReportExit,
    /// Give up: it took too long.
    ReportTimeout,
    /// Ask again after half a second.
    AskAgain,
}

/// How long a server may take to start, in milliseconds.
pub const STARTUP_TIMEOUT_MS: u64 = 180_000;

/// What to do about a server that is starting, after `elapsed_ms`. A process
/// that ended is told at once; the time runs out only between two questions.
pub fn startup_action(event: StartupEvent, elapsed_ms: u64) -> (r: StartupAction)
    ensures
        r == (match event {
            StartupEvent::Exited => StartupAction::ReportExit,
            StartupEvent::Healthy => StartupAction::Proceed,
            StartupEvent::Silent => if elapsed_ms < STARTUP_TIMEOUT_MS {
                StartupAction::AskAgain
            } else {
                StartupAction::ReportTimeout
            },
        }),
{
    match event {
        StartupEvent::Exited => StartupAction::ReportExit,
        StartupEvent::Healthy => StartupAction::Proceed,
        StartupEvent::Silent => if elapsed_ms < STARTUP_TIMEOUT_MS {
            StartupAction::AskAgain
        } else {
            StartupAction::ReportTimeout
        },
    }
}

// ---------------------------------------------------------------------------
// Timings

/// The pattern of the server's timing of prompts.
pub const PROMPT_TIMING_PATTERN: &'static str = "prompt eval time\\s*=\\s*([0-9.]+)\\s*ms\\s*/\\s*([0-9]+)\\s*tokens?.*?([0-9.]+)\\s*tokens per second";

/// The pattern of the server's timing of generation.
pub const EVAL_TIMING_PATTERN: &'static str = "(?m)(?:^|:|\\|)\\s*eval time\\s*=\\s*([0-9.]+)\\s*ms\\s*/\\s*([0-9]+)\\s*(?:runs?|tokens?).*?([0-9.]+)\\s*tokens per second";

/// A timing as the server wrote it: the numbers that are no whole numbers stay
/// text.
#[derive(Debug)]
pub struct TimingText {
    pub millis: String,
    pub tokens: u64,
    pub toks_per_s: String,
}

/// What a timing holds, as it was written.
#[verifier::ext_equal]
pub struct TimingTextView {
    pub millis: Seq<char>,
    pub tokens: u64,
    pub toks_per_s: Seq<char>,
}

impl View for TimingText {
    type V = TimingTextView;

    open spec fn view(&self) -> TimingTextView {
        TimingTextView {
            millis: self.millis@,
            tokens: self.tokens,
            toks_per_s: self.toks_per_s@,
        }
    }
}

/// The timing that a match tells.
pub open spec fn timing_of(found: Seq<Option<Seq<char>>>) -> Option<TimingTextView> {
    match (
        matching::group(Some(found), 1),
        group_number(found, 2),
        matching::group(Some(found), 3),
    ) {
        (Some(millis), Some(tokens), Some(toks_per_s)) => Some(
            TimingTextView { millis, tokens: tokens as u64, toks_per_s },
        ),
        _ => None,
    }
}

/// The timings that several matches tell.
pub open spec fn timings_of(found: Seq<Seq<Option<Seq<char>>>>) -> Seq<TimingTextView>
    decreases found.len(),
{
    if found.len() == 0 {
        seq![]
    } else {
        let before = timings_of(found.drop_last());
        match timing_of(found.last()) {
            Some(t) => before.push(t),
            None => before,
        }
    }
}

/// The timings that several matches tell.
pub fn timings_from_matches(found: &Vec<Vec<Option<String>>>) -> (r: Vec<TimingText>)
    ensures
        views(r@) == timings_of(matching::all_groups(found@)),
{
    let ghost all = matching::all_groups(found@);
    let mut r: Vec<TimingText> = Vec::new();
    proof {
        assert(views(r@) =~= timings_of(all.take(0)));
    }
    for i in 0..found.len()
        invariant
            all == matching::all_groups(found@),
            views(r@) == timings_of(all.take(i as int)),
    {
        let groups = &found[i];
        let ghost before = views(r@);
        let ghost here = matching::groups(groups@);
        proof {
            assert(all.take(i + 1).drop_last() =~= all.take(i as int));
            assert(all.take(i + 1).last() == here);
        }
        if groups.len() > 3 {
            if let (Some(millis), Some(digits), Some(speed)) = (&groups[1], &groups[2], &groups[3]) {
                if let Some(tokens) = text::parse_number(digits.as_str(), u64::MAX) {
                    let t = TimingText {
                        millis: millis.clone(),
                        tokens,
                        toks_per_s: speed.clone(),
                    };
                    r.push(t);
                    proof {
                        assert(here[1] == Some(millis@) && here[2] == Some(digits@) && here[3]
                            == Some(speed@));
                        assert(timing_of(here) == Some(t@));
                        assert(views(r@) =~= before.push(t@));
                    }
                }
            }
        }
    }
    proof {
        assert(all.take(all.len() as int) =~= all);
    }
    r
}

/// The timings in a log: of prompts, and of generation.
pub fn parse_llama_timings(log_text: &str) -> (r: (Vec<TimingText>, Vec<TimingText>))
    ensures
        views(r.0@) == timings_of(
            matching::regex_captures_iter(PROMPT_TIMING_PATTERN@, log_text@),
        ),
        views(r.1@) == timings_of(matching::regex_captures_iter(EVAL_TIMING_PATTERN@, log_text@)),
{
    (
        timings_from_matches(&matching::captures_iter(PROMPT_TIMING_PATTERN, log_text)),
        timings_from_matches(&matching::captures_iter(EVAL_TIMING_PATTERN, log_text)),
    )
}

/// A timing of the server.
#[derive(Clone, Copy, Debug, PartialEq)]
pub struct Timing {
    pub millis: Real,
    pub tokens: u64,
    pub toks_per_s: Real,
}

/// The timings of a run.
#[derive(Debug)]
pub struct TimingSummary {
    pub prompt_evals: Vec<Timing>,
    pub evals: Vec<Timing>,
}

/// The last of the timings over the most tokens.
pub open spec fn widest(t: Seq<Timing>) -> Option<Timing>
    decreases t.len(),
{
    if t.len() == 0 {
        None
    } else {
        match widest(t.drop_last()) {
            Some(held) => if held.tokens > t.last().tokens {
                Some(held)
            } else {
                Some(t.last())
            },
            None => Some(t.last()),
        }
    }
}

fn find_widest(t: &Vec<Timing>) -> (r: Option<Timing>)
    ensures
        r == widest(t@),
{
    let mut best: Option<Timing> = None;
    proof {
        assert(t@.take(0) =~= seq![]);
    }
    for i in 0..t.len()
        invariant
            best == widest(t@.take(i as int)),
    {
        proof {
            assert(t@.take(i + 1).drop_last() =~= t@.take(i as int));
        }
        best = match best {
            Some(held) => if held.tokens > t[i].tokens {
                Some(held)
            } else {
                Some(t[i])
            },
            None => Some(t[i]),
        };
    }
    proof {
        assert(t@.take(t@.len() as int) =~= t@);
    }
    best
}

/// The timing over the most tokens is one of the timings, and none is over
/// more tokens.
pub proof fn widest_is_widest(t: Seq<Timing>, i: int)
    requires
        0 <= i < t.len(),
    ensures
        widest(t) matches Some(w) && t.contains(w) && t[i].tokens <= w.tokens,
    decreases t.len(),
{
    let shorter = t.drop_last();
    assert(t[t.len() - 1] == t.last());
    if shorter.len() > 0 {
        widest_is_widest(shorter, if i < shorter.len() {
            i
        } else {
            0
        });
        let w = widest(shorter)->0;
        let k = choose|k: int| 0 <= k < shorter.len() && shorter[k] == w;
        assert(t[k] == w);
    }
}

impl TimingSummary {
    /// The throughput of the longest prompt.
    pub fn best_prompt_toks_per_s(&self) -> (r: Option<Real>)
        ensures
            r == (match widest(self.prompt_evals@) {
                Some(t) => Some(t.toks_per_s),
                None => None,
            }),
    {
        match find_widest(&self.prompt_evals) {
            Some(t) => Some(t.toks_per_s),
            None => None,
        }
    }

    /// The throughput of the longest generation.
    pub fn best_generation_toks_per_s(&self) -> (r: Option<Real>)
        ensures
            r == (match widest(self.evals@) {
                Some(t) => Some(t.toks_per_s),
                None => None,
            }),
    {
        match find_widest(&self.evals) {
            Some(t) => Some(t.toks_per_s),
            None => None,
        }
    }

    /// The tokens of the longest prompt.
    pub fn max_prompt_tokens(&self) -> (r: Option<u64>)
        ensures
            r == (match widest(self.prompt_evals@) {
                Some(t) => Some(t.tokens),
                None => None,
            }),
    {
        match find_widest(&self.prompt_evals) {
            Some(t) => Some(t.tokens),
            None => None,
        }
    }

    /// The tokens of the longest generation.
    pub fn max_generation_tokens(&self) -> (r: Option<u64>)
        ensures
            r == (match widest(self.evals@) {
                Some(t) => Some(t.tokens),
                None => None,
            }),
    {
        match find_widest(&self.evals) {
            Some(t) => Some(t.tokens),
            None => None,
        }
    }
}

} // verus!
