//! Recommendations: which runs count, how repeated measurements combine, and
//! which configuration is the best observed one for each role.
use crate::environment::{
    compare_environment, compared, reason_text, Compatibility, EnvironmentSnapshot, EnvironmentView,
};
use crate::gguf::{same_identity, IdentityView, ModelIdentity};
use crate::measure::{best_index, last_best, Real};
use crate::profile::{
    outcome_name, usable, CandidateView, Outcome, ProfileResult, Recommendation, RecommendationFile,
    RecommendationView, RecommendationsView, RejectedRun, RejectedView, ResultView, RunMetrics,
    SafetyLimits, StaleRun, StaleView, ValidationLevel, SCHEMA_VERSION,
};
use crate::record::{duplicate_opt, opt_view, views, Duplicate};
use crate::text;
use crate::time::Timestamp;
use vstd::prelude::*;

verus! {

// ---------------------------------------------------------------------------
// Which runs count

/// `n` as a signed number of 64 bits.
pub open spec fn as_signed(n: u64) -> int {
    if n <= i64::MAX {
        n as int
    } else {
        n - 0x1_0000_0000_0000_0000
    }
}

fn to_signed(n: u64) -> (r: i64)
    ensures
        r == as_signed(n),
{
    if n <= i64::MAX as u64 {
        n as i64
    } else {
        (n as i128 - 0x1_0000_0000_0000_0000) as i64
    }
}

/// Less video memory was free than the limits ask for.
pub open spec fn vram_short(m: RunMetrics, safety: SafetyLimits) -> bool {
    m.min_free_vram_mib matches Some(free) && free < safety.min_vram_free_mib
}

/// Swap grew by more than the limits allow.
pub open spec fn swap_heavy(m: RunMetrics, safety: SafetyLimits) -> bool {
    m.swap_delta_mib matches Some(delta) && delta > as_signed(safety.max_swap_delta_mib)
}

/// What was measured exceeds the limits.
pub open spec fn violates(m: RunMetrics, safety: SafetyLimits) -> bool {
    vram_short(m, safety) || swap_heavy(m, safety)
}

fn is_vram_short(m: &RunMetrics, safety: &SafetyLimits) -> (r: bool)
    ensures
        r == vram_short(*m, *safety),
{
    match m.min_free_vram_mib {
        Some(free) => free < safety.min_vram_free_mib,
        None => false,
    }
}

fn is_swap_heavy(m: &RunMetrics, safety: &SafetyLimits) -> (r: bool)
    ensures
        r == swap_heavy(*m, *safety),
{
    match m.swap_delta_mib {
        Some(delta) => delta > to_signed(safety.max_swap_delta_mib),
        None => false,
    }
}

/// Whether what was measured exceeds the limits.
pub fn violates_safety(metrics: &RunMetrics, safety: &SafetyLimits) -> (r: bool)
    ensures
        r == violates(*metrics, *safety),
{
    is_vram_short(metrics, safety) || is_swap_heavy(metrics, safety)
}

/// What runs are held to: the model, the limits, and the machine.
pub struct Terms {
    pub identity: Option<IdentityView>,
    pub safety: SafetyLimits,
    pub environment: Option<EnvironmentView>,
}

/// Whether a run still holds for the machine: what it says of itself, where
/// the current machine is not known.
pub open spec fn compatibility_of(r: ResultView, t: Terms) -> Compatibility {
    match t.environment {
        Some(e) => compared(r.environment, e),
        None => r.compatibility,
    }
}

/// The run is one of the model.
pub open spec fn of_model(r: ResultView, t: Terms) -> bool {
    match t.identity {
        None => true,
        Some(id) => r.model_identity matches Some(own) && same_identity(own, id),
    }
}

/// The run keeps to the limits.
pub open spec fn safe(r: ResultView, t: Terms) -> bool {
    r.outcome != Outcome::TooTight && !violates(r.metrics, t.safety)
}

/// The run can be the source of a recommendation.
pub open spec fn eligible(r: ResultView, t: Terms) -> bool {
    &&& usable(r.outcome)
    &&& safe(r, t)
    &&& compatibility_of(r, t) == Compatibility::Current
    &&& of_model(r, t)
    &&& r.test_kind != "thread-refinement-observation"@
}

/// The run was rejected.
pub open spec fn rejected(r: ResultView, t: Terms) -> bool {
    &&& compatibility_of(r, t) == Compatibility::Current
    &&& of_model(r, t)
    &&& !usable(r.outcome) || !safe(r, t)
}

/// The run does not hold any more.
pub open spec fn stale(r: ResultView, t: Terms) -> bool {
    compatibility_of(r, t) != Compatibility::Current || !of_model(r, t)
}

/// Why the run does not hold any more; the model counts before the machine.
pub open spec fn staleness(r: ResultView, t: Terms) -> Compatibility {
    if !of_model(r, t) {
        if r.model_identity is None {
            Compatibility::LegacyMissingIdentity
        } else {
            Compatibility::ModelChanged
        }
    } else {
        compatibility_of(r, t)
    }
}

/// What runs are held to, as it is given.
pub open spec fn terms(
    identity: Option<&ModelIdentity>,
    safety: SafetyLimits,
    environment: Option<&EnvironmentSnapshot>,
) -> Terms {
    Terms {
        identity: match identity {
            Some(id) => Some(id@),
            None => None,
        },
        safety,
        environment: match environment {
            Some(e) => Some(e@),
            None => None,
        },
    }
}

fn run_compatibility(
    result: &ProfileResult,
    current_environment: Option<&EnvironmentSnapshot>,
) -> (r: Compatibility)
    ensures
        forall|t: Terms|
            t.environment == (match current_environment {
                Some(e) => Some(e@),
                None => None,
            }) ==> r == #[trigger] compatibility_of(result@, t),
{
    match current_environment {
        Some(current) => match &result.environment {
            Some(own) => compare_environment(Some(own), current),
            None => compare_environment(None, current),
        },
        None => result.compatibility,
    }
}

fn is_of_model(result: &ProfileResult, identity: Option<&ModelIdentity>) -> (r: bool)
    ensures
        forall|t: Terms|
            t.identity == (match identity {
                Some(id) => Some(id@),
                None => None,
            }) ==> r == #[trigger] of_model(result@, t),
{
    match identity {
        None => true,
        Some(id) => match &result.model_identity {
            Some(own) => own.is_same(id),
            None => false,
        },
    }
}

/// Whether the run keeps to the limits.
pub fn passes_safety(result: &ProfileResult, safety: &SafetyLimits) -> (r: bool)
    ensures
        r == (result.outcome != Outcome::TooTight && !violates(result.metrics, *safety)),
{
    match result.outcome {
        Outcome::TooTight => false,
        _ => !violates_safety(&result.metrics, safety),
    }
}

fn is_eligible(
    result: &ProfileResult,
    identity: Option<&ModelIdentity>,
    safety: &SafetyLimits,
    environment: Option<&EnvironmentSnapshot>,
) -> (r: bool)
    ensures
        r == eligible(result@, terms(identity, *safety, environment)),
{
    let ghost t = terms(identity, *safety, environment);
    let current = run_compatibility(result, environment).is_current();
    let own = is_of_model(result, identity);
    proof {
        assert(compatibility_of(result@, t) == Compatibility::Current <==> current);
        assert(of_model(result@, t) == own);
    }
    result.outcome.is_usable() && passes_safety(result, safety) && current && own
        && !text::same_text(result.test_kind.as_str(), "thread-refinement-observation")
}

// ---------------------------------------------------------------------------
// Repeated measurements

/// The run is a final-stage validation.
pub open spec fn realistic(r: ResultView) -> bool {
    r.test_kind == "realistic-validation"@
}

/// The run is one of the search.
pub open spec fn searching(r: ResultView) -> bool {
    r.test_kind == "tune"@
}

/// The run repeats one of the search, to confirm it.
pub open spec fn confirming(r: ResultView) -> bool {
    r.test_kind == "confirmation"@
}

/// Some final-stage validation passed.
pub open spec fn validated(runs: Seq<ResultView>, t: Terms) -> bool {
    exists|i: int| 0 <= i < runs.len() && eligible(#[trigger] runs[i], t) && realistic(runs[i])
}

/// The run is a source of recommendations: once a final-stage validation
/// passed, only such runs are.
pub open spec fn chosen(runs: Seq<ResultView>, t: Terms, i: int) -> bool {
    eligible(runs[i], t) && (validated(runs, t) ==> realistic(runs[i]))
}

/// The last of the first `n` runs that is a possible source from the search,
/// with this candidate.
pub open spec fn last_search(runs: Seq<ResultView>, t: Terms, c: CandidateView, n: nat) -> Option<
    int,
>
    decreases n,
{
    if n == 0 {
        None
    } else if eligible(runs[n - 1], t) && searching(runs[n - 1]) && runs[n - 1].candidate == c {
        Some(n - 1)
    } else {
        last_search(runs, t, c, (n - 1) as nat)
    }
}

/// The first of the first `n` runs that is a possible source and confirms this
/// candidate.
pub open spec fn first_confirmation(
    runs: Seq<ResultView>,
    t: Terms,
    c: CandidateView,
    n: nat,
) -> Option<int>
    decreases n,
{
    if n == 0 {
        None
    } else {
        match first_confirmation(runs, t, c, (n - 1) as nat) {
            Some(i) => Some(i),
            None => if eligible(runs[n - 1], t) && confirming(runs[n - 1])
                && runs[n - 1].candidate == c {
                Some(n - 1)
            } else {
                None
            },
        }
    }
}

/// The first run of the measurement that run `i` is part of. A confirming run
/// is part of the measurement of the run that it repeats: the last one of the
/// search before it with the same candidate. Where that one is no possible
/// source, the runs that confirm it are one measurement. Every other run is a
/// measurement of its own.
pub open spec fn lead_of(runs: Seq<ResultView>, t: Terms, i: int) -> int {
    if !confirming(runs[i]) {
        i
    } else {
        match last_search(runs, t, runs[i].candidate, i as nat) {
            Some(j) => j,
            None => match first_confirmation(runs, t, runs[i].candidate, i as nat) {
                Some(j) => j,
                None => i,
            },
        }
    }
}

/// The source `i` is part of the measurement whose first run is `leader`.
pub open spec fn part_of(runs: Seq<ResultView>, t: Terms, leader: int, i: int) -> bool {
    chosen(runs, t, i) && lead_of(runs, t, i) == leader
}

/// The first run of each measurement, among the first `n` runs.
pub open spec fn leaders(runs: Seq<ResultView>, t: Terms, n: nat) -> Seq<int>
    decreases n,
{
    if n == 0 {
        seq![]
    } else {
        let before = leaders(runs, t, (n - 1) as nat);
        if part_of(runs, t, n - 1, n - 1) {
            before.push(n - 1)
        } else {
            before
        }
    }
}

/// The values of a measurement, over its runs among the first `n`: of prompt
/// ingestion or else of generation.
pub open spec fn measured_values(
    runs: Seq<ResultView>,
    t: Terms,
    leader: int,
    prompt: bool,
    n: nat,
) -> Seq<Real>
    decreases n,
{
    if n == 0 {
        seq![]
    } else {
        let before = measured_values(runs, t, leader, prompt, (n - 1) as nat);
        if part_of(runs, t, leader, n - 1) {
            match throughput(runs[n - 1].metrics, prompt) {
                Some(x) => before.push(x),
                None => before,
            }
        } else {
            before
        }
    }
}

/// At least 1 GiB of video memory was measured as free.
pub open spec fn roomy(r: ResultView) -> bool {
    r.metrics.min_free_vram_mib matches Some(free) && free >= 1024
}

/// At least 1 GiB of video memory was measured as free in every run of a
/// measurement.
pub open spec fn all_roomy(runs: Seq<ResultView>, t: Terms, leader: int) -> bool {
    forall|i: int| 0 <= i < runs.len() && #[trigger] part_of(runs, t, leader, i) ==> roomy(runs[i])
}

/// The throughput of prompt ingestion or else of generation.
pub open spec fn throughput(m: RunMetrics, prompt: bool) -> Option<Real> {
    if prompt {
        m.server_prompt_eval_toks_per_s
    } else {
        m.server_generation_toks_per_s
    }
}

/// Where `x` goes in an ascending list: behind what is not greater.
pub open spec fn place(s: Seq<Real>, x: Real) -> nat
    decreases s.len(),
{
    if s.len() > 0 && x.less(s.last()) {
        place(s.drop_last(), x)
    } else {
        s.len()
    }
}

/// The values in ascending order.
pub open spec fn ascending(values: Seq<Real>) -> Seq<Real>
    decreases values.len(),
{
    if values.len() == 0 {
        seq![]
    } else {
        let before = ascending(values.drop_last());
        before.insert(place(before, values.last()) as int, values.last())
    }
}

/// The two values in the middle of the ascending order, the same value twice
/// where the number of values is odd. The median is the mean of the two.
pub open spec fn middle(values: Seq<Real>) -> Option<(Real, Real)> {
    let s = ascending(values);
    if s.len() == 0 {
        None
    } else {
        Some((s[(s.len() - 1) / 2], s[s.len() as int / 2]))
    }
}

/// The first run with this id.
pub open spec fn run_named(runs: Seq<ResultView>, run_id: Seq<char>) -> Option<int>
    decreases runs.len(),
{
    if runs.len() == 0 {
        None
    } else {
        match run_named(runs.drop_last(), run_id) {
            Some(i) => Some(i),
            None => if runs.last().run_id == run_id {
                Some(runs.len() - 1)
            } else {
                None
            },
        }
    }
}

/// The run whose measurement supports run `i`: for a final-stage validation,
/// its baseline.
pub open spec fn supporting_run(runs: Seq<ResultView>, i: int) -> int {
    match runs[i].realistic_validation {
        Some(v) => match run_named(runs, v.baseline_run_id) {
            Some(baseline) => baseline,
            None => i,
        },
        None => i,
    }
}

/// How many of the first `n` runs are possible sources and part of the
/// measurement whose first run is `leader`.
pub open spec fn measurements(runs: Seq<ResultView>, t: Terms, leader: int, n: nat) -> nat
    decreases n,
{
    if n == 0 {
        0
    } else {
        measurements(runs, t, leader, (n - 1) as nat) + (if eligible(runs[n - 1], t) && lead_of(
            runs,
            t,
            n - 1,
        ) == leader {
            1nat
        } else {
            0nat
        })
    }
}

/// How many measured runs support run `i`, itself at least.
pub open spec fn support(runs: Seq<ResultView>, t: Terms, i: int) -> nat {
    let n = measurements(runs, t, lead_of(runs, t, supporting_run(runs, i)), runs.len());
    if n == 0 {
        1
    } else {
        n
    }
}

/// A measurement that recommendations can be made from.
#[derive(Clone, Copy, Debug)]
pub struct Source {
    /// The first run that made it.
    pub run: usize,
    /// The middle of the measured generation throughput.
    pub generation: Option<(Real, Real)>,
    /// The middle of the measured prompt throughput.
    pub prompt: Option<(Real, Real)>,
    /// Whether each of its runs left at least 1 GiB of video memory free.
    pub roomy: bool,
    /// How many measured runs support it.
    pub measurement_count: usize,
}

/// What a measurement says, given the first run that made it.
pub open spec fn source_of(runs: Seq<ResultView>, t: Terms, leader: int) -> Source {
    Source {
        run: leader as usize,
        generation: middle(measured_values(runs, t, leader, false, runs.len())),
        prompt: middle(measured_values(runs, t, leader, true, runs.len())),
        roomy: all_roomy(runs, t, leader),
        measurement_count: support(runs, t, leader) as usize,
    }
}

fn is_realistic(r: &ProfileResult) -> (b: bool)
    ensures
        b == realistic(r@),
{
    text::same_text(r.test_kind.as_str(), "realistic-validation")
}

fn is_roomy(r: &ProfileResult) -> (b: bool)
    ensures
        b == roomy(r@),
{
    match r.metrics.min_free_vram_mib {
        Some(free) => free >= 1024,
        None => false,
    }
}

proof fn last_search_bound(runs: Seq<ResultView>, t: Terms, c: CandidateView, n: nat)
    ensures
        last_search(runs, t, c, n) matches Some(j) ==> 0 <= j < n && eligible(runs[j], t)
            && searching(runs[j]) && runs[j].candidate == c,
    decreases n,
{
    if n > 0 {
        last_search_bound(runs, t, c, (n - 1) as nat);
    }
}

proof fn first_confirmation_bound(runs: Seq<ResultView>, t: Terms, c: CandidateView, n: nat)
    ensures
        first_confirmation(runs, t, c, n) matches Some(j) ==> 0 <= j < n && eligible(runs[j], t)
            && confirming(runs[j]) && runs[j].candidate == c,
    decreases n,
{
    if n > 0 {
        first_confirmation_bound(runs, t, c, (n - 1) as nat);
    }
}

/// The first run of the measurement that run `i` is part of.
fn find_lead(
    results: &Vec<ProfileResult>,
    flags: &Vec<bool>,
    i: usize,
    Ghost(t): Ghost<Terms>,
) -> (r: usize)
    requires
        i < results@.len(),
        flags@.len() == results@.len(),
        forall|i: int|
            0 <= i < flags@.len() ==> #[trigger] flags@[i] == eligible(views(results@)[i], t),
    ensures
        r == lead_of(views(results@), t, i as int),
        r <= i,
{
    let ghost runs = views(results@);
    if !text::same_text(results[i].test_kind.as_str(), "confirmation") {
        return i;
    }
    let ghost c = runs[i as int].candidate;
    let mut search: Option<usize> = None;
    let mut first: Option<usize> = None;
    for j in 0..i
        invariant
            i < results@.len(),
            runs == views(results@),
            c == runs[i as int].candidate,
            flags@.len() == results@.len(),
            forall|i: int| 0 <= i < flags@.len() ==> #[trigger] flags@[i] == eligible(runs[i], t),
            search matches Some(k) ==> k < j,
            first matches Some(k) ==> k < j,
            match search {
                Some(k) => last_search(runs, t, c, j as nat) == Some(k as int),
                None => last_search(runs, t, c, j as nat) is None,
            },
            match first {
                Some(k) => first_confirmation(runs, t, c, j as nat) == Some(k as int),
                None => first_confirmation(runs, t, c, j as nat) is None,
            },
    {
        proof {
            assert(flags@[j as int] == eligible(runs[j as int], t));
        }
        if flags[j] && results[j].candidate.is_same(&results[i].candidate) {
            if text::same_text(results[j].test_kind.as_str(), "tune") {
                search = Some(j);
            }
            if first.is_none() && text::same_text(results[j].test_kind.as_str(), "confirmation") {
                first = Some(j);
            }
        }
    }
    match search {
        Some(j) => j,
        None => match first {
            Some(j) => j,
            None => i,
        },
    }
}

/// The first run of the measurement that each run is part of.
fn find_leads(results: &Vec<ProfileResult>, flags: &Vec<bool>, Ghost(t): Ghost<Terms>) -> (r: Vec<
    usize,
>)
    requires
        flags@.len() == results@.len(),
        forall|i: int|
            0 <= i < flags@.len() ==> #[trigger] flags@[i] == eligible(views(results@)[i], t),
    ensures
        r@.len() == results@.len(),
        forall|i: int| 0 <= i < r@.len() ==> #[trigger] r@[i] == lead_of(views(results@), t, i),
{
    let mut r: Vec<usize> = Vec::new();
    for i in 0..results.len()
        invariant
            flags@.len() == results@.len(),
            forall|i: int|
                0 <= i < flags@.len() ==> #[trigger] flags@[i] == eligible(views(results@)[i], t),
            r@.len() == i,
            forall|j: int| 0 <= j < i ==> #[trigger] r@[j] == lead_of(views(results@), t, j),
    {
        r.push(find_lead(results, flags, i, Ghost(t)));
    }
    r
}

/// Which runs can be the source of a recommendation.
fn eligible_flags(
    results: &Vec<ProfileResult>,
    identity: Option<&ModelIdentity>,
    safety: &SafetyLimits,
    environment: Option<&EnvironmentSnapshot>,
) -> (r: Vec<bool>)
    ensures
        r@.len() == results@.len(),
        forall|i: int|
            0 <= i < r@.len() ==> #[trigger] r@[i] == eligible(
                views(results@)[i],
                terms(identity, *safety, environment),
            ),
{
    let mut r: Vec<bool> = Vec::new();
    for i in 0..results.len()
        invariant
            r@.len() == i,
            forall|j: int|
                0 <= j < i ==> #[trigger] r@[j] == eligible(
                    views(results@)[j],
                    terms(identity, *safety, environment),
                ),
    {
        r.push(is_eligible(&results[i], identity, safety, environment));
    }
    r
}

/// Which runs are sources of recommendations.
fn chosen_flags(results: &Vec<ProfileResult>, flags: &Vec<bool>, Ghost(t): Ghost<Terms>) -> (r: Vec<
    bool,
>)
    requires
        flags@.len() == results@.len(),
        forall|i: int|
            0 <= i < flags@.len() ==> #[trigger] flags@[i] == eligible(views(results@)[i], t),
    ensures
        r@.len() == results@.len(),
        forall|i: int| 0 <= i < r@.len() ==> #[trigger] r@[i] == chosen(views(results@), t, i),
{
    let ghost runs = views(results@);
    let mut any = false;
    for i in 0..results.len()
        invariant
            runs == views(results@),
            flags@.len() == results@.len(),
            forall|i: int| 0 <= i < flags@.len() ==> #[trigger] flags@[i] == eligible(runs[i], t),
            any == (exists|j: int|
                0 <= j < i && eligible(#[trigger] runs[j], t) && realistic(runs[j])),
    {
        let here = flags[i] && is_realistic(&results[i]);
        proof {
            assert(here == (eligible(runs[i as int], t) && realistic(runs[i as int])));
        }
        any = any || here;
    }
    let mut r: Vec<bool> = Vec::new();
    for i in 0..results.len()
        invariant
            runs == views(results@),
            flags@.len() == results@.len(),
            forall|i: int| 0 <= i < flags@.len() ==> #[trigger] flags@[i] == eligible(runs[i], t),
            any == validated(runs, t),
            r@.len() == i,
            forall|j: int| 0 <= j < i ==> #[trigger] r@[j] == chosen(runs, t, j),
    {
        r.push(flags[i] && (!any || is_realistic(&results[i])));
    }
    r
}

/// Adds `x` to an ascending list.
fn insert_ascending(list: &mut Vec<Real>, x: Real)
    ensures
        final(list)@ == old(list)@.insert(place(old(list)@, x) as int, x),
{
    let ghost before = list@;
    let mut at: usize = list.len();
    proof {
        assert(before.take(at as int) =~= before);
    }
    while at > 0 && x.is_less(list[at - 1])
        invariant
            list@ == before,
            at <= list@.len(),
            place(before.take(at as int), x) == place(before, x),
        decreases at,
    {
        proof {
            assert(before.take(at as int).drop_last() =~= before.take(at - 1));
        }
        at -= 1;
    }
    list.insert(at, x);
}

/// The middle of the throughput measured by the runs of a measurement.
fn middle_throughput(
    results: &Vec<ProfileResult>,
    flags: &Vec<bool>,
    leads: &Vec<usize>,
    leader: usize,
    prompt: bool,
    Ghost(t): Ghost<Terms>,
) -> (r: Option<(Real, Real)>)
    requires
        flags@.len() == results@.len(),
        leads@.len() == results@.len(),
        forall|i: int|
            0 <= i < flags@.len() ==> #[trigger] flags@[i] == chosen(views(results@), t, i),
        forall|i: int|
            0 <= i < leads@.len() ==> #[trigger] leads@[i] == lead_of(views(results@), t, i),
    ensures
        r == middle(
            measured_values(views(results@), t, leader as int, prompt, views(results@).len()),
        ),
{
    let ghost runs = views(results@);
    let mut sorted: Vec<Real> = Vec::new();
    for i in 0..results.len()
        invariant
            runs == views(results@),
            flags@.len() == results@.len(),
            leads@.len() == results@.len(),
            forall|i: int| 0 <= i < flags@.len() ==> #[trigger] flags@[i] == chosen(runs, t, i),
            forall|i: int| 0 <= i < leads@.len() ==> #[trigger] leads@[i] == lead_of(runs, t, i),
            sorted@ == ascending(measured_values(runs, t, leader as int, prompt, i as nat)),
    {
        let ghost values = measured_values(runs, t, leader as int, prompt, i as nat);
        if flags[i] && leads[i] == leader {
            let value = if prompt {
                results[i].metrics.server_prompt_eval_toks_per_s
            } else {
                results[i].metrics.server_generation_toks_per_s
            };
            if let Some(x) = value {
                insert_ascending(&mut sorted, x);
                proof {
                    assert(values.push(x).drop_last() =~= values);
                }
            }
        }
    }
    if sorted.len() == 0 {
        None
    } else {
        Some((sorted[(sorted.len() - 1) / 2], sorted[sorted.len() / 2]))
    }
}

/// Whether every run of a measurement left at least 1 GiB of video memory free.
fn has_room(
    results: &Vec<ProfileResult>,
    flags: &Vec<bool>,
    leads: &Vec<usize>,
    leader: usize,
    Ghost(t): Ghost<Terms>,
) -> (r: bool)
    requires
        flags@.len() == results@.len(),
        leads@.len() == results@.len(),
        forall|i: int|
            0 <= i < flags@.len() ==> #[trigger] flags@[i] == chosen(views(results@), t, i),
        forall|i: int|
            0 <= i < leads@.len() ==> #[trigger] leads@[i] == lead_of(views(results@), t, i),
    ensures
        r == all_roomy(views(results@), t, leader as int),
{
    let ghost runs = views(results@);
    for i in 0..results.len()
        invariant
            runs == views(results@),
            flags@.len() == results@.len(),
            leads@.len() == results@.len(),
            forall|i: int| 0 <= i < flags@.len() ==> #[trigger] flags@[i] == chosen(runs, t, i),
            forall|i: int| 0 <= i < leads@.len() ==> #[trigger] leads@[i] == lead_of(runs, t, i),
            forall|j: int|
                0 <= j < i && #[trigger] part_of(runs, t, leader as int, j) ==> roomy(runs[j]),
    {
        if flags[i] && leads[i] == leader && !is_roomy(&results[i]) {
            proof {
                assert(part_of(runs, t, leader as int, i as int));
            }
            return false;
        }
    }
    true
}

fn find_run(results: &Vec<ProfileResult>, run_id: &str) -> (r: Option<usize>)
    ensures
        match r {
            Some(i) => i < results@.len() && run_named(views(results@), run_id@) == Some(i as int),
            None => run_named(views(results@), run_id@) is None,
        },
{
    let ghost runs = views(results@);
    for i in 0..results.len()
        invariant
            runs == views(results@),
            run_named(runs.take(i as int), run_id@) is None,
    {
        proof {
            assert(runs.take(i + 1).drop_last() =~= runs.take(i as int));
            assert(runs.take(i + 1).last() == results@[i as int]@);
        }
        if text::same_text(results[i].run_id.as_str(), run_id) {
            proof {
                run_named_extends(runs, run_id@, i + 1);
            }
            return Some(i);
        }
    }
    proof {
        assert(runs.take(runs.len() as int) =~= runs);
    }
    None
}

proof fn run_named_extends(runs: Seq<ResultView>, run_id: Seq<char>, n: int)
    requires
        0 <= n <= runs.len(),
        run_named(runs.take(n), run_id) is Some,
    ensures
        run_named(runs, run_id) == run_named(runs.take(n), run_id),
    decreases runs.len() - n,
{
    if n < runs.len() {
        assert(runs.take(n + 1).drop_last() =~= runs.take(n));
        run_named_extends(runs, run_id, n + 1);
    } else {
        assert(runs.take(n) =~= runs);
    }
}

fn count_support(
    results: &Vec<ProfileResult>,
    flags: &Vec<bool>,
    leads: &Vec<usize>,
    run: usize,
    Ghost(t): Ghost<Terms>,
) -> (r: usize)
    requires
        run < results@.len(),
        flags@.len() == results@.len(),
        leads@.len() == results@.len(),
        forall|i: int|
            0 <= i < flags@.len() ==> #[trigger] flags@[i] == eligible(views(results@)[i], t),
        forall|i: int|
            0 <= i < leads@.len() ==> #[trigger] leads@[i] == lead_of(views(results@), t, i),
    ensures
        r == support(views(results@), t, run as int),
{
    let ghost runs = views(results@);
    let baseline = match &results[run].realistic_validation {
        Some(v) => find_run(results, v.baseline_run_id.as_str()),
        None => None,
    };
    let leader: usize = match baseline {
        Some(i) => leads[i],
        None => leads[run],
    };
    proof {
        assert(leader == lead_of(runs, t, supporting_run(runs, run as int)));
    }
    let mut n: usize = 0;
    for i in 0..results.len()
        invariant
            runs == views(results@),
            flags@.len() == results@.len(),
            leads@.len() == results@.len(),
            forall|i: int| 0 <= i < flags@.len() ==> #[trigger] flags@[i] == eligible(runs[i], t),
            forall|i: int| 0 <= i < leads@.len() ==> #[trigger] leads@[i] == lead_of(runs, t, i),
            n == measurements(runs, t, leader as int, i as nat),
            n <= i,
    {
        if flags[i] && leads[i] == leader {
            n += 1;
        }
    }
    if n == 0 {
        1
    } else {
        n
    }
}

/// The measurements that recommendations can be made from, in the order of the
/// runs.
pub fn measurement_sources(
    results: &Vec<ProfileResult>,
    identity: Option<&ModelIdentity>,
    safety: &SafetyLimits,
    environment: Option<&EnvironmentSnapshot>,
) -> (r: Vec<Source>)
    ensures
        ({
            let t = terms(identity, *safety, environment);
            let runs = views(results@);
            let firsts = leaders(runs, t, runs.len());
            &&& r@.len() == firsts.len()
            &&& forall|k: int|
                0 <= k < r@.len() ==> #[trigger] r@[k] == source_of(runs, t, firsts[k]) && r@[k].run
                    == firsts[k] && 0 <= firsts[k] < runs.len()
        }),
{
    let ghost t = terms(identity, *safety, environment);
    let ghost runs = views(results@);
    let fit = eligible_flags(results, identity, safety, environment);
    let flags = chosen_flags(results, &fit, Ghost(t));
    let leads = find_leads(results, &fit, Ghost(t));
    let mut r: Vec<Source> = Vec::new();
    for i in 0..results.len()
        invariant
            runs == views(results@),
            fit@.len() == results@.len(),
            flags@.len() == results@.len(),
            leads@.len() == results@.len(),
            forall|i: int| 0 <= i < fit@.len() ==> #[trigger] fit@[i] == eligible(runs[i], t),
            forall|i: int| 0 <= i < flags@.len() ==> #[trigger] flags@[i] == chosen(runs, t, i),
            forall|i: int| 0 <= i < leads@.len() ==> #[trigger] leads@[i] == lead_of(runs, t, i),
            r@.len() == leaders(runs, t, i as nat).len(),
            forall|k: int|
                0 <= k < r@.len() ==> #[trigger] r@[k] == source_of(
                    runs,
                    t,
                    leaders(runs, t, i as nat)[k],
                ) && r@[k].run == leaders(runs, t, i as nat)[k] && 0 <= leaders(
                    runs,
                    t,
                    i as nat,
                )[k] < runs.len(),
    {
        if flags[i] && leads[i] == i {
            r.push(
                Source {
                    run: i,
                    generation: middle_throughput(results, &flags, &leads, i, false, Ghost(t)),
                    prompt: middle_throughput(results, &flags, &leads, i, true, Ghost(t)),
                    roomy: has_room(results, &flags, &leads, i, Ghost(t)),
                    measurement_count: count_support(results, &fit, &leads, i, Ghost(t)),
                },
            );
        }
    }
    r
}

// ---------------------------------------------------------------------------
// What is said of runs

/// The risk of a configuration, unknown where video memory was not measured.
pub open spec fn risk_text(m: RunMetrics, safety: SafetyLimits) -> Seq<char> {
    let swap = match m.swap_delta_mib {
        Some(n) => n as int,
        None => 0,
    };
    match m.min_free_vram_mib {
        None => "unknown"@,
        Some(free) => if free < safety.min_vram_free_mib || swap > as_signed(
            safety.max_swap_delta_mib,
        ) {
            "high"@
        } else if free < 1024 || swap > 0 {
            "medium"@
        } else {
            "low"@
        },
    }
}

/// The first line of a note, trimmed, of at most 120 characters.
pub open spec fn compacted(note: Seq<char>) -> Seq<char> {
    let lines = text::lines(note);
    let line = text::trim(if lines.len() > 0 {
        lines[0]
    } else {
        note
    });
    if line.len() > 120 {
        line.take(117) + "..."@
    } else {
        line
    }
}

/// Why a run was rejected.
pub open spec fn rejection_text(r: ResultView, safety: SafetyLimits) -> Seq<char> {
    if !usable(r.outcome) {
        if text::trim(r.note).len() == 0 {
            outcome_name(r.outcome)
        } else {
            outcome_name(r.outcome) + ": "@ + compacted(r.note)
        }
    } else if vram_short(r.metrics, safety) {
        "VRAM headroom "@ + text::decimal(r.metrics.min_free_vram_mib->0 as nat)
            + " MiB is below "@ + text::decimal(safety.min_vram_free_mib as nat) + " MiB"@
    } else if swap_heavy(r.metrics, safety) {
        "swap delta "@ + text::signed_decimal(r.metrics.swap_delta_mib->0 as int)
            + " MiB exceeds "@ + text::decimal(safety.max_swap_delta_mib as nat) + " MiB"@
    } else {
        "too tight or rejected by safety policy"@
    }
}

fn risk_label(m: &RunMetrics, safety: &SafetyLimits) -> (r: String)
    ensures
        r@ == risk_text(*m, *safety),
{
    let swap: i64 = match m.swap_delta_mib {
        Some(n) => n,
        None => 0,
    };
    match m.min_free_vram_mib {
        None => "unknown".to_string(),
        Some(free) => if free < safety.min_vram_free_mib || swap > to_signed(
            safety.max_swap_delta_mib,
        ) {
            "high".to_string()
        } else if free < 1024 || swap > 0 {
            "medium".to_string()
        } else {
            "low".to_string()
        },
    }
}

fn compact_note(value: &str) -> (r: String)
    ensures
        r@ == compacted(value@),
{
    let lines = text::split_lines(value);
    proof {
        assert(text::texts(lines@).len() == lines@.len());
    }
    let line = if lines.len() > 0 {
        text::trimmed(lines[0].as_str())
    } else {
        text::trimmed(value)
    };
    let chars = text::to_chars(line.as_str());
    if chars.len() > 120 {
        let mut r = text::slice_text(&chars, 0, 117);
        proof {
            assert(chars@.subrange(0, 117) =~= chars@.take(117));
        }
        r.append("...");
        r
    } else {
        line
    }
}

fn rejection_reason(result: &ProfileResult, safety: &SafetyLimits) -> (r: String)
    ensures
        r@ == rejection_text(result@, *safety),
{
    if !result.outcome.is_usable() {
        let mut r = result.outcome.name().to_string();
        if text::to_chars(text::trimmed(result.note.as_str()).as_str()).len() > 0 {
            r.append(": ");
            r.append(compact_note(result.note.as_str()).as_str());
        }
        return r;
    }
    if let Some(free) = result.metrics.min_free_vram_mib {
        if free < safety.min_vram_free_mib {
            let mut r = "VRAM headroom ".to_string();
            r.append(text::number(free).as_str());
            r.append(" MiB is below ");
            r.append(text::number(safety.min_vram_free_mib).as_str());
            r.append(" MiB");
            return r;
        }
    }
    if let Some(delta) = result.metrics.swap_delta_mib {
        if delta > to_signed(safety.max_swap_delta_mib) {
            let mut r = "swap delta ".to_string();
            r.append(text::signed_number(delta).as_str());
            r.append(" MiB exceeds ");
            r.append(text::number(safety.max_swap_delta_mib).as_str());
            r.append(" MiB");
            return r;
        }
    }
    "too tight or rejected by safety policy".to_string()
}

// ---------------------------------------------------------------------------
// Recommendations

/// How far the evidence of a profile reaches.
pub open spec fn confidence_text(level: ValidationLevel, count: usize, broad: bool) -> Seq<char> {
    if level == ValidationLevel::Fullctx {
        "full-context-validated"@
    } else if count >= 2 {
        "confirmed"@
    } else if broad && (level == ValidationLevel::StandardIngest || level
        == ValidationLevel::Realistic) {
        "benchmarked"@
    } else {
        "provisional"@
    }
}

/// One of the words for how far the evidence of a profile reaches.
pub open spec fn known_label(s: Seq<char>) -> bool {
    s == "provisional"@ || s == "benchmarked"@ || s == "confirmed"@ || s
        == "full-context-validated"@
}

/// How far the evidence of a profile reaches.
pub fn confidence(level: ValidationLevel, count: usize, broad: bool) -> (r: String)
    ensures
        r@ == confidence_text(level, count, broad),
        known_label(r@),
{
    if level == ValidationLevel::Fullctx {
        "full-context-validated".to_string()
    } else if count >= 2 {
        "confirmed".to_string()
    } else if broad && (level == ValidationLevel::StandardIngest || level
        == ValidationLevel::Realistic) {
        "benchmarked".to_string()
    } else {
        "provisional".to_string()
    }
}

/// A measurement's throughput: of generation, of prompt ingestion, and the
/// balance of both.
#[derive(Clone, Copy, Debug)]
pub struct Score {
    pub generation: Option<Real>,
    pub prompt: Option<Real>,
    pub balanced: Real,
}

/// The median, given the two values in the middle and their mean.
pub open spec fn median_of(middle: Option<(Real, Real)>, mean: Option<Real>) -> Option<Real> {
    match middle {
        None => None,
        Some((low, high)) => if low == high {
            Some(low)
        } else {
            mean
        },
    }
}

/// The throughput of a measurement, given the means of the values in the
/// middle, and the balance.
pub open spec fn score_of(source: Source, given: Score) -> Score {
    Score {
        generation: median_of(source.generation, given.generation),
        prompt: median_of(source.prompt, given.prompt),
        balanced: given.balanced,
    }
}

fn pick_median(middle: Option<(Real, Real)>, mean: Option<Real>) -> (r: Option<Real>)
    ensures
        r == median_of(middle, mean),
{
    match middle {
        None => None,
        Some((low, high)) => if low.bits == high.bits {
            Some(low)
        } else {
            mean
        },
    }
}

/// The throughput of a measurement, given the means of the values in the
/// middle, and the balance.
pub fn score_source(source: &Source, given: &Score) -> (r: Score)
    ensures
        r == score_of(*source, *given),
{
    Score {
        generation: pick_median(source.generation, given.generation),
        prompt: pick_median(source.prompt, given.prompt),
        balanced: given.balanced,
    }
}

/// The throughput of each measurement.
pub open spec fn scored(runs: Seq<ResultView>, t: Terms, given: Seq<Score>) -> Seq<Score> {
    let firsts = leaders(runs, t, runs.len());
    Seq::new(firsts.len(), |k: int| score_of(source_of(runs, t, firsts[k]), given[k]))
}

/// The recommendation that a run gives.
pub open spec fn recommendation_of(
    id: Seq<char>,
    role: Seq<char>,
    r: ResultView,
    score: Score,
    count: usize,
    safety: SafetyLimits,
) -> RecommendationView {
    RecommendationView {
        id,
        role,
        source_run_id: r.run_id,
        source_candidate_id: r.candidate.id,
        source_test_kind: r.test_kind,
        model_identity: r.model_identity,
        requested_context: r.requested_context,
        validated_prompt_tokens: r.prompt_tokens,
        validation_level: r.validation_level,
        compatibility: r.compatibility,
        environment_valid: r.environment is Some && r.compatibility == Compatibility::Current,
        telemetry_status: r.telemetry_status,
        stale_reason: None,
        command: r.command,
        command_display: r.command_display,
        output_toks_per_s: score.generation,
        prompt_toks_per_s: score.prompt,
        ttft_ms: r.metrics.client_ttft_ms,
        peak_vram_mib: r.metrics.peak_vram_mib,
        headroom_mib: r.metrics.min_free_vram_mib,
        confidence: confidence_text(r.validation_level, count, false),
        measurement_count: count,
        risk: risk_text(r.metrics, safety),
        note: r.note,
        realistic_validation: r.realistic_validation,
    }
}

fn to_recommendation(
    id: &str,
    role: &str,
    result: &ProfileResult,
    score: Score,
    count: usize,
    safety: &SafetyLimits,
) -> (r: Recommendation)
    ensures
        r@ == recommendation_of(id@, role@, result@, score, count, *safety),
{
    Recommendation {
        id: id.to_string(),
        role: role.to_string(),
        source_run_id: result.run_id.clone(),
        source_candidate_id: result.candidate.id.clone(),
        source_test_kind: result.test_kind.clone(),
        model_identity: duplicate_opt(&result.model_identity),
        requested_context: result.requested_context,
        validated_prompt_tokens: result.prompt_tokens,
        validation_level: result.validation_level,
        compatibility: result.compatibility,
        environment_valid: result.environment.is_some() && result.compatibility.is_current(),
        telemetry_status: result.telemetry_status,
        stale_reason: None,
        command: text::copy_texts(&result.command),
        command_display: result.command_display.clone(),
        output_toks_per_s: score.generation,
        prompt_toks_per_s: score.prompt,
        ttft_ms: result.metrics.client_ttft_ms,
        peak_vram_mib: result.metrics.peak_vram_mib,
        headroom_mib: result.metrics.min_free_vram_mib,
        confidence: confidence(result.validation_level, count, false),
        measurement_count: count,
        risk: risk_label(&result.metrics, safety),
        note: result.note.clone(),
        realistic_validation: duplicate_opt(&result.realistic_validation),
    }
}

/// What measurements are ranked by.
#[derive(Clone, Copy, Debug, PartialEq, Eq, Structural)]
pub enum Criterion {
    Generation,
    Prompt,
    Balanced,
}

/// The score of a measurement, 0 where it is missing.
pub open spec fn score_by(s: Score, by: Criterion) -> Real {
    match by {
        Criterion::Generation => match s.generation {
            Some(x) => x,
            None => Real { bits: 0 },
        },
        Criterion::Prompt => match s.prompt {
            Some(x) => x,
            None => Real { bits: 0 },
        },
        Criterion::Balanced => s.balanced,
    }
}

/// A measurement is considered: any, or one with at least 1 GiB of video memory
/// free in every run.
pub open spec fn admitted(runs: Seq<ResultView>, t: Terms, leader: int, only_roomy: bool) -> bool {
    !only_roomy || all_roomy(runs, t, leader)
}

/// The measurements that are considered. `firsts` holds the first run of each.
pub open spec fn considered(
    runs: Seq<ResultView>,
    t: Terms,
    firsts: Seq<int>,
    only_roomy: bool,
    n: nat,
) -> Seq<int>
    decreases n,
{
    if n == 0 {
        seq![]
    } else {
        let before = considered(runs, t, firsts, only_roomy, (n - 1) as nat);
        if admitted(runs, t, firsts[n - 1], only_roomy) {
            before.push(n - 1)
        } else {
            before
        }
    }
}

/// The scores of the measurements that are considered.
pub open spec fn considered_scores(positions: Seq<int>, scores: Seq<Score>, by: Criterion) -> Seq<
    Real,
> {
    Seq::new(positions.len(), |j: int| score_by(scores[positions[j]], by))
}

/// The best measurement among those considered, the last one among equals.
pub open spec fn best_of(
    runs: Seq<ResultView>,
    t: Terms,
    firsts: Seq<int>,
    scores: Seq<Score>,
    only_roomy: bool,
    by: Criterion,
) -> Option<int> {
    let positions = considered(runs, t, firsts, only_roomy, firsts.len());
    if positions.len() == 0 {
        None
    } else {
        Some(positions[last_best(considered_scores(positions, scores, by))])
    }
}

/// What a profile is for.
pub struct Role {
    pub id: Seq<char>,
    pub role: Seq<char>,
    pub only_roomy: bool,
    pub by: Criterion,
}

/// The profiles that are recommended, in order.
pub open spec fn roles() -> Seq<Role> {
    seq![
        Role {
            id: "interactive-fast"@,
            role: "Fastest observed generation throughput within safety limits"@,
            only_roomy: false,
            by: Criterion::Generation,
        },
        Role {
            id: "interactive-safe"@,
            role: "Fastest observed generation throughput with at least 1 GiB free VRAM"@,
            only_roomy: true,
            by: Criterion::Generation,
        },
        Role {
            id: "prompt-replay"@,
            role: "Fastest observed prompt ingest throughput within safety limits"@,
            only_roomy: false,
            by: Criterion::Prompt,
        },
        Role {
            id: "balanced"@,
            role: "Best observed balance of prompt and output throughput"@,
            only_roomy: false,
            by: Criterion::Balanced,
        },
    ]
}

/// The recommendation for a role, where there is one: what the first run of the
/// best measurement holds, with the throughput of the measurement.
pub open spec fn profile_for(
    runs: Seq<ResultView>,
    t: Terms,
    scores: Seq<Score>,
    role: Role,
) -> Option<RecommendationView> {
    let firsts = leaders(runs, t, runs.len());
    match best_of(runs, t, firsts, scores, role.only_roomy, role.by) {
        Some(k) => Some(
            recommendation_of(
                role.id,
                role.role,
                runs[firsts[k]],
                scores[k],
                support(runs, t, firsts[k]) as usize,
                t.safety,
            ),
        ),
        None => None,
    }
}

/// The recommendations for the first `n` roles.
pub open spec fn profiles_of(
    runs: Seq<ResultView>,
    t: Terms,
    scores: Seq<Score>,
    n: nat,
) -> Seq<RecommendationView>
    decreases n,
{
    if n == 0 {
        seq![]
    } else {
        let before = profiles_of(runs, t, scores, (n - 1) as nat);
        match profile_for(runs, t, scores, roles()[n - 1]) {
            Some(p) => before.push(p),
            None => before,
        }
    }
}

/// The notes of the rejected runs among the first `n`.
pub open spec fn rejections(runs: Seq<ResultView>, t: Terms, n: nat) -> Seq<RejectedView>
    decreases n,
{
    if n == 0 {
        seq![]
    } else {
        let before = rejections(runs, t, (n - 1) as nat);
        let r = runs[n - 1];
        if rejected(r, t) {
            before.push(
                RejectedView {
                    run_id: r.run_id,
                    candidate_id: r.candidate.id,
                    outcome: r.outcome,
                    reason: rejection_text(r, t.safety),
                },
            )
        } else {
            before
        }
    }
}

/// The notes of the stale runs among the first `n`.
pub open spec fn stale_notes(runs: Seq<ResultView>, t: Terms, n: nat) -> Seq<StaleView>
    decreases n,
{
    if n == 0 {
        seq![]
    } else {
        let before = stale_notes(runs, t, (n - 1) as nat);
        let r = runs[n - 1];
        if stale(r, t) {
            before.push(
                StaleView {
                    run_id: r.run_id,
                    candidate_id: r.candidate.id,
                    compatibility: staleness(r, t),
                    reason: reason_text(staleness(r, t)),
                },
            )
        } else {
            before
        }
    }
}

/// What to try next.
pub open spec fn next_test(runs: Seq<ResultView>, any_profile: bool) -> Option<Seq<char>> {
    if !any_profile {
        Some("Run `tune --preset quick` with a lower --ctx or safer MoE CPU offload."@)
    } else if !(exists|i: int| 0 <= i < runs.len() && (#[trigger] runs[i]).test_kind == "fullctx"@) {
        Some("If near-native context matters, run explicit `fullctx` for the chosen profile."@)
    } else {
        None
    }
}

/// The recommendations for a model.
pub open spec fn recommended(
    model_path: Seq<char>,
    runs: Seq<ResultView>,
    t: Terms,
    scores: Seq<Score>,
    now: Timestamp,
) -> RecommendationsView {
    let profiles = profiles_of(runs, t, scored(runs, t, scores), 4);
    RecommendationsView {
        schema_version: SCHEMA_VERSION,
        generated_at: now,
        model_path,
        model_identity: t.identity,
        profiles,
        rejected: rejections(runs, t, runs.len()),
        stale: stale_notes(runs, t, runs.len()),
        environment: t.environment,
        environment_valid: t.environment is Some,
        coverage: None,
        next_suggested_test: next_test(runs, profiles.len() > 0),
    }
}

fn score_value(s: &Score, by: Criterion) -> (r: Real)
    ensures
        r == score_by(*s, by),
{
    match by {
        Criterion::Generation => match s.generation {
            Some(x) => x,
            None => Real::zero(),
        },
        Criterion::Prompt => match s.prompt {
            Some(x) => x,
            None => Real::zero(),
        },
        Criterion::Balanced => s.balanced,
    }
}

/// `sources` holds what each measurement says, by its first run.
spec fn tells(sources: Seq<Source>, runs: Seq<ResultView>, t: Terms, firsts: Seq<int>) -> bool {
    &&& firsts.len() == sources.len()
    &&& forall|k: int|
        0 <= k < sources.len() ==> #[trigger] sources[k] == source_of(runs, t, firsts[k])
            && sources[k].run == firsts[k] && 0 <= firsts[k] < runs.len()
}

/// The best measurement among those considered.
fn best_by(
    sources: &Vec<Source>,
    scores: &Vec<Score>,
    only_roomy: bool,
    by: Criterion,
    Ghost(runs): Ghost<Seq<ResultView>>,
    Ghost(t): Ghost<Terms>,
    Ghost(firsts): Ghost<Seq<int>>,
) -> (r: Option<usize>)
    requires
        sources@.len() == scores@.len(),
        tells(sources@, runs, t, firsts),
    ensures
        match r {
            Some(k) => k < sources@.len() && best_of(runs, t, firsts, scores@, only_roomy, by)
                == Some(k as int),
            None => best_of(runs, t, firsts, scores@, only_roomy, by) is None,
        },
{
    let mut positions: Vec<usize> = Vec::new();
    let mut values: Vec<Real> = Vec::new();
    let ghost mut at: Seq<int> = seq![];
    for k in 0..sources.len()
        invariant
            sources@.len() == scores@.len(),
            tells(sources@, runs, t, firsts),
            at == considered(runs, t, firsts, only_roomy, k as nat),
            positions@.len() == at.len(),
            forall|j: int| 0 <= j < at.len() ==> (#[trigger] positions@[j]) == at[j],
            forall|j: int| 0 <= j < at.len() ==> 0 <= (#[trigger] at[j]) < k,
            values@ == considered_scores(at, scores@, by),
    {
        proof {
            assert(sources@[k as int] == source_of(runs, t, firsts[k as int]));
        }
        if !only_roomy || sources[k].roomy {
            positions.push(k);
            values.push(score_value(&scores[k], by));
            proof {
                let before = at;
                at = at.push(k as int);
                assert forall|j: int| 0 <= j < at.len() implies 0 <= (#[trigger] at[j]) < k + 1 by {
                    if j < before.len() {
                        assert(before[j] == at[j]);
                    }
                }
                assert(values@ =~= considered_scores(at, scores@, by));
            }
        }
    }
    if positions.len() == 0 {
        None
    } else {
        let best = best_index(&values);
        proof {
            assert(positions@[best as int] == at[best as int]);
        }
        Some(positions[best])
    }
}

fn reject(
    results: &Vec<ProfileResult>,
    identity: Option<&ModelIdentity>,
    safety: &SafetyLimits,
    environment: Option<&EnvironmentSnapshot>,
) -> (r: Vec<RejectedRun>)
    ensures
        views(r@) == rejections(
            views(results@),
            terms(identity, *safety, environment),
            views(results@).len(),
        ),
{
    let ghost t = terms(identity, *safety, environment);
    let ghost runs = views(results@);
    let mut r: Vec<RejectedRun> = Vec::new();
    proof {
        assert(views(r@) =~= rejections(runs, t, 0));
    }
    for i in 0..results.len()
        invariant
            t == terms(identity, *safety, environment),
            runs == views(results@),
            views(r@) == rejections(runs, t, i as nat),
    {
        let result = &results[i];
        let ghost before = views(r@);
        let current = run_compatibility(result, environment).is_current();
        let own = is_of_model(result, identity);
        proof {
            assert(compatibility_of(result@, t) == Compatibility::Current <==> current);
            assert(of_model(result@, t) == own);
        }
        if current && own && (!result.outcome.is_usable() || !passes_safety(result, safety)) {
            let note = RejectedRun {
                run_id: result.run_id.clone(),
                candidate_id: result.candidate.id.clone(),
                outcome: result.outcome,
                reason: rejection_reason(result, safety),
            };
            r.push(note);
            proof {
                assert(views(r@) =~= before.push(note@));
            }
        }
    }
    r
}

fn stale_runs(
    results: &Vec<ProfileResult>,
    identity: Option<&ModelIdentity>,
    safety: &SafetyLimits,
    environment: Option<&EnvironmentSnapshot>,
) -> (r: Vec<StaleRun>)
    ensures
        views(r@) == stale_notes(
            views(results@),
            terms(identity, *safety, environment),
            views(results@).len(),
        ),
{
    let ghost t = terms(identity, *safety, environment);
    let ghost runs = views(results@);
    let mut r: Vec<StaleRun> = Vec::new();
    proof {
        assert(views(r@) =~= stale_notes(runs, t, 0));
    }
    for i in 0..results.len()
        invariant
            t == terms(identity, *safety, environment),
            runs == views(results@),
            views(r@) == stale_notes(runs, t, i as nat),
    {
        let result = &results[i];
        let ghost before = views(r@);
        let compatibility = run_compatibility(result, environment);
        let own = is_of_model(result, identity);
        proof {
            assert(compatibility_of(result@, t) == compatibility);
            assert(of_model(result@, t) == own);
        }
        if !compatibility.is_current() || !own {
            let why = if own {
                compatibility
            } else if result.model_identity.is_none() {
                Compatibility::LegacyMissingIdentity
            } else {
                Compatibility::ModelChanged
            };
            let note = StaleRun {
                run_id: result.run_id.clone(),
                candidate_id: result.candidate.id.clone(),
                compatibility: why,
                reason: why.reason().to_string(),
            };
            r.push(note);
            proof {
                assert(views(r@) =~= before.push(note@));
            }
        }
    }
    r
}

fn has_fullctx(results: &Vec<ProfileResult>) -> (r: bool)
    ensures
        r == exists|i: int|
            0 <= i < results@.len() && (#[trigger] views(results@)[i]).test_kind == "fullctx"@,
{
    for i in 0..results.len()
        invariant
            forall|j: int|
                0 <= j < i ==> (#[trigger] views(results@)[j]).test_kind != "fullctx"@,
    {
        if text::same_text(results[i].test_kind.as_str(), "fullctx") {
            proof {
                assert(views(results@)[i as int].test_kind == "fullctx"@);
            }
            return true;
        }
    }
    false
}

fn push_role(
    profiles: &mut Vec<Recommendation>,
    id: &str,
    role: &str,
    best: Option<usize>,
    results: &Vec<ProfileResult>,
    sources: &Vec<Source>,
    scores: &Vec<Score>,
    safety: &SafetyLimits,
    Ghost(t): Ghost<Terms>,
    Ghost(firsts): Ghost<Seq<int>>,
)
    requires
        sources@.len() == scores@.len(),
        best matches Some(k) ==> k < sources@.len(),
        tells(sources@, views(results@), t, firsts),
    ensures
        views(final(profiles)@) == (match best {
            Some(k) => views(old(profiles)@).push(
                recommendation_of(
                    id@,
                    role@,
                    views(results@)[firsts[k as int]],
                    scores@[k as int],
                    sources@[k as int].measurement_count,
                    *safety,
                ),
            ),
            None => views(old(profiles)@),
        }),
{
    let ghost before = views(profiles@);
    if let Some(k) = best {
        let source = &sources[k];
        proof {
            assert(sources@[k as int].run == firsts[k as int]);
        }
        let r = to_recommendation(
            id,
            role,
            &results[source.run],
            scores[k],
            source.measurement_count,
            safety,
        );
        profiles.push(r);
        proof {
            assert(views(profiles@) =~= before.push(r@));
        }
    }
}

/// The recommendations for a model, from its runs. For each measurement that
/// `measurement_sources` lists, `scores` holds the means of its values in the
/// middle, and the balance.
pub fn build_recommendations_for_model(
    model_path: &str,
    model_identity: Option<&ModelIdentity>,
    results: &Vec<ProfileResult>,
    scores: &Vec<Score>,
    safety: &SafetyLimits,
    current_environment: Option<&EnvironmentSnapshot>,
    now: Timestamp,
) -> (r: RecommendationFile)
    requires
        scores@.len() == leaders(
            views(results@),
            terms(model_identity, *safety, current_environment),
            views(results@).len(),
        ).len(),
    ensures
        r@ == recommended(
            model_path@,
            views(results@),
            terms(model_identity, *safety, current_environment),
            scores@,
            now,
        ),
{
    let ghost t = terms(model_identity, *safety, current_environment);
    let ghost runs = views(results@);
    let ghost firsts = leaders(runs, t, runs.len());
    let sources = measurement_sources(results, model_identity, safety, current_environment);
    let mut medians: Vec<Score> = Vec::new();
    for k in 0..sources.len()
        invariant
            sources@.len() == scores@.len(),
            medians@.len() == k,
            forall|j: int| 0 <= j < k ==> #[trigger] medians@[j] == score_of(sources@[j], scores@[j]),
    {
        medians.push(score_source(&sources[k], &scores[k]));
    }
    proof {
        assert forall|k: int| 0 <= k < sources@.len() implies #[trigger] medians@[k] == scored(
            runs,
            t,
            scores@,
        )[k] by {
            assert(sources@[k] == source_of(runs, t, firsts[k]));
        }
        assert(medians@ =~= scored(runs, t, scores@));
    }
    let mut profiles: Vec<Recommendation> = Vec::new();
    proof {
        reveal_with_fuel(profiles_of, 5);
        assert(views(profiles@) =~= profiles_of(runs, t, medians@, 0));
        assert forall|k: int| 0 <= k < sources@.len() implies (
        #[trigger] sources@[k]).measurement_count == support(runs, t, firsts[k]) as usize by {
            assert(sources@[k] == source_of(runs, t, firsts[k]));
        }
    }
    let fast = best_by(&sources, &medians, false, Criterion::Generation, Ghost(runs), Ghost(t), Ghost(firsts));
    push_role(
        &mut profiles,
        "interactive-fast",
        "Fastest observed generation throughput within safety limits",
        fast,
        results,
        &sources,
        &medians,
        safety,
        Ghost(t),
        Ghost(firsts),
    );
    proof {
        assert(views(profiles@) == profiles_of(runs, t, medians@, 1));
    }
    let roomy = best_by(&sources, &medians, true, Criterion::Generation, Ghost(runs), Ghost(t), Ghost(firsts));
    push_role(
        &mut profiles,
        "interactive-safe",
        "Fastest observed generation throughput with at least 1 GiB free VRAM",
        roomy,
        results,
        &sources,
        &medians,
        safety,
        Ghost(t),
        Ghost(firsts),
    );
    proof {
        assert(views(profiles@) == profiles_of(runs, t, medians@, 2));
    }
    let prompt = best_by(&sources, &medians, false, Criterion::Prompt, Ghost(runs), Ghost(t), Ghost(firsts));
    push_role(
        &mut profiles,
        "prompt-replay",
        "Fastest observed prompt ingest throughput within safety limits",
        prompt,
        results,
        &sources,
        &medians,
        safety,
        Ghost(t),
        Ghost(firsts),
    );
    proof {
        assert(views(profiles@) == profiles_of(runs, t, medians@, 3));
    }
    let balanced = best_by(&sources, &medians, false, Criterion::Balanced, Ghost(runs), Ghost(t), Ghost(firsts));
    push_role(
        &mut profiles,
        "balanced",
        "Best observed balance of prompt and output throughput",
        balanced,
        results,
        &sources,
        &medians,
        safety,
        Ghost(t),
        Ghost(firsts),
    );
    proof {
        assert(views(profiles@) == profiles_of(runs, t, medians@, 4));
    }
    let next_suggested_test = if profiles.len() == 0 {
        Some("Run `tune --preset quick` with a lower --ctx or safer MoE CPU offload.".to_string())
    } else if !has_fullctx(results) {
        Some(
            "If near-native context matters, run explicit `fullctx` for the chosen profile.".to_string(),
        )
    } else {
        None
    };
    RecommendationFile {
        schema_version: SCHEMA_VERSION,
        generated_at: now,
        model_path: model_path.to_string(),
        model_identity: match model_identity {
            Some(id) => Some(id.duplicate()),
            None => None,
        },
        profiles,
        rejected: reject(results, model_identity, safety, current_environment),
        stale: stale_runs(results, model_identity, safety, current_environment),
        environment: match current_environment {
            Some(e) => Some(e.duplicate()),
            None => None,
        },
        environment_valid: current_environment.is_some(),
        coverage: None,
        next_suggested_test,
    }
}

/// Recommendations for the model at a path, from all runs on record. Where the
/// file there cannot be read it has no identity, and runs of any model count.
pub fn build_recommendations(
    model_path: &str,
    model_identity: &Option<ModelIdentity>,
    results: &Vec<ProfileResult>,
    scores: &Vec<Score>,
    safety: &SafetyLimits,
    current_environment: Option<&EnvironmentSnapshot>,
    now: Timestamp,
) -> (r: RecommendationFile)
    requires
        scores@.len() == leaders(
            views(results@),
            (Terms {
                identity: opt_view(*model_identity),
                ..terms(None, *safety, current_environment)
            }),
            views(results@).len(),
        ).len(),
    ensures
        r@ == recommended(
            model_path@,
            views(results@),
            (Terms {
                identity: opt_view(*model_identity),
                ..terms(None, *safety, current_environment)
            }),
            scores@,
            now,
        ),
{
    let identity = match model_identity {
        Some(id) => Some(id),
        None => None,
    };
    build_recommendations_for_model(
        model_path,
        identity,
        results,
        scores,
        safety,
        current_environment,
        now,
    )
}

// ---------------------------------------------------------------------------
// Laws of recommendations

/// Every run is a possible source, rejected, or stale, or else an observed
/// thread pair that was not accepted; and it is only one of these.
pub proof fn runs_are_sorted_out(r: ResultView, t: Terms)
    ensures
        eligible(r, t) || rejected(r, t) || stale(r, t) || r.test_kind
            == "thread-refinement-observation"@,
        !(eligible(r, t) && rejected(r, t)),
        !(eligible(r, t) && stale(r, t)),
        !(rejected(r, t) && stale(r, t)),
{
}

proof fn leaders_are_chosen(runs: Seq<ResultView>, t: Terms, n: nat)
    requires
        n <= runs.len(),
    ensures
        forall|k: int|
            0 <= k < leaders(runs, t, n).len() ==> 0 <= #[trigger] leaders(runs, t, n)[k] < n
                && part_of(runs, t, leaders(runs, t, n)[k], leaders(runs, t, n)[k]),
        forall|i: int|
            0 <= i < n && #[trigger] part_of(runs, t, i, i) ==> leaders(runs, t, n).contains(i),
    decreases n,
{
    if n > 0 {
        leaders_are_chosen(runs, t, (n - 1) as nat);
        let before = leaders(runs, t, (n - 1) as nat);
        let all = leaders(runs, t, n);
        assert forall|k: int| 0 <= k < all.len() implies 0 <= #[trigger] all[k] < n && part_of(
            runs,
            t,
            all[k],
            all[k],
        ) by {
            if k < before.len() {
                assert(all[k] == before[k]);
            }
        }
        assert forall|i: int| 0 <= i < n && #[trigger] part_of(runs, t, i, i) implies all.contains(
            i,
        ) by {
            if i < n - 1 {
                let k = choose|k: int| 0 <= k < before.len() && before[k] == i;
                assert(all[k] == i);
            } else {
                assert(all[all.len() - 1] == i);
            }
        }
    }
}

proof fn considered_facts(
    runs: Seq<ResultView>,
    t: Terms,
    firsts: Seq<int>,
    only_roomy: bool,
    n: nat,
)
    requires
        n <= firsts.len(),
    ensures
        forall|j: int|
            0 <= j < considered(runs, t, firsts, only_roomy, n).len() ==> 0 <= #[trigger] considered(
                runs,
                t,
                firsts,
                only_roomy,
                n,
            )[j] < n && (only_roomy ==> all_roomy(
                runs,
                t,
                firsts[considered(runs, t, firsts, only_roomy, n)[j]],
            )),
        forall|k: int|
            0 <= k < n && #[trigger] admitted(runs, t, firsts[k], only_roomy) ==> considered(
                runs,
                t,
                firsts,
                only_roomy,
                n,
            ).contains(k),
    decreases n,
{
    if n > 0 {
        considered_facts(runs, t, firsts, only_roomy, (n - 1) as nat);
        let before = considered(runs, t, firsts, only_roomy, (n - 1) as nat);
        let all = considered(runs, t, firsts, only_roomy, n);
        assert forall|j: int| 0 <= j < all.len() implies 0 <= #[trigger] all[j] < n && (only_roomy
            ==> all_roomy(runs, t, firsts[all[j]])) by {
            if j < before.len() {
                assert(all[j] == before[j]);
            }
        }
        assert forall|k: int|
            0 <= k < n && #[trigger] admitted(
                runs,
                t,
                firsts[k],
                only_roomy,
            ) implies all.contains(k) by {
            if k < n - 1 {
                let j = choose|j: int| 0 <= j < before.len() && before[j] == k;
                assert(all[j] == k);
            } else {
                assert(all[all.len() - 1] == k);
            }
        }
    }
}

proof fn best_of_facts(
    runs: Seq<ResultView>,
    t: Terms,
    firsts: Seq<int>,
    scores: Seq<Score>,
    only_roomy: bool,
    by: Criterion,
)
    ensures
        best_of(runs, t, firsts, scores, only_roomy, by) matches Some(k) ==> 0 <= k < firsts.len()
            && (only_roomy ==> all_roomy(runs, t, firsts[k])),
{
    considered_facts(runs, t, firsts, only_roomy, firsts.len());
    let positions = considered(runs, t, firsts, only_roomy, firsts.len());
    if positions.len() > 0 {
        crate::measure::last_best_is_greatest(considered_scores(positions, scores, by));
        let b = last_best(considered_scores(positions, scores, by));
        assert(0 <= positions[b] < firsts.len());
    }
}

/// Run `i` is the source of profile `p`.
pub open spec fn sourced_from(
    runs: Seq<ResultView>,
    t: Terms,
    p: RecommendationView,
    i: int,
) -> bool {
    &&& 0 <= i < runs.len()
    &&& chosen(runs, t, i)
    &&& p.source_run_id == runs[i].run_id
    &&& p.source_test_kind == runs[i].test_kind
    &&& p.headroom_mib == runs[i].metrics.min_free_vram_mib
    &&& p.risk == risk_text(runs[i].metrics, t.safety)
}

proof fn profiles_have_sources(
    runs: Seq<ResultView>,
    t: Terms,
    scores: Seq<Score>,
    n: nat,
    j: int,
)
    requires
        n <= 4,
        0 <= j < profiles_of(runs, t, scores, n).len(),
    ensures
        exists|i: int| #[trigger] sourced_from(runs, t, profiles_of(runs, t, scores, n)[j], i),
        profiles_of(runs, t, scores, n)[j].id == "interactive-safe"@ ==> (profiles_of(
            runs,
            t,
            scores,
            n,
        )[j].headroom_mib matches Some(free) && free >= 1024),
    decreases n,
{
    let all = profiles_of(runs, t, scores, n);
    let before = profiles_of(runs, t, scores, (n - 1) as nat);
    if j < before.len() {
        profiles_have_sources(runs, t, scores, (n - 1) as nat, j);
        assert(all[j] == before[j]);
    } else {
        let role = roles()[n - 1];
        let firsts = leaders(runs, t, runs.len());
        best_of_facts(runs, t, firsts, scores, role.only_roomy, role.by);
        leaders_are_chosen(runs, t, runs.len());
        let k = best_of(runs, t, firsts, scores, role.only_roomy, role.by)->0;
        assert(0 <= firsts[k] < runs.len());
        assert(sourced_from(runs, t, all[j], firsts[k]));
        role_names();
        if role.id == "interactive-safe"@ {
            assert(roles()[1].id == role.id);
            if n - 1 > 1 {
                assert(roles()[1].id != roles()[n - 1].id);
            } else if n - 1 < 1 {
                assert(roles()[n - 1].id != roles()[1].id);
            }
            assert(role.only_roomy);
            assert(part_of(runs, t, firsts[k], firsts[k]));
        }
    }
}

/// Stale, legacy, unsafe and failed runs are never recommended: the source of
/// every profile is a usable run within the limits, of this model, in this
/// environment.
pub proof fn only_eligible_runs_are_recommended(
    model_path: Seq<char>,
    runs: Seq<ResultView>,
    t: Terms,
    scores: Seq<Score>,
    now: Timestamp,
    j: int,
)
    requires
        0 <= j < recommended(model_path, runs, t, scores, now).profiles.len(),
    ensures
        exists|i: int|
            0 <= i < runs.len() && eligible(#[trigger] runs[i], t) && !stale(runs[i], t)
                && !rejected(runs[i], t) && recommended(
                model_path,
                runs,
                t,
                scores,
                now,
            ).profiles[j].source_run_id == runs[i].run_id,
{
    profiles_have_sources(runs, t, scored(runs, t, scores), 4, j);
    let p = profiles_of(runs, t, scored(runs, t, scores), 4)[j];
    let i = choose|i: int| #[trigger] sourced_from(runs, t, p, i);
    assert(eligible(runs[i], t));
}

/// A profile repeats its run, one that can be recommended: the command word by
/// word, how it is shown, the context, the model, and everything else that was
/// measured or noted, but for the throughput, which may be that of several runs.
pub proof fn profiles_repeat_their_run(
    model_path: Seq<char>,
    runs: Seq<ResultView>,
    t: Terms,
    scores: Seq<Score>,
    now: Timestamp,
    j: int,
) -> (i: int)
    requires
        0 <= j < recommended(model_path, runs, t, scores, now).profiles.len(),
    ensures
        0 <= i < runs.len(),
        eligible(runs[i], t),
        ({
            let p = recommended(model_path, runs, t, scores, now).profiles[j];
            let r = runs[i];
            &&& p.command.len() == r.command.len()
            &&& forall|k: int| 0 <= k < p.command.len() ==> #[trigger] p.command[k] == r.command[k]
            &&& p.environment_valid == (r.environment is Some && r.compatibility
                == Compatibility::Current)
            &&& p.command_display == r.command_display
            &&& p.source_run_id == r.run_id
            &&& p.source_candidate_id == r.candidate.id
            &&& p.source_test_kind == r.test_kind
            &&& p.model_identity == r.model_identity
            &&& p.requested_context == r.requested_context
            &&& p.validated_prompt_tokens == r.prompt_tokens
            &&& p.validation_level == r.validation_level
            &&& p.compatibility == r.compatibility
            &&& p.telemetry_status == r.telemetry_status
            &&& p.ttft_ms == r.metrics.client_ttft_ms
            &&& p.peak_vram_mib == r.metrics.peak_vram_mib
            &&& p.headroom_mib == r.metrics.min_free_vram_mib
            &&& p.note == r.note
            &&& p.realistic_validation == r.realistic_validation
            &&& p.stale_reason is None
        }),
{
    run_of_profile(runs, t, scored(runs, t, scores), 4, j)
}

/// The profile holds what the run does.
spec fn repeats(p: RecommendationView, r: ResultView) -> bool {
    &&& p.command == r.command
    &&& p.environment_valid == (r.environment is Some && r.compatibility == Compatibility::Current)
    &&& p.command_display == r.command_display
    &&& p.source_run_id == r.run_id
    &&& p.source_candidate_id == r.candidate.id
    &&& p.source_test_kind == r.test_kind
    &&& p.model_identity == r.model_identity
    &&& p.requested_context == r.requested_context
    &&& p.validated_prompt_tokens == r.prompt_tokens
    &&& p.validation_level == r.validation_level
    &&& p.compatibility == r.compatibility
    &&& p.telemetry_status == r.telemetry_status
    &&& p.ttft_ms == r.metrics.client_ttft_ms
    &&& p.peak_vram_mib == r.metrics.peak_vram_mib
    &&& p.headroom_mib == r.metrics.min_free_vram_mib
    &&& p.note == r.note
    &&& p.realistic_validation == r.realistic_validation
    &&& p.stale_reason is None
}

proof fn run_of_profile(
    runs: Seq<ResultView>,
    t: Terms,
    scores: Seq<Score>,
    n: nat,
    j: int,
) -> (i: int)
    requires
        n <= 4,
        0 <= j < profiles_of(runs, t, scores, n).len(),
    ensures
        0 <= i < runs.len(),
        chosen(runs, t, i),
        repeats(profiles_of(runs, t, scores, n)[j], runs[i]),
    decreases n,
{
    let all = profiles_of(runs, t, scores, n);
    let before = profiles_of(runs, t, scores, (n - 1) as nat);
    if j < before.len() {
        assert(all[j] == before[j]);
        run_of_profile(runs, t, scores, (n - 1) as nat, j)
    } else {
        let role = roles()[n - 1];
        let firsts = leaders(runs, t, runs.len());
        best_of_facts(runs, t, firsts, scores, role.only_roomy, role.by);
        leaders_are_chosen(runs, t, runs.len());
        let k = best_of(runs, t, firsts, scores, role.only_roomy, role.by)->0;
        firsts[k]
    }
}

/// What a run has to be to give a recommendation: it completed, it kept the
/// memory and swap that the limits ask for as far as they were measured, its
/// server and its machine are the current ones, its model is the one that is
/// asked for, and it is no mere observation of threads.
pub proof fn recommended_runs_are_sound(r: ResultView, t: Terms)
    requires
        t.safety.max_swap_delta_mib <= i64::MAX,
    ensures
        eligible(r, t) ==> {
            &&& r.outcome == Outcome::Pass || r.outcome == Outcome::ParsePartial
            &&& r.metrics.min_free_vram_mib matches Some(free) ==> free
                >= t.safety.min_vram_free_mib
            &&& r.metrics.swap_delta_mib matches Some(delta) ==> delta
                <= t.safety.max_swap_delta_mib
            &&& t.environment is Some ==> r.environment is Some
            &&& t.environment is Some ==> r.environment->0.llama_server.help_hash
                == t.environment->0.llama_server.help_hash
            &&& t.environment is Some ==> r.environment->0.gpus == t.environment->0.gpus
            &&& t.environment is None ==> r.compatibility == Compatibility::Current
            &&& t.identity is Some ==> r.model_identity is Some
            &&& t.identity is Some ==> r.model_identity->0.metadata_hash
                == t.identity->0.metadata_hash
            &&& t.identity is Some ==> r.model_identity->0.file_size_bytes
                == t.identity->0.file_size_bytes
            &&& r.test_kind != "thread-refinement-observation"@
        },
        (r.outcome == Outcome::Pass || r.outcome == Outcome::ParsePartial) && (
        r.metrics.min_free_vram_mib is None || r.metrics.min_free_vram_mib->0
            >= t.safety.min_vram_free_mib) && (r.metrics.swap_delta_mib is None
            || r.metrics.swap_delta_mib->0 <= t.safety.max_swap_delta_mib) && t.environment is None
            && r.compatibility == Compatibility::Current && t.identity is None && r.test_kind
            != "thread-refinement-observation"@ ==> eligible(r, t),
{
}

/// The risk of a profile: unknown without measured memory, high beyond the
/// limits, low with at least 1 GiB free and no swap taken, and medium between.
pub proof fn risks_are_told(m: RunMetrics, safety: SafetyLimits)
    requires
        safety.max_swap_delta_mib <= i64::MAX,
    ensures
        m.min_free_vram_mib is None ==> risk_text(m, safety) == "unknown"@,
        m.min_free_vram_mib is Some && m.min_free_vram_mib->0 < safety.min_vram_free_mib
            ==> risk_text(m, safety) == "high"@,
        m.min_free_vram_mib is Some && m.swap_delta_mib is Some && m.swap_delta_mib->0
            > safety.max_swap_delta_mib ==> risk_text(m, safety) == "high"@,
        m.min_free_vram_mib is Some && m.min_free_vram_mib->0 >= safety.min_vram_free_mib
            && m.min_free_vram_mib->0 >= 1024 && (m.swap_delta_mib is None || m.swap_delta_mib->0
            <= 0) ==> risk_text(m, safety) == "low"@,
        m.min_free_vram_mib is Some && safety.min_vram_free_mib <= m.min_free_vram_mib->0 < 1024
            && (m.swap_delta_mib is None || m.swap_delta_mib->0 <= safety.max_swap_delta_mib)
            ==> risk_text(m, safety) == "medium"@,
        m.min_free_vram_mib is Some && m.min_free_vram_mib->0 >= safety.min_vram_free_mib
            && m.swap_delta_mib is Some && 0 < m.swap_delta_mib->0 <= safety.max_swap_delta_mib
            ==> risk_text(m, safety) == "medium"@,
{
}

/// The evidence of a profile: a full context counts most, a repeated measurement
/// comes next, and a long prompt in a broad search after that.
pub proof fn evidence_is_told(level: ValidationLevel, count: usize, broad: bool)
    ensures
        level == ValidationLevel::Fullctx ==> confidence_text(level, count, broad)
            == "full-context-validated"@,
        level != ValidationLevel::Fullctx && count >= 2 ==> confidence_text(level, count, broad)
            == "confirmed"@,
        (level == ValidationLevel::StandardIngest || level == ValidationLevel::Realistic) && count
            < 2 && broad ==> confidence_text(level, count, broad) == "benchmarked"@,
        (level == ValidationLevel::StandardIngest || level == ValidationLevel::Realistic) && count
            < 2 && !broad ==> confidence_text(level, count, broad) == "provisional"@,
        level == ValidationLevel::Smoke && count < 2 ==> confidence_text(level, count, broad)
            == "provisional"@,
{
}

/// A rejection says why: the memory that was free and that the limits ask for,
/// or the swap that was taken and that they allow, or the outcome.
pub proof fn rejections_say_why(r: ResultView, safety: SafetyLimits)
    ensures
        r.outcome != Outcome::Pass && r.outcome != Outcome::ParsePartial ==> text::starts_with(
            rejection_text(r, safety),
            outcome_name(r.outcome),
        ),
        (r.outcome == Outcome::Pass || r.outcome == Outcome::ParsePartial)
            && r.metrics.min_free_vram_mib is Some && r.metrics.min_free_vram_mib->0
            < safety.min_vram_free_mib ==> rejection_text(r, safety) == "VRAM headroom "@
            + text::decimal(r.metrics.min_free_vram_mib->0 as nat) + " MiB is below "@
            + text::decimal(safety.min_vram_free_mib as nat) + " MiB"@,
        (r.outcome == Outcome::Pass || r.outcome == Outcome::ParsePartial)
            && !vram_short(r.metrics, safety) && r.metrics.swap_delta_mib is Some
            && safety.max_swap_delta_mib <= i64::MAX && r.metrics.swap_delta_mib->0
            > safety.max_swap_delta_mib ==> rejection_text(r, safety) == "swap delta "@
            + text::signed_decimal(r.metrics.swap_delta_mib->0 as int) + " MiB exceeds "@
            + text::decimal(safety.max_swap_delta_mib as nat) + " MiB"@,
{
    let name = outcome_name(r.outcome);
    let t = rejection_text(r, safety);
    if !usable(r.outcome) {
        assert(t.take(name.len() as int) =~= name);
    }
}

/// A profile for which video memory was not measured has unknown risk, and is
/// not `interactive-safe`.
pub proof fn unmeasured_memory_is_never_safe(
    model_path: Seq<char>,
    runs: Seq<ResultView>,
    t: Terms,
    scores: Seq<Score>,
    now: Timestamp,
    j: int,
)
    requires
        0 <= j < recommended(model_path, runs, t, scores, now).profiles.len(),
        recommended(model_path, runs, t, scores, now).profiles[j].headroom_mib is None,
    ensures
        recommended(model_path, runs, t, scores, now).profiles[j].risk == "unknown"@,
        recommended(model_path, runs, t, scores, now).profiles[j].id != "interactive-safe"@,
{
    profiles_have_sources(runs, t, scored(runs, t, scores), 4, j);
    let p = profiles_of(runs, t, scored(runs, t, scores), 4)[j];
    let i = choose|i: int| #[trigger] sourced_from(runs, t, p, i);
}

/// An `interactive-safe` profile had at least 1 GiB of video memory free.
pub proof fn safe_profiles_have_headroom(
    model_path: Seq<char>,
    runs: Seq<ResultView>,
    t: Terms,
    scores: Seq<Score>,
    now: Timestamp,
    j: int,
)
    requires
        0 <= j < recommended(model_path, runs, t, scores, now).profiles.len(),
        recommended(model_path, runs, t, scores, now).profiles[j].id == "interactive-safe"@,
    ensures
        recommended(model_path, runs, t, scores, now).profiles[j].headroom_mib matches Some(free)
            && free >= 1024,
{
    profiles_have_sources(runs, t, scored(runs, t, scores), 4, j);
}

/// Once a final-stage validation passed, every recommendation comes from such
/// a run.
pub proof fn validated_runs_supersede_the_others(
    model_path: Seq<char>,
    runs: Seq<ResultView>,
    t: Terms,
    scores: Seq<Score>,
    now: Timestamp,
    j: int,
)
    requires
        validated(runs, t),
        0 <= j < recommended(model_path, runs, t, scores, now).profiles.len(),
    ensures
        recommended(model_path, runs, t, scores, now).profiles[j].source_test_kind
            == "realistic-validation"@,
{
    profiles_have_sources(runs, t, scored(runs, t, scores), 4, j);
    let p = profiles_of(runs, t, scored(runs, t, scores), 4)[j];
    let i = choose|i: int| #[trigger] sourced_from(runs, t, p, i);
}

/// A measurement is picked as soon as one is considered, and none that is
/// considered beats the one that is picked, where every score is a number.
pub proof fn the_best_is_picked(
    runs: Seq<ResultView>,
    t: Terms,
    firsts: Seq<int>,
    scores: Seq<Score>,
    only_roomy: bool,
    by: Criterion,
    k: int,
)
    requires
        scores.len() == firsts.len(),
        0 <= k < firsts.len(),
        admitted(runs, t, firsts[k], only_roomy),
        forall|i: int| 0 <= i < scores.len() ==> !(#[trigger] score_by(scores[i], by)).nan(),
    ensures
        best_of(runs, t, firsts, scores, only_roomy, by) matches Some(b) && 0 <= b < scores.len()
            && !score_by(scores[b], by).less(score_by(scores[k], by)),
{
    considered_facts(runs, t, firsts, only_roomy, firsts.len());
    let positions = considered(runs, t, firsts, only_roomy, firsts.len());
    let values = considered_scores(positions, scores, by);
    assert(admitted(runs, t, firsts[k], only_roomy));
    let j = choose|j: int| 0 <= j < positions.len() && positions[j] == k;
    assert forall|i: int| 0 <= i < values.len() implies !(#[trigger] values[i]).nan() && values[i]
        == score_by(scores[positions[i]], by) by {
        assert(0 <= positions[i] < firsts.len());
    }
    crate::measure::last_best_is_greatest(values);
    let b = last_best(values);
    assert(0 <= positions[b] < firsts.len());
    assert(!values[b].less(values[j]));
}

/// Only a run that confirms another joins a measurement: of two possible
/// sources that are part of one measurement, at least one confirms, and both
/// have the same candidate. Two runs of a search never join.
pub proof fn only_confirmations_join(runs: Seq<ResultView>, t: Terms, i: int, j: int)
    requires
        0 <= i < runs.len(),
        0 <= j < runs.len(),
        i != j,
        eligible(runs[i], t),
        eligible(runs[j], t),
        lead_of(runs, t, i) == lead_of(runs, t, j),
    ensures
        confirming(runs[i]) || confirming(runs[j]),
        runs[i].candidate == runs[j].candidate,
        !(searching(runs[i]) && searching(runs[j])),
{
    last_search_bound(runs, t, runs[i].candidate, i as nat);
    last_search_bound(runs, t, runs[j].candidate, j as nat);
    first_confirmation_bound(runs, t, runs[i].candidate, i as nat);
    first_confirmation_bound(runs, t, runs[j].candidate, j as nat);
    reveal_strlit("tune");
    reveal_strlit("confirmation");
    assert("tune"@.len() != "confirmation"@.len());
}

/// A run that confirms joins the last run of the search before it with the
/// same candidate, where that is a possible source.
pub proof fn confirmations_join_what_they_repeat(
    runs: Seq<ResultView>,
    t: Terms,
    i: int,
    j: int,
)
    requires
        0 <= i < j < runs.len(),
        eligible(runs[i], t),
        searching(runs[i]),
        confirming(runs[j]),
        runs[i].candidate == runs[j].candidate,
        forall|k: int| i < k < j ==> !searching(#[trigger] runs[k]),
    ensures
        lead_of(runs, t, j) == i,
        lead_of(runs, t, i) == i,
{
    last_search_reaches(runs, t, i, j as nat);
    reveal_strlit("tune");
    reveal_strlit("confirmation");
    assert("tune"@.len() != "confirmation"@.len());
}

proof fn last_search_reaches(runs: Seq<ResultView>, t: Terms, i: int, n: nat)
    requires
        0 <= i < n <= runs.len(),
        eligible(runs[i], t),
        searching(runs[i]),
        forall|k: int| i < k < n ==> !searching(#[trigger] runs[k]),
    ensures
        last_search(runs, t, runs[i].candidate, n) == Some(i),
    decreases n,
{
    if i < n - 1 {
        last_search_reaches(runs, t, i, (n - 1) as nat);
    }
}

proof fn no_search_before(runs: Seq<ResultView>, t: Terms, c: CandidateView, m: nat, n: nat)
    requires
        m <= n,
        last_search(runs, t, c, n) is None,
    ensures
        last_search(runs, t, c, m) is None,
    decreases n,
{
    if m < n {
        no_search_before(runs, t, c, m, (n - 1) as nat);
    }
}

proof fn no_confirmation_before(runs: Seq<ResultView>, t: Terms, c: CandidateView, n: nat)
    ensures
        first_confirmation(runs, t, c, n) matches Some(j) ==> first_confirmation(
            runs,
            t,
            c,
            j as nat,
        ) is None,
    decreases n,
{
    if n > 0 {
        no_confirmation_before(runs, t, c, (n - 1) as nat);
    }
}

/// Every source is part of a measurement: the first run of it is a source, is
/// not behind the run, and leads its own measurement.
pub proof fn every_source_counts(runs: Seq<ResultView>, t: Terms, i: int)
    requires
        0 <= i < runs.len(),
        chosen(runs, t, i),
    ensures
        0 <= lead_of(runs, t, i) <= i,
        part_of(runs, t, lead_of(runs, t, i), lead_of(runs, t, i)),
        leaders(runs, t, runs.len()).contains(lead_of(runs, t, i)),
{
    let c = runs[i].candidate;
    let j = lead_of(runs, t, i);
    last_search_bound(runs, t, c, i as nat);
    first_confirmation_bound(runs, t, c, i as nat);
    reveal_strlit("tune");
    reveal_strlit("confirmation");
    reveal_strlit("realistic-validation");
    assert("tune"@.len() != "confirmation"@.len());
    assert("realistic-validation"@.len() != "confirmation"@.len());
    if last_search(runs, t, c, i as nat) is None {
        no_confirmation_before(runs, t, c, i as nat);
        if j < i {
            no_search_before(runs, t, c, j as nat, i as nat);
        }
    }
    assert(part_of(runs, t, j, j));
    leaders_are_chosen(runs, t, runs.len());
}

/// No run repeats another one to confirm it.
pub open spec fn unconfirmed(runs: Seq<ResultView>) -> bool {
    forall|i: int| 0 <= i < runs.len() ==> !confirming(#[trigger] runs[i])
}

proof fn own_values(runs: Seq<ResultView>, t: Terms, i: int, prompt: bool, n: nat)
    requires
        unconfirmed(runs),
        0 <= i < runs.len(),
        chosen(runs, t, i),
        n <= runs.len(),
    ensures
        measured_values(runs, t, i, prompt, n) == (if n <= i {
            seq![]
        } else {
            match throughput(runs[i].metrics, prompt) {
                Some(x) => seq![x],
                None => seq![],
            }
        }),
    decreases n,
{
    if n > 0 {
        own_values(runs, t, i, prompt, (n - 1) as nat);
        assert(!confirming(runs[n - 1]));
        assert(part_of(runs, t, i, n - 1) == (n - 1 == i));
        let before = measured_values(runs, t, i, prompt, (n - 1) as nat);
        if n - 1 == i {
            assert(before =~= seq![]);
        }
    }
}

proof fn own_measurements(runs: Seq<ResultView>, t: Terms, leader: int, n: nat)
    requires
        unconfirmed(runs),
        n <= runs.len(),
    ensures
        measurements(runs, t, leader, n) <= 1,
        n <= leader ==> measurements(runs, t, leader, n) == 0,
    decreases n,
{
    if n > 0 {
        own_measurements(runs, t, leader, (n - 1) as nat);
        assert(!confirming(runs[n - 1]));
    }
}

proof fn middle_of_one(x: Real)
    ensures
        middle(seq![x]) == Some((x, x)),
        middle(Seq::<Real>::empty()) is None,
{
    let none = Seq::<Real>::empty();
    assert(seq![x].drop_last() =~= none);
    assert(ascending(none) =~= none);
    assert(ascending(seq![x]) =~= seq![x]);
}

/// Where no run confirms another, every source is a measurement of its own:
/// its throughput is what it measured itself, whatever mean is given, its
/// memory is its own, and it counts once.
pub proof fn unconfirmed_runs_stand_alone(
    runs: Seq<ResultView>,
    t: Terms,
    i: int,
    given: Score,
)
    requires
        unconfirmed(runs),
        0 <= i < runs.len(),
        chosen(runs, t, i),
    ensures
        leaders(runs, t, runs.len()).contains(i),
        score_of(source_of(runs, t, i), given).generation == throughput(runs[i].metrics, false),
        score_of(source_of(runs, t, i), given).prompt == throughput(runs[i].metrics, true),
        all_roomy(runs, t, i) == roomy(runs[i]),
        support(runs, t, i) == 1,
{
    assert(part_of(runs, t, i, i));
    leaders_are_chosen(runs, t, runs.len());
    own_values(runs, t, i, false, runs.len());
    own_values(runs, t, i, true, runs.len());
    middle_of_one(Real { bits: 0 });
    if let Some(x) = throughput(runs[i].metrics, false) {
        middle_of_one(x);
    }
    if let Some(x) = throughput(runs[i].metrics, true) {
        middle_of_one(x);
    }
    assert forall|k: int| 0 <= k < runs.len() && #[trigger] part_of(runs, t, i, k) implies k == i by {
        assert(!confirming(runs[k]));
    }
    own_measurements(runs, t, lead_of(runs, t, supporting_run(runs, i)), runs.len());
}

proof fn role_names()
    ensures
        forall|a: int, b: int|
            0 <= a < b < 4 ==> (#[trigger] roles()[a]).id != (#[trigger] roles()[b]).id,
{
    reveal_strlit("interactive-fast");
    reveal_strlit("interactive-safe");
    reveal_strlit("prompt-replay");
    reveal_strlit("balanced");
    assert("interactive-fast"@[12] != "interactive-safe"@[12]);
    assert("prompt-replay"@.len() != "interactive-safe"@.len());
    assert("balanced"@.len() != "interactive-safe"@.len());
    assert("balanced"@.len() != "prompt-replay"@.len());
    assert forall|a: int, b: int| 0 <= a < b < 4 implies (#[trigger] roles()[a]).id != (
    #[trigger] roles()[b]).id by {
        assert(a == 0 || a == 1 || a == 2);
        assert(b == 1 || b == 2 || b == 3);
    }
}

/// The profile is the one for a role.
spec fn plays(
    runs: Seq<ResultView>,
    t: Terms,
    scores: Seq<Score>,
    p: RecommendationView,
    m: int,
) -> bool {
    profile_for(runs, t, scores, roles()[m]) == Some(p)
}

proof fn role_played(runs: Seq<ResultView>, t: Terms, scores: Seq<Score>, n: nat, j: int) -> (m:
    int)
    requires
        n <= 4,
        0 <= j < profiles_of(runs, t, scores, n).len(),
    ensures
        0 <= m < n,
        plays(runs, t, scores, profiles_of(runs, t, scores, n)[j], m),
    decreases n,
{
    let before = profiles_of(runs, t, scores, (n - 1) as nat);
    if j < before.len() {
        role_played(runs, t, scores, (n - 1) as nat, j)
    } else {
        n - 1
    }
}

proof fn role_is_held(runs: Seq<ResultView>, t: Terms, scores: Seq<Score>, n: nat, m: int)
    requires
        0 <= m < n <= 4,
        profile_for(runs, t, scores, roles()[m]) is Some,
    ensures
        profiles_of(runs, t, scores, n).contains(profile_for(runs, t, scores, roles()[m])->0),
    decreases n,
{
    let p = profile_for(runs, t, scores, roles()[m])->0;
    let before = profiles_of(runs, t, scores, (n - 1) as nat);
    let all = profiles_of(runs, t, scores, n);
    if m < n - 1 {
        role_is_held(runs, t, scores, (n - 1) as nat, m);
        let j = choose|j: int| 0 <= j < before.len() && before[j] == p;
        assert(all[j] == p);
    } else {
        assert(all[all.len() - 1] == p);
    }
}

proof fn ids_differ(runs: Seq<ResultView>, t: Terms, scores: Seq<Score>, n: nat, a: int, b: int)
    requires
        n <= 4,
        0 <= a < b < profiles_of(runs, t, scores, n).len(),
    ensures
        profiles_of(runs, t, scores, n)[a].id != profiles_of(runs, t, scores, n)[b].id,
    decreases n,
{
    let before = profiles_of(runs, t, scores, (n - 1) as nat);
    let all = profiles_of(runs, t, scores, n);
    assert(all[a] == before[a]);
    if b < before.len() {
        ids_differ(runs, t, scores, (n - 1) as nat, a, b);
        assert(all[b] == before[b]);
    } else {
        role_names();
        let m = role_played(runs, t, scores, (n - 1) as nat, a);
        assert(all[a].id == roles()[m].id);
        assert(all[b].id == roles()[n - 1].id);
    }
}

/// No two profiles have the same id.
pub proof fn profile_ids_are_distinct(
    model_path: Seq<char>,
    runs: Seq<ResultView>,
    t: Terms,
    scores: Seq<Score>,
    now: Timestamp,
    a: int,
    b: int,
)
    requires
        0 <= a < b < recommended(model_path, runs, t, scores, now).profiles.len(),
    ensures
        recommended(model_path, runs, t, scores, now).profiles[a].id != recommended(
            model_path,
            runs,
            t,
            scores,
            now,
        ).profiles[b].id,
{
    ids_differ(runs, t, scored(runs, t, scores), 4, a, b);
}

/// There is a profile for a role exactly where some measurement is considered
/// for it. For a role that is not bound to free video memory, that is where
/// there is any source.
pub proof fn roles_are_filled(
    model_path: Seq<char>,
    runs: Seq<ResultView>,
    t: Terms,
    scores: Seq<Score>,
    now: Timestamp,
    n: int,
)
    requires
        0 <= n < 4,
    ensures
        ({
            let role = roles()[n];
            let firsts = leaders(runs, t, runs.len());
            let profiles = recommended(model_path, runs, t, scores, now).profiles;
            let filled = exists|j: int|
                0 <= j < profiles.len() && (#[trigger] profiles[j]).id == role.id;
            &&& filled == (exists|k: int|
                0 <= k < firsts.len() && #[trigger] admitted(runs, t, firsts[k], role.only_roomy))
            &&& !role.only_roomy ==> filled == (exists|i: int|
                0 <= i < runs.len() && #[trigger] chosen(runs, t, i))
        }),
{
    let role = roles()[n];
    let firsts = leaders(runs, t, runs.len());
    let medians = scored(runs, t, scores);
    let profiles = recommended(model_path, runs, t, scores, now).profiles;
    let best = best_of(runs, t, firsts, medians, role.only_roomy, role.by);
    role_names();
    best_of_facts(runs, t, firsts, medians, role.only_roomy, role.by);
    considered_facts(runs, t, firsts, role.only_roomy, firsts.len());
    leaders_are_chosen(runs, t, runs.len());
    if exists|j: int| 0 <= j < profiles.len() && (#[trigger] profiles[j]).id == role.id {
        let j = choose|j: int| 0 <= j < profiles.len() && (#[trigger] profiles[j]).id == role.id;
        let m = role_played(runs, t, medians, 4, j);
        assert(profiles[j].id == roles()[m].id);
        if m < n {
            assert(roles()[m].id != roles()[n].id);
        } else if n < m {
            assert(roles()[n].id != roles()[m].id);
        }
        assert(best is Some);
        assert(admitted(runs, t, firsts[best->0], role.only_roomy));
        assert(part_of(runs, t, firsts[best->0], firsts[best->0]));
        assert(chosen(runs, t, firsts[best->0]));
    }
    if best is Some {
        role_is_held(runs, t, medians, 4, n);
        let p = profile_for(runs, t, medians, roles()[n])->0;
        let j = choose|j: int| 0 <= j < profiles.len() && profiles[j] == p;
        assert(profiles[j].id == role.id);
    }
    if !role.only_roomy && exists|i: int| 0 <= i < runs.len() && #[trigger] chosen(runs, t, i) {
        let i = choose|i: int| 0 <= i < runs.len() && #[trigger] chosen(runs, t, i);
        every_source_counts(runs, t, i);
        let k = choose|k: int| 0 <= k < firsts.len() && firsts[k] == lead_of(runs, t, i);
        assert(admitted(runs, t, firsts[k], role.only_roomy));
    }
}

/// The source `i` can play a role.
pub open spec fn suits(runs: Seq<ResultView>, t: Terms, role: Role, i: int) -> bool {
    chosen(runs, t, i) && (role.only_roomy ==> roomy(runs[i]))
}

/// What a run measured, by generation or else by prompt ingestion, 0 where it
/// measured nothing.
pub open spec fn observed(r: ResultView, prompt: bool) -> Real {
    match throughput(r.metrics, prompt) {
        Some(x) => x,
        None => Real { bits: 0 },
    }
}

/// Where no run confirms another, each profile goes to a run that was observed:
/// there is one exactly where some source suits its role, and of those its
/// source has the highest throughput of generation or, for `prompt-replay`, of
/// prompt ingestion. What the profile says is what that run measured.
pub proof fn the_fastest_run_is_recommended(
    model_path: Seq<char>,
    runs: Seq<ResultView>,
    t: Terms,
    scores: Seq<Score>,
    now: Timestamp,
    n: int,
)
    requires
        unconfirmed(runs),
        scores.len() == leaders(runs, t, runs.len()).len(),
        0 <= n < 3,
        forall|i: int|
            0 <= i < runs.len() && chosen(runs, t, i) ==> !observed(
                #[trigger] runs[i],
                roles()[n].by == Criterion::Prompt,
            ).nan(),
    ensures
        ({
            let role = roles()[n];
            let prompt = role.by == Criterion::Prompt;
            let profiles = recommended(model_path, runs, t, scores, now).profiles;
            &&& (exists|j: int| 0 <= j < profiles.len() && (#[trigger] profiles[j]).id == role.id)
                == (exists|i: int| 0 <= i < runs.len() && #[trigger] suits(runs, t, role, i))
            &&& forall|j: int|
                0 <= j < profiles.len() && (#[trigger] profiles[j]).id == role.id ==> exists|i: int|
                    {
                        &&& #[trigger] sourced_from(runs, t, profiles[j], i)
                        &&& suits(runs, t, role, i)
                        &&& profiles[j].output_toks_per_s == throughput(runs[i].metrics, false)
                        &&& profiles[j].prompt_toks_per_s == throughput(runs[i].metrics, true)
                        &&& forall|k: int|
                            0 <= k < runs.len() && #[trigger] suits(runs, t, role, k) ==> !observed(
                                runs[i],
                                prompt,
                            ).less(observed(runs[k], prompt))
                    }
        }),
{
    let role = roles()[n];
    let prompt = role.by == Criterion::Prompt;
    let medians = scored(runs, t, scores);
    let profiles = recommended(model_path, runs, t, scores, now).profiles;
    let firsts = leaders(runs, t, runs.len());
    leaders_are_chosen(runs, t, runs.len());
    role_names();
    let best = best_of(runs, t, firsts, medians, role.only_roomy, role.by);
    best_of_facts(runs, t, firsts, medians, role.only_roomy, role.by);
    assert forall|k: int| 0 <= k < firsts.len() implies chosen(runs, t, #[trigger] firsts[k])
        && medians[k].generation == throughput(runs[firsts[k]].metrics, false)
        && medians[k].prompt == throughput(runs[firsts[k]].metrics, true) && all_roomy(
        runs,
        t,
        firsts[k],
    ) == roomy(runs[firsts[k]]) && score_by(medians[k], role.by) == observed(
        runs[firsts[k]],
        prompt,
    ) by {
        assert(part_of(runs, t, firsts[k], firsts[k]));
        unconfirmed_runs_stand_alone(runs, t, firsts[k], scores[k]);
    }
    assert forall|k: int| 0 <= k < medians.len() implies !(#[trigger] score_by(
        medians[k],
        role.by,
    )).nan() by {
        assert(chosen(runs, t, firsts[k]));
        assert(!observed(runs[firsts[k]], prompt).nan());
    }
    assert forall|i: int| 0 <= i < runs.len() && #[trigger] suits(runs, t, role, i) implies {
        &&& best matches Some(b) && !observed(runs[firsts[b]], prompt).less(
            observed(runs[i], prompt),
        )
    } by {
        unconfirmed_runs_stand_alone(runs, t, i, Score {
            generation: None,
            prompt: None,
            balanced: Real { bits: 0 },
        });
        let k = choose|k: int| 0 <= k < firsts.len() && firsts[k] == i;
        assert(firsts[k] == i);
        assert(admitted(runs, t, firsts[k], role.only_roomy));
        the_best_is_picked(runs, t, firsts, medians, role.only_roomy, role.by, k);
        let b = best->0;
        assert(chosen(runs, t, firsts[b]));
    }
    assert forall|j: int| 0 <= j < profiles.len() && (#[trigger] profiles[j]).id == role.id implies
        exists|i: int|
        {
            &&& #[trigger] sourced_from(runs, t, profiles[j], i)
            &&& suits(runs, t, role, i)
            &&& profiles[j].output_toks_per_s == throughput(runs[i].metrics, false)
            &&& profiles[j].prompt_toks_per_s == throughput(runs[i].metrics, true)
            &&& forall|k: int|
                0 <= k < runs.len() && #[trigger] suits(runs, t, role, k) ==> !observed(
                    runs[i],
                    prompt,
                ).less(observed(runs[k], prompt))
        } by {
        let m = role_played(runs, t, medians, 4, j);
        assert(profiles[j].id == roles()[m].id);
        if m < n {
            assert(roles()[m].id != roles()[n].id);
        } else if n < m {
            assert(roles()[n].id != roles()[m].id);
        }
        let i = firsts[best->0];
        assert(chosen(runs, t, i));
        assert(sourced_from(runs, t, profiles[j], i));
    }
    if exists|i: int| 0 <= i < runs.len() && #[trigger] suits(runs, t, role, i) {
        let i = choose|i: int| 0 <= i < runs.len() && #[trigger] suits(runs, t, role, i);
        assert(best is Some);
        let p = profile_for(runs, t, medians, roles()[n])->0;
        role_is_held(runs, t, medians, 4, n);
        let j = choose|j: int| 0 <= j < profiles.len() && profiles[j] == p;
        assert(profiles[j].id == role.id);
    }
    if exists|j: int| 0 <= j < profiles.len() && (#[trigger] profiles[j]).id == role.id {
        let j = choose|j: int| 0 <= j < profiles.len() && (#[trigger] profiles[j]).id == role.id;
        let i = choose|i: int|
            {
                &&& #[trigger] sourced_from(runs, t, profiles[j], i)
                &&& suits(runs, t, role, i)
            };
        assert(suits(runs, t, role, i));
    }
}

/// A run of the asked-for model, in the current environment, that did not
/// complete or broke the limits is noted, with its id, its candidate and its
/// outcome.
pub proof fn bad_runs_are_noted(runs: Seq<ResultView>, t: Terms, n: nat, i: int) -> (k: int)
    requires
        0 <= i < n <= runs.len(),
        !stale(runs[i], t),
        (runs[i].outcome != Outcome::Pass && runs[i].outcome != Outcome::ParsePartial) || (
        runs[i].metrics.min_free_vram_mib is Some && runs[i].metrics.min_free_vram_mib->0
            < t.safety.min_vram_free_mib),
    ensures
        0 <= k < rejections(runs, t, n).len(),
        rejections(runs, t, n)[k].run_id == runs[i].run_id,
        rejections(runs, t, n)[k].candidate_id == runs[i].candidate.id,
        rejections(runs, t, n)[k].outcome == runs[i].outcome,
    decreases n,
{
    if i == n - 1 {
        rejections(runs, t, n).len() - 1
    } else {
        let k = bad_runs_are_noted(runs, t, (n - 1) as nat, i);
        assert(rejections(runs, t, n)[k] == rejections(runs, t, (n - 1) as nat)[k]);
        k
    }
}

/// Only such runs are noted: none of them could have been recommended.
pub proof fn only_bad_runs_are_noted(runs: Seq<ResultView>, t: Terms, n: nat, k: int) -> (i: int)
    requires
        n <= runs.len(),
        0 <= k < rejections(runs, t, n).len(),
    ensures
        0 <= i < n,
        rejections(runs, t, n)[k].run_id == runs[i].run_id,
        rejections(runs, t, n)[k].outcome == runs[i].outcome,
        !eligible(runs[i], t),
        !stale(runs[i], t),
    decreases n,
{
    let before = rejections(runs, t, (n - 1) as nat);
    if k < before.len() {
        only_bad_runs_are_noted(runs, t, (n - 1) as nat, k)
    } else {
        n - 1
    }
}

} // verus!
