//! Thread refinement: once the best placement uses the processor, which thread
//! counts to try, and whether one of them is worth keeping.
use crate::command::ServerCapabilities;
use crate::gguf::{GgufMetadata, MetadataView};
use crate::matching;
use crate::measure::{best_index, last_best, Real};
use crate::profile::{
    CandidateConfig, CandidateView, Outcome, ProfileResult, ResultView, SafetyLimits,
};
use crate::record::{views, Duplicate};
use crate::text;
use crate::tuning::{fit, fit_runs, is_fit, list_fit_runs, scores_of};
use vstd::prelude::*;

verus! {

/// Why there is no thread refinement.
#[derive(Clone, Copy, Debug, PartialEq, Eq, Structural)]
pub enum RefinementSkip {
    /// The server does not know both flags for threads.
    NoThreadFlags,
    /// No run completed within the limits.
    NoUsableRun,
    /// The best placement does not use the processor.
    GpuResident,
    /// The processor gives no pair of thread counts but the default.
    NoDistinctPairs,
    /// The run with default threads did not complete within the limits.
    NoBaseline,
    /// No run with explicit threads completed within the limits.
    NoExplicitRun,
}

// ---------------------------------------------------------------------------
// Pairs of thread counts

/// A pair of thread counts, for generation and for prompts, with its label.
pub struct PairView {
    pub threads: Option<usize>,
    pub threads_batch: Option<usize>,
    pub label: Seq<char>,
}

/// `n` within `low` and `high`.
pub open spec fn within(n: usize, low: usize, high: usize) -> usize {
    if n < low {
        low
    } else if n > high {
        high
    } else {
        n
    }
}

/// The pairs that follow from the processor, from the default to all threads.
pub open spec fn topology_pairs(physical: usize, logical: usize) -> Seq<PairView> {
    let l = if logical < 1 {
        1
    } else {
        logical
    };
    let p = within(physical, 1, l);
    let h = if p / 2 < 1 {
        1
    } else {
        (p / 2) as usize
    };
    seq![
        PairView { threads: None, threads_batch: None, label: "default"@ },
        PairView { threads: Some(h), threads_batch: Some(p), label: "halfphys-phys"@ },
        PairView { threads: Some(p), threads_batch: Some(p), label: "phys-phys"@ },
        PairView { threads: Some(p), threads_batch: Some(l), label: "phys-logical"@ },
        PairView { threads: Some(l), threads_batch: Some(l), label: "logical-logical"@ },
    ]
}

/// Two pairs hold the same counts.
pub open spec fn same_counts(a: PairView, b: PairView) -> bool {
    a.threads == b.threads && a.threads_batch == b.threads_batch
}

/// The list with `p` at its end, unless its counts are there already.
pub open spec fn with_pair(list: Seq<PairView>, p: PairView) -> Seq<PairView> {
    if exists|i: int| 0 <= i < list.len() && same_counts(#[trigger] list[i], p) {
        list
    } else {
        list.push(p)
    }
}

/// The first `n` pairs, each counts once.
pub open spec fn distinct_pairs(all: Seq<PairView>, n: nat) -> Seq<PairView>
    decreases n,
{
    if n == 0 {
        seq![]
    } else {
        with_pair(distinct_pairs(all, (n - 1) as nat), all[n - 1])
    }
}

/// The pairs to try.
pub open spec fn pairs_of(physical: usize, logical: usize) -> Seq<PairView> {
    distinct_pairs(topology_pairs(physical, logical), 5)
}

/// What a pair holds.
pub open spec fn pair_view(p: (Option<usize>, Option<usize>, &str)) -> PairView {
    PairView { threads: p.0, threads_batch: p.1, label: p.2@ }
}

fn add_pair(
    list: &mut Vec<(Option<usize>, Option<usize>, &'static str)>,
    threads: Option<usize>,
    threads_batch: Option<usize>,
    label: &'static str,
    Ghost(s): Ghost<Seq<PairView>>,
)
    requires
        s.len() == old(list)@.len(),
        forall|i: int| 0 <= i < s.len() ==> pair_view(#[trigger] old(list)@[i]) == s[i],
    ensures
        ({
            let t = with_pair(s, PairView { threads, threads_batch, label: label@ });
            &&& t.len() == final(list)@.len()
            &&& forall|i: int| 0 <= i < t.len() ==> pair_view(#[trigger] final(list)@[i]) == t[i]
        }),
{
    let ghost p = PairView { threads, threads_batch, label: label@ };
    for i in 0..list.len()
        invariant
            p == (PairView { threads, threads_batch, label: label@ }),
            list@ == old(list)@,
            s.len() == list@.len(),
            forall|i: int| 0 <= i < s.len() ==> pair_view(#[trigger] list@[i]) == s[i],
            forall|j: int| 0 <= j < i ==> !same_counts(#[trigger] s[j], p),
    {
        let (a, b, _) = list[i];
        proof {
            assert(pair_view(list@[i as int]) == s[i as int]);
        }
        if crate::environment::same_count(a, threads) && crate::environment::same_count(
            b,
            threads_batch,
        ) {
            proof {
                assert(same_counts(s[i as int], p));
            }
            return;
        }
    }
    list.push((threads, threads_batch, label));
}

/// The pairs of thread counts to try on a processor, each once.
pub fn thread_pairs(physical: usize, logical: usize) -> (r: Vec<
    (Option<usize>, Option<usize>, &'static str),
>)
    ensures
        r@.len() == pairs_of(physical, logical).len(),
        forall|i: int|
            0 <= i < r@.len() ==> pair_view(#[trigger] r@[i]) == pairs_of(physical, logical)[i],
{
    let l: usize = if logical < 1 {
        1
    } else {
        logical
    };
    let p: usize = if physical < 1 {
        1
    } else if physical > l {
        l
    } else {
        physical
    };
    let h: usize = if p / 2 < 1 {
        1
    } else {
        p / 2
    };
    let ghost all = topology_pairs(physical, logical);
    let mut r: Vec<(Option<usize>, Option<usize>, &'static str)> = Vec::new();
    proof {
        reveal_with_fuel(distinct_pairs, 6);
    }
    add_pair(&mut r, None, None, "default", Ghost(distinct_pairs(all, 0)));
    add_pair(&mut r, Some(h), Some(p), "halfphys-phys", Ghost(distinct_pairs(all, 1)));
    add_pair(&mut r, Some(p), Some(p), "phys-phys", Ghost(distinct_pairs(all, 2)));
    add_pair(&mut r, Some(p), Some(l), "phys-logical", Ghost(distinct_pairs(all, 3)));
    add_pair(&mut r, Some(l), Some(l), "logical-logical", Ghost(distinct_pairs(all, 4)));
    r
}

proof fn distinct_pairs_facts(all: Seq<PairView>, n: nat)
    requires
        n <= all.len(),
    ensures
        distinct_pairs(all, n).len() <= n,
        n > 0 ==> distinct_pairs(all, n).len() > 0 && distinct_pairs(all, n)[0] == all[0],
        forall|i: int, j: int|
            0 <= i < j < distinct_pairs(all, n).len() ==> !same_counts(
                #[trigger] distinct_pairs(all, n)[i],
                #[trigger] distinct_pairs(all, n)[j],
            ),
    decreases n,
{
    if n > 0 {
        distinct_pairs_facts(all, (n - 1) as nat);
        let before = distinct_pairs(all, (n - 1) as nat);
        let list = distinct_pairs(all, n);
        assert forall|i: int, j: int| 0 <= i < j < list.len() implies !same_counts(
            #[trigger] list[i],
            #[trigger] list[j],
        ) by {
            assert(list[i] == before[i]);
            if j < before.len() {
                assert(list[j] == before[j]);
            }
        }
    }
}

/// No pair of counts is tried twice, the default comes first, and there are at
/// most five.
pub proof fn pairs_are_distinct(physical: usize, logical: usize)
    ensures
        0 < pairs_of(physical, logical).len() <= 5,
        pairs_of(physical, logical)[0].threads is None,
        pairs_of(physical, logical)[0].threads_batch is None,
        forall|i: int, j: int|
            0 <= i < j < pairs_of(physical, logical).len() ==> !same_counts(
                #[trigger] pairs_of(physical, logical)[i],
                #[trigger] pairs_of(physical, logical)[j],
            ),
{
    distinct_pairs_facts(topology_pairs(physical, logical), 5);
}

proof fn distinct_pairs_come_from(all: Seq<PairView>, n: nat, i: int)
    requires
        n <= all.len(),
        0 <= i < distinct_pairs(all, n).len(),
    ensures
        exists|k: int| 0 <= k < n && distinct_pairs(all, n)[i] == #[trigger] all[k],
    decreases n,
{
    let before = distinct_pairs(all, (n - 1) as nat);
    if i < before.len() {
        distinct_pairs_come_from(all, (n - 1) as nat, i);
    } else {
        assert(distinct_pairs(all, n)[i] == all[n - 1]);
    }
}

/// Every pair but the default stays within the processor: at least one thread,
/// at most as many as there are logical processors, and for generation not
/// more than for prompts.
pub proof fn pairs_stay_within_the_processor(physical: usize, logical: usize, i: int)
    requires
        0 <= i < pairs_of(physical, logical).len(),
    ensures
        ({
            let pair = pairs_of(physical, logical)[i];
            let most = if logical < 1 {
                1
            } else {
                logical
            };
            &&& pair.threads is None == (pair.threads_batch is None)
            &&& pair.threads matches Some(n) ==> 1 <= n <= pair.threads_batch->0 <= most
        }),
{
    let all = topology_pairs(physical, logical);
    distinct_pairs_come_from(all, 5, i);
    let k = choose|k: int| 0 <= k < 5 && pairs_of(physical, logical)[i] == #[trigger] all[k];
    assert(k == 0 || k == 1 || k == 2 || k == 3 || k == 4);
}

/// A thread count in words.
pub open spec fn count_text(n: Option<usize>) -> Seq<char> {
    match n {
        Some(k) => text::decimal(k as nat),
        None => "llama.cpp default"@,
    }
}

/// The winner with a pair of thread counts.
pub open spec fn threaded(winner: CandidateView, p: PairView) -> CandidateView {
    CandidateView {
        id: winner.id + "-threads-"@ + p.label,
        threads: p.threads,
        threads_batch: p.threads_batch,
        note: "Thread refinement of "@ + winner.id + "; generation threads "@ + count_text(
            p.threads,
        ) + ", prompt threads "@ + count_text(p.threads_batch),
        planning_note: "conditional topology-aware refinement of the winning placement"@,
        ..winner
    }
}

/// The number of logical processors: what the environment says, or else what
/// is available now, at least one.
pub open spec fn logical_cores(cpu_cores: Option<usize>, available: Option<usize>) -> usize {
    let n = match (cpu_cores, available) {
        (Some(a), _) => a,
        (None, Some(b)) => b,
        (None, None) => 1,
    };
    if n < 1 {
        1
    } else {
        n
    }
}

/// The number of physical processors, that of logical ones where it is not
/// known.
pub open spec fn physical_cores(known: Option<usize>, logical: usize) -> usize {
    match known {
        Some(n) => within(n, 1, logical),
        None => logical,
    }
}

fn count_name(n: Option<usize>) -> (r: String)
    ensures
        r@ == count_text(n),
{
    match n {
        Some(k) => text::number(k as u64),
        None => "llama.cpp default".to_string(),
    }
}

/// The candidates of a thread refinement.
pub fn thread_refinement_candidates(
    winner: &CandidateConfig,
    cpu_cores: Option<usize>,
    available: Option<usize>,
    physical: Option<usize>,
) -> (r: Vec<CandidateConfig>)
    ensures
        ({
            let logical = logical_cores(cpu_cores, available);
            let pairs = pairs_of(physical_cores(physical, logical), logical);
            &&& r@.len() == pairs.len()
            &&& forall|i: int|
                0 <= i < r@.len() ==> (#[trigger] r@[i])@ == threaded(winner@, pairs[i])
        }),
{
    let known: usize = match cpu_cores {
        Some(n) => n,
        None => match available {
            Some(n) => n,
            None => 1,
        },
    };
    let logical: usize = if known < 1 {
        1
    } else {
        known
    };
    let cores: usize = match physical {
        Some(n) => if n < 1 {
            1
        } else if n > logical {
            logical
        } else {
            n
        },
        None => logical,
    };
    let pairs = thread_pairs(cores, logical);
    let ghost s = pairs_of(cores, logical);
    let mut r: Vec<CandidateConfig> = Vec::new();
    for i in 0..pairs.len()
        invariant
            s.len() == pairs@.len(),
            forall|i: int| 0 <= i < s.len() ==> pair_view(#[trigger] pairs@[i]) == s[i],
            r@.len() == i,
            forall|j: int| 0 <= j < i ==> (#[trigger] r@[j])@ == threaded(winner@, s[j]),
    {
        let (threads, threads_batch, label) = pairs[i];
        proof {
            assert(pair_view(pairs@[i as int]) == s[i as int]);
        }
        let mut c = winner.duplicate();
        let mut id = winner.id.clone();
        id.append("-threads-");
        id.append(label);
        c.id = id;
        c.threads = threads;
        c.threads_batch = threads_batch;
        let mut note = "Thread refinement of ".to_string();
        note.append(winner.id.as_str());
        note.append("; generation threads ");
        note.append(count_name(threads).as_str());
        note.append(", prompt threads ");
        note.append(count_name(threads_batch).as_str());
        c.note = note;
        c.planning_note =
        "conditional topology-aware refinement of the winning placement".to_string();
        r.push(c);
    }
    r
}

// ---------------------------------------------------------------------------
// Whether to refine

/// The pattern of what the server logs on the layers that it offloaded.
pub const OFFLOAD_PATTERN: &'static str = "offloaded\\s+(\\d+)\\s*/\\s*(\\d+)\\s+layers";

/// The number in a group of a match.
pub open spec fn group_number(found: Seq<Option<Seq<char>>>, n: int) -> Option<nat> {
    match matching::group(Some(found), n) {
        Some(digits) => text::parsed(digits, u64::MAX as nat),
        None => None,
    }
}

/// A match says that fewer layers were offloaded than there are.
pub open spec fn partial_match(found: Seq<Option<Seq<char>>>) -> bool {
    match (group_number(found, 1), group_number(found, 2)) {
        (Some(offloaded), Some(total)) => offloaded < total,
        _ => false,
    }
}

/// Some match says so.
pub open spec fn any_partial(found: Seq<Seq<Option<Seq<char>>>>) -> bool {
    exists|i: int| 0 <= i < found.len() && partial_match(#[trigger] found[i])
}

/// The log says that only some layers were offloaded.
pub open spec fn partially_offloaded(log: Seq<char>) -> bool {
    any_partial(matching::regex_captures_iter(OFFLOAD_PATTERN@, log))
}

fn number_in_group(found: &Vec<Option<String>>, n: usize) -> (r: Option<u64>)
    ensures
        match r {
            Some(x) => group_number(matching::groups(found@), n as int) == Some(x as nat),
            None => group_number(matching::groups(found@), n as int) is None,
        },
{
    if n < found.len() {
        match &found[n] {
            Some(digits) => text::parse_number(digits.as_str(), u64::MAX),
            None => None,
        }
    } else {
        None
    }
}

/// Whether some match says that fewer layers were offloaded than there are.
pub fn matches_say_partial(found: &Vec<Vec<Option<String>>>) -> (r: bool)
    ensures
        r == any_partial(matching::all_groups(found@)),
{
    let ghost all = matching::all_groups(found@);
    for i in 0..found.len()
        invariant
            all == matching::all_groups(found@),
            forall|j: int| 0 <= j < i ==> !partial_match(#[trigger] all[j]),
    {
        let offloaded = number_in_group(&found[i], 1);
        let total = number_in_group(&found[i], 2);
        proof {
            assert(all[i as int] == matching::groups(found@[i as int]@));
        }
        if let (Some(a), Some(b)) = (offloaded, total) {
            if a < b {
                proof {
                    assert(partial_match(all[i as int]));
                }
                return true;
            }
        }
    }
    false
}

/// Whether the log says that only some layers were offloaded.
pub fn log_has_partial_gpu_offload(log: &str) -> (r: bool)
    ensures
        r == partially_offloaded(log@),
{
    matches_say_partial(&matching::captures_iter(OFFLOAD_PATTERN, log))
}

/// The configuration itself puts part of the model on the processor.
pub open spec fn placed_on_processor(c: CandidateView, m: MetadataView) -> bool {
    ||| c.cpu_moe
    ||| c.n_cpu_moe matches Some(n) && n > 0
    ||| (match (c.gpu_layers, m.block_count) {
        (Some(layers), Some(blocks)) => layers < blocks,
        _ => false,
    })
}

/// Whether the configuration itself puts part of the model on the processor.
pub fn is_placed_on_processor(c: &CandidateConfig, metadata: &GgufMetadata) -> (r: bool)
    ensures
        r == placed_on_processor(c@, metadata@),
{
    let experts = match c.n_cpu_moe {
        Some(n) => n > 0,
        None => false,
    };
    let layers = match (c.gpu_layers, metadata.block_count) {
        (Some(layers), Some(blocks)) => layers < blocks,
        _ => false,
    };
    c.cpu_moe || experts || layers
}

/// Whether the processor takes part in a run: the configuration says so, or
/// else the server's log.
pub fn has_meaningful_cpu_participation(
    result: &ProfileResult,
    metadata: &GgufMetadata,
    log: &str,
) -> (r: bool)
    ensures
        r == (placed_on_processor(result.candidate@, metadata@) || partially_offloaded(log@)),
{
    is_placed_on_processor(&result.candidate, metadata) || log_has_partial_gpu_offload(log)
}

/// The run to refine: the last of the best that completed within the limits.
pub open spec fn winner_of(
    runs: Seq<ResultView>,
    scores: Seq<Real>,
    safety: SafetyLimits,
) -> Option<int> {
    let list = fit_runs(runs, safety, runs.len());
    if list.len() == 0 {
        None
    } else {
        Some(list[last_best(scores_of(list, scores))])
    }
}

/// The run to refine, given the balance of each run.
pub fn refinement_winner(
    capabilities: &ServerCapabilities,
    results: &Vec<ProfileResult>,
    scores: &Vec<Real>,
    safety: &SafetyLimits,
) -> (r: Result<usize, RefinementSkip>)
    requires
        results@.len() == scores@.len(),
    ensures
        ({
            let flags = text::occurs(capabilities.help@, "--threads"@) && text::occurs(
                capabilities.help@,
                "--threads-batch"@,
            );
            match r {
                Ok(i) => flags && i < results@.len() && winner_of(views(results@), scores@, *safety)
                    == Some(i as int),
                Err(why) => if !flags {
                    why == RefinementSkip::NoThreadFlags
                } else {
                    why == RefinementSkip::NoUsableRun && winner_of(
                        views(results@),
                        scores@,
                        *safety,
                    ) is None
                },
            }
        }),
{
    if !capabilities.supports("--threads") || !capabilities.supports("--threads-batch") {
        return Err(RefinementSkip::NoThreadFlags);
    }
    let list = list_fit_runs(results, safety);
    let ghost s = fit_runs(views(results@), *safety, results@.len());
    if list.len() == 0 {
        return Err(RefinementSkip::NoUsableRun);
    }
    let mut values: Vec<Real> = Vec::new();
    for k in 0..list.len()
        invariant
            results@.len() == scores@.len(),
            list@.len() == s.len(),
            forall|k: int| 0 <= k < list@.len() ==> (#[trigger] list@[k]) == s[k],
            forall|k: int| 0 <= k < list@.len() ==> (#[trigger] list@[k]) < results@.len(),
            values@.len() == k,
            forall|j: int| 0 <= j < k ==> (#[trigger] values@[j]) == scores@[s[j]],
    {
        proof {
            assert(list@[k as int] == s[k as int]);
        }
        values.push(scores[list[k]]);
    }
    proof {
        assert(values@ =~= scores_of(s, scores@));
    }
    let best = best_index(&values);
    proof {
        assert(list@[best as int] == s[best as int]);
    }
    Ok(list[best])
}

/// The candidates that refine a winner, unless the processor takes no part in
/// it or gives no other pair of thread counts.
pub fn refinement_plan(
    winner: &ProfileResult,
    metadata: &GgufMetadata,
    log: &str,
    cpu_cores: Option<usize>,
    available: Option<usize>,
    physical: Option<usize>,
) -> (r: Result<Vec<CandidateConfig>, RefinementSkip>)
    ensures
        ({
            let logical = logical_cores(cpu_cores, available);
            let pairs = pairs_of(physical_cores(physical, logical), logical);
            let active = placed_on_processor(winner.candidate@, metadata@) || partially_offloaded(
                log@,
            );
            match r {
                Ok(list) => active && pairs.len() >= 2 && list@.len() == pairs.len() && forall|i: int|
                    0 <= i < list@.len() ==> (#[trigger] list@[i])@ == threaded(
                        winner.candidate@,
                        pairs[i],
                    ),
                Err(why) => if !active {
                    why == RefinementSkip::GpuResident
                } else {
                    why == RefinementSkip::NoDistinctPairs && pairs.len() < 2
                },
            }
        }),
{
    if !has_meaningful_cpu_participation(winner, metadata, log) {
        return Err(RefinementSkip::GpuResident);
    }
    let list = thread_refinement_candidates(&winner.candidate, cpu_cores, available, physical);
    if list.len() < 2 {
        return Err(RefinementSkip::NoDistinctPairs);
    }
    Ok(list)
}

// ---------------------------------------------------------------------------
// What to keep

/// The run used default threads and completed within the limits.
pub open spec fn default_threads(r: ResultView, safety: SafetyLimits) -> bool {
    r.candidate.threads is None && r.candidate.threads_batch is None && fit(r, safety)
}

/// The run used explicit threads and completed within the limits.
pub open spec fn explicit_threads(r: ResultView, safety: SafetyLimits) -> bool {
    r.candidate.threads is Some && fit(r, safety)
}

/// The first run with default threads.
pub open spec fn baseline_of(runs: Seq<ResultView>, safety: SafetyLimits) -> Option<int>
    decreases runs.len(),
{
    if runs.len() == 0 {
        None
    } else {
        match baseline_of(runs.drop_last(), safety) {
            Some(i) => Some(i),
            None => if default_threads(runs.last(), safety) {
                Some(runs.len() - 1)
            } else {
                None
            },
        }
    }
}

/// The runs among the first `n` with explicit threads.
pub open spec fn explicit_runs(runs: Seq<ResultView>, safety: SafetyLimits, n: nat) -> Seq<int>
    decreases n,
{
    if n == 0 {
        seq![]
    } else {
        let before = explicit_runs(runs, safety, (n - 1) as nat);
        if explicit_threads(runs[n - 1], safety) {
            before.push(n - 1)
        } else {
            before
        }
    }
}

/// The last of the best runs with explicit threads.
pub open spec fn challenger_of(
    runs: Seq<ResultView>,
    scores: Seq<Real>,
    safety: SafetyLimits,
) -> Option<int> {
    let list = explicit_runs(runs, safety, runs.len());
    if list.len() == 0 {
        None
    } else {
        Some(list[last_best(scores_of(list, scores))])
    }
}

/// The runs that a refinement decides between: the one with default threads
/// and the best with explicit ones.
pub fn refinement_contest(
    results: &Vec<ProfileResult>,
    scores: &Vec<Real>,
    safety: &SafetyLimits,
) -> (r: Result<(usize, usize), RefinementSkip>)
    requires
        results@.len() == scores@.len(),
    ensures
        ({
            let baseline = baseline_of(views(results@), *safety);
            let challenger = challenger_of(views(results@), scores@, *safety);
            match r {
                Ok((b, c)) => b < results@.len() && c < results@.len() && baseline == Some(b as int)
                    && challenger == Some(c as int),
                Err(why) => if baseline is None {
                    why == RefinementSkip::NoBaseline
                } else {
                    why == RefinementSkip::NoExplicitRun && challenger is None
                },
            }
        }),
{
    let ghost runs = views(results@);
    let mut baseline: Option<usize> = None;
    let mut list: Vec<usize> = Vec::new();
    let mut values: Vec<Real> = Vec::new();
    for i in 0..results.len()
        invariant
            results@.len() == scores@.len(),
            runs == views(results@),
            match baseline {
                Some(b) => b < i && baseline_of(runs.take(i as int), *safety) == Some(b as int),
                None => baseline_of(runs.take(i as int), *safety) is None,
            },
            list@.len() == explicit_runs(runs, *safety, i as nat).len(),
            values@.len() == list@.len(),
            forall|k: int|
                0 <= k < list@.len() ==> (#[trigger] list@[k]) == explicit_runs(
                    runs,
                    *safety,
                    i as nat,
                )[k],
            forall|k: int| 0 <= k < list@.len() ==> (#[trigger] list@[k]) < i,
            forall|k: int|
                0 <= k < list@.len() ==> (#[trigger] values@[k]) == scores@[list@[k] as int],
    {
        let ghost before = list@;
        let ghost old_values = values@;
        proof {
            assert(runs.take(i + 1).drop_last() =~= runs.take(i as int));
            assert(runs.take(i + 1).last() == results@[i as int]@);
        }
        let result = &results[i];
        let good = is_fit(result, safety);
        if baseline.is_none() && result.candidate.threads.is_none()
            && result.candidate.threads_batch.is_none() && good {
            baseline = Some(i);
        }
        if result.candidate.threads.is_some() && good {
            list.push(i);
            values.push(scores[i]);
        }
        proof {
            let s = explicit_runs(runs, *safety, (i + 1) as nat);
            assert forall|k: int| 0 <= k < list@.len() implies (#[trigger] list@[k]) == s[k]
                && list@[k] < i + 1 by {
                if k < before.len() {
                    assert(list@[k] == before[k]);
                }
            }
            assert forall|k: int| 0 <= k < list@.len() implies (#[trigger] values@[k])
                == scores@[list@[k] as int] by {
                if k < before.len() {
                    assert(list@[k] == before[k]);
                    assert(values@[k] == old_values[k]);
                }
            }
        }
    }
    proof {
        assert(runs.take(runs.len() as int) =~= runs);
    }
    let b: usize = match baseline {
        Some(b) => b,
        None => {
            return Err(RefinementSkip::NoBaseline);
        },
    };
    if list.len() == 0 {
        return Err(RefinementSkip::NoExplicitRun);
    }
    let ghost s = explicit_runs(runs, *safety, runs.len());
    proof {
        assert forall|k: int| 0 <= k < values@.len() implies values@[k] == scores_of(
            s,
            scores@,
        )[k] by {
            assert(list@[k] == s[k]);
        }
        assert(values@ =~= scores_of(s, scores@));
    }
    let best = best_index(&values);
    proof {
        assert(list@[best as int] == s[best as int]);
    }
    Ok((b, list[best]))
}

/// Whether an improvement counts: the baseline is positive, and the candidate
/// reaches the threshold, which lies 3 % above the baseline.
pub fn thread_improvement_is_significant(
    baseline_score: Real,
    threshold: Real,
    candidate_score: Real,
) -> (r: bool)
    ensures
        r == (baseline_score.positive() && threshold.at_most(candidate_score)),
{
    baseline_score.is_positive() && threshold.is_at_most(candidate_score)
}

/// A run as it is kept after a refinement accepted it.
pub open spec fn accepted(r: ResultView, improvement: Seq<char>) -> ResultView {
    ResultView {
        test_kind: "thread-refinement"@,
        note: r.note + "; accepted with "@ + improvement
            + "% balanced-throughput improvement over the contemporaneous default-thread baseline"@,
        ..r
    }
}

/// Accepts the best run with explicit threads where its improvement counts.
/// `improvement` tells by how much, in percent.
pub fn accept_thread_refinement(
    challenger: &mut ProfileResult,
    baseline_score: Real,
    threshold: Real,
    candidate_score: Real,
    improvement: &str,
) -> (r: bool)
    ensures
        r == (baseline_score.positive() && threshold.at_most(candidate_score)),
        final(challenger)@ == (if r {
            accepted(old(challenger)@, improvement@)
        } else {
            old(challenger)@
        }),
{
    if !thread_improvement_is_significant(baseline_score, threshold, candidate_score) {
        return false;
    }
    challenger.test_kind = "thread-refinement".to_string();
    let mut note = challenger.note.clone();
    note.append("; accepted with ");
    note.append(improvement);
    note.append(
        "% balanced-throughput improvement over the contemporaneous default-thread baseline",
    );
    challenger.note = note;
    true
}

impl RefinementSkip {
    /// Why there is no refinement.
    pub fn message(self) -> (r: &'static str)
        ensures
            r@ == (match self {
                RefinementSkip::NoThreadFlags =>
                    "thread refinement skipped: llama-server does not expose both thread flags"@,
                RefinementSkip::NoUsableRun =>
                    "thread refinement skipped: no usable primary candidate was observed"@,
                RefinementSkip::GpuResident =>
                    "thread refinement skipped: winning placement is fully GPU-resident"@,
                RefinementSkip::NoDistinctPairs =>
                    "thread refinement skipped: CPU topology produced no distinct explicit pairs"@,
                RefinementSkip::NoBaseline =>
                    "thread refinement: default-thread baseline did not pass"@,
                RefinementSkip::NoExplicitRun =>
                    "thread refinement: no explicit thread configuration passed"@,
            }),
    {
        match self {
            RefinementSkip::NoThreadFlags =>
                "thread refinement skipped: llama-server does not expose both thread flags",
            RefinementSkip::NoUsableRun =>
                "thread refinement skipped: no usable primary candidate was observed",
            RefinementSkip::GpuResident =>
                "thread refinement skipped: winning placement is fully GPU-resident",
            RefinementSkip::NoDistinctPairs =>
                "thread refinement skipped: CPU topology produced no distinct explicit pairs",
            RefinementSkip::NoBaseline => "thread refinement: default-thread baseline did not pass",
            RefinementSkip::NoExplicitRun =>
                "thread refinement: no explicit thread configuration passed",
        }
    }
}

/// A refinement changes the threads and nothing else that the server is told.
pub proof fn refinements_change_the_threads(winner: CandidateView, p: PairView)
    ensures
        ({
            let c = threaded(winner, p);
            &&& c.threads == p.threads
            &&& c.threads_batch == p.threads_batch
            &&& c.id == winner.id + "-threads-"@ + p.label
            &&& c.requested_context == winner.requested_context
            &&& c.batch == winner.batch
            &&& c.ubatch == winner.ubatch
            &&& c.kv_cache == winner.kv_cache
            &&& c.kv_cache_v == winner.kv_cache_v
            &&& c.fit_target == winner.fit_target
            &&& c.gpu_layers == winner.gpu_layers
            &&& c.cpu_moe == winner.cpu_moe
            &&& c.n_cpu_moe == winner.n_cpu_moe
        }),
{
}

/// What is accepted is the run as it was measured: only its kind and its note
/// tell that it was.
pub proof fn acceptance_keeps_the_run(r: ResultView, improvement: Seq<char>)
    ensures
        ({
            let a = accepted(r, improvement);
            &&& a.test_kind == "thread-refinement"@
            &&& text::starts_with(a.note, r.note)
            &&& a.run_id == r.run_id
            &&& a.candidate == r.candidate
            &&& a.command == r.command
            &&& a.outcome == r.outcome
            &&& a.metrics == r.metrics
            &&& a.model_identity == r.model_identity
            &&& a.requested_context == r.requested_context
        }),
{
    let a = accepted(r, improvement);
    assert(a.note.take(r.note.len() as int) =~= r.note);
}

/// Part of the model is on the processor where all experts are, where those of
/// some layers are, or where fewer layers are offloaded than there are blocks;
/// and in no other case.
pub proof fn placements_on_the_processor_are_seen(c: CandidateView, m: MetadataView)
    ensures
        c.cpu_moe ==> placed_on_processor(c, m),
        c.n_cpu_moe is Some && c.n_cpu_moe->0 > 0 ==> placed_on_processor(c, m),
        c.gpu_layers is Some && m.block_count is Some && c.gpu_layers->0 < m.block_count->0
            ==> placed_on_processor(c, m),
        !c.cpu_moe && (c.n_cpu_moe is None || c.n_cpu_moe->0 == 0) && (c.gpu_layers is None
            || m.block_count is None || c.gpu_layers->0 >= m.block_count->0)
            ==> !placed_on_processor(c, m),
{
}

/// A log tells of a partial offload where a match names fewer layers than there
/// are, and not where all matches name them all.
pub proof fn partial_offloads_are_seen(
    found: Seq<Seq<Option<Seq<char>>>>,
    i: int,
    offloaded: u64,
    total: u64,
)
    requires
        0 <= i < found.len(),
        found[i].len() == 3,
        found[i][1] == Some(text::decimal(offloaded as nat)),
        found[i][2] == Some(text::decimal(total as nat)),
    ensures
        offloaded < total ==> any_partial(found),
        offloaded >= total && found.len() == 1 ==> !any_partial(found),
{
    text::decimal_reads_back(offloaded as nat);
    text::decimal_reads_back(total as nat);
    assert(partial_match(found[i]) == (offloaded < total));
}

/// The thread counts that are tried: the defaults first, then those that the
/// processor suggests, half its cores, all of them and all its threads, each
/// with what is read in batches.
pub proof fn pairs_follow_the_processor(physical: usize, logical: usize)
    requires
        1 <= physical <= logical,
    ensures
        ({
            let half = if physical >= 2 {
                (physical / 2) as usize
            } else {
                1
            };
            let all = pairs_of(physical, logical);
            &&& all.len() > 0
            &&& all[0].threads is None && all[0].threads_batch is None
            &&& tries(all, Some(half), Some(physical))
            &&& tries(all, Some(physical), Some(physical))
            &&& tries(all, Some(physical), Some(logical))
            &&& tries(all, Some(logical), Some(logical))
        }),
{
    let t = topology_pairs(physical, logical);
    let d0 = distinct_pairs(t, 0);
    let d1 = distinct_pairs(t, 1);
    let d2 = distinct_pairs(t, 2);
    let d3 = distinct_pairs(t, 3);
    let d4 = distinct_pairs(t, 4);
    let d5 = distinct_pairs(t, 5);
    assert(d1 == with_pair(d0, t[0]) && d2 == with_pair(d1, t[1]) && d3 == with_pair(d2, t[2])
        && d4 == with_pair(d3, t[3]) && d5 == with_pair(d4, t[4]));
    assert(d1 =~= seq![t[0]]);
    pair_is_tried(d1, t[1]);
    pair_is_tried(d2, t[2]);
    pair_is_tried(d3, t[3]);
    pair_is_tried(d4, t[4]);
    pairs_stay(d2, t[2], t[1]);
    pairs_stay(d3, t[3], t[1]);
    pairs_stay(d4, t[4], t[1]);
    pairs_stay(d3, t[3], t[2]);
    pairs_stay(d4, t[4], t[2]);
    pairs_stay(d4, t[4], t[3]);
}

/// The list holds a pair with these counts.
pub open spec fn tries(
    list: Seq<PairView>,
    threads: Option<usize>,
    threads_batch: Option<usize>,
) -> bool {
    exists|i: int|
        0 <= i < list.len() && (#[trigger] list[i]).threads == threads && list[i].threads_batch
            == threads_batch
}

proof fn pair_is_tried(list: Seq<PairView>, p: PairView)
    ensures
        tries(with_pair(list, p), p.threads, p.threads_batch),
        list.len() > 0 ==> with_pair(list, p)[0] == list[0],
        with_pair(list, p).len() >= list.len(),
{
    let all = with_pair(list, p);
    if exists|i: int| 0 <= i < list.len() && same_counts(#[trigger] list[i], p) {
        let i = choose|i: int| 0 <= i < list.len() && same_counts(#[trigger] list[i], p);
        assert(all[i].threads == p.threads);
    } else {
        assert(all[list.len() as int].threads == p.threads);
    }
}

proof fn pairs_stay(list: Seq<PairView>, p: PairView, held: PairView)
    requires
        tries(list, held.threads, held.threads_batch),
    ensures
        tries(with_pair(list, p), held.threads, held.threads_batch),
{
    let i = choose|i: int|
        0 <= i < list.len() && (#[trigger] list[i]).threads == held.threads
            && list[i].threads_batch == held.threads_batch;
    assert(with_pair(list, p)[i] == list[i]);
}

/// The cores that are counted: those of the environment before those available
/// now, at least one; the physical ones are at most the logical ones, and as
/// many where they are not known.
pub proof fn cores_are_counted(known: Option<usize>, available: Option<usize>, physical: usize)
    ensures
        known is Some && known->0 >= 1 ==> logical_cores(known, available) == known->0,
        known is None && available is Some && available->0 >= 1 ==> logical_cores(known, available)
            == available->0,
        known is None && available is None ==> logical_cores(known, available) == 1,
        logical_cores(known, available) >= 1,
        physical_cores(None, physical) == physical,
        known is Some && 1 <= known->0 <= physical ==> physical_cores(known, physical) == known->0,
        known is Some && 1 <= physical < known->0 ==> physical_cores(known, physical) == physical,
{
}

/// The run to refine completed within the limits, and no other such run has a
/// better balance; there is one wherever there is such a run.
pub proof fn the_winner_is_the_best(
    runs: Seq<ResultView>,
    scores: Seq<Real>,
    safety: SafetyLimits,
    k: int,
)
    requires
        scores.len() == runs.len(),
        forall|i: int| 0 <= i < scores.len() ==> !(#[trigger] scores[i]).nan(),
        safety.max_swap_delta_mib <= i64::MAX,
        0 <= k < runs.len(),
        sound(runs[k], safety),
    ensures
        winner_of(runs, scores, safety) is Some,
        ({
            let w = winner_of(runs, scores, safety)->0;
            0 <= w < runs.len() && sound(runs[w], safety) && !scores[w].less(scores[k])
        }),
{
    let list = fit_runs(runs, safety, runs.len());
    let p = fit_run_is_listed(runs, safety, runs.len(), k);
    crate::measure::last_best_is_greatest(scores_of(list, scores));
    let s = scores_of(list, scores);
    assert forall|i: int| 0 <= i < s.len() implies !(#[trigger] s[i]).nan() by {
        fit_runs_are_fit(runs, safety, runs.len(), i);
    }
    assert(s[p] == scores[k]);
    fit_runs_are_fit(runs, safety, runs.len(), last_best(s));
}

/// The run completed, and it kept the memory and swap that the limits ask for as
/// far as they were measured.
pub open spec fn sound(r: ResultView, safety: SafetyLimits) -> bool {
    &&& r.outcome == Outcome::Pass || r.outcome == Outcome::ParsePartial
    &&& r.metrics.min_free_vram_mib is None || r.metrics.min_free_vram_mib->0
        >= safety.min_vram_free_mib
    &&& r.metrics.swap_delta_mib is None || r.metrics.swap_delta_mib->0
        <= safety.max_swap_delta_mib
}

proof fn fit_run_is_listed(runs: Seq<ResultView>, safety: SafetyLimits, n: nat, k: int) -> (p: int)
    requires
        0 <= k < n <= runs.len(),
        safety.max_swap_delta_mib <= i64::MAX,
        sound(runs[k], safety),
    ensures
        0 <= p < fit_runs(runs, safety, n).len(),
        fit_runs(runs, safety, n)[p] == k,
    decreases n,
{
    if k == n - 1 {
        fit_runs(runs, safety, n).len() - 1
    } else {
        fit_run_is_listed(runs, safety, (n - 1) as nat, k)
    }
}

proof fn fit_runs_are_fit(runs: Seq<ResultView>, safety: SafetyLimits, n: nat, i: int)
    requires
        n <= runs.len(),
        safety.max_swap_delta_mib <= i64::MAX,
        0 <= i < fit_runs(runs, safety, n).len(),
    ensures
        0 <= fit_runs(runs, safety, n)[i] < n,
        sound(runs[fit_runs(runs, safety, n)[i]], safety),
    decreases n,
{
    if i < fit_runs(runs, safety, (n - 1) as nat).len() {
        fit_runs_are_fit(runs, safety, (n - 1) as nat, i);
    }
}

/// The baseline of a contest is the first run with default threads that
/// completed within the limits.
pub proof fn the_baseline_is_the_first(runs: Seq<ResultView>, safety: SafetyLimits, k: int)
    requires
        safety.max_swap_delta_mib <= i64::MAX,
    ensures
        baseline_of(runs, safety) is Some ==> {
            let b = baseline_of(runs, safety)->0;
            &&& 0 <= b < runs.len()
            &&& runs[b].candidate.threads is None && runs[b].candidate.threads_batch is None
            &&& sound(runs[b], safety)
        },
        0 <= k < runs.len() && runs[k].candidate.threads is None
            && runs[k].candidate.threads_batch is None && sound(runs[k], safety) ==> baseline_of(
            runs,
            safety,
        ) is Some && baseline_of(runs, safety)->0 <= k,
    decreases runs.len(),
{
    if runs.len() > 0 {
        the_baseline_is_the_first(runs.drop_last(), safety, k);
    }
}

/// The challenger has explicit threads and completed within the limits, and no
/// other such run has a better balance.
pub proof fn the_challenger_is_the_best(
    runs: Seq<ResultView>,
    scores: Seq<Real>,
    safety: SafetyLimits,
    k: int,
)
    requires
        scores.len() == runs.len(),
        forall|i: int| 0 <= i < scores.len() ==> !(#[trigger] scores[i]).nan(),
        safety.max_swap_delta_mib <= i64::MAX,
        0 <= k < runs.len(),
        runs[k].candidate.threads is Some,
        sound(runs[k], safety),
    ensures
        challenger_of(runs, scores, safety) is Some,
        ({
            let w = challenger_of(runs, scores, safety)->0;
            &&& 0 <= w < runs.len()
            &&& runs[w].candidate.threads is Some
            &&& sound(runs[w], safety)
            &&& !scores[w].less(scores[k])
        }),
{
    let list = explicit_runs(runs, safety, runs.len());
    let p = explicit_run_is_listed(runs, safety, runs.len(), k);
    crate::measure::last_best_is_greatest(scores_of(list, scores));
    let s = scores_of(list, scores);
    assert forall|i: int| 0 <= i < s.len() implies !(#[trigger] s[i]).nan() by {
        explicit_runs_are_explicit(runs, safety, runs.len(), i);
    }
    assert(s[p] == scores[k]);
    explicit_runs_are_explicit(runs, safety, runs.len(), last_best(s));
}

proof fn explicit_run_is_listed(runs: Seq<ResultView>, safety: SafetyLimits, n: nat, k: int) -> (p:
    int)
    requires
        0 <= k < n <= runs.len(),
        safety.max_swap_delta_mib <= i64::MAX,
        runs[k].candidate.threads is Some,
        sound(runs[k], safety),
    ensures
        0 <= p < explicit_runs(runs, safety, n).len(),
        explicit_runs(runs, safety, n)[p] == k,
    decreases n,
{
    if k == n - 1 {
        explicit_runs(runs, safety, n).len() - 1
    } else {
        explicit_run_is_listed(runs, safety, (n - 1) as nat, k)
    }
}

proof fn explicit_runs_are_explicit(runs: Seq<ResultView>, safety: SafetyLimits, n: nat, i: int)
    requires
        n <= runs.len(),
        safety.max_swap_delta_mib <= i64::MAX,
        0 <= i < explicit_runs(runs, safety, n).len(),
    ensures
        0 <= explicit_runs(runs, safety, n)[i] < n,
        runs[explicit_runs(runs, safety, n)[i]].candidate.threads is Some,
        sound(runs[explicit_runs(runs, safety, n)[i]], safety),
    decreases n,
{
    if i < explicit_runs(runs, safety, (n - 1) as nat).len() {
        explicit_runs_are_explicit(runs, safety, (n - 1) as nat, i);
    }
}

} // verus!
