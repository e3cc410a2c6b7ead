//! The search: which candidate comes next, and how results change the order.
use crate::candidates::{
    distinct_ids, generate_candidates_for_environment, order_keeps_ids_distinct,
    plan_ids_are_distinct, planned, vram_of, vram_sum,
};
use crate::environment::{same_number, EnvironmentSnapshot};
use crate::gguf::{GgufMetadata, MetadataView, ModelIdentity, ModelKind};
use crate::measure::{falling, order_falling, Real};
use crate::profile::{
    goal_profile, preset_budget, usable, CandidateConfig, CandidatePlan, CandidateRisk,
    CandidateView, CoverageView, Outcome, PlanView, Preset, ProfileResult, RecommendationFile,
    RecommendationView, RecommendationsView, ResultView, SafetyLimits, SearchCoverage,
    ValidationLevel, WorkloadGoal, SCHEMA_VERSION,
};
use crate::ranking::{as_signed, confidence, confidence_text, violates, violates_safety};
use crate::record::{duplicate_all, opt_view, views, Duplicate};
use crate::time::Timestamp;
use crate::text;
use vstd::prelude::*;

verus! {

// ---------------------------------------------------------------------------
// How candidates compare

/// `a / b`, toward zero.
pub open spec fn quotient(a: int, b: int) -> int {
    if a >= 0 {
        a / b
    } else {
        -((-a) / b)
    }
}

/// `n` as a signed number of 64 bits, divided by `d`, toward zero.
fn signed_quotient(n: u64, d: i128) -> (r: i128)
    requires
        0 < d <= 0x1_0000,
    ensures
        r == quotient(as_signed(n), d as int),
        -0x8000_0000_0000_0000 <= r <= 0x7fff_ffff_ffff_ffff,
{
    let wide: i128 = n as i128;
    if n <= i64::MAX as u64 {
        proof {
            assert(0 <= n as int / d as int <= n) by (nonlinear_arith)
                requires
                    d > 0,
            ;
        }
        wide / d
    } else {
        let size: i128 = 0x1_0000_0000_0000_0000 - wide;
        proof {
            assert(0 <= size as int / d as int <= size) by (nonlinear_arith)
                requires
                    d > 0,
                    size >= 0,
            ;
        }
        -(size / d)
    }
}

/// The value, or 0.
pub open spec fn or_zero(n: Option<u64>) -> u64 {
    match n {
        Some(x) => x,
        None => 0,
    }
}

/// The quantisation of the values: that of the keys where it is not given.
pub open spec fn value_cache(c: CandidateView) -> Option<Seq<char>> {
    match c.kv_cache_v {
        Some(v) => Some(v),
        None => c.kv_cache,
    }
}

/// How precise the cache is.
pub open spec fn cache_weight(c: CandidateView) -> int {
    if c.kv_cache == Some("q8_0"@) && value_cache(c) == Some("q8_0"@) {
        3
    } else if c.kv_cache == Some("q8_0"@) && value_cache(c) == Some("q4_0"@) {
        2
    } else if c.kv_cache == Some("q4_0"@) && value_cache(c) == Some("q4_0"@) {
        1
    } else {
        0
    }
}

/// How much of the experts is on the graphics processor.
pub open spec fn expert_weight(c: CandidateView) -> int {
    if c.cpu_moe {
        -64
    } else {
        match c.n_cpu_moe {
            Some(n) => {
                let rest = 64 - as_signed(n);
                if rest > i64::MAX {
                    i64::MAX as int
                } else {
                    rest
                }
            },
            None => 0,
        }
    }
}

/// How little memory is asked to be left free.
pub open spec fn fit_weight(c: CandidateView) -> int {
    match c.fit_target {
        Some(n) => (2048 - (if n < 2048 {
            n as int
        } else {
            2048
        })) / 128,
        None => 0,
    }
}

/// How much a candidate asks of the machine.
pub open spec fn aggressiveness(c: CandidateView) -> int {
    quotient(as_signed(c.requested_context), 4096) + quotient(as_signed(or_zero(c.batch)), 1024)
        + quotient(as_signed(or_zero(c.ubatch)), 512) + fit_weight(c) + cache_weight(c)
        + expert_weight(c)
}

/// Of two candidates that differ in nothing else, the one that keeps the
/// experts of fewer layers on the processor asks more of the machine.
pub proof fn fewer_kept_experts_ask_more(c: CandidateView, fewer: u64, more: u64)
    requires
        !c.cpu_moe,
        fewer < more <= i64::MAX,
    ensures
        aggressiveness(CandidateView { n_cpu_moe: Some(fewer), ..c }) > aggressiveness(
            CandidateView { n_cpu_moe: Some(more), ..c },
        ),
{
}

/// The part of an id before its first hyphen.
pub open spec fn family(id: Seq<char>) -> Seq<char> {
    text::split(id, '-')[0]
}

fn cache_score(c: &CandidateConfig) -> (r: i128)
    ensures
        r == cache_weight(c@),
        0 <= r <= 3,
{
    let keys = match &c.kv_cache {
        Some(k) => k,
        None => {
            return 0;
        },
    };
    let fine = text::same_text(keys.as_str(), "q8_0");
    let coarse = text::same_text(keys.as_str(), "q4_0");
    let values = match &c.kv_cache_v {
        Some(v) => v,
        None => keys,
    };
    let fine_values = text::same_text(values.as_str(), "q8_0");
    let coarse_values = text::same_text(values.as_str(), "q4_0");
    if fine && fine_values {
        3
    } else if fine && coarse_values {
        2
    } else if coarse && coarse_values {
        1
    } else {
        0
    }
}

/// How much a candidate asks of the machine.
pub fn candidate_aggressiveness(c: &CandidateConfig) -> (r: i128)
    ensures
        r == aggressiveness(c@),
        -0x8_0000_0000_0000_0000 <= r <= 0x8_0000_0000_0000_0000,
{
    let context = signed_quotient(c.requested_context, 4096);
    let batch = signed_quotient(
        match c.batch {
            Some(n) => n,
            None => 0,
        },
        1024,
    );
    let ubatch = signed_quotient(
        match c.ubatch {
            Some(n) => n,
            None => 0,
        },
        512,
    );
    let fit: i128 = match c.fit_target {
        Some(n) => (2048 - (if n < 2048 {
            n as i128
        } else {
            2048
        })) / 128,
        None => 0,
    };
    let experts: i128 = if c.cpu_moe {
        -64
    } else {
        match c.n_cpu_moe {
            Some(n) => {
                let signed: i128 = if n <= i64::MAX as u64 {
                    n as i128
                } else {
                    n as i128 - 0x1_0000_0000_0000_0000
                };
                if 64 - signed > i64::MAX as i128 {
                    i64::MAX as i128
                } else {
                    64 - signed
                }
            },
            None => 0,
        }
    };
    context + batch + ubatch + fit + cache_score(c) + experts
}

proof fn split_is_not_empty(s: Seq<char>, c: char)
    ensures
        text::split(s, c).len() > 0,
{
    text::run_before_bound(s, c);
}

/// Whether two candidates are of one family.
pub fn same_candidate_family(left: &CandidateConfig, right: &CandidateConfig) -> (r: bool)
    ensures
        r == (family(left.id@) == family(right.id@)),
{
    let a = text::split_at_char(left.id.as_str(), '-');
    let b = text::split_at_char(right.id.as_str(), '-');
    proof {
        split_is_not_empty(left.id@, '-');
        split_is_not_empty(right.id@, '-');
        assert(text::texts(a@)[0] == a@[0]@);
        assert(text::texts(b@)[0] == b@[0]@);
    }
    text::same_text(a[0].as_str(), b[0].as_str())
}

/// Two candidates start the server in the same way.
pub open spec fn same_shape(a: CandidateView, b: CandidateView) -> bool {
    &&& a.requested_context == b.requested_context
    &&& a.batch == b.batch
    &&& a.ubatch == b.ubatch
    &&& a.kv_cache == b.kv_cache
    &&& a.kv_cache_v == b.kv_cache_v
    &&& a.fit_target == b.fit_target
    &&& a.gpu_layers == b.gpu_layers
    &&& a.cpu_moe == b.cpu_moe
    &&& a.n_cpu_moe == b.n_cpu_moe
}

/// Whether two candidates start the server in the same way.
pub fn same_candidate_shape(left: &CandidateConfig, right: &CandidateConfig) -> (r: bool)
    ensures
        r == same_shape(left@, right@),
{
    left.requested_context == right.requested_context && same_number(left.batch, right.batch)
        && same_number(left.ubatch, right.ubatch) && text::same_opt_text(
        &left.kv_cache,
        &right.kv_cache,
    ) && text::same_opt_text(&left.kv_cache_v, &right.kv_cache_v) && same_number(
        left.fit_target,
        right.fit_target,
    ) && same_number(left.gpu_layers, right.gpu_layers) && left.cpu_moe == right.cpu_moe
        && same_number(left.n_cpu_moe, right.n_cpu_moe)
}

// ---------------------------------------------------------------------------
// Promotion

/// The run left at least 2 GiB of video memory free.
pub open spec fn wants_more(r: ResultView) -> bool {
    r.outcome == Outcome::Pass && (r.metrics.min_free_vram_mib matches Some(free) && free >= 2048)
}

/// The run asked too much of the machine.
pub open spec fn wants_safer(r: ResultView) -> bool {
    ||| r.outcome == Outcome::Oom
    ||| r.outcome == Outcome::TooTight
    ||| r.outcome == Outcome::Timeout
    ||| r.outcome == Outcome::ServerCrash
}

/// How far a candidate goes in the direction that a result asks for; nothing
/// for one that was tried, is of another family, or goes the other way.
pub open spec fn gain(r: ResultView, seen: Seq<Seq<char>>, c: CandidateView) -> Option<int> {
    let step = aggressiveness(c) - aggressiveness(r.candidate);
    if seen.contains(c.id) || family(c.id) != family(r.candidate.id) {
        None
    } else if wants_more(r) && step > 0 {
        Some(step)
    } else if wants_safer(r) && step < 0 {
        Some(-step)
    } else {
        None
    }
}

/// How far each candidate goes.
pub open spec fn gains(r: ResultView, seen: Seq<Seq<char>>, queue: Seq<CandidateView>) -> Seq<
    Option<int>,
> {
    Seq::new(queue.len(), |i: int| gain(r, seen, queue[i]))
}

/// The first of the greatest entries.
pub open spec fn first_greatest(s: Seq<Option<int>>) -> Option<int>
    decreases s.len(),
{
    if s.len() == 0 {
        None
    } else {
        let held = first_greatest(s.drop_last());
        match (held, s.last()) {
            (_, None) => held,
            (None, Some(_)) => Some(s.len() - 1),
            (Some(i), Some(x)) => if x > s[i]->0 {
                Some(s.len() - 1)
            } else {
                held
            },
        }
    }
}

/// The first position of an id.
pub open spec fn position_of(queue: Seq<CandidateView>, id: Seq<char>) -> Option<int>
    decreases queue.len(),
{
    if queue.len() == 0 {
        None
    } else {
        match position_of(queue.drop_last(), id) {
            Some(i) => Some(i),
            None => if queue.last().id == id {
                Some(queue.len() - 1)
            } else {
                None
            },
        }
    }
}

/// The queue with the first candidate of this id at its front.
pub open spec fn to_front(queue: Seq<CandidateView>, id: Seq<char>) -> Seq<CandidateView> {
    match position_of(queue, id) {
        Some(i) => queue.remove(i).insert(0, queue[i]),
        None => queue,
    }
}

/// The queue after a result: the two candidates that go farthest in the
/// direction that it asks for come first.
pub open spec fn promoted(
    queue: Seq<CandidateView>,
    seen: Seq<Seq<char>>,
    r: ResultView,
) -> Seq<CandidateView> {
    let steps = gains(r, seen, queue);
    match first_greatest(steps) {
        None => queue,
        Some(i) => match first_greatest(steps.update(i, None)) {
            None => to_front(queue, queue[i].id),
            Some(j) => to_front(to_front(queue, queue[j].id), queue[i].id),
        },
    }
}

fn want_more(r: &ProfileResult) -> (b: bool)
    ensures
        b == wants_more(r@),
{
    match r.outcome {
        Outcome::Pass => match r.metrics.min_free_vram_mib {
            Some(free) => free >= 2048,
            None => false,
        },
        _ => false,
    }
}

fn want_safer(r: &ProfileResult) -> (b: bool)
    ensures
        b == wants_safer(r@),
{
    match r.outcome {
        Outcome::Oom | Outcome::TooTight | Outcome::Timeout | Outcome::ServerCrash => true,
        _ => false,
    }
}

fn gain_of(result: &ProfileResult, seen: &Vec<String>, c: &CandidateConfig) -> (r: Option<i128>)
    ensures
        match r {
            Some(x) => gain(result@, text::texts(seen@), c@) == Some(x as int),
            None => gain(result@, text::texts(seen@), c@) is None,
        },
{
    if text::holds_text(seen, c.id.as_str()) || !same_candidate_family(c, &result.candidate) {
        return None;
    }
    let step = candidate_aggressiveness(c) - candidate_aggressiveness(&result.candidate);
    if want_more(result) && step > 0 {
        Some(step)
    } else if want_safer(result) && step < 0 {
        Some(-step)
    } else {
        None
    }
}

/// The first of the greatest entries, `skip` left out.
fn greatest(steps: &Vec<Option<i128>>, skip: Option<usize>, Ghost(s): Ghost<Seq<Option<int>>>) -> (r:
    Option<usize>)
    requires
        s.len() == steps@.len(),
        skip matches Some(k) ==> k < s.len(),
        forall|i: int|
            0 <= i < s.len() ==> #[trigger] s[i] == (match steps@[i] {
                Some(x) => Some(x as int),
                None => None,
            }),
    ensures
        ({
            let t = match skip {
                Some(k) => s.update(k as int, None),
                None => s,
            };
            match r {
                Some(i) => i < s.len() && first_greatest(t) == Some(i as int),
                None => first_greatest(t) is None,
            }
        }),
{
    let ghost t = match skip {
        Some(k) => s.update(k as int, None),
        None => s,
    };
    let mut best: Option<usize> = None;
    let mut value: i128 = 0;
    proof {
        assert(t.take(0) =~= seq![]);
    }
    for i in 0..steps.len()
        invariant
            s.len() == steps@.len(),
            t.len() == s.len(),
            forall|i: int|
                0 <= i < s.len() ==> #[trigger] s[i] == (match steps@[i] {
                    Some(x) => Some(x as int),
                    None => None,
                }),
            t == (match skip {
                Some(k) => s.update(k as int, None),
                None => s,
            }),
            skip matches Some(k) ==> k < s.len(),
            match best {
                Some(b) => b < i && first_greatest(t.take(i as int)) == Some(b as int) && t[b as int]
                    == Some(value as int),
                None => first_greatest(t.take(i as int)) is None,
            },
    {
        let skipped = match skip {
            Some(k) => k == i,
            None => false,
        };
        let ghost part = t.take(i + 1);
        proof {
            assert(part.drop_last() =~= t.take(i as int));
            assert(part.last() == t[i as int]);
            assert(s[i as int] == (match steps@[i as int] {
                Some(x) => Some(x as int),
                None => None,
            }));
            if best is Some {
                assert(part[best->0 as int] == t[best->0 as int]);
                assert(t.take(i as int)[best->0 as int] == t[best->0 as int]);
            }
        }
        if !skipped {
            if let Some(x) = steps[i] {
                if best.is_none() || x > value {
                    best = Some(i);
                    value = x;
                }
            }
        }
    }
    proof {
        assert(t.take(t.len() as int) =~= t);
    }
    best
}

fn find_id(queue: &Vec<CandidateConfig>, id: &str) -> (r: Option<usize>)
    ensures
        match r {
            Some(i) => i < queue@.len() && position_of(views(queue@), id@) == Some(i as int),
            None => position_of(views(queue@), id@) is None,
        },
{
    let ghost all = views(queue@);
    for i in 0..queue.len()
        invariant
            all == views(queue@),
            position_of(all.take(i as int), id@) is None,
    {
        proof {
            assert(all.take(i + 1).drop_last() =~= all.take(i as int));
            assert(all.take(i + 1).last() == queue@[i as int]@);
        }
        if text::same_text(queue[i].id.as_str(), id) {
            proof {
                position_extends(all, id@, i + 1);
            }
            return Some(i);
        }
    }
    proof {
        assert(all.take(all.len() as int) =~= all);
    }
    None
}

proof fn position_extends(queue: Seq<CandidateView>, id: Seq<char>, n: int)
    requires
        0 <= n <= queue.len(),
        position_of(queue.take(n), id) is Some,
    ensures
        position_of(queue, id) == position_of(queue.take(n), id),
    decreases queue.len() - n,
{
    if n < queue.len() {
        assert(queue.take(n + 1).drop_last() =~= queue.take(n));
        position_extends(queue, id, n + 1);
    } else {
        assert(queue.take(n) =~= queue);
    }
}

fn bring_to_front(queue: &mut Vec<CandidateConfig>, id: &str)
    ensures
        views(final(queue)@) == to_front(views(old(queue)@), id@),
{
    let ghost before = views(queue@);
    if let Some(i) = find_id(queue, id) {
        let c = queue.remove(i);
        queue.insert(0, c);
        proof {
            assert(views(queue@) =~= before.remove(i as int).insert(0, before[i as int]));
        }
    }
}

/// Reorders the queue after a result: the two candidates that go farthest in
/// the direction that it asks for come first.
pub fn promote_adaptive_candidates(
    queue: &mut Vec<CandidateConfig>,
    seen: &Vec<String>,
    result: &ProfileResult,
)
    ensures
        views(final(queue)@) == promoted(views(old(queue)@), text::texts(seen@), result@),
{
    let ghost before = views(queue@);
    let ghost s = gains(result@, text::texts(seen@), before);
    let mut steps: Vec<Option<i128>> = Vec::new();
    for i in 0..queue.len()
        invariant
            before == views(queue@),
            s == gains(result@, text::texts(seen@), before),
            steps@.len() == i,
            forall|j: int|
                0 <= j < i ==> #[trigger] s[j] == (match steps@[j] {
                    Some(x) => Some(x as int),
                    None => None,
                }),
    {
        let step = gain_of(result, seen, &queue[i]);
        steps.push(step);
        proof {
            assert(before[i as int] == queue@[i as int]@);
            assert(s[i as int] == gain(result@, text::texts(seen@), before[i as int]));
        }
    }
    let first = match greatest(&steps, None, Ghost(s)) {
        Some(i) => i,
        None => {
            return;
        },
    };
    let first_id = queue[first].id.clone();
    let second = greatest(&steps, Some(first), Ghost(s));
    if let Some(j) = second {
        let second_id = queue[j].id.clone();
        bring_to_front(queue, second_id.as_str());
    }
    bring_to_front(queue, first_id.as_str());
}

proof fn to_front_permutes(queue: Seq<CandidateView>, id: Seq<char>)
    ensures
        to_front(queue, id).to_multiset() == queue.to_multiset(),
{
    broadcast use vstd::seq_lib::group_to_multiset_ensures;

    position_bound(queue, id);
    if let Some(i) = position_of(queue, id) {
        assert(queue.contains(queue[i]));
        assert(queue.to_multiset().count(queue[i]) > 0);
        assert(to_front(queue, id).to_multiset() =~= queue.to_multiset());
    }
}

proof fn position_bound(queue: Seq<CandidateView>, id: Seq<char>)
    ensures
        position_of(queue, id) matches Some(i) ==> 0 <= i < queue.len() && queue[i].id == id,
        position_of(queue, id) is None ==> forall|i: int|
            0 <= i < queue.len() ==> (#[trigger] queue[i]).id != id,
    decreases queue.len(),
{
    if queue.len() > 0 {
        let shorter = queue.drop_last();
        position_bound(shorter, id);
        assert forall|i: int| position_of(queue, id) is None && 0 <= i < queue.len() implies (
        #[trigger] queue[i]).id != id by {
            if i < shorter.len() {
                assert(shorter[i].id != id);
            }
        }
    }
}

/// A result only reorders what is planned: it neither adds nor drops a
/// candidate.
pub proof fn promotion_keeps_the_plan(
    queue: Seq<CandidateView>,
    seen: Seq<Seq<char>>,
    r: ResultView,
)
    ensures
        promoted(queue, seen, r).to_multiset() == queue.to_multiset(),
{
    let steps = gains(r, seen, queue);
    if let Some(i) = first_greatest(steps) {
        match first_greatest(steps.update(i, None)) {
            None => {
                to_front_permutes(queue, queue[i].id);
            },
            Some(j) => {
                to_front_permutes(queue, queue[j].id);
                to_front_permutes(to_front(queue, queue[j].id), queue[i].id);
            },
        }
    }
}

proof fn first_greatest_facts(s: Seq<Option<int>>)
    ensures
        match first_greatest(s) {
            Some(i) => 0 <= i < s.len() && s[i] is Some && forall|j: int|
                0 <= j < s.len() && (#[trigger] s[j]) is Some ==> s[j]->0 <= s[i]->0,
            None => forall|j: int| 0 <= j < s.len() ==> (#[trigger] s[j]) is None,
        },
    decreases s.len(),
{
    if s.len() > 0 {
        let t = s.drop_last();
        first_greatest_facts(t);
        assert(forall|j: int| 0 <= j < t.len() ==> #[trigger] s[j] == t[j]);
        assert(s[s.len() - 1] == s.last());
        match first_greatest(s) {
            Some(i) => {
                assert forall|j: int| 0 <= j < s.len() && (#[trigger] s[j]) is Some implies s[j]->0
                    <= s[i]->0 by {
                    if j < t.len() {
                        assert(t[j] is Some);
                    }
                }
            },
            None => {
                assert forall|j: int| 0 <= j < s.len() implies (#[trigger] s[j]) is None by {
                    if j < t.len() {
                        assert(t[j] is None);
                    }
                }
            },
        }
    }
}

/// After a run with headroom to spare, a candidate that asks more of the
/// machine comes first, and after a run that asked too much one that asks less;
/// in either case one of the same family that was not tried, if there is any.
pub proof fn promotion_goes_the_right_way(
    queue: Seq<CandidateView>,
    seen: Seq<Seq<char>>,
    r: ResultView,
    k: int,
)
    requires
        0 <= k < queue.len(),
        gain(r, seen, queue[k]) is Some,
        distinct_ids(queue),
    ensures
        promoted(queue, seen, r).len() > 0,
        gain(r, seen, promoted(queue, seen, r)[0]) matches Some(x) && x >= gain(
            r,
            seen,
            queue[k],
        )->0,
{
    let steps = gains(r, seen, queue);
    first_greatest_facts(steps);
    assert(steps[k] is Some);
    let i = first_greatest(steps)->0;
    first_greatest_facts(steps.update(i, None));
    position_bound(queue, queue[i].id);
    match first_greatest(steps.update(i, None)) {
        None => {
            let p = position_of(queue, queue[i].id)->0;
            assert(p == i);
        },
        Some(j) => {
            let mid = to_front(queue, queue[j].id);
            position_bound(queue, queue[j].id);
            let q = position_of(queue, queue[j].id)->0;
            assert(q == j);
            position_bound(mid, queue[i].id);
            let where_i = if i < j { i + 1 } else { i };
            assert(mid[where_i] == queue[i]);
            let p = position_of(mid, queue[i].id)->0;
            assert(mid[p].id == queue[i].id);
            assert(p == where_i) by {
                if p == 0 {
                    assert(mid[0] == queue[j]);
                } else if p <= j {
                    assert(mid[p] == queue[p - 1]);
                } else {
                    assert(mid[p] == queue[p]);
                }
            }
        },
    }
}

/// After a run that ran out of memory, was too tight, timed out or crashed, the
/// queue starts with a candidate that asks strictly less of the machine, and
/// after one that passed with 2 GiB of video memory free with one that asks
/// strictly more; in either case one of the same family that was not tried, and
/// one that goes as far as any other of these. No other run changes the queue.
pub proof fn promotion_answers_the_outcome(
    queue: Seq<CandidateView>,
    seen: Seq<Seq<char>>,
    r: ResultView,
    k: int,
)
    requires
        0 <= k < queue.len(),
        distinct_ids(queue),
        !seen.contains(queue[k].id),
        family(queue[k].id) == family(r.candidate.id),
    ensures
        (r.outcome == Outcome::Oom || r.outcome == Outcome::TooTight || r.outcome
            == Outcome::Timeout || r.outcome == Outcome::ServerCrash) && aggressiveness(queue[k])
            < aggressiveness(r.candidate) ==> {
            let first = promoted(queue, seen, r)[0];
            &&& promoted(queue, seen, r).len() > 0
            &&& !seen.contains(first.id)
            &&& family(first.id) == family(r.candidate.id)
            &&& aggressiveness(first) < aggressiveness(r.candidate)
            &&& aggressiveness(first) <= aggressiveness(queue[k])
        },
        r.outcome == Outcome::Pass && r.metrics.min_free_vram_mib is Some
            && r.metrics.min_free_vram_mib->0 >= 2048 && aggressiveness(queue[k]) > aggressiveness(
            r.candidate,
        ) ==> {
            let first = promoted(queue, seen, r)[0];
            &&& promoted(queue, seen, r).len() > 0
            &&& !seen.contains(first.id)
            &&& family(first.id) == family(r.candidate.id)
            &&& aggressiveness(first) > aggressiveness(r.candidate)
            &&& aggressiveness(first) >= aggressiveness(queue[k])
        },
{
    if gain(r, seen, queue[k]) is Some {
        promotion_goes_the_right_way(queue, seen, r, k);
    }
}

/// A run that was interrupted, passed only in part, or passed with less than
/// 2 GiB of video memory free or with none measured says nothing of what to try
/// next: the queue stays as it is.
pub proof fn promotion_waits_for_evidence(
    queue: Seq<CandidateView>,
    seen: Seq<Seq<char>>,
    r: ResultView,
)
    requires
        r.outcome == Outcome::Interrupted || r.outcome == Outcome::ParsePartial || (r.outcome
            == Outcome::Pass && (r.metrics.min_free_vram_mib is None
            || r.metrics.min_free_vram_mib->0 < 2048)),
    ensures
        promoted(queue, seen, r) == queue,
{
    first_greatest_facts(gains(r, seen, queue));
}

/// What asks more of the machine: each 4096 tokens of context, each 1024 of the
/// batch and each 512 of the small batch ask one step more, and so do 128 MiB
/// less to be left free.
pub proof fn more_asks_more(c: CandidateView, n: u64)
    requires
        n <= 0x7fff_ffff_ffff_0000,
    ensures
        aggressiveness(CandidateView { requested_context: (n + 4096) as u64, ..c })
            == aggressiveness(CandidateView { requested_context: n, ..c }) + 1,
        aggressiveness(CandidateView { batch: Some((n + 1024) as u64), ..c }) == aggressiveness(
            CandidateView { batch: Some(n), ..c },
        ) + 1,
        aggressiveness(CandidateView { ubatch: Some((n + 512) as u64), ..c }) == aggressiveness(
            CandidateView { ubatch: Some(n), ..c },
        ) + 1,
        aggressiveness(CandidateView { batch: Some(0), ..c }) == aggressiveness(
            CandidateView { batch: None, ..c },
        ),
        aggressiveness(CandidateView { ubatch: Some(0), ..c }) == aggressiveness(
            CandidateView { ubatch: None, ..c },
        ),
        n <= 1920 ==> aggressiveness(CandidateView { fit_target: Some(n), ..c }) == aggressiveness(
            CandidateView { fit_target: Some((n + 128) as u64), ..c },
        ) + 1,
        n >= 2048 ==> aggressiveness(CandidateView { fit_target: Some(n), ..c }) == aggressiveness(
            CandidateView { fit_target: None, ..c },
        ),
{
}

/// A finer cache asks more: one of 8 bits for keys and values more than one that
/// keeps the values in 4 bits, that more than one of 4 bits for both, and that
/// more than one of which nothing is said.
pub proof fn finer_caches_ask_more(c: CandidateView)
    ensures
        ({
            let fine = CandidateView { kv_cache: Some("q8_0"@), kv_cache_v: None, ..c };
            let mixed = CandidateView {
                kv_cache: Some("q8_0"@),
                kv_cache_v: Some("q4_0"@),
                ..c
            };
            let coarse = CandidateView { kv_cache: Some("q4_0"@), kv_cache_v: None, ..c };
            let unsaid = CandidateView { kv_cache: None, kv_cache_v: None, ..c };
            &&& aggressiveness(fine) > aggressiveness(mixed)
            &&& aggressiveness(mixed) > aggressiveness(coarse)
            &&& aggressiveness(coarse) > aggressiveness(unsaid)
        }),
{
    reveal_strlit("q8_0");
    reveal_strlit("q4_0");
    assert("q8_0"@[1] != "q4_0"@[1]);
}

/// All experts on the processor ask least, as long as the layers that keep
/// theirs there are at most 128.
pub proof fn all_kept_experts_ask_least(c: CandidateView, kept: u64)
    requires
        kept <= 128,
    ensures
        aggressiveness(CandidateView { cpu_moe: true, ..c }) <= aggressiveness(
            CandidateView { cpu_moe: false, n_cpu_moe: Some(kept), ..c },
        ),
        aggressiveness(CandidateView { cpu_moe: true, ..c }) < aggressiveness(
            CandidateView { cpu_moe: false, n_cpu_moe: None, ..c },
        ),
{
}

// ---------------------------------------------------------------------------
// Placements asked for

/// The placements to try first: those asked for that the number of experts
/// allows, each once.
pub open spec fn asked_placements(values: Seq<u64>, experts: Option<u64>) -> Seq<u64>
    decreases values.len(),
{
    if values.len() == 0 {
        seq![]
    } else {
        let before = asked_placements(values.drop_last(), experts);
        let n = values.last();
        if (experts matches Some(e) && n > e) || before.contains(n) {
            before
        } else {
            before.push(n)
        }
    }
}

/// A candidate for a placement that was asked for.
pub open spec fn explicit_row(context: u64, n: u64) -> CandidateView {
    CandidateView {
        id: "moe-q8_0-ncpumoe"@ + text::decimal(n as nat) + "-b16384-ub4096-explicit"@,
        requested_context: context,
        batch: Some(16_384),
        ubatch: Some(4_096),
        kv_cache: Some("q8_0"@),
        kv_cache_v: None,
        fit_target: Some(1_536),
        gpu_layers: None,
        cpu_moe: false,
        n_cpu_moe: Some(n),
        threads: None,
        threads_batch: None,
        expected_risk: CandidateRisk::Medium,
        note: "Explicit MoE expert-placement probe requested on the CLI"@,
        planning_note: "front-of-queue candidate from --n-cpu-moe-values"@,
    }
}

/// The first candidate of the same shape.
pub open spec fn twin(list: Seq<CandidateView>, c: CandidateView) -> Option<int>
    decreases list.len(),
{
    if list.len() == 0 {
        None
    } else {
        match twin(list.drop_last(), c) {
            Some(i) => Some(i),
            None => if same_shape(list.last(), c) {
                Some(list.len() - 1)
            } else {
                None
            },
        }
    }
}

/// The list with `c` at its front, in place of the first of the same shape.
pub open spec fn placed_first(list: Seq<CandidateView>, c: CandidateView) -> Seq<CandidateView> {
    match twin(list, c) {
        Some(i) => list.remove(i).insert(0, c),
        None => list.insert(0, c),
    }
}

/// The list with the candidates for several placements at its front.
pub open spec fn with_explicit(list: Seq<CandidateView>, context: u64, values: Seq<u64>) -> Seq<
    CandidateView,
>
    decreases values.len(),
{
    if values.len() == 0 {
        list
    } else {
        placed_first(
            with_explicit(list, context, values.drop_first()),
            explicit_row(context, values[0]),
        )
    }
}

/// The list with the placements that were asked for at its front, where the
/// model is a mixture of experts.
pub open spec fn prepended(
    list: Seq<CandidateView>,
    metadata: MetadataView,
    context: u64,
    values: Seq<u64>,
) -> Seq<CandidateView> {
    if metadata.model_kind != ModelKind::Moe {
        list
    } else {
        with_explicit(list, context, asked_placements(values, metadata.expert_count))
    }
}

fn explicit_candidate(context: u64, n: u64) -> (r: CandidateConfig)
    ensures
        r@ == explicit_row(context, n),
{
    let mut id = "moe-q8_0-ncpumoe".to_string();
    id.append(text::number(n).as_str());
    id.append("-b16384-ub4096-explicit");
    CandidateConfig {
        id,
        requested_context: context,
        batch: Some(16_384),
        ubatch: Some(4_096),
        kv_cache: Some("q8_0".to_string()),
        kv_cache_v: None,
        fit_target: Some(1_536),
        gpu_layers: None,
        cpu_moe: false,
        n_cpu_moe: Some(n),
        threads: None,
        threads_batch: None,
        expected_risk: CandidateRisk::Medium,
        note: "Explicit MoE expert-placement probe requested on the CLI".to_string(),
        planning_note: "front-of-queue candidate from --n-cpu-moe-values".to_string(),
    }
}

fn holds_number(list: &Vec<u64>, n: u64) -> (r: bool)
    ensures
        r == list@.contains(n),
{
    for i in 0..list.len()
        invariant
            forall|j: int| 0 <= j < i ==> list@[j] != n,
    {
        if list[i] == n {
            return true;
        }
    }
    false
}

fn find_twin(list: &Vec<CandidateConfig>, c: &CandidateConfig) -> (r: Option<usize>)
    ensures
        match r {
            Some(i) => i < list@.len() && twin(views(list@), c@) == Some(i as int),
            None => twin(views(list@), c@) is None,
        },
{
    let ghost all = views(list@);
    for i in 0..list.len()
        invariant
            all == views(list@),
            twin(all.take(i as int), c@) is None,
    {
        proof {
            assert(all.take(i + 1).drop_last() =~= all.take(i as int));
            assert(all.take(i + 1).last() == list@[i as int]@);
        }
        if same_candidate_shape(&list[i], c) {
            proof {
                twin_extends(all, c@, i + 1);
            }
            return Some(i);
        }
    }
    proof {
        assert(all.take(all.len() as int) =~= all);
    }
    None
}

proof fn twin_extends(list: Seq<CandidateView>, c: CandidateView, n: int)
    requires
        0 <= n <= list.len(),
        twin(list.take(n), c) is Some,
    ensures
        twin(list, c) == twin(list.take(n), c),
    decreases list.len() - n,
{
    if n < list.len() {
        assert(list.take(n + 1).drop_last() =~= list.take(n));
        twin_extends(list, c, n + 1);
    } else {
        assert(list.take(n) =~= list);
    }
}

/// Puts the placements that were asked for at the front of the list, where the
/// model is a mixture of experts.
pub fn prepend_explicit_n_cpu_moe_candidates(
    candidates: &mut Vec<CandidateConfig>,
    metadata: &GgufMetadata,
    requested_context: u64,
    values: &Vec<u64>,
)
    ensures
        views(final(candidates)@) == prepended(
            views(old(candidates)@),
            metadata@,
            requested_context,
            values@,
        ),
{
    if metadata.model_kind != ModelKind::Moe {
        return;
    }
    let ghost start = views(candidates@);
    let mut asked: Vec<u64> = Vec::new();
    proof {
        assert(values@.take(0) =~= seq![]);
    }
    for i in 0..values.len()
        invariant
            asked@ == asked_placements(values@.take(i as int), metadata.expert_count),
    {
        let n: u64 = values[i];
        proof {
            assert(values@.take(i + 1).drop_last() =~= values@.take(i as int));
        }
        let over = match metadata.expert_count {
            Some(e) => n > e,
            None => false,
        };
        if !over && !holds_number(&asked, n) {
            asked.push(n);
        }
    }
    proof {
        assert(values@.take(values@.len() as int) =~= values@);
        assert(asked@.skip(asked@.len() as int) =~= seq![]);
    }
    let mut left: usize = asked.len();
    while left > 0
        invariant
            left <= asked@.len(),
            views(candidates@) == with_explicit(start, requested_context, asked@.skip(left as int)),
        decreases left,
    {
        left -= 1;
        let c = explicit_candidate(requested_context, asked[left]);
        let ghost before = views(candidates@);
        proof {
            let rest = asked@.skip(left as int);
            assert(rest.drop_first() =~= asked@.skip(left + 1));
            assert(rest[0] == asked@[left as int]);
        }
        match find_twin(candidates, &c) {
            Some(i) => {
                candidates.remove(i);
                candidates.insert(0, c);
                proof {
                    assert(views(candidates@) =~= before.remove(i as int).insert(0, c@));
                }
            },
            None => {
                candidates.insert(0, c);
                proof {
                    assert(views(candidates@) =~= before.insert(0, c@));
                }
            },
        }
    }
    proof {
        assert(asked@.skip(0) =~= asked@);
    }
}

proof fn asked_once(values: Seq<u64>, experts: Option<u64>)
    ensures
        forall|i: int, j: int|
            0 <= i < j < asked_placements(values, experts).len() ==> asked_placements(
                values,
                experts,
            )[i] != asked_placements(values, experts)[j],
    decreases values.len(),
{
    if values.len() > 0 {
        asked_once(values.drop_last(), experts);
        let before = asked_placements(values.drop_last(), experts);
        let all = asked_placements(values, experts);
        assert forall|i: int, j: int| 0 <= i < j < all.len() implies all[i] != all[j] by {
            assert(all[i] == before[i]);
            if j < before.len() {
                assert(all[j] == before[j]);
            } else {
                assert(before.contains(before[i]));
            }
        }
    }
}

proof fn twin_bound(list: Seq<CandidateView>, c: CandidateView)
    ensures
        twin(list, c) matches Some(i) ==> 0 <= i < list.len() && same_shape(list[i], c),
    decreases list.len(),
{
    if list.len() > 0 {
        twin_bound(list.drop_last(), c);
    }
}

proof fn explicit_front(list: Seq<CandidateView>, context: u64, values: Seq<u64>)
    requires
        forall|i: int, j: int| 0 <= i < j < values.len() ==> values[i] != values[j],
    ensures
        with_explicit(list, context, values).len() >= values.len(),
        forall|i: int|
            0 <= i < values.len() ==> #[trigger] with_explicit(list, context, values)[i]
                == explicit_row(context, values[i]),
    decreases values.len(),
{
    if values.len() > 0 {
        let rest = values.drop_first();
        assert forall|i: int, j: int| 0 <= i < j < rest.len() implies rest[i] != rest[j] by {
            assert(rest[i] == values[i + 1] && rest[j] == values[j + 1]);
        }
        explicit_front(list, context, rest);
        let before = with_explicit(list, context, rest);
        let c = explicit_row(context, values[0]);
        let all = with_explicit(list, context, values);
        twin_bound(before, c);
        if let Some(k) = twin(before, c) {
            if k < rest.len() {
                assert(before[k] == explicit_row(context, rest[k]));
                assert(rest[k] == values[k + 1]);
                assert(values[0] != values[k + 1]);
            }
        }
        assert forall|i: int| 0 <= i < values.len() implies #[trigger] all[i] == explicit_row(
            context,
            values[i],
        ) by {
            if i > 0 {
                assert(before[i - 1] == explicit_row(context, rest[i - 1]));
            }
        }
    }
}

/// The placements that were asked for come first, in the order in which they
/// were asked for.
pub proof fn asked_placements_come_first(
    list: Seq<CandidateView>,
    metadata: MetadataView,
    context: u64,
    values: Seq<u64>,
    i: int,
)
    requires
        metadata.model_kind == ModelKind::Moe,
        0 <= i < asked_placements(values, metadata.expert_count).len(),
    ensures
        prepended(list, metadata, context, values).len() > i,
        prepended(list, metadata, context, values)[i] == explicit_row(
            context,
            asked_placements(values, metadata.expert_count)[i],
        ),
{
    asked_once(values, metadata.expert_count);
    explicit_front(list, context, asked_placements(values, metadata.expert_count));
}

// ---------------------------------------------------------------------------
// The search

/// How many candidates a search runs.
pub open spec fn budget_of(preset: Preset, max_runs: Option<usize>, candidates: nat) -> nat {
    let most = match max_runs {
        Some(n) => n,
        None => preset_budget(preset),
    };
    if (most as nat) < candidates {
        most as nat
    } else {
        candidates
    }
}

/// How many candidates a search runs.
pub fn run_budget(preset: Preset, max_runs: Option<usize>, candidates: usize) -> (r: usize)
    ensures
        r == budget_of(preset, max_runs, candidates as nat),
{
    let most: usize = match max_runs {
        Some(n) => n,
        None => preset.max_candidates(),
    };
    if most < candidates {
        most
    } else {
        candidates
    }
}

/// The candidates of a search, in the order in which to try them.
pub fn search_candidates(
    metadata: &GgufMetadata,
    preset: Preset,
    requested_context: u64,
    n_cpu_moe_values: &Vec<u64>,
    environment: &EnvironmentSnapshot,
) -> (r: Vec<CandidateConfig>)
    requires
        vram_sum(environment@.gpus) <= u64::MAX,
    ensures
        views(r@) == prepended(
            planned(metadata@, requested_context, vram_of(Some(environment@))),
            metadata@,
            requested_context,
            n_cpu_moe_values@,
        ),
{
    let mut r = generate_candidates_for_environment(
        metadata,
        preset,
        requested_context,
        None,
        Some(environment),
    );
    prepend_explicit_n_cpu_moe_candidates(&mut r, metadata, requested_context, n_cpu_moe_values);
    r
}

proof fn explicit_ids(context: u64, m: u64, n: u64)
    ensures
        explicit_row(context, m).id.len() > 0,
        explicit_row(context, m).id.last() == 't',
        explicit_row(context, m).id == explicit_row(context, n).id ==> m == n,
{
    reveal_strlit("moe-q8_0-ncpumoe");
    reveal_strlit("-b16384-ub4096-explicit");
    let lead = "moe-q8_0-ncpumoe"@;
    let tail = "-b16384-ub4096-explicit"@;
    let a = text::decimal(m as nat) + tail;
    let b = text::decimal(n as nat) + tail;
    let s = explicit_row(context, m).id;
    let u = explicit_row(context, n).id;
    assert(s =~= lead + a && u =~= lead + b);
    assert(s.last() == tail.last());
    if s == u {
        assert(a =~= s.skip(lead.len() as int) && b =~= u.skip(lead.len() as int));
        text::decimals_agree(m as nat, tail, n as nat, tail);
    }
}

/// An id of the plan, or one of these placements.
spec fn id_is_known(id: Seq<char>, context: u64, values: Seq<u64>) -> bool {
    ||| id.len() > 0 && text::is_digit(id.last())
    ||| exists|v: int| 0 <= v < values.len() && id == explicit_row(context, #[trigger] values[v]).id
}

proof fn placed_ids(list: Seq<CandidateView>, context: u64, values: Seq<u64>)
    requires
        distinct_ids(list),
        forall|i: int|
            0 <= i < list.len() ==> (#[trigger] list[i]).id.len() > 0 && text::is_digit(
                list[i].id.last(),
            ),
        forall|i: int, j: int| 0 <= i < j < values.len() ==> values[i] != values[j],
    ensures
        distinct_ids(with_explicit(list, context, values)),
        forall|i: int|
            0 <= i < with_explicit(list, context, values).len() ==> id_is_known(
                (#[trigger] with_explicit(list, context, values)[i]).id,
                context,
                values,
            ),
    decreases values.len(),
{
    if values.len() > 0 {
        let rest = values.drop_first();
        assert forall|i: int, j: int| 0 <= i < j < rest.len() implies rest[i] != rest[j] by {
            assert(rest[i] == values[i + 1] && rest[j] == values[j + 1]);
        }
        placed_ids(list, context, rest);
        let before = with_explicit(list, context, rest);
        let c = explicit_row(context, values[0]);
        let all = with_explicit(list, context, values);
        twin_bound(before, c);
        explicit_ids(context, values[0], values[0]);
        let at = match twin(before, c) {
            Some(k) => k,
            None => before.len() as int,
        };
        assert forall|i: int| 0 < i < all.len() implies (#[trigger] all[i]) == before[if i <= at {
            i - 1
        } else {
            i
        }] by {}
        assert(all[0] == c);
        assert forall|i: int| 0 <= i < before.len() implies (#[trigger] before[i]).id != c.id by {
            assert(id_is_known(before[i].id, context, rest));
            if before[i].id == c.id {
                let v = choose|v: int|
                    0 <= v < rest.len() && before[i].id == explicit_row(
                        context,
                        #[trigger] rest[v],
                    ).id;
                explicit_ids(context, values[0], rest[v]);
                assert(rest[v] == values[v + 1]);
            }
        }
        assert forall|i: int, j: int| 0 <= i < j < all.len() implies (#[trigger] all[i]).id != (
        #[trigger] all[j]).id by {
            let b = if j <= at { j - 1 } else { j };
            assert(all[j] == before[b]);
            if i > 0 {
                let a = if i <= at { i - 1 } else { i };
                assert(all[i] == before[a]);
                assert(before[a].id != before[b].id);
            } else {
                assert(before[b].id != c.id);
            }
        }
        assert forall|i: int| 0 <= i < all.len() implies id_is_known(
            (#[trigger] all[i]).id,
            context,
            values,
        ) by {
            if i == 0 {
                assert(all[i].id == explicit_row(context, values[0]).id);
            } else {
                let a = if i <= at { i - 1 } else { i };
                assert(all[i] == before[a]);
                assert(id_is_known(before[a].id, context, rest));
                if !text::is_digit(before[a].id.last()) {
                    let v = choose|v: int|
                        0 <= v < rest.len() && before[a].id == explicit_row(
                            context,
                            #[trigger] rest[v],
                        ).id;
                    assert(rest[v] == values[v + 1]);
                }
            }
        }
    }
}

/// No two candidates of a search have the same id, also with placements that
/// were asked for.
pub proof fn search_ids_are_distinct(
    metadata: MetadataView,
    context: u64,
    vram: Option<u64>,
    values: Seq<u64>,
)
    ensures
        distinct_ids(prepended(planned(metadata, context, vram), metadata, context, values)),
{
    plan_ids_are_distinct(metadata, context, vram);
    asked_once(values, metadata.expert_count);
    placed_ids(
        planned(metadata, context, vram),
        context,
        asked_placements(values, metadata.expert_count),
    );
}

/// What is left of a search keeps distinct ids: a result reorders it, and a
/// candidate that is tried leaves it.
pub proof fn searches_keep_ids_distinct(
    queue: Seq<CandidateView>,
    seen: Seq<Seq<char>>,
    r: ResultView,
)
    requires
        distinct_ids(queue),
    ensures
        distinct_ids(promoted(queue, seen, r)),
        distinct_ids(untried(queue, seen)),
        untried(queue, seen).len() > 0 ==> distinct_ids(untried(queue, seen).drop_first()),
{
    promotion_keeps_the_plan(queue, seen, r);
    order_keeps_ids_distinct(queue, promoted(queue, seen, r));
    untried_is_distinct(queue, seen);
    let left = untried(queue, seen);
    if left.len() > 0 {
        let rest = left.drop_first();
        assert forall|i: int, j: int| 0 <= i < j < rest.len() implies (#[trigger] rest[i]).id != (
        #[trigger] rest[j]).id by {
            assert(left[i + 1].id != left[j + 1].id);
        }
    }
}

proof fn untried_is_distinct(queue: Seq<CandidateView>, seen: Seq<Seq<char>>)
    requires
        distinct_ids(queue),
    ensures
        distinct_ids(untried(queue, seen)),
    decreases queue.len(),
{
    if queue.len() > 0 && seen.contains(queue[0].id) {
        let rest = queue.drop_first();
        assert forall|i: int, j: int| 0 <= i < j < rest.len() implies (#[trigger] rest[i]).id != (
        #[trigger] rest[j]).id by {
            assert(queue[i + 1].id != queue[j + 1].id);
        }
        untried_is_distinct(rest, seen);
    }
}

/// The plan of a search: what it would run, without running it.
pub fn candidate_plan(
    metadata: &GgufMetadata,
    model_identity: &ModelIdentity,
    requested_context: u64,
    preset: Preset,
    max_runs: Option<usize>,
    environment: &EnvironmentSnapshot,
    candidates: &Vec<CandidateConfig>,
    now: Timestamp,
) -> (r: CandidatePlan)
    ensures
        r@ == (PlanView {
            schema_version: SCHEMA_VERSION,
            generated_at: now,
            model_path: metadata.path@,
            model_identity: model_identity@,
            requested_context,
            preset,
            environment: environment@,
            candidates: views(candidates@).take(
                budget_of(preset, max_runs, candidates@.len()) as int,
            ),
        }),
{
    let n = run_budget(preset, max_runs, candidates.len());
    let mut first = duplicate_all(candidates);
    proof {
        assert(views(first@).len() == first@.len());
        assert(views(candidates@).len() == candidates@.len());
    }
    let ghost all = views(first@);
    first.truncate(n);
    proof {
        assert(views(first@) =~= all.take(n as int));
    }
    CandidatePlan {
        schema_version: SCHEMA_VERSION,
        generated_at: now,
        model_path: metadata.path.clone(),
        model_identity: model_identity.duplicate(),
        requested_context,
        preset,
        environment: environment.duplicate(),
        candidates: first,
    }
}

/// The queue without the candidates at its front that were tried.
pub open spec fn untried(queue: Seq<CandidateView>, seen: Seq<Seq<char>>) -> Seq<CandidateView>
    decreases queue.len(),
{
    if queue.len() > 0 && seen.contains(queue[0].id) {
        untried(queue.drop_first(), seen)
    } else {
        queue
    }
}

/// A search under way: what is planned, what was tried, and how many runs were
/// made of how many.
pub struct TuneSession {
    pub queue: Vec<CandidateConfig>,
    pub seen: Vec<String>,
    pub completed: usize,
    pub budget: usize,
}

impl TuneSession {
    /// A search over these candidates.
    pub fn new(candidates: &Vec<CandidateConfig>, budget: usize) -> (r: TuneSession)
        ensures
            views(r.queue@) == views(candidates@),
            r.seen@.len() == 0,
            r.completed == 0,
            r.budget == budget,
    {
        TuneSession {
            queue: duplicate_all(candidates),
            seen: Vec::new(),
            completed: 0,
            budget,
        }
    }

    /// The candidate to run next: the first that was not tried, while runs are
    /// left.
    pub fn next_candidate(&mut self) -> (r: Option<CandidateConfig>)
        ensures
            final(self).completed == old(self).completed,
            final(self).budget == old(self).budget,
            ({
                let q = untried(views(old(self).queue@), text::texts(old(self).seen@));
                if old(self).completed >= old(self).budget {
                    &&& r is None
                    &&& views(final(self).queue@) == views(old(self).queue@)
                    &&& text::texts(final(self).seen@) == text::texts(old(self).seen@)
                } else if q.len() == 0 {
                    &&& r is None
                    &&& final(self).queue@.len() == 0
                    &&& text::texts(final(self).seen@) == text::texts(old(self).seen@)
                } else {
                    &&& r matches Some(c) && c@ == q[0]
                    &&& views(final(self).queue@) == q.drop_first()
                    &&& text::texts(final(self).seen@) == text::texts(old(self).seen@).push(
                        q[0].id,
                    )
                }
            }),
    {
        if self.completed >= self.budget {
            return None;
        }
        let ghost q = untried(views(self.queue@), text::texts(self.seen@));
        let ghost tried = text::texts(self.seen@);
        while self.queue.len() > 0
            invariant
                self.completed == old(self).completed,
                self.budget == old(self).budget,
                old(self).completed < old(self).budget,
                self.seen@ == old(self).seen@,
                tried == text::texts(self.seen@),
                q == untried(views(old(self).queue@), text::texts(old(self).seen@)),
                untried(views(self.queue@), tried) == q,
            decreases self.queue@.len(),
        {
            let ghost before = views(self.queue@);
            let c = self.queue.remove(0);
            proof {
                assert(views(self.queue@) =~= before.drop_first());
                assert(before[0] == c@);
            }
            if !text::holds_text(&self.seen, c.id.as_str()) {
                self.seen.push(c.id.clone());
                proof {
                    assert(text::texts(self.seen@) =~= tried.push(c@.id));
                }
                return Some(c);
            }
        }
        None
    }

    /// Takes the result of the candidate that was run.
    pub fn record(&mut self, result: &ProfileResult)
        requires
            old(self).completed < old(self).budget,
        ensures
            final(self).completed == old(self).completed + 1,
            final(self).budget == old(self).budget,
            final(self).seen@ == old(self).seen@,
            views(final(self).queue@) == promoted(
                views(old(self).queue@),
                text::texts(old(self).seen@),
                result@,
            ),
    {
        self.completed = self.completed + 1;
        promote_adaptive_candidates(&mut self.queue, &self.seen, result);
    }
}

/// The candidates that a search runs with `left` runs left, where the runs end
/// with these results.
pub open spec fn searched(
    queue: Seq<CandidateView>,
    seen: Seq<Seq<char>>,
    left: nat,
    results: Seq<ResultView>,
) -> Seq<CandidateView>
    decreases left,
{
    let q = untried(queue, seen);
    if left == 0 || q.len() == 0 {
        seq![]
    } else if results.len() == 0 {
        seq![q[0]]
    } else {
        let tried = seen.push(q[0].id);
        seq![q[0]] + searched(
            promoted(q.drop_first(), tried, results[0]),
            tried,
            (left - 1) as nat,
            results.drop_first(),
        )
    }
}

proof fn untried_facts(queue: Seq<CandidateView>, seen: Seq<Seq<char>>)
    ensures
        untried(queue, seen).len() > 0 ==> !seen.contains(untried(queue, seen)[0].id),
        forall|c: CandidateView| #[trigger]
            untried(queue, seen).contains(c) ==> queue.contains(c),
    decreases queue.len(),
{
    if queue.len() > 0 && seen.contains(queue[0].id) {
        untried_facts(queue.drop_first(), seen);
        assert forall|c: CandidateView| #[trigger]
            untried(queue, seen).contains(c) implies queue.contains(c) by {
            let rest = queue.drop_first();
            assert(rest.contains(c));
            let i = choose|i: int| 0 <= i < rest.len() && rest[i] == c;
            assert(queue[i + 1] == c);
        }
    }
}

/// A search runs no more candidates than its budget, none twice, and only
/// those that were planned, whatever the results.
pub proof fn searches_are_bounded(
    queue: Seq<CandidateView>,
    seen: Seq<Seq<char>>,
    left: nat,
    results: Seq<ResultView>,
)
    ensures
        searched(queue, seen, left, results).len() <= left,
        forall|i: int, j: int|
            0 <= i < j < searched(queue, seen, left, results).len() ==> (#[trigger] searched(
                queue,
                seen,
                left,
                results,
            )[i]).id != (#[trigger] searched(queue, seen, left, results)[j]).id,
        forall|i: int|
            0 <= i < searched(queue, seen, left, results).len() ==> !seen.contains(
                (#[trigger] searched(queue, seen, left, results)[i]).id,
            ) && queue.contains(searched(queue, seen, left, results)[i]),
    decreases left,
{
    broadcast use vstd::seq_lib::group_to_multiset_ensures;

    let q = untried(queue, seen);
    untried_facts(queue, seen);
    if left > 0 && q.len() > 0 {
        assert(q.contains(q[0]));
        if results.len() > 0 {
            let tried = seen.push(q[0].id);
            let rest = q.drop_first();
            let next = promoted(rest, tried, results[0]);
            searches_are_bounded(next, tried, (left - 1) as nat, results.drop_first());
            promotion_keeps_the_plan(rest, tried, results[0]);
            let later = searched(next, tried, (left - 1) as nat, results.drop_first());
            let all = searched(queue, seen, left, results);
            assert(tried[tried.len() - 1] == q[0].id);
            assert forall|i: int| 0 <= i < later.len() implies (#[trigger] later[i]).id != q[0].id
                && !seen.contains(later[i].id) && queue.contains(later[i]) by {
                assert(!tried.contains(later[i].id));
                if seen.contains(later[i].id) {
                    let k = choose|k: int| 0 <= k < seen.len() && seen[k] == later[i].id;
                    assert(tried[k] == later[i].id);
                }
                assert(next.contains(later[i]));
                assert(next.to_multiset().count(later[i]) > 0);
                assert(rest.to_multiset().count(later[i]) > 0);
                assert(rest.contains(later[i]));
                let k = choose|k: int| 0 <= k < rest.len() && rest[k] == later[i];
                assert(q[k + 1] == later[i]);
                assert(q.contains(later[i]));
            }
            assert(all[0] == q[0]);
            assert forall|i: int, j: int| 0 <= i < j < all.len() implies (#[trigger] all[i]).id != (
            #[trigger] all[j]).id by {
                assert(all[j] == later[j - 1]);
                if i > 0 {
                    assert(all[i] == later[i - 1]);
                }
            }
            assert forall|i: int| 0 <= i < all.len() implies !seen.contains(
                (#[trigger] all[i]).id,
            ) && queue.contains(all[i]) by {
                if i > 0 {
                    assert(all[i] == later[i - 1]);
                }
            }
        }
    }
}

// ---------------------------------------------------------------------------
// Confirmation

/// The run completed within the limits.
pub open spec fn fit(r: ResultView, safety: SafetyLimits) -> bool {
    usable(r.outcome) && !violates(r.metrics, safety)
}

/// The runs among the first `n` that completed within the limits.
pub open spec fn fit_runs(runs: Seq<ResultView>, safety: SafetyLimits, n: nat) -> Seq<int>
    decreases n,
{
    if n == 0 {
        seq![]
    } else {
        let before = fit_runs(runs, safety, (n - 1) as nat);
        if fit(runs[n - 1], safety) {
            before.push(n - 1)
        } else {
            before
        }
    }
}

/// The scores of some runs.
pub open spec fn scores_of(list: Seq<int>, scores: Seq<Real>) -> Seq<Real> {
    Seq::new(list.len(), |k: int| scores[list[k]])
}

/// Some runs by falling score.
pub open spec fn by_falling_score(list: Seq<int>, scores: Seq<Real>) -> Seq<int> {
    Seq::new(list.len(), |k: int| list[falling(scores_of(list, scores), list.len())[k]])
}

/// The runs to repeat: the three best that completed within the limits.
pub open spec fn promising(
    runs: Seq<ResultView>,
    scores: Seq<Real>,
    safety: SafetyLimits,
) -> Seq<int> {
    let order = by_falling_score(fit_runs(runs, safety, runs.len()), scores);
    if order.len() < 3 {
        order
    } else {
        order.take(3)
    }
}

/// Whether a run completed within the limits.
pub fn is_fit(result: &ProfileResult, safety: &SafetyLimits) -> (r: bool)
    ensures
        r == fit(result@, *safety),
{
    result.outcome.is_usable() && !violates_safety(&result.metrics, safety)
}

/// The runs that completed within the limits.
pub fn list_fit_runs(results: &Vec<ProfileResult>, safety: &SafetyLimits) -> (r: Vec<usize>)
    ensures
        r@.len() == fit_runs(views(results@), *safety, results@.len()).len(),
        forall|k: int|
            0 <= k < r@.len() ==> (#[trigger] r@[k]) == fit_runs(
                views(results@),
                *safety,
                results@.len(),
            )[k],
        forall|k: int| 0 <= k < r@.len() ==> (#[trigger] r@[k]) < results@.len(),
{
    let ghost runs = views(results@);
    let mut r: Vec<usize> = Vec::new();
    for i in 0..results.len()
        invariant
            runs == views(results@),
            r@.len() == fit_runs(runs, *safety, i as nat).len(),
            forall|k: int|
                0 <= k < r@.len() ==> (#[trigger] r@[k]) == fit_runs(runs, *safety, i as nat)[k],
            forall|k: int| 0 <= k < r@.len() ==> (#[trigger] r@[k]) < i,
    {
        let ghost before = r@;
        if is_fit(&results[i], safety) {
            r.push(i);
        }
        proof {
            assert forall|k: int| 0 <= k < r@.len() implies (#[trigger] r@[k]) == fit_runs(
                runs,
                *safety,
                (i + 1) as nat,
            )[k] && r@[k] < i + 1 by {
                if k < before.len() {
                    assert(r@[k] == before[k]);
                }
            }
        }
    }
    r
}

/// Some runs by falling score.
pub(crate) fn sort_by_falling_score(list: &Vec<usize>, scores: &Vec<Real>, Ghost(s): Ghost<Seq<int>>) -> (r:
    Vec<usize>)
    requires
        s.len() == list@.len(),
        forall|k: int| 0 <= k < s.len() ==> (#[trigger] list@[k]) == s[k],
        forall|k: int| 0 <= k < s.len() ==> (#[trigger] list@[k]) < scores@.len(),
    ensures
        r@.len() == s.len(),
        forall|k: int| 0 <= k < r@.len() ==> (#[trigger] r@[k]) == by_falling_score(s, scores@)[k],
        forall|k: int| 0 <= k < r@.len() ==> (#[trigger] r@[k]) < scores@.len(),
{
    let mut values: Vec<Real> = Vec::new();
    for k in 0..list.len()
        invariant
            s.len() == list@.len(),
            forall|k: int| 0 <= k < s.len() ==> (#[trigger] list@[k]) == s[k],
            forall|k: int| 0 <= k < s.len() ==> (#[trigger] list@[k]) < scores@.len(),
            values@ == scores_of(s, scores@).take(k as int),
    {
        proof {
            assert(list@[k as int] == s[k as int]);
            assert(scores_of(s, scores@).take(k + 1) =~= scores_of(s, scores@).take(k as int).push(
                scores@[s[k as int]],
            ));
        }
        values.push(scores[list[k]]);
    }
    proof {
        assert(scores_of(s, scores@).take(s.len() as int) =~= scores_of(s, scores@));
    }
    let order = order_falling(&values);
    let mut r: Vec<usize> = Vec::new();
    for k in 0..order.len()
        invariant
            s.len() == list@.len(),
            order@.len() == s.len(),
            values@ == scores_of(s, scores@),
            forall|k: int| 0 <= k < s.len() ==> (#[trigger] list@[k]) == s[k],
            forall|k: int| 0 <= k < s.len() ==> (#[trigger] list@[k]) < scores@.len(),
            forall|j: int|
                0 <= j < order@.len() ==> #[trigger] order@[j] == falling(values@, values@.len())[j]
                    && order@[j] < values@.len(),
            r@.len() == k,
            forall|j: int| 0 <= j < k ==> (#[trigger] r@[j]) == by_falling_score(s, scores@)[j],
            forall|j: int| 0 <= j < k ==> (#[trigger] r@[j]) < scores@.len(),
    {
        let i = order[k];
        proof {
            assert(order@[k as int] == falling(values@, values@.len())[k as int]);
            assert(list@[i as int] == s[i as int]);
        }
        r.push(list[i]);
    }
    r
}

/// The runs to repeat for confirmation, given the balance of each run.
pub fn confirmation_runs(
    results: &Vec<ProfileResult>,
    scores: &Vec<Real>,
    safety: &SafetyLimits,
) -> (r: Vec<usize>)
    requires
        results@.len() == scores@.len(),
    ensures
        r@.len() == promising(views(results@), scores@, *safety).len(),
        forall|k: int|
            0 <= k < r@.len() ==> (#[trigger] r@[k]) == promising(
                views(results@),
                scores@,
                *safety,
            )[k] && r@[k] < results@.len(),
{
    let ghost s = fit_runs(views(results@), *safety, results@.len());
    let list = list_fit_runs(results, safety);
    let mut r = sort_by_falling_score(&list, scores, Ghost(s));
    r.truncate(3);
    r
}

// ---------------------------------------------------------------------------
// Coverage

/// The candidate says where the model is placed.
pub open spec fn places_model(c: CandidateView) -> bool {
    c.cpu_moe || c.n_cpu_moe is Some || c.gpu_layers is Some
}

/// An entry, where it applies.
pub open spec fn entry_if(applies: bool, name: Seq<char>) -> Seq<Seq<char>> {
    if applies {
        seq![name]
    } else {
        seq![]
    }
}

/// What a search covered.
pub open spec fn coverage_of(
    preset: Preset,
    planned_candidates: usize,
    tested_candidates: usize,
    candidates: Seq<CandidateView>,
    near_full_ingest: bool,
    thread_refined: bool,
    confirmation_runs: usize,
) -> CoverageView {
    CoverageView {
        preset,
        planned_candidates,
        tested_candidates,
        searched_dimensions: seq!["context"@, "batch"@, "microbatch"@, "KV cache"@] + entry_if(
            exists|i: int| 0 <= i < candidates.len() && places_model(#[trigger] candidates[i]),
            "model placement"@,
        ) + entry_if(thread_refined, "CPU threads"@),
        not_searched_dimensions: entry_if(!near_full_ingest, "near-full context"@) + entry_if(
            !thread_refined,
            "CPU threads"@,
        ) + entry_if(confirmation_runs == 0, "repeated measurements"@),
        confirmation_runs,
    }
}

/// What a search covered.
pub fn search_coverage(
    preset: Preset,
    planned_candidates: usize,
    tested_candidates: usize,
    candidates: &Vec<CandidateConfig>,
    near_full_ingest: bool,
    thread_refined: bool,
    confirmation_runs: usize,
) -> (r: SearchCoverage)
    ensures
        r@ == coverage_of(
            preset,
            planned_candidates,
            tested_candidates,
            views(candidates@),
            near_full_ingest,
            thread_refined,
            confirmation_runs,
        ),
{
    let ghost all = views(candidates@);
    let mut placed = false;
    for i in 0..candidates.len()
        invariant
            all == views(candidates@),
            placed == (exists|j: int| 0 <= j < i && places_model(#[trigger] all[j])),
    {
        let here = candidates[i].cpu_moe || candidates[i].n_cpu_moe.is_some()
            || candidates[i].gpu_layers.is_some();
        proof {
            assert(here == places_model(all[i as int]));
        }
        placed = placed || here;
    }
    let mut searched: Vec<String> = Vec::new();
    searched.push("context".to_string());
    searched.push("batch".to_string());
    searched.push("microbatch".to_string());
    searched.push("KV cache".to_string());
    if placed {
        searched.push("model placement".to_string());
    }
    if thread_refined {
        searched.push("CPU threads".to_string());
    }
    let mut missing: Vec<String> = Vec::new();
    if !near_full_ingest {
        missing.push("near-full context".to_string());
    }
    if !thread_refined {
        missing.push("CPU threads".to_string());
    }
    if confirmation_runs == 0 {
        missing.push("repeated measurements".to_string());
    }
    let r = SearchCoverage {
        preset,
        planned_candidates,
        tested_candidates,
        searched_dimensions: searched,
        not_searched_dimensions: missing,
        confirmation_runs,
    };
    proof {
        let c = coverage_of(
            preset,
            planned_candidates,
            tested_candidates,
            all,
            near_full_ingest,
            thread_refined,
            confirmation_runs,
        );
        assert(r@.searched_dimensions =~= c.searched_dimensions);
        assert(r@.not_searched_dimensions =~= c.not_searched_dimensions);
    }
    r
}

/// The search tested enough candidates to speak of a benchmark.
pub open spec fn broad(coverage: Option<CoverageView>) -> bool {
    coverage matches Some(c) && (c.tested_candidates >= 3 || c.tested_candidates
        >= c.planned_candidates)
}

/// Whether the search tested enough candidates to speak of a benchmark.
pub fn is_broad(coverage: &Option<SearchCoverage>) -> (r: bool)
    ensures
        r == broad(opt_view(*coverage)),
{
    match coverage {
        Some(c) => c.tested_candidates >= 3 || c.tested_candidates >= c.planned_candidates,
        None => false,
    }
}

/// The profiles, each with how far its evidence reaches.
pub open spec fn labelled(profiles: Seq<RecommendationView>, wide: bool) -> Seq<
    RecommendationView,
> {
    Seq::new(
        profiles.len(),
        |i: int|
            RecommendationView {
                confidence: confidence_text(
                    profiles[i].validation_level,
                    profiles[i].measurement_count,
                    wide,
                ),
                ..profiles[i]
            },
    )
}

/// Says of each profile how far its evidence reaches.
pub fn apply_confidence_labels(recommendations: &mut RecommendationFile)
    ensures
        final(recommendations)@ == (RecommendationsView {
            profiles: labelled(
                old(recommendations)@.profiles,
                broad(old(recommendations)@.coverage),
            ),
            ..old(recommendations)@
        }),
{
    let wide = is_broad(&recommendations.coverage);
    let ghost before = views(recommendations.profiles@);
    let ghost goal = labelled(before, wide);
    let mut done = duplicate_all(&recommendations.profiles);
    proof {
        assert(views(done@).len() == done@.len());
    }
    let count: usize = done.len();
    for i in 0..count
        invariant
            count == done@.len(),
            goal == labelled(before, wide),
            done@.len() == before.len(),
            forall|j: int| 0 <= j < i ==> (#[trigger] done@[j])@ == goal[j],
            forall|j: int| i <= j < done@.len() ==> (#[trigger] done@[j])@ == before[j],
    {
        let mut profile = done[i].duplicate();
        profile.confidence =
        confidence(profile.validation_level, profile.measurement_count, wide);
        done.set(i, profile);
    }
    recommendations.profiles = done;
    proof {
        assert(views(recommendations.profiles@) =~= goal);
    }
}

/// The first profile with this id.
pub open spec fn profile_named(profiles: Seq<RecommendationView>, id: Seq<char>) -> Option<int>
    decreases profiles.len(),
{
    if profiles.len() == 0 {
        None
    } else {
        match profile_named(profiles.drop_last(), id) {
            Some(i) => Some(i),
            None => if profiles.last().id == id {
                Some(profiles.len() - 1)
            } else {
                None
            },
        }
    }
}

proof fn profile_named_extends(profiles: Seq<RecommendationView>, id: Seq<char>, n: int)
    requires
        0 <= n <= profiles.len(),
        profile_named(profiles.take(n), id) is Some,
    ensures
        profile_named(profiles, id) == profile_named(profiles.take(n), id),
    decreases profiles.len() - n,
{
    if n < profiles.len() {
        assert(profiles.take(n + 1).drop_last() =~= profiles.take(n));
        profile_named_extends(profiles, id, n + 1);
    } else {
        assert(profiles.take(n) =~= profiles);
    }
}

/// The first profile with this id.
pub fn find_profile(recommendations: &RecommendationFile, id: &str) -> (r: Option<usize>)
    ensures
        match r {
            Some(i) => i < recommendations.profiles@.len() && profile_named(
                recommendations@.profiles,
                id@,
            ) == Some(i as int),
            None => profile_named(recommendations@.profiles, id@) is None,
        },
{
    let ghost all = recommendations@.profiles;
    for i in 0..recommendations.profiles.len()
        invariant
            all == views(recommendations.profiles@),
            profile_named(all.take(i as int), id@) is None,
    {
        proof {
            assert(all.take(i + 1).drop_last() =~= all.take(i as int));
            assert(all.take(i + 1).last() == recommendations.profiles@[i as int]@);
        }
        if text::same_text(recommendations.profiles[i].id.as_str(), id) {
            proof {
                profile_named_extends(all, id@, i + 1);
            }
            return Some(i);
        }
    }
    proof {
        assert(all.take(all.len() as int) =~= all);
    }
    None
}

/// The profiles with the one for the goal in front, in exchange for the one
/// that was there.
pub open spec fn prioritized(profiles: Seq<RecommendationView>, goal: WorkloadGoal) -> Seq<
    RecommendationView,
> {
    match profile_named(profiles, goal_profile(goal)) {
        Some(i) => profiles.update(0, profiles[i]).update(i, profiles[0]),
        None => profiles,
    }
}

/// Puts the profile for the goal in front.
pub fn prioritize_goal(recommendations: &mut RecommendationFile, goal: WorkloadGoal)
    ensures
        final(recommendations)@ == (RecommendationsView {
            profiles: prioritized(old(recommendations)@.profiles, goal),
            ..old(recommendations)@
        }),
{
    let ghost before = views(recommendations.profiles@);
    if let Some(i) = find_profile(recommendations, goal.profile_id()) {
        let mut done = duplicate_all(&recommendations.profiles);
        proof {
            assert(views(done@).len() == done@.len());
            assert(before.len() == recommendations.profiles@.len());
        }
        let first = recommendations.profiles[0].duplicate();
        let chosen = recommendations.profiles[i].duplicate();
        done.set(0, chosen);
        done.set(i, first);
        recommendations.profiles = done;
        proof {
            assert(views(recommendations.profiles@) =~= before.update(0, before[i as int]).update(
                i as int,
                before[0],
            ));
        }
    }
}

/// The profile for the goal comes first, if there is one.
pub proof fn the_goal_comes_first(profiles: Seq<RecommendationView>, goal: WorkloadGoal)
    requires
        profile_named(profiles, goal_profile(goal)) is Some,
    ensures
        prioritized(profiles, goal).len() == profiles.len(),
        prioritized(profiles, goal)[0].id == goal_profile(goal),
{
    profile_named_bound(profiles, goal_profile(goal));
}

proof fn profile_named_bound(profiles: Seq<RecommendationView>, id: Seq<char>)
    ensures
        profile_named(profiles, id) matches Some(i) ==> 0 <= i < profiles.len() && profiles[i].id
            == id,
    decreases profiles.len(),
{
    if profiles.len() > 0 {
        profile_named_bound(profiles.drop_last(), id);
    }
}

// ---------------------------------------------------------------------------
// Runs of a search

/// What a run of a search validates.
pub open spec fn preset_level(preset: Preset) -> ValidationLevel {
    match preset {
        Preset::Quick => ValidationLevel::Smoke,
        Preset::Standard => ValidationLevel::StandardIngest,
        Preset::Thorough => ValidationLevel::StandardIngest,
    }
}

/// What a run of a search validates.
pub fn validation_level(preset: Preset) -> (r: ValidationLevel)
    ensures
        r == preset_level(preset),
{
    match preset {
        Preset::Quick => ValidationLevel::Smoke,
        Preset::Standard | Preset::Thorough => ValidationLevel::StandardIngest,
    }
}

/// Whether a search ends with a validation of the best candidate.
pub fn validates_best(preset: Preset, asked: bool) -> (r: bool)
    ensures
        r == (preset != Preset::Quick || asked),
{
    preset != Preset::Quick || asked
}

/// Why there is no port.
#[derive(Clone, Copy, Debug, PartialEq, Eq, Structural)]
pub enum PortError {
    /// Ports are counted from 1.
    ZeroStart,
    /// The offset is larger than any port.
    OffsetTooLarge,
    /// The port would be larger than any port.
    OutOfRange,
}

/// The port of the run with this offset.
pub fn port_with_offset(start: u16, offset: usize) -> (r: Result<u16, PortError>)
    ensures
        match r {
            Ok(port) => start > 0 && port == start + offset,
            Err(PortError::ZeroStart) => start == 0,
            Err(PortError::OffsetTooLarge) => start > 0 && offset > u16::MAX,
            Err(PortError::OutOfRange) => start > 0 && offset <= u16::MAX && start + offset
                > u16::MAX,
        },
{
    if start == 0 {
        return Err(PortError::ZeroStart);
    }
    if offset > u16::MAX as usize {
        return Err(PortError::OffsetTooLarge);
    }
    match start.checked_add(offset as u16) {
        Some(port) => Ok(port),
        None => Err(PortError::OutOfRange),
    }
}

impl PortError {
    /// Why there is no port.
    pub fn message(self) -> (r: &'static str)
        ensures
            r@ == (match self {
                PortError::ZeroStart => "--port-start must be between 1 and 65535"@,
                PortError::OffsetTooLarge => "port offset exceeds u16"@,
                PortError::OutOfRange => "port range exceeds 65535"@,
            }),
    {
        match self {
            PortError::ZeroStart => "--port-start must be between 1 and 65535",
            PortError::OffsetTooLarge => "port offset exceeds u16",
            PortError::OutOfRange => "port range exceeds 65535",
        }
    }
}

/// The first and the last port to try: a thousand of them, as far as there are
/// so many.
pub fn port_range(start: u16) -> (r: Result<(u16, u16), PortError>)
    ensures
        match r {
            Ok((first, last)) => start > 0 && first == start && last == (if start + 999
                <= u16::MAX {
                start + 999
            } else {
                u16::MAX as int
            }),
            Err(PortError::ZeroStart) => start == 0,
            Err(_) => false,
        },
{
    if start == 0 {
        return Err(PortError::ZeroStart);
    }
    Ok((start, start.saturating_add(999)))
}

/// The stage of a search that a run belongs to.
#[derive(Clone, Copy, Debug, PartialEq, Eq, Structural)]
pub enum Stage {
    /// The candidates.
    Search,
    /// Thread counts for the best of them.
    Refinement,
    /// The promising candidates again.
    Confirmation,
    /// The best of them with one long request.
    Validation,
}

/// The offset of the port of run `index` of a stage: a search counts its runs,
/// a refinement goes on from there, and the later stages leave out five.
pub open spec fn offset_of(stage: Stage, completed: nat, index: nat) -> nat {
    match stage {
        Stage::Search => index,
        Stage::Refinement => completed + index,
        Stage::Confirmation | Stage::Validation => completed + 5 + index,
    }
}

/// The port of run `index` of a stage, after a search with this many completed
/// runs.
pub fn stage_port(start: u16, stage: Stage, completed: usize, index: usize) -> (r: Result<
    u16,
    PortError,
>)
    ensures
        match r {
            Ok(port) => start > 0 && port == start + offset_of(
                stage,
                completed as nat,
                index as nat,
            ),
            Err(PortError::ZeroStart) => start == 0,
            Err(PortError::OffsetTooLarge) => start > 0 && offset_of(
                stage,
                completed as nat,
                index as nat,
            ) > u16::MAX,
            Err(PortError::OutOfRange) => start > 0 && offset_of(
                stage,
                completed as nat,
                index as nat,
            ) <= u16::MAX && start + offset_of(stage, completed as nat, index as nat) > u16::MAX,
        },
{
    let offset: usize = match stage {
        Stage::Search => index,
        Stage::Refinement => completed.saturating_add(index),
        Stage::Confirmation => completed.saturating_add(5).saturating_add(index),
        Stage::Validation => completed.saturating_add(5).saturating_add(index),
    };
    port_with_offset(start, offset)
}

/// The family of an id is what stands before its first hyphen, whatever follows.
pub proof fn families_are_prefixes(name: Seq<char>, rest: Seq<char>)
    requires
        !name.contains('-'),
    ensures
        family(name + seq!['-'] + rest) == name,
        family(name) == name,
{
    run_ends(name, rest);
    run_ends_nowhere(name);
    let id = name + seq!['-'] + rest;
    assert(id.take(name.len() as int) =~= name);
    assert(name.take(name.len() as int) =~= name);
}

proof fn run_ends(name: Seq<char>, rest: Seq<char>)
    requires
        !name.contains('-'),
    ensures
        text::run_before(name + seq!['-'] + rest, '-') == name.len(),
    decreases name.len(),
{
    let id = name + seq!['-'] + rest;
    if name.len() > 0 {
        assert(name.contains(name[0]));
        let shorter = name.drop_first();
        assert forall|c: char| shorter.contains(c) implies name.contains(c) by {
            let i = choose|i: int| 0 <= i < shorter.len() && shorter[i] == c;
            assert(name[i + 1] == c);
        }
        run_ends(shorter, rest);
        assert(id.drop_first() =~= shorter + seq!['-'] + rest);
        assert(id.skip(1) =~= shorter + seq!['-'] + rest);
        assert(id[0] == name[0]);
    } else {
        assert(id[0] == '-');
    }
}

proof fn run_ends_nowhere(name: Seq<char>)
    requires
        !name.contains('-'),
    ensures
        text::run_before(name, '-') == name.len(),
    decreases name.len(),
{
    if name.len() > 0 {
        assert(name.contains(name[0]));
        let shorter = name.drop_first();
        assert forall|c: char| shorter.contains(c) implies name.contains(c) by {
            let i = choose|i: int| 0 <= i < shorter.len() && shorter[i] == c;
            assert(name[i + 1] == c);
        }
        run_ends_nowhere(shorter);
        assert(name.skip(1) =~= shorter);
    }
}

/// How many candidates a search tries: as many as were asked for, or else 6, 16
/// or 48 by the preset, but no more than there are.
pub proof fn budgets_are_kept(preset: Preset, asked: usize, candidates: nat)
    ensures
        budget_of(preset, Some(asked), candidates) <= asked,
        budget_of(preset, Some(asked), candidates) <= candidates,
        asked <= candidates ==> budget_of(preset, Some(asked), candidates) == asked,
        asked >= candidates ==> budget_of(preset, Some(asked), candidates) == candidates,
        candidates >= 48 ==> budget_of(Preset::Quick, None, candidates) == 6 && budget_of(
            Preset::Standard,
            None,
            candidates,
        ) == 16 && budget_of(Preset::Thorough, None, candidates) == 48,
        candidates <= 6 ==> budget_of(preset, None, candidates) == candidates,
{
}

/// What is asked for on the command line is tried with a fine cache and large
/// batches, at the context that is asked for, with the experts of exactly that
/// many layers on the processor.
pub proof fn asked_placements_are_tried_as_asked(context: u64, n: u64)
    ensures
        ({
            let c = explicit_row(context, n);
            &&& c.requested_context == context
            &&& c.n_cpu_moe == Some(n)
            &&& !c.cpu_moe
            &&& c.batch == Some(16_384u64)
            &&& c.ubatch == Some(4_096u64)
            &&& c.kv_cache == Some("q8_0"@)
            &&& c.fit_target == Some(1_536u64)
            &&& c.gpu_layers is None && c.threads is None && c.threads_batch is None
            &&& c.id == "moe-q8_0-ncpumoe"@ + text::decimal(n as nat) + "-b16384-ub4096-explicit"@
        }),
{
}

/// A placement is tried where it was asked for and there are as many experts, if
/// their number is known.
pub proof fn asked_placements_are_kept(values: Seq<u64>, experts: Option<u64>, n: u64)
    ensures
        asked_placements(values, experts).contains(n) == (values.contains(n) && (experts is None
            || n <= experts->0)),
    decreases values.len(),
{
    let all = asked_placements(values, experts);
    if values.len() > 0 {
        asked_placements_are_kept(values.drop_last(), experts, n);
        let before = asked_placements(values.drop_last(), experts);
        let x = values.last();
        assert(values.contains(n) == (values.drop_last().contains(n) || n == x)) by {
            assert(values[values.len() - 1] == x);
            if values.drop_last().contains(n) {
                let i = choose|i: int| 0 <= i < values.len() - 1 && values.drop_last()[i] == n;
                assert(values[i] == n);
            }
            if values.contains(n) && n != x {
                let i = choose|i: int| 0 <= i < values.len() && values[i] == n;
                assert(values.drop_last()[i] == n);
            }
        }
        if all.len() > before.len() {
            assert(all[before.len() as int] == x);
            if before.contains(n) {
                let i = choose|i: int| 0 <= i < before.len() && before[i] == n;
                assert(all[i] == n);
            }
            if all.contains(n) && n != x {
                let i = choose|i: int| 0 <= i < all.len() && all[i] == n;
                assert(before[i] == n);
            }
        }
    }
}

/// The runs that are worth confirming completed within the limits, are at most
/// three, and come by falling balance.
pub proof fn the_promising_are_sound(
    runs: Seq<ResultView>,
    scores: Seq<Real>,
    safety: SafetyLimits,
    j: int,
)
    requires
        scores.len() == runs.len(),
        forall|i: int| 0 <= i < scores.len() ==> !(#[trigger] scores[i]).nan(),
        safety.max_swap_delta_mib <= i64::MAX,
        0 <= j < promising(runs, scores, safety).len(),
    ensures
        promising(runs, scores, safety).len() <= 3,
        ({
            let i = promising(runs, scores, safety)[j];
            &&& 0 <= i < runs.len()
            &&& runs[i].outcome == Outcome::Pass || runs[i].outcome == Outcome::ParsePartial
            &&& runs[i].metrics.min_free_vram_mib is None || runs[i].metrics.min_free_vram_mib->0
                >= safety.min_vram_free_mib
            &&& runs[i].metrics.swap_delta_mib is None || runs[i].metrics.swap_delta_mib->0
                <= safety.max_swap_delta_mib
            &&& j > 0 ==> !scores[promising(runs, scores, safety)[j - 1]].less(scores[i])
        }),
{
    let list = fit_runs(runs, safety, runs.len());
    let s = scores_of(list, scores);
    assert forall|i: int| 0 <= i < s.len() implies !(#[trigger] s[i]).nan() by {
        listed_runs_are_fit(runs, safety, runs.len(), i);
    }
    crate::measure::falling_is_an_order(s, list.len());
    let order = falling(s, list.len());
    assert(0 <= order[j] < list.len());
    listed_runs_are_fit(runs, safety, runs.len(), order[j]);
    assert(promising(runs, scores, safety)[j] == list[order[j]]);
    if j > 0 {
        assert(0 <= order[j - 1] < list.len());
        assert(promising(runs, scores, safety)[j - 1] == list[order[j - 1]]);
        assert(!s[order[j - 1]].less(s[order[j]]));
    }
}

proof fn listed_runs_are_fit(runs: Seq<ResultView>, safety: SafetyLimits, n: nat, i: int)
    requires
        n <= runs.len(),
        0 <= i < fit_runs(runs, safety, n).len(),
    ensures
        0 <= fit_runs(runs, safety, n)[i] < n,
        fit(runs[fit_runs(runs, safety, n)[i]], safety),
    decreases n,
{
    if i < fit_runs(runs, safety, (n - 1) as nat).len() {
        listed_runs_are_fit(runs, safety, (n - 1) as nat, i);
    }
}

/// What a search covered: the threads where they were refined, the placement
/// where some candidate has one, and what it left out otherwise.
pub proof fn coverage_tells_the_search(
    preset: Preset,
    planned_candidates: usize,
    tested: usize,
    candidates: Seq<CandidateView>,
    near_full: bool,
    refined: bool,
    confirmations: usize,
)
    ensures
        ({
            let c = coverage_of(
                preset,
                planned_candidates,
                tested,
                candidates,
                near_full,
                refined,
                confirmations,
            );
            &&& c.preset == preset
            &&& c.planned_candidates == planned_candidates
            &&& c.tested_candidates == tested
            &&& c.confirmation_runs == confirmations
            &&& refined ==> c.searched_dimensions.last() == "CPU threads"@
            &&& refined ==> c.searched_dimensions.len() >= 5
            &&& !refined && !near_full && confirmations == 0 ==> c.not_searched_dimensions == seq![
                "near-full context"@,
                "CPU threads"@,
                "repeated measurements"@,
            ]
            &&& refined && near_full && confirmations > 0 ==> c.not_searched_dimensions.len() == 0
            &&& !refined && (forall|i: int|
                0 <= i < candidates.len() ==> !(#[trigger] candidates[i]).cpu_moe
                    && candidates[i].n_cpu_moe is None && candidates[i].gpu_layers is None)
                ==> c.searched_dimensions == seq![
                "context"@,
                "batch"@,
                "microbatch"@,
                "KV cache"@,
            ]
        }),
{
    let c = coverage_of(
        preset,
        planned_candidates,
        tested,
        candidates,
        near_full,
        refined,
        confirmations,
    );
    if !refined && !near_full && confirmations == 0 {
        assert(c.not_searched_dimensions =~= seq![
            "near-full context"@,
            "CPU threads"@,
            "repeated measurements"@,
        ]);
    }
    if !refined && (forall|i: int|
        0 <= i < candidates.len() ==> !(#[trigger] candidates[i]).cpu_moe
            && candidates[i].n_cpu_moe is None && candidates[i].gpu_layers is None) {
        assert(!exists|i: int| 0 <= i < candidates.len() && places_model(#[trigger] candidates[i]));
        assert(c.searched_dimensions =~= seq!["context"@, "batch"@, "microbatch"@, "KV cache"@]);
    }
}

/// A search is broad where it tried three candidates, or all that were planned.
pub proof fn broad_searches_are_told(c: CoverageView)
    ensures
        !broad(None),
        c.tested_candidates >= 3 ==> broad(Some(c)),
        c.tested_candidates >= c.planned_candidates ==> broad(Some(c)),
        c.tested_candidates < 3 && c.tested_candidates < c.planned_candidates ==> !broad(Some(c)),
{
}

/// The runs of a tuning have distinct places: those of the search come first,
/// then the at most five of the refinement, then those that follow.
pub proof fn stages_do_not_overlap(completed: nat, i: nat, j: nat, k: nat)
    requires
        i < completed,
        j < 5,
    ensures
        offset_of(Stage::Search, completed, i) < offset_of(Stage::Refinement, completed, j),
        offset_of(Stage::Refinement, completed, j) < offset_of(Stage::Confirmation, completed, k),
        offset_of(Stage::Search, completed, i) == i,
        offset_of(Stage::Validation, completed, k) == offset_of(Stage::Confirmation, completed, k),
{
}

/// What is next in a queue was not tried, and nothing that was not tried is
/// passed over.
pub proof fn what_is_next_is_untried(queue: Seq<CandidateView>, seen: Seq<Seq<char>>, k: int)
    ensures
        untried(queue, seen).len() > 0 ==> !seen.contains(untried(queue, seen)[0].id),
        0 <= k < queue.len() && !seen.contains(queue[k].id) ==> untried(queue, seen).contains(
            queue[k],
        ),
    decreases queue.len(),
{
    if queue.len() > 0 && seen.contains(queue[0].id) {
        what_is_next_is_untried(queue.drop_first(), seen, k - 1);
        if 0 < k < queue.len() {
            assert(queue.drop_first()[k - 1] == queue[k]);
        }
    }
}

} // verus!
