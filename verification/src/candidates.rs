//! The candidate configurations of a model, in the order in which to try them.
use crate::environment::{EnvironmentSnapshot, EnvironmentView, GpuInfo, GpuView};
use crate::gguf::{GgufMetadata, MetadataView, ModelKind};
use crate::profile::{CandidateConfig, CandidateRisk, CandidateView, Preset};
use crate::record::{views, Duplicate};
use crate::text;
use vstd::prelude::*;

verus! {

// ---------------------------------------------------------------------------
// Lists of candidates

/// Some candidate of the list has this id.
pub open spec fn has_id(list: Seq<CandidateView>, id: Seq<char>) -> bool {
    exists|i: int| 0 <= i < list.len() && (#[trigger] list[i]).id == id
}

/// The list with `c` at its end, unless its id is there already.
pub open spec fn with_new(list: Seq<CandidateView>, c: CandidateView) -> Seq<CandidateView> {
    if has_id(list, c.id) {
        list
    } else {
        list.push(c)
    }
}

/// The list with each candidate of `more` at its end whose id is new.
pub open spec fn with_all_new(list: Seq<CandidateView>, more: Seq<CandidateView>) -> Seq<
    CandidateView,
>
    decreases more.len(),
{
    if more.len() == 0 {
        list
    } else {
        with_new(with_all_new(list, more.drop_last()), more.last())
    }
}

/// Whether some candidate of the list has this id.
pub fn holds_id(list: &Vec<CandidateConfig>, id: &str) -> (r: bool)
    ensures
        r == has_id(views(list@), id@),
{
    for i in 0..list.len()
        invariant
            forall|j: int| 0 <= j < i ==> (#[trigger] views(list@)[j]).id != id@,
    {
        if text::same_text(list[i].id.as_str(), id) {
            proof {
                assert(views(list@)[i as int].id == id@);
            }
            return true;
        }
    }
    false
}

fn push_new(list: &mut Vec<CandidateConfig>, c: CandidateConfig)
    ensures
        views(final(list)@) == with_new(views(old(list)@), c@),
{
    let ghost before = views(list@);
    if !holds_id(list, c.id.as_str()) {
        list.push(c);
        proof {
            assert(views(list@) =~= before.push(c@));
        }
    }
}

// ---------------------------------------------------------------------------
// Dense models

/// The quantisation of a cache.
pub open spec fn cache_name(fine: bool) -> Seq<char> {
    if fine {
        "q8_0"@
    } else {
        "q4_0"@
    }
}

fn cache_text(fine: bool) -> (r: String)
    ensures
        r@ == cache_name(fine),
{
    if fine {
        "q8_0".to_string()
    } else {
        "q4_0".to_string()
    }
}

/// A dense candidate: cache, batch, microbatch and fit target.
pub open spec fn dense_row(context: u64, row: (bool, u64, u64, u64)) -> CandidateView {
    CandidateView {
        id: "dense-"@ + cache_name(row.0) + "-fit"@ + text::decimal(row.3 as nat) + "-b"@
            + text::decimal(row.1 as nat) + "-ub"@ + text::decimal(row.2 as nat),
        requested_context: context,
        batch: Some(row.1),
        ubatch: Some(row.2),
        kv_cache: Some(cache_name(row.0)),
        kv_cache_v: None,
        fit_target: Some(row.3),
        gpu_layers: None,
        cpu_moe: false,
        n_cpu_moe: None,
        threads: None,
        threads_batch: None,
        expected_risk: CandidateRisk::Medium,
        note: "dense sweep over batch, ubatch, KV cache, and llama.cpp fit target"@,
        planning_note: ""@,
    }
}

/// The shapes that a dense search starts with: whether the cache is `q8_0`,
/// batch, microbatch and fit target.
pub open spec fn dense_priority() -> Seq<(bool, u64, u64, u64)> {
    seq![
        (true, 1024u64, 256u64, 1536u64),
        (true, 4096u64, 1024u64, 1536u64),
        (true, 8192u64, 2048u64, 1536u64),
        (true, 16384u64, 4096u64, 1536u64),
        (false, 8192u64, 2048u64, 768u64),
        (false, 16384u64, 4096u64, 512u64),
        (false, 16384u64, 4096u64, 256u64),
        (false, 32768u64, 4096u64, 512u64),
    ]
}

/// The batch sizes of the dense sweep, with their microbatch sizes.
pub open spec fn dense_batches() -> Seq<(u64, u64)> {
    seq![
        (1024u64, 256u64),
        (2048u64, 512u64),
        (4096u64, 1024u64),
        (8192u64, 2048u64),
        (16384u64, 4096u64),
    ]
}

/// The fit targets of the dense sweep, from safer to tighter.
pub open spec fn dense_fits() -> Seq<u64> {
    seq![1536u64, 768u64, 512u64, 256u64]
}

/// The shapes of the dense sweep: by cache, then by batch, then by fit target.
pub open spec fn dense_grid() -> Seq<(bool, u64, u64, u64)> {
    Seq::new(
        40,
        |k: int|
            (
                k < 20,
                dense_batches()[(k % 20) / 4].0,
                dense_batches()[(k % 20) / 4].1,
                dense_fits()[k % 4],
            ),
    )
}

/// The candidates of several shapes.
pub open spec fn dense_rows(context: u64, rows: Seq<(bool, u64, u64, u64)>) -> Seq<CandidateView> {
    Seq::new(rows.len(), |i: int| dense_row(context, rows[i]))
}

/// The candidates of a dense model.
pub open spec fn dense_plan(context: u64) -> Seq<CandidateView> {
    with_all_new(dense_rows(context, dense_priority()), dense_rows(context, dense_grid()))
}

fn dense_candidate(context: u64, fine: bool, batch: u64, ubatch: u64, fit: u64) -> (r:
    CandidateConfig)
    ensures
        r@ == dense_row(context, (fine, batch, ubatch, fit)),
{
    let mut id = "dense-".to_string();
    id.append(cache_text(fine).as_str());
    id.append("-fit");
    id.append(text::number(fit).as_str());
    id.append("-b");
    id.append(text::number(batch).as_str());
    id.append("-ub");
    id.append(text::number(ubatch).as_str());
    CandidateConfig {
        id,
        requested_context: context,
        batch: Some(batch),
        ubatch: Some(ubatch),
        kv_cache: Some(cache_text(fine)),
        kv_cache_v: None,
        fit_target: Some(fit),
        gpu_layers: None,
        cpu_moe: false,
        n_cpu_moe: None,
        threads: None,
        threads_batch: None,
        expected_risk: CandidateRisk::Medium,
        note: "dense sweep over batch, ubatch, KV cache, and llama.cpp fit target".to_string(),
        planning_note: "".to_string(),
    }
}

fn dense_candidates(requested_context: u64) -> (r: Vec<CandidateConfig>)
    ensures
        views(r@) == dense_plan(requested_context),
{
    let priority: Vec<(bool, u64, u64, u64)> = vec![
        (true, 1024, 256, 1536),
        (true, 4096, 1024, 1536),
        (true, 8192, 2048, 1536),
        (true, 16384, 4096, 1536),
        (false, 8192, 2048, 768),
        (false, 16384, 4096, 512),
        (false, 16384, 4096, 256),
        (false, 32768, 4096, 512),
    ];
    let batches: Vec<(u64, u64)> = vec![
        (1024, 256),
        (2048, 512),
        (4096, 1024),
        (8192, 2048),
        (16384, 4096),
    ];
    let fits: Vec<u64> = vec![1536, 768, 512, 256];
    proof {
        assert(priority@ =~= dense_priority());
        assert(batches@ =~= dense_batches());
        assert(fits@ =~= dense_fits());
    }
    let mut candidates: Vec<CandidateConfig> = Vec::new();
    let ghost first = dense_rows(requested_context, dense_priority());
    for i in 0..priority.len()
        invariant
            priority@ == dense_priority(),
            first == dense_rows(requested_context, dense_priority()),
            views(candidates@) == first.take(i as int),
    {
        let (fine, batch, ubatch, fit) = priority[i];
        let ghost before = views(candidates@);
        let c = dense_candidate(requested_context, fine, batch, ubatch, fit);
        candidates.push(c);
        proof {
            assert(views(candidates@) =~= before.push(c@));
            assert(first.take(i + 1) =~= first.take(i as int).push(first[i as int]));
        }
    }
    let ghost grid = dense_rows(requested_context, dense_grid());
    proof {
        assert(first.take(first.len() as int) =~= first);
        assert(grid.take(0) =~= seq![]);
    }
    for k in 0..40usize
        invariant
            batches@ == dense_batches(),
            fits@ == dense_fits(),
            first == dense_rows(requested_context, dense_priority()),
            grid == dense_rows(requested_context, dense_grid()),
            views(candidates@) == with_all_new(first, grid.take(k as int)),
    {
        let (batch, ubatch) = batches[(k % 20) / 4];
        let c = dense_candidate(requested_context, k < 20, batch, ubatch, fits[k % 4]);
        proof {
            assert(c@ == grid[k as int]);
            assert(grid.take(k + 1).drop_last() =~= grid.take(k as int));
        }
        push_new(&mut candidates, c);
    }
    proof {
        assert(grid.take(40) =~= grid);
    }
    candidates
}

// ---------------------------------------------------------------------------
// Mixtures of experts

/// A candidate that keeps every expert on the processor.
pub open spec fn moe_baseline_row(context: u64, row: (bool, u64, u64)) -> CandidateView {
    CandidateView {
        id: "moe-"@ + cache_name(row.0) + "-cpu-moe-b"@ + text::decimal(row.1 as nat) + "-ub"@
            + text::decimal(row.2 as nat),
        requested_context: context,
        batch: Some(row.1),
        ubatch: Some(row.2),
        kv_cache: Some(cache_name(row.0)),
        kv_cache_v: None,
        fit_target: Some(1536),
        gpu_layers: None,
        cpu_moe: true,
        n_cpu_moe: None,
        threads: None,
        threads_batch: None,
        expected_risk: CandidateRisk::Low,
        note: "MoE baseline with CPU expert offload enabled"@,
        planning_note: ""@,
    }
}

/// A candidate that keeps the experts of `n` layers on the processor.
pub open spec fn moe_placement_row(context: u64, row: (bool, u64, u64), n: u64) -> CandidateView {
    CandidateView {
        id: "moe-"@ + cache_name(row.0) + "-ncpumoe"@ + text::decimal(n as nat) + "-b"@
            + text::decimal(row.1 as nat) + "-ub"@ + text::decimal(row.2 as nat),
        requested_context: context,
        batch: Some(row.1),
        ubatch: Some(row.2),
        kv_cache: Some(cache_name(row.0)),
        kv_cache_v: None,
        fit_target: Some(1536),
        gpu_layers: None,
        cpu_moe: false,
        n_cpu_moe: Some(n),
        threads: None,
        threads_batch: None,
        expected_risk: CandidateRisk::Medium,
        note: "MoE sweep from safer CPU-heavy expert placement toward GPU residency"@,
        planning_note: ""@,
    }
}

/// The shapes of the baselines: whether the cache is `q8_0`, batch and
/// microbatch.
pub open spec fn moe_baselines() -> Seq<(bool, u64, u64)> {
    seq![
        (true, 1024u64, 256u64),
        (true, 8192u64, 2048u64),
        (true, 16384u64, 4096u64),
        (false, 1024u64, 256u64),
        (false, 8192u64, 2048u64),
        (false, 16384u64, 4096u64),
    ]
}

/// The shapes of the placement sweep.
pub open spec fn moe_shapes() -> Seq<(bool, u64, u64)> {
    seq![
        (true, 16384u64, 4096u64),
        (true, 32768u64, 4096u64),
        (true, 16384u64, 2048u64),
        (true, 8192u64, 2048u64),
        (false, 16384u64, 4096u64),
        (false, 32768u64, 4096u64),
        (false, 16384u64, 2048u64),
        (false, 8192u64, 2048u64),
    ]
}

/// The placements that are always of interest.
pub open spec fn common_placements() -> Seq<u64> {
    seq![44u64, 40u64, 36u64, 34u64, 33u64, 32u64, 31u64, 30u64, 28u64, 24u64]
}

/// The product, or the largest number where it does not fit.
pub open spec fn capped_product(a: nat, b: nat) -> nat {
    if a * b > u64::MAX {
        u64::MAX as nat
    } else {
        a * b
    }
}

/// The placements to try: the common ones, and where the number of experts is
/// known, those of it and of its quarters that it bounds.
pub open spec fn placement_choice(experts: Option<u64>, n: u64) -> bool {
    match experts {
        None => common_placements().contains(n),
        Some(e) => n <= e && (common_placements().contains(n) || n == e || n == capped_product(
            e as nat,
            3,
        ) / 4 || n == e / 2 || n == e / 4 || n == 0),
    }
}

/// `v` lists exactly the placements to try, each once, from the most to the
/// least.
pub open spec fn lists_placements(v: Seq<u64>, experts: Option<u64>) -> bool {
    &&& forall|i: int, j: int| 0 <= i < j < v.len() ==> v[i] > v[j]
    &&& forall|n: u64| v.contains(n) == #[trigger] placement_choice(experts, n)
}

/// The placements to try, from the most to the least.
pub open spec fn placements(experts: Option<u64>) -> Seq<u64> {
    choose|v: Seq<u64>| lists_placements(v, experts)
}

/// There is only one such list.
proof fn placements_are_unique(v: Seq<u64>, w: Seq<u64>, experts: Option<u64>)
    requires
        lists_placements(v, experts),
        lists_placements(w, experts),
    ensures
        v == w,
{
    assert forall|n: u64| v.contains(n) == w.contains(n) by {
        assert(v.contains(n) == placement_choice(experts, n));
        assert(w.contains(n) == placement_choice(experts, n));
    }
    descending_lists_agree(v, w);
}

proof fn descending_lists_agree(v: Seq<u64>, w: Seq<u64>)
    requires
        forall|i: int, j: int| 0 <= i < j < v.len() ==> v[i] > v[j],
        forall|i: int, j: int| 0 <= i < j < w.len() ==> w[i] > w[j],
        forall|n: u64| v.contains(n) == w.contains(n),
    ensures
        v == w,
    decreases v.len(),
{
    if v.len() == 0 {
        if w.len() > 0 {
            assert(w.contains(w[0]));
        }
        assert(v =~= w);
    } else {
        assert(v.contains(v[0]));
        assert(w.len() > 0);
        let p = choose|p: int| 0 <= p < w.len() && w[p] == v[0];
        assert(w.contains(w[0]));
        let q = choose|q: int| 0 <= q < v.len() && v[q] == w[0];
        assert(v[0] == w[0]) by {
            if p > 0 {
                assert(w[0] > w[p]);
            }
            if q > 0 {
                assert(v[0] > v[q]);
            }
        }
        let a = v.drop_first();
        let b = w.drop_first();
        assert forall|n: u64| a.contains(n) == b.contains(n) by {
            if a.contains(n) {
                let i = choose|i: int| 0 <= i < a.len() && a[i] == n;
                assert(v[i + 1] == n && v[0] > v[i + 1]);
                assert(v.contains(n));
                let j = choose|j: int| 0 <= j < w.len() && w[j] == n;
                assert(j > 0);
                assert(b[j - 1] == n);
            }
            if b.contains(n) {
                let i = choose|i: int| 0 <= i < b.len() && b[i] == n;
                assert(w[i + 1] == n && w[0] > w[i + 1]);
                assert(w.contains(n));
                let j = choose|j: int| 0 <= j < v.len() && v[j] == n;
                assert(j > 0);
                assert(a[j - 1] == n);
            }
        }
        descending_lists_agree(a, b);
        assert(v =~= seq![v[0]] + a);
        assert(w =~= seq![w[0]] + b);
    }
}

/// The sweep over placements: by shape, then by placement.
pub open spec fn placement_sweep(context: u64, shapes: Seq<(bool, u64, u64)>, values: Seq<u64>) -> Seq<
    CandidateView,
>
    decreases shapes.len(),
{
    if shapes.len() == 0 {
        seq![]
    } else {
        placement_sweep(context, shapes.drop_last(), values) + Seq::new(
            values.len(),
            |i: int| moe_placement_row(context, shapes.last(), values[i]),
        )
    }
}

/// The candidates that keep every expert on the processor.
pub open spec fn moe_baseline_rows(context: u64) -> Seq<CandidateView> {
    Seq::new(
        moe_baselines().len(),
        |i: int| moe_baseline_row(context, moe_baselines()[i]),
    )
}

/// The candidates of a mixture of experts.
pub open spec fn moe_plan(context: u64, experts: Option<u64>) -> Seq<CandidateView> {
    with_all_new(
        moe_baseline_rows(context),
        placement_sweep(context, moe_shapes(), placements(experts)),
    )
}

/// Adds `n` to a descending list, unless it is there.
fn insert_placement(list: &mut Vec<u64>, n: u64)
    requires
        forall|i: int, j: int| 0 <= i < j < old(list)@.len() ==> old(list)@[i] > old(list)@[j],
    ensures
        forall|i: int, j: int| 0 <= i < j < final(list)@.len() ==> final(list)@[i] > final(list)@[j],
        forall|x: u64| #[trigger]
            final(list)@.contains(x) == (old(list)@.contains(x) || x == n),
{
    let ghost before = list@;
    let mut at: usize = 0;
    while at < list.len() && list[at] > n
        invariant
            list@ == before,
            at <= list@.len(),
            forall|i: int| 0 <= i < at ==> before[i] > n,
        decreases list@.len() - at,
    {
        at += 1;
    }
    if at < list.len() && list[at] == n {
        proof {
            assert(before.contains(n));
        }
        return;
    }
    list.insert(at, n);
    proof {
        let after = list@;
        assert(after[at as int] == n);
        assert forall|x: u64| #[trigger] after.contains(x) == (before.contains(x) || x == n) by {
            if before.contains(x) {
                let i = choose|i: int| 0 <= i < before.len() && before[i] == x;
                let j = if i < at { i } else { i + 1 };
                assert(after[j] == x);
            }
            if after.contains(x) && x != n {
                let j = choose|j: int| 0 <= j < after.len() && after[j] == x;
                let i = if j < at { j } else { j - 1 };
                assert(before[i] == x);
            }
        }
    }
}

fn n_cpu_moe_values(experts: Option<u64>) -> (r: Vec<u64>)
    ensures
        r@ == placements(experts),
{
    let common: Vec<u64> = vec![44, 40, 36, 34, 33, 32, 31, 30, 28, 24];
    proof {
        assert(common@ =~= common_placements());
    }
    let mut r: Vec<u64> = Vec::new();
    let limit: u64 = match experts {
        Some(e) => e,
        None => u64::MAX,
    };
    for i in 0..common.len()
        invariant
            common@ == common_placements(),
            forall|a: int, b: int| 0 <= a < b < r@.len() ==> r@[a] > r@[b],
            forall|x: u64| #[trigger]
                r@.contains(x) == (x <= limit && common@.take(i as int).contains(x)),
    {
        let ghost before = r@;
        let n: u64 = common[i];
        if n <= limit {
            insert_placement(&mut r, n);
        }
        proof {
            let s = common@.take(i as int);
            let t = common@.take(i + 1);
            assert(t =~= s.push(n));
            assert forall|x: u64| #[trigger] r@.contains(x) == (x <= limit && t.contains(x)) by {
                assert(before.contains(x) == (x <= limit && s.contains(x)));
                assert(t[i as int] == n);
                if s.contains(x) {
                    let j = choose|j: int| 0 <= j < s.len() && s[j] == x;
                    assert(t[j] == x);
                }
                if t.contains(x) && x != n {
                    let j = choose|j: int| 0 <= j < t.len() && t[j] == x;
                    assert(s[j] == x);
                }
            }
        }
    }
    proof {
        assert(common@.take(common@.len() as int) =~= common@);
    }
    if let Some(e) = experts {
        let product: u64 = match e.checked_mul(3) {
            Some(p) => p,
            None => u64::MAX,
        };
        insert_placement(&mut r, e);
        if product / 4 <= e {
            insert_placement(&mut r, product / 4);
        }
        insert_placement(&mut r, e / 2);
        insert_placement(&mut r, e / 4);
        insert_placement(&mut r, 0);
    }
    proof {
        assert forall|n: u64| r@.contains(n) == #[trigger] placement_choice(experts, n) by {}
        assert(lists_placements(r@, experts));
        placements_are_unique(r@, placements(experts), experts);
    }
    r
}

fn moe_candidates(metadata: &GgufMetadata, requested_context: u64) -> (r: Vec<CandidateConfig>)
    ensures
        views(r@) == moe_plan(requested_context, metadata.expert_count),
{
    let baselines: Vec<(bool, u64, u64)> = vec![
        (true, 1024, 256),
        (true, 8192, 2048),
        (true, 16384, 4096),
        (false, 1024, 256),
        (false, 8192, 2048),
        (false, 16384, 4096),
    ];
    let shapes: Vec<(bool, u64, u64)> = vec![
        (true, 16384, 4096),
        (true, 32768, 4096),
        (true, 16384, 2048),
        (true, 8192, 2048),
        (false, 16384, 4096),
        (false, 32768, 4096),
        (false, 16384, 2048),
        (false, 8192, 2048),
    ];
    proof {
        assert(baselines@ =~= moe_baselines());
        assert(shapes@ =~= moe_shapes());
    }
    let values = n_cpu_moe_values(metadata.expert_count);
    let mut candidates: Vec<CandidateConfig> = Vec::new();
    let ghost first = moe_baseline_rows(requested_context);
    for i in 0..baselines.len()
        invariant
            baselines@ == moe_baselines(),
            first == moe_baseline_rows(requested_context),
            views(candidates@) == first.take(i as int),
    {
        let ghost before = views(candidates@);
        let (fine, batch, ubatch) = baselines[i];
        let c = moe_baseline(requested_context, fine, batch, ubatch);
        candidates.push(c);
        proof {
            assert(views(candidates@) =~= before.push(c@));
            assert(first.take(i + 1) =~= first.take(i as int).push(first[i as int]));
        }
    }
    proof {
        assert(first.take(first.len() as int) =~= first);
        assert(shapes@.take(0) =~= seq![]);
        assert(placement_sweep(requested_context, shapes@.take(0), values@) =~= seq![]);
    }
    for i in 0..shapes.len()
        invariant
            views(candidates@) == with_all_new(
                first,
                placement_sweep(requested_context, shapes@.take(i as int), values@),
            ),
    {
        let (fine, batch, ubatch) = shapes[i];
        let ghost done = placement_sweep(requested_context, shapes@.take(i as int), values@);
        let ghost here = Seq::new(
            values@.len(),
            |k: int| moe_placement_row(requested_context, shapes@[i as int], values@[k]),
        );
        proof {
            assert(shapes@.take(i + 1).drop_last() =~= shapes@.take(i as int));
            assert(shapes@.take(i + 1).last() == shapes@[i as int]);
            assert(here.take(0) =~= seq![]);
            assert(done + here.take(0) =~= done);
        }
        for k in 0..values.len()
            invariant
                here == Seq::new(
                    values@.len(),
                    |k: int| moe_placement_row(requested_context, (fine, batch, ubatch), values@[k]),
                ),
                views(candidates@) == with_all_new(first, done + here.take(k as int)),
        {
            let c = moe_placement(requested_context, fine, batch, ubatch, values[k]);
            proof {
                let next = done + here.take(k + 1);
                assert(next.drop_last() =~= done + here.take(k as int));
                assert(next.last() == c@);
            }
            push_new(&mut candidates, c);
        }
        proof {
            assert(here.take(here.len() as int) =~= here);
        }
    }
    proof {
        assert(shapes@.take(shapes@.len() as int) =~= shapes@);
    }
    candidates
}

fn moe_baseline(context: u64, fine: bool, batch: u64, ubatch: u64) -> (r: CandidateConfig)
    ensures
        r@ == moe_baseline_row(context, (fine, batch, ubatch)),
{
    let mut id = "moe-".to_string();
    id.append(cache_text(fine).as_str());
    id.append("-cpu-moe-b");
    id.append(text::number(batch).as_str());
    id.append("-ub");
    id.append(text::number(ubatch).as_str());
    CandidateConfig {
        id,
        requested_context: context,
        batch: Some(batch),
        ubatch: Some(ubatch),
        kv_cache: Some(cache_text(fine)),
        kv_cache_v: None,
        fit_target: Some(1536),
        gpu_layers: None,
        cpu_moe: true,
        n_cpu_moe: None,
        threads: None,
        threads_batch: None,
        expected_risk: CandidateRisk::Low,
        note: "MoE baseline with CPU expert offload enabled".to_string(),
        planning_note: "".to_string(),
    }
}

fn moe_placement(context: u64, fine: bool, batch: u64, ubatch: u64, n: u64) -> (r: CandidateConfig)
    ensures
        r@ == moe_placement_row(context, (fine, batch, ubatch), n),
{
    let mut id = "moe-".to_string();
    id.append(cache_text(fine).as_str());
    id.append("-ncpumoe");
    id.append(text::number(n).as_str());
    id.append("-b");
    id.append(text::number(batch).as_str());
    id.append("-ub");
    id.append(text::number(ubatch).as_str());
    CandidateConfig {
        id,
        requested_context: context,
        batch: Some(batch),
        ubatch: Some(ubatch),
        kv_cache: Some(cache_text(fine)),
        kv_cache_v: None,
        fit_target: Some(1536),
        gpu_layers: None,
        cpu_moe: false,
        n_cpu_moe: Some(n),
        threads: None,
        threads_batch: None,
        expected_risk: CandidateRisk::Medium,
        note: "MoE sweep from safer CPU-heavy expert placement toward GPU residency".to_string(),
        planning_note: "".to_string(),
    }
}

// ---------------------------------------------------------------------------
// Lower contexts

/// The list with `context` at its end, where it is a fallback below
/// `requested` that is not there already.
pub open spec fn with_fallback(list: Seq<u64>, requested: u64, context: u64) -> Seq<u64> {
    if 4096 <= context < requested && !list.contains(context) {
        list.push(context)
    } else {
        list
    }
}

/// The contexts to fall back to: a half, a quarter, and 64k.
pub open spec fn fallbacks(requested: u64) -> Seq<u64> {
    let third = if requested < 65_536 {
        requested
    } else {
        65_536
    };
    with_fallback(
        with_fallback(
            with_fallback(seq![], requested, requested / 2),
            requested,
            requested / 4,
        ),
        requested,
        third,
    )
}

/// A candidate at a lower context.
pub open spec fn at_context(c: CandidateView, context: u64) -> CandidateView {
    CandidateView {
        id: c.id + "-ctx"@ + text::decimal(context as nat),
        requested_context: context,
        expected_risk: CandidateRisk::Low,
        planning_note:
            "fallback below native/requested context after higher-context candidates fail or run too tight"@,
        ..c
    }
}

/// The first four candidates at each of several contexts.
pub open spec fn fallback_rows(templates: Seq<CandidateView>, contexts: Seq<u64>) -> Seq<
    CandidateView,
>
    decreases contexts.len(),
{
    if contexts.len() == 0 {
        seq![]
    } else {
        fallback_rows(templates, contexts.drop_last()) + Seq::new(
            templates.len(),
            |i: int| at_context(templates[i], contexts.last()),
        )
    }
}

/// The first candidates of a list, up to four.
pub open spec fn first_four(list: Seq<CandidateView>) -> Seq<CandidateView> {
    list.take(if list.len() < 4 {
        list.len() as int
    } else {
        4
    })
}

/// The candidates, followed by the fallbacks of the first four.
pub open spec fn with_fallbacks(list: Seq<CandidateView>, requested: u64) -> Seq<CandidateView> {
    list + fallback_rows(first_four(list), fallbacks(requested))
}

fn keep_fallback(list: &mut Vec<u64>, requested: u64, context: u64)
    ensures
        final(list)@ == with_fallback(old(list)@, requested, context),
{
    let mut found = false;
    for i in 0..list.len()
        invariant
            found == list@.take(i as int).contains(context),
    {
        proof {
            let s = list@.take(i as int);
            let t = list@.take(i + 1);
            assert(t[i as int] == list@[i as int]);
            if s.contains(context) {
                let j = choose|j: int| 0 <= j < s.len() && s[j] == context;
                assert(t[j] == context);
            }
            if t.contains(context) && list@[i as int] != context {
                let j = choose|j: int| 0 <= j < t.len() && t[j] == context;
                assert(s[j] == context);
            }
        }
        if list[i] == context {
            found = true;
        }
    }
    proof {
        assert(list@.take(list@.len() as int) =~= list@);
    }
    if context >= 4096 && context < requested && !found {
        list.push(context);
    }
}

fn fallback_contexts(requested_context: u64) -> (r: Vec<u64>)
    ensures
        r@ == fallbacks(requested_context),
{
    let mut contexts: Vec<u64> = Vec::new();
    let third: u64 = if requested_context < 65_536 {
        requested_context
    } else {
        65_536
    };
    keep_fallback(&mut contexts, requested_context, requested_context / 2);
    keep_fallback(&mut contexts, requested_context, requested_context / 4);
    keep_fallback(&mut contexts, requested_context, third);
    contexts
}

fn lower_candidate(template: &CandidateConfig, context: u64) -> (r: CandidateConfig)
    ensures
        r@ == at_context(template@, context),
{
    let mut c = template.duplicate();
    c.requested_context = context;
    let mut id = template.id.clone();
    id.append("-ctx");
    id.append(text::number(context).as_str());
    c.id = id;
    c.expected_risk = CandidateRisk::Low;
    c.planning_note =
    "fallback below native/requested context after higher-context candidates fail or run too tight".to_string();
    c
}

fn add_context_fallback_candidates(candidates: &mut Vec<CandidateConfig>, requested_context: u64)
    ensures
        views(final(candidates)@) == with_fallbacks(views(old(candidates)@), requested_context),
{
    let contexts = fallback_contexts(requested_context);
    let ghost list = views(candidates@);
    let ghost templates = first_four(list);
    let count: usize = if candidates.len() < 4 {
        candidates.len()
    } else {
        4
    };
    proof {
        assert(contexts@.take(0) =~= seq![]);
        assert(list + fallback_rows(templates, contexts@.take(0)) =~= list);
    }
    for i in 0..contexts.len()
        invariant
            templates == first_four(list),
            count == templates.len(),
            count <= list.len() <= candidates@.len(),
            views(candidates@) == list + fallback_rows(templates, contexts@.take(i as int)),
    {
        let context: u64 = contexts[i];
        let ghost done = views(candidates@);
        let ghost here = Seq::new(count as nat, |k: int| at_context(templates[k], context));
        proof {
            assert(contexts@.take(i + 1).drop_last() =~= contexts@.take(i as int));
            assert(done + here.take(0) =~= done);
        }
        for k in 0..count
            invariant
                templates == first_four(list),
                count == templates.len(),
                count <= list.len() <= candidates@.len(),
                done == list + fallback_rows(templates, contexts@.take(i as int)),
                here == Seq::new(count as nat, |k: int| at_context(templates[k], context)),
                views(candidates@) == done + here.take(k as int),
        {
            let ghost before = views(candidates@);
            proof {
                assert(views(candidates@)[k as int] == list[k as int]);
            }
            let c = lower_candidate(&candidates[k], context);
            candidates.push(c);
            proof {
                assert(views(candidates@) =~= before.push(c@));
                assert(done + here.take(k + 1) =~= before.push(here[k as int]));
            }
        }
        proof {
            assert(here.take(count as int) =~= here);
            assert(done + here =~= list + fallback_rows(templates, contexts@.take(i + 1)));
        }
    }
    proof {
        assert(contexts@.take(contexts@.len() as int) =~= contexts@);
    }
}

// ---------------------------------------------------------------------------
// Risk

/// The video memory of several processors, in MiB.
pub open spec fn vram_sum(gpus: Seq<GpuView>) -> nat
    decreases gpus.len(),
{
    if gpus.len() == 0 {
        0
    } else {
        vram_sum(gpus.drop_last()) + (match gpus.last().total_vram_mib {
            Some(n) => n as nat,
            None => 0,
        })
    }
}

/// The video memory of a machine, where any is known.
pub open spec fn vram_of(environment: Option<EnvironmentView>) -> Option<u64> {
    match environment {
        Some(e) => if vram_sum(e.gpus) > 0 {
            Some(vram_sum(e.gpus) as u64)
        } else {
            None
        },
        None => None,
    }
}

/// The sum, or the largest number where it does not fit.
pub open spec fn capped_sum(a: nat, b: nat) -> nat {
    if a + b > u64::MAX {
        u64::MAX as nat
    } else {
        a + b
    }
}

/// An estimate of the cache in MiB.
pub open spec fn cache_mib(c: CandidateView) -> nat {
    if c.kv_cache == Some("q8_0"@) {
        c.requested_context as nat / 128
    } else if c.kv_cache == Some("q4_0"@) {
        c.requested_context as nat / 256
    } else {
        c.requested_context as nat / 192
    }
}

/// The risk of a candidate: low where the model and its cache take less than
/// 70 % of the video memory, high from 90 %.
pub open spec fn risk_of(c: CandidateView, model_mib: u64, vram: Option<u64>) -> CandidateRisk {
    match vram {
        _ if c.cpu_moe => CandidateRisk::Low,
        None => CandidateRisk::Medium,
        Some(total) => {
            let used = capped_product(capped_sum(model_mib as nat, cache_mib(c)), 100);
            if used < capped_product(total as nat, 70) {
                CandidateRisk::Low
            } else if used < capped_product(total as nat, 90) {
                CandidateRisk::Medium
            } else {
                CandidateRisk::High
            }
        },
    }
}

/// What is said of a candidate of some risk.
pub open spec fn risk_note(risk: CandidateRisk) -> Seq<char> {
    match risk {
        CandidateRisk::Low => " MiB total VRAM; safe-first candidate"@,
        CandidateRisk::Medium => " MiB total VRAM; normal tuning candidate"@,
        CandidateRisk::High => " MiB total VRAM; aggressive candidate"@,
    }
}

/// What is said of a candidate in a plan.
pub open spec fn plan_note(risk: CandidateRisk, model_mib: u64, vram: Option<u64>) -> Seq<char> {
    match vram {
        Some(total) => "model is "@ + text::decimal(model_mib as nat) + " MiB against "@
            + text::decimal(total as nat) + risk_note(risk),
        None => "hardware VRAM unavailable; preserving conservative default order"@,
    }
}

/// A candidate with its risk and what is said of it.
pub open spec fn annotated(c: CandidateView, model_mib: u64, vram: Option<u64>) -> CandidateView {
    let risk = risk_of(c, model_mib, vram);
    CandidateView { expected_risk: risk, planning_note: plan_note(risk, model_mib, vram), ..c }
}

pub open spec fn all_annotated(list: Seq<CandidateView>, model_mib: u64, vram: Option<u64>) -> Seq<
    CandidateView,
> {
    Seq::new(list.len(), |i: int| annotated(list[i], model_mib, vram))
}

/// The video memory of the processors of a machine, where it fits the type.
fn total_vram_mib(gpus: &Vec<GpuInfo>) -> (r: Option<u64>)
    requires
        vram_sum(views(gpus@)) <= u64::MAX,
    ensures
        r == (if vram_sum(views(gpus@)) > 0 {
            Some(vram_sum(views(gpus@)) as u64)
        } else {
            None
        }),
{
    let ghost all = views(gpus@);
    let mut total: u64 = 0;
    for i in 0..gpus.len()
        invariant
            all == views(gpus@),
            vram_sum(all) <= u64::MAX,
            total == vram_sum(all.take(i as int)),
    {
        proof {
            assert(all.take(i + 1).drop_last() =~= all.take(i as int));
            assert(all.take(i + 1).last() == gpus@[i as int]@);
            vram_sum_grows(all, i + 1);
        }
        if let Some(n) = gpus[i].total_vram_mib {
            total = total + n;
        }
    }
    proof {
        assert(all.take(all.len() as int) =~= all);
    }
    if total > 0 {
        Some(total)
    } else {
        None
    }
}

proof fn vram_sum_grows(gpus: Seq<GpuView>, n: int)
    requires
        0 <= n <= gpus.len(),
    ensures
        vram_sum(gpus.take(n)) <= vram_sum(gpus),
    decreases gpus.len() - n,
{
    if n < gpus.len() {
        vram_sum_grows(gpus, n + 1);
        assert(gpus.take(n + 1).drop_last() =~= gpus.take(n));
    } else {
        assert(gpus.take(n) =~= gpus);
    }
}

fn multiply_capped(a: u64, b: u64) -> (r: u64)
    ensures
        r == capped_product(a as nat, b as nat),
{
    match a.checked_mul(b) {
        Some(p) => p,
        None => u64::MAX,
    }
}

/// The risk of a candidate.
pub fn candidate_risk(candidate: &CandidateConfig, model_mib: u64, total_vram_mib: Option<u64>) -> (r:
    CandidateRisk)
    ensures
        r == risk_of(candidate@, model_mib, total_vram_mib),
{
    if candidate.cpu_moe {
        return CandidateRisk::Low;
    }
    let total: u64 = match total_vram_mib {
        Some(total) => total,
        None => {
            return CandidateRisk::Medium;
        },
    };
    let cache: u64 = match &candidate.kv_cache {
        Some(name) => if text::same_text(name.as_str(), "q8_0") {
            candidate.requested_context / 128
        } else if text::same_text(name.as_str(), "q4_0") {
            candidate.requested_context / 256
        } else {
            candidate.requested_context / 192
        },
        None => candidate.requested_context / 192,
    };
    let used = multiply_capped(model_mib.saturating_add(cache), 100);
    if used < multiply_capped(total, 70) {
        CandidateRisk::Low
    } else if used < multiply_capped(total, 90) {
        CandidateRisk::Medium
    } else {
        CandidateRisk::High
    }
}

fn annotate(candidate: &CandidateConfig, model_mib: u64, vram: Option<u64>) -> (r: CandidateConfig)
    ensures
        r@ == annotated(candidate@, model_mib, vram),
{
    let risk = candidate_risk(candidate, model_mib, vram);
    let mut c = candidate.duplicate();
    c.expected_risk = risk;
    c.planning_note = match vram {
        Some(total) => {
            let mut note = "model is ".to_string();
            note.append(text::number(model_mib).as_str());
            note.append(" MiB against ");
            note.append(text::number(total).as_str());
            note.append(
                match risk {
                    CandidateRisk::Low => " MiB total VRAM; safe-first candidate",
                    CandidateRisk::Medium => " MiB total VRAM; normal tuning candidate",
                    CandidateRisk::High => " MiB total VRAM; aggressive candidate",
                },
            );
            note
        },
        None => "hardware VRAM unavailable; preserving conservative default order".to_string(),
    };
    c
}

// ---------------------------------------------------------------------------
// Order

/// The highest context of a list, 0 for an empty one.
pub open spec fn top_context(list: Seq<CandidateView>) -> u64
    decreases list.len(),
{
    if list.len() == 0 {
        0
    } else if list.last().requested_context > top_context(list.drop_last()) {
        list.last().requested_context
    } else {
        top_context(list.drop_last())
    }
}

/// The place of a candidate in the order: the highest context first, and in it
/// the lowest risk.
pub open spec fn rank(c: CandidateView, top: u64) -> int {
    (if c.requested_context < top {
        3int
    } else {
        0int
    }) + (match c.expected_risk {
        CandidateRisk::Low => 0int,
        CandidateRisk::Medium => 1int,
        CandidateRisk::High => 2int,
    })
}

/// The candidates of one rank, in the order of the list.
pub open spec fn of_rank(list: Seq<CandidateView>, top: u64, k: int) -> Seq<CandidateView>
    decreases list.len(),
{
    if list.len() == 0 {
        seq![]
    } else {
        let before = of_rank(list.drop_last(), top, k);
        if rank(list.last(), top) == k {
            before.push(list.last())
        } else {
            before
        }
    }
}

/// The candidates of the ranks below `k`, by rank, and in each in the order of
/// the list.
pub open spec fn below_rank(list: Seq<CandidateView>, top: u64, k: nat) -> Seq<CandidateView>
    decreases k,
{
    if k == 0 {
        seq![]
    } else {
        below_rank(list, top, (k - 1) as nat) + of_rank(list, top, k - 1)
    }
}

/// The candidates by rank.
pub open spec fn by_rank(list: Seq<CandidateView>) -> Seq<CandidateView> {
    below_rank(list, top_context(list), 6)
}

fn candidate_rank(c: &CandidateConfig, top: u64) -> (r: u8)
    ensures
        r == rank(c@, top),
        r < 6,
{
    let context: u8 = if c.requested_context < top {
        3
    } else {
        0
    };
    let risk: u8 = match c.expected_risk {
        CandidateRisk::Low => 0,
        CandidateRisk::Medium => 1,
        CandidateRisk::High => 2,
    };
    context + risk
}

fn annotate_and_order_candidates(
    candidates: &Vec<CandidateConfig>,
    model_mib: u64,
    vram: Option<u64>,
) -> (r: Vec<CandidateConfig>)
    ensures
        views(r@) == by_rank(all_annotated(views(candidates@), model_mib, vram)),
{
    let ghost all = all_annotated(views(candidates@), model_mib, vram);
    let mut list: Vec<CandidateConfig> = Vec::new();
    let mut top: u64 = 0;
    for i in 0..candidates.len()
        invariant
            all == all_annotated(views(candidates@), model_mib, vram),
            views(list@) == all.take(i as int),
            top == top_context(all.take(i as int)),
    {
        let ghost before = views(list@);
        let c = annotate(&candidates[i], model_mib, vram);
        proof {
            assert(c@ == all[i as int]);
            assert(all.take(i + 1).drop_last() =~= all.take(i as int));
            assert(all.take(i + 1) =~= all.take(i as int).push(c@));
        }
        if c.requested_context > top {
            top = c.requested_context;
        }
        list.push(c);
        proof {
            assert(views(list@) =~= before.push(c@));
        }
    }
    proof {
        assert(all.take(all.len() as int) =~= all);
    }
    let mut r: Vec<CandidateConfig> = Vec::new();
    proof {
        assert(views(r@) =~= below_rank(all, top, 0));
    }
    for k in 0..6u8
        invariant
            views(list@) == all,
            views(r@) == below_rank(all, top, k as nat),
    {
        let ghost done = views(r@);
        proof {
            assert(all.take(0) =~= seq![]);
            assert(done + of_rank(all.take(0), top, k as int) =~= done);
        }
        for i in 0..list.len()
            invariant
                views(list@) == all,
                done == below_rank(all, top, k as nat),
                views(r@) == done + of_rank(all.take(i as int), top, k as int),
        {
            let ghost before = views(r@);
            proof {
                assert(all[i as int] == list@[i as int]@);
                assert(all.take(i + 1).drop_last() =~= all.take(i as int));
            }
            if candidate_rank(&list[i], top) == k {
                let c = list[i].duplicate();
                r.push(c);
                proof {
                    assert(views(r@) =~= before.push(c@));
                    assert(done + of_rank(all.take(i + 1), top, k as int) =~= before.push(c@));
                }
            }
        }
        proof {
            assert(all.take(all.len() as int) =~= all);
        }
    }
    r
}

// ---------------------------------------------------------------------------
// Plans

/// The candidates of a model, before they are ordered.
pub open spec fn drafted(metadata: MetadataView, context: u64) -> Seq<CandidateView> {
    with_fallbacks(
        match metadata.model_kind {
            ModelKind::Moe => moe_plan(context, metadata.expert_count),
            ModelKind::Dense => dense_plan(context),
            ModelKind::Unknown => dense_plan(context),
        },
        context,
    )
}

/// The candidates of a model, in the order in which to try them.
pub open spec fn planned(metadata: MetadataView, context: u64, vram: Option<u64>) -> Seq<
    CandidateView,
> {
    by_rank(
        all_annotated(drafted(metadata, context), metadata.file_size_bytes / 0x10_0000, vram),
    )
}

/// The first entries of a plan, where it is bounded.
pub open spec fn capped(plan: Seq<CandidateView>, cap: Option<usize>) -> Seq<CandidateView> {
    match cap {
        Some(n) => if n < plan.len() {
            plan.take(n as int)
        } else {
            plan
        },
        None => plan,
    }
}

/// The candidates of a model on an unknown machine.
pub fn generate_candidates(
    metadata: &GgufMetadata,
    preset: Preset,
    requested_context: u64,
    max_runs: Option<usize>,
) -> (r: Vec<CandidateConfig>)
    ensures
        views(r@) == capped(planned(metadata@, requested_context, None), max_runs),
{
    generate_candidates_for_environment(metadata, preset, requested_context, max_runs, None)
}

/// The candidates of a model on a machine, in the order in which to try them:
/// the requested context before lower ones, and lower risk before higher.
pub fn generate_candidates_for_environment(
    metadata: &GgufMetadata,
    _preset: Preset,
    requested_context: u64,
    max_runs: Option<usize>,
    environment: Option<&EnvironmentSnapshot>,
) -> (r: Vec<CandidateConfig>)
    requires
        environment matches Some(e) ==> vram_sum(e@.gpus) <= u64::MAX,
    ensures
        views(r@) == capped(
            planned(
                metadata@,
                requested_context,
                vram_of(
                    match environment {
                        Some(e) => Some(e@),
                        None => None,
                    },
                ),
            ),
            max_runs,
        ),
{
    let mut candidates = match metadata.model_kind {
        ModelKind::Moe => moe_candidates(metadata, requested_context),
        ModelKind::Dense | ModelKind::Unknown => dense_candidates(requested_context),
    };
    add_context_fallback_candidates(&mut candidates, requested_context);
    let vram = match environment {
        Some(e) => total_vram_mib(&e.gpus),
        None => None,
    };
    let mut r = annotate_and_order_candidates(
        &candidates,
        metadata.file_size_bytes / 1024 / 1024,
        vram,
    );
    if let Some(cap) = max_runs {
        if cap < r.len() {
            let ghost before = views(r@);
            r.truncate(cap);
            proof {
                assert(views(r@) =~= before.take(cap as int));
            }
        }
    }
    r
}

// ---------------------------------------------------------------------------
// Laws of plans

proof fn of_rank_members(list: Seq<CandidateView>, top: u64, k: int)
    ensures
        forall|i: int|
            0 <= i < of_rank(list, top, k).len() ==> rank(#[trigger] of_rank(list, top, k)[i], top)
                == k && list.contains(of_rank(list, top, k)[i]),
    decreases list.len(),
{
    if list.len() > 0 {
        let shorter = list.drop_last();
        of_rank_members(shorter, top, k);
        let part = of_rank(list, top, k);
        let before = of_rank(shorter, top, k);
        assert(list[list.len() - 1] == list.last());
        assert forall|i: int| 0 <= i < part.len() implies rank(#[trigger] part[i], top) == k
            && list.contains(part[i]) by {
            if i < before.len() {
                assert(part[i] == before[i]);
                let j = choose|j: int| 0 <= j < shorter.len() && shorter[j] == before[i];
                assert(list[j] == before[i]);
            }
        }
    }
}

proof fn below_rank_members(list: Seq<CandidateView>, top: u64, k: nat)
    ensures
        forall|i: int|
            0 <= i < below_rank(list, top, k).len() ==> rank(
                #[trigger] below_rank(list, top, k)[i],
                top,
            ) < k && list.contains(below_rank(list, top, k)[i]),
        forall|i: int, j: int|
            0 <= i < j < below_rank(list, top, k).len() ==> rank(
                #[trigger] below_rank(list, top, k)[i],
                top,
            ) <= rank(#[trigger] below_rank(list, top, k)[j], top),
    decreases k,
{
    if k > 0 {
        below_rank_members(list, top, (k - 1) as nat);
        of_rank_members(list, top, k - 1);
        let a = below_rank(list, top, (k - 1) as nat);
        let b = of_rank(list, top, k - 1);
        let all = below_rank(list, top, k);
        assert forall|i: int| 0 <= i < all.len() implies rank(#[trigger] all[i], top) < k
            && list.contains(all[i]) && (i < a.len() ==> all[i] == a[i]) && (i >= a.len() ==> rank(
            all[i],
            top,
        ) == k - 1) by {
            if i < a.len() {
                assert(all[i] == a[i]);
            } else {
                assert(all[i] == b[i - a.len()]);
            }
        }
        assert forall|i: int, j: int| 0 <= i < j < all.len() implies rank(#[trigger] all[i], top)
            <= rank(#[trigger] all[j], top) by {
            if j < a.len() {
                assert(rank(a[i], top) <= rank(a[j], top));
            }
        }
    }
}

/// A plan puts no candidate behind one of higher rank: those at the highest
/// context come first, and among those of one kind of context the safer ones.
pub proof fn plan_is_ordered(list: Seq<CandidateView>, i: int, j: int)
    requires
        0 <= i < j < by_rank(list).len(),
    ensures
        rank(by_rank(list)[i], top_context(list)) <= rank(by_rank(list)[j], top_context(list)),
{
    below_rank_members(list, top_context(list), 6);
}

proof fn below_rank_of_push(list: Seq<CandidateView>, e: CandidateView, top: u64, k: nat)
    ensures
        below_rank(list.push(e), top, k).to_multiset() == (if rank(e, top) < k {
            below_rank(list, top, k).to_multiset().insert(e)
        } else {
            below_rank(list, top, k).to_multiset()
        }),
    decreases k,
{
    broadcast use vstd::seq_lib::group_to_multiset_ensures;

    let all = list.push(e);
    assert(all.drop_last() =~= list);
    if k > 0 {
        below_rank_of_push(list, e, top, (k - 1) as nat);
        let a = below_rank(all, top, (k - 1) as nat);
        let b = of_rank(all, top, k - 1);
        let c = below_rank(list, top, (k - 1) as nat);
        let d = of_rank(list, top, k - 1);
        vstd::seq_lib::lemma_multiset_commutative(a, b);
        vstd::seq_lib::lemma_multiset_commutative(c, d);
        assert(below_rank(all, top, k).to_multiset() =~= (if rank(e, top) < k {
            below_rank(list, top, k).to_multiset().insert(e)
        } else {
            below_rank(list, top, k).to_multiset()
        }));
    }
}

proof fn ranks_cover(list: Seq<CandidateView>, top: u64)
    ensures
        below_rank(list, top, 6).to_multiset() == list.to_multiset(),
    decreases list.len(),
{
    broadcast use vstd::seq_lib::group_to_multiset_ensures;

    if list.len() > 0 {
        let shorter = list.drop_last();
        ranks_cover(shorter, top);
        below_rank_of_push(shorter, list.last(), top, 6);
        assert(shorter.push(list.last()) =~= list);
    } else {
        reveal_with_fuel(below_rank, 7);
        assert(below_rank(list, top, 6) =~= list);
    }
}

/// Ordering a plan neither adds nor drops a candidate.
pub proof fn plan_is_complete(list: Seq<CandidateView>)
    ensures
        by_rank(list).to_multiset() == list.to_multiset(),
{
    ranks_cover(list, top_context(list));
}

/// Every candidate of a list is at `context` or at a fallback below it.
pub open spec fn contexts_within(list: Seq<CandidateView>, context: u64) -> bool {
    forall|i: int|
        0 <= i < list.len() ==> (#[trigger] list[i]).requested_context == context || 4096
            <= list[i].requested_context < context
}

proof fn new_contexts(list: Seq<CandidateView>, more: Seq<CandidateView>, context: u64)
    requires
        forall|i: int| 0 <= i < list.len() ==> (#[trigger] list[i]).requested_context == context,
        forall|i: int| 0 <= i < more.len() ==> (#[trigger] more[i]).requested_context == context,
    ensures
        forall|i: int|
            0 <= i < with_all_new(list, more).len() ==> (#[trigger] with_all_new(
                list,
                more,
            )[i]).requested_context == context,
        with_all_new(list, more).len() >= list.len(),
        with_all_new(list, more).take(list.len() as int) == list,
    decreases more.len(),
{
    if more.len() > 0 {
        let shorter = more.drop_last();
        assert forall|i: int| 0 <= i < shorter.len() implies (
        #[trigger] shorter[i]).requested_context == context by {
            assert(shorter[i] == more[i]);
        }
        new_contexts(list, shorter, context);
        assert(more[more.len() - 1].requested_context == context);
        assert(with_all_new(list, more).take(list.len() as int) =~= with_all_new(
            list,
            shorter,
        ).take(list.len() as int));
    } else {
        assert(list.take(list.len() as int) =~= list);
    }
}

proof fn sweep_contexts(context: u64, shapes: Seq<(bool, u64, u64)>, values: Seq<u64>)
    ensures
        forall|i: int|
            0 <= i < placement_sweep(context, shapes, values).len() ==> (#[trigger] placement_sweep(
                context,
                shapes,
                values,
            )[i]).requested_context == context,
    decreases shapes.len(),
{
    if shapes.len() > 0 {
        sweep_contexts(context, shapes.drop_last(), values);
    }
}

proof fn fallback_row_contexts(templates: Seq<CandidateView>, contexts: Seq<u64>, context: u64)
    requires
        forall|i: int| 0 <= i < contexts.len() ==> 4096 <= #[trigger] contexts[i] < context,
    ensures
        forall|i: int|
            0 <= i < fallback_rows(templates, contexts).len() ==> 4096 <= (#[trigger] fallback_rows(
                templates,
                contexts,
            )[i]).requested_context < context,
    decreases contexts.len(),
{
    if contexts.len() > 0 {
        let shorter = contexts.drop_last();
        assert forall|i: int| 0 <= i < shorter.len() implies 4096 <= #[trigger] shorter[i]
            < context by {
            assert(shorter[i] == contexts[i]);
        }
        fallback_row_contexts(templates, shorter, context);
        assert(contexts[contexts.len() - 1] == contexts.last());
    }
}

proof fn drafted_facts(metadata: MetadataView, context: u64)
    ensures
        drafted(metadata, context).len() > 0,
        drafted(metadata, context)[0].requested_context == context,
        metadata.model_kind == ModelKind::Moe ==> drafted(metadata, context)[0].cpu_moe,
        contexts_within(drafted(metadata, context), context),
{
    let base = match metadata.model_kind {
        ModelKind::Moe => moe_plan(context, metadata.expert_count),
        ModelKind::Dense => dense_plan(context),
        ModelKind::Unknown => dense_plan(context),
    };
    if metadata.model_kind == ModelKind::Moe {
        let first = moe_baseline_rows(context);
        let more = placement_sweep(context, moe_shapes(), placements(metadata.expert_count));
        sweep_contexts(context, moe_shapes(), placements(metadata.expert_count));
        new_contexts(first, more, context);
        assert(base.take(first.len() as int)[0] == first[0]);
    } else {
        let first = dense_rows(context, dense_priority());
        new_contexts(first, dense_rows(context, dense_grid()), context);
        assert(base.take(first.len() as int)[0] == first[0]);
    }
    fallback_row_contexts(first_four(base), fallbacks(context), context);
}

proof fn top_context_is(list: Seq<CandidateView>, context: u64)
    requires
        forall|i: int| 0 <= i < list.len() ==> (#[trigger] list[i]).requested_context <= context,
    ensures
        top_context(list) <= context,
        forall|i: int|
            0 <= i < list.len() ==> (#[trigger] list[i]).requested_context <= top_context(list),
    decreases list.len(),
{
    if list.len() > 0 {
        let shorter = list.drop_last();
        assert forall|i: int| 0 <= i < shorter.len() implies (
        #[trigger] shorter[i]).requested_context <= context by {
            assert(shorter[i] == list[i]);
        }
        top_context_is(shorter, context);
        assert(list[list.len() - 1] == list.last());
        assert forall|i: int| 0 <= i < list.len() implies (#[trigger] list[i]).requested_context
            <= top_context(list) by {
            if i < shorter.len() {
                assert(shorter[i].requested_context <= top_context(shorter));
            }
        }
    }
}

proof fn of_rank_first(list: Seq<CandidateView>, top: u64, k: int)
    requires
        list.len() > 0,
        rank(list[0], top) == k,
    ensures
        of_rank(list, top, k).len() > 0,
        of_rank(list, top, k)[0] == list[0],
    decreases list.len(),
{
    if list.len() > 1 {
        let shorter = list.drop_last();
        of_rank_first(shorter, top, k);
    } else {
        assert(list.drop_last() =~= seq![]);
        assert(of_rank(list.drop_last(), top, k) =~= seq![]);
    }
}

/// A plan is never empty, starts at the requested context, and holds besides
/// it only lower contexts of at least 4096 tokens.
pub proof fn plan_starts_at_requested_context(
    metadata: MetadataView,
    context: u64,
    vram: Option<u64>,
)
    ensures
        planned(metadata, context, vram).len() > 0,
        planned(metadata, context, vram)[0].requested_context == context,
        contexts_within(planned(metadata, context, vram), context),
{
    let list = all_annotated(
        drafted(metadata, context),
        metadata.file_size_bytes / 0x10_0000,
        vram,
    );
    drafted_facts(metadata, context);
    let draft = drafted(metadata, context);
    assert forall|i: int| 0 <= i < list.len() implies (#[trigger] list[i]).requested_context
        == draft[i].requested_context by {}
    top_context_is(list, context);
    let top = top_context(list);
    assert(list[0].requested_context == context);
    assert(top == context);
    let plan = by_rank(list);
    plan_is_complete(list);
    below_rank_members(list, top, 6);
    broadcast use vstd::seq_lib::group_to_multiset_ensures;

    assert(list.contains(list[0]));
    assert(list.to_multiset().count(list[0]) > 0);
    assert(plan.to_multiset().count(list[0]) > 0);
    assert(plan.contains(list[0]));
    let p = choose|p: int| 0 <= p < plan.len() && plan[p] == list[0];
    assert(rank(plan[0], top) <= rank(plan[p], top) < 3);
    assert forall|i: int| 0 <= i < plan.len() implies (#[trigger] plan[i]).requested_context
        == context || 4096 <= plan[i].requested_context < context by {
        assert(list.contains(plan[i]));
        let j = choose|j: int| 0 <= j < list.len() && list[j] == plan[i];
        assert(draft[j].requested_context == list[j].requested_context);
    }
    assert(plan[0].requested_context <= context);
}

/// The plan of a mixture of experts starts with a candidate that keeps every
/// expert on the processor.
pub proof fn moe_plan_starts_on_the_processor(
    metadata: MetadataView,
    context: u64,
    vram: Option<u64>,
)
    requires
        metadata.model_kind == ModelKind::Moe,
    ensures
        planned(metadata, context, vram).len() > 0,
        planned(metadata, context, vram)[0].cpu_moe,
{
    let list = all_annotated(
        drafted(metadata, context),
        metadata.file_size_bytes / 0x10_0000,
        vram,
    );
    drafted_facts(metadata, context);
    let draft = drafted(metadata, context);
    assert forall|i: int| 0 <= i < list.len() implies (#[trigger] list[i]).requested_context
        == draft[i].requested_context by {}
    top_context_is(list, context);
    let top = top_context(list);
    assert(list[0].requested_context == context);
    of_rank_first(list, top, 0);
    reveal_with_fuel(below_rank, 7);
    assert(by_rank(list)[0] == list[0]);
}

/// Two candidates that differ at most in where their experts stand.
pub open spec fn same_settings(a: CandidateView, b: CandidateView) -> bool {
    &&& a.requested_context == b.requested_context
    &&& a.batch == b.batch
    &&& a.ubatch == b.ubatch
    &&& a.kv_cache == b.kv_cache
}

/// `a` keeps the experts of more layers on the processor than `b`, where both
/// say of how many.
pub open spec fn heavier(a: CandidateView, b: CandidateView) -> bool {
    a.n_cpu_moe is Some && b.n_cpu_moe is Some ==> a.n_cpu_moe->0 > b.n_cpu_moe->0
}

/// Of two candidates of one shape, the first keeps more on the processor.
pub open spec fn placements_fall(list: Seq<CandidateView>) -> bool {
    forall|i: int, j: int|
        0 <= i < j < list.len() && same_settings(list[i], list[j]) ==> heavier(list[i], list[j])
}

/// A descending list with `n` in its place.
proof fn placed(v: Seq<u64>, n: u64) -> (w: Seq<u64>)
    requires
        forall|i: int, j: int| 0 <= i < j < v.len() ==> v[i] > v[j],
    ensures
        forall|i: int, j: int| 0 <= i < j < w.len() ==> w[i] > w[j],
        forall|x: u64| #[trigger] w.contains(x) == (v.contains(x) || x == n),
    decreases v.len(),
{
    if v.len() == 0 {
        let w = seq![n];
        assert(w[0] == n);
        w
    } else if v.last() > n {
        let w = v.push(n);
        assert forall|x: u64| #[trigger] w.contains(x) == (v.contains(x) || x == n) by {
            assert(w[v.len() as int] == n);
            if v.contains(x) {
                let i = choose|i: int| 0 <= i < v.len() && v[i] == x;
                assert(w[i] == x);
            }
        }
        w
    } else if v.last() == n {
        assert(v[v.len() - 1] == n);
        v
    } else {
        let shorter = v.drop_last();
        let u = placed(shorter, n);
        let w = u.push(v.last());
        assert forall|i: int| 0 <= i < u.len() implies u[i] > v.last() by {
            assert(u.contains(u[i]));
            if u[i] != n {
                let j = choose|j: int| 0 <= j < shorter.len() && shorter[j] == u[i];
                assert(v[j] > v[v.len() - 1]);
            }
        }
        assert forall|x: u64| #[trigger] w.contains(x) == (v.contains(x) || x == n) by {
            assert(u.contains(x) == (shorter.contains(x) || x == n));
            assert(w[u.len() as int] == v.last());
            if u.contains(x) {
                let i = choose|i: int| 0 <= i < u.len() && u[i] == x;
                assert(w[i] == x);
            }
            if shorter.contains(x) {
                let i = choose|i: int| 0 <= i < shorter.len() && shorter[i] == x;
                assert(v[i] == x);
            }
            if v.contains(x) {
                let i = choose|i: int| 0 <= i < v.len() && v[i] == x;
                if i < shorter.len() {
                    assert(shorter[i] == x);
                }
            }
            if w.contains(x) {
                let i = choose|i: int| 0 <= i < w.len() && w[i] == x;
                if i < u.len() {
                    assert(u[i] == x);
                } else {
                    assert(v[v.len() - 1] == x);
                }
            }
        }
        w
    }
}

/// A descending list of the entries of `s` up to `limit`.
proof fn descending(s: Seq<u64>, limit: u64) -> (w: Seq<u64>)
    ensures
        forall|i: int, j: int| 0 <= i < j < w.len() ==> w[i] > w[j],
        forall|x: u64| #[trigger] w.contains(x) == (s.contains(x) && x <= limit),
    decreases s.len(),
{
    if s.len() == 0 {
        Seq::empty()
    } else {
        let shorter = s.drop_last();
        let u = descending(shorter, limit);
        let w = if s.last() <= limit {
            placed(u, s.last())
        } else {
            u
        };
        assert forall|x: u64| #[trigger] w.contains(x) == (s.contains(x) && x <= limit) by {
            assert(u.contains(x) == (shorter.contains(x) && x <= limit));
            assert(s[s.len() - 1] == s.last());
            if s.contains(x) {
                let i = choose|i: int| 0 <= i < s.len() && s[i] == x;
                if i < shorter.len() {
                    assert(shorter[i] == x);
                }
            }
            if shorter.contains(x) {
                let i = choose|i: int| 0 <= i < shorter.len() && shorter[i] == x;
                assert(s[i] == x);
            }
        }
        w
    }
}

proof fn placements_are_listed(experts: Option<u64>)
    ensures
        lists_placements(placements(experts), experts),
{
    let limit = match experts {
        Some(e) => e,
        None => u64::MAX,
    };
    let a = descending(common_placements(), limit);
    let v = match experts {
        Some(e) => {
            let three_quarters = (capped_product(e as nat, 3) / 4) as u64;
            let b = placed(a, e);
            let c = if three_quarters <= e {
                placed(b, three_quarters)
            } else {
                b
            };
            let half = placed(c, e / 2);
            let quarter = placed(half, e / 4);
            placed(quarter, 0)
        },
        None => a,
    };
    assert forall|n: u64| v.contains(n) == #[trigger] placement_choice(experts, n) by {}
    assert(lists_placements(v, experts));
}

/// What a sweep holds: candidates of its context and of one of its shapes that
/// leave `--cpu-moe` alone.
proof fn sweep_members(context: u64, shapes: Seq<(bool, u64, u64)>, values: Seq<u64>, i: int)
    requires
        0 <= i < placement_sweep(context, shapes, values).len(),
    ensures
        exists|s: int, n: u64|
            0 <= s < shapes.len() && placement_sweep(context, shapes, values)[i]
                == #[trigger] moe_placement_row(context, shapes[s], n),
    decreases shapes.len(),
{
    let shorter = shapes.drop_last();
    let before = placement_sweep(context, shorter, values);
    if i < before.len() {
        sweep_members(context, shorter, values, i);
        let (s, n) = choose|s: int, n: u64|
            0 <= s < shorter.len() && before[i] == #[trigger] moe_placement_row(
                context,
                shorter[s],
                n,
            );
        assert(placement_sweep(context, shapes, values)[i] == moe_placement_row(
            context,
            shapes[s],
            n,
        ));
    } else {
        assert(placement_sweep(context, shapes, values)[i] == moe_placement_row(
            context,
            shapes[shapes.len() - 1],
            values[i - before.len()],
        ));
    }
}

proof fn sweep_falls(context: u64, shapes: Seq<(bool, u64, u64)>, values: Seq<u64>)
    requires
        forall|i: int, j: int| 0 <= i < j < shapes.len() ==> shapes[i] != shapes[j],
        forall|i: int, j: int| 0 <= i < j < values.len() ==> values[i] > values[j],
    ensures
        placements_fall(placement_sweep(context, shapes, values)),
    decreases shapes.len(),
{
    if shapes.len() > 0 {
        let shorter = shapes.drop_last();
        sweep_falls(context, shorter, values);
        let before = placement_sweep(context, shorter, values);
        let all = placement_sweep(context, shapes, values);
        assert forall|i: int, j: int|
            0 <= i < j < all.len() && same_settings(all[i], all[j]) implies heavier(
            all[i],
            all[j],
        ) by {
            if j < before.len() {
                assert(all[i] == before[i] && all[j] == before[j]);
            } else {
                let last = shapes.last();
                assert(all[j] == moe_placement_row(context, last, values[j - before.len()]));
                if i < before.len() {
                    sweep_members(context, shorter, values, i);
                    let (s, n) = choose|s: int, n: u64|
                        0 <= s < shorter.len() && before[i] == #[trigger] moe_placement_row(
                            context,
                            shorter[s],
                            n,
                        );
                    assert(shapes[s] != shapes[shapes.len() - 1]);
                    reveal_strlit("q8_0");
                    reveal_strlit("q4_0");
                    assert("q8_0"@[1] != "q4_0"@[1]);
                    assert(false);
                } else {
                    assert(all[i] == moe_placement_row(context, last, values[i - before.len()]));
                }
            }
        }
    }
}

/// What is new keeps its order behind what was there.
proof fn new_ones_fall(list: Seq<CandidateView>, more: Seq<CandidateView>)
    requires
        placements_fall(list + more),
    ensures
        placements_fall(with_all_new(list, more)),
        forall|i: int|
            0 <= i < with_all_new(list, more).len() ==> (list + more).contains(
                #[trigger] with_all_new(list, more)[i],
            ),
    decreases more.len(),
{
    let both = list + more;
    if more.len() == 0 {
        assert(both =~= list);
    } else {
        let shorter = more.drop_last();
        let part = list + shorter;
        assert(both.drop_last() =~= part);
        assert(placements_fall(part)) by {
            assert forall|i: int, j: int|
                0 <= i < j < part.len() && same_settings(part[i], part[j]) implies heavier(
                part[i],
                part[j],
            ) by {
                assert(part[i] == both[i] && part[j] == both[j]);
            }
        }
        new_ones_fall(list, shorter);
        let before = with_all_new(list, shorter);
        let all = with_all_new(list, more);
        assert(both[both.len() - 1] == more.last());
        assert forall|i: int| 0 <= i < all.len() implies both.contains(#[trigger] all[i]) by {
            if i < before.len() {
                assert(part.contains(before[i]));
                let k = choose|k: int| 0 <= k < part.len() && part[k] == before[i];
                assert(both[k] == all[i]);
            }
        }
        assert forall|i: int, j: int|
            0 <= i < j < all.len() && same_settings(all[i], all[j]) implies heavier(
            all[i],
            all[j],
        ) by {
            assert(all[i] == before[i]);
            if j < before.len() {
                assert(all[j] == before[j]);
            } else {
                assert(part.contains(before[i]));
                let k = choose|k: int| 0 <= k < part.len() && part[k] == before[i];
                assert(both[k] == all[i]);
                assert(both[both.len() - 1] == all[j]);
            }
        }
    }
}

proof fn fallback_row_placements(templates: Seq<CandidateView>, contexts: Seq<u64>)
    requires
        forall|i: int| 0 <= i < templates.len() ==> (#[trigger] templates[i]).n_cpu_moe is None,
    ensures
        forall|i: int|
            0 <= i < fallback_rows(templates, contexts).len() ==> (#[trigger] fallback_rows(
                templates,
                contexts,
            )[i]).n_cpu_moe is None,
    decreases contexts.len(),
{
    if contexts.len() > 0 {
        fallback_row_placements(templates, contexts.drop_last());
    }
}

/// What the draft of a mixture of experts says of placements.
proof fn draft_falls(metadata: MetadataView, context: u64)
    requires
        metadata.model_kind == ModelKind::Moe,
    ensures
        placements_fall(drafted(metadata, context)),
        forall|i: int|
            0 <= i < drafted(metadata, context).len() && (#[trigger] drafted(
                metadata,
                context,
            )[i]).n_cpu_moe is Some ==> !drafted(metadata, context)[i].cpu_moe,
{
    let values = placements(metadata.expert_count);
    placements_are_listed(metadata.expert_count);
    let first = moe_baseline_rows(context);
    let sweep = placement_sweep(context, moe_shapes(), values);
    sweep_falls(context, moe_shapes(), values);
    let both = first + sweep;
    assert forall|i: int, j: int|
        0 <= i < j < both.len() && same_settings(both[i], both[j]) implies heavier(
        both[i],
        both[j],
    ) by {
        if i >= first.len() {
            assert(both[i] == sweep[i - first.len()] && both[j] == sweep[j - first.len()]);
        }
    }
    new_ones_fall(first, sweep);
    let base = moe_plan(context, metadata.expert_count);
    assert forall|i: int| 0 <= i < base.len() && (#[trigger] base[i]).n_cpu_moe is Some implies
        !base[i].cpu_moe by {
        assert(both.contains(base[i]));
        let k = choose|k: int| 0 <= k < both.len() && both[k] == base[i];
        if k >= first.len() {
            sweep_members(context, moe_shapes(), values, k - first.len());
        }
    }
    sweep_contexts(context, moe_shapes(), values);
    new_contexts(first, sweep, context);
    let templates = first_four(base);
    assert forall|i: int| 0 <= i < templates.len() implies (
    #[trigger] templates[i]).n_cpu_moe is None by {
        assert(base.take(first.len() as int)[i] == first[i]);
    }
    fallback_row_placements(templates, fallbacks(context));
    let rest = fallback_rows(templates, fallbacks(context));
    let draft = drafted(metadata, context);
    assert(draft == base + rest);
    assert forall|i: int, j: int|
        0 <= i < j < draft.len() && same_settings(draft[i], draft[j]) implies heavier(
        draft[i],
        draft[j],
    ) by {
        if j < base.len() {
            assert(draft[i] == base[i] && draft[j] == base[j]);
        } else {
            assert(draft[j] == rest[j - base.len()]);
        }
    }
    assert forall|i: int| 0 <= i < draft.len() && (#[trigger] draft[i]).n_cpu_moe is Some implies
        !draft[i].cpu_moe by {
        if i < base.len() {
            assert(draft[i] == base[i]);
        } else {
            assert(draft[i] == rest[i - base.len()]);
        }
    }
}

proof fn rank_falls(list: Seq<CandidateView>, top: u64, k: int)
    requires
        placements_fall(list),
    ensures
        placements_fall(of_rank(list, top, k)),
    decreases list.len(),
{
    if list.len() > 0 {
        let shorter = list.drop_last();
        assert forall|i: int, j: int|
            0 <= i < j < shorter.len() && same_settings(shorter[i], shorter[j]) implies heavier(
            shorter[i],
            shorter[j],
        ) by {
            assert(shorter[i] == list[i] && shorter[j] == list[j]);
        }
        rank_falls(shorter, top, k);
        of_rank_members(shorter, top, k);
        let before = of_rank(shorter, top, k);
        let all = of_rank(list, top, k);
        assert forall|i: int, j: int|
            0 <= i < j < all.len() && same_settings(all[i], all[j]) implies heavier(
            all[i],
            all[j],
        ) by {
            assert(all[i] == before[i]);
            if j < before.len() {
                assert(all[j] == before[j]);
            } else {
                assert(shorter.contains(before[i]));
                let m = choose|m: int| 0 <= m < shorter.len() && shorter[m] == before[i];
                assert(list[m] == all[i] && list[list.len() - 1] == all[j]);
            }
        }
    }
}

proof fn lower_ranks_fall(list: Seq<CandidateView>, top: u64, k: nat)
    requires
        placements_fall(list),
        forall|i: int, j: int|
            0 <= i < list.len() && 0 <= j < list.len() && same_settings(list[i], list[j])
                && list[i].n_cpu_moe is Some && list[j].n_cpu_moe is Some ==> rank(list[i], top)
                == rank(list[j], top),
    ensures
        placements_fall(below_rank(list, top, k)),
    decreases k,
{
    if k > 0 {
        let lower = (k - 1) as nat;
        lower_ranks_fall(list, top, lower);
        rank_falls(list, top, k - 1);
        below_rank_members(list, top, lower);
        of_rank_members(list, top, k - 1);
        let a = below_rank(list, top, lower);
        let b = of_rank(list, top, k - 1);
        let all = below_rank(list, top, k);
        assert forall|i: int, j: int|
            0 <= i < j < all.len() && same_settings(all[i], all[j]) implies heavier(
            all[i],
            all[j],
        ) by {
            if j < a.len() {
                assert(all[i] == a[i] && all[j] == a[j]);
            } else if i >= a.len() {
                assert(all[i] == b[i - a.len()] && all[j] == b[j - a.len()]);
            } else {
                assert(all[i] == a[i] && all[j] == b[j - a.len()]);
                assert(list.contains(a[i]) && list.contains(b[j - a.len()]));
                let m = choose|m: int| 0 <= m < list.len() && list[m] == a[i];
                let n = choose|n: int| 0 <= n < list.len() && list[n] == b[j - a.len()];
                assert(same_settings(list[m], list[n]));
            }
        }
    }
}

/// The plan of a mixture of experts moves from the processor to the video
/// card: of two candidates of one shape that say for how many layers the
/// experts stay on the processor, the earlier says more.
pub proof fn moe_plan_moves_off_the_processor(
    metadata: MetadataView,
    context: u64,
    vram: Option<u64>,
)
    requires
        metadata.model_kind == ModelKind::Moe,
    ensures
        placements_fall(planned(metadata, context, vram)),
{
    draft_falls(metadata, context);
    let draft = drafted(metadata, context);
    let list = all_annotated(draft, metadata.file_size_bytes / 0x10_0000, vram);
    assert forall|i: int, j: int|
        0 <= i < j < list.len() && same_settings(list[i], list[j]) implies heavier(
        list[i],
        list[j],
    ) by {
        assert(same_settings(draft[i], draft[j]));
    }
    let top = top_context(list);
    assert forall|i: int, j: int|
        0 <= i < list.len() && 0 <= j < list.len() && same_settings(list[i], list[j])
            && list[i].n_cpu_moe is Some && list[j].n_cpu_moe is Some implies rank(list[i], top)
        == rank(list[j], top) by {
        assert(!draft[i].cpu_moe && !draft[j].cpu_moe);
    }
    lower_ranks_fall(list, top, 6);
}

/// How great a risk is.
pub open spec fn risk_level(risk: CandidateRisk) -> int {
    match risk {
        CandidateRisk::Low => 0,
        CandidateRisk::Medium => 1,
        CandidateRisk::High => 2,
    }
}

/// The risk never falls where the model grows or the video memory shrinks. It
/// is low with every expert on the processor, and otherwise medium where the
/// video memory is not known.
pub proof fn risk_grows(
    c: CandidateView,
    model_mib: u64,
    larger_mib: u64,
    vram: u64,
    smaller_vram: u64,
)
    requires
        model_mib <= larger_mib,
        smaller_vram <= vram,
    ensures
        risk_level(risk_of(c, model_mib, Some(vram))) <= risk_level(
            risk_of(c, larger_mib, Some(smaller_vram)),
        ),
        c.cpu_moe ==> risk_of(c, model_mib, Some(vram)) == CandidateRisk::Low && risk_of(
            c,
            model_mib,
            None,
        ) == CandidateRisk::Low,
        !c.cpu_moe ==> risk_of(c, model_mib, None) == CandidateRisk::Medium,
{
}

// ---------------------------------------------------------------------------
// Ids

/// No two candidates of the list have the same id.
pub open spec fn distinct_ids(list: Seq<CandidateView>) -> bool {
    forall|i: int, j: int|
        0 <= i < j < list.len() ==> (#[trigger] list[i]).id != (#[trigger] list[j]).id
}

/// The id of a candidate at the requested context: it holds no `x`, and ends in
/// a digit.
spec fn full_id(id: Seq<char>) -> bool {
    &&& id.len() > 0
    &&& text::is_digit(id.last())
    &&& forall|i: int| 0 <= i < id.len() ==> #[trigger] id[i] != 'x'
}

spec fn full_ids(list: Seq<CandidateView>) -> bool {
    forall|i: int| 0 <= i < list.len() ==> full_id((#[trigger] list[i]).id)
}

/// What is put in front of a number keeps an id without `x`.
proof fn full_id_of(front: Seq<char>, n: nat)
    requires
        forall|i: int| 0 <= i < front.len() ==> #[trigger] front[i] != 'x',
    ensures
        full_id(front + text::decimal(n)),
{
    text::decimal_reads_back(n);
    let id = front + text::decimal(n);
    assert(id.last() == text::decimal(n).last());
    assert(text::is_digit(text::decimal(n)[text::decimal(n).len() - 1]));
    assert forall|i: int| 0 <= i < id.len() implies #[trigger] id[i] != 'x' by {
        if i >= front.len() {
            assert(text::is_digit(text::decimal(n)[i - front.len()]));
        }
    }
}

proof fn dense_ids(context: u64, row: (bool, u64, u64, u64))
    ensures
        full_id(dense_row(context, row).id),
{
    reveal_strlit("dense-");
    reveal_strlit("q8_0");
    reveal_strlit("q4_0");
    reveal_strlit("-fit");
    reveal_strlit("-b");
    reveal_strlit("-ub");
    let a = "dense-"@ + cache_name(row.0) + "-fit"@;
    full_id_of(a, row.3 as nat);
    let b = a + text::decimal(row.3 as nat) + "-b"@;
    full_id_of(b, row.1 as nat);
    let c = b + text::decimal(row.1 as nat) + "-ub"@;
    full_id_of(c, row.2 as nat);
}

proof fn baseline_ids(context: u64, row: (bool, u64, u64))
    ensures
        full_id(moe_baseline_row(context, row).id),
{
    reveal_strlit("moe-");
    reveal_strlit("q8_0");
    reveal_strlit("q4_0");
    reveal_strlit("-cpu-moe-b");
    reveal_strlit("-ub");
    let a = "moe-"@ + cache_name(row.0) + "-cpu-moe-b"@;
    full_id_of(a, row.1 as nat);
    let b = a + text::decimal(row.1 as nat) + "-ub"@;
    full_id_of(b, row.2 as nat);
}

proof fn placement_ids(context: u64, row: (bool, u64, u64), n: u64)
    ensures
        full_id(moe_placement_row(context, row, n).id),
{
    reveal_strlit("moe-");
    reveal_strlit("q8_0");
    reveal_strlit("q4_0");
    reveal_strlit("-ncpumoe");
    reveal_strlit("-b");
    reveal_strlit("-ub");
    let a = "moe-"@ + cache_name(row.0) + "-ncpumoe"@;
    full_id_of(a, n as nat);
    let b = a + text::decimal(n as nat) + "-b"@;
    full_id_of(b, row.1 as nat);
    let c = b + text::decimal(row.1 as nat) + "-ub"@;
    full_id_of(c, row.2 as nat);
}

proof fn dense_id_tells(context: u64, r: (bool, u64, u64, u64), s: (bool, u64, u64, u64))
    requires
        dense_row(context, r).id == dense_row(context, s).id,
    ensures
        r == s,
{
    reveal_strlit("dense-");
    reveal_strlit("q8_0");
    reveal_strlit("q4_0");
    reveal_strlit("-fit");
    reveal_strlit("-b");
    reveal_strlit("-ub");
    let none = Seq::<char>::empty();
    let id = dense_row(context, r).id;
    let a = "dense-"@ + cache_name(r.0) + "-fit"@;
    let b = "dense-"@ + cache_name(s.0) + "-fit"@;
    let a1 = "-ub"@ + text::decimal(r.2 as nat);
    let b1 = "-ub"@ + text::decimal(s.2 as nat);
    let a2 = "-b"@ + (text::decimal(r.1 as nat) + a1);
    let b2 = "-b"@ + (text::decimal(s.1 as nat) + b1);
    let a3 = text::decimal(r.3 as nat) + a2;
    let b3 = text::decimal(s.3 as nat) + b2;
    assert(id =~= a + a3);
    assert(dense_row(context, s).id =~= b + b3);
    assert((a + a3)[7] == a[7] && (b + b3)[7] == b[7]);
    assert(a[7] == cache_name(r.0)[1] && b[7] == cache_name(s.0)[1]);
    assert(r.0 == s.0);
    assert(a3 =~= (a + a3).skip(14) && b3 =~= (b + b3).skip(14));
    text::decimals_agree(r.3 as nat, a2, s.3 as nat, b2);
    let a4 = text::decimal(r.1 as nat) + a1;
    let b4 = text::decimal(s.1 as nat) + b1;
    assert(a4 =~= a2.skip(2) && b4 =~= b2.skip(2));
    text::decimals_agree(r.1 as nat, a1, s.1 as nat, b1);
    assert(text::decimal(r.2 as nat) + none =~= a1.skip(3));
    assert(text::decimal(s.2 as nat) + none =~= b1.skip(3));
    text::decimals_agree(r.2 as nat, none, s.2 as nat, none);
}

proof fn baseline_id_tells(context: u64, r: (bool, u64, u64), s: (bool, u64, u64))
    requires
        moe_baseline_row(context, r).id == moe_baseline_row(context, s).id,
    ensures
        r == s,
{
    reveal_strlit("moe-");
    reveal_strlit("q8_0");
    reveal_strlit("q4_0");
    reveal_strlit("-cpu-moe-b");
    reveal_strlit("-ub");
    let none = Seq::<char>::empty();
    let a = "moe-"@ + cache_name(r.0) + "-cpu-moe-b"@;
    let b = "moe-"@ + cache_name(s.0) + "-cpu-moe-b"@;
    let a1 = "-ub"@ + text::decimal(r.2 as nat);
    let b1 = "-ub"@ + text::decimal(s.2 as nat);
    let a2 = text::decimal(r.1 as nat) + a1;
    let b2 = text::decimal(s.1 as nat) + b1;
    assert(moe_baseline_row(context, r).id =~= a + a2);
    assert(moe_baseline_row(context, s).id =~= b + b2);
    assert((a + a2)[5] == a[5] && (b + b2)[5] == b[5]);
    assert(a[5] == cache_name(r.0)[1] && b[5] == cache_name(s.0)[1]);
    assert(r.0 == s.0);
    assert(a2 =~= (a + a2).skip(18) && b2 =~= (b + b2).skip(18));
    text::decimals_agree(r.1 as nat, a1, s.1 as nat, b1);
    assert(text::decimal(r.2 as nat) + none =~= a1.skip(3));
    assert(text::decimal(s.2 as nat) + none =~= b1.skip(3));
    text::decimals_agree(r.2 as nat, none, s.2 as nat, none);
}

proof fn new_ids(list: Seq<CandidateView>, more: Seq<CandidateView>)
    requires
        distinct_ids(list),
        full_ids(list),
        full_ids(more),
    ensures
        distinct_ids(with_all_new(list, more)),
        full_ids(with_all_new(list, more)),
    decreases more.len(),
{
    if more.len() > 0 {
        let shorter = more.drop_last();
        assert forall|i: int| 0 <= i < shorter.len() implies full_id((#[trigger] shorter[i]).id) by {
            assert(shorter[i] == more[i]);
        }
        new_ids(list, shorter);
        let before = with_all_new(list, shorter);
        let all = with_all_new(list, more);
        let c = more.last();
        assert(full_id(more[more.len() - 1].id));
        assert forall|i: int| 0 <= i < all.len() implies full_id((#[trigger] all[i]).id) by {
            if i < before.len() {
                assert(all[i] == before[i]);
            }
        }
        assert forall|i: int, j: int| 0 <= i < j < all.len() implies (#[trigger] all[i]).id != (
        #[trigger] all[j]).id by {
            assert(all[i] == before[i]);
            if j < before.len() {
                assert(all[j] == before[j]);
            } else {
                assert(!has_id(before, c.id));
                assert(before[i].id != c.id);
            }
        }
    }
}

/// The id of a fallback tells what it is a fallback of, and to which context;
/// and it holds an `x`.
proof fn fallback_id_tells(a: CandidateView, b: CandidateView, m: u64, n: u64)
    requires
        full_id(a.id),
        full_id(b.id),
    ensures
        at_context(a, m).id == at_context(b, n).id ==> a.id == b.id && m == n,
        at_context(a, m).id != b.id,
        text::is_digit(at_context(a, m).id.last()),
        at_context(a, m).id.len() > 0,
{
    reveal_strlit("-ctx");
    let none = Seq::<char>::empty();
    let s = at_context(a, m).id;
    let u = at_context(b, n).id;
    text::decimal_reads_back(m as nat);
    let d = text::decimal(m as nat);
    assert(s.last() == d.last());
    assert(text::is_digit(d[d.len() - 1]));
    assert(s[a.id.len() + 3int] == 'x');
    assert(u[b.id.len() + 3int] == 'x');
    if s == b.id {
        assert(b.id[a.id.len() + 3int] != 'x');
    }
    if s == u {
        if a.id.len() < b.id.len() {
            let k: int = a.id.len() + 3int;
            if k < b.id.len() {
                assert(u[k] == b.id[k]);
            } else {
                assert(u[k] == "-ctx"@[k - b.id.len()]);
            }
        }
        if b.id.len() < a.id.len() {
            let k: int = b.id.len() + 3int;
            if k < a.id.len() {
                assert(s[k] == a.id[k]);
            } else {
                assert(s[k] == "-ctx"@[k - a.id.len()]);
            }
        }
        assert(a.id =~= s.take(a.id.len() as int));
        assert(b.id =~= u.take(b.id.len() as int));
        assert(d + none =~= s.skip(a.id.len() + 4int));
        assert(text::decimal(n as nat) + none =~= u.skip(b.id.len() + 4int));
        text::decimals_agree(m as nat, none, n as nat, none);
    }
}

proof fn fallback_rows_come_from(templates: Seq<CandidateView>, contexts: Seq<u64>, k: int) -> (r: (
    int,
    int,
))
    requires
        0 <= k < fallback_rows(templates, contexts).len(),
    ensures
        0 <= r.0 < templates.len(),
        0 <= r.1 < contexts.len(),
        fallback_rows(templates, contexts)[k] == at_context(templates[r.0], contexts[r.1]),
    decreases contexts.len(),
{
    let before = fallback_rows(templates, contexts.drop_last());
    if k < before.len() {
        fallback_rows_come_from(templates, contexts.drop_last(), k)
    } else {
        (k - before.len(), contexts.len() - 1)
    }
}

proof fn fallback_ids(templates: Seq<CandidateView>, contexts: Seq<u64>)
    requires
        distinct_ids(templates),
        full_ids(templates),
        forall|i: int, j: int| 0 <= i < j < contexts.len() ==> contexts[i] != contexts[j],
    ensures
        distinct_ids(fallback_rows(templates, contexts)),
    decreases contexts.len(),
{
    if contexts.len() > 0 {
        let shorter = contexts.drop_last();
        fallback_ids(templates, shorter);
        let before = fallback_rows(templates, shorter);
        let all = fallback_rows(templates, contexts);
        assert forall|i: int, j: int| 0 <= i < j < all.len() implies (#[trigger] all[i]).id != (
        #[trigger] all[j]).id by {
            if j < before.len() {
                assert(all[i] == before[i] && all[j] == before[j]);
            } else {
                let b = j - before.len();
                assert(all[j] == at_context(templates[b], contexts.last()));
                if i < before.len() {
                    let (a, c) = fallback_rows_come_from(templates, shorter, i);
                    assert(all[i] == before[i]);
                    fallback_id_tells(templates[a], templates[b], shorter[c], contexts.last());
                    assert(contexts[c] != contexts[contexts.len() - 1]);
                } else {
                    let a = i - before.len();
                    assert(all[i] == at_context(templates[a], contexts.last()));
                    fallback_id_tells(
                        templates[a],
                        templates[b],
                        contexts.last(),
                        contexts.last(),
                    );
                }
            }
        }
    }
}

proof fn fallbacks_differ(requested: u64)
    ensures
        forall|i: int, j: int|
            0 <= i < j < fallbacks(requested).len() ==> fallbacks(requested)[i] != fallbacks(
                requested,
            )[j],
{
    let third = if requested < 65_536 {
        requested
    } else {
        65_536
    };
    let one = with_fallback(seq![], requested, requested / 2);
    let two = with_fallback(one, requested, requested / 4);
    fallback_stays_distinct(seq![], requested, requested / 2);
    fallback_stays_distinct(one, requested, requested / 4);
    fallback_stays_distinct(two, requested, third);
}

proof fn fallback_stays_distinct(list: Seq<u64>, requested: u64, context: u64)
    requires
        forall|i: int, j: int| 0 <= i < j < list.len() ==> list[i] != list[j],
    ensures
        forall|i: int, j: int|
            0 <= i < j < with_fallback(list, requested, context).len() ==> with_fallback(
                list,
                requested,
                context,
            )[i] != with_fallback(list, requested, context)[j],
{
    let all = with_fallback(list, requested, context);
    assert forall|i: int, j: int| 0 <= i < j < all.len() implies all[i] != all[j] by {
        assert(all[i] == list[i]);
        if j >= list.len() {
            assert(list.contains(list[i]));
        }
    }
}

proof fn drafted_ids(metadata: MetadataView, context: u64)
    ensures
        distinct_ids(drafted(metadata, context)),
        forall|i: int|
            0 <= i < drafted(metadata, context).len() ==> (#[trigger] drafted(
                metadata,
                context,
            )[i]).id.len() > 0 && text::is_digit(drafted(metadata, context)[i].id.last()),
{
    let base = match metadata.model_kind {
        ModelKind::Moe => moe_plan(context, metadata.expert_count),
        ModelKind::Dense => dense_plan(context),
        ModelKind::Unknown => dense_plan(context),
    };
    if metadata.model_kind == ModelKind::Moe {
        let first = moe_baseline_rows(context);
        let values = placements(metadata.expert_count);
        let more = placement_sweep(context, moe_shapes(), values);
        assert forall|i: int| 0 <= i < first.len() implies full_id((#[trigger] first[i]).id) by {
            baseline_ids(context, moe_baselines()[i]);
        }
        assert forall|i: int, j: int| 0 <= i < j < first.len() implies (#[trigger] first[i]).id != (
        #[trigger] first[j]).id by {
            if first[i].id == first[j].id {
                baseline_id_tells(context, moe_baselines()[i], moe_baselines()[j]);
            }
        }
        assert forall|i: int| 0 <= i < more.len() implies full_id((#[trigger] more[i]).id) by {
            sweep_members(context, moe_shapes(), values, i);
            let (s, n) = choose|s: int, n: u64|
                0 <= s < moe_shapes().len() && more[i] == #[trigger] moe_placement_row(
                    context,
                    moe_shapes()[s],
                    n,
                );
            placement_ids(context, moe_shapes()[s], n);
        }
        new_ids(first, more);
    } else {
        let first = dense_rows(context, dense_priority());
        let more = dense_rows(context, dense_grid());
        assert forall|i: int| 0 <= i < first.len() implies full_id((#[trigger] first[i]).id) by {
            dense_ids(context, dense_priority()[i]);
        }
        assert forall|i: int, j: int| 0 <= i < j < first.len() implies (#[trigger] first[i]).id != (
        #[trigger] first[j]).id by {
            if first[i].id == first[j].id {
                dense_id_tells(context, dense_priority()[i], dense_priority()[j]);
            }
        }
        assert forall|i: int| 0 <= i < more.len() implies full_id((#[trigger] more[i]).id) by {
            dense_ids(context, dense_grid()[i]);
        }
        new_ids(first, more);
    }
    let templates = first_four(base);
    let contexts = fallbacks(context);
    let rest = fallback_rows(templates, contexts);
    assert forall|i: int| 0 <= i < templates.len() implies full_id((#[trigger] templates[i]).id) by {
        assert(templates[i] == base[i]);
    }
    assert forall|i: int, j: int| 0 <= i < j < templates.len() implies (
    #[trigger] templates[i]).id != (#[trigger] templates[j]).id by {
        assert(templates[i] == base[i] && templates[j] == base[j]);
    }
    fallbacks_differ(context);
    fallback_ids(templates, contexts);
    let draft = drafted(metadata, context);
    assert(draft == base + rest);
    assert forall|i: int, j: int| 0 <= i < j < draft.len() implies (#[trigger] draft[i]).id != (
    #[trigger] draft[j]).id by {
        if j < base.len() {
            assert(draft[i] == base[i] && draft[j] == base[j]);
        } else {
            assert(draft[j] == rest[j - base.len()]);
            if i < base.len() {
                assert(draft[i] == base[i]);
                let (a, c) = fallback_rows_come_from(templates, contexts, j - base.len());
                fallback_id_tells(templates[a], base[i], contexts[c], contexts[c]);
            } else {
                assert(draft[i] == rest[i - base.len()]);
            }
        }
    }
    assert forall|i: int| 0 <= i < draft.len() implies (#[trigger] draft[i]).id.len() > 0
        && text::is_digit(draft[i].id.last()) by {
        if i < base.len() {
            assert(draft[i] == base[i]);
        } else {
            assert(draft[i] == rest[i - base.len()]);
            let (a, c) = fallback_rows_come_from(templates, contexts, i - base.len());
            fallback_id_tells(templates[a], templates[a], contexts[c], contexts[c]);
        }
    }
}

/// A list in another order has distinct ids where it had them before.
pub proof fn order_keeps_ids_distinct(list: Seq<CandidateView>, other: Seq<CandidateView>)
    requires
        distinct_ids(list),
        other.to_multiset() == list.to_multiset(),
    ensures
        distinct_ids(other),
        forall|i: int| 0 <= i < other.len() ==> list.contains(#[trigger] other[i]),
{
    broadcast use vstd::seq_lib::group_to_multiset_ensures;

    assert(list.no_duplicates()) by {
        assert forall|i: int, j: int|
            0 <= i < list.len() && 0 <= j < list.len() && i != j implies list[i] != list[j] by {
            if i < j {
                assert(list[i].id != list[j].id);
            } else {
                assert(list[j].id != list[i].id);
            }
        }
    }
    list.lemma_multiset_has_no_duplicates();
    assert forall|x: CandidateView|
        other.to_multiset().contains(x) implies #[trigger] other.to_multiset().count(x) == 1 by {}
    other.lemma_multiset_has_no_duplicates_conv();
    assert forall|i: int| 0 <= i < other.len() implies list.contains(#[trigger] other[i]) by {
        assert(other.contains(other[i]));
        assert(other.to_multiset().count(other[i]) > 0);
        assert(list.to_multiset().count(other[i]) > 0);
    }
    assert forall|i: int, j: int| 0 <= i < j < other.len() implies (#[trigger] other[i]).id != (
    #[trigger] other[j]).id by {
        let a = choose|a: int| 0 <= a < list.len() && list[a] == other[i];
        let b = choose|b: int| 0 <= b < list.len() && list[b] == other[j];
        assert(list.contains(other[i]) && list.contains(other[j]));
        if a == b {
            assert(other[i] == other[j]);
        } else if a < b {
            assert(list[a].id != list[b].id);
        } else {
            assert(list[b].id != list[a].id);
        }
    }
}

/// No two candidates of a plan have the same id, and every id ends in a digit.
pub proof fn plan_ids_are_distinct(metadata: MetadataView, context: u64, vram: Option<u64>)
    ensures
        forall|i: int, j: int|
            0 <= i < j < planned(metadata, context, vram).len() ==> (#[trigger] planned(
                metadata,
                context,
                vram,
            )[i]).id != (#[trigger] planned(metadata, context, vram)[j]).id,
        forall|i: int|
            0 <= i < planned(metadata, context, vram).len() ==> (#[trigger] planned(
                metadata,
                context,
                vram,
            )[i]).id.len() > 0 && text::is_digit(planned(metadata, context, vram)[i].id.last()),
{
    drafted_ids(metadata, context);
    let draft = drafted(metadata, context);
    let list = all_annotated(draft, metadata.file_size_bytes / 0x10_0000, vram);
    let plan = planned(metadata, context, vram);
    assert forall|i: int, j: int| 0 <= i < j < list.len() implies (#[trigger] list[i]).id != (
    #[trigger] list[j]).id by {
        assert(draft[i].id != draft[j].id);
    }
    plan_is_complete(list);
    order_keeps_ids_distinct(list, plan);
    assert forall|i: int| 0 <= i < plan.len() implies (#[trigger] plan[i]).id.len() > 0
        && text::is_digit(plan[i].id.last()) by {
        assert(list.contains(plan[i]));
        let k = choose|k: int| 0 <= k < list.len() && list[k] == plan[i];
        assert(draft[k].id == plan[i].id);
    }
}

/// The id of a candidate names its settings.
pub proof fn ids_name_the_settings(context: u64, row: (bool, u64, u64, u64), n: u64)
    ensures
        ({
            let c = dense_row(context, row);
            &&& c.id == "dense-"@ + c.kv_cache->0 + "-fit"@ + text::decimal(
                c.fit_target->0 as nat,
            ) + "-b"@ + text::decimal(c.batch->0 as nat) + "-ub"@ + text::decimal(
                c.ubatch->0 as nat,
            )
            &&& c.kv_cache == Some(if row.0 { "q8_0"@ } else { "q4_0"@ })
            &&& c.kv_cache is Some && c.fit_target == Some(row.3) && c.batch == Some(row.1)
                && c.ubatch == Some(row.2)
            &&& c.requested_context == context
            &&& c.kv_cache_v is None && c.gpu_layers is None && !c.cpu_moe && c.n_cpu_moe is None
                && c.threads is None && c.threads_batch is None
        }),
        ({
            let c = moe_placement_row(context, (row.0, row.1, row.2), n);
            &&& c.id == "moe-"@ + c.kv_cache->0 + "-ncpumoe"@ + text::decimal(
                c.n_cpu_moe->0 as nat,
            ) + "-b"@ + text::decimal(c.batch->0 as nat) + "-ub"@ + text::decimal(
                c.ubatch->0 as nat,
            )
            &&& c.kv_cache == Some(if row.0 { "q8_0"@ } else { "q4_0"@ })
            &&& c.n_cpu_moe == Some(n) && c.batch == Some(row.1) && c.ubatch == Some(row.2)
            &&& c.requested_context == context
            &&& c.fit_target == Some(1536u64)
            &&& c.kv_cache_v is None && c.gpu_layers is None && !c.cpu_moe && c.threads is None
                && c.threads_batch is None
        }),
        ({
            let c = moe_baseline_row(context, (row.0, row.1, row.2));
            &&& c.id == "moe-"@ + c.kv_cache->0 + "-cpu-moe-b"@ + text::decimal(
                c.batch->0 as nat,
            ) + "-ub"@ + text::decimal(c.ubatch->0 as nat)
            &&& c.kv_cache == Some(if row.0 { "q8_0"@ } else { "q4_0"@ })
            &&& c.batch == Some(row.1) && c.ubatch == Some(row.2)
            &&& c.requested_context == context
            &&& c.fit_target == Some(1536u64)
            &&& c.kv_cache_v is None && c.gpu_layers is None && c.cpu_moe && c.n_cpu_moe is None
                && c.threads is None && c.threads_batch is None
        }),
{
}

/// The contexts to fall back to are a half, a quarter and 64k of tokens, as far
/// as they are shorter than what was asked for and at least 4096.
pub proof fn fallbacks_are_shorter(requested: u64, context: u64)
    ensures
        fallbacks(requested).contains(context) == (4096 <= context < requested && (context
            == requested / 2 || context == requested / 4 || context == 65_536)),
        fallbacks(requested).len() <= 3,
{
    let a = with_fallback(seq![], requested, requested / 2);
    let b = with_fallback(a, requested, requested / 4);
    let third = if requested < 65_536 {
        requested
    } else {
        65_536
    };
    fallback_is_added(seq![], requested, (requested / 2) as u64, context);
    fallback_is_added(a, requested, (requested / 4) as u64, context);
    fallback_is_added(b, requested, third, context);
    assert(!Seq::<u64>::empty().contains(context));
}

proof fn fallback_is_added(list: Seq<u64>, requested: u64, n: u64, context: u64)
    ensures
        with_fallback(list, requested, n).contains(context) == (list.contains(context) || (context
            == n && 4096 <= n < requested)),
{
    let all = with_fallback(list, requested, n);
    if all.len() > list.len() {
        assert(all[list.len() as int] == n);
        if list.contains(context) {
            let i = choose|i: int| 0 <= i < list.len() && list[i] == context;
            assert(all[i] == context);
        }
        if all.contains(context) && context != n {
            let i = choose|i: int| 0 <= i < all.len() && all[i] == context;
            assert(list[i] == context);
        }
    }
}

/// A fallback is the same configuration with a shorter context.
pub proof fn fallbacks_keep_the_settings(c: CandidateView, context: u64)
    ensures
        ({
            let f = at_context(c, context);
            &&& f.requested_context == context
            &&& f.id == c.id + "-ctx"@ + text::decimal(context as nat)
            &&& f.batch == c.batch
            &&& f.ubatch == c.ubatch
            &&& f.kv_cache == c.kv_cache
            &&& f.kv_cache_v == c.kv_cache_v
            &&& f.fit_target == c.fit_target
            &&& f.gpu_layers == c.gpu_layers
            &&& f.cpu_moe == c.cpu_moe
            &&& f.n_cpu_moe == c.n_cpu_moe
            &&& f.threads == c.threads
            &&& f.threads_batch == c.threads_batch
        }),
{
}

/// The risk of a candidate by what model and cache take of the video memory: low
/// below 70 %, medium below 90 %, and high from there; low with all experts on
/// the processor, and medium where the memory is not known.
pub proof fn risks_follow_the_memory(c: CandidateView, model_mib: u64, total: u64)
    requires
        model_mib <= 0x0100_0000_0000,
        total <= 0x0100_0000_0000,
        c.requested_context <= 0x0100_0000_0000,
    ensures
        c.cpu_moe ==> risk_of(c, model_mib, Some(total)) == CandidateRisk::Low && risk_of(
            c,
            model_mib,
            None,
        ) == CandidateRisk::Low,
        !c.cpu_moe ==> risk_of(c, model_mib, None) == CandidateRisk::Medium,
        !c.cpu_moe && c.kv_cache == Some("q8_0"@) ==> {
            let used = model_mib + c.requested_context as int / 128;
            &&& 100 * used < 70 * total ==> risk_of(c, model_mib, Some(total)) == CandidateRisk::Low
            &&& 70 * total <= 100 * used < 90 * total ==> risk_of(c, model_mib, Some(total))
                == CandidateRisk::Medium
            &&& 100 * used >= 90 * total ==> risk_of(c, model_mib, Some(total))
                == CandidateRisk::High
        },
        !c.cpu_moe && c.kv_cache == Some("q4_0"@) ==> {
            let used = model_mib + c.requested_context as int / 256;
            &&& 100 * used < 70 * total ==> risk_of(c, model_mib, Some(total)) == CandidateRisk::Low
            &&& 70 * total <= 100 * used < 90 * total ==> risk_of(c, model_mib, Some(total))
                == CandidateRisk::Medium
            &&& 100 * used >= 90 * total ==> risk_of(c, model_mib, Some(total))
                == CandidateRisk::High
        },
{
    reveal_strlit("q8_0");
    reveal_strlit("q4_0");
    assert("q8_0"@[1] != "q4_0"@[1]);
}

/// A dense search tries every batch from 1024 to 16384, with a quarter of it at
/// a time, with either cache and each fit target.
pub proof fn dense_plans_try_every_shape(
    context: u64,
    fine: bool,
    batch: u64,
    ubatch: u64,
    fit: u64,
)
    requires
        batch == 1024 || batch == 2048 || batch == 4096 || batch == 8192 || batch == 16384,
        4 * ubatch == batch,
        fit == 1536 || fit == 768 || fit == 512 || fit == 256,
    ensures
        has_id(
            dense_plan(context),
            "dense-"@ + (if fine { "q8_0"@ } else { "q4_0"@ }) + "-fit"@ + text::decimal(
                fit as nat,
            ) + "-b"@ + text::decimal(batch as nat) + "-ub"@ + text::decimal(ubatch as nat),
        ),
{
    let b: int = if batch == 1024 {
        0
    } else if batch == 2048 {
        1
    } else if batch == 4096 {
        2
    } else if batch == 8192 {
        3
    } else {
        4
    };
    let f: int = if fit == 1536 {
        0
    } else if fit == 768 {
        1
    } else if fit == 512 {
        2
    } else {
        3
    };
    let k: int = (if fine {
        0int
    } else {
        20int
    }) + 4 * b + f;
    assert(0 <= k < 40 && (k % 20) / 4 == b && k % 4 == f && (k < 20) == fine);
    assert(dense_batches()[b] == (batch, ubatch));
    assert(dense_fits()[f] == fit);
    assert(dense_grid()[k] == (fine, batch, ubatch, fit));
    let rows = dense_rows(context, dense_grid());
    assert(rows[k] == dense_row(context, (fine, batch, ubatch, fit)));
    new_candidates_are_held(dense_rows(context, dense_priority()), rows, k);
}

proof fn new_candidates_are_held(list: Seq<CandidateView>, more: Seq<CandidateView>, k: int)
    requires
        0 <= k < more.len(),
    ensures
        has_id(with_all_new(list, more), more[k].id),
    decreases more.len(),
{
    let before = with_all_new(list, more.drop_last());
    let all = with_all_new(list, more);
    if k < more.len() - 1 {
        new_candidates_are_held(list, more.drop_last(), k);
        assert(more.drop_last()[k] == more[k]);
        let i = choose|i: int| 0 <= i < before.len() && (#[trigger] before[i]).id == more[k].id;
        assert(all[i].id == more[k].id);
    } else if !has_id(before, more.last().id) {
        assert(all[before.len() as int].id == more[k].id);
    }
}

} // verus!
