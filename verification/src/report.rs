//! Reports: what is written about the best observed configurations, and where
//! it goes in a text that others write too.
use crate::environment::{compatibility_name, Compatibility, EnvironmentSnapshot};
use crate::gguf::{
    bytes_text, format_bytes, GgufMetadata, IdentityView, MetadataView, ModelIdentity, ModelKind,
};
use crate::measure::{falling, falling_is_an_order, order_falling, Real};
use crate::profile::{
    command_display, display_of, outcome_name, CoverageView, RealisticValidation, Recommendation,
    RecommendationFile, RecommendationView, RecommendationsView, RejectedRun, RejectedView,
    SearchCoverage, StaleRun, StaleView, TelemetryStatus, ValidationLevel, ValidationView,
    AGENT_SCHEMA_VERSION, SCHEMA_VERSION,
};
use crate::ranking::{confidence, confidence_text, known_label};
use crate::record::{duplicate_all, duplicate_opt, opt_view, views, Duplicate};
use crate::runner::{key_text, profile_key, RecommendOutput};
use crate::text;
use crate::tuning::{broad, find_profile, is_broad, profile_named};
use vstd::prelude::*;

verus! {

// ---------------------------------------------------------------------------
// Options

/// How to report.
#[derive(Debug)]
pub struct ReportOptions {
    pub agent: bool,
    pub include_stale: bool,
}

/// What to export, and whether to write it.
#[derive(Debug)]
pub struct ExportOptions {
    pub markdown: bool,
    pub opencode: Option<String>,
    pub dry_run: bool,
    pub write: bool,
}

// ---------------------------------------------------------------------------
// The managed block

/// The line before the managed block.
pub const MANAGED_START: &'static str = "<!-- llama-cpp-profiler:start -->";

/// The line behind the managed block.
pub const MANAGED_END: &'static str = "<!-- llama-cpp-profiler:end -->";

/// The managed block with its two lines.
pub open spec fn block_of(body: Seq<char>) -> Seq<char> {
    MANAGED_START@ + "\n"@ + body + "\n"@ + MANAGED_END@
}

/// The text has a managed block: its first two lines of the kind, the one that
/// starts a block not behind the one that ends it.
pub open spec fn has_block(existing: Seq<char>) -> bool {
    match (text::found(existing, MANAGED_START@), text::found(existing, MANAGED_END@)) {
        (Some(start), Some(end)) => start <= end,
        _ => false,
    }
}

/// What stands before the managed block, without the white space there.
pub open spec fn before_block(existing: Seq<char>) -> Seq<char> {
    text::trim_end(existing.take(text::found(existing, MANAGED_START@)->0))
}

/// What stands behind the managed block, without the white space there.
pub open spec fn behind_block(existing: Seq<char>) -> Seq<char> {
    text::trim_start(
        existing.skip(text::found(existing, MANAGED_END@)->0 + MANAGED_END@.len() as int),
    )
}

/// The text with a new managed block: in place of the old one, or else at the
/// end.
pub open spec fn managed(existing: Seq<char>, body: Seq<char>) -> Seq<char> {
    if has_block(existing) {
        before_block(existing) + "\n\n"@ + block_of(body) + "\n\n"@ + behind_block(existing)
    } else if text::trim(existing).len() == 0 {
        block_of(body) + "\n"@
    } else {
        text::trim_end(existing) + "\n\n"@ + block_of(body) + "\n"@
    }
}

/// Puts a managed block into a text: in place of the old one, or else at the
/// end. The rest of the text stays, but for white space next to the block.
pub fn update_managed_block(existing: &str, block_body: &str) -> (r: String)
    ensures
        r@ == managed(existing@, block_body@),
{
    let mut block = MANAGED_START.to_string();
    block.append("\n");
    block.append(block_body);
    block.append("\n");
    block.append(MANAGED_END);
    let chars = text::to_chars(existing);
    let total: usize = chars.len();
    let end_line = text::to_chars(MANAGED_END);
    let start = text::find_chars(&chars, &text::to_chars(MANAGED_START));
    let end = text::find_chars(&chars, &end_line);
    proof {
        text::found_is_first(existing@, MANAGED_START@);
        text::found_is_first(existing@, MANAGED_END@);
        if let Some(i) = start {
            text::first_is_unique(
                existing@,
                MANAGED_START@,
                i as int,
                text::found(existing@, MANAGED_START@)->0,
            );
        }
        if let Some(i) = end {
            text::first_is_unique(
                existing@,
                MANAGED_END@,
                i as int,
                text::found(existing@, MANAGED_END@)->0,
            );
        }
    }
    if let (Some(start), Some(end)) = (start, end) {
        if start <= end {
            let behind: usize = end + end_line.len();
            let head = text::slice_text(&chars, 0, start);
            let tail = text::slice_text(&chars, behind, total);
            proof {
                assert(head@ =~= existing@.take(start as int));
                assert(tail@ =~= existing@.skip(behind as int));
            }
            let mut output = text::trimmed_end(head.as_str());
            output.append("\n\n");
            output.append(block.as_str());
            output.append("\n\n");
            output.append(text::trimmed_start(tail.as_str()).as_str());
            return output;
        }
    }
    if text::to_chars(text::trimmed(existing).as_str()).len() == 0 {
        block.append("\n");
        return block;
    }
    let mut output = text::trimmed_end(existing);
    output.append("\n\n");
    output.append(block.as_str());
    output.append("\n");
    output
}

/// The text holds neither line of a managed block.
pub open spec fn unmarked(s: Seq<char>) -> bool {
    !text::occurs(s, MANAGED_START@) && !text::occurs(s, MANAGED_END@)
}

/// An update keeps the text around the block, but for the white space next to
/// it: what stood before the block still comes first, and what stood behind
/// it still comes last. Where there was no block, all of the text comes first.
pub proof fn updates_keep_the_rest(existing: Seq<char>, body: Seq<char>)
    ensures
        has_block(existing) ==> text::starts_with(
            managed(existing, body),
            before_block(existing),
        ) && text::ends_with(managed(existing, body), behind_block(existing)),
        !has_block(existing) && text::trim(existing).len() > 0 ==> text::starts_with(
            managed(existing, body),
            text::trim_end(existing),
        ),
        text::occurs(managed(existing, body), block_of(body)),
{
    let r = managed(existing, body);
    let b = block_of(body);
    if has_block(existing) {
        let head = before_block(existing);
        let tail = behind_block(existing);
        assert(r.take(head.len() as int) =~= head);
        assert(r.skip(r.len() - tail.len()) =~= tail);
        let at: int = head.len() + "\n\n"@.len() as int;
        assert(r.subrange(at, at + b.len()) =~= b);
        assert(text::occurs_at(r, b, at));
    } else if text::trim(existing).len() == 0 {
        assert(r.subrange(0, b.len() as int) =~= b);
        assert(text::occurs_at(r, b, 0));
    } else {
        let head = text::trim_end(existing);
        assert(r.take(head.len() as int) =~= head);
        let at: int = head.len() + "\n\n"@.len() as int;
        assert(r.subrange(at, at + b.len()) =~= b);
        assert(text::occurs_at(r, b, at));
    }
}

/// The lines of a block hold no line break, and neither holds the other.
proof fn marker_facts()
    ensures
        !MANAGED_START@.contains('\n'),
        !MANAGED_END@.contains('\n'),
        MANAGED_START@.len() == 33,
        MANAGED_END@.len() == 31,
        !text::occurs(MANAGED_START@, MANAGED_END@),
        "\n"@ == seq!['\n'],
        "\n\n"@ == seq!['\n', '\n'],
{
    reveal_strlit("<!-- llama-cpp-profiler:start -->");
    reveal_strlit("<!-- llama-cpp-profiler:end -->");
    reveal_strlit("\n");
    reveal_strlit("\n\n");
    let start = MANAGED_START@;
    let end = MANAGED_END@;
    assert("\n"@ =~= seq!['\n']);
    assert("\n\n"@ =~= seq!['\n', '\n']);
    assert forall|i: int| !text::occurs_at(start, end, i) by {
        if text::occurs_at(start, end, i) {
            assert(start.subrange(i, i + end.len())[24] == end[24]);
            assert(start[i + 24] == end[24]);
            assert(start.subrange(i, i + end.len())[0] == end[0]);
            assert(start[i] == end[0]);
        }
    }
}

/// A text without line breaks that stands in two texts with a line break
/// between them stands in one of the two.
proof fn stands_on_one_side(a: Seq<char>, b: Seq<char>, pat: Seq<char>, i: int)
    requires
        !pat.contains('\n'),
        text::occurs_at(a + seq!['\n'] + b, pat, i),
        pat.len() > 0,
    ensures
        text::occurs_at(a, pat, i) || text::occurs_at(b, pat, i - a.len() - 1),
{
    let s = a + seq!['\n'] + b;
    let n = pat.len() as int;
    assert(s.subrange(i, i + n) == pat);
    if i <= a.len() < i + n {
        assert(s.subrange(i, i + n)[a.len() - i] == '\n');
        assert(pat.contains('\n'));
    } else if i + n <= a.len() {
        assert(a.subrange(i, i + n) =~= s.subrange(i, i + n));
    } else {
        assert(b.subrange(i - a.len() - 1, i - a.len() - 1 + n) =~= s.subrange(i, i + n));
    }
}

/// The block in the middle of a text: where its lines are found.
proof fn block_is_found(head: Seq<char>, body: Seq<char>, tail: Seq<char>)
    requires
        unmarked(head),
        !text::occurs(body, MANAGED_END@),
    ensures
        ({
            let s = head + "\n\n"@ + block_of(body) + "\n"@ + tail;
            &&& text::found(s, MANAGED_START@) == Some(head.len() + 2int)
            &&& text::found(s, MANAGED_END@) == Some(head.len() + 37int + body.len())
            &&& s.take(head.len() + 2int) == head + "\n\n"@
            &&& s.skip(head.len() + 68 + body.len() as int) == "\n"@ + tail
        }),
{
    marker_facts();
    let start = MANAGED_START@;
    let end = MANAGED_END@;
    let nl = seq!['\n'];
    let s = head + "\n\n"@ + block_of(body) + "\n"@ + tail;
    let a = end + nl + tail;
    let b = body + nl + a;
    let c = start + nl + b;
    let d = Seq::<char>::empty() + nl + c;
    assert(s =~= head + nl + d);
    let at: int = head.len() + 2int;
    let to: int = head.len() + 37int + body.len();
    assert(s.subrange(at, at + 33) =~= start);
    assert(text::occurs_at(s, start, at));
    assert(s.subrange(to, to + 31) =~= end);
    assert(text::occurs_at(s, end, to));
    assert forall|j: int| 0 <= j < at implies !text::occurs_at(s, start, j) by {
        if text::occurs_at(s, start, j) {
            stands_on_one_side(head, d, start, j);
            if text::occurs_at(d, start, j - head.len() - 1) {
                stands_on_one_side(Seq::<char>::empty(), c, start, j - head.len() - 1);
            }
        }
    }
    assert forall|j: int| 0 <= j < to implies !text::occurs_at(s, end, j) by {
        if text::occurs_at(s, end, j) {
            stands_on_one_side(head, d, end, j);
            let k = j - head.len() - 1;
            if text::occurs_at(d, end, k) {
                stands_on_one_side(Seq::<char>::empty(), c, end, k);
                stands_on_one_side(start, b, end, k - 1);
                stands_on_one_side(body, a, end, k - 35);
            }
        }
    }
    assert(text::first_at(s, start, at));
    assert(text::first_at(s, end, to));
    text::found_is_first(s, start);
    text::found_is_first(s, end);
    text::first_is_unique(s, start, at, text::found(s, start)->0);
    text::first_is_unique(s, end, to, text::found(s, end)->0);
    assert(s.take(head.len() + 2int) =~= head + "\n\n"@);
    assert(s.skip(head.len() + 68 + body.len() as int) =~= "\n"@ + tail);
}

/// What stands before the block holds neither of its lines.
proof fn head_is_unmarked(existing: Seq<char>)
    requires
        has_block(existing),
    ensures
        unmarked(before_block(existing)),
{
    let start = MANAGED_START@;
    let end = MANAGED_END@;
    marker_facts();
    text::found_is_first(existing, start);
    text::found_is_first(existing, end);
    let at = text::found(existing, start)->0;
    let head = before_block(existing);
    text::trim_end_is_prefix(existing.take(at));
    assert forall|j: int| !text::occurs_at(head, start, j) && !text::occurs_at(head, end, j) by {
        if text::occurs_at(head, start, j) {
            assert(existing.subrange(j, j + start.len()) =~= head.subrange(j, j + start.len()));
            assert(text::occurs_at(existing, start, j));
        }
        if text::occurs_at(head, end, j) {
            assert(existing.subrange(j, j + end.len()) =~= head.subrange(j, j + end.len()));
            assert(text::occurs_at(existing, end, j));
        }
    }
}

/// A text that an update went over has a block, and the next update replaces
/// it: nothing of the earlier body is left, and the rest stays as it is.
pub proof fn updates_replace_each_other(
    existing: Seq<char>,
    body: Seq<char>,
    other: Seq<char>,
)
    requires
        has_block(existing),
        !text::occurs(body, MANAGED_END@),
    ensures
        has_block(managed(existing, body)),
        before_block(managed(existing, body)) == before_block(existing),
        behind_block(managed(existing, body)) == behind_block(existing),
        managed(managed(existing, body), other) == managed(existing, other),
{
    marker_facts();
    head_is_unmarked(existing);
    let head = before_block(existing);
    let tail = behind_block(existing);
    block_is_found(head, body, "\n"@ + tail);
    let s = managed(existing, body);
    assert(s =~= head + "\n\n"@ + block_of(body) + "\n"@ + ("\n"@ + tail));
    assert(head + "\n\n"@ =~= head.push('\n').push('\n'));
    text::trim_end_is_final(existing.take(text::found(existing, MANAGED_START@)->0));
    text::trim_end_drops(head, '\n');
    text::trim_end_drops(head.push('\n'), '\n');
    let rest = existing.skip(text::found(existing, MANAGED_END@)->0 + MANAGED_END@.len() as int);
    text::trim_start_is_final(rest);
    let one = "\n"@ + tail;
    assert(one.drop_first() =~= tail);
    let two = "\n"@ + one;
    assert(two.drop_first() =~= one);
    assert(text::trim_start(two) == text::trim_start(one));
    assert(text::trim_start(one) == text::trim_start(tail));
}

/// The first update of a text without the lines of a block leaves one block,
/// with the text before it and nothing but white space behind it.
pub proof fn first_updates_make_a_block(existing: Seq<char>, body: Seq<char>)
    requires
        unmarked(existing),
        !text::occurs(body, MANAGED_END@),
    ensures
        has_block(managed(existing, body)),
        before_block(managed(existing, body)) == (if text::trim(existing).len() == 0 {
            Seq::<char>::empty()
        } else {
            text::trim_end(existing)
        }),
        behind_block(managed(existing, body)).len() == 0,
{
    marker_facts();
    text::found_is_first(existing, MANAGED_START@);
    let head = text::trim_end(existing);
    let s = managed(existing, body);
    let none = Seq::<char>::empty();
    assert(("\n"@ + none).drop_first() =~= none);
    assert(text::trim_start(none) =~= none);
    assert(text::trim_start("\n"@ + none) =~= none);
    if text::trim(existing).len() == 0 {
        block_starts_text(body);
        assert(s =~= block_of(body) + "\n"@ + none);
        assert(text::trim_end(s.take(0)) =~= none);
    } else {
        text::trim_end_is_prefix(existing);
        assert forall|j: int|
            !text::occurs_at(head, MANAGED_START@, j) && !text::occurs_at(
                head,
                MANAGED_END@,
                j,
            ) by {
            if text::occurs_at(head, MANAGED_START@, j) {
                assert(existing.subrange(j, j + 33) =~= head.subrange(j, j + 33));
                assert(text::occurs_at(existing, MANAGED_START@, j));
            }
            if text::occurs_at(head, MANAGED_END@, j) {
                assert(existing.subrange(j, j + 31) =~= head.subrange(j, j + 31));
                assert(text::occurs_at(existing, MANAGED_END@, j));
            }
        }
        block_is_found(head, body, none);
        assert(s =~= head + "\n\n"@ + block_of(body) + "\n"@ + none);
        assert(head + "\n\n"@ =~= head.push('\n').push('\n'));
        text::trim_end_is_final(existing);
        text::trim_end_drops(head, '\n');
        text::trim_end_drops(head.push('\n'), '\n');
    }
}

/// A block at the start of a text: where its lines are found.
proof fn block_starts_text(body: Seq<char>)
    requires
        !text::occurs(body, MANAGED_END@),
    ensures
        ({
            let s = block_of(body) + "\n"@ + Seq::<char>::empty();
            &&& text::found(s, MANAGED_START@) == Some(0int)
            &&& text::found(s, MANAGED_END@) == Some(35int + body.len())
            &&& s.skip(66 + body.len() as int) == "\n"@ + Seq::<char>::empty()
        }),
{
    marker_facts();
    let start = MANAGED_START@;
    let end = MANAGED_END@;
    let nl = seq!['\n'];
    let s = block_of(body) + "\n"@ + Seq::<char>::empty();
    let a = end + nl + Seq::<char>::empty();
    let b = body + nl + a;
    assert(s =~= start + nl + b);
    let to: int = 35int + body.len();
    assert(s.subrange(0, 33) =~= start);
    assert(text::occurs_at(s, start, 0));
    assert(s.subrange(to, to + 31) =~= end);
    assert(text::occurs_at(s, end, to));
    assert forall|j: int| 0 <= j < to implies !text::occurs_at(s, end, j) by {
        if text::occurs_at(s, end, j) {
            stands_on_one_side(start, b, end, j);
            stands_on_one_side(body, a, end, j - 34);
        }
    }
    assert(text::first_at(s, start, 0));
    assert(text::first_at(s, end, to));
    text::found_is_first(s, start);
    text::found_is_first(s, end);
    text::first_is_unique(s, start, 0, text::found(s, start)->0);
    text::first_is_unique(s, end, to, text::found(s, end)->0);
    assert(s.skip(66 + body.len() as int) =~= "\n"@ + Seq::<char>::empty());
}

// ---------------------------------------------------------------------------
// Figures

/// The numbers of a profile that are not whole, as they are written. A text
/// counts only where the profile holds its number.
#[derive(Debug, PartialEq)]
pub struct Figures {
    /// The generation throughput, with two decimals.
    pub output: String,
    /// The prompt throughput, with two decimals.
    pub prompt: String,
    /// The time to the first token in minutes, with two decimals.
    pub minutes: String,
    /// The share of the prompt throughput that a validation kept, in percent.
    pub prompt_retained: String,
    /// The share of the generation throughput that a validation kept, in percent.
    pub generation_retained: String,
}

/// The figures of a profile.
#[verifier::ext_equal]
pub struct FiguresView {
    pub output: Seq<char>,
    pub prompt: Seq<char>,
    pub minutes: Seq<char>,
    pub prompt_retained: Seq<char>,
    pub generation_retained: Seq<char>,
}

impl View for Figures {
    type V = FiguresView;

    open spec fn view(&self) -> FiguresView {
        FiguresView {
            output: self.output@,
            prompt: self.prompt@,
            minutes: self.minutes@,
            prompt_retained: self.prompt_retained@,
            generation_retained: self.generation_retained@,
        }
    }
}

impl Duplicate for Figures {
    fn duplicate(&self) -> (r: Figures) {
        Figures {
            output: self.output.clone(),
            prompt: self.prompt.clone(),
            minutes: self.minutes.clone(),
            prompt_retained: self.prompt_retained.clone(),
            generation_retained: self.generation_retained.clone(),
        }
    }
}

impl Clone for Figures {
    fn clone(&self) -> (r: Figures)
        ensures
            r@ == self@,
    {
        self.duplicate()
    }
}

/// A throughput.
pub open spec fn rate_text(value: Option<Real>, figure: Seq<char>) -> Seq<char> {
    match value {
        Some(_) => figure,
        None => "-"@,
    }
}

/// A count.
pub open spec fn count_text(value: Option<u64>) -> Seq<char> {
    match value {
        Some(n) => text::decimal(n as nat),
        None => "unknown"@,
    }
}

/// A share.
pub open spec fn share_text(value: Option<Real>, figure: Seq<char>) -> Seq<char> {
    match value {
        Some(_) => figure + "%"@,
        None => "unknown"@,
    }
}

/// A time: in minutes from one minute on.
pub open spec fn time_text(value: Option<u64>, minutes: Seq<char>) -> Seq<char> {
    match value {
        Some(ms) => if ms >= 60_000 {
            minutes + "m"@
        } else {
            text::decimal(ms as nat) + " ms"@
        },
        None => "-"@,
    }
}

/// An amount of memory.
pub open spec fn size_text(value: Option<u64>) -> Seq<char> {
    match value {
        Some(n) => text::decimal(n as nat) + " MiB"@,
        None => "-"@,
    }
}

/// A number, or a dash.
pub open spec fn or_dash(value: Option<u64>) -> Seq<char> {
    match value {
        Some(n) => text::decimal(n as nat),
        None => "-"@,
    }
}

/// A text, or a dash.
pub open spec fn text_or_dash(value: Option<Seq<char>>) -> Seq<char> {
    match value {
        Some(s) => s,
        None => "-"@,
    }
}

/// How thoroughly a profile was tried.
pub open spec fn level_text(level: ValidationLevel) -> Seq<char> {
    match level {
        ValidationLevel::Smoke => "smoke"@,
        ValidationLevel::StandardIngest => "standard-ingest"@,
        ValidationLevel::Realistic => "realistic"@,
        ValidationLevel::Fullctx => "fullctx"@,
    }
}

/// The kind of a model.
pub open spec fn kind_text(kind: ModelKind) -> Seq<char> {
    match kind {
        ModelKind::Dense => "dense"@,
        ModelKind::Moe => "moe"@,
        ModelKind::Unknown => "unknown"@,
    }
}

/// A text that can stand in a cell of a table.
pub open spec fn escaped_cell(s: Seq<char>) -> Seq<char> {
    text::replaced(s, '|', "\\|"@)
}

/// A text set as code.
pub open spec fn ticked(s: Seq<char>) -> Seq<char> {
    "`"@ + s + "`"@
}

fn fmt_rate(value: &Option<Real>, figure: &str) -> (r: String)
    ensures
        r@ == rate_text(*value, figure@),
{
    match value {
        Some(_) => figure.to_string(),
        None => "-".to_string(),
    }
}

/// A count.
pub fn fmt_u64(value: Option<u64>) -> (r: String)
    ensures
        r@ == count_text(value),
{
    match value {
        Some(n) => text::number(n),
        None => "unknown".to_string(),
    }
}

fn fmt_share(value: &Option<Real>, figure: &str) -> (r: String)
    ensures
        r@ == share_text(*value, figure@),
{
    match value {
        Some(_) => {
            let mut r = figure.to_string();
            r.append("%");
            r
        },
        None => "unknown".to_string(),
    }
}

/// A time: in minutes from one minute on.
pub fn fmt_ms(value: Option<u64>, minutes: &str) -> (r: String)
    ensures
        r@ == time_text(value, minutes@),
{
    match value {
        Some(ms) => if ms >= 60_000 {
            let mut r = minutes.to_string();
            r.append("m");
            r
        } else {
            let mut r = text::number(ms);
            r.append(" ms");
            r
        },
        None => "-".to_string(),
    }
}

/// An amount of memory.
pub fn fmt_mib(value: Option<u64>) -> (r: String)
    ensures
        r@ == size_text(value),
{
    match value {
        Some(n) => {
            let mut r = text::number(n);
            r.append(" MiB");
            r
        },
        None => "-".to_string(),
    }
}

/// A number, or a dash.
pub fn fmt_or_dash(value: Option<u64>) -> (r: String)
    ensures
        r@ == or_dash(value),
{
    match value {
        Some(n) => text::number(n),
        None => "-".to_string(),
    }
}

/// A text, or a dash.
pub fn text_or(value: &Option<String>) -> (r: String)
    ensures
        r@ == text_or_dash(text::opt_text(*value)),
{
    match value {
        Some(s) => s.clone(),
        None => "-".to_string(),
    }
}

/// How thoroughly a profile was tried.
pub fn validation_label(value: ValidationLevel) -> (r: &'static str)
    ensures
        r@ == level_text(value),
{
    match value {
        ValidationLevel::Smoke => "smoke",
        ValidationLevel::StandardIngest => "standard-ingest",
        ValidationLevel::Realistic => "realistic",
        ValidationLevel::Fullctx => "fullctx",
    }
}

/// The kind of a model.
pub fn kind_label(kind: ModelKind) -> (r: &'static str)
    ensures
        r@ == kind_text(kind),
{
    match kind {
        ModelKind::Dense => "dense",
        ModelKind::Moe => "moe",
        ModelKind::Unknown => "unknown",
    }
}

/// A text that can stand in a cell of a table.
pub fn escape_md(value: &str) -> (r: String)
    ensures
        r@ == escaped_cell(value@),
{
    text::replace_char(value, '|', "\\|")
}

fn tick(value: &str) -> (r: String)
    ensures
        r@ == ticked(value@),
{
    let mut r = "`".to_string();
    r.append(value);
    r.append("`");
    r
}

// ---------------------------------------------------------------------------
// Tables

/// The cells of a profile in a Markdown table.
pub open spec fn profile_cells(p: RecommendationView, f: FiguresView) -> Seq<Seq<char>> {
    seq![
        ticked(p.id),
        escaped_cell(p.role),
        rate_text(p.output_toks_per_s, f.output),
        rate_text(p.prompt_toks_per_s, f.prompt),
        time_text(p.ttft_ms, f.minutes),
        size_text(p.peak_vram_mib),
        size_text(p.headroom_mib),
        p.risk,
        level_text(p.validation_level),
        ticked(escaped_cell(p.command_display)),
    ]
}

/// A row of a Markdown table.
pub open spec fn table_row(cells: Seq<Seq<char>>) -> Seq<char> {
    "| "@ + text::joined(cells, " | "@) + " |"@
}

/// The rows of a Markdown table that compares profiles, those above its first
/// profile included.
pub open spec fn comparison_rows(
    profiles: Seq<RecommendationView>,
    figures: Seq<FiguresView>,
) -> Seq<Seq<char>> {
    seq![
        "| Profile | Role | Output tok/s | Prompt tok/s | TTFT | Peak VRAM | Headroom | Risk | Validation | Command |"@,
        "|---|---|---:|---:|---:|---:|---:|---|---|---|"@,
    ] + Seq::new(profiles.len(), |i: int| table_row(profile_cells(profiles[i], figures[i])))
}

fn cells_of(p: &Recommendation, f: &Figures) -> (r: Vec<String>)
    ensures
        text::texts(r@) == profile_cells(p@, f@),
{
    let mut r: Vec<String> = Vec::new();
    r.push(tick(p.id.as_str()));
    r.push(escape_md(p.role.as_str()));
    r.push(fmt_rate(&p.output_toks_per_s, f.output.as_str()));
    r.push(fmt_rate(&p.prompt_toks_per_s, f.prompt.as_str()));
    r.push(fmt_ms(p.ttft_ms, f.minutes.as_str()));
    r.push(fmt_mib(p.peak_vram_mib));
    r.push(fmt_mib(p.headroom_mib));
    r.push(p.risk.clone());
    r.push(validation_label(p.validation_level).to_string());
    r.push(tick(escape_md(p.command_display.as_str()).as_str()));
    proof {
        assert(text::texts(r@) =~= profile_cells(p@, f@));
    }
    r
}

fn row_of(cells: &Vec<String>) -> (r: String)
    ensures
        r@ == table_row(text::texts(cells@)),
{
    let mut r = "| ".to_string();
    r.append(text::join(cells, " | ").as_str());
    r.append(" |");
    r
}

fn comparison_markdown_table(profiles: &Vec<Recommendation>, figures: &Vec<Figures>) -> (r: String)
    requires
        figures@.len() == profiles@.len(),
    ensures
        r@ == text::joined(comparison_rows(views(profiles@), views(figures@)), "\n"@),
{
    let ghost rows = comparison_rows(views(profiles@), views(figures@));
    let mut lines: Vec<String> = Vec::new();
    lines.push(
        "| Profile | Role | Output tok/s | Prompt tok/s | TTFT | Peak VRAM | Headroom | Risk | Validation | Command |".to_string(),
    );
    lines.push("|---|---|---:|---:|---:|---:|---:|---|---|---|".to_string());
    for i in 0..profiles.len()
        invariant
            figures@.len() == profiles@.len(),
            rows == comparison_rows(views(profiles@), views(figures@)),
            lines@.len() == i + 2,
            forall|j: int| 0 <= j < i + 2 ==> (#[trigger] lines@[j])@ == rows[j],
    {
        let row = row_of(&cells_of(&profiles[i], &figures[i]));
        proof {
            assert(rows[i + 2] == row@);
        }
        lines.push(row);
    }
    proof {
        assert(text::texts(lines@) =~= rows);
    }
    text::join(&lines, "\n")
}

// ---------------------------------------------------------------------------
// The Markdown report of a model

/// The first profile with a realistic validation.
pub open spec fn first_validated(profiles: Seq<RecommendationView>) -> Option<int>
    decreases profiles.len(),
{
    if profiles.len() == 0 {
        None
    } else {
        match first_validated(profiles.drop_last()) {
            Some(i) => Some(i),
            None => if profiles.last().realistic_validation is Some {
                Some(profiles.len() - 1)
            } else {
                None
            },
        }
    }
}

/// The lines on a realistic validation.
pub open spec fn validation_lines(v: ValidationView, f: FiguresView) -> Seq<Seq<char>> {
    seq![
        ""@,
        "## Realistic validation"@,
        ""@,
        "- Prompt: "@ + count_text(v.actual_prompt_tokens) + " actual / "@ + text::decimal(
            v.target_prompt_tokens as nat,
        ) + " target tokens; retained throughput: "@ + share_text(
            v.prompt_retained_ratio,
            f.prompt_retained,
        ),
        "- Output: "@ + count_text(v.actual_output_tokens) + " actual / "@ + text::decimal(
            v.requested_output_tokens as nat,
        ) + " requested tokens; retained throughput: "@ + share_text(
            v.generation_retained_ratio,
            f.generation_retained,
        ) + "; sustained generation: "@ + (if v.incomplete_generation {
            "incomplete (early EOS)"@
        } else {
            "complete"@
        }),
    ]
}

/// The line on a run that is not recommended, or not any more.
pub open spec fn note_line(
    run_id: Seq<char>,
    candidate_id: Seq<char>,
    what: Seq<char>,
    reason: Seq<char>,
) -> Seq<char> {
    "- `"@ + run_id + "` / `"@ + candidate_id + "`: "@ + what + " - "@ + reason
}

/// The lines on the runs that are not recommended.
pub open spec fn rejected_lines(rejected: Seq<RejectedView>) -> Seq<Seq<char>> {
    if rejected.len() == 0 {
        seq![]
    } else {
        seq![""@, "## Rejected"@, ""@] + Seq::new(
            rejected.len(),
            |i: int|
                note_line(
                    rejected[i].run_id,
                    rejected[i].candidate_id,
                    outcome_name(rejected[i].outcome),
                    rejected[i].reason,
                ),
        )
    }
}

/// The lines on the runs that do not hold any more.
pub open spec fn stale_lines(stale: Seq<StaleView>) -> Seq<Seq<char>> {
    if stale.len() == 0 {
        seq![]
    } else {
        seq![""@, "## Stale"@, ""@] + Seq::new(
            stale.len(),
            |i: int|
                note_line(
                    stale[i].run_id,
                    stale[i].candidate_id,
                    compatibility_name(stale[i].compatibility),
                    stale[i].reason,
                ),
        )
    }
}

/// The lines of the report on a model.
pub open spec fn model_lines(file: RecommendationsView, figures: Seq<FiguresView>) -> Seq<
    Seq<char>,
> {
    seq![
        "# llama.cpp profiler best observed configurations"@,
        ""@,
        "Model: `"@ + file.model_path + "`"@,
        ""@,
        text::joined(comparison_rows(file.profiles, figures), "\n"@),
    ] + (match first_validated(file.profiles) {
        Some(i) => validation_lines(file.profiles[i].realistic_validation->0, figures[i]),
        None => seq![],
    }) + rejected_lines(file.rejected) + stale_lines(file.stale) + (
    match file.next_suggested_test {
        Some(next) => seq![""@, "Next suggested test: "@ + next],
        None => seq![],
    }) + seq![""@]
}

fn find_validated(profiles: &Vec<Recommendation>) -> (r: Option<usize>)
    ensures
        match r {
            Some(i) => i < profiles@.len() && first_validated(views(profiles@)) == Some(i as int)
                && profiles@[i as int].realistic_validation is Some,
            None => first_validated(views(profiles@)) is None,
        },
{
    let ghost all = views(profiles@);
    let mut r: Option<usize> = None;
    for i in 0..profiles.len()
        invariant
            all == views(profiles@),
            match r {
                Some(k) => k < i && first_validated(all.take(i as int)) == Some(k as int)
                    && profiles@[k as int].realistic_validation is Some,
                None => first_validated(all.take(i as int)) is None,
            },
    {
        proof {
            assert(all.take(i + 1).drop_last() =~= all.take(i as int));
            assert(all.take(i + 1).last() == profiles@[i as int]@);
        }
        if r.is_none() && profiles[i].realistic_validation.is_some() {
            r = Some(i);
        }
    }
    proof {
        assert(all.take(all.len() as int) =~= all);
    }
    r
}

fn push_validation(lines: &mut Vec<String>, v: &RealisticValidation, f: &Figures)
    ensures
        text::texts(final(lines)@) == text::texts(old(lines)@) + validation_lines(v@, f@),
{
    let ghost before = text::texts(lines@);
    let mut prompt = "- Prompt: ".to_string();
    prompt.append(fmt_u64(v.actual_prompt_tokens).as_str());
    prompt.append(" actual / ");
    prompt.append(text::number(v.target_prompt_tokens).as_str());
    prompt.append(" target tokens; retained throughput: ");
    prompt.append(fmt_share(&v.prompt_retained_ratio, f.prompt_retained.as_str()).as_str());
    let mut output = "- Output: ".to_string();
    output.append(fmt_u64(v.actual_output_tokens).as_str());
    output.append(" actual / ");
    output.append(text::number(v.requested_output_tokens).as_str());
    output.append(" requested tokens; retained throughput: ");
    output.append(fmt_share(&v.generation_retained_ratio, f.generation_retained.as_str()).as_str());
    output.append("; sustained generation: ");
    if v.incomplete_generation {
        output.append("incomplete (early EOS)");
    } else {
        output.append("complete");
    }
    lines.push("".to_string());
    lines.push("## Realistic validation".to_string());
    lines.push("".to_string());
    lines.push(prompt);
    lines.push(output);
    proof {
        assert(text::texts(lines@) =~= before + validation_lines(v@, f@));
    }
}

fn note(run_id: &str, candidate_id: &str, what: &str, reason: &str) -> (r: String)
    ensures
        r@ == note_line(run_id@, candidate_id@, what@, reason@),
{
    let mut r = "- `".to_string();
    r.append(run_id);
    r.append("` / `");
    r.append(candidate_id);
    r.append("`: ");
    r.append(what);
    r.append(" - ");
    r.append(reason);
    r
}

fn push_rejected(lines: &mut Vec<String>, rejected: &Vec<RejectedRun>)
    ensures
        text::texts(final(lines)@) == text::texts(old(lines)@) + rejected_lines(views(rejected@)),
{
    let ghost before = text::texts(lines@);
    let ghost added = rejected_lines(views(rejected@));
    if rejected.len() == 0 {
        proof {
            assert(before + added =~= before);
        }
        return;
    }
    lines.push("".to_string());
    lines.push("## Rejected".to_string());
    lines.push("".to_string());
    proof {
        assert(text::texts(lines@) =~= before + added.take(3));
    }
    for i in 0..rejected.len()
        invariant
            rejected@.len() > 0,
            added == rejected_lines(views(rejected@)),
            text::texts(lines@) == before + added.take(i + 3),
    {
        let ghost so_far = text::texts(lines@);
        let line = note(
            rejected[i].run_id.as_str(),
            rejected[i].candidate_id.as_str(),
            rejected[i].outcome.name(),
            rejected[i].reason.as_str(),
        );
        proof {
            assert(added[i + 3] == line@);
        }
        lines.push(line);
        proof {
            assert(text::texts(lines@) =~= so_far.push(line@));
            assert(before + added.take(i + 4) =~= so_far.push(added[i + 3]));
        }
    }
    proof {
        assert(added.take(added.len() as int) =~= added);
    }
}

fn push_stale(lines: &mut Vec<String>, stale: &Vec<StaleRun>)
    ensures
        text::texts(final(lines)@) == text::texts(old(lines)@) + stale_lines(views(stale@)),
{
    let ghost before = text::texts(lines@);
    let ghost added = stale_lines(views(stale@));
    if stale.len() == 0 {
        proof {
            assert(before + added =~= before);
        }
        return;
    }
    lines.push("".to_string());
    lines.push("## Stale".to_string());
    lines.push("".to_string());
    proof {
        assert(text::texts(lines@) =~= before + added.take(3));
    }
    for i in 0..stale.len()
        invariant
            stale@.len() > 0,
            added == stale_lines(views(stale@)),
            text::texts(lines@) == before + added.take(i + 3),
    {
        let ghost so_far = text::texts(lines@);
        let line = note(
            stale[i].run_id.as_str(),
            stale[i].candidate_id.as_str(),
            stale[i].compatibility.name(),
            stale[i].reason.as_str(),
        );
        proof {
            assert(added[i + 3] == line@);
        }
        lines.push(line);
        proof {
            assert(text::texts(lines@) =~= so_far.push(line@));
            assert(before + added.take(i + 4) =~= so_far.push(added[i + 3]));
        }
    }
    proof {
        assert(added.take(added.len() as int) =~= added);
    }
}

/// The report on the recommendations for a model, in Markdown.
pub fn markdown_for_recommendations(recommendations: &RecommendationFile, figures: &Vec<Figures>)
    -> (r: String)
    requires
        figures@.len() == recommendations.profiles@.len(),
    ensures
        r@ == text::joined(model_lines(recommendations@, views(figures@)), "\n"@),
{
    let ghost file = recommendations@;
    let ghost f = views(figures@);
    let mut lines: Vec<String> = Vec::new();
    let mut model = "Model: `".to_string();
    model.append(recommendations.model_path.as_str());
    model.append("`");
    lines.push("# llama.cpp profiler best observed configurations".to_string());
    lines.push("".to_string());
    lines.push(model);
    lines.push("".to_string());
    lines.push(comparison_markdown_table(&recommendations.profiles, figures));
    let ghost head = text::texts(lines@);
    proof {
        assert(head =~= seq![
            "# llama.cpp profiler best observed configurations"@,
            ""@,
            "Model: `"@ + file.model_path + "`"@,
            ""@,
            text::joined(comparison_rows(file.profiles, f), "\n"@),
        ]);
        assert(head + seq![] =~= head);
    }
    if let Some(i) = find_validated(&recommendations.profiles) {
        proof {
            assert(file.profiles[i as int] == recommendations.profiles@[i as int]@);
            assert(f[i as int] == figures@[i as int]@);
        }
        if let Some(v) = &recommendations.profiles[i].realistic_validation {
            push_validation(&mut lines, v, &figures[i]);
        }
    }
    push_rejected(&mut lines, &recommendations.rejected);
    push_stale(&mut lines, &recommendations.stale);
    let ghost noted = text::texts(lines@);
    proof {
        assert(noted + seq![] =~= noted);
    }
    if let Some(next) = &recommendations.next_suggested_test {
        let mut line = "Next suggested test: ".to_string();
        line.append(next.as_str());
        lines.push("".to_string());
        lines.push(line);
        proof {
            assert(text::texts(lines@) =~= noted + seq![""@, line@]);
        }
    }
    let ghost all = text::texts(lines@);
    lines.push("".to_string());
    proof {
        assert(text::texts(lines@) =~= all + seq![""@]);
    }
    text::join(&lines, "\n")
}

// ---------------------------------------------------------------------------
// The summary of a search

/// The profile that a summary is about: the fastest interactive one, or else
/// the first.
pub open spec fn summarized(profiles: Seq<RecommendationView>) -> Option<int> {
    match profile_named(profiles, "interactive-fast"@) {
        Some(i) => Some(i),
        None => if profiles.len() > 0 {
            Some(0)
        } else {
            None
        },
    }
}

/// The command that prints how to serve a profile.
pub open spec fn serve_hint(model_path: Seq<char>, id: Seq<char>) -> Seq<Seq<char>> {
    seq!["llama-cpp-profiler"@, "serve"@, model_path, "--profile"@, id, "--print"@]
}

/// The summary of a search.
pub open spec fn summary_text(file: RecommendationsView, figures: Seq<FiguresView>) -> Seq<char> {
    match summarized(file.profiles) {
        None => "## Tune summary\n\nNo usable best observed configuration was produced."@,
        Some(i) => "## Tune summary\n\n- Selected profile: `"@ + file.profiles[i].id
            + "`\n- Generation throughput: "@ + rate_text(
            file.profiles[i].output_toks_per_s,
            figures[i].output,
        ) + " tok/s\n- Prompt throughput: "@ + rate_text(
            file.profiles[i].prompt_toks_per_s,
            figures[i].prompt,
        ) + " tok/s\n- Context: "@ + text::decimal(file.profiles[i].requested_context as nat)
            + " tokens\n- VRAM headroom: "@ + size_text(file.profiles[i].headroom_mib)
            + "\n- Next serve command: `"@ + display_of(
            serve_hint(file.model_path, file.profiles[i].id),
        ) + "`"@,
    }
}

/// The summary of a search.
pub fn tune_summary(recommendations: &RecommendationFile, figures: &Vec<Figures>) -> (r: String)
    requires
        figures@.len() == recommendations.profiles@.len(),
    ensures
        r@ == summary_text(recommendations@, views(figures@)),
{
    let i: usize = match find_profile(recommendations, "interactive-fast") {
        Some(i) => i,
        None => {
            proof {
                assert(recommendations@.profiles.len() == recommendations.profiles@.len());
            }
            if recommendations.profiles.len() == 0 {
                return "## Tune summary\n\nNo usable best observed configuration was produced.".to_string();
            }
            0
        },
    };
    let profile = &recommendations.profiles[i];
    let f = &figures[i];
    proof {
        assert(recommendations@.profiles[i as int] == profile@);
        assert(views(figures@)[i as int] == f@);
    }
    let mut command: Vec<String> = Vec::new();
    command.push("llama-cpp-profiler".to_string());
    command.push("serve".to_string());
    command.push(recommendations.model_path.clone());
    command.push("--profile".to_string());
    command.push(profile.id.clone());
    command.push("--print".to_string());
    proof {
        assert(text::texts(command@) =~= serve_hint(recommendations.model_path@, profile.id@));
    }
    let mut r = "## Tune summary\n\n- Selected profile: `".to_string();
    r.append(profile.id.as_str());
    r.append("`\n- Generation throughput: ");
    r.append(fmt_rate(&profile.output_toks_per_s, f.output.as_str()).as_str());
    r.append(" tok/s\n- Prompt throughput: ");
    r.append(fmt_rate(&profile.prompt_toks_per_s, f.prompt.as_str()).as_str());
    r.append(" tok/s\n- Context: ");
    r.append(text::number(profile.requested_context).as_str());
    r.append(" tokens\n- VRAM headroom: ");
    r.append(fmt_mib(profile.headroom_mib).as_str());
    r.append("\n- Next serve command: `");
    r.append(command_display(&command).as_str());
    r.append("`");
    r
}

// ---------------------------------------------------------------------------
// Several models

/// The figures of the profiles of several models.
pub open spec fn all_figures(s: Seq<Vec<Figures>>) -> Seq<Seq<FiguresView>> {
    Seq::new(s.len(), |i: int| views(s[i]@))
}

/// There are figures for each profile.
pub open spec fn fits(
    models: Seq<(MetadataView, RecommendationsView)>,
    figures: Seq<Seq<FiguresView>>,
) -> bool {
    &&& figures.len() == models.len()
    &&& forall|i: int|
        0 <= i < models.len() ==> (#[trigger] figures[i]).len() == models[i].1.profiles.len()
}

/// A profile of a model.
pub struct ProfileLine {
    pub model: MetadataView,
    pub profile: RecommendationView,
    pub figures: FiguresView,
    /// The search for the model tested enough candidates to speak of a
    /// benchmark.
    pub wide: bool,
}

/// Profile `b` of model `a`.
pub open spec fn line_at(
    models: Seq<(MetadataView, RecommendationsView)>,
    figures: Seq<Seq<FiguresView>>,
    a: int,
    b: int,
) -> ProfileLine {
    ProfileLine {
        model: models[a].0,
        profile: models[a].1.profiles[b],
        figures: figures[a][b],
        wide: broad(models[a].1.coverage),
    }
}

/// The profiles of the first `n` models.
pub open spec fn profile_lines(
    models: Seq<(MetadataView, RecommendationsView)>,
    figures: Seq<Seq<FiguresView>>,
    n: nat,
) -> Seq<ProfileLine>
    decreases n,
{
    if n == 0 {
        seq![]
    } else {
        profile_lines(models, figures, (n - 1) as nat) + Seq::new(
            models[n - 1].1.profiles.len(),
            |b: int| line_at(models, figures, n - 1, b),
        )
    }
}

/// The throughput that profiles are ranked by.
pub open spec fn rate_or_zero(p: RecommendationView) -> Real {
    match p.output_toks_per_s {
        Some(rate) => rate,
        None => Real { bits: 0 },
    }
}

/// The throughputs that profiles are ranked by.
pub open spec fn line_rates(lines: Seq<ProfileLine>) -> Seq<Real> {
    Seq::new(lines.len(), |i: int| rate_or_zero(lines[i].profile))
}

/// The profiles by falling generation throughput, equal ones in their own
/// order.
pub open spec fn ranked(lines: Seq<ProfileLine>) -> Seq<ProfileLine> {
    Seq::new(lines.len(), |j: int| lines[falling(line_rates(lines), lines.len())[j]])
}

/// Where every throughput is a number, no profile stands before one that is
/// faster, and each profile has its place.
pub proof fn the_fastest_come_first(lines: Seq<ProfileLine>)
    requires
        forall|i: int| 0 <= i < lines.len() ==> !(#[trigger] line_rates(lines)[i]).nan(),
    ensures
        ranked(lines).len() == lines.len(),
        forall|i: int, j: int|
            0 <= i < j < lines.len() ==> !rate_or_zero((#[trigger] ranked(lines)[i]).profile).less(
                rate_or_zero((#[trigger] ranked(lines)[j]).profile),
            ),
        forall|i: int|
            0 <= i < lines.len() ==> 0 <= #[trigger] falling(line_rates(lines), lines.len())[i]
                < lines.len(),
        forall|i: int, j: int|
            0 <= i < j < lines.len() ==> #[trigger] falling(line_rates(lines), lines.len())[i]
                != #[trigger] falling(line_rates(lines), lines.len())[j],
{
    let rates = line_rates(lines);
    let order = falling(rates, lines.len());
    falling_is_an_order(rates, lines.len());
    assert forall|i: int, j: int| 0 <= i < j < lines.len() implies !rate_or_zero(
        (#[trigger] ranked(lines)[i]).profile,
    ).less(rate_or_zero((#[trigger] ranked(lines)[j]).profile)) by {
        assert(!rates[order[i]].less(rates[order[j]]));
    }
}

fn list_positions(
    profiled: &Vec<(GgufMetadata, RecommendationFile)>,
    figures: &Vec<Vec<Figures>>,
) -> (r: Vec<(usize, usize)>)
    requires
        fits(views(profiled@), all_figures(figures@)),
    ensures
        ({
            let models = views(profiled@);
            let f = all_figures(figures@);
            let lines = profile_lines(models, f, models.len());
            &&& r@.len() == lines.len()
            &&& forall|k: int|
                0 <= k < r@.len() ==> (#[trigger] r@[k]).0 < profiled@.len() && r@[k].1
                    < profiled@[r@[k].0 as int].1.profiles@.len() && lines[k] == line_at(
                    models,
                    f,
                    r@[k].0 as int,
                    r@[k].1 as int,
                )
        }),
{
    let ghost models = views(profiled@);
    let ghost f = all_figures(figures@);
    let mut r: Vec<(usize, usize)> = Vec::new();
    for a in 0..profiled.len()
        invariant
            models == views(profiled@),
            f == all_figures(figures@),
            r@.len() == profile_lines(models, f, a as nat).len(),
            forall|k: int|
                0 <= k < r@.len() ==> (#[trigger] r@[k]).0 < profiled@.len() && r@[k].1
                    < profiled@[r@[k].0 as int].1.profiles@.len() && profile_lines(
                    models,
                    f,
                    a as nat,
                )[k] == line_at(models, f, r@[k].0 as int, r@[k].1 as int),
    {
        let ghost before = profile_lines(models, f, a as nat);
        let ghost after = profile_lines(models, f, (a + 1) as nat);
        proof {
            assert(models[a as int].1.profiles.len() == profiled@[a as int].1.profiles@.len());
        }
        let count: usize = profiled[a].1.profiles.len();
        for b in 0..count
            invariant
                count == profiled@[a as int].1.profiles@.len(),
                a < profiled@.len(),
                models == views(profiled@),
                f == all_figures(figures@),
                models[a as int].1.profiles.len() == profiled@[a as int].1.profiles@.len(),
                before == profile_lines(models, f, a as nat),
                after == profile_lines(models, f, (a + 1) as nat),
                r@.len() == before.len() + b,
                forall|k: int|
                    0 <= k < r@.len() ==> (#[trigger] r@[k]).0 < profiled@.len() && r@[k].1
                        < profiled@[r@[k].0 as int].1.profiles@.len() && after[k] == line_at(
                        models,
                        f,
                        r@[k].0 as int,
                        r@[k].1 as int,
                    ),
        {
            proof {
                assert(after[before.len() + b] == line_at(models, f, a as int, b as int));
            }
            r.push((a, b));
        }
    }
    r
}

fn rank_positions(
    profiled: &Vec<(GgufMetadata, RecommendationFile)>,
    figures: &Vec<Vec<Figures>>,
) -> (r: Vec<(usize, usize)>)
    requires
        fits(views(profiled@), all_figures(figures@)),
    ensures
        ({
            let models = views(profiled@);
            let f = all_figures(figures@);
            let lines = ranked(profile_lines(models, f, models.len()));
            &&& r@.len() == lines.len()
            &&& forall|k: int|
                0 <= k < r@.len() ==> (#[trigger] r@[k]).0 < profiled@.len() && r@[k].1
                    < profiled@[r@[k].0 as int].1.profiles@.len() && lines[k] == line_at(
                    models,
                    f,
                    r@[k].0 as int,
                    r@[k].1 as int,
                )
        }),
{
    let ghost models = views(profiled@);
    let ghost f = all_figures(figures@);
    let ghost lines = profile_lines(models, f, models.len());
    let positions = list_positions(profiled, figures);
    let mut rates: Vec<Real> = Vec::new();
    for k in 0..positions.len()
        invariant
            models == views(profiled@),
            f == all_figures(figures@),
            lines == profile_lines(models, f, models.len()),
            positions@.len() == lines.len(),
            forall|k: int|
                0 <= k < positions@.len() ==> (#[trigger] positions@[k]).0 < profiled@.len()
                    && positions@[k].1 < profiled@[positions@[k].0 as int].1.profiles@.len()
                    && lines[k] == line_at(
                    models,
                    f,
                    positions@[k].0 as int,
                    positions@[k].1 as int,
                ),
            rates@.len() == k,
            forall|j: int| 0 <= j < k ==> (#[trigger] rates@[j]) == line_rates(lines)[j],
    {
        let (a, b) = positions[k];
        let profile = &profiled[a].1.profiles[b];
        proof {
            assert(lines[k as int] == line_at(models, f, a as int, b as int));
            assert(models[a as int].1.profiles[b as int] == profile@);
        }
        let rate = match profile.output_toks_per_s {
            Some(rate) => rate,
            None => Real::zero(),
        };
        rates.push(rate);
    }
    proof {
        assert(rates@ =~= line_rates(lines));
    }
    let order = order_falling(&rates);
    let mut r: Vec<(usize, usize)> = Vec::new();
    for k in 0..order.len()
        invariant
            models == views(profiled@),
            f == all_figures(figures@),
            lines == profile_lines(models, f, models.len()),
            positions@.len() == lines.len(),
            forall|k: int|
                0 <= k < positions@.len() ==> (#[trigger] positions@[k]).0 < profiled@.len()
                    && positions@[k].1 < profiled@[positions@[k].0 as int].1.profiles@.len()
                    && lines[k] == line_at(
                    models,
                    f,
                    positions@[k].0 as int,
                    positions@[k].1 as int,
                ),
            order@.len() == lines.len(),
            forall|j: int|
                0 <= j < order@.len() ==> (#[trigger] order@[j]) == falling(
                    line_rates(lines),
                    lines.len(),
                )[j] && order@[j] < lines.len(),
            r@.len() == k,
            forall|j: int| 0 <= j < k ==> (#[trigger] r@[j]) == positions@[order@[j] as int],
    {
        r.push(positions[order[k]]);
    }
    proof {
        assert forall|k: int| 0 <= k < r@.len() implies (#[trigger] r@[k]).0 < profiled@.len()
            && r@[k].1 < profiled@[r@[k].0 as int].1.profiles@.len() && ranked(lines)[k] == line_at(
            models,
            f,
            r@[k].0 as int,
            r@[k].1 as int,
        ) by {
            assert(r@[k] == positions@[order@[k] as int]);
        }
    }
    r
}

/// The rows of the table of all profiles.
pub open spec fn block_rows(lines: Seq<ProfileLine>) -> Seq<Seq<char>> {
    seq![
        "## llama.cpp profiler"@,
        ""@,
        "| Model | Profile | Role | Output tok/s | Prompt tok/s | TTFT | Peak VRAM | Headroom | Risk | Validation | Command |"@,
        "|---|---|---|---:|---:|---:|---:|---:|---|---|---|"@,
    ] + Seq::new(
        lines.len(),
        |k: int|
            table_row(
                seq![ticked(lines[k].model.file_name)] + profile_cells(
                    lines[k].profile,
                    lines[k].figures,
                ),
            ),
    )
}

/// The body of the managed block: a table of all profiles, the fastest first.
pub fn markdown_block(
    profiled: &Vec<(GgufMetadata, RecommendationFile)>,
    figures: &Vec<Vec<Figures>>,
) -> (r: String)
    requires
        fits(views(profiled@), all_figures(figures@)),
    ensures
        r@ == text::joined(
            block_rows(
                ranked(
                    profile_lines(views(profiled@), all_figures(figures@), profiled@.len()),
                ),
            ),
            "\n"@,
        ),
{
    let ghost models = views(profiled@);
    let ghost f = all_figures(figures@);
    let ghost lines = ranked(profile_lines(models, f, models.len()));
    let ghost rows = block_rows(lines);
    let positions = rank_positions(profiled, figures);
    let mut out: Vec<String> = Vec::new();
    out.push("## llama.cpp profiler".to_string());
    out.push("".to_string());
    out.push(
        "| Model | Profile | Role | Output tok/s | Prompt tok/s | TTFT | Peak VRAM | Headroom | Risk | Validation | Command |".to_string(),
    );
    out.push("|---|---|---|---:|---:|---:|---:|---:|---|---|---|".to_string());
    for k in 0..positions.len()
        invariant
            models == views(profiled@),
            f == all_figures(figures@),
            fits(models, f),
            rows == block_rows(lines),
            positions@.len() == lines.len(),
            forall|k: int|
                0 <= k < positions@.len() ==> (#[trigger] positions@[k]).0 < profiled@.len()
                    && positions@[k].1 < profiled@[positions@[k].0 as int].1.profiles@.len()
                    && lines[k] == line_at(
                    models,
                    f,
                    positions@[k].0 as int,
                    positions@[k].1 as int,
                ),
            out@.len() == k + 4,
            forall|j: int| 0 <= j < k + 4 ==> (#[trigger] out@[j])@ == rows[j],
    {
        let (a, b) = positions[k];
        proof {
            assert(lines[k as int] == line_at(models, f, a as int, b as int));
            assert(f[a as int].len() == models[a as int].1.profiles.len());
            assert(models[a as int].1.profiles[b as int]
                == profiled@[a as int].1.profiles@[b as int]@);
            assert(f[a as int][b as int] == figures@[a as int]@[b as int]@);
        }
        let mut cells: Vec<String> = Vec::new();
        cells.push(tick(profiled[a].0.file_name.as_str()));
        let mut more = cells_of(&profiled[a].1.profiles[b], &figures[a][b]);
        let ghost rest = text::texts(more@);
        cells.append(&mut more);
        proof {
            assert(text::texts(cells@) =~= seq![ticked(profiled@[a as int].0.file_name@)] + rest);
        }
        let row = row_of(&cells);
        proof {
            assert(rows[k + 4] == row@);
        }
        out.push(row);
    }
    proof {
        assert(text::texts(out@) =~= rows);
    }
    text::join(&out, "\n")
}

// ---------------------------------------------------------------------------
// The report for agents

/// What is measured of a profile, for agents.
#[derive(Debug, PartialEq)]
pub struct AgentMetric {
    pub model_path: String,
    pub model_identity: Option<ModelIdentity>,
    pub environment_valid: bool,
    pub telemetry_status: TelemetryStatus,
    pub model_kind: ModelKind,
    pub quant: Option<String>,
    pub native_context: Option<u64>,
    pub profile_key: String,
    pub profile_id: String,
    pub source_run_id: String,
    pub source_candidate_id: String,
    pub source_test_kind: String,
    pub requested_context: u64,
    pub validated_prompt_tokens: Option<u64>,
    pub validation_level: ValidationLevel,
    pub realistic_validation: Option<RealisticValidation>,
    pub output_toks_per_s: Option<Real>,
    pub prompt_toks_per_s: Option<Real>,
    pub ttft_ms: Option<u64>,
    pub headroom_mib: Option<u64>,
    pub risk: String,
    pub confidence: String,
    pub why: String,
    pub compatibility: Compatibility,
    pub exact_command: String,
}

/// What a metric holds.
#[verifier::ext_equal]
pub struct AgentMetricView {
    pub model_path: Seq<char>,
    pub model_identity: Option<IdentityView>,
    pub environment_valid: bool,
    pub telemetry_status: TelemetryStatus,
    pub model_kind: ModelKind,
    pub quant: Option<Seq<char>>,
    pub native_context: Option<u64>,
    pub profile_key: Seq<char>,
    pub profile_id: Seq<char>,
    pub source_run_id: Seq<char>,
    pub source_candidate_id: Seq<char>,
    pub source_test_kind: Seq<char>,
    pub requested_context: u64,
    pub validated_prompt_tokens: Option<u64>,
    pub validation_level: ValidationLevel,
    pub realistic_validation: Option<ValidationView>,
    pub output_toks_per_s: Option<Real>,
    pub prompt_toks_per_s: Option<Real>,
    pub ttft_ms: Option<u64>,
    pub headroom_mib: Option<u64>,
    pub risk: Seq<char>,
    pub confidence: Seq<char>,
    pub why: Seq<char>,
    pub compatibility: Compatibility,
    pub exact_command: Seq<char>,
}

impl View for AgentMetric {
    type V = AgentMetricView;

    open spec fn view(&self) -> AgentMetricView {
        AgentMetricView {
            model_path: self.model_path@,
            model_identity: opt_view(self.model_identity),
            environment_valid: self.environment_valid,
            telemetry_status: self.telemetry_status,
            model_kind: self.model_kind,
            quant: text::opt_text(self.quant),
            native_context: self.native_context,
            profile_key: self.profile_key@,
            profile_id: self.profile_id@,
            source_run_id: self.source_run_id@,
            source_candidate_id: self.source_candidate_id@,
            source_test_kind: self.source_test_kind@,
            requested_context: self.requested_context,
            validated_prompt_tokens: self.validated_prompt_tokens,
            validation_level: self.validation_level,
            realistic_validation: opt_view(self.realistic_validation),
            output_toks_per_s: self.output_toks_per_s,
            prompt_toks_per_s: self.prompt_toks_per_s,
            ttft_ms: self.ttft_ms,
            headroom_mib: self.headroom_mib,
            risk: self.risk@,
            confidence: self.confidence@,
            why: self.why@,
            compatibility: self.compatibility,
            exact_command: self.exact_command@,
        }
    }
}

impl Duplicate for AgentMetric {
    fn duplicate(&self) -> (r: AgentMetric) {
        AgentMetric {
            model_path: self.model_path.clone(),
            model_identity: duplicate_opt(&self.model_identity),
            environment_valid: self.environment_valid,
            telemetry_status: self.telemetry_status,
            model_kind: self.model_kind,
            quant: text::copy_opt(&self.quant),
            native_context: self.native_context,
            profile_key: self.profile_key.clone(),
            profile_id: self.profile_id.clone(),
            source_run_id: self.source_run_id.clone(),
            source_candidate_id: self.source_candidate_id.clone(),
            source_test_kind: self.source_test_kind.clone(),
            requested_context: self.requested_context,
            validated_prompt_tokens: self.validated_prompt_tokens,
            validation_level: self.validation_level,
            realistic_validation: duplicate_opt(&self.realistic_validation),
            output_toks_per_s: self.output_toks_per_s,
            prompt_toks_per_s: self.prompt_toks_per_s,
            ttft_ms: self.ttft_ms,
            headroom_mib: self.headroom_mib,
            risk: self.risk.clone(),
            confidence: self.confidence.clone(),
            why: self.why.clone(),
            compatibility: self.compatibility,
            exact_command: self.exact_command.clone(),
        }
    }
}

impl Clone for AgentMetric {
    fn clone(&self) -> (r: AgentMetric)
        ensures
            r@ == self@,
    {
        self.duplicate()
    }
}

/// What the search for a model covered.
#[derive(Debug, PartialEq)]
pub struct ModelCoverage {
    pub model_path: String,
    pub coverage: SearchCoverage,
}

/// What a coverage entry holds.
#[verifier::ext_equal]
pub struct ModelCoverageView {
    pub model_path: Seq<char>,
    pub coverage: CoverageView,
}

impl View for ModelCoverage {
    type V = ModelCoverageView;

    open spec fn view(&self) -> ModelCoverageView {
        ModelCoverageView {
            model_path: self.model_path@,
            coverage: self.coverage@,
        }
    }
}

impl Duplicate for ModelCoverage {
    fn duplicate(&self) -> (r: ModelCoverage) {
        ModelCoverage {
            model_path: self.model_path.clone(),
            coverage: self.coverage.duplicate(),
        }
    }
}

impl Clone for ModelCoverage {
    fn clone(&self) -> (r: ModelCoverage)
        ensures
            r@ == self@,
    {
        self.duplicate()
    }
}

/// The report for agents.
#[derive(Debug, PartialEq)]
pub struct AgentReport {
    pub agent_schema_version: u32,
    pub schema_version: u32,
    pub best_profile_ids: Vec<String>,
    pub exact_command: Option<String>,
    pub confidence: Option<String>,
    pub coverage: Vec<ModelCoverage>,
    pub key_metrics: Vec<AgentMetric>,
    pub failures: Vec<String>,
    pub stale_profiles: Vec<String>,
    pub next_suggested_test: Option<String>,
}

/// What a report for agents holds.
#[verifier::ext_equal]
pub struct AgentReportView {
    pub agent_schema_version: u32,
    pub schema_version: u32,
    pub best_profile_ids: Seq<Seq<char>>,
    pub exact_command: Option<Seq<char>>,
    pub confidence: Option<Seq<char>>,
    pub coverage: Seq<ModelCoverageView>,
    pub key_metrics: Seq<AgentMetricView>,
    pub failures: Seq<Seq<char>>,
    pub stale_profiles: Seq<Seq<char>>,
    pub next_suggested_test: Option<Seq<char>>,
}

impl View for AgentReport {
    type V = AgentReportView;

    open spec fn view(&self) -> AgentReportView {
        AgentReportView {
            agent_schema_version: self.agent_schema_version,
            schema_version: self.schema_version,
            best_profile_ids: text::texts(self.best_profile_ids@),
            exact_command: text::opt_text(self.exact_command),
            confidence: text::opt_text(self.confidence),
            coverage: views(self.coverage@),
            key_metrics: views(self.key_metrics@),
            failures: text::texts(self.failures@),
            stale_profiles: text::texts(self.stale_profiles@),
            next_suggested_test: text::opt_text(self.next_suggested_test),
        }
    }
}

impl Duplicate for AgentReport {
    fn duplicate(&self) -> (r: AgentReport) {
        AgentReport {
            agent_schema_version: self.agent_schema_version,
            schema_version: self.schema_version,
            best_profile_ids: text::copy_texts(&self.best_profile_ids),
            exact_command: text::copy_opt(&self.exact_command),
            confidence: text::copy_opt(&self.confidence),
            coverage: duplicate_all(&self.coverage),
            key_metrics: duplicate_all(&self.key_metrics),
            failures: text::copy_texts(&self.failures),
            stale_profiles: text::copy_texts(&self.stale_profiles),
            next_suggested_test: text::copy_opt(&self.next_suggested_test),
        }
    }
}

impl Clone for AgentReport {
    fn clone(&self) -> (r: AgentReport)
        ensures
            r@ == self@,
    {
        self.duplicate()
    }
}

/// Why a profile is worth a look.
pub open spec fn why_text(p: RecommendationView, f: FiguresView) -> Seq<char> {
    p.id + "; out "@ + rate_text(p.output_toks_per_s, f.output) + "; prompt "@ + rate_text(
        p.prompt_toks_per_s,
        f.prompt,
    ) + "; headroom "@ + size_text(p.headroom_mib)
}

/// How far the evidence of a profile reaches.
pub open spec fn line_confidence(line: ProfileLine) -> Seq<char> {
    confidence_text(line.profile.validation_level, line.profile.measurement_count, line.wide)
}

/// What is measured of a profile.
pub open spec fn metric_of(line: ProfileLine) -> AgentMetricView {
    AgentMetricView {
        model_path: line.model.path,
        model_identity: line.profile.model_identity,
        environment_valid: line.profile.environment_valid,
        telemetry_status: line.profile.telemetry_status,
        model_kind: line.model.model_kind,
        quant: line.model.quant,
        native_context: line.model.native_context,
        profile_key: key_text(line.model.path, line.profile.id),
        profile_id: line.profile.id,
        source_run_id: line.profile.source_run_id,
        source_candidate_id: line.profile.source_candidate_id,
        source_test_kind: line.profile.source_test_kind,
        requested_context: line.profile.requested_context,
        validated_prompt_tokens: line.profile.validated_prompt_tokens,
        validation_level: line.profile.validation_level,
        realistic_validation: line.profile.realistic_validation,
        output_toks_per_s: line.profile.output_toks_per_s,
        prompt_toks_per_s: line.profile.prompt_toks_per_s,
        ttft_ms: line.profile.ttft_ms,
        headroom_mib: line.profile.headroom_mib,
        risk: line.profile.risk,
        confidence: line_confidence(line),
        why: why_text(line.profile, line.figures),
        compatibility: line.profile.compatibility,
        exact_command: line.profile.command_display,
    }
}

/// A note on a run for agents.
pub open spec fn agent_note(
    file_name: Seq<char>,
    candidate_id: Seq<char>,
    what: Seq<char>,
    reason: Seq<char>,
) -> Seq<char> {
    file_name + " "@ + candidate_id + " "@ + what + ": "@ + reason
}

/// The notes on the runs of the first `n` models that are not recommended.
pub open spec fn failure_notes(
    models: Seq<(MetadataView, RecommendationsView)>,
    n: nat,
) -> Seq<Seq<char>>
    decreases n,
{
    if n == 0 {
        seq![]
    } else {
        failure_notes(models, (n - 1) as nat) + Seq::new(
            models[n - 1].1.rejected.len(),
            |i: int|
                agent_note(
                    models[n - 1].0.file_name,
                    models[n - 1].1.rejected[i].candidate_id,
                    outcome_name(models[n - 1].1.rejected[i].outcome),
                    models[n - 1].1.rejected[i].reason,
                ),
        )
    }
}

/// The notes on the runs of the first `n` models that do not hold any more.
pub open spec fn stale_notes(
    models: Seq<(MetadataView, RecommendationsView)>,
    n: nat,
) -> Seq<Seq<char>>
    decreases n,
{
    if n == 0 {
        seq![]
    } else {
        stale_notes(models, (n - 1) as nat) + Seq::new(
            models[n - 1].1.stale.len(),
            |i: int|
                agent_note(
                    models[n - 1].0.file_name,
                    models[n - 1].1.stale[i].candidate_id,
                    compatibility_name(models[n - 1].1.stale[i].compatibility),
                    models[n - 1].1.stale[i].reason,
                ),
        )
    }
}

/// The first test that is suggested for one of the first `n` models.
pub open spec fn first_suggestion(
    models: Seq<(MetadataView, RecommendationsView)>,
    n: nat,
) -> Option<Seq<char>>
    decreases n,
{
    if n == 0 {
        None
    } else {
        match first_suggestion(models, (n - 1) as nat) {
            Some(next) => Some(next),
            None => models[n - 1].1.next_suggested_test,
        }
    }
}

/// What the searches for the first `n` models covered, as far as it is known.
pub open spec fn coverages(
    models: Seq<(MetadataView, RecommendationsView)>,
    n: nat,
) -> Seq<ModelCoverageView>
    decreases n,
{
    if n == 0 {
        seq![]
    } else {
        let before = coverages(models, (n - 1) as nat);
        match models[n - 1].1.coverage {
            Some(coverage) => before.push(
                ModelCoverageView { model_path: models[n - 1].0.path, coverage },
            ),
            None => before,
        }
    }
}

/// The first entries, `most` of them at most.
pub open spec fn first_of<T>(s: Seq<T>, most: int) -> Seq<T> {
    if s.len() <= most {
        s
    } else {
        s.take(most)
    }
}

/// The report for agents: the fastest profiles first.
pub open spec fn agent_report_of(
    models: Seq<(MetadataView, RecommendationsView)>,
    figures: Seq<Seq<FiguresView>>,
) -> AgentReportView {
    let lines = ranked(profile_lines(models, figures, models.len()));
    AgentReportView {
        agent_schema_version: AGENT_SCHEMA_VERSION,
        schema_version: SCHEMA_VERSION,
        best_profile_ids: first_of(
            Seq::new(lines.len(), |k: int| key_text(lines[k].model.path, lines[k].profile.id)),
            5,
        ),
        exact_command: if lines.len() > 0 {
            Some(lines[0].profile.command_display)
        } else {
            None
        },
        confidence: if lines.len() > 0 {
            Some(line_confidence(lines[0]))
        } else {
            None
        },
        coverage: coverages(models, models.len()),
        key_metrics: first_of(Seq::new(lines.len(), |k: int| metric_of(lines[k])), 8),
        failures: first_of(failure_notes(models, models.len()), 12),
        stale_profiles: first_of(stale_notes(models, models.len()), 12),
        next_suggested_test: first_suggestion(models, models.len()),
    }
}

fn agent_why(p: &Recommendation, f: &Figures) -> (r: String)
    ensures
        r@ == why_text(p@, f@),
{
    let mut r = p.id.clone();
    r.append("; out ");
    r.append(fmt_rate(&p.output_toks_per_s, f.output.as_str()).as_str());
    r.append("; prompt ");
    r.append(fmt_rate(&p.prompt_toks_per_s, f.prompt.as_str()).as_str());
    r.append("; headroom ");
    r.append(fmt_mib(p.headroom_mib).as_str());
    r
}

fn make_metric(m: &GgufMetadata, p: &Recommendation, f: &Figures, wide: bool) -> (r: AgentMetric)
    ensures
        r@ == metric_of(ProfileLine { model: m@, profile: p@, figures: f@, wide }),
{
    AgentMetric {
        model_path: m.path.clone(),
        model_identity: duplicate_opt(&p.model_identity),
        environment_valid: p.environment_valid,
        telemetry_status: p.telemetry_status,
        model_kind: m.model_kind,
        quant: text::copy_opt(&m.quant),
        native_context: m.native_context,
        profile_key: profile_key(m.path.as_str(), p),
        profile_id: p.id.clone(),
        source_run_id: p.source_run_id.clone(),
        source_candidate_id: p.source_candidate_id.clone(),
        source_test_kind: p.source_test_kind.clone(),
        requested_context: p.requested_context,
        validated_prompt_tokens: p.validated_prompt_tokens,
        validation_level: p.validation_level,
        realistic_validation: duplicate_opt(&p.realistic_validation),
        output_toks_per_s: p.output_toks_per_s,
        prompt_toks_per_s: p.prompt_toks_per_s,
        ttft_ms: p.ttft_ms,
        headroom_mib: p.headroom_mib,
        risk: p.risk.clone(),
        confidence: confidence(p.validation_level, p.measurement_count, wide),
        why: agent_why(p, f),
        compatibility: p.compatibility,
        exact_command: p.command_display.clone(),
    }
}

fn note_for_agents(file_name: &str, candidate_id: &str, what: &str, reason: &str) -> (r: String)
    ensures
        r@ == agent_note(file_name@, candidate_id@, what@, reason@),
{
    let mut r = file_name.to_string();
    r.append(" ");
    r.append(candidate_id);
    r.append(" ");
    r.append(what);
    r.append(": ");
    r.append(reason);
    r
}

fn list_failures(profiled: &Vec<(GgufMetadata, RecommendationFile)>) -> (r: Vec<String>)
    ensures
        text::texts(r@) == failure_notes(views(profiled@), profiled@.len()),
{
    let ghost models = views(profiled@);
    let mut r: Vec<String> = Vec::new();
    proof {
        assert(text::texts(r@) =~= failure_notes(models, 0));
    }
    for i in 0..profiled.len()
        invariant
            models == views(profiled@),
            text::texts(r@) == failure_notes(models, i as nat),
    {
        let ghost before = text::texts(r@);
        let ghost after = failure_notes(models, (i + 1) as nat);
        let (metadata, recs) = (&profiled[i].0, &profiled[i].1);
        proof {
            assert(models[i as int] == (metadata@, recs@));
            assert(after.take(before.len() as int) =~= before);
        }
        for k in 0..recs.rejected.len()
            invariant
                models[i as int] == (metadata@, recs@),
                before == failure_notes(models, i as nat),
                after == failure_notes(models, (i + 1) as nat),
                text::texts(r@) == after.take(before.len() + k),
        {
            let ghost so_far = text::texts(r@);
            let run = &recs.rejected[k];
            let line = note_for_agents(
                metadata.file_name.as_str(),
                run.candidate_id.as_str(),
                run.outcome.name(),
                run.reason.as_str(),
            );
            proof {
                assert(recs@.rejected[k as int] == run@);
                assert(after[before.len() + k] == line@);
            }
            r.push(line);
            proof {
                assert(text::texts(r@) =~= so_far.push(line@));
                assert(after.take(before.len() + k + 1) =~= so_far.push(after[before.len() + k]));
            }
        }
        proof {
            assert(after.take(after.len() as int) =~= after);
        }
    }
    r
}

fn list_stale(profiled: &Vec<(GgufMetadata, RecommendationFile)>) -> (r: Vec<String>)
    ensures
        text::texts(r@) == stale_notes(views(profiled@), profiled@.len()),
{
    let ghost models = views(profiled@);
    let mut r: Vec<String> = Vec::new();
    proof {
        assert(text::texts(r@) =~= stale_notes(models, 0));
    }
    for i in 0..profiled.len()
        invariant
            models == views(profiled@),
            text::texts(r@) == stale_notes(models, i as nat),
    {
        let ghost before = text::texts(r@);
        let ghost after = stale_notes(models, (i + 1) as nat);
        let (metadata, recs) = (&profiled[i].0, &profiled[i].1);
        proof {
            assert(models[i as int] == (metadata@, recs@));
            assert(after.take(before.len() as int) =~= before);
        }
        for k in 0..recs.stale.len()
            invariant
                models[i as int] == (metadata@, recs@),
                before == stale_notes(models, i as nat),
                after == stale_notes(models, (i + 1) as nat),
                text::texts(r@) == after.take(before.len() + k),
        {
            let ghost so_far = text::texts(r@);
            let run = &recs.stale[k];
            let line = note_for_agents(
                metadata.file_name.as_str(),
                run.candidate_id.as_str(),
                run.compatibility.name(),
                run.reason.as_str(),
            );
            proof {
                assert(recs@.stale[k as int] == run@);
                assert(after[before.len() + k] == line@);
            }
            r.push(line);
            proof {
                assert(text::texts(r@) =~= so_far.push(line@));
                assert(after.take(before.len() + k + 1) =~= so_far.push(after[before.len() + k]));
            }
        }
        proof {
            assert(after.take(after.len() as int) =~= after);
        }
    }
    r
}

fn shorten(list: Vec<String>, most: usize) -> (r: Vec<String>)
    ensures
        text::texts(r@) == first_of(text::texts(list@), most as int),
{
    let mut r = list;
    if r.len() > most {
        r.truncate(most);
        proof {
            assert(text::texts(r@) =~= text::texts(list@).take(most as int));
        }
    }
    r
}

fn list_coverages(profiled: &Vec<(GgufMetadata, RecommendationFile)>) -> (r: Vec<ModelCoverage>)
    ensures
        views(r@) == coverages(views(profiled@), profiled@.len()),
{
    let ghost models = views(profiled@);
    let mut r: Vec<ModelCoverage> = Vec::new();
    proof {
        assert(views(r@) =~= coverages(models, 0));
    }
    for i in 0..profiled.len()
        invariant
            models == views(profiled@),
            views(r@) == coverages(models, i as nat),
    {
        let ghost before = views(r@);
        proof {
            assert(models[i as int] == (profiled@[i as int].0@, profiled@[i as int].1@));
        }
        if let Some(coverage) = &profiled[i].1.coverage {
            let entry = ModelCoverage {
                model_path: profiled[i].0.path.clone(),
                coverage: coverage.duplicate(),
            };
            r.push(entry);
            proof {
                assert(views(r@) =~= before.push(entry@));
            }
        }
    }
    r
}

fn find_suggestion(profiled: &Vec<(GgufMetadata, RecommendationFile)>) -> (r: Option<String>)
    ensures
        text::opt_text(r) == first_suggestion(views(profiled@), profiled@.len()),
{
    let ghost models = views(profiled@);
    let mut r: Option<String> = None;
    for i in 0..profiled.len()
        invariant
            models == views(profiled@),
            text::opt_text(r) == first_suggestion(models, i as nat),
    {
        proof {
            assert(models[i as int] == (profiled@[i as int].0@, profiled@[i as int].1@));
        }
        if r.is_none() {
            r = text::copy_opt(&profiled[i].1.next_suggested_test);
        }
    }
    r
}

/// The report for agents: the fastest profiles first.
pub fn agent_report(
    profiled: &Vec<(GgufMetadata, RecommendationFile)>,
    figures: &Vec<Vec<Figures>>,
) -> (r: AgentReport)
    requires
        fits(views(profiled@), all_figures(figures@)),
    ensures
        r@ == agent_report_of(views(profiled@), all_figures(figures@)),
        r@.confidence matches Some(label) ==> known_label(label),
        forall|k: int|
            0 <= k < r@.key_metrics.len() ==> known_label(
                (#[trigger] r@.key_metrics[k]).confidence,
            ),
{
    let ghost models = views(profiled@);
    let ghost f = all_figures(figures@);
    let ghost lines = ranked(profile_lines(models, f, models.len()));
    let ghost keys = Seq::new(
        lines.len(),
        |k: int| key_text(lines[k].model.path, lines[k].profile.id),
    );
    let ghost metrics = Seq::new(lines.len(), |k: int| metric_of(lines[k]));
    let positions = rank_positions(profiled, figures);
    let mut best_profile_ids: Vec<String> = Vec::new();
    let mut key_metrics: Vec<AgentMetric> = Vec::new();
    let mut exact_command: Option<String> = None;
    let mut top_confidence: Option<String> = None;
    for k in 0..positions.len()
        invariant
            models == views(profiled@),
            f == all_figures(figures@),
            fits(models, f),
            keys == Seq::new(
                lines.len(),
                |k: int| key_text(lines[k].model.path, lines[k].profile.id),
            ),
            metrics == Seq::new(lines.len(), |k: int| metric_of(lines[k])),
            positions@.len() == lines.len(),
            forall|k: int|
                0 <= k < positions@.len() ==> (#[trigger] positions@[k]).0 < profiled@.len()
                    && positions@[k].1 < profiled@[positions@[k].0 as int].1.profiles@.len()
                    && lines[k] == line_at(
                    models,
                    f,
                    positions@[k].0 as int,
                    positions@[k].1 as int,
                ),
            text::texts(best_profile_ids@) == keys.take(if k < 5 {
                k as int
            } else {
                5
            }),
            views(key_metrics@) == metrics.take(if k < 8 {
                k as int
            } else {
                8
            }),
            text::opt_text(exact_command) == (if k > 0 {
                Some(lines[0].profile.command_display)
            } else {
                None
            }),
            text::opt_text(top_confidence) == (if k > 0 {
                Some(line_confidence(lines[0]))
            } else {
                None
            }),
    {
        let (a, b) = positions[k];
        let metadata = &profiled[a].0;
        let profile = &profiled[a].1.profiles[b];
        let wide = is_broad(&profiled[a].1.coverage);
        proof {
            assert(lines[k as int] == line_at(models, f, a as int, b as int));
            assert(f[a as int].len() == models[a as int].1.profiles.len());
            assert(models[a as int].0 == metadata@);
            assert(models[a as int].1 == profiled@[a as int].1@);
            assert(models[a as int].1.profiles[b as int] == profile@);
            assert(f[a as int][b as int] == figures@[a as int]@[b as int]@);
        }
        if k == 0 {
            exact_command = Some(profile.command_display.clone());
            top_confidence =
            Some(confidence(profile.validation_level, profile.measurement_count, wide));
        }
        if k < 5 {
            let ghost before = text::texts(best_profile_ids@);
            let key = profile_key(metadata.path.as_str(), profile);
            best_profile_ids.push(key);
            proof {
                assert(text::texts(best_profile_ids@) =~= before.push(key@));
                assert(keys.take(k + 1) =~= before.push(keys[k as int]));
            }
        }
        if k < 8 {
            let ghost before = views(key_metrics@);
            let metric = make_metric(metadata, profile, &figures[a][b], wide);
            key_metrics.push(metric);
            proof {
                assert(views(key_metrics@) =~= before.push(metric@));
                assert(metrics.take(k + 1) =~= before.push(metrics[k as int]));
            }
        }
    }
    proof {
        if lines.len() <= 5 {
            assert(keys.take(lines.len() as int) =~= keys);
        }
        if lines.len() <= 8 {
            assert(metrics.take(lines.len() as int) =~= metrics);
        }
    }
    AgentReport {
        agent_schema_version: AGENT_SCHEMA_VERSION,
        schema_version: SCHEMA_VERSION,
        best_profile_ids,
        exact_command,
        confidence: top_confidence,
        coverage: list_coverages(profiled),
        key_metrics,
        failures: shorten(list_failures(profiled), 12),
        stale_profiles: shorten(list_stale(profiled), 12),
        next_suggested_test: find_suggestion(profiled),
    }
}

// ---------------------------------------------------------------------------
// The printed report

/// The rows of a table.
pub open spec fn rows_of(s: Seq<Vec<String>>) -> Seq<Seq<Seq<char>>> {
    Seq::new(s.len(), |i: int| text::texts(s[i]@))
}

/// The row of a profile.
pub open spec fn profile_row(m: MetadataView, p: RecommendationView, f: FiguresView) -> Seq<
    Seq<char>,
> {
    seq![
        m.file_name,
        p.id,
        p.role,
        rate_text(p.output_toks_per_s, f.output),
        rate_text(p.prompt_toks_per_s, f.prompt),
        time_text(p.ttft_ms, f.minutes),
        size_text(p.peak_vram_mib),
        size_text(p.headroom_mib),
        p.risk,
        level_text(p.validation_level),
        p.command_display,
    ]
}

/// The row of a run that does not hold any more.
pub open spec fn stale_row(m: MetadataView, run: StaleView) -> Seq<Seq<char>> {
    seq![
        m.file_name,
        "stale:"@ + run.candidate_id,
        run.reason,
        "-"@,
        "-"@,
        "-"@,
        "-"@,
        "-"@,
        text::lowered(compatibility_name(run.compatibility)),
        "stale"@,
        "-"@,
    ]
}

/// The rows of a model.
pub open spec fn model_rows(
    m: MetadataView,
    file: RecommendationsView,
    figures: Seq<FiguresView>,
    include_stale: bool,
) -> Seq<Seq<Seq<char>>> {
    Seq::new(file.profiles.len(), |i: int| profile_row(m, file.profiles[i], figures[i])) + (
    if include_stale {
        Seq::new(file.stale.len(), |i: int| stale_row(m, file.stale[i]))
    } else {
        seq![]
    })
}

/// The rows of the first `n` models.
pub open spec fn all_rows(
    models: Seq<(MetadataView, RecommendationsView)>,
    figures: Seq<Seq<FiguresView>>,
    include_stale: bool,
    n: nat,
) -> Seq<Seq<Seq<char>>>
    decreases n,
{
    if n == 0 {
        seq![]
    } else {
        all_rows(models, figures, include_stale, (n - 1) as nat) + model_rows(
            models[n - 1].0,
            models[n - 1].1,
            figures[n - 1],
            include_stale,
        )
    }
}

fn row_of_profile(m: &GgufMetadata, p: &Recommendation, f: &Figures) -> (r: Vec<String>)
    ensures
        text::texts(r@) == profile_row(m@, p@, f@),
{
    let mut r: Vec<String> = Vec::new();
    r.push(m.file_name.clone());
    r.push(p.id.clone());
    r.push(p.role.clone());
    r.push(fmt_rate(&p.output_toks_per_s, f.output.as_str()));
    r.push(fmt_rate(&p.prompt_toks_per_s, f.prompt.as_str()));
    r.push(fmt_ms(p.ttft_ms, f.minutes.as_str()));
    r.push(fmt_mib(p.peak_vram_mib));
    r.push(fmt_mib(p.headroom_mib));
    r.push(p.risk.clone());
    r.push(validation_label(p.validation_level).to_string());
    r.push(p.command_display.clone());
    proof {
        assert(text::texts(r@) =~= profile_row(m@, p@, f@));
    }
    r
}

fn row_of_stale(m: &GgufMetadata, run: &StaleRun) -> (r: Vec<String>)
    ensures
        text::texts(r@) == stale_row(m@, run@),
{
    let mut name = "stale:".to_string();
    name.append(run.candidate_id.as_str());
    let mut r: Vec<String> = Vec::new();
    r.push(m.file_name.clone());
    r.push(name);
    r.push(run.reason.clone());
    r.push("-".to_string());
    r.push("-".to_string());
    r.push("-".to_string());
    r.push("-".to_string());
    r.push("-".to_string());
    r.push(text::lowercase(run.compatibility.name()));
    r.push("stale".to_string());
    r.push("-".to_string());
    proof {
        assert(text::texts(r@) =~= stale_row(m@, run@));
    }
    r
}

fn push_model_rows(
    rows: &mut Vec<Vec<String>>,
    m: &GgufMetadata,
    file: &RecommendationFile,
    figures: &Vec<Figures>,
    include_stale: bool,
)
    requires
        figures@.len() == file.profiles@.len(),
    ensures
        rows_of(final(rows)@) == rows_of(old(rows)@) + model_rows(
            m@,
            file@,
            views(figures@),
            include_stale,
        ),
{
    let ghost before = rows_of(rows@);
    let ghost added = model_rows(m@, file@, views(figures@), include_stale);
    let ghost count = file.profiles@.len();
    proof {
        assert(before + added.take(0) =~= before);
    }
    for i in 0..file.profiles.len()
        invariant
            figures@.len() == file.profiles@.len(),
            added == model_rows(m@, file@, views(figures@), include_stale),
            rows_of(rows@) == before + added.take(i as int),
    {
        let ghost so_far = rows_of(rows@);
        let row = row_of_profile(m, &file.profiles[i], &figures[i]);
        proof {
            assert(file@.profiles[i as int] == file.profiles@[i as int]@);
            assert(added[i as int] == text::texts(row@));
        }
        rows.push(row);
        proof {
            assert(rows_of(rows@) =~= so_far.push(text::texts(row@)));
            assert(before + added.take(i + 1) =~= so_far.push(added[i as int]));
        }
    }
    if include_stale {
        for i in 0..file.stale.len()
            invariant
                count == file.profiles@.len(),
                include_stale,
                added == model_rows(m@, file@, views(figures@), include_stale),
                rows_of(rows@) == before + added.take(count + i),
        {
            let ghost so_far = rows_of(rows@);
            let row = row_of_stale(m, &file.stale[i]);
            proof {
                assert(file@.stale[i as int] == file.stale@[i as int]@);
                assert(added[count + i] == text::texts(row@));
            }
            rows.push(row);
            proof {
                assert(rows_of(rows@) =~= so_far.push(text::texts(row@)));
                assert(before + added.take(count + i + 1) =~= so_far.push(added[count + i]));
            }
        }
    }
    proof {
        assert(added.take(added.len() as int) =~= added);
    }
}

/// The headings of the printed report.
pub fn report_header() -> (r: Vec<String>)
    ensures
        text::texts(r@) == seq![
            "Model"@,
            "Profile"@,
            "Role"@,
            "Out tok/s"@,
            "Prompt tok/s"@,
            "TTFT"@,
            "Peak VRAM"@,
            "Headroom"@,
            "Risk"@,
            "Validation"@,
            "Command"@,
        ],
{
    let mut r: Vec<String> = Vec::new();
    r.push("Model".to_string());
    r.push("Profile".to_string());
    r.push("Role".to_string());
    r.push("Out tok/s".to_string());
    r.push("Prompt tok/s".to_string());
    r.push("TTFT".to_string());
    r.push("Peak VRAM".to_string());
    r.push("Headroom".to_string());
    r.push("Risk".to_string());
    r.push("Validation".to_string());
    r.push("Command".to_string());
    proof {
        assert(text::texts(r@) =~= seq![
            "Model"@,
            "Profile"@,
            "Role"@,
            "Out tok/s"@,
            "Prompt tok/s"@,
            "TTFT"@,
            "Peak VRAM"@,
            "Headroom"@,
            "Risk"@,
            "Validation"@,
            "Command"@,
        ]);
    }
    r
}

/// The rows of the printed report.
pub fn report_rows(
    profiled: &Vec<(GgufMetadata, RecommendationFile)>,
    figures: &Vec<Vec<Figures>>,
    include_stale: bool,
) -> (r: Vec<Vec<String>>)
    requires
        fits(views(profiled@), all_figures(figures@)),
    ensures
        rows_of(r@) == all_rows(
            views(profiled@),
            all_figures(figures@),
            include_stale,
            profiled@.len(),
        ),
{
    let ghost models = views(profiled@);
    let ghost f = all_figures(figures@);
    let mut r: Vec<Vec<String>> = Vec::new();
    proof {
        assert(rows_of(r@) =~= all_rows(models, f, include_stale, 0));
    }
    for i in 0..profiled.len()
        invariant
            models == views(profiled@),
            f == all_figures(figures@),
            fits(models, f),
            rows_of(r@) == all_rows(models, f, include_stale, i as nat),
    {
        proof {
            assert(models[i as int] == (profiled@[i as int].0@, profiled@[i as int].1@));
            assert(f[i as int].len() == models[i as int].1.profiles.len());
        }
        push_model_rows(&mut r, &profiled[i].0, &profiled[i].1, &figures[i], include_stale);
    }
    r
}

/// The contexts that profiles were tried with.
pub open spec fn context_texts(profiles: Seq<RecommendationView>) -> Seq<Seq<char>> {
    Seq::new(profiles.len(), |i: int| text::decimal(profiles[i].requested_context as nat))
}

/// The prompts that profiles were tried with, as far as they are known.
pub open spec fn prompt_texts(profiles: Seq<RecommendationView>) -> Seq<Seq<char>>
    decreases profiles.len(),
{
    if profiles.len() == 0 {
        seq![]
    } else {
        let before = prompt_texts(profiles.drop_last());
        match profiles.last().validated_prompt_tokens {
            Some(n) => before.push(text::decimal(n as nat)),
            None => before,
        }
    }
}

/// Memory was measured for one of the profiles.
pub open spec fn measured(profiles: Seq<RecommendationView>) -> bool {
    exists|i: int|
        0 <= i < profiles.len() && (#[trigger] profiles[i]).telemetry_status
            == TelemetryStatus::Measured
}

/// The line on what the profiles of a model were tried with.
pub open spec fn context_line(m: MetadataView, profiles: Seq<RecommendationView>) -> Seq<char> {
    m.file_name + " native context: "@ + count_text(m.native_context)
        + "; validated server context: "@ + text::joined(context_texts(profiles), ", "@)
        + "; validated prompt tokens: "@ + (if prompt_texts(profiles).len() == 0 {
        "unknown"@
    } else {
        text::joined(prompt_texts(profiles), ", "@)
    }) + "; telemetry: "@ + (if measured(profiles) {
        "measured"@
    } else {
        "unknown; safety not validated"@
    })
}

/// The line on a realistic validation.
pub open spec fn validation_line(m: MetadataView, v: ValidationView, f: FiguresView) -> Seq<char> {
    m.file_name + " realistic validation: prompt "@ + count_text(v.actual_prompt_tokens) + "/"@
        + text::decimal(v.target_prompt_tokens as nat) + " tokens ("@ + share_text(
        v.prompt_retained_ratio,
        f.prompt_retained,
    ) + " retained); output "@ + count_text(v.actual_output_tokens) + "/"@ + text::decimal(
        v.requested_output_tokens as nat,
    ) + " tokens ("@ + share_text(v.generation_retained_ratio, f.generation_retained)
        + " retained; "@ + (if v.incomplete_generation {
        "early EOS"@
    } else {
        "complete"@
    }) + ")"@
}

/// The line on a run that is not recommended.
pub open spec fn rejected_line(run: RejectedView) -> Seq<char> {
    "  "@ + run.run_id + " / "@ + run.candidate_id + ": "@ + outcome_name(run.outcome) + " - "@
        + run.reason
}

/// The lines on the profiles of a model.
pub open spec fn profile_notes(
    m: MetadataView,
    profiles: Seq<RecommendationView>,
    figures: Seq<FiguresView>,
) -> Seq<Seq<char>> {
    if profiles.len() == 0 {
        seq![]
    } else {
        seq![context_line(m, profiles)] + (match first_validated(profiles) {
            Some(i) => seq![validation_line(m, profiles[i].realistic_validation->0, figures[i])],
            None => seq![],
        })
    }
}

/// The lines on the runs of a model that are not recommended: a dozen of them
/// at most.
pub open spec fn rejected_notes(m: MetadataView, rejected: Seq<RejectedView>) -> Seq<Seq<char>> {
    if rejected.len() == 0 {
        seq![]
    } else {
        seq!["\n"@ + m.file_name + " rejected runs:"@] + first_of(
            Seq::new(rejected.len(), |i: int| rejected_line(rejected[i])),
            12,
        )
    }
}

/// The line on the test that is suggested for a model.
pub open spec fn next_notes(m: MetadataView, next: Option<Seq<char>>) -> Seq<Seq<char>> {
    match next {
        Some(next) => seq![m.file_name + " next: "@ + next],
        None => seq![],
    }
}

/// The lines below the table on the first `n` models.
pub open spec fn all_notes(
    models: Seq<(MetadataView, RecommendationsView)>,
    figures: Seq<Seq<FiguresView>>,
    n: nat,
) -> Seq<Seq<char>>
    decreases n,
{
    if n == 0 {
        seq![]
    } else {
        all_notes(models, figures, (n - 1) as nat) + profile_notes(
            models[n - 1].0,
            models[n - 1].1.profiles,
            figures[n - 1],
        ) + rejected_notes(models[n - 1].0, models[n - 1].1.rejected) + next_notes(
            models[n - 1].0,
            models[n - 1].1.next_suggested_test,
        )
    }
}

fn list_contexts(profiles: &Vec<Recommendation>) -> (r: Vec<String>)
    ensures
        text::texts(r@) == context_texts(views(profiles@)),
{
    let mut r: Vec<String> = Vec::new();
    for i in 0..profiles.len()
        invariant
            r@.len() == i,
            forall|j: int|
                0 <= j < i ==> (#[trigger] r@[j])@ == context_texts(views(profiles@))[j],
    {
        r.push(text::number(profiles[i].requested_context));
    }
    proof {
        assert(text::texts(r@) =~= context_texts(views(profiles@)));
    }
    r
}

fn list_prompts(profiles: &Vec<Recommendation>) -> (r: Vec<String>)
    ensures
        text::texts(r@) == prompt_texts(views(profiles@)),
{
    let ghost all = views(profiles@);
    let mut r: Vec<String> = Vec::new();
    proof {
        assert(text::texts(r@) =~= prompt_texts(all.take(0)));
    }
    for i in 0..profiles.len()
        invariant
            all == views(profiles@),
            text::texts(r@) == prompt_texts(all.take(i as int)),
    {
        let ghost before = text::texts(r@);
        proof {
            assert(all.take(i + 1).drop_last() =~= all.take(i as int));
            assert(all.take(i + 1).last() == profiles@[i as int]@);
        }
        if let Some(n) = profiles[i].validated_prompt_tokens {
            let line = text::number(n);
            r.push(line);
            proof {
                assert(text::texts(r@) =~= before.push(line@));
            }
        }
    }
    proof {
        assert(all.take(all.len() as int) =~= all);
    }
    r
}

fn is_measured(profiles: &Vec<Recommendation>) -> (r: bool)
    ensures
        r == measured(views(profiles@)),
{
    let ghost all = views(profiles@);
    for i in 0..profiles.len()
        invariant
            all == views(profiles@),
            forall|j: int|
                0 <= j < i ==> (#[trigger] all[j]).telemetry_status != TelemetryStatus::Measured,
    {
        proof {
            assert(all[i as int] == profiles@[i as int]@);
        }
        if let TelemetryStatus::Measured = profiles[i].telemetry_status {
            return true;
        }
    }
    false
}

fn push_profile_notes(
    lines: &mut Vec<String>,
    m: &GgufMetadata,
    profiles: &Vec<Recommendation>,
    figures: &Vec<Figures>,
)
    requires
        figures@.len() == profiles@.len(),
    ensures
        text::texts(final(lines)@) == text::texts(old(lines)@) + profile_notes(
            m@,
            views(profiles@),
            views(figures@),
        ),
{
    let ghost before = text::texts(lines@);
    if profiles.len() == 0 {
        proof {
            assert(before + profile_notes(m@, views(profiles@), views(figures@)) =~= before);
        }
        return;
    }
    let mut line = m.file_name.clone();
    line.append(" native context: ");
    line.append(fmt_u64(m.native_context).as_str());
    line.append("; validated server context: ");
    line.append(text::join(&list_contexts(profiles), ", ").as_str());
    line.append("; validated prompt tokens: ");
    let prompts = list_prompts(profiles);
    proof {
        assert(text::texts(prompts@).len() == prompts@.len());
    }
    if prompts.len() == 0 {
        line.append("unknown");
    } else {
        line.append(text::join(&prompts, ", ").as_str());
    }
    line.append("; telemetry: ");
    if is_measured(profiles) {
        line.append("measured");
    } else {
        line.append("unknown; safety not validated");
    }
    let ghost first = line@;
    proof {
        assert(first == context_line(m@, views(profiles@)));
    }
    lines.push(line);
    proof {
        assert(text::texts(lines@) =~= before.push(first));
        assert(seq![first] + seq![] =~= seq![first]);
        assert(before.push(first) =~= before + seq![first]);
    }
    if let Some(i) = find_validated(profiles) {
        proof {
            assert(views(profiles@)[i as int] == profiles@[i as int]@);
            assert(views(figures@)[i as int] == figures@[i as int]@);
        }
        if let Some(v) = &profiles[i].realistic_validation {
            let f = &figures[i];
            let mut line = m.file_name.clone();
            line.append(" realistic validation: prompt ");
            line.append(fmt_u64(v.actual_prompt_tokens).as_str());
            line.append("/");
            line.append(text::number(v.target_prompt_tokens).as_str());
            line.append(" tokens (");
            line.append(fmt_share(&v.prompt_retained_ratio, f.prompt_retained.as_str()).as_str());
            line.append(" retained); output ");
            line.append(fmt_u64(v.actual_output_tokens).as_str());
            line.append("/");
            line.append(text::number(v.requested_output_tokens).as_str());
            line.append(" tokens (");
            line.append(
                fmt_share(&v.generation_retained_ratio, f.generation_retained.as_str()).as_str(),
            );
            line.append(" retained; ");
            if v.incomplete_generation {
                line.append("early EOS");
            } else {
                line.append("complete");
            }
            line.append(")");
            let ghost second = line@;
            proof {
                assert(second == validation_line(m@, v@, f@));
            }
            lines.push(line);
            proof {
                assert(text::texts(lines@) =~= before + (seq![first] + seq![second]));
            }
        }
    }
}

fn push_rejected_notes(lines: &mut Vec<String>, m: &GgufMetadata, rejected: &Vec<RejectedRun>)
    ensures
        text::texts(final(lines)@) == text::texts(old(lines)@) + rejected_notes(
            m@,
            views(rejected@),
        ),
{
    let ghost before = text::texts(lines@);
    let ghost added = rejected_notes(m@, views(rejected@));
    let ghost runs = Seq::new(rejected@.len(), |i: int| rejected_line(views(rejected@)[i]));
    if rejected.len() == 0 {
        proof {
            assert(before + added =~= before);
        }
        return;
    }
    let mut head = "\n".to_string();
    head.append(m.file_name.as_str());
    head.append(" rejected runs:");
    lines.push(head);
    proof {
        assert(text::texts(lines@) =~= before + added.take(1));
    }
    let shown: usize = if rejected.len() < 12 {
        rejected.len()
    } else {
        12
    };
    for i in 0..shown
        invariant
            shown <= rejected@.len(),
            shown <= 12,
            rejected@.len() > 0,
            runs == Seq::new(rejected@.len(), |i: int| rejected_line(views(rejected@)[i])),
            added == rejected_notes(m@, views(rejected@)),
            text::texts(lines@) == before + added.take(i + 1),
    {
        let ghost so_far = text::texts(lines@);
        let run = &rejected[i];
        let mut line = "  ".to_string();
        line.append(run.run_id.as_str());
        line.append(" / ");
        line.append(run.candidate_id.as_str());
        line.append(": ");
        line.append(run.outcome.name());
        line.append(" - ");
        line.append(run.reason.as_str());
        let ghost text_here = line@;
        proof {
            assert(text_here == rejected_line(run@));
            assert(first_of(runs, 12)[i as int] == runs[i as int]);
            assert(added[i + 1] == text_here);
        }
        lines.push(line);
        proof {
            assert(text::texts(lines@) =~= so_far.push(text_here));
            assert(before + added.take(i + 2) =~= so_far.push(added[i + 1]));
        }
    }
    proof {
        assert(added.take(added.len() as int) =~= added);
    }
}

/// The lines below the table of the printed report.
pub fn report_lines(
    profiled: &Vec<(GgufMetadata, RecommendationFile)>,
    figures: &Vec<Vec<Figures>>,
) -> (r: Vec<String>)
    requires
        fits(views(profiled@), all_figures(figures@)),
    ensures
        text::texts(r@) == all_notes(views(profiled@), all_figures(figures@), profiled@.len()),
{
    let ghost models = views(profiled@);
    let ghost f = all_figures(figures@);
    let mut r: Vec<String> = Vec::new();
    proof {
        assert(text::texts(r@) =~= all_notes(models, f, 0));
    }
    for i in 0..profiled.len()
        invariant
            models == views(profiled@),
            f == all_figures(figures@),
            fits(models, f),
            text::texts(r@) == all_notes(models, f, i as nat),
    {
        let (metadata, file) = (&profiled[i].0, &profiled[i].1);
        proof {
            assert(models[i as int] == (metadata@, file@));
            assert(f[i as int].len() == models[i as int].1.profiles.len());
        }
        push_profile_notes(&mut r, metadata, &file.profiles, &figures[i]);
        push_rejected_notes(&mut r, metadata, &file.rejected);
        let ghost so_far = text::texts(r@);
        proof {
            assert(so_far + seq![] =~= so_far);
        }
        if let Some(next) = &file.next_suggested_test {
            let mut line = metadata.file_name.clone();
            line.append(" next: ");
            line.append(next.as_str());
            r.push(line);
            proof {
                assert(text::texts(r@) =~= so_far + seq![line@]);
            }
        }
    }
    r
}

// ---------------------------------------------------------------------------
// Models, the machine, and what is exported

/// The row of a model in the table of models.
pub open spec fn scan_row(m: MetadataView) -> Seq<Seq<char>> {
    seq![
        m.path,
        bytes_text(m.file_size_bytes as nat),
        text_or_dash(m.architecture),
        kind_text(m.model_kind),
        text_or_dash(m.quant),
        or_dash(m.native_context),
    ]
}

fn row_of_model(m: &GgufMetadata) -> (r: Vec<String>)
    ensures
        text::texts(r@) == scan_row(m@),
{
    let mut r: Vec<String> = Vec::new();
    r.push(m.path.clone());
    r.push(format_bytes(m.file_size_bytes));
    r.push(text_or(&m.architecture));
    r.push(kind_label(m.model_kind).to_string());
    r.push(text_or(&m.quant));
    r.push(fmt_or_dash(m.native_context));
    proof {
        assert(text::texts(r@) =~= scan_row(m@));
    }
    r
}

/// The rows of the table of models.
pub fn scan_rows(models: &Vec<GgufMetadata>) -> (r: Vec<Vec<String>>)
    ensures
        rows_of(r@) == Seq::new(models@.len(), |i: int| scan_row(models@[i]@)),
{
    let ghost rows = Seq::new(models@.len(), |i: int| scan_row(models@[i]@));
    let mut r: Vec<Vec<String>> = Vec::new();
    for i in 0..models.len()
        invariant
            rows == Seq::new(models@.len(), |i: int| scan_row(models@[i]@)),
            r@.len() == i,
            forall|j: int| 0 <= j < i ==> text::texts((#[trigger] r@[j])@) == rows[j],
    {
        r.push(row_of_model(&models[i]));
    }
    proof {
        assert(rows_of(r@) =~= rows);
    }
    r
}

/// The lines on a model file.
pub open spec fn inspected(m: MetadataView, prior_runs: u64) -> Seq<Seq<char>> {
    seq![
        "path: "@ + m.path,
        "name: "@ + text_or_dash(m.name),
        "architecture: "@ + text_or_dash(m.architecture),
        "kind: "@ + kind_text(m.model_kind),
        "quant: "@ + text_or_dash(m.quant),
        "size: "@ + bytes_text(m.file_size_bytes as nat),
        "native context: "@ + or_dash(m.native_context),
        "chat template: "@ + (if m.tokenizer_has_chat_template {
            "present"@
        } else {
            "missing"@
        }),
        "MoE experts: "@ + or_dash(m.expert_used_count) + "/"@ + or_dash(m.expert_count),
        "prior runs: "@ + text::decimal(prior_runs as nat),
    ]
}

fn labelled_text(label: &str, value: &str) -> (r: String)
    ensures
        r@ == label@ + value@,
{
    let mut r = label.to_string();
    r.append(value);
    r
}

/// The lines on a model file.
pub fn inspect_lines(metadata: &GgufMetadata, prior_runs: u64) -> (r: Vec<String>)
    ensures
        text::texts(r@) == inspected(metadata@, prior_runs),
{
    let mut experts = "MoE experts: ".to_string();
    experts.append(fmt_or_dash(metadata.expert_used_count).as_str());
    experts.append("/");
    experts.append(fmt_or_dash(metadata.expert_count).as_str());
    let template = if metadata.tokenizer_has_chat_template {
        "present"
    } else {
        "missing"
    };
    let mut r: Vec<String> = Vec::new();
    r.push(labelled_text("path: ", metadata.path.as_str()));
    r.push(labelled_text("name: ", text_or(&metadata.name).as_str()));
    r.push(labelled_text("architecture: ", text_or(&metadata.architecture).as_str()));
    r.push(labelled_text("kind: ", kind_label(metadata.model_kind)));
    r.push(labelled_text("quant: ", text_or(&metadata.quant).as_str()));
    r.push(labelled_text("size: ", format_bytes(metadata.file_size_bytes).as_str()));
    r.push(labelled_text("native context: ", fmt_or_dash(metadata.native_context).as_str()));
    r.push(labelled_text("chat template: ", template));
    r.push(experts);
    r.push(labelled_text("prior runs: ", text::number(prior_runs).as_str()));
    proof {
        assert(text::texts(r@) =~= inspected(metadata@, prior_runs));
    }
    r
}

/// The lines on the machine.
pub fn doctor_lines(snapshot: &EnvironmentSnapshot) -> (r: Vec<String>)
    ensures
        text::texts(r@) == seq![
            "profiler: "@ + snapshot.profiler_version@,
            "os: "@ + snapshot.os@,
            "llama-server: "@ + (if snapshot.llama_server.usable {
                "usable"@
            } else {
                "unavailable"@
            }),
            "gpus: "@ + text::decimal(snapshot.gpus@.len()),
        ],
{
    let state = if snapshot.llama_server.usable {
        "usable"
    } else {
        "unavailable"
    };
    let mut r: Vec<String> = Vec::new();
    r.push(labelled_text("profiler: ", snapshot.profiler_version.as_str()));
    r.push(labelled_text("os: ", snapshot.os.as_str()));
    r.push(labelled_text("llama-server: ", state));
    r.push(labelled_text("gpus: ", text::number(snapshot.gpus.len() as u64).as_str()));
    proof {
        assert(text::texts(r@) =~= seq![
            "profiler: "@ + snapshot.profiler_version@,
            "os: "@ + snapshot.os@,
            "llama-server: "@ + state@,
            "gpus: "@ + text::decimal(snapshot.gpus@.len()),
        ]);
    }
    r
}

/// The lines on a recommendation.
pub fn recommendation_lines(recommendation: &RecommendOutput) -> (r: Vec<String>)
    ensures
        text::texts(r@) == seq![
            "profile: "@ + recommendation.profile_id@,
            "confidence: "@ + recommendation.confidence@,
            "command: "@ + recommendation.command@,
        ] + (match recommendation.next_suggested_test {
            Some(next) => seq!["next: "@ + next@],
            None => seq![],
        }),
{
    let mut r: Vec<String> = Vec::new();
    r.push(labelled_text("profile: ", recommendation.profile_id.as_str()));
    r.push(labelled_text("confidence: ", recommendation.confidence.as_str()));
    r.push(labelled_text("command: ", recommendation.command.as_str()));
    let ghost head = text::texts(r@);
    proof {
        assert(head =~= seq![
            "profile: "@ + recommendation.profile_id@,
            "confidence: "@ + recommendation.confidence@,
            "command: "@ + recommendation.command@,
        ]);
        assert(head + seq![] =~= head);
    }
    if let Some(next) = &recommendation.next_suggested_test {
        let line = labelled_text("next: ", next.as_str());
        r.push(line);
        proof {
            assert(text::texts(r@) =~= head + seq![line@]);
        }
    }
    r
}

/// What an export does.
#[derive(Debug, PartialEq)]
pub struct ExportSteps {
    /// Put the table of profiles into the notes.
    pub markdown: bool,
    /// Put the profiles into this client configuration.
    pub opencode: Option<String>,
    /// Print the table of profiles.
    pub print_block: bool,
    /// Print what would be written, and write nothing.
    pub dry_run: bool,
}

/// What an export does. Nothing is written unless that is asked for.
pub fn export_steps(options: &ExportOptions) -> (r: ExportSteps)
    ensures
        r.markdown == options.markdown,
        text::opt_text(r.opencode) == text::opt_text(options.opencode),
        r.print_block == (!options.markdown && options.opencode is None),
        r.dry_run == (options.dry_run || !options.write),
{
    ExportSteps {
        markdown: options.markdown,
        opencode: text::copy_opt(&options.opencode),
        print_block: !options.markdown && options.opencode.is_none(),
        dry_run: options.dry_run || !options.write,
    }
}

/// The cells of a profile, each in its column.
pub proof fn rows_tell_the_profile(m: MetadataView, p: RecommendationView, f: FiguresView)
    ensures
        ({
            let row = profile_row(m, p, f);
            &&& row.len() == 11
            &&& row[0] == m.file_name
            &&& row[1] == p.id
            &&& row[2] == p.role
            &&& row[3] == (if p.output_toks_per_s is Some { f.output } else { "-"@ })
            &&& row[4] == (if p.prompt_toks_per_s is Some { f.prompt } else { "-"@ })
            &&& p.ttft_ms is None ==> row[5] == "-"@
            &&& p.ttft_ms is Some && p.ttft_ms->0 < 60_000 ==> row[5] == text::decimal(
                p.ttft_ms->0 as nat,
            ) + " ms"@
            &&& p.ttft_ms is Some && p.ttft_ms->0 >= 60_000 ==> row[5] == f.minutes + "m"@
            &&& p.peak_vram_mib is None ==> row[6] == "-"@
            &&& p.peak_vram_mib is Some ==> row[6] == text::decimal(p.peak_vram_mib->0 as nat)
                + " MiB"@
            &&& p.headroom_mib is None ==> row[7] == "-"@
            &&& p.headroom_mib is Some ==> row[7] == text::decimal(p.headroom_mib->0 as nat)
                + " MiB"@
            &&& row[8] == p.risk
            &&& p.validation_level == ValidationLevel::Smoke ==> row[9] == "smoke"@
            &&& p.validation_level == ValidationLevel::StandardIngest ==> row[9]
                == "standard-ingest"@
            &&& p.validation_level == ValidationLevel::Realistic ==> row[9] == "realistic"@
            &&& p.validation_level == ValidationLevel::Fullctx ==> row[9] == "fullctx"@
            &&& row[10] == p.command_display
        }),
{
}

/// The table in the documentation shows the same, with the id and the command as
/// code and the bars of a table escaped.
pub proof fn cells_tell_the_profile(m: MetadataView, p: RecommendationView, f: FiguresView)
    ensures
        ({
            let cells = profile_cells(p, f);
            let row = profile_row(m, p, f);
            &&& cells.len() == 10
            &&& cells[0] == "`"@ + row[1] + "`"@
            &&& cells[1] == text::replaced(row[2], '|', "\\|"@)
            &&& cells[2] == row[3]
            &&& cells[3] == row[4]
            &&& cells[4] == row[5]
            &&& cells[5] == row[6]
            &&& cells[6] == row[7]
            &&& cells[7] == row[8]
            &&& cells[8] == row[9]
            &&& cells[9] == "`"@ + text::replaced(row[10], '|', "\\|"@) + "`"@
        }),
{
}

/// What an agent is told of a profile is what the profile holds.
pub proof fn metrics_repeat_the_profile(line: ProfileLine)
    ensures
        ({
            let a = metric_of(line);
            let p = line.profile;
            &&& a.exact_command == p.command_display
            &&& a.profile_id == p.id
            &&& a.profile_key == line.model.path + "#"@ + p.id
            &&& a.model_path == line.model.path
            &&& a.model_kind == line.model.model_kind
            &&& a.quant == line.model.quant
            &&& a.native_context == line.model.native_context
            &&& a.model_identity == p.model_identity
            &&& a.environment_valid == p.environment_valid
            &&& a.telemetry_status == p.telemetry_status
            &&& a.source_run_id == p.source_run_id
            &&& a.source_candidate_id == p.source_candidate_id
            &&& a.source_test_kind == p.source_test_kind
            &&& a.requested_context == p.requested_context
            &&& a.validated_prompt_tokens == p.validated_prompt_tokens
            &&& a.validation_level == p.validation_level
            &&& a.realistic_validation == p.realistic_validation
            &&& a.output_toks_per_s == p.output_toks_per_s
            &&& a.prompt_toks_per_s == p.prompt_toks_per_s
            &&& a.ttft_ms == p.ttft_ms
            &&& a.headroom_mib == p.headroom_mib
            &&& a.risk == p.risk
            &&& a.compatibility == p.compatibility
        }),
{
}

/// The report to an agent is bounded, and what it recommends is the first of its
/// profiles: the command and the confidence are those of the fastest.
pub proof fn agents_are_told_the_fastest(
    models: Seq<(MetadataView, RecommendationsView)>,
    figures: Seq<Seq<FiguresView>>,
    k: int,
)
    requires
        0 <= k < agent_report_of(models, figures).key_metrics.len(),
        forall|i: int|
            0 <= i < profile_lines(models, figures, models.len()).len() ==> !(
            #[trigger] line_rates(profile_lines(models, figures, models.len()))[i]).nan(),
    ensures
        ({
            let a = agent_report_of(models, figures);
            &&& a.key_metrics.len() <= 8
            &&& a.best_profile_ids.len() <= 5
            &&& a.failures.len() <= 12
            &&& a.stale_profiles.len() <= 12
            &&& a.exact_command == Some(a.key_metrics[0].exact_command)
            &&& a.confidence == Some(a.key_metrics[0].confidence)
            &&& k < a.best_profile_ids.len() ==> a.best_profile_ids[k] == a.key_metrics[k].profile_key
            &&& a.key_metrics[k].output_toks_per_s is Some
                && a.key_metrics[0].output_toks_per_s is Some
                ==> !a.key_metrics[0].output_toks_per_s->0.less(
                a.key_metrics[k].output_toks_per_s->0,
            )
        }),
{
    let lines = profile_lines(models, figures, models.len());
    the_fastest_come_first(lines);
    let r = ranked(lines);
    let rates = line_rates(lines);
    assert(0 <= falling(rates, lines.len())[k] < lines.len());
    let i = falling(rates, lines.len())[k];
    assert(!rates[i].nan());
    assert(r[k] == lines[i]);
    if k > 0 {
        assert(!rate_or_zero(r[0].profile).less(rate_or_zero(r[k].profile)));
    }
}

/// The validation that is shown is that of the first profile that has one.
pub proof fn the_first_validation_is_shown(profiles: Seq<RecommendationView>, k: int)
    ensures
        first_validated(profiles) matches Some(i) ==> 0 <= i < profiles.len()
            && profiles[i].realistic_validation is Some,
        0 <= k < profiles.len() && profiles[k].realistic_validation is Some ==> first_validated(
            profiles,
        ) is Some && first_validated(profiles)->0 <= k,
    decreases profiles.len(),
{
    if profiles.len() > 0 {
        the_first_validation_is_shown(profiles.drop_last(), k);
    }
}

} // verus!
