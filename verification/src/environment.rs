//! The machine and the server that measurements were made with.
use crate::gguf;
use crate::path;
use crate::record::{duplicate_all, opt_view, views, Duplicate};
use crate::text;
use vstd::prelude::*;

verus! {

/// The version of this profiler.
pub const PROFILER_VERSION: &'static str = "0.1.0-beta.1";

/// A graphics processor.
#[derive(Debug, PartialEq)]
pub struct GpuInfo {
    pub index: u32,
    pub name: Option<String>,
    pub total_vram_mib: Option<u64>,
    pub driver_version: Option<String>,
}

/// What a description of a graphics processor holds.
#[verifier::ext_equal]
pub struct GpuView {
    pub index: u32,
    pub name: Option<Seq<char>>,
    pub total_vram_mib: Option<u64>,
    pub driver_version: Option<Seq<char>>,
}

impl View for GpuInfo {
    type V = GpuView;

    open spec fn view(&self) -> GpuView {
        GpuView {
            index: self.index,
            name: text::opt_text(self.name),
            total_vram_mib: self.total_vram_mib,
            driver_version: text::opt_text(self.driver_version),
        }
    }
}

impl Duplicate for GpuInfo {
    fn duplicate(&self) -> (r: GpuInfo) {
        GpuInfo {
            index: self.index,
            name: text::copy_opt(&self.name),
            total_vram_mib: self.total_vram_mib,
            driver_version: text::copy_opt(&self.driver_version),
        }
    }
}

impl Clone for GpuInfo {
    fn clone(&self) -> (r: GpuInfo)
        ensures
            r@ == self@,
    {
        self.duplicate()
    }
}

/// The `llama-server` executable.
#[derive(Debug, PartialEq)]
pub struct ServerInfo {
    pub executable: String,
    pub resolved_path: Option<String>,
    pub version: Option<String>,
    pub help_hash: Option<String>,
    pub usable: bool,
    pub error: Option<String>,
}

/// What a description of a server holds.
#[verifier::ext_equal]
pub struct ServerView {
    pub executable: Seq<char>,
    pub resolved_path: Option<Seq<char>>,
    pub version: Option<Seq<char>>,
    pub help_hash: Option<Seq<char>>,
    pub usable: bool,
    pub error: Option<Seq<char>>,
}

impl View for ServerInfo {
    type V = ServerView;

    open spec fn view(&self) -> ServerView {
        ServerView {
            executable: self.executable@,
            resolved_path: text::opt_text(self.resolved_path),
            version: text::opt_text(self.version),
            help_hash: text::opt_text(self.help_hash),
            usable: self.usable,
            error: text::opt_text(self.error),
        }
    }
}

impl Duplicate for ServerInfo {
    fn duplicate(&self) -> (r: ServerInfo) {
        ServerInfo {
            executable: self.executable.clone(),
            resolved_path: text::copy_opt(&self.resolved_path),
            version: text::copy_opt(&self.version),
            help_hash: text::copy_opt(&self.help_hash),
            usable: self.usable,
            error: text::copy_opt(&self.error),
        }
    }
}

impl Clone for ServerInfo {
    fn clone(&self) -> (r: ServerInfo)
        ensures
            r@ == self@,
    {
        self.duplicate()
    }
}

/// The machine and the server at one time.
#[derive(Debug, PartialEq)]
pub struct EnvironmentSnapshot {
    pub profiler_version: String,
    pub os: String,
    pub cpu_brand: Option<String>,
    pub cpu_cores: Option<usize>,
    pub ram_total_mib: Option<u64>,
    pub swap_total_mib: Option<u64>,
    pub gpu_backend: String,
    pub gpus: Vec<GpuInfo>,
    pub llama_server: ServerInfo,
}

/// What a snapshot holds.
#[verifier::ext_equal]
pub struct EnvironmentView {
    pub profiler_version: Seq<char>,
    pub os: Seq<char>,
    pub cpu_brand: Option<Seq<char>>,
    pub cpu_cores: Option<usize>,
    pub ram_total_mib: Option<u64>,
    pub swap_total_mib: Option<u64>,
    pub gpu_backend: Seq<char>,
    pub gpus: Seq<GpuView>,
    pub llama_server: ServerView,
}

impl View for EnvironmentSnapshot {
    type V = EnvironmentView;

    open spec fn view(&self) -> EnvironmentView {
        EnvironmentView {
            profiler_version: self.profiler_version@,
            os: self.os@,
            cpu_brand: text::opt_text(self.cpu_brand),
            cpu_cores: self.cpu_cores,
            ram_total_mib: self.ram_total_mib,
            swap_total_mib: self.swap_total_mib,
            gpu_backend: self.gpu_backend@,
            gpus: views(self.gpus@),
            llama_server: self.llama_server@,
        }
    }
}

impl Duplicate for EnvironmentSnapshot {
    fn duplicate(&self) -> (r: EnvironmentSnapshot) {
        EnvironmentSnapshot {
            profiler_version: self.profiler_version.clone(),
            os: self.os.clone(),
            cpu_brand: text::copy_opt(&self.cpu_brand),
            cpu_cores: self.cpu_cores,
            ram_total_mib: self.ram_total_mib,
            swap_total_mib: self.swap_total_mib,
            gpu_backend: self.gpu_backend.clone(),
            gpus: duplicate_all(&self.gpus),
            llama_server: self.llama_server.duplicate(),
        }
    }
}

impl Clone for EnvironmentSnapshot {
    fn clone(&self) -> (r: EnvironmentSnapshot)
        ensures
            r@ == self@,
    {
        self.duplicate()
    }
}

impl Default for ServerInfo {
    fn default() -> (r: ServerInfo)
        ensures
            r@ == (ServerView {
                executable: "llama-server"@,
                resolved_path: None,
                version: None,
                help_hash: None,
                usable: false,
                error: None,
            }),
    {
        ServerInfo {
            executable: "llama-server".to_string(),
            resolved_path: None,
            version: None,
            help_hash: None,
            usable: false,
            error: None,
        }
    }
}

impl Default for EnvironmentSnapshot {
    fn default() -> (r: EnvironmentSnapshot)
        ensures
            r.profiler_version@ == PROFILER_VERSION@,
            r.os@ == "linux"@,
            r@.cpu_brand is None,
            r.cpu_cores is None,
            r.ram_total_mib is None,
            r.swap_total_mib is None,
            r.gpu_backend@ == "unknown"@,
            r.gpus@.len() == 0,
            r.llama_server@ == (ServerView {
                executable: "llama-server"@,
                resolved_path: None,
                version: None,
                help_hash: None,
                usable: false,
                error: None,
            }),
    {
        EnvironmentSnapshot {
            profiler_version: PROFILER_VERSION.to_string(),
            os: "linux".to_string(),
            cpu_brand: None,
            cpu_cores: None,
            ram_total_mib: None,
            swap_total_mib: None,
            gpu_backend: "unknown".to_string(),
            gpus: Vec::new(),
            llama_server: ServerInfo::default(),
        }
    }
}

/// Whether a measurement still holds for the current machine and model.
#[derive(Clone, Copy, Debug, Default, PartialEq, Eq, Structural)]
pub enum Compatibility {
    Current,
    #[default]
    LegacyMissingSnapshot,
    LegacyMissingIdentity,
    ServerChanged,
    HardwareChanged,
    ModelChanged,
}

/// Why a measurement does not hold any more.
pub open spec fn reason_text(c: Compatibility) -> Seq<char> {
    match c {
        Compatibility::Current => "current environment"@,
        Compatibility::LegacyMissingSnapshot => "legacy run is missing environment snapshot"@,
        Compatibility::LegacyMissingIdentity => "legacy state is missing model identity"@,
        Compatibility::ServerChanged => "llama-server executable or help output changed"@,
        Compatibility::HardwareChanged => "hardware or driver changed"@,
        Compatibility::ModelChanged => "model at this path changed"@,
    }
}

impl Compatibility {
    /// Whether the measurement still holds.
    pub fn is_current(self) -> (r: bool)
        ensures
            r == (self == Compatibility::Current),
    {
        match self {
            Compatibility::Current => true,
            _ => false,
        }
    }

    /// Why the measurement does not hold any more.
    pub fn reason(self) -> (r: &'static str)
        ensures
            r@ == reason_text(self),
    {
        match self {
            Compatibility::Current => "current environment",
            Compatibility::LegacyMissingSnapshot => "legacy run is missing environment snapshot",
            Compatibility::LegacyMissingIdentity => "legacy state is missing model identity",
            Compatibility::ServerChanged => "llama-server executable or help output changed",
            Compatibility::HardwareChanged => "hardware or driver changed",
            Compatibility::ModelChanged => "model at this path changed",
        }
    }

    /// The name of the variant.
    pub fn name(self) -> (r: &'static str)
        ensures
            r@ == compatibility_name(self),
    {
        match self {
            Compatibility::Current => "Current",
            Compatibility::LegacyMissingSnapshot => "LegacyMissingSnapshot",
            Compatibility::LegacyMissingIdentity => "LegacyMissingIdentity",
            Compatibility::ServerChanged => "ServerChanged",
            Compatibility::HardwareChanged => "HardwareChanged",
            Compatibility::ModelChanged => "ModelChanged",
        }
    }
}

/// The name of the variant.
pub open spec fn compatibility_name(c: Compatibility) -> Seq<char> {
    match c {
        Compatibility::Current => "Current"@,
        Compatibility::LegacyMissingSnapshot => "LegacyMissingSnapshot"@,
        Compatibility::LegacyMissingIdentity => "LegacyMissingIdentity"@,
        Compatibility::ServerChanged => "ServerChanged"@,
        Compatibility::HardwareChanged => "HardwareChanged"@,
        Compatibility::ModelChanged => "ModelChanged"@,
    }
}

/// Both paths are absent, or they are the same path.
pub open spec fn same_opt_path(a: Option<Seq<char>>, b: Option<Seq<char>>) -> bool {
    match (a, b) {
        (Some(x), Some(y)) => path::same(x, y),
        (None, None) => true,
        _ => false,
    }
}

/// The server is the same executable with the same options.
pub open spec fn same_server(a: ServerView, b: ServerView) -> bool {
    &&& a.executable == b.executable
    &&& same_opt_path(a.resolved_path, b.resolved_path)
    &&& a.help_hash == b.help_hash
}

/// The machine is the same.
pub open spec fn same_hardware(a: EnvironmentView, b: EnvironmentView) -> bool {
    &&& a.os == b.os
    &&& a.cpu_brand == b.cpu_brand
    &&& a.cpu_cores == b.cpu_cores
    &&& a.ram_total_mib == b.ram_total_mib
    &&& a.swap_total_mib == b.swap_total_mib
    &&& a.gpu_backend == b.gpu_backend
    &&& a.gpus == b.gpus
}

/// Whether a measurement made in `run` holds in `current`. A change of the
/// server is told before a change of the hardware.
pub open spec fn compared(run: Option<EnvironmentView>, current: EnvironmentView) -> Compatibility {
    match run {
        None => Compatibility::LegacyMissingSnapshot,
        Some(run) => if !same_server(run.llama_server, current.llama_server) {
            Compatibility::ServerChanged
        } else if !same_hardware(run, current) {
            Compatibility::HardwareChanged
        } else {
            Compatibility::Current
        },
    }
}

/// An environment is compatible with itself.
pub proof fn own_environment_is_current(e: EnvironmentView)
    ensures
        compared(Some(e), e) == Compatibility::Current,
{
}

/// A measurement holds only where it was made with the same server and on the
/// same machine: any change of the executable, of where it was found, of its
/// options, of the system, the processor, the memory, the swap, the backend or
/// the graphics processors is told, a change of the server first. What else is
/// recorded makes no difference.
pub proof fn every_change_is_told(run: EnvironmentView, current: EnvironmentView)
    ensures
        compared(None, current) == Compatibility::LegacyMissingSnapshot,
        run.llama_server.executable != current.llama_server.executable
            || run.llama_server.help_hash != current.llama_server.help_hash
            || run.llama_server.resolved_path is Some
            != current.llama_server.resolved_path is Some ==> compared(Some(run), current)
            == Compatibility::ServerChanged,
        ({
            let same = run.llama_server.executable == current.llama_server.executable
                && run.llama_server.help_hash == current.llama_server.help_hash
                && run.llama_server.resolved_path == current.llama_server.resolved_path;
            let kept = run.os == current.os && run.cpu_brand == current.cpu_brand && run.cpu_cores
                == current.cpu_cores && run.ram_total_mib == current.ram_total_mib
                && run.swap_total_mib == current.swap_total_mib && run.gpu_backend
                == current.gpu_backend && run.gpus == current.gpus;
            &&& same && !kept ==> compared(Some(run), current) == Compatibility::HardwareChanged
            &&& same && kept ==> compared(Some(run), current) == Compatibility::Current
            &&& !kept ==> compared(Some(run), current) != Compatibility::Current
        }),
{
}

fn same_paths(a: &Option<String>, b: &Option<String>) -> (r: bool)
    ensures
        r == same_opt_path(text::opt_text(*a), text::opt_text(*b)),
{
    match (a, b) {
        (Some(x), Some(y)) => path::same_path(x.as_str(), y.as_str()),
        (None, None) => true,
        _ => false,
    }
}

/// Whether two optional numbers are both absent or equal.
pub fn same_number(a: Option<u64>, b: Option<u64>) -> (r: bool)
    ensures
        r == (a == b),
{
    match (a, b) {
        (Some(x), Some(y)) => x == y,
        (None, None) => true,
        _ => false,
    }
}

/// Whether two optional counts are both absent or equal.
pub fn same_count(a: Option<usize>, b: Option<usize>) -> (r: bool)
    ensures
        r == (a == b),
{
    match (a, b) {
        (Some(x), Some(y)) => x == y,
        (None, None) => true,
        _ => false,
    }
}

fn same_gpus(a: &Vec<GpuInfo>, b: &Vec<GpuInfo>) -> (r: bool)
    ensures
        r == (views(a@) == views(b@)),
{
    if a.len() != b.len() {
        proof {
            assert(views(a@).len() != views(b@).len());
        }
        return false;
    }
    for i in 0..a.len()
        invariant
            a@.len() == b@.len(),
            forall|j: int| 0 <= j < i ==> a@[j]@ == b@[j]@,
    {
        let same = a[i].index == b[i].index && text::same_opt_text(&a[i].name, &b[i].name)
            && same_number(a[i].total_vram_mib, b[i].total_vram_mib) && text::same_opt_text(
            &a[i].driver_version,
            &b[i].driver_version,
        );
        proof {
            assert(same == (a@[i as int]@ == b@[i as int]@));
        }
        if !same {
            proof {
                assert(views(a@)[i as int] != views(b@)[i as int]);
            }
            return false;
        }
    }
    proof {
        assert(views(a@) =~= views(b@));
    }
    true
}

/// Whether a measurement made in `run` holds in `current`.
pub fn compare_environment(
    run: Option<&EnvironmentSnapshot>,
    current: &EnvironmentSnapshot,
) -> (r: Compatibility)
    ensures
        r == compared(
            match run {
                Some(e) => Some(e@),
                None => None,
            },
            current@,
        ),
{
    let run = match run {
        Some(run) => run,
        None => {
            return Compatibility::LegacyMissingSnapshot;
        },
    };
    if !(text::same_text(
        run.llama_server.executable.as_str(),
        current.llama_server.executable.as_str(),
    ) && same_paths(&run.llama_server.resolved_path, &current.llama_server.resolved_path)
        && text::same_opt_text(&run.llama_server.help_hash, &current.llama_server.help_hash)) {
        return Compatibility::ServerChanged;
    }
    if !(text::same_text(run.os.as_str(), current.os.as_str()) && text::same_opt_text(
        &run.cpu_brand,
        &current.cpu_brand,
    ) && same_count(run.cpu_cores, current.cpu_cores) && same_number(
        run.ram_total_mib,
        current.ram_total_mib,
    ) && same_number(run.swap_total_mib, current.swap_total_mib) && text::same_text(
        run.gpu_backend.as_str(),
        current.gpu_backend.as_str(),
    ) && same_gpus(&run.gpus, &current.gpus)) {
        return Compatibility::HardwareChanged;
    }
    Compatibility::Current
}

// ---------------------------------------------------------------------------
// What the system reports

/// The trimmed text, where anything is left of it.
pub open spec fn kept(s: Seq<char>) -> Option<Seq<char>> {
    if text::trim(s).len() == 0 {
        None
    } else {
        Some(text::trim(s))
    }
}

/// The trimmed text, where anything is left of it.
fn non_empty(value: &str) -> (r: Option<String>)
    ensures
        text::opt_text(r) == kept(value@),
{
    let trimmed = text::trimmed(value);
    if text::to_chars(trimmed.as_str()).len() == 0 {
        None
    } else {
        Some(trimmed)
    }
}

/// The number that follows `key` at the start of `line`.
pub open spec fn keyed_number(line: Seq<char>, key: Seq<char>) -> Option<nat> {
    if text::starts_with(line, key) {
        match text::first_word(line.skip(key.len() as int)) {
            Some(word) => text::parsed(word, u64::MAX as nat),
            None => None,
        }
    } else {
        None
    }
}

/// The number that follows `key` at the start of `line`.
pub fn parse_meminfo_line(line: &str, key: &str) -> (r: Option<u64>)
    ensures
        match r {
            Some(n) => keyed_number(line@, key@) == Some(n as nat),
            None => keyed_number(line@, key@) is None,
        },
{
    match text::strip_prefix(line, key) {
        Some(rest) => match text::word(rest.as_str()) {
            Some(word) => text::parse_number(word.as_str(), u64::MAX),
            None => None,
        },
        None => None,
    }
}

/// The number of the last line that starts with `key`, where no key of
/// `before` takes the line first.
pub open spec fn last_keyed(lines: Seq<Seq<char>>, key: Seq<char>, before: Seq<Seq<char>>) -> Option<
    nat,
>
    decreases lines.len(),
{
    if lines.len() == 0 {
        None
    } else {
        let line = lines.last();
        let taken = exists|i: int|
            0 <= i < before.len() && keyed_number(line, #[trigger] before[i]) is Some;
        match keyed_number(line, key) {
            Some(n) => if taken {
                last_keyed(lines.drop_last(), key, before)
            } else {
                Some(n)
            },
            None => last_keyed(lines.drop_last(), key, before),
        }
    }
}

/// An optional number, divided.
pub open spec fn divided(n: Option<nat>, d: nat) -> Option<nat> {
    match n {
        Some(n) => Some(n / d),
        None => None,
    }
}

/// An optional machine number as a mathematical one.
pub open spec fn opt_nat(n: Option<u64>) -> Option<nat> {
    match n {
        Some(n) => Some(n as nat),
        None => None,
    }
}

/// The memory and swap totals in MiB that the text of `/proc/meminfo` tells.
fn memory_totals(data: &str) -> (r: (Option<u64>, Option<u64>))
    ensures
        opt_nat(r.0) == divided(last_keyed(text::lines(data@), "MemTotal:"@, seq![]), 1024),
        opt_nat(r.1) == divided(
            last_keyed(text::lines(data@), "SwapTotal:"@, seq!["MemTotal:"@]),
            1024,
        ),
{
    let lines = text::split_lines(data);
    let ghost all = text::lines(data@);
    let mut mem: Option<u64> = None;
    let mut swap: Option<u64> = None;
    for i in 0..lines.len()
        invariant
            all == text::texts(lines@),
            opt_nat(mem) == divided(last_keyed(all.take(i as int), "MemTotal:"@, seq![]), 1024),
            opt_nat(swap) == divided(
                last_keyed(all.take(i as int), "SwapTotal:"@, seq!["MemTotal:"@]),
                1024,
            ),
    {
        proof {
            assert(all.take(i + 1).drop_last() =~= all.take(i as int));
            assert(all.take(i + 1).last() == lines@[i as int]@);
            let b = seq!["MemTotal:"@];
            assert(b[0] == "MemTotal:"@);
        }
        if let Some(n) = parse_meminfo_line(lines[i].as_str(), "MemTotal:") {
            mem = Some(n / 1024);
        } else if let Some(n) = parse_meminfo_line(lines[i].as_str(), "SwapTotal:") {
            swap = Some(n / 1024);
        }
    }
    proof {
        assert(all.take(all.len() as int) =~= all);
    }
    (mem, swap)
}

/// The text behind the first colon of a line that starts with `model name`.
pub open spec fn brand_of_line(line: Seq<char>) -> Option<Seq<char>> {
    let rest = line.skip(10);
    let n = text::run_before(rest, ':') as int;
    if text::starts_with(line, "model name"@) && n < rest.len() {
        kept(rest.skip(n + 1))
    } else {
        None
    }
}

/// The processor that the text of `/proc/cpuinfo` names: only the first line
/// that starts with `model name` counts.
pub open spec fn brand_of(lines: Seq<Seq<char>>) -> Option<Seq<char>>
    decreases lines.len(),
{
    if lines.len() == 0 {
        None
    } else if text::starts_with(lines[0], "model name"@) {
        brand_of_line(lines[0])
    } else {
        brand_of(lines.drop_first())
    }
}

/// The processor that the text of `/proc/cpuinfo` names.
fn cpu_brand(data: &str) -> (r: Option<String>)
    ensures
        text::opt_text(r) == brand_of(text::lines(data@)),
{
    let lines = text::split_lines(data);
    let ghost all = text::lines(data@);
    proof {
        assert(all.skip(0) =~= all);
        reveal_strlit("model name");
    }
    for i in 0..lines.len()
        invariant
            all == text::lines(data@),
            all == text::texts(lines@),
            "model name"@.len() == 10,
            brand_of(all.skip(i as int)) == brand_of(all),
    {
        proof {
            assert(all.skip(i as int).drop_first() =~= all.skip(i + 1));
            assert(all.skip(i as int)[0] == lines@[i as int]@);
        }
        if let Some(rest) = text::strip_prefix(lines[i].as_str(), "model name") {
            let chars = text::to_chars(rest.as_str());
            let mut n: usize = 0;
            proof {
                assert(rest@.skip(0) =~= rest@);
            }
            while n < chars.len() && chars[n] != ':'
                invariant
                    chars@ == rest@,
                    n <= chars@.len(),
                    text::run_before(rest@, ':') == n + text::run_before(rest@.skip(n as int), ':'),
                decreases chars@.len() - n,
            {
                proof {
                    assert(rest@.skip(n as int).drop_first() =~= rest@.skip(n + 1));
                }
                n += 1;
            }
            if n == chars.len() {
                return None;
            }
            let value = text::slice_text(&chars, n + 1, chars.len());
            proof {
                assert(value@ =~= rest@.skip(n + 1));
            }
            return non_empty(value.as_str());
        }
    }
    proof {
        assert(all.skip(all.len() as int) =~= seq![]);
    }
    None
}

/// The piece at `i`, trimmed, where there is one and anything is left of it.
pub open spec fn piece(pieces: Seq<Seq<char>>, i: int) -> Option<Seq<char>> {
    if 0 <= i < pieces.len() {
        kept(pieces[i])
    } else {
        None
    }
}

/// The number at `i`, where there is one.
pub open spec fn number_piece(pieces: Seq<Seq<char>>, i: int, max: nat) -> Option<nat> {
    if 0 <= i < pieces.len() {
        text::parsed(text::trim(pieces[i]), max)
    } else {
        None
    }
}

/// The graphics processor that a comma-separated line tells: its index, its
/// name, its memory in MiB and its driver. No index, no processor.
pub open spec fn gpu_of_line(line: Seq<char>) -> Option<GpuView> {
    let pieces = text::split(line, ',');
    match number_piece(pieces, 0, u32::MAX as nat) {
        None => None,
        Some(index) => Some(
            GpuView {
                index: index as u32,
                name: piece(pieces, 1),
                total_vram_mib: match number_piece(pieces, 2, u64::MAX as nat) {
                    Some(n) => Some(n as u64),
                    None => None,
                },
                driver_version: piece(pieces, 3),
            },
        ),
    }
}

/// The graphics processors that the lines of a report tell.
pub open spec fn gpus_of(lines: Seq<Seq<char>>) -> Seq<GpuView>
    decreases lines.len(),
{
    if lines.len() == 0 {
        seq![]
    } else {
        let before = gpus_of(lines.drop_last());
        match gpu_of_line(lines.last()) {
            Some(gpu) => before.push(gpu),
            None => before,
        }
    }
}

fn text_piece(pieces: &Vec<String>, i: usize) -> (r: Option<String>)
    ensures
        text::opt_text(r) == piece(text::texts(pieces@), i as int),
{
    if i < pieces.len() {
        non_empty(pieces[i].as_str())
    } else {
        None
    }
}

/// The number at `i`, where there is one.
pub fn parse_piece(pieces: &Vec<String>, i: usize, max: u64) -> (r: Option<u64>)
    ensures
        match r {
            Some(n) => number_piece(text::texts(pieces@), i as int, max as nat) == Some(n as nat)
                && n <= max,
            None => number_piece(text::texts(pieces@), i as int, max as nat) is None,
        },
{
    if i < pieces.len() {
        text::parse_number(text::trimmed(pieces[i].as_str()).as_str(), max)
    } else {
        None
    }
}

/// The graphics processor that a comma-separated line tells.
pub fn parse_gpu_line(line: &str) -> (r: Option<GpuInfo>)
    ensures
        opt_view(r) == gpu_of_line(line@),
{
    let pieces = text::split_at_char(line, ',');
    match parse_piece(&pieces, 0, u32::MAX as u64) {
        None => None,
        Some(index) => Some(
            GpuInfo {
                index: index as u32,
                name: text_piece(&pieces, 1),
                total_vram_mib: parse_piece(&pieces, 2, u64::MAX),
                driver_version: text_piece(&pieces, 3),
            },
        ),
    }
}

/// The graphics processors that a report tells.
fn parse_gpus(report: &str) -> (r: Vec<GpuInfo>)
    ensures
        views(r@) == gpus_of(text::lines(report@)),
{
    let lines = text::split_lines(report);
    let ghost all = text::lines(report@);
    let mut r: Vec<GpuInfo> = Vec::new();
    proof {
        assert(views(r@) =~= gpus_of(all.take(0)));
    }
    for i in 0..lines.len()
        invariant
            all == text::texts(lines@),
            views(r@) == gpus_of(all.take(i as int)),
    {
        let ghost before = views(r@);
        proof {
            assert(all.take(i + 1).drop_last() =~= all.take(i as int));
            assert(all.take(i + 1).last() == lines@[i as int]@);
        }
        if let Some(gpu) = parse_gpu_line(lines[i].as_str()) {
            r.push(gpu);
            proof {
                assert(views(r@) =~= before.push(gpu@));
            }
        }
    }
    proof {
        assert(all.take(all.len() as int) =~= all);
    }
    r
}

/// What was learned of the machine and the server.
pub struct HostReport {
    /// The operating system.
    pub os: String,
    /// The processor architecture.
    pub arch: String,
    /// The processor's own name, which may be empty.
    pub cpu_brand: String,
    /// The text of `/proc/cpuinfo`.
    pub cpuinfo: Option<String>,
    /// The text of `/proc/meminfo`.
    pub meminfo: Option<String>,
    /// Memory in bytes, for want of `/proc/meminfo`.
    pub total_memory: u64,
    /// Swap in bytes, for want of `/proc/meminfo`.
    pub total_swap: u64,
    pub cpu_cores: Option<usize>,
    /// What `nvidia-smi` printed.
    pub nvidia_report: Option<String>,
    /// Where the server's executable lies.
    pub resolved_path: Option<String>,
    /// What the server printed when asked for its version.
    pub version_output: Option<String>,
}

/// What the server is, given what it printed when asked for help.
pub open spec fn server_of(
    executable: Seq<char>,
    help: Option<Seq<char>>,
    resolved_path: Option<Seq<char>>,
    version_output: Option<Seq<char>>,
) -> ServerView {
    ServerView {
        executable,
        resolved_path,
        version: match version_output {
            Some(v) => kept(v),
            None => None,
        },
        help_hash: match help {
            Some(h) => Some(gguf::hash_text(vstd::utf8::encode_utf8(h))),
            None => None,
        },
        usable: help is Some,
        error: if help is Some {
            None
        } else {
            Some("llama-server help was unavailable"@)
        },
    }
}

/// The graphics processors in the report, if there is one.
pub open spec fn reported_gpus(report: Option<Seq<char>>) -> Seq<GpuView> {
    match report {
        Some(s) => gpus_of(text::lines(s)),
        None => seq![],
    }
}

fn server_info(
    executable: &str,
    help: Option<&str>,
    resolved_path: &Option<String>,
    version_output: &Option<String>,
) -> (r: ServerInfo)
    ensures
        r@ == server_of(
            executable@,
            text::opt_str(help),
            text::opt_text(*resolved_path),
            text::opt_text(*version_output),
        ),
{
    ServerInfo {
        executable: executable.to_string(),
        resolved_path: text::copy_opt(resolved_path),
        version: match version_output {
            Some(v) => non_empty(v.as_str()),
            None => None,
        },
        help_hash: match help {
            Some(h) => Some(gguf::stable_hash(h)),
            None => None,
        },
        usable: help.is_some(),
        error: match help {
            Some(_) => None,
            None => Some("llama-server help was unavailable".to_string()),
        },
    }
}

/// The snapshot of the machine and the server that a report describes.
pub fn capture_environment(
    executable: &str,
    help: Option<&str>,
    host: &HostReport,
) -> (r: EnvironmentSnapshot)
    ensures
        r.profiler_version@ == PROFILER_VERSION@,
        r.os@ == host.os@ + " "@ + host.arch@,
        r@.cpu_brand == (match kept(host.cpu_brand@) {
            Some(brand) => Some(brand),
            None => match host.cpuinfo {
                Some(data) => brand_of(text::lines(data@)),
                None => None,
            },
        }),
        r.cpu_cores == host.cpu_cores,
        opt_nat(r.ram_total_mib) == (match host.meminfo {
            Some(data) => divided(last_keyed(text::lines(data@), "MemTotal:"@, seq![]), 1024),
            None => Some((host.total_memory / 0x10_0000) as nat),
        }),
        opt_nat(r.swap_total_mib) == (match host.meminfo {
            Some(data) => divided(
                last_keyed(text::lines(data@), "SwapTotal:"@, seq!["MemTotal:"@]),
                1024,
            ),
            None => Some((host.total_swap / 0x10_0000) as nat),
        }),
        views(r.gpus@) == reported_gpus(text::opt_text(host.nvidia_report)),
        r.gpu_backend@ == (if r.gpus@.len() == 0 {
            "unknown"@
        } else {
            "nvidia"@
        }),
        r.llama_server@ == server_of(
            executable@,
            text::opt_str(help),
            text::opt_text(host.resolved_path),
            text::opt_text(host.version_output),
        ),
{
    let (ram, swap) = match &host.meminfo {
        Some(data) => memory_totals(data.as_str()),
        None => (Some(host.total_memory / 1024 / 1024), Some(host.total_swap / 1024 / 1024)),
    };
    let gpus = match &host.nvidia_report {
        Some(report) => parse_gpus(report.as_str()),
        None => Vec::new(),
    };
    proof {
        assert(views(Seq::<GpuInfo>::empty()) =~= seq![]);
    }
    let brand = match non_empty(host.cpu_brand.as_str()) {
        Some(brand) => Some(brand),
        None => match &host.cpuinfo {
            Some(data) => cpu_brand(data.as_str()),
            None => None,
        },
    };
    let mut os = host.os.clone();
    os.append(" ");
    os.append(host.arch.as_str());
    EnvironmentSnapshot {
        profiler_version: PROFILER_VERSION.to_string(),
        os,
        cpu_brand: brand,
        cpu_cores: host.cpu_cores,
        ram_total_mib: ram,
        swap_total_mib: swap,
        gpu_backend: if gpus.len() == 0 {
            "unknown".to_string()
        } else {
            "nvidia".to_string()
        },
        gpus,
        llama_server: server_info(executable, help, &host.resolved_path, &host.version_output),
    }
}

} // verus!
