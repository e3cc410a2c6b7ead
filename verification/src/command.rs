//! Server commands: how a candidate is started, and how a saved command is
//! moved to another port.
use crate::gguf::GgufMetadata;
use crate::profile::{CandidateConfig, CandidateView};
use crate::text;
use vstd::prelude::*;

verus! {

/// How requests and servers are set up.
#[derive(Clone, Copy, Debug, Default, PartialEq, Eq, Structural)]
pub enum ProbeMode {
    #[default]
    Thinking,
    Generic,
}

/// What the server can do: its executable and what it prints when asked for
/// help.
#[derive(Debug)]
pub struct ServerCapabilities {
    pub executable: String,
    pub help: String,
}

/// What a model is told when it has thought for long enough.
pub const THINKING_BUDGET_MESSAGE: &'static str = "I should stop thinking and answer now.";

// ---------------------------------------------------------------------------
// Building commands

/// A flag, where the server knows it.
pub open spec fn single(help: Seq<char>, flag: Seq<char>) -> Seq<Seq<char>> {
    if text::occurs(help, flag) {
        seq![flag]
    } else {
        seq![]
    }
}

/// A flag and its value, where the server knows it.
pub open spec fn pair(help: Seq<char>, flag: Seq<char>, value: Seq<char>) -> Seq<Seq<char>> {
    if text::occurs(help, flag) {
        seq![flag, value]
    } else {
        seq![]
    }
}

/// A flag and its value, where there is one and the server knows the flag.
pub open spec fn number_pair(help: Seq<char>, flag: Seq<char>, value: Option<u64>) -> Seq<
    Seq<char>,
> {
    match value {
        Some(n) => pair(help, flag, text::decimal(n as nat)),
        None => seq![],
    }
}

/// The same, for a count.
pub open spec fn count_pair(help: Seq<char>, flag: Seq<char>, value: Option<usize>) -> Seq<
    Seq<char>,
> {
    match value {
        Some(n) => pair(help, flag, text::decimal(n as nat)),
        None => seq![],
    }
}

/// The first of two flags that the server knows, and its value.
pub open spec fn either_pair(
    help: Seq<char>,
    flag: Seq<char>,
    other: Seq<char>,
    value: Seq<char>,
) -> Seq<Seq<char>> {
    if text::occurs(help, flag) {
        seq![flag, value]
    } else {
        pair(help, other, value)
    }
}

/// The executable, the model, where to listen, and the context.
pub open spec fn essential_args(
    executable: Seq<char>,
    help: Seq<char>,
    model: Seq<char>,
    context: u64,
    port: u16,
) -> Seq<Seq<char>> {
    seq![executable] + (if text::occurs(help, "--model"@) {
        seq!["--model"@, model]
    } else {
        seq!["-m"@, model]
    }) + seq![
        "--host"@,
        "127.0.0.1"@,
        "--port"@,
        text::decimal(port as nat),
        "-c"@,
        text::decimal(context as nat),
    ]
}

/// The template, the number of slots, the memory fit and the attention kernel.
pub open spec fn fitting_args(help: Seq<char>, c: CandidateView) -> Seq<Seq<char>> {
    single(help, "--jinja"@) + pair(help, "-np"@, "1"@) + pair(help, "--fit"@, "on"@) + number_pair(
        help,
        "--fit-target"@,
        c.fit_target,
    ) + pair(help, "-fa"@, "on"@)
}

/// What makes the server let the model think.
pub open spec fn reasoning_args(help: Seq<char>) -> Seq<Seq<char>> {
    pair(help, "--reasoning"@, "on"@) + pair(help, "--reasoning-budget"@, "4096"@) + pair(
        help,
        "--chat-template-kwargs"@,
        "{\"enable_thinking\":true}"@,
    )
}

/// How tokens are sampled.
pub open spec fn sampling_args(help: Seq<char>) -> Seq<Seq<char>> {
    pair(help, "--temp"@, "0.6"@) + pair(help, "--top-p"@, "0.95"@) + pair(
        help,
        "--top-k"@,
        "20"@,
    ) + pair(help, "--min-p"@, "0.0"@) + pair(help, "--presence-penalty"@, "0.0"@) + pair(
        help,
        "--repeat-penalty"@,
        "1.0"@,
    )
}

/// What the model is told when it has thought for long enough.
pub open spec fn budget_message_args(help: Seq<char>) -> Seq<Seq<char>> {
    pair(help, "--reasoning-budget-message"@, THINKING_BUDGET_MESSAGE@)
}

/// The quantisation of the keys and of the values, which is that of the keys
/// where it is not given.
pub open spec fn cache_args(help: Seq<char>, c: CandidateView) -> Seq<Seq<char>> {
    match c.kv_cache {
        Some(k) => either_pair(help, "-ctk"@, "--cache-type-k"@, k) + either_pair(
            help,
            "-ctv"@,
            "--cache-type-v"@,
            match c.kv_cache_v {
                Some(v) => v,
                None => k,
            },
        ),
        None => seq![],
    }
}

/// The number of layers on the graphics processor.
pub open spec fn layer_args(help: Seq<char>, c: CandidateView) -> Seq<Seq<char>> {
    match c.gpu_layers {
        Some(n) => either_pair(help, "-ngl"@, "--n-gpu-layers"@, text::decimal(n as nat)),
        None => seq![],
    }
}

/// Whether every expert stays on the processor.
pub open spec fn expert_args(help: Seq<char>, c: CandidateView) -> Seq<Seq<char>> {
    if c.cpu_moe {
        single(help, "--cpu-moe"@)
    } else {
        seq![]
    }
}

/// Batches, caches, placement and threads.
pub open spec fn placement_args(help: Seq<char>, c: CandidateView) -> Seq<Seq<char>> {
    number_pair(help, "-b"@, c.batch) + number_pair(help, "-ub"@, c.ubatch) + cache_args(help, c)
        + layer_args(help, c) + expert_args(help, c) + number_pair(help, "--n-cpu-moe"@, c.n_cpu_moe) + count_pair(help, "--threads"@, c.threads)
        + count_pair(help, "--threads-batch"@, c.threads_batch)
}

/// Whether requests ask the model to think.
pub fn asks_for_thinking(mode: ProbeMode) -> (r: bool)
    ensures
        r == (mode == ProbeMode::Thinking),
{
    mode == ProbeMode::Thinking
}

/// The arguments of one mode only.
pub open spec fn in_mode(mode: ProbeMode, args: Seq<Seq<char>>) -> Seq<Seq<char>> {
    match mode {
        ProbeMode::Thinking => args,
        ProbeMode::Generic => seq![],
    }
}

/// The command that starts a candidate.
pub open spec fn command_of(
    executable: Seq<char>,
    help: Seq<char>,
    model: Seq<char>,
    c: CandidateView,
    port: u16,
    mode: ProbeMode,
) -> Seq<Seq<char>> {
    essential_args(executable, help, model, c.requested_context, port) + fitting_args(help, c)
        + in_mode(mode, reasoning_args(help)) + sampling_args(help) + in_mode(
        mode,
        budget_message_args(help),
    ) + placement_args(help, c)
}

impl ServerCapabilities {
    /// Whether the server knows a flag.
    pub fn supports(&self, flag: &str) -> (r: bool)
        ensures
            r == text::occurs(self.help@, flag@),
    {
        text::contains(self.help.as_str(), flag)
    }

    fn push_single(&self, args: &mut Vec<String>, flag: &str)
        ensures
            text::texts(final(args)@) == text::texts(old(args)@) + single(self.help@, flag@),
    {
        let ghost before = text::texts(args@);
        if self.supports(flag) {
            args.push(flag.to_string());
        }
        proof {
            assert(text::texts(args@) =~= before + single(self.help@, flag@));
        }
    }

    fn push_pair(&self, args: &mut Vec<String>, flag: &str, value: &str)
        ensures
            text::texts(final(args)@) == text::texts(old(args)@) + pair(
                self.help@,
                flag@,
                value@,
            ),
    {
        let ghost before = text::texts(args@);
        if self.supports(flag) {
            args.push(flag.to_string());
            args.push(value.to_string());
        }
        proof {
            assert(text::texts(args@) =~= before + pair(self.help@, flag@, value@));
        }
    }

    fn push_number(&self, args: &mut Vec<String>, flag: &str, value: Option<u64>)
        ensures
            text::texts(final(args)@) == text::texts(old(args)@) + number_pair(
                self.help@,
                flag@,
                value,
            ),
    {
        match value {
            Some(n) => self.push_pair(args, flag, text::number(n).as_str()),
            None => {
                proof {
                    assert(text::texts(args@) =~= text::texts(args@) + seq![]);
                }
            },
        }
    }

    fn push_count(&self, args: &mut Vec<String>, flag: &str, value: Option<usize>)
        ensures
            text::texts(final(args)@) == text::texts(old(args)@) + count_pair(
                self.help@,
                flag@,
                value,
            ),
    {
        match value {
            Some(n) => self.push_pair(args, flag, text::number(n as u64).as_str()),
            None => {
                proof {
                    assert(text::texts(args@) =~= text::texts(args@) + seq![]);
                }
            },
        }
    }

    fn push_either(&self, args: &mut Vec<String>, flag: &str, other: &str, value: &str)
        ensures
            text::texts(final(args)@) == text::texts(old(args)@) + either_pair(
                self.help@,
                flag@,
                other@,
                value@,
            ),
    {
        if self.supports(flag) {
            self.push_pair(args, flag, value);
        } else {
            self.push_pair(args, other, value);
        }
    }

    fn essentials(&self, model: &str, context: u64, port: u16) -> (r: Vec<String>)
        ensures
            text::texts(r@) == essential_args(self.executable@, self.help@, model@, context, port),
    {
        let mut args: Vec<String> = Vec::new();
        args.push(self.executable.clone());
        if self.supports("--model") {
            args.push("--model".to_string());
        } else {
            args.push("-m".to_string());
        }
        args.push(model.to_string());
        args.push("--host".to_string());
        args.push("127.0.0.1".to_string());
        args.push("--port".to_string());
        args.push(text::number(port as u64));
        args.push("-c".to_string());
        args.push(text::number(context));
        proof {
            assert(text::texts(args@) =~= essential_args(
                self.executable@,
                self.help@,
                model@,
                context,
                port,
            ));
        }
        args
    }

    fn push_fitting(&self, args: &mut Vec<String>, candidate: &CandidateConfig)
        ensures
            text::texts(final(args)@) == text::texts(old(args)@) + fitting_args(
                self.help@,
                candidate@,
            ),
    {
        let ghost before = text::texts(args@);
        self.push_single(args, "--jinja");
        self.push_pair(args, "-np", "1");
        self.push_pair(args, "--fit", "on");
        self.push_number(args, "--fit-target", candidate.fit_target);
        self.push_pair(args, "-fa", "on");
        proof {
            assert(text::texts(args@) =~= before + fitting_args(self.help@, candidate@));
        }
    }

    fn push_reasoning(&self, args: &mut Vec<String>)
        ensures
            text::texts(final(args)@) == text::texts(old(args)@) + reasoning_args(self.help@),
    {
        let ghost before = text::texts(args@);
        self.push_pair(args, "--reasoning", "on");
        self.push_pair(args, "--reasoning-budget", "4096");
        self.push_pair(args, "--chat-template-kwargs", "{\"enable_thinking\":true}");
        proof {
            assert(text::texts(args@) =~= before + reasoning_args(self.help@));
        }
    }

    fn push_sampling(&self, args: &mut Vec<String>)
        ensures
            text::texts(final(args)@) == text::texts(old(args)@) + sampling_args(self.help@),
    {
        let ghost before = text::texts(args@);
        self.push_pair(args, "--temp", "0.6");
        self.push_pair(args, "--top-p", "0.95");
        self.push_pair(args, "--top-k", "20");
        self.push_pair(args, "--min-p", "0.0");
        self.push_pair(args, "--presence-penalty", "0.0");
        self.push_pair(args, "--repeat-penalty", "1.0");
        proof {
            assert(text::texts(args@) =~= before + sampling_args(self.help@));
        }
    }

    fn push_cache(&self, args: &mut Vec<String>, candidate: &CandidateConfig)
        ensures
            text::texts(final(args)@) == text::texts(old(args)@) + cache_args(
                self.help@,
                candidate@,
            ),
    {
        let ghost before = text::texts(args@);
        if let Some(keys) = &candidate.kv_cache {
            self.push_either(args, "-ctk", "--cache-type-k", keys.as_str());
            match &candidate.kv_cache_v {
                Some(values) => self.push_either(args, "-ctv", "--cache-type-v", values.as_str()),
                None => self.push_either(args, "-ctv", "--cache-type-v", keys.as_str()),
            }
        }
        proof {
            assert(text::texts(args@) =~= before + cache_args(self.help@, candidate@));
        }
    }

    fn push_placement(&self, args: &mut Vec<String>, candidate: &CandidateConfig)
        ensures
            text::texts(final(args)@) == text::texts(old(args)@) + placement_args(
                self.help@,
                candidate@,
            ),
    {
        let ghost before = text::texts(args@);
        let ghost h = self.help@;
        let ghost c = candidate@;
        self.push_number(args, "-b", candidate.batch);
        let ghost mut done = number_pair(h, "-b"@, c.batch);
        self.push_number(args, "-ub", candidate.ubatch);
        proof {
            joined_on(before, done, number_pair(h, "-ub"@, c.ubatch));
            done = done + number_pair(h, "-ub"@, c.ubatch);
        }
        self.push_cache(args, candidate);
        proof {
            joined_on(before, done, cache_args(h, c));
            done = done + cache_args(h, c);
        }
        self.push_layers(args, candidate);
        proof {
            joined_on(before, done, layer_args(h, c));
            done = done + layer_args(h, c);
        }
        self.push_experts(args, candidate);
        proof {
            joined_on(before, done, expert_args(h, c));
            done = done + expert_args(h, c);
        }
        self.push_number(args, "--n-cpu-moe", candidate.n_cpu_moe);
        proof {
            joined_on(before, done, number_pair(h, "--n-cpu-moe"@, c.n_cpu_moe));
            done = done + number_pair(h, "--n-cpu-moe"@, c.n_cpu_moe);
        }
        self.push_count(args, "--threads", candidate.threads);
        proof {
            joined_on(before, done, count_pair(h, "--threads"@, c.threads));
            done = done + count_pair(h, "--threads"@, c.threads);
        }
        self.push_count(args, "--threads-batch", candidate.threads_batch);
        proof {
            joined_on(before, done, count_pair(h, "--threads-batch"@, c.threads_batch));
        }
    }

    fn push_layers(&self, args: &mut Vec<String>, candidate: &CandidateConfig)
        ensures
            text::texts(final(args)@) == text::texts(old(args)@) + layer_args(
                self.help@,
                candidate@,
            ),
    {
        match candidate.gpu_layers {
            Some(n) => self.push_either(args, "-ngl", "--n-gpu-layers", text::number(n).as_str()),
            None => {
                proof {
                    assert(text::texts(args@) =~= text::texts(args@) + seq![]);
                }
            },
        }
    }

    fn push_experts(&self, args: &mut Vec<String>, candidate: &CandidateConfig)
        ensures
            text::texts(final(args)@) == text::texts(old(args)@) + expert_args(
                self.help@,
                candidate@,
            ),
    {
        if candidate.cpu_moe {
            self.push_single(args, "--cpu-moe");
        } else {
            proof {
                assert(text::texts(args@) =~= text::texts(args@) + seq![]);
            }
        }
    }
}

proof fn joined_on(a: Seq<Seq<char>>, b: Seq<Seq<char>>, c: Seq<Seq<char>>)
    ensures
        (a + b) + c == a + (b + c),
{
    assert((a + b) + c =~= a + (b + c));
}

/// The command that starts a candidate.
pub fn build_command(
    capabilities: &ServerCapabilities,
    metadata: &GgufMetadata,
    candidate: &CandidateConfig,
    port: u16,
    probe_mode: ProbeMode,
) -> (r: Vec<String>)
    ensures
        text::texts(r@) == command_of(
            capabilities.executable@,
            capabilities.help@,
            metadata.path@,
            candidate@,
            port,
            probe_mode,
        ),
{
    let mut args = capabilities.essentials(
        metadata.path.as_str(),
        candidate.requested_context,
        port,
    );
    let ghost start = text::texts(args@);
    capabilities.push_fitting(&mut args, candidate);
    if probe_mode == ProbeMode::Thinking {
        capabilities.push_reasoning(&mut args);
    }
    capabilities.push_sampling(&mut args);
    if probe_mode == ProbeMode::Thinking {
        capabilities.push_pair(&mut args, "--reasoning-budget-message", THINKING_BUDGET_MESSAGE);
    }
    capabilities.push_placement(&mut args, candidate);
    proof {
        assert(text::texts(args@) =~= command_of(
            capabilities.executable@,
            capabilities.help@,
            metadata.path@,
            candidate@,
            port,
            probe_mode,
        ));
    }
    args
}

/// A generic command is a thinking command without the arguments that let the
/// model think: everything else is the same, in the same order.
pub proof fn generic_commands_omit_thinking(
    executable: Seq<char>,
    help: Seq<char>,
    model: Seq<char>,
    c: CandidateView,
    port: u16,
)
    ensures
        ({
            let head = essential_args(executable, help, model, c.requested_context, port)
                + fitting_args(help, c);
            let tail = placement_args(help, c);
            &&& command_of(executable, help, model, c, port, ProbeMode::Generic) == head
                + sampling_args(help) + tail
            &&& command_of(executable, help, model, c, port, ProbeMode::Thinking) == head
                + reasoning_args(help) + sampling_args(help) + budget_message_args(help) + tail
        }),
{
    let head = essential_args(executable, help, model, c.requested_context, port) + fitting_args(
        help,
        c,
    );
    assert(command_of(executable, help, model, c, port, ProbeMode::Generic) =~= head
        + sampling_args(help) + placement_args(help, c));
}

// ---------------------------------------------------------------------------
// Ports

/// `i` holds the flag for the port, and a value follows it.
pub open spec fn port_flag_at(command: Seq<Seq<char>>, i: int) -> bool {
    0 <= i && i + 1 < command.len() && command[i] == "--port"@
}

/// The first flag for the port that a value follows.
pub open spec fn first_port_flag(command: Seq<Seq<char>>, from: nat) -> Option<int>
    decreases command.len() - from,
{
    if from >= command.len() {
        None
    } else if port_flag_at(command, from as int) {
        Some(from as int)
    } else {
        first_port_flag(command, from + 1)
    }
}

/// The port that a command asks for.
pub open spec fn port_of(command: Seq<Seq<char>>) -> Option<Seq<char>> {
    match first_port_flag(command, 0) {
        Some(i) => Some(command[i + 1]),
        None => None,
    }
}

/// The command with another port: in place of the one that it asks for, or at
/// its end.
pub open spec fn with_port(command: Seq<Seq<char>>, port: Seq<char>) -> Seq<Seq<char>> {
    match first_port_flag(command, 0) {
        Some(i) => command.update(i + 1, port),
        None => command + seq!["--port"@, port],
    }
}

/// The command with another port.
pub fn command_with_port(command: &Vec<String>, port: u16) -> (r: Vec<String>)
    ensures
        text::texts(r@) == with_port(text::texts(command@), text::decimal(port as nat)),
{
    let ghost all = text::texts(command@);
    let mut r = text::copy_texts(command);
    let value = text::number(port as u64);
    proof {
        assert(text::texts(r@).len() == r@.len());
    }
    for i in 0..command.len()
        invariant
            all == text::texts(command@),
            text::texts(r@) == all,
            r@.len() == all.len(),
            value@ == text::decimal(port as nat),
            first_port_flag(all, 0) == first_port_flag(all, i as nat),
    {
        if text::same_text(command[i].as_str(), "--port") && i < command.len() - 1 {
            r.set(i + 1, value);
            proof {
                assert(text::texts(r@) =~= all.update(i + 1, value@));
            }
            return r;
        }
    }
    r.push("--port".to_string());
    r.push(value);
    proof {
        assert(text::texts(r@) =~= all + seq!["--port"@, text::decimal(port as nat)]);
    }
    r
}

proof fn first_port_flag_bounds(command: Seq<Seq<char>>, from: nat)
    ensures
        first_port_flag(command, from) matches Some(i) ==> from <= i && port_flag_at(command, i)
            && forall|j: int| from <= j < i ==> !port_flag_at(command, j),
        first_port_flag(command, from) is None ==> forall|j: int|
            from <= j ==> !port_flag_at(command, j),
    decreases command.len() - from,
{
    if from < command.len() && !port_flag_at(command, from as int) {
        first_port_flag_bounds(command, from + 1);
    }
}

proof fn first_port_flag_is(command: Seq<Seq<char>>, from: nat, i: int)
    requires
        from <= i,
        port_flag_at(command, i),
        forall|j: int| from <= j < i ==> !port_flag_at(command, j),
    ensures
        first_port_flag(command, from) == Some(i),
    decreases i - from,
{
    if from < i {
        first_port_flag_is(command, from + 1, i);
    }
}

/// A command that was moved to a port asks for that port, and moving it there
/// again changes nothing. A flag for the port at its very end, with no value,
/// is left out.
pub proof fn moved_commands_ask_for_their_port(command: Seq<Seq<char>>, number: u16)
    requires
        first_port_flag(command, 0) is Some || command.len() == 0 || command.last() != "--port"@,
    ensures
        ({
            let port = text::decimal(number as nat);
            &&& port_of(with_port(command, port)) == Some(port)
            &&& with_port(with_port(command, port), port) == with_port(command, port)
        }),
{
    let port = text::decimal(number as nat);
    text::decimal_reads_back(number as nat);
    reveal_strlit("--port");
    assert(text::is_digit(port[0]));
    assert(port != "--port"@);
    first_port_flag_bounds(command, 0);
    let moved = with_port(command, port);
    match first_port_flag(command, 0) {
        Some(i) => {
            assert forall|j: int| 0 <= j < i implies !port_flag_at(moved, j) by {
                assert(!port_flag_at(command, j));
            }
            first_port_flag_is(moved, 0, i);
            assert(moved.update(i + 1, port) =~= moved);
        },
        None => {
            let i = command.len() as int;
            assert forall|j: int| 0 <= j < i implies !port_flag_at(moved, j) by {
                assert(!port_flag_at(command, j));
                if j == i - 1 {
                    assert(moved[j] == command.last());
                }
            }
            first_port_flag_is(moved, 0, i);
            assert(moved.update(i + 1, port) =~= moved);
        },
    }
}

/// Of two moves the last one counts. A flag for the port at the very end of the
/// command, with no value, is left out.
pub proof fn the_last_move_counts(command: Seq<Seq<char>>, first: u16, last: u16)
    requires
        first_port_flag(command, 0) is Some || command.len() == 0 || command.last() != "--port"@,
    ensures
        with_port(with_port(command, text::decimal(first as nat)), text::decimal(last as nat))
            == with_port(command, text::decimal(last as nat)),
{
    let a = text::decimal(first as nat);
    let b = text::decimal(last as nat);
    text::decimal_reads_back(first as nat);
    reveal_strlit("--port");
    assert(text::is_digit(a[0]));
    assert(a != "--port"@);
    first_port_flag_bounds(command, 0);
    let moved = with_port(command, a);
    let i = match first_port_flag(command, 0) {
        Some(i) => i,
        None => command.len() as int,
    };
    assert forall|j: int| 0 <= j < i implies !port_flag_at(moved, j) by {
        assert(!port_flag_at(command, j));
        if j == command.len() - 1 {
            assert(moved[j] == command.last());
        }
    }
    first_port_flag_is(moved, 0, i);
    assert(moved.update(i + 1, b) =~= with_port(command, b));
}

/// Moving a command to a port changes nothing but the port that it asks for.
pub proof fn moving_keeps_the_rest(command: Seq<Seq<char>>, port: Seq<char>, j: int)
    requires
        0 <= j < command.len(),
        first_port_flag(command, 0) matches Some(i) ==> j != i + 1,
    ensures
        with_port(command, port).len() >= command.len(),
        with_port(command, port)[j] == command[j],
{
    first_port_flag_bounds(command, 0);
}

/// A built command asks for the port that it was built for, unless the
/// executable or the model is named like the flag for the port.
pub proof fn built_commands_ask_for_their_port(
    executable: Seq<char>,
    help: Seq<char>,
    model: Seq<char>,
    c: CandidateView,
    port: u16,
    mode: ProbeMode,
)
    requires
        executable != "--port"@,
        model != "--port"@,
    ensures
        port_of(command_of(executable, help, model, c, port, mode)) == Some(
            text::decimal(port as nat),
        ),
{
    let command = command_of(executable, help, model, c, port, mode);
    reveal_strlit("--port");
    reveal_strlit("--model");
    reveal_strlit("-m");
    reveal_strlit("--host");
    reveal_strlit("127.0.0.1");
    let start = essential_args(executable, help, model, c.requested_context, port);
    assert(forall|j: int| 0 <= j < start.len() ==> command[j] == start[j]);
    assert(start[0] == executable);
    assert(start[1] == (if text::occurs(help, "--model"@) {
        "--model"@
    } else {
        "-m"@
    }));
    assert(start[2] == model);
    assert(start[3] == "--host"@ && start[4] == "127.0.0.1"@);
    assert(start[5] == "--port"@ && start[6] == text::decimal(port as nat));
    assert("--host"@[2] != "--port"@[2]);
    assert("--model"@.len() != "--port"@.len());
    assert("-m"@.len() != "--port"@.len());
    assert("127.0.0.1"@.len() != "--port"@.len());
    first_port_flag_is(command, 0, 5);
}

// ---------------------------------------------------------------------------
// What a command says

/// The command says `value` with a flag: the flag stands in it once, with the
/// value behind it. It does not say anything with it where there is no value.
#[verifier::opaque]
pub open spec fn says(command: Seq<Seq<char>>, flag: Seq<char>, value: Option<Seq<char>>) -> bool {
    match value {
        Some(v) => exists|i: int|
            {
                &&& 0 <= i
                &&& i + 1 < command.len()
                &&& #[trigger] command[i] == flag
                &&& command[i + 1] == v
                &&& forall|j: int|
                    0 <= j < command.len() && #[trigger] command[j] == flag ==> j == i
            },
        None => forall|j: int| 0 <= j < command.len() ==> #[trigger] command[j] != flag,
    }
}

/// The command holds a flag.
#[verifier::opaque]
pub open spec fn holds(command: Seq<Seq<char>>, flag: Seq<char>) -> bool {
    exists|i: int| 0 <= i < command.len() && #[trigger] command[i] == flag
}

/// The number in words, where the server knows the flag for it.
pub open spec fn told(help: Seq<char>, flag: Seq<char>, value: Option<u64>) -> Option<Seq<char>> {
    if text::occurs(help, flag) && value is Some {
        Some(text::decimal(value->0 as nat))
    } else {
        None
    }
}

/// A word that could be taken for a flag.
pub open spec fn dashed(word: Seq<char>) -> bool {
    word.len() > 0 && word[0] == '-'
}

/// The flags, each with a number.
spec fn flag_at(n: int) -> Seq<char> {
    if n == 1 {
        "--model"@
    } else if n == 2 {
        "--host"@
    } else if n == 3 {
        "--port"@
    } else if n == 4 {
        "-c"@
    } else if n == 5 {
        "--jinja"@
    } else if n == 6 {
        "-np"@
    } else if n == 7 {
        "--fit"@
    } else if n == 8 {
        "--fit-target"@
    } else if n == 9 {
        "-fa"@
    } else if n == 10 {
        "--reasoning"@
    } else if n == 11 {
        "--reasoning-budget"@
    } else if n == 12 {
        "--chat-template-kwargs"@
    } else if n == 13 {
        "--temp"@
    } else if n == 14 {
        "--top-p"@
    } else if n == 15 {
        "--top-k"@
    } else if n == 16 {
        "--min-p"@
    } else if n == 17 {
        "--presence-penalty"@
    } else if n == 18 {
        "--repeat-penalty"@
    } else if n == 19 {
        "--reasoning-budget-message"@
    } else if n == 20 {
        "-b"@
    } else if n == 21 {
        "-ub"@
    } else if n == 22 {
        "-ctk"@
    } else if n == 23 {
        "-ctv"@
    } else if n == 24 {
        "-ngl"@
    } else if n == 25 {
        "--cpu-moe"@
    } else if n == 26 {
        "--n-cpu-moe"@
    } else if n == 27 {
        "--threads"@
    } else if n == 28 {
        "--threads-batch"@
    } else if n == 29 {
        "-m"@
    } else if n == 30 {
        "--cache-type-k"@
    } else if n == 31 {
        "--cache-type-v"@
    } else if n == 32 {
        "--n-gpu-layers"@
    } else {
        seq![]
    }
}

proof fn flags_differ(a: int, b: int)
    requires
        1 <= a <= 32,
        1 <= b <= 32,
        flag_at(a) == flag_at(b),
    ensures
        a == b,
{
    reveal_strlit("--model");
    reveal_strlit("--host");
    reveal_strlit("--port");
    reveal_strlit("-c");
    reveal_strlit("--jinja");
    reveal_strlit("-np");
    reveal_strlit("--fit");
    reveal_strlit("--fit-target");
    reveal_strlit("-fa");
    reveal_strlit("--reasoning");
    reveal_strlit("--reasoning-budget");
    reveal_strlit("--chat-template-kwargs");
    reveal_strlit("--temp");
    reveal_strlit("--top-p");
    reveal_strlit("--top-k");
    reveal_strlit("--min-p");
    reveal_strlit("--presence-penalty");
    reveal_strlit("--repeat-penalty");
    reveal_strlit("--reasoning-budget-message");
    reveal_strlit("-b");
    reveal_strlit("-ub");
    reveal_strlit("-ctk");
    reveal_strlit("-ctv");
    reveal_strlit("-ngl");
    reveal_strlit("--cpu-moe");
    reveal_strlit("--n-cpu-moe");
    reveal_strlit("--threads");
    reveal_strlit("--threads-batch");
    reveal_strlit("-m");
    reveal_strlit("--cache-type-k");
    reveal_strlit("--cache-type-v");
    reveal_strlit("--n-gpu-layers");
    let s = flag_at(a);
    let u = flag_at(b);
    assert(s.len() == u.len());
    assert(s[1] == u[1] && s[2] == u[2] && s[3] == u[3] && s[4] == u[4]);
    assert(s[6] == u[6] && s[13] == u[13]);
}

/// Every flag starts with a dash.
proof fn flags_are_dashed(n: int)
    requires
        1 <= n <= 32,
    ensures
        dashed(flag_at(n)),
{
    reveal_strlit("--model");
    reveal_strlit("--host");
    reveal_strlit("--port");
    reveal_strlit("-c");
    reveal_strlit("--jinja");
    reveal_strlit("-np");
    reveal_strlit("--fit");
    reveal_strlit("--fit-target");
    reveal_strlit("-fa");
    reveal_strlit("--reasoning");
    reveal_strlit("--reasoning-budget");
    reveal_strlit("--chat-template-kwargs");
    reveal_strlit("--temp");
    reveal_strlit("--top-p");
    reveal_strlit("--top-k");
    reveal_strlit("--min-p");
    reveal_strlit("--presence-penalty");
    reveal_strlit("--repeat-penalty");
    reveal_strlit("--reasoning-budget-message");
    reveal_strlit("-b");
    reveal_strlit("-ub");
    reveal_strlit("-ctk");
    reveal_strlit("-ctv");
    reveal_strlit("-ngl");
    reveal_strlit("--cpu-moe");
    reveal_strlit("--n-cpu-moe");
    reveal_strlit("--threads");
    reveal_strlit("--threads-batch");
    reveal_strlit("-m");
    reveal_strlit("--cache-type-k");
    reveal_strlit("--cache-type-v");
    reveal_strlit("--n-gpu-layers");
}

/// The words that are given with flags whatever the candidate.
proof fn words_are_plain()
    ensures
        !dashed("127.0.0.1"@),
        !dashed("1"@),
        !dashed("on"@),
        !dashed("4096"@),
        !dashed("{\"enable_thinking\":true}"@),
        !dashed("0.6"@),
        !dashed("0.95"@),
        !dashed("20"@),
        !dashed("0.0"@),
        !dashed("1.0"@),
        !dashed(THINKING_BUDGET_MESSAGE@),
        forall|n: nat| !dashed(#[trigger] text::decimal(n)),
{
    reveal_strlit("127.0.0.1");
    reveal_strlit("1");
    reveal_strlit("on");
    reveal_strlit("4096");
    reveal_strlit("{\"enable_thinking\":true}");
    reveal_strlit("0.6");
    reveal_strlit("0.95");
    reveal_strlit("20");
    reveal_strlit("0.0");
    reveal_strlit("1.0");
    reveal_strlit("I should stop thinking and answer now.");
    assert forall|n: nat| !dashed(#[trigger] text::decimal(n)) by {
        text::decimal_reads_back(n);
        assert(text::is_digit(text::decimal(n)[0]));
    }
}

/// The parts of a command, one for each flag.
spec fn parts(
    executable: Seq<char>,
    help: Seq<char>,
    model: Seq<char>,
    c: CandidateView,
    port: u16,
    mode: ProbeMode,
) -> Seq<Seq<Seq<char>>> {
    seq![
        seq![executable],
        if text::occurs(help, "--model"@) {
            seq!["--model"@, model]
        } else {
            seq!["-m"@, model]
        },
        seq!["--host"@, "127.0.0.1"@],
        seq!["--port"@, text::decimal(port as nat)],
        seq!["-c"@, text::decimal(c.requested_context as nat)],
        single(help, "--jinja"@),
        pair(help, "-np"@, "1"@),
        pair(help, "--fit"@, "on"@),
        number_pair(help, "--fit-target"@, c.fit_target),
        pair(help, "-fa"@, "on"@),
        in_mode(mode, pair(help, "--reasoning"@, "on"@)),
        in_mode(mode, pair(help, "--reasoning-budget"@, "4096"@)),
        in_mode(mode, pair(help, "--chat-template-kwargs"@, "{\"enable_thinking\":true}"@)),
        pair(help, "--temp"@, "0.6"@),
        pair(help, "--top-p"@, "0.95"@),
        pair(help, "--top-k"@, "20"@),
        pair(help, "--min-p"@, "0.0"@),
        pair(help, "--presence-penalty"@, "0.0"@),
        pair(help, "--repeat-penalty"@, "1.0"@),
        in_mode(mode, pair(help, "--reasoning-budget-message"@, THINKING_BUDGET_MESSAGE@)),
        number_pair(help, "-b"@, c.batch),
        number_pair(help, "-ub"@, c.ubatch),
        match c.kv_cache {
            Some(k) => either_pair(help, "-ctk"@, "--cache-type-k"@, k),
            None => seq![],
        },
        match c.kv_cache {
            Some(k) => either_pair(
                help,
                "-ctv"@,
                "--cache-type-v"@,
                match c.kv_cache_v {
                    Some(v) => v,
                    None => k,
                },
            ),
            None => seq![],
        },
        layer_args(help, c),
        expert_args(help, c),
        number_pair(help, "--n-cpu-moe"@, c.n_cpu_moe),
        count_pair(help, "--threads"@, c.threads),
        count_pair(help, "--threads-batch"@, c.threads_batch),
    ]
}

/// The parts one after the other.
spec fn flat(parts: Seq<Seq<Seq<char>>>) -> Seq<Seq<char>>
    decreases parts.len(),
{
    if parts.len() == 0 {
        seq![]
    } else {
        flat(parts.drop_last()) + parts.last()
    }
}

/// Where part `k` starts.
spec fn start_of(parts: Seq<Seq<Seq<char>>>, k: int) -> int
    decreases k,
{
    if k <= 0 {
        0
    } else {
        start_of(parts, k - 1) + parts[k - 1].len()
    }
}

proof fn part_in_flat(parts: Seq<Seq<Seq<char>>>, n: nat, k: int)
    requires
        0 <= k < n <= parts.len(),
    ensures
        0 <= start_of(parts, k),
        start_of(parts, k) + parts[k].len() <= flat(parts.take(n as int)).len(),
        flat(parts.take(n as int)).len() == start_of(parts, n as int),
        forall|i: int|
            0 <= i < parts[k].len() ==> #[trigger] flat(parts.take(n as int))[start_of(parts, k) + i]
                == parts[k][i],
    decreases n,
{
    let here = parts.take(n as int);
    assert(here.drop_last() =~= parts.take(n - 1));
    assert(here.last() == parts[n - 1]);
    if n == 1 {
        assert(parts.take(0) =~= seq![]);
        assert(flat(parts.take(0)).len() == 0);
    } else {
        part_in_flat(parts, (n - 1) as nat, if k < n - 1 { k } else { 0 });
    }
    if k < n - 1 {
        let before = flat(parts.take(n - 1));
        assert forall|i: int| 0 <= i < parts[k].len() implies #[trigger] flat(here)[start_of(parts, k)
            + i] == parts[k][i] by {
            assert(before[start_of(parts, k) + i] == parts[k][i]);
        }
    }
}

proof fn flat_comes_from(parts: Seq<Seq<Seq<char>>>, n: nat, j: int) -> (k: int)
    requires
        n <= parts.len(),
        0 <= j < flat(parts.take(n as int)).len(),
    ensures
        0 <= k < n,
        start_of(parts, k) <= j < start_of(parts, k) + parts[k].len(),
        flat(parts.take(n as int))[j] == parts[k][j - start_of(parts, k)],
    decreases n,
{
    let here = parts.take(n as int);
    if n == 0 {
        assert(here =~= seq![]);
        0
    } else {
        assert(here.drop_last() =~= parts.take(n - 1));
        assert(here.last() == parts[n - 1]);
        let before = flat(parts.take(n - 1));
        if j < before.len() {
            flat_comes_from(parts, (n - 1) as nat, j)
        } else {
            part_in_flat(parts, n, n - 1);
            n - 1
        }
    }
}

proof fn flat_1(a: Seq<Seq<char>>)
    ensures
        flat(seq![a]) == a,
{
    let all = seq![a];
    assert(all.drop_last() =~= seq![]);
    assert(flat(seq![]) =~= seq![]);
    assert(flat(all) =~= a);
}

proof fn flat_2(a: Seq<Seq<char>>, b: Seq<Seq<char>>)
    ensures
        flat(seq![a, b]) == a + b,
{
    let all = seq![a, b];
    assert(all.drop_last() =~= seq![a]);
    flat_1(a);
}

proof fn flat_3(a: Seq<Seq<char>>, b: Seq<Seq<char>>, c: Seq<Seq<char>>)
    ensures
        flat(seq![a, b, c]) == a + b + c,
{
    let all = seq![a, b, c];
    assert(all.drop_last() =~= seq![a, b]);
    flat_2(a, b);
}

proof fn flat_4(a: Seq<Seq<char>>, b: Seq<Seq<char>>, c: Seq<Seq<char>>, d: Seq<Seq<char>>)
    ensures
        flat(seq![a, b, c, d]) == a + b + c + d,
{
    let all = seq![a, b, c, d];
    assert(all.drop_last() =~= seq![a, b, c]);
    flat_3(a, b, c);
}

proof fn flat_5(a: Seq<Seq<char>>, b: Seq<Seq<char>>, c: Seq<Seq<char>>, d: Seq<Seq<char>>, e: Seq<Seq<char>>)
    ensures
        flat(seq![a, b, c, d, e]) == a + b + c + d + e,
{
    let all = seq![a, b, c, d, e];
    assert(all.drop_last() =~= seq![a, b, c, d]);
    flat_4(a, b, c, d);
}

proof fn flat_6(a: Seq<Seq<char>>, b: Seq<Seq<char>>, c: Seq<Seq<char>>, d: Seq<Seq<char>>, e: Seq<Seq<char>>, f: Seq<Seq<char>>)
    ensures
        flat(seq![a, b, c, d, e, f]) == a + b + c + d + e + f,
{
    let all = seq![a, b, c, d, e, f];
    assert(all.drop_last() =~= seq![a, b, c, d, e]);
    flat_5(a, b, c, d, e);
}

proof fn flat_7(a: Seq<Seq<char>>, b: Seq<Seq<char>>, c: Seq<Seq<char>>, d: Seq<Seq<char>>, e: Seq<Seq<char>>, f: Seq<Seq<char>>, g: Seq<Seq<char>>)
    ensures
        flat(seq![a, b, c, d, e, f, g]) == a + b + c + d + e + f + g,
{
    let all = seq![a, b, c, d, e, f, g];
    assert(all.drop_last() =~= seq![a, b, c, d, e, f]);
    flat_6(a, b, c, d, e, f);
}

proof fn flat_8(a: Seq<Seq<char>>, b: Seq<Seq<char>>, c: Seq<Seq<char>>, d: Seq<Seq<char>>, e: Seq<Seq<char>>, f: Seq<Seq<char>>, g: Seq<Seq<char>>, h: Seq<Seq<char>>)
    ensures
        flat(seq![a, b, c, d, e, f, g, h]) == a + b + c + d + e + f + g + h,
{
    let all = seq![a, b, c, d, e, f, g, h];
    assert(all.drop_last() =~= seq![a, b, c, d, e, f, g]);
    flat_7(a, b, c, d, e, f, g);
}

proof fn flat_9(a: Seq<Seq<char>>, b: Seq<Seq<char>>, c: Seq<Seq<char>>, d: Seq<Seq<char>>, e: Seq<Seq<char>>, f: Seq<Seq<char>>, g: Seq<Seq<char>>, h: Seq<Seq<char>>, i: Seq<Seq<char>>)
    ensures
        flat(seq![a, b, c, d, e, f, g, h, i]) == a + b + c + d + e + f + g + h + i,
{
    let all = seq![a, b, c, d, e, f, g, h, i];
    assert(all.drop_last() =~= seq![a, b, c, d, e, f, g, h]);
    flat_8(a, b, c, d, e, f, g, h);
}

proof fn flat_joins(a: Seq<Seq<Seq<char>>>, b: Seq<Seq<Seq<char>>>)
    ensures
        flat(a + b) == flat(a) + flat(b),
    decreases b.len(),
{
    if b.len() == 0 {
        assert(a + b =~= a);
        assert(flat(b) =~= seq![]);
        assert(flat(a) + flat(b) =~= flat(a));
    } else {
        let shorter = b.drop_last();
        flat_joins(a, shorter);
        assert((a + b).drop_last() =~= a + shorter);
        assert(flat(a) + flat(b) =~= flat(a) + flat(shorter) + b.last());
    }
}

proof fn command_is_flat(
    executable: Seq<char>,
    help: Seq<char>,
    model: Seq<char>,
    c: CandidateView,
    port: u16,
    mode: ProbeMode,
)
    ensures
        command_of(executable, help, model, c, port, mode) == flat(
            parts(executable, help, model, c, port, mode),
        ),
{
    let p = parts(executable, help, model, c, port, mode);
    let a = seq![p[0], p[1], p[2], p[3], p[4]];
    let b = seq![p[5], p[6], p[7], p[8], p[9]];
    let r = seq![p[10], p[11], p[12]];
    let s = seq![p[13], p[14], p[15], p[16], p[17], p[18]];
    let m = seq![p[19]];
    let t = seq![p[20], p[21], p[22], p[23], p[24], p[25], p[26], p[27], p[28]];
    flat_5(p[0], p[1], p[2], p[3], p[4]);
    flat_5(p[5], p[6], p[7], p[8], p[9]);
    flat_3(p[10], p[11], p[12]);
    flat_6(p[13], p[14], p[15], p[16], p[17], p[18]);
    flat_1(p[19]);
    flat_9(p[20], p[21], p[22], p[23], p[24], p[25], p[26], p[27], p[28]);
    flat_joins(a, b);
    flat_joins(a + b, r);
    flat_joins(a + b + r, s);
    flat_joins(a + b + r + s, m);
    flat_joins(a + b + r + s + m, t);
    assert(p =~= a + b + r + s + m + t);
    essentials_are_flat(executable, help, model, c, port, mode);
    assert(flat(b) =~= fitting_args(help, c));
    assert(flat(r) =~= in_mode(mode, reasoning_args(help)));
    assert(flat(s) =~= sampling_args(help));
    assert(flat(m) =~= in_mode(mode, budget_message_args(help)));
    let (x, y) = (p[22], p[23]);
    assert(cache_args(help, c) =~= x + y);
    assert(flat(t) =~= placement_args(help, c)) by {
        let z = p[20] + p[21];
        assert(z + x + y =~= z + (x + y));
    }
}

proof fn essentials_are_flat(
    executable: Seq<char>,
    help: Seq<char>,
    model: Seq<char>,
    c: CandidateView,
    port: u16,
    mode: ProbeMode,
)
    ensures
        ({
            let p = parts(executable, help, model, c, port, mode);
            p[0] + p[1] + p[2] + p[3] + p[4] == essential_args(
                executable,
                help,
                model,
                c.requested_context,
                port,
            )
        }),
{
    let p = parts(executable, help, model, c, port, mode);
    assert(p[0] + p[1] + p[2] + p[3] + p[4] =~= essential_args(
        executable,
        help,
        model,
        c.requested_context,
        port,
    ));
}

/// A word of part `k` that is a flag is one of those that the part is for.
proof fn part_words(
    executable: Seq<char>,
    help: Seq<char>,
    model: Seq<char>,
    c: CandidateView,
    port: u16,
    mode: ProbeMode,
    k: int,
    i: int,
    n: int,
)
    requires
        0 <= k < 29,
        1 <= n <= 32,
        !dashed(executable),
        !dashed(model),
        c.kv_cache matches Some(t) ==> !dashed(t),
        c.kv_cache_v matches Some(t) ==> !dashed(t),
        0 <= i < parts(executable, help, model, c, port, mode)[k].len(),
        parts(executable, help, model, c, port, mode)[k][i] == flag_at(n),
    ensures
        i == 0,
        n == k || (k == 1 && n == 29) || (k == 22 && n == 30) || (k == 23 && n == 31) || (k == 24
            && n == 32),
{
    flags_are_dashed(n);
    words_are_plain();
    let word = parts(executable, help, model, c, port, mode)[k][i];
    if k == 0 {
        assert(word == executable);
    } else {
        let own = if word == flag_at(k) {
            k
        } else if k == 1 {
            29
        } else if k == 22 {
            30
        } else if k == 23 {
            31
        } else {
            32
        };
        assert(word == flag_at(own));
        flags_differ(n, own);
    }
}

/// What is found of flag `n` in a command, given the part that it is for.
proof fn flag_is_said(
    executable: Seq<char>,
    help: Seq<char>,
    model: Seq<char>,
    c: CandidateView,
    port: u16,
    mode: ProbeMode,
    k: int,
    n: int,
)
    requires
        1 <= k < 29,
        n == k || (k == 1 && n == 29) || (k == 22 && n == 30) || (k == 23 && n == 31) || (k == 24
            && n == 32),
        !dashed(executable),
        !dashed(model),
        c.kv_cache matches Some(t) ==> !dashed(t),
        c.kv_cache_v matches Some(t) ==> !dashed(t),
    ensures
        ({
            let command = command_of(executable, help, model, c, port, mode);
            let part = parts(executable, help, model, c, port, mode)[k];
            &&& part.len() == 2 && part[0] == flag_at(n) ==> says(
                command,
                flag_at(n),
                Some(part[1]),
            )
            &&& part.len() == 0 || part[0] != flag_at(n) ==> says(command, flag_at(n), None)
                && !holds(command, flag_at(n))
            &&& part.len() > 0 && part[0] == flag_at(n) ==> holds(command, flag_at(n))
        }),
{
    reveal(says);
    reveal(holds);
    let command = command_of(executable, help, model, c, port, mode);
    let p = parts(executable, help, model, c, port, mode);
    let flag = flag_at(n);
    command_is_flat(executable, help, model, c, port, mode);
    assert(p.take(29) =~= p);
    part_in_flat(p, 29, k);
    let at = start_of(p, k);
    assert forall|j: int| 0 <= j < command.len() && #[trigger] command[j] == flag implies j == at
        && p[k].len() > 0 && p[k][0] == flag by {
        let m = flat_comes_from(p, 29, j);
        part_words(executable, help, model, c, port, mode, m, j - start_of(p, m), n);
    }
    if p[k].len() > 0 {
        assert(command[at + 0] == p[k][0]);
    }
    if p[k].len() == 2 && p[k][0] == flag {
        assert(command[at + 1] == p[k][1]);
        assert(says(command, flag, Some(p[k][1])));
    }
}

/// A command says what it is built for: the model, where to listen, and for
/// each setting of the candidate its value with its flag, once, where the
/// server knows the flag and the candidate has the setting, and otherwise
/// nothing. The executable, the model and the names of the caches do not start
/// with a dash.
pub proof fn commands_say_what_they_are_for(
    executable: Seq<char>,
    help: Seq<char>,
    model: Seq<char>,
    c: CandidateView,
    port: u16,
    mode: ProbeMode,
)
    requires
        !dashed(executable),
        !dashed(model),
        c.kv_cache matches Some(t) ==> !dashed(t),
        c.kv_cache_v matches Some(t) ==> !dashed(t),
    ensures
        ({
            let command = command_of(executable, help, model, c, port, mode);
            &&& command.len() > 0 && command[0] == executable
            &&& text::occurs(help, "--model"@) ==> says(command, "--model"@, Some(model)) && says(
                command,
                "-m"@,
                None,
            )
            &&& !text::occurs(help, "--model"@) ==> says(command, "-m"@, Some(model)) && says(
                command,
                "--model"@,
                None,
            )
            &&& says(command, "--host"@, Some("127.0.0.1"@))
            &&& says(command, "--port"@, Some(text::decimal(port as nat)))
            &&& says(command, "-c"@, Some(text::decimal(c.requested_context as nat)))
            &&& says(command, "--fit-target"@, told(help, "--fit-target"@, c.fit_target))
            &&& says(command, "-b"@, told(help, "-b"@, c.batch))
            &&& says(command, "-ub"@, told(help, "-ub"@, c.ubatch))
            &&& says(command, "--n-cpu-moe"@, told(help, "--n-cpu-moe"@, c.n_cpu_moe))
            &&& says(command, "-ngl"@, told(help, "-ngl"@, c.gpu_layers))
            &&& says(
                command,
                "--n-gpu-layers"@,
                if text::occurs(help, "-ngl"@) {
                    None
                } else {
                    told(help, "--n-gpu-layers"@, c.gpu_layers)
                },
            )
            &&& c.threads is Some && text::occurs(help, "--threads"@) ==> says(
                command,
                "--threads"@,
                Some(text::decimal(c.threads->0 as nat)),
            )
            &&& c.threads is None || !text::occurs(help, "--threads"@) ==> says(
                command,
                "--threads"@,
                None,
            )
            &&& c.threads_batch is Some && text::occurs(help, "--threads-batch"@) ==> says(
                command,
                "--threads-batch"@,
                Some(text::decimal(c.threads_batch->0 as nat)),
            )
            &&& c.threads_batch is None || !text::occurs(help, "--threads-batch"@) ==> says(
                command,
                "--threads-batch"@,
                None,
            )
            &&& holds(command, "--cpu-moe"@) == (c.cpu_moe && text::occurs(help, "--cpu-moe"@))
            &&& holds(command, "--jinja"@) == text::occurs(help, "--jinja"@)
        }),
{
    let command = command_of(executable, help, model, c, port, mode);
    let p = parts(executable, help, model, c, port, mode);
    command_is_flat(executable, help, model, c, port, mode);
    assert(p.take(29) =~= p);
    part_in_flat(p, 29, 0);
    assert(command[start_of(p, 0) + 0] == p[0][0]);
    flag_is_said(executable, help, model, c, port, mode, 1, 1);
    flag_is_said(executable, help, model, c, port, mode, 1, 29);
    if flag_at(1) == flag_at(29) {
        flags_differ(1, 29);
    }
    flag_is_said(executable, help, model, c, port, mode, 2, 2);
    flag_is_said(executable, help, model, c, port, mode, 3, 3);
    flag_is_said(executable, help, model, c, port, mode, 4, 4);
    flag_is_said(executable, help, model, c, port, mode, 5, 5);
    flag_is_said(executable, help, model, c, port, mode, 8, 8);
    flag_is_said(executable, help, model, c, port, mode, 20, 20);
    flag_is_said(executable, help, model, c, port, mode, 21, 21);
    flag_is_said(executable, help, model, c, port, mode, 24, 24);
    flag_is_said(executable, help, model, c, port, mode, 24, 32);
    if flag_at(24) == flag_at(32) {
        flags_differ(24, 32);
    }
    flag_is_said(executable, help, model, c, port, mode, 25, 25);
    flag_is_said(executable, help, model, c, port, mode, 26, 26);
    flag_is_said(executable, help, model, c, port, mode, 27, 27);
    flag_is_said(executable, help, model, c, port, mode, 28, 28);
}

/// A command names the quantisation of the keys and of the values: with the
/// short flag where the server knows it, or else with the long one. The values
/// have that of the keys where they have none of their own, and without one for
/// the keys nothing is said.
pub proof fn commands_say_their_caches(
    executable: Seq<char>,
    help: Seq<char>,
    model: Seq<char>,
    c: CandidateView,
    port: u16,
    mode: ProbeMode,
)
    requires
        !dashed(executable),
        !dashed(model),
        c.kv_cache matches Some(t) ==> !dashed(t),
        c.kv_cache_v matches Some(t) ==> !dashed(t),
    ensures
        ({
            let command = command_of(executable, help, model, c, port, mode);
            let values = if c.kv_cache is None || c.kv_cache_v is None {
                c.kv_cache
            } else {
                c.kv_cache_v
            };
            &&& says(
                command,
                "-ctk"@,
                if text::occurs(help, "-ctk"@) {
                    c.kv_cache
                } else {
                    None
                },
            )
            &&& says(
                command,
                "--cache-type-k"@,
                if text::occurs(help, "--cache-type-k"@) && !text::occurs(help, "-ctk"@) {
                    c.kv_cache
                } else {
                    None
                },
            )
            &&& says(
                command,
                "-ctv"@,
                if text::occurs(help, "-ctv"@) {
                    values
                } else {
                    None
                },
            )
            &&& says(
                command,
                "--cache-type-v"@,
                if text::occurs(help, "--cache-type-v"@) && !text::occurs(help, "-ctv"@) {
                    values
                } else {
                    None
                },
            )
        }),
{
    flag_is_said(executable, help, model, c, port, mode, 22, 22);
    flag_is_said(executable, help, model, c, port, mode, 22, 30);
    flag_is_said(executable, help, model, c, port, mode, 23, 23);
    flag_is_said(executable, help, model, c, port, mode, 23, 31);
    if flag_at(22) == flag_at(30) {
        flags_differ(22, 30);
    }
    if flag_at(23) == flag_at(31) {
        flags_differ(23, 31);
    }
}

/// Whatever the candidate, a command asks for one slot, for fitting and for flash
/// attention, each with a flag that the server knows.
pub proof fn commands_say_how_to_serve(
    executable: Seq<char>,
    help: Seq<char>,
    model: Seq<char>,
    c: CandidateView,
    port: u16,
    mode: ProbeMode,
)
    requires
        !dashed(executable),
        !dashed(model),
        c.kv_cache matches Some(t) ==> !dashed(t),
        c.kv_cache_v matches Some(t) ==> !dashed(t),
    ensures
        ({
            let command = command_of(executable, help, model, c, port, mode);
            &&& says(
                command,
                "-np"@,
                if text::occurs(help, "-np"@) {
                    Some("1"@)
                } else {
                    None
                },
            )
            &&& says(
                command,
                "--fit"@,
                if text::occurs(help, "--fit"@) {
                    Some("on"@)
                } else {
                    None
                },
            )
            &&& says(
                command,
                "-fa"@,
                if text::occurs(help, "-fa"@) {
                    Some("on"@)
                } else {
                    None
                },
            )
        }),
{
    flag_is_said(executable, help, model, c, port, mode, 6, 6);
    flag_is_said(executable, help, model, c, port, mode, 7, 7);
    flag_is_said(executable, help, model, c, port, mode, 9, 9);
}

/// Whatever the candidate, a command says how to sample, with the flags that the
/// server knows.
pub proof fn commands_say_how_to_sample(
    executable: Seq<char>,
    help: Seq<char>,
    model: Seq<char>,
    c: CandidateView,
    port: u16,
    mode: ProbeMode,
)
    requires
        !dashed(executable),
        !dashed(model),
        c.kv_cache matches Some(t) ==> !dashed(t),
        c.kv_cache_v matches Some(t) ==> !dashed(t),
    ensures
        ({
            let command = command_of(executable, help, model, c, port, mode);
            &&& says(
                command,
                "--temp"@,
                if text::occurs(help, "--temp"@) {
                    Some("0.6"@)
                } else {
                    None
                },
            )
            &&& says(
                command,
                "--top-p"@,
                if text::occurs(help, "--top-p"@) {
                    Some("0.95"@)
                } else {
                    None
                },
            )
            &&& says(
                command,
                "--top-k"@,
                if text::occurs(help, "--top-k"@) {
                    Some("20"@)
                } else {
                    None
                },
            )
        }),
{
    flag_is_said(executable, help, model, c, port, mode, 13, 13);
    flag_is_said(executable, help, model, c, port, mode, 14, 14);
    flag_is_said(executable, help, model, c, port, mode, 15, 15);
}

/// Whatever the candidate, a command says what is unlikely or repeated, with the
/// flags that the server knows.
pub proof fn commands_say_their_penalties(
    executable: Seq<char>,
    help: Seq<char>,
    model: Seq<char>,
    c: CandidateView,
    port: u16,
    mode: ProbeMode,
)
    requires
        !dashed(executable),
        !dashed(model),
        c.kv_cache matches Some(t) ==> !dashed(t),
        c.kv_cache_v matches Some(t) ==> !dashed(t),
    ensures
        ({
            let command = command_of(executable, help, model, c, port, mode);
            &&& says(
                command,
                "--min-p"@,
                if text::occurs(help, "--min-p"@) {
                    Some("0.0"@)
                } else {
                    None
                },
            )
            &&& says(
                command,
                "--presence-penalty"@,
                if text::occurs(help, "--presence-penalty"@) {
                    Some("0.0"@)
                } else {
                    None
                },
            )
            &&& says(
                command,
                "--repeat-penalty"@,
                if text::occurs(help, "--repeat-penalty"@) {
                    Some("1.0"@)
                } else {
                    None
                },
            )
        }),
{
    flag_is_said(executable, help, model, c, port, mode, 16, 16);
    flag_is_said(executable, help, model, c, port, mode, 17, 17);
    flag_is_said(executable, help, model, c, port, mode, 18, 18);
}

/// A command lets the model think in the thinking mode, and says nothing of it in
/// the generic one.
pub proof fn commands_say_how_to_think(
    executable: Seq<char>,
    help: Seq<char>,
    model: Seq<char>,
    c: CandidateView,
    port: u16,
    mode: ProbeMode,
)
    requires
        !dashed(executable),
        !dashed(model),
        c.kv_cache matches Some(t) ==> !dashed(t),
        c.kv_cache_v matches Some(t) ==> !dashed(t),
    ensures
        ({
            let command = command_of(executable, help, model, c, port, mode);
            &&& says(
                command,
                "--reasoning"@,
                if mode == ProbeMode::Thinking && text::occurs(help, "--reasoning"@) {
                    Some("on"@)
                } else {
                    None
                },
            )
            &&& says(
                command,
                "--reasoning-budget"@,
                if mode == ProbeMode::Thinking && text::occurs(help, "--reasoning-budget"@) {
                    Some("4096"@)
                } else {
                    None
                },
            )
            &&& says(
                command,
                "--chat-template-kwargs"@,
                if mode == ProbeMode::Thinking && text::occurs(help, "--chat-template-kwargs"@) {
                    Some("{\"enable_thinking\":true}"@)
                } else {
                    None
                },
            )
            &&& says(
                command,
                "--reasoning-budget-message"@,
                if mode == ProbeMode::Thinking && text::occurs(help, "--reasoning-budget-message"@) {
                    Some("I should stop thinking and answer now."@)
                } else {
                    None
                },
            )
        }),
{
    flag_is_said(executable, help, model, c, port, mode, 10, 10);
    flag_is_said(executable, help, model, c, port, mode, 11, 11);
    flag_is_said(executable, help, model, c, port, mode, 12, 12);
    flag_is_said(executable, help, model, c, port, mode, 19, 19);
}

/// A moved command says its new port with the flag that it had, or else with
/// one at its end; no other word changes.
pub proof fn moved_commands_keep_their_words(command: Seq<Seq<char>>, port: u16, i: int)
    requires
        0 <= i,
        i + 1 < command.len(),
        command[i] == "--port"@,
        forall|j: int| 0 <= j < i ==> #[trigger] command[j] != "--port"@,
    ensures
        ({
            let moved = with_port(command, text::decimal(port as nat));
            &&& moved.len() == command.len()
            &&& moved[i + 1] == text::decimal(port as nat)
            &&& forall|j: int|
                0 <= j < command.len() && j != i + 1 ==> #[trigger] moved[j] == command[j]
        }),
{
    assert forall|j: int| 0 <= j < i implies !port_flag_at(command, j) by {
        assert(command[j] != "--port"@);
    }
    first_port_flag_is(command, 0, i);
}

/// A command without the flag gets it at its end.
pub proof fn portless_commands_get_one(command: Seq<Seq<char>>, port: u16)
    requires
        forall|j: int| 0 <= j < command.len() ==> #[trigger] command[j] != "--port"@,
    ensures
        with_port(command, text::decimal(port as nat)) == command.push("--port"@).push(
            text::decimal(port as nat),
        ),
{
    first_port_flag_bounds(command, 0);
    if let Some(i) = first_port_flag(command, 0) {
        assert(command[i] != "--port"@);
    }
    assert(with_port(command, text::decimal(port as nat)) =~= command.push("--port"@).push(
        text::decimal(port as nat),
    ));
}

} // verus!
