//! The decisions of the MCP tool that runs a shell command and hands its output back masked:
//! the arguments of the `masker` process, the timeout, how output is collected under a size
//! limit, and what the tool answers.

use vstd::prelude::*;
use crate::text::{chars_of, push_str_chars, push_all, string_from_chars, is_white_space, is_white_space_spec, push_decimal, decimal};

verus! {

pub const DEFAULT_TIMEOUT_SECONDS: u64 = 300;

/// Timeouts come from the model that calls the tool; larger ones are cut to this.
pub const MAX_TIMEOUT_SECONDS: u64 = 3600;

/// The most output bytes that are collected from one command.
pub const MAX_OUTPUT_BYTES: usize = 10485760;

/// The timeout in seconds: the one requested, or the default, and never above the maximum.
pub fn resolve_timeout_seconds(requested: Option<u64>) -> (r: u64)
    ensures
        r == (match requested {
            Some(t) => if t < MAX_TIMEOUT_SECONDS {
                t
            } else {
                MAX_TIMEOUT_SECONDS
            },
            None => DEFAULT_TIMEOUT_SECONDS,
        }),
{
    let t = match requested {
        Some(t) => t,
        None => DEFAULT_TIMEOUT_SECONDS,
    };
    if t < MAX_TIMEOUT_SECONDS {
        t
    } else {
        MAX_TIMEOUT_SECONDS
    }
}

pub open spec fn string_views(v: Seq<String>) -> Seq<Seq<char>> {
    v.map_values(|s: String| s@)
}

/// The arguments of `masker` that masks a stream, with the profile and the encoding when given.
pub open spec fn masker_args_spec(profile: Option<Seq<char>>, encoding: Option<Seq<char>>) -> Seq<
    Seq<char>,
> {
    let base = seq!["mask"@, "--stream"@];
    let with_profile = match profile {
        Some(p) => base + seq!["--profile"@, p],
        None => base,
    };
    match encoding {
        Some(e) => with_profile + seq!["--encoding"@, e],
        None => with_profile,
    }
}

pub fn build_masker_args(profile: Option<&str>, encoding: Option<&str>) -> (r: Vec<String>)
    ensures
        string_views(r@) == masker_args_spec(profile.deep_view(), encoding.deep_view()),
{
    let mut args: Vec<String> = Vec::new();
    args.push("mask".to_owned());
    args.push("--stream".to_owned());
    let ghost base = string_views(args@);
    assert(base =~= seq!["mask"@, "--stream"@]);
    match profile {
        Some(p) => {
            args.push("--profile".to_owned());
            args.push(p.to_owned());
        },
        None => {},
    }
    let ghost mid = string_views(args@);
    assert(mid =~= match profile.deep_view() {
        Some(p) => base + seq!["--profile"@, p],
        None => base,
    });
    match encoding {
        Some(e) => {
            args.push("--encoding".to_owned());
            args.push(e.to_owned());
        },
        None => {},
    }
    assert(string_views(args@) =~= match encoding.deep_view() {
        Some(e) => mid + seq!["--encoding"@, e],
        None => mid,
    });
    args
}

/// Why a command is refused before it runs.
pub open spec fn command_refusal(command: Seq<char>) -> Option<Seq<char>> {
    if forall|i: int| 0 <= i < command.len() ==> is_white_space_spec(#[trigger] command[i]) {
        Some("commandは空にできません"@)
    } else if exists|i: int| 0 <= i < command.len() && (command[i] == '\n' || command[i] == '\r') {
        Some("commandに改行を含めることはできません"@)
    } else {
        None
    }
}

/// A command that is blank is refused, and so is one with a line break (`cmd.exe /C` would run
/// only the part before it, without a word).
pub fn validate_command(command: &str) -> (r: Option<String>)
    ensures
        r.deep_view() == command_refusal(command@),
{
    let chars = chars_of(command);
    let mut i: usize = 0;
    let mut blank = true;
    while i < chars.len()
        invariant
            chars@ == command@,
            i <= chars@.len(),
            blank == (forall|j: int| 0 <= j < i ==> is_white_space_spec(#[trigger] chars@[j])),
        decreases chars@.len() - i,
    {
        if !is_white_space(chars[i]) {
            blank = false;
        }
        i += 1;
    }
    if blank {
        return Some("commandは空にできません".to_owned());
    }
    let mut k: usize = 0;
    while k < chars.len()
        invariant
            chars@ == command@,
            k <= chars@.len(),
            forall|j: int| 0 <= j < k ==> chars@[j] != '\n' && chars@[j] != '\r',
            !(forall|j: int| 0 <= j < chars@.len() ==> is_white_space_spec(#[trigger] chars@[j])),
        decreases chars@.len() - k,
    {
        if chars[k] == '\n' || chars[k] == '\r' {
            assert(chars@[k as int] == '\n' || chars@[k as int] == '\r');
            return Some("commandに改行を含めることはできません".to_owned());
        }
        k += 1;
    }
    None
}

// ---------------------------------------------------------------------------------------------
// Windows paths of system tools
// ---------------------------------------------------------------------------------------------
pub open spec fn is_separator(c: char) -> bool {
    c == '\\' || c == '/'
}

/// `base` is a drive prefix alone, such as `C:`, after which Windows adds no separator.
pub open spec fn is_bare_drive(base: Seq<char>) -> bool {
    base.len() == 2 && base[1] == ':' && (('A' <= base[0] && base[0] <= 'Z') || ('a' <= base[0]
        && base[0] <= 'z'))
}

/// `part` joined to `base` as Windows joins a relative path: with a `\` between them unless
/// `base` is empty, already ends in a separator, or is a bare drive.
pub open spec fn windows_join(base: Seq<char>, part: Seq<char>) -> Seq<char> {
    if base.len() == 0 || is_separator(base.last()) || is_bare_drive(base) {
        base + part
    } else {
        base + seq!['\\'] + part
    }
}

fn push_windows_part(path: &mut Vec<char>, part: &str)
    ensures
        final(path)@ == windows_join(old(path)@, part@),
{
    let n = path.len();
    let needs_separator = if n == 0 {
        false
    } else if path[n - 1] == '\\' || path[n - 1] == '/' {
        false
    } else if n == 2 && path[1] == ':' && (('A' <= path[0] && path[0] <= 'Z') || ('a' <= path[0]
        && path[0] <= 'z')) {
        false
    } else {
        true
    };
    if needs_separator {
        path.push('\\');
    }
    push_str_chars(path, part);
}

/// The path of `System32\<tool>` under the Windows directory `system_root`, built from the
/// directory that Windows names rather than looked up on `PATH`.
pub open spec fn system_tool_path(system_root: Seq<char>, tool: Seq<char>) -> Seq<char> {
    windows_join(windows_join(system_root, "System32"@), tool)
}

pub fn taskkill_path_from_system_root(system_root: &str) -> (r: String)
    ensures
        r@ == system_tool_path(system_root@, "taskkill.exe"@),
{
    let mut path = chars_of(system_root);
    push_windows_part(&mut path, "System32");
    push_windows_part(&mut path, "taskkill.exe");
    string_from_chars(path.as_slice())
}

pub fn icacls_path_from_system_root(system_root: &str) -> (r: String)
    ensures
        r@ == system_tool_path(system_root@, "icacls.exe"@),
{
    let mut path = chars_of(system_root);
    push_windows_part(&mut path, "System32");
    push_windows_part(&mut path, "icacls.exe");
    string_from_chars(path.as_slice())
}

/// The arguments of `kill` that send SIGKILL to the whole process group `pgid`. The `--` comes
/// first: without it some `kill` programs read `-<pgid>` as an option and signal their own group.
pub fn group_kill_args(pgid: u32) -> (r: Vec<String>)
    ensures
        string_views(r@) == seq!["-KILL"@, "--"@, seq!['-'] + decimal(pgid as nat)],
{
    let mut target: Vec<char> = Vec::new();
    target.push('-');
    push_decimal(&mut target, pgid as u64);
    let mut args: Vec<String> = Vec::new();
    args.push("-KILL".to_owned());
    args.push("--".to_owned());
    args.push(string_from_chars(target.as_slice()));
    assert(string_views(args@) =~= seq!["-KILL"@, "--"@, seq!['-'] + decimal(pgid as nat)]);
    args
}

// ---------------------------------------------------------------------------------------------
// Collecting output
// ---------------------------------------------------------------------------------------------
/// What the collection loop learns while it waits: bytes from `masker`, the end of its output,
/// or the end of the time allowed.
pub enum CollectorEvent {
    Chunk(Vec<u8>),
    Closed,
    TimedOut,
}

/// The output of `masker` collected so far, under a size limit.
pub struct OutputCollector {
    collected: Vec<u8>,
    max_output_bytes: usize,
    timed_out: bool,
    truncated: bool,
    finished: bool,
}

pub struct OutputCollectorView {
    pub collected: Seq<u8>,
    pub max_output_bytes: nat,
    pub timed_out: bool,
    pub truncated: bool,
    pub finished: bool,
}

impl View for OutputCollector {
    type V = OutputCollectorView;

    closed spec fn view(&self) -> OutputCollectorView {
        OutputCollectorView {
            collected: self.collected@,
            max_output_bytes: self.max_output_bytes as nat,
            timed_out: self.timed_out,
            truncated: self.truncated,
            finished: self.finished,
        }
    }
}

/// The state after `event`, from a state that is not finished.
pub open spec fn collector_step(s: OutputCollectorView, event: CollectorEvent) -> OutputCollectorView {
    match event {
        CollectorEvent::Chunk(chunk) => {
            let room = s.max_output_bytes - s.collected.len();
            if room <= 0 {
                OutputCollectorView { truncated: true, finished: true, ..s }
            } else if chunk@.len() > room {
                OutputCollectorView {
                    collected: s.collected + chunk@.take(room),
                    truncated: true,
                    finished: true,
                    ..s
                }
            } else {
                OutputCollectorView { collected: s.collected + chunk@, ..s }
            }
        },
        CollectorEvent::Closed => OutputCollectorView { finished: true, ..s },
        CollectorEvent::TimedOut => OutputCollectorView { timed_out: true, finished: true, ..s },
    }
}

impl OutputCollector {
    /// Never more than the limit is held.
    #[verifier::type_invariant]
    spec fn inv(self) -> bool {
        self.collected@.len() <= self.max_output_bytes
    }

    pub fn new(max_output_bytes: usize) -> (r: OutputCollector)
        ensures
            r@ == (OutputCollectorView {
                collected: Seq::empty(),
                max_output_bytes: max_output_bytes as nat,
                timed_out: false,
                truncated: false,
                finished: false,
            }),
    {
        OutputCollector {
            collected: Vec::new(),
            max_output_bytes,
            timed_out: false,
            truncated: false,
            finished: false,
        }
    }

    /// Takes in one event; returns whether collection goes on.
    pub fn on_event(&mut self, event: CollectorEvent) -> (go_on: bool)
        requires
            !old(self)@.finished,
        ensures
            final(self)@ == collector_step(old(self)@, event),
            go_on == !final(self)@.finished,
            final(self)@.collected.len() <= final(self)@.max_output_bytes,
    {
        proof {
            use_type_invariant(&*self);
        }
        let ghost e = event;
        match event {
            CollectorEvent::Chunk(chunk) => {
                let room = self.max_output_bytes - self.collected.len();
                if room == 0 {
                    self.truncated = true;
                    self.finished = true;
                    return false;
                }
                let mut collected: Vec<u8> = Vec::new();
                std::mem::swap(&mut collected, &mut self.collected);
                let ghost start = collected@;
                let n = if chunk.len() > room {
                    room
                } else {
                    chunk.len()
                };
                let mut i: usize = 0;
                while i < n
                    invariant
                        i <= n <= chunk@.len(),
                        n <= room,
                        collected@ == start + chunk@.take(i as int),
                    decreases n - i,
                {
                    collected.push(chunk[i]);
                    i += 1;
                    assert(collected@ =~= start + chunk@.take(i as int));
                }
                self.collected = collected;
                if chunk.len() > room {
                    self.truncated = true;
                    self.finished = true;
                    return false;
                }
                assert(chunk@.take(chunk@.len() as int) =~= chunk@);
                true
            },
            CollectorEvent::Closed => {
                self.finished = true;
                false
            },
            CollectorEvent::TimedOut => {
                self.timed_out = true;
                self.finished = true;
                false
            },
        }
    }

    /// After the output has ended, whether the command is still waited for: only when the
    /// collection neither timed out nor was cut.
    pub fn waits_for_command(&self) -> (r: bool)
        ensures
            r == (!self@.timed_out && !self@.truncated),
    {
        !self.timed_out && !self.truncated
    }

    /// The command did not end before the time ran out.
    pub fn mark_timed_out(&mut self)
        ensures
            final(self)@ == (OutputCollectorView { timed_out: true, ..old(self)@ }),
    {
        proof {
            use_type_invariant(&*self);
        }
        self.timed_out = true;
    }

    /// Whether both processes are killed: when the collection timed out or was cut.
    pub fn kills_processes(&self) -> (r: bool)
        ensures
            r == (self@.timed_out || self@.truncated),
    {
        self.timed_out || self.truncated
    }

    pub fn timed_out(&self) -> (r: bool)
        ensures
            r == self@.timed_out,
    {
        self.timed_out
    }

    pub fn truncated(&self) -> (r: bool)
        ensures
            r == self@.truncated,
    {
        self.truncated
    }

    /// The bytes collected.
    pub fn into_collected(self) -> (r: Vec<u8>)
        ensures
            r@ == self@.collected,
    {
        self.collected
    }
}

/// What `masker` wrote to its error output when it ended on its own with a failure; nothing when
/// it was killed or succeeded.
pub fn second_stage_error(killed: bool, second_succeeded: bool, stderr_text: String) -> (r: Option<
    String,
>)
    ensures
        (killed || second_succeeded) ==> r is None,
        (!killed && !second_succeeded) ==> (r matches Some(t) && t@ == stderr_text@),
{
    if killed || second_succeeded {
        None
    } else {
        Some(stderr_text)
    }
}

pub open spec fn timeout_note() -> Seq<char> {
    "\n\n[masker-mcp: タイムアウトにより打ち切りました]"@
}

pub open spec fn truncation_note() -> Seq<char> {
    "\n\n[masker-mcp: 出力が大きすぎるため打ち切りました]"@
}

/// What the tool answers: the error of `masker` when it failed, else the masked output with a
/// note for each way in which it was cut short.
pub open spec fn tool_answer(
    output: Seq<char>,
    timed_out: bool,
    truncated: bool,
    second_error: Option<Seq<char>>,
) -> Result<Seq<char>, Seq<char>> {
    match second_error {
        Some(e) => Err("maskerの実行に失敗しました: "@ + e),
        None => Ok(
            output + (if timed_out {
                timeout_note()
            } else {
                Seq::empty()
            }) + (if truncated {
                truncation_note()
            } else {
                Seq::empty()
            }),
        ),
    }
}

pub fn masked_command_text(
    output: &str,
    timed_out: bool,
    truncated: bool,
    second_error: Option<&str>,
) -> (r: Result<String, String>)
    ensures
        match tool_answer(output@, timed_out, truncated, second_error.deep_view()) {
            Ok(t) => r matches Ok(s) && s@ == t,
            Err(t) => r matches Err(s) && s@ == t,
        },
{
    let mut text: Vec<char> = Vec::new();
    match second_error {
        Some(e) => {
            push_str_chars(&mut text, "maskerの実行に失敗しました: ");
            push_str_chars(&mut text, e);
            return Err(string_from_chars(text.as_slice()));
        },
        None => {},
    }
    push_str_chars(&mut text, output);
    let ghost a = text@;
    if timed_out {
        push_str_chars(&mut text, "\n\n[masker-mcp: タイムアウトにより打ち切りました]");
    }
    let ghost b = text@;
    assert(b =~= a + (if timed_out {
        timeout_note()
    } else {
        Seq::empty()
    }));
    if truncated {
        push_str_chars(&mut text, "\n\n[masker-mcp: 出力が大きすぎるため打ち切りました]");
    }
    assert(text@ =~= b + (if truncated {
        truncation_note()
    } else {
        Seq::empty()
    }));
    Ok(string_from_chars(text.as_slice()))
}

/// The tool's answer says what happened, each note exactly when its cause occurred: a failed
/// `masker` is reported with its error output; otherwise the masked output comes back as it is,
/// followed by the timeout note only when the command timed out and then by the size note only
/// when the output was cut for size.
pub proof fn law_answer_notes_match_their_causes(output: Seq<char>, stderr_text: Seq<char>)
    ensures
        tool_answer(output, false, false, None) == Ok::<Seq<char>, Seq<char>>(output),
        tool_answer(output, true, false, None) == Ok::<Seq<char>, Seq<char>>(
            output + "\n\n[masker-mcp: タイムアウトにより打ち切りました]"@,
        ),
        tool_answer(output, false, true, None) == Ok::<Seq<char>, Seq<char>>(
            output + "\n\n[masker-mcp: 出力が大きすぎるため打ち切りました]"@,
        ),
        tool_answer(output, true, true, None) == Ok::<Seq<char>, Seq<char>>(
            output + "\n\n[masker-mcp: タイムアウトにより打ち切りました]"@
                + "\n\n[masker-mcp: 出力が大きすぎるため打ち切りました]"@,
        ),
        forall|timed_out: bool, truncated: bool|
            #[trigger] tool_answer(output, timed_out, truncated, Some(stderr_text)) == Err::<Seq<char>, Seq<char>>(
                "maskerの実行に失敗しました: "@ + stderr_text,
            ),
{
    assert(output + Seq::<char>::empty() + Seq::<char>::empty() =~= output);
    assert(output + timeout_note() + Seq::<char>::empty() =~= output + timeout_note());
    assert(output + Seq::<char>::empty() + truncation_note() =~= output + truncation_note());
}

/// The message when no `masker` program is found.
pub fn masker_not_found_message() -> (r: String)
    ensures
        r@ == "maskerの実行ファイルが見つかりません。masker-mcpと同じディレクトリに配置するか、PATHに追加してください"@,
{
    "maskerの実行ファイルが見つかりません。masker-mcpと同じディレクトリに配置するか、PATHに追加してください".to_owned()
}

} // verus!
