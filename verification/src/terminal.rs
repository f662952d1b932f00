//! Running one command for an agent: what is asked for, where it runs, how long it may take and
//! how much of its output comes back.

use vstd::prelude::*;
use vstd::string::*;

use crate::gate;
use crate::gate::PathGate;
use crate::path;
use crate::path::{NodePath, PartView};
use crate::text;
use crate::text::{read_lossy, trim};
use crate::time::Duration;
use crate::wire::{ErrorCode, WireError};

verus! {

/// The shell that runs a command line where the caller names none.
pub const DEFAULT_SHELL: &'static str = "/bin/sh";

/// What a stream that was cut ends with.
pub const TRUNCATION_NOTE: &'static str = "\n… output truncated at the cap";

/// What a command that ran out of time answers on its error stream.
pub const TIMEOUT_NOTE: &'static str = "command timed out; the whole process tree was killed";

/// Commands, held to a gate, a size and a time.
pub struct GatedTerminal {
    pub gate: PathGate,
    /// How many bytes of each stream come back.
    pub max_output_bytes: usize,
    /// How long a command may run.
    pub exec_timeout: Duration,
}

/// What a caller asks to be run: a command line for a shell, or a program with its arguments.
pub struct ExecRequest {
    pub command: Option<String>,
    pub argv: Option<Vec<String>>,
    /// Where it runs.
    pub cwd: Option<String>,
    /// How long it may run.
    pub timeout_ms: Option<u64>,
    /// What it reads.
    pub stdin: Option<String>,
    /// Variables that it gets on top of the node's own.
    pub env: Vec<(String, String)>,
    /// The shell for a command line.
    pub shell: Option<String>,
}

/// What is to be run.
pub struct ExecPlan {
    pub program: String,
    pub args: Vec<String>,
    pub dir: Vec<u8>,
    pub timeout: Duration,
    pub stdin: Option<String>,
    pub env: Vec<(String, String)>,
    /// How many bytes of each stream come back.
    pub cap: usize,
}

impl ExecRequest {
    /// Whether a command line is given: one that is more than white space.
    pub open spec fn has_command(&self) -> bool {
        self.command matches Some(line) && text::trimmed(line@).len() > 0
    }

    /// What is wrong with the arguments, if anything is.
    pub open spec fn complaint(&self) -> Option<Seq<char>> {
        if self.argv matches Some(argv) && argv@.len() == 0 {
            Some("argv must not be empty"@)
        } else if !self.has_command() && self.argv is None {
            Some("give `command` or `argv`, not neither"@)
        } else if self.has_command() && self.argv is Some {
            Some("give `command` or `argv`, not both"@)
        } else {
            None
        }
    }

    /// The program to start.
    pub open spec fn program(&self) -> Seq<char> {
        match self.argv {
            Some(argv) => argv@[0]@,
            None => match self.shell {
                Some(shell) => shell@,
                None => DEFAULT_SHELL@,
            },
        }
    }

    /// What the program is started with: the arguments exactly as given, or a command line for
    /// the shell.
    pub open spec fn args(&self) -> Seq<Seq<char>> {
        match self.argv {
            Some(argv) => argv.deep_view().drop_first(),
            None => seq!["-c"@, self.command->0@],
        }
    }
}

/// How long a command may run: what the caller asks for, at most what the node allows.
pub open spec fn allowed_millis(caller: Option<u64>, cap: nat) -> nat {
    match caller {
        Some(asked) => if (asked as nat) < cap {
            asked as nat
        } else {
            cap
        },
        None => cap,
    }
}

impl GatedTerminal {
    /// A terminal behind the given gate.
    pub fn new(gate: PathGate, max_output_bytes: usize, exec_timeout: Duration) -> (out:
        GatedTerminal)
        ensures
            out.gate == gate,
            out.max_output_bytes == max_output_bytes,
            out.exec_timeout == exec_timeout,
    {
        GatedTerminal { gate, max_output_bytes, exec_timeout }
    }

    /// The node's own limit in whole milliseconds, as many as 64 bits hold.
    pub open spec fn cap_millis(&self) -> nat {
        (self.exec_timeout@ / 1_000_000) % 0x1_0000_0000_0000_0000
    }

    /// How long a command may run.
    pub fn effective_timeout(&self, caller_ms: Option<u64>) -> (out: Duration)
        ensures
            out@ == allowed_millis(caller_ms, self.cap_millis()) * 1_000_000,
            out@ <= self.exec_timeout@,
    {
        let millis: u128 = self.exec_timeout.as_millis();
        let cap_ms: u64 = #[verifier::truncate]
        (millis as u64);
        assert(cap_ms as u128 == millis % 0x1_0000_0000_0000_0000) by (bit_vector)
            requires
                cap_ms == millis as u64,
        ;
        let allowed: u64 = match caller_ms {
            Some(asked) => if asked < cap_ms {
                asked
            } else {
                cap_ms
            },
            None => cap_ms,
        };
        Duration::from_millis(allowed)
    }

    /// Whether `dir` is where a request runs, given what the file system answers: the first root,
    /// or the directory asked for where the path gate lets it through.
    pub open spec fn runs_in<F: Fn(&NodePath) -> Option<NodePath>>(
        &self,
        cwd: Option<String>,
        probe: F,
        answer: Result<Seq<u8>, WireError>,
    ) -> bool {
        match cwd {
            None => answer == Ok::<Seq<u8>, WireError>(self.gate.root_bytes()),
            Some(asked) => exists|resolved: Seq<PartView>, verdict: Result<NodePath, WireError>|
                {
                    &&& #[trigger] gate::resolves_to(
                        probe,
                        self.gate.target(asked@),
                        self.gate.target(asked@).len(),
                        resolved,
                    )
                    &&& #[trigger] self.gate.answers(asked@, resolved, verdict)
                    &&& answer == match verdict {
                        Ok(path) => Ok(path::spelled(path@)),
                        Err(error) => Err(error),
                    }
                },
        }
    }

    /// Whether a plan is one for this request, wherever it runs.
    pub open spec fn carries_out(&self, request: ExecRequest, plan: ExecPlan) -> bool {
        &&& plan.program@ == request.program()
        &&& plan.args.deep_view() == request.args()
        &&& plan.timeout@ == allowed_millis(request.timeout_ms, self.cap_millis()) * 1_000_000
        &&& plan.stdin == request.stdin
        &&& plan.env == request.env
        &&& plan.cap == self.max_output_bytes
    }

    /// Decides what a request runs, or why it does not run. `probe` answers what a path really is:
    /// of a link whose target does not exist what it points to, and of a path at which nothing is,
    /// nothing.
    pub fn plan<F: Fn(&NodePath) -> Option<NodePath>>(
        &self,
        request: ExecRequest,
        probe: F,
    ) -> (answer: Result<ExecPlan, WireError>)
        requires
            forall|asked: NodePath| #[trigger] call_requires(probe, (&asked,)),
        ensures
            request.complaint() matches Some(message) ==> {
                &&& answer matches Err(error)
                &&& error.code is InvalidParams
                &&& error.message@ == message
            },
            request.complaint() is None ==> self.runs_in(
                request.cwd,
                probe,
                match answer {
                    Ok(plan) => Ok(plan.dir@),
                    Err(error) => Err(error),
                },
            ),
            answer matches Ok(plan) ==> {
                &&& plan.program@ == request.program()
                &&& plan.args.deep_view() == request.args()
                &&& plan.timeout@ == allowed_millis(request.timeout_ms, self.cap_millis())
                    * 1_000_000
                &&& plan.stdin == request.stdin
                &&& plan.env == request.env
                &&& plan.cap == self.max_output_bytes
            },
            answer matches Ok(plan) ==> self.carries_out(request, plan),
    {
        let has_argv = match &request.argv {
            Some(argv) => {
                if argv.len() == 0 {
                    return Err(WireError::invalid_params("argv must not be empty"));
                }
                true
            },
            None => false,
        };
        let has_command = match &request.command {
            Some(line) => !trim(line.as_str()).as_str().is_empty(),
            None => false,
        };
        if !has_command && !has_argv {
            return Err(WireError::invalid_params("give `command` or `argv`, not neither"));
        }
        if has_command && has_argv {
            return Err(WireError::invalid_params("give `command` or `argv`, not both"));
        }
        let dir = match &request.cwd {
            Some(asked) => match self.gate.check(asked.as_str(), probe) {
                Ok(path) => path.spell(),
                Err(error) => {
                    return Err(error);
                },
            },
            None => self.gate.root(),
        };
        let mut args: Vec<String> = Vec::new();
        let program = match &request.argv {
            Some(argv) => {
                let mut i: usize = 1;
                assert(args.deep_view() == argv.deep_view().subrange(1, 1));
                while i < argv.len()
                    invariant
                        1 <= i <= argv@.len(),
                        args.deep_view() == argv.deep_view().subrange(1, i as int),
                    decreases argv@.len() - i,
                {
                    let ghost before = args.deep_view();
                    let arg = argv[i].clone();
                    args.push(arg);
                    assert(args.deep_view() == before.push(arg@));
                    i += 1;
                    assert(argv.deep_view().subrange(1, i as int) == argv.deep_view().subrange(
                        1,
                        i - 1,
                    ).push(argv.deep_view()[i - 1]));
                }
                assert(argv.deep_view().subrange(1, argv@.len() as int)
                    == argv.deep_view().drop_first());
                argv[0].clone()
            },
            None => {
                args.push("-c".to_owned());
                match &request.command {
                    Some(line) => {
                        args.push(line.clone());
                    },
                    None => {},
                }
                assert(args.deep_view() == seq!["-c"@, request.command->0@]);
                match &request.shell {
                    Some(shell) => shell.clone(),
                    None => DEFAULT_SHELL.to_owned(),
                }
            },
        };
        Ok(
            ExecPlan {
                program,
                args,
                dir,
                timeout: self.effective_timeout(request.timeout_ms),
                stdin: request.stdin,
                env: request.env,
                cap: self.max_output_bytes,
            },
        )
    }
}

// ---------------------------------------------------------------------------------------------
// Output
// ---------------------------------------------------------------------------------------------

/// What is kept of a stream while it is read to its end.
///
/// Reading never stops at the cap: a child that fills its pipe blocks, and would never exit.
pub struct CappedOutput {
    pub bytes: Vec<u8>,
    /// Whether anything was discarded.
    pub capped: bool,
}

/// The smaller of two numbers.
pub open spec fn least(a: nat, b: nat) -> nat {
    if a <= b {
        a
    } else {
        b
    }
}

impl CappedOutput {
    /// Whether this is what is kept of the bytes that were seen, under the given cap: as many of
    /// the first ones as fit, and a note of whether any did not.
    pub open spec fn keeps(&self, seen: Seq<u8>, cap: usize) -> bool {
        &&& self.bytes@ == seen.take(least(seen.len(), cap as nat) as int)
        &&& self.capped == (seen.len() > cap)
    }

    /// Nothing was read yet.
    pub fn new() -> (out: CappedOutput)
        ensures
            forall|cap: usize| #[trigger] out.keeps(Seq::empty(), cap),
    {
        let out = CappedOutput { bytes: Vec::new(), capped: false };
        assert forall|cap: usize| #[trigger] out.keeps(Seq::empty(), cap) by {
            assert(out.bytes@ == Seq::<u8>::empty().take(0));
        }
        out
    }

    /// How many more bytes fit under the cap.
    pub open spec fn room(&self, cap: usize) -> nat {
        if self.bytes@.len() < cap {
            (cap - self.bytes@.len()) as nat
        } else {
            0
        }
    }

    /// Takes the next bytes of the stream.
    pub fn feed(&mut self, chunk: &[u8], cap: usize)
        ensures
            final(self).bytes@ == old(self).bytes@ + chunk@.take(
                least(chunk@.len(), old(self).room(cap)) as int,
            ),
            final(self).capped == (old(self).capped || chunk@.len() > old(self).room(cap)),
            forall|seen: Seq<u8>| #[trigger]
                old(self).keeps(seen, cap) ==> final(self).keeps(seen + chunk@, cap),
    {
        let held: usize = self.bytes.len();
        let room: usize = if held < cap {
            cap - held
        } else {
            0
        };
        let taken: usize = if chunk.len() < room {
            chunk.len()
        } else {
            room
        };
        let ghost before = self.bytes@;
        let mut i: usize = 0;
        assert(before + chunk@.take(0) == before);
        while i < taken
            invariant
                i <= taken <= chunk@.len(),
                self.bytes@ == before + chunk@.take(i as int),
                self.capped == old(self).capped,
            decreases taken - i,
        {
            self.bytes.push(chunk[i]);
            i += 1;
            assert(before + chunk@.take(i as int) == (before + chunk@.take(i - 1)).push(
                chunk@[i - 1],
            ));
        }
        if chunk.len() > room {
            self.capped = true;
        }
        assert forall|seen: Seq<u8>| #[trigger] old(self).keeps(seen, cap) implies self.keeps(
            seen + chunk@,
            cap,
        ) by {
            let all = seen + chunk@;
            assert(self.bytes@ == all.take(least(all.len(), cap as nat) as int));
        }
    }
}

/// What the chunks of a stream come to, put one behind the other.
pub open spec fn concatenated(chunks: Seq<Seq<u8>>) -> Seq<u8>
    decreases chunks.len(),
{
    if chunks.len() == 0 {
        Seq::empty()
    } else {
        concatenated(chunks.drop_last()) + chunks.last()
    }
}

/// Takes a whole stream, chunk by chunk. What is kept does not depend on where the chunks part.
pub fn read_capped(chunks: &Vec<Vec<u8>>, cap: usize) -> (out: CappedOutput)
    ensures
        out.keeps(concatenated(chunks.deep_view()), cap),
{
    let mut out = CappedOutput::new();
    let mut i: usize = 0;
    assert(chunks.deep_view().take(0) == Seq::<Seq<u8>>::empty());
    assert(out.keeps(Seq::empty(), cap));
    while i < chunks.len()
        invariant
            i <= chunks@.len(),
            out.keeps(concatenated(chunks.deep_view().take(i as int)), cap),
        decreases chunks@.len() - i,
    {
        let ghost so_far = chunks.deep_view().take(i + 1);
        assert(so_far.drop_last() == chunks.deep_view().take(i as int));
        assert(chunks@[i as int].deep_view() == chunks@[i as int]@);
        assert(so_far.last() == chunks@[i as int]@);
        out.feed(chunks[i].as_slice(), cap);
        i += 1;
    }
    assert(chunks.deep_view().take(chunks@.len() as int) == chunks.deep_view());
    out
}

/// What is kept of a stream is determined by the stream and the cap, and never exceeds the cap.
pub proof fn what_is_kept_is_determined_by_the_stream(
    one: CappedOutput,
    other: CappedOutput,
    seen: Seq<u8>,
    cap: usize,
)
    requires
        one.keeps(seen, cap),
        other.keeps(seen, cap),
    ensures
        one.bytes@ == other.bytes@,
        one.capped == other.capped,
        one.bytes@.len() <= cap,
{
}

/// A stream as text, with a note at its end where it was cut.
pub open spec fn noted(output: Seq<char>, capped: bool) -> Seq<char> {
    if capped {
        output + TRUNCATION_NOTE@
    } else {
        output
    }
}

/// Puts a note behind a text where it was cut.
pub fn note_if_cut(output: String, capped: bool) -> (out: String)
    ensures
        out@ == noted(output@, capped),
{
    if capped {
        output.concat(TRUNCATION_NOTE)
    } else {
        output
    }
}

/// A stream as text, with a note at its end where it was cut.
pub fn finish(output: &CappedOutput) -> (out: String)
    ensures
        out@ == noted(text::lossy_text(output.bytes@), output.capped),
{
    note_if_cut(read_lossy(&output.bytes), output.capped)
}

/// What a command came to.
#[derive(Debug, PartialEq, Eq)]
pub struct ExecOutput {
    pub exit_code: i32,
    pub stdout: String,
    pub stderr: String,
    pub timed_out: bool,
    pub stdout_truncated: bool,
    pub stderr_truncated: bool,
}

/// The code that a command is reported with, given the one it ended with, if it did.
pub open spec fn exit_code_of(code: Option<i32>) -> i32 {
    match code {
        Some(code) => code,
        None => -1i32,
    }
}

/// What an [`ExecOutput`] says.
#[verifier::ext_equal]
pub struct OutcomeView {
    pub exit_code: int,
    pub stdout: Seq<char>,
    pub stderr: Seq<char>,
    pub timed_out: bool,
    pub stdout_truncated: bool,
    pub stderr_truncated: bool,
}

impl View for ExecOutput {
    type V = OutcomeView;

    open spec fn view(&self) -> OutcomeView {
        OutcomeView {
            exit_code: self.exit_code as int,
            stdout: self.stdout@,
            stderr: self.stderr@,
            timed_out: self.timed_out,
            stdout_truncated: self.stdout_truncated,
            stderr_truncated: self.stderr_truncated,
        }
    }
}

/// What is reported of a command that ended.
pub open spec fn ended(stdout: CappedOutput, stderr: CappedOutput, code: Option<i32>) -> OutcomeView {
    OutcomeView {
        exit_code: exit_code_of(code) as int,
        stdout: noted(text::lossy_text(stdout.bytes@), stdout.capped),
        stderr: noted(text::lossy_text(stderr.bytes@), stderr.capped),
        timed_out: false,
        stdout_truncated: stdout.capped,
        stderr_truncated: stderr.capped,
    }
}

/// What is reported of a command that ran out of time.
pub open spec fn ran_out() -> OutcomeView {
    OutcomeView {
        exit_code: -1,
        stdout: Seq::empty(),
        stderr: TIMEOUT_NOTE@,
        timed_out: true,
        stdout_truncated: false,
        stderr_truncated: false,
    }
}

impl ExecOutput {
    /// What a command came to that ended by itself. `code` is the code that it exited with, if it
    /// has one.
    pub fn completed(stdout: &CappedOutput, stderr: &CappedOutput, code: Option<i32>) -> (out:
        ExecOutput)
        ensures
            out@ == ended(*stdout, *stderr, code),
            out.exit_code == exit_code_of(code),
            out.exit_code == match code {
                Some(c) => c as int,
                None => -1,
            },
            out.stdout@ == noted(text::lossy_text(stdout.bytes@), stdout.capped),
            out.stderr@ == noted(text::lossy_text(stderr.bytes@), stderr.capped),
            !out.timed_out,
            out.stdout_truncated == stdout.capped,
            out.stderr_truncated == stderr.capped,
    {
        ExecOutput {
            exit_code: match code {
                Some(c) => c,
                None => -1,
            },
            stdout: finish(stdout),
            stderr: finish(stderr),
            timed_out: false,
            stdout_truncated: stdout.capped,
            stderr_truncated: stderr.capped,
        }
    }

    /// What a command came to that had to be killed.
    pub fn out_of_time() -> (out: ExecOutput)
        ensures
            out@ == ran_out(),
            out.exit_code == -1,
            out.stdout@.len() == 0,
            out.stderr@ == TIMEOUT_NOTE@,
            out.timed_out,
            !out.stdout_truncated,
            !out.stderr_truncated,
    {
        ExecOutput {
            exit_code: -1,
            stdout: String::new(),
            stderr: TIMEOUT_NOTE.to_owned(),
            timed_out: true,
            stdout_truncated: false,
            stderr_truncated: false,
        }
    }
}

/// What a command is answered that could not be started.
pub fn could_not_run(reason: &str) -> (error: WireError)
    ensures
        error.code is Internal,
        error.message@ == "could not run: "@ + reason@,
{
    WireError::new(ErrorCode::Internal, "could not run: ".to_owned().concat(reason))
}

/// What a signal is sent to so that it reaches the whole group of a process.
pub open spec fn group_of(pid: i32) -> Option<i32> {
    if pid > 0 {
        Some((0 - pid) as i32)
    } else {
        None
    }
}

/// What to send a signal to so that it reaches the whole process group of a child: the negated
/// process number. Nothing where there is no process of that number.
pub fn kill_group(pid: i32) -> (target: Option<i32>)
    ensures
        target == group_of(pid),
        target == if pid > 0 {
            Some((0 - pid) as i32)
        } else {
            None
        },
{
    if pid > 0 {
        Some(0 - pid)
    } else {
        None
    }
}

// ---------------------------------------------------------------------------------------------
// What a command is held to
// ---------------------------------------------------------------------------------------------

/// A request is run exactly where it gives one of the two: a command line that is not blank, or
/// arguments that are not empty. What is said of any other names what is wrong with it.
pub proof fn a_request_gives_a_command_or_arguments(request: ExecRequest)
    ensures
        ({
            let line = request.command is Some && exists|i: int|
                0 <= i < request.command->0@.len() && !text::is_white(
                    #[trigger] request.command->0@[i],
                );
            let argv = request.argv is Some;
            let empty = argv && request.argv->0@.len() == 0;
            &&& request.complaint() is None <==> (line && !argv) || (!line && argv && !empty)
            &&& empty ==> request.complaint() == Some("argv must not be empty"@)
            &&& !line && !argv ==> request.complaint() == Some(
                "give `command` or `argv`, not neither"@,
            )
            &&& line && argv && !empty ==> request.complaint() == Some(
                "give `command` or `argv`, not both"@,
            )
        }),
{
    if let Some(command) = request.command {
        text::trimming_takes_white_ends_only(command@);
    }
}

/// Arguments are run as they are given: the first is the program and the others are what it gets. A
/// command line is handed whole to the shell that is asked for, or to `/bin/sh`.
pub proof fn what_is_run_is_what_was_given(request: ExecRequest)
    ensures
        request.argv matches Some(argv) ==> argv@.len() > 0 ==> seq![request.program()]
            + request.args() == argv.deep_view(),
        request.argv is None && request.command is Some ==> request.args().len() == 2
            && request.args()[0] == "-c"@ && request.args()[1] == request.command->0@,
        request.argv is None && request.shell is Some ==> request.program() == request.shell->0@,
        request.argv is None && request.shell is None ==> request.program() == "/bin/sh"@,
{
    if let Some(argv) = request.argv {
        if argv@.len() > 0 {
            assert(argv.deep_view()[0] == argv@[0]@);
            assert(seq![request.program()] + request.args() == argv.deep_view());
        }
    }
}

/// A command may run for as long as the caller asks and never longer than the cap: the shorter of
/// the two, and the cap where the caller asks for nothing.
pub proof fn a_caller_gets_less_but_never_more(terminal: GatedTerminal, caller: Option<u64>, cap: nat)
    ensures
        allowed_millis(caller, cap) <= cap,
        caller matches Some(asked) ==> allowed_millis(caller, cap) <= asked && (allowed_millis(
            caller,
            cap,
        ) == asked || allowed_millis(caller, cap) == cap),
        caller is None ==> allowed_millis(caller, cap) == cap,
        terminal.exec_timeout@ / 1_000_000 <= u64::MAX ==> terminal.cap_millis() * 1_000_000
            <= terminal.exec_timeout@ < (terminal.cap_millis() + 1) * 1_000_000,
{
}

/// A command runs in the first root where no directory is asked for. Where one is, it runs there
/// only if that really lies inside a root and not inside anything denied.
pub proof fn a_command_runs_inside_the_roots<F: Fn(&NodePath) -> Option<NodePath>>(
    terminal: &GatedTerminal,
    cwd: Option<String>,
    probe: F,
    dir: Seq<u8>,
)
    requires
        terminal.runs_in(cwd, probe, Ok(dir)),
    ensures
        cwd is None ==> dir == terminal.gate.root_bytes(),
        cwd matches Some(asked) ==> exists|resolved: Seq<PartView>|
            {
                &&& #[trigger] gate::resolves_to(
                    probe,
                    terminal.gate.target(asked@),
                    terminal.gate.target(asked@).len(),
                    resolved,
                )
                &&& dir == path::spelled(resolved)
                &&& exists|i: int|
                    0 <= i < terminal.gate.roots@.len() && text::begins_with(
                        resolved,
                        path::parts_of(#[trigger] terminal.gate.roots@[i]@),
                    )
                &&& forall|i: int|
                    0 <= i < terminal.gate.deny@.len() ==> !text::begins_with(
                        resolved,
                        path::parts_of(#[trigger] terminal.gate.deny@[i]@),
                    )
            },
{
    if let Some(asked) = cwd {
        let (resolved, verdict) = choose|resolved: Seq<PartView>, verdict: Result<NodePath, WireError>|
            {
                &&& #[trigger] gate::resolves_to(
                    probe,
                    terminal.gate.target(asked@),
                    terminal.gate.target(asked@).len(),
                    resolved,
                )
                &&& #[trigger] terminal.gate.answers(asked@, resolved, verdict)
                &&& Ok::<Seq<u8>, WireError>(dir) == match verdict {
                    Ok(path) => Ok(path::spelled(path@)),
                    Err(error) => Err(error),
                }
            };
        gate::what_is_under_a_directory_has_its_parts_in_front(resolved, terminal.gate.roots@);
        gate::what_is_under_a_directory_has_its_parts_in_front(resolved, terminal.gate.deny@);
        assert(gate::resolves_to(
            probe,
            terminal.gate.target(asked@),
            terminal.gate.target(asked@).len(),
            resolved,
        ));
    }
}

/// Of a stream the first bytes up to the cap are kept, all of them where there are no more, and it
/// counts as cut exactly where something is missing.
pub proof fn what_is_kept_is_the_start_of_the_stream(out: CappedOutput, seen: Seq<u8>, cap: usize)
    requires
        out.keeps(seen, cap),
    ensures
        text::begins_with(seen, out.bytes@),
        out.bytes@.len() <= cap,
        seen.len() <= cap ==> out.bytes@ == seen,
        seen.len() > cap ==> out.bytes@.len() == cap,
        out.capped <==> out.bytes@.len() < seen.len(),
{
    assert(seen.take(seen.len() as int) == seen);
}

/// A stream is the same however it is cut into chunks.
pub proof fn a_stream_is_its_chunks_in_order(a: Seq<Seq<u8>>, b: Seq<Seq<u8>>, chunk: Seq<u8>)
    ensures
        concatenated(a + b) == concatenated(a) + concatenated(b),
        concatenated(seq![chunk]) == chunk,
    decreases b.len(),
{
    if b.len() == 0 {
        assert(a + b == a);
        assert(concatenated(a) + concatenated(b) == concatenated(a));
        assert(seq![chunk].drop_last() == Seq::<Seq<u8>>::empty());
        assert(concatenated(Seq::<Seq<u8>>::empty()) == Seq::<u8>::empty());
        assert(concatenated(seq![chunk]) == chunk);
    } else {
        a_stream_is_its_chunks_in_order(a, b.drop_last(), chunk);
        assert((a + b).drop_last() == a + b.drop_last());
        assert((a + b).last() == b.last());
        assert(concatenated(a + b) == concatenated(a) + concatenated(b));
    }
}

/// Output that was cut says so behind what was kept, and output that was not is left as it is.
pub proof fn only_output_that_was_cut_says_so(output: Seq<char>)
    ensures
        noted(output, false) == output,
        noted(output, true) == output + "\n… output truncated at the cap"@,
        noted(output, true) != output,
{
    reveal_strlit("\n… output truncated at the cap");
    assert(noted(output, true).len() > output.len());
}

/// A signal goes to the group of the process that was started and to no other: never to every
/// process, and never to the node's own group.
pub proof fn a_signal_reaches_one_group(pid: i32, other: i32)
    ensures
        pid > 0 ==> group_of(pid) is Some && group_of(pid)->0 + pid == 0,
        pid <= 0 ==> group_of(pid) is None,
        pid > 0 && other > 0 && pid != other ==> group_of(pid) != group_of(other),
{
}

/// A command is reported with the code it ended with, and with -1 where it was ended.
pub proof fn a_command_is_reported_with_its_code(code: i32)
    ensures
        exit_code_of(Some(code)) == code,
        exit_code_of(None) == -1,
{
}

/// A plan takes over from a request what it reads and the variables that it gets, unchanged, runs
/// what was given, and is held to the time and the size that the node allows.
pub proof fn a_plan_keeps_to_its_request(
    terminal: &GatedTerminal,
    request: ExecRequest,
    plan: ExecPlan,
)
    requires
        terminal.carries_out(request, plan),
    ensures
        plan.stdin == request.stdin,
        plan.env == request.env,
        plan.cap == terminal.max_output_bytes,
        plan.timeout@ <= terminal.exec_timeout@,
        request.timeout_ms matches Some(asked) ==> plan.timeout@ <= asked * 1_000_000,
        request.argv matches Some(argv) ==> argv@.len() > 0 ==> seq![plan.program@]
            + plan.args.deep_view() == argv.deep_view(),
        request.argv is None && request.command is Some ==> plan.args.deep_view() == seq![
            "-c"@,
            request.command->0@,
        ],
        request.argv is None && request.shell is None ==> plan.program@ == "/bin/sh"@,
{
    what_is_run_is_what_was_given(request);
    a_caller_gets_less_but_never_more(*terminal, request.timeout_ms, terminal.cap_millis());
    let allowed = allowed_millis(request.timeout_ms, terminal.cap_millis());
    assert(terminal.cap_millis() * 1_000_000 <= terminal.exec_timeout@);
    if request.argv is None && request.command is Some {
        assert(plan.args.deep_view() == seq!["-c"@, request.command->0@]);
    }
}

/// Only a command that ran out of time is reported so. Of one that ended each stream is reported
/// apart, marked as cut exactly where it was, and the code is its own.
pub proof fn only_what_ran_out_of_time_is_reported_so(
    stdout: CappedOutput,
    stderr: CappedOutput,
    code: Option<i32>,
)
    ensures
        ran_out().timed_out,
        ran_out().exit_code == -1,
        ran_out().stdout.len() == 0,
        ran_out().stderr == "command timed out; the whole process tree was killed"@,
        !ended(stdout, stderr, code).timed_out,
        ended(stdout, stderr, code).stdout_truncated == stdout.capped,
        ended(stdout, stderr, code).stderr_truncated == stderr.capped,
        !stdout.capped ==> ended(stdout, stderr, code).stdout == text::lossy_text(stdout.bytes@),
        !stderr.capped ==> ended(stdout, stderr, code).stderr == text::lossy_text(stderr.bytes@),
        stdout.capped ==> ended(stdout, stderr, code).stdout == text::lossy_text(stdout.bytes@)
            + "\n… output truncated at the cap"@,
        stderr.capped ==> ended(stdout, stderr, code).stderr == text::lossy_text(stderr.bytes@)
            + "\n… output truncated at the cap"@,
        code matches Some(code) ==> ended(stdout, stderr, Some(code)).exit_code == code,
{
}

} // verus!
