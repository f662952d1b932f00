use zyris_docker::file_io::GatedFileIo;
use zyris_docker::gate::PathGate;
use zyris_docker::path::NodePath;
use zyris_docker::terminal::{
    could_not_run, kill_group, read_capped, CappedOutput, ExecOutput, ExecRequest, GatedTerminal,
};
use zyris_docker::time::Duration;
use zyris_docker::wire::ErrorCode;

fn gate() -> PathGate {
    PathGate { roots: vec![b"/data".to_vec()], deny: vec![] }
}

fn term() -> GatedTerminal {
    GatedTerminal::new(gate(), 64, Duration::from_secs(5))
}

fn as_it_is(path: &NodePath) -> Option<NodePath> {
    Some(path.copy())
}

fn request(command: Option<&str>, argv: Option<&[&str]>) -> ExecRequest {
    ExecRequest {
        command: command.map(str::to_string),
        argv: argv.map(|argv| argv.iter().map(|arg| arg.to_string()).collect()),
        cwd: None,
        timeout_ms: None,
        stdin: None,
        env: vec![],
        shell: None,
    }
}

fn complaint(request: ExecRequest) -> String {
    let error = term().plan(request, as_it_is).err().unwrap();
    assert_eq!(error.code, ErrorCode::InvalidParams);
    error.message
}

#[test]
fn a_command_line_goes_to_a_shell_at_the_root() {
    let plan = term().plan(request(Some("echo hello"), None), as_it_is).ok().unwrap();
    assert_eq!(plan.program, "/bin/sh");
    assert_eq!(plan.args, ["-c", "echo hello"]);
    assert_eq!(plan.dir, b"/data".to_vec());
    assert_eq!(plan.timeout, Duration::from_secs(5));
    assert_eq!(plan.cap, 64);
    let mut asked = request(Some("pwd"), None);
    asked.shell = Some("/bin/bash".to_string());
    asked.cwd = Some("sub/./x".to_string());
    asked.env = vec![("K".to_string(), "V".to_string())];
    asked.stdin = Some("in".to_string());
    let plan = term().plan(asked, as_it_is).ok().unwrap();
    assert_eq!(plan.program, "/bin/bash");
    assert_eq!(plan.dir, b"/data/sub/x".to_vec());
    assert_eq!(plan.env, [("K".to_string(), "V".to_string())]);
    assert_eq!(plan.stdin.unwrap(), "in");
}

#[test]
fn arguments_reach_the_program_exactly_as_given() {
    let plan = term().plan(request(Some(" "), Some(&["ls", "-l", "a b"])), as_it_is).ok().unwrap();
    assert_eq!(plan.program, "ls");
    assert_eq!(plan.args, ["-l", "a b"]);
}

#[test]
fn arguments_that_make_no_sense_are_refused() {
    assert_eq!(complaint(request(Some("x"), Some(&[]))), "argv must not be empty");
    assert_eq!(complaint(request(None, None)), "give `command` or `argv`, not neither");
    assert_eq!(complaint(request(Some(" \t"), None)), "give `command` or `argv`, not neither");
    assert_eq!(complaint(request(Some("x"), Some(&["y"]))), "give `command` or `argv`, not both");
}

#[test]
fn exec_refuses_a_cwd_outside_the_root() {
    let mut asked = request(Some("pwd"), None);
    asked.cwd = Some("/etc".to_string());
    let err = term().plan(asked, as_it_is).err().unwrap();
    assert_eq!(err.code, ErrorCode::ForbiddenScope);
}

#[test]
fn exec_output_is_capped() {
    let chunks = vec![vec![b'a'; 40], vec![b'a'; 40], vec![b'a'; 420]];
    let kept = read_capped(&chunks, 64);
    assert_eq!(kept.bytes, vec![b'a'; 64]);
    assert!(kept.capped);
    let out = ExecOutput::completed(&kept, &CappedOutput::new(), Some(0));
    assert_eq!(out.exit_code, 0);
    assert!(out.stdout_truncated, "expected a truncated flag");
    assert!(out.stdout.len() <= 64 + 64, "{}", out.stdout.len());
    assert_eq!(out.stdout, format!("{}\n… output truncated at the cap", "a".repeat(64)));
    assert_eq!(out.stderr, "");
}

#[test]
fn what_is_kept_does_not_depend_on_where_the_chunks_part() {
    let whole: Vec<u8> = (0..100).collect();
    let one = read_capped(&vec![whole.clone()], 70);
    let many = read_capped(&whole.chunks(7).map(|c| c.to_vec()).collect(), 70);
    assert_eq!((one.bytes, one.capped), (many.bytes, many.capped));
    let exact = read_capped(&vec![whole.clone()], 100);
    assert!(!exact.capped);
    assert_eq!(exact.bytes, whole);
}

#[test]
fn output_that_is_not_text_is_shown_all_the_same() {
    let kept = read_capped(&vec![b"ok \xff\xfe".to_vec()], 64);
    let out = ExecOutput::completed(&CappedOutput::new(), &kept, None);
    assert_eq!(out.exit_code, -1);
    assert_eq!(out.stderr, "ok \u{fffd}\u{fffd}");
}

#[test]
fn a_caller_may_ask_for_less_time_but_not_for_more() {
    let t = term();
    assert_eq!(t.effective_timeout(None), Duration::from_secs(5));
    assert_eq!(t.effective_timeout(Some(10)), Duration::from_millis(10));
    assert_eq!(t.effective_timeout(Some(50_000)), Duration::from_secs(5));
}

#[test]
fn a_command_that_runs_out_of_time_says_so() {
    let out = ExecOutput::out_of_time();
    assert!(out.timed_out);
    assert_eq!(out.exit_code, -1);
    assert_eq!(out.stderr, "command timed out; the whole process tree was killed");
    let error = could_not_run("No such file");
    assert_eq!(error.code, ErrorCode::Internal);
    assert_eq!(error.message, "could not run: No such file");
}

#[test]
fn a_signal_goes_to_the_whole_group() {
    assert_eq!(kill_group(42), Some(-42));
    assert_eq!(kill_group(0), None);
    assert_eq!(kill_group(-1), None);
}

#[test]
fn file_io_goes_on_with_the_real_path_or_the_refusal() {
    let io = GatedFileIo::new(gate());
    assert_eq!(io.ok("a//b.txt", as_it_is).ok().unwrap(), "/data/a/b.txt");
    let linked = |_: &NodePath| Some(NodePath::parse(b"/data/real"));
    assert_eq!(io.ok("link", linked).ok().unwrap(), "/data/real");
    let escaped = |_: &NodePath| Some(NodePath::parse(b"/etc/hosts"));
    let err = io.ok("link", escaped).err().unwrap();
    assert_eq!(err.code, ErrorCode::ForbiddenScope);
}

#[test]
fn file_io_refuses_whatever_is_outside_the_root() {
    let io = GatedFileIo::new(gate());
    for outside in ["/etc/hosts", "/etc", "../etc", "/etc/zyris-docker-nope", "/"] {
        assert!(io.ok(outside, as_it_is).is_err(), "{outside}");
    }
    assert_eq!(io.ok("sub/new.txt", |path: &NodePath| {
        let bytes = path.spell();
        if bytes == b"/data" { Some(path.copy()) } else { None }
    }).ok().unwrap(), "/data/sub/new.txt");
}
