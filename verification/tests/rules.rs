use mk::error::{Error, IoFault};
use mk::file::{File, Timestamp};
use mk::target::{Step, Target};
use mk::walk::{find_newest, Visit};

/// The files of a small tree held in memory, and a clock in seconds.
struct World {
    files: Vec<(String, Timestamp)>,
    dirs: Vec<String>,
    now: u64,
    echoed: Vec<String>,
}

fn world() -> World {
    World { files: Vec::new(), dirs: Vec::new(), now: 1_000, echoed: Vec::new() }
}

fn strings(words: &[&str]) -> Vec<String> {
    words.iter().map(|w| w.to_string()).collect()
}

fn absent() -> IoFault {
    IoFault { not_found: true, cause: "No such file or directory".to_string() }
}

fn touch(w: &mut World, path: &str) {
    let stamp = Timestamp { secs: w.now, nanos: 0 };
    for entry in w.files.iter_mut() {
        if entry.0 == path {
            entry.1 = stamp;
            return;
        }
    }
    w.files.push((path.to_string(), stamp));
}

fn mkdir(w: &mut World, path: &str) {
    w.dirs.push(path.to_string());
}

fn is_there(w: &World, path: &str) -> bool {
    w.files.iter().any(|f| f.0 == path) || w.dirs.iter().any(|d| d == path)
}

fn file_time(w: &World, path: &str) -> Timestamp {
    w.files.iter().find(|f| f.0 == path).unwrap().1
}

/// What a walk of `path` meets, the path itself first.
fn walk(w: &World, path: &str) -> Vec<Visit> {
    if let Some(f) = w.files.iter().find(|f| f.0 == path) {
        return vec![Visit::Entry { path: f.0.clone(), is_file: true, modified: Ok(f.1) }];
    }
    if !w.dirs.iter().any(|d| d == path) {
        return vec![Visit::Blocked(absent())];
    }
    let below = format!("{}/", path);
    let mut visits = vec![Visit::Entry {
        path: path.to_string(),
        is_file: false,
        modified: Ok(Timestamp { secs: w.now, nanos: 0 }),
    }];
    for f in w.files.iter() {
        if f.0.starts_with(&below) {
            visits.push(Visit::Entry { path: f.0.clone(), is_file: true, modified: Ok(f.1) });
        }
    }
    visits
}

/// Parses `args`, looking up each path that parsing asks for.
fn evaluate(w: &World, args: &[&str]) -> Result<Target, Error> {
    let mut resolved: Vec<Result<File, Error>> = Vec::new();
    loop {
        match Target::parse(strings(args), &resolved)? {
            Step::Done(target) => return Ok(target),
            Step::Resolve(path) => {
                assert!(resolved.len() < args.len());
                resolved.push(find_newest(&path, &walk(w, &path)));
            }
        }
    }
}

/// A shell that knows `touch`, `true` and `false`.
fn shell(w: &mut World, line: &str) -> Option<i32> {
    let words: Vec<&str> = line.split(' ').collect();
    match words[0] {
        "true" => Some(0),
        "false" => Some(1),
        "touch" => {
            for path in &words[1..] {
                touch(w, path);
            }
            Some(0)
        }
        _ => Some(127),
    }
}

/// Evaluates the rule and runs its command if it has to: the exit code.
fn mk(w: &mut World, args: &[&str]) -> i32 {
    let target = match evaluate(w, args) {
        Ok(target) => target,
        Err(_) => return 1,
    };
    if !target.should_run_command() {
        return 0;
    }
    let line = target.command_line();
    if line.echo {
        w.echoed.push(line.text.clone());
    }
    let status = shell(w, &line.text);
    let present: Vec<Result<(), IoFault>> = target
        .outputs()
        .iter()
        .map(|o| if is_there(w, o) { Ok(()) } else { Err(absent()) })
        .collect();
    match target.run_command(Ok(status), &present) {
        Ok(()) => 0,
        Err(Error::CommandFailed(code)) => code,
        Err(_) => 1,
    }
}

fn assert_mk_ok(w: &mut World, args: &[&str]) {
    assert_eq!(mk(w, args), 0);
}

fn assert_mk_fails(w: &mut World, args: &[&str]) {
    assert_ne!(mk(w, args), 0);
}

#[test]
fn test_mk_ok() {
    let mut w = world();
    touch(&mut w, "input");
    assert_mk_ok(&mut w, &["output", ":", "input", "--", "touch", "output"]);
    assert!(is_there(&w, "output"));
}

#[test]
fn test_mk_no_rebuild() {
    let mut w = world();
    touch(&mut w, "input");
    touch(&mut w, "output");
    assert_mk_ok(&mut w, &["output", ":", "input", "--", "false"]);
    assert!(is_there(&w, "output"));
}

#[test]
fn test_mk_command_fails() {
    let mut w = world();
    touch(&mut w, "input");
    assert_mk_fails(&mut w, &["output", ":", "input", "--", "false"]);
    assert!(!is_there(&w, "output"));
}

#[test]
fn test_mk_missing_output() {
    let mut w = world();
    assert_mk_fails(&mut w, &["output", ":", "input", "--", "true"]);
    assert!(!is_there(&w, "output"));
}

#[test]
fn test_unknown_command() {
    let mut w = world();
    touch(&mut w, "input");
    assert_mk_fails(&mut w, &["output", ":", "input", "--", "thereisdefinitelynocommand"]);
    assert!(!is_there(&w, "output"));
}

#[test]
fn test_mk_output_with_no_input() {
    let mut w = world();
    assert_mk_ok(&mut w, &["output", "--", "touch", "output"]);
    assert!(is_there(&w, "output"));
}

#[test]
fn test_mk_output_with_no_input_or_command() {
    let mut w = world();
    assert_mk_fails(&mut w, &["output"]);
    assert!(!is_there(&w, "output"));
}

#[test]
fn test_mk_input_is_dir() {
    let mut w = world();
    mkdir(&mut w, "input");
    touch(&mut w, "input/input");
    w.now += 1;
    assert_mk_ok(&mut w, &["output", ":", "input", "--", "touch", "output"]);
    assert!(is_there(&w, "output"));
    let before = file_time(&w, "output");
    w.now += 1;
    touch(&mut w, "input/input");
    w.now += 1;
    assert_mk_ok(&mut w, &["output", ":", "input", "--", "touch", "output"]);
    assert!(is_there(&w, "output"));
    let after = file_time(&w, "output");
    assert!(after.secs > before.secs);
}

#[test]
fn fresh_outputs_need_no_rebuild() {
    let mut w = world();
    touch(&mut w, "a.c");
    touch(&mut w, "b.c");
    w.now += 5;
    touch(&mut w, "a.o");
    touch(&mut w, "b.o");
    let target = evaluate(&w, &["a.o", "b.o", ":", "a.c", "b.c", "--", "false"]).unwrap();
    assert!(!target.needs_rebuild());
    assert!(!target.should_run_command());
    assert_eq!(target.outputs(), &strings(&["a.o", "b.o"]));
    assert_eq!(target.inputs(), &strings(&["a.c", "b.c"]));
    assert_eq!(target.command(), &strings(&["false"]));
}

#[test]
fn satisfied_rule_leaves_outputs_alone() {
    let mut w = world();
    touch(&mut w, "input");
    assert_mk_ok(&mut w, &["output", ":", "input", "--", "touch", "output"]);
    let old_time = file_time(&w, "output");
    w.now += 10;
    assert_mk_ok(&mut w, &["output", ":", "input", "--", "touch", "output"]);
    assert_eq!(file_time(&w, "output"), old_time);
    assert_eq!(w.echoed, strings(&["touch output"]));
}

#[test]
fn no_inputs_rebuilds_every_time() {
    let mut w = world();
    touch(&mut w, "output");
    let target = evaluate(&w, &["output", "--", "touch", "output"]).unwrap();
    assert!(target.needs_rebuild());
    assert!(target.should_run_command());
    let old_time = file_time(&w, "output");
    w.now += 3;
    assert_mk_ok(&mut w, &["output", "--", "touch", "output"]);
    assert_eq!(file_time(&w, "output").secs, old_time.secs + 3);
}

#[test]
fn no_inputs_without_command_reports_stale() {
    let mut w = world();
    touch(&mut w, "output");
    let target = evaluate(&w, &["output"]).unwrap();
    assert!(target.needs_rebuild());
    assert!(!target.should_run_command());
    assert_eq!(mk(&mut w, &["output"]), 0);
}

#[test]
fn missing_output_is_stale() {
    let mut w = world();
    touch(&mut w, "input");
    w.now += 1;
    touch(&mut w, "first");
    let target = evaluate(&w, &["first", "second", ":", "input", "--", "true"]).unwrap();
    assert!(target.needs_rebuild());
}

#[test]
fn missing_output_ends_the_lookups() {
    let args = strings(&["first", "second", ":", "input", "--", "true"]);
    let resolved = vec![Err(Error::NotFound("first".to_string()))];
    match Target::parse(args, &resolved) {
        Ok(Step::Done(target)) => assert!(target.needs_rebuild()),
        other => panic!("{:?}", other),
    }
}

#[test]
fn missing_input_is_an_error() {
    let mut w = world();
    touch(&mut w, "output");
    touch(&mut w, "one");
    match evaluate(&w, &["output", ":", "one", "two", "--", "touch", "output"]) {
        Err(e) => assert_eq!(e, Error::MissingInput("two".to_string())),
        Ok(_) => panic!("parsed"),
    }
    assert_eq!(mk(&mut w, &["output", ":", "one", "two", "--", "touch", "output"]), 1);
    assert!(w.echoed.is_empty());
}

#[test]
fn newer_input_ends_the_lookups() {
    let args = strings(&["out", ":", "new", "gone"]);
    let stamp = |path: &str, secs: u64| {
        Ok(File { modified: Timestamp { secs, nanos: 0 }, path: path.to_string() })
    };
    let resolved = vec![stamp("out", 10), stamp("new", 11)];
    match Target::parse(args, &resolved) {
        Ok(Step::Done(target)) => assert!(target.needs_rebuild()),
        other => panic!("{:?}", other),
    }
}

#[test]
fn parse_asks_for_paths_in_declared_order() {
    let args = strings(&["o1", "o2", ":", "i1", "i2", "--", "cc"]);
    let stamp = |path: &str, secs: u64| {
        Ok(File { modified: Timestamp { secs, nanos: 0 }, path: path.to_string() })
    };
    let mut resolved: Vec<Result<File, Error>> = Vec::new();
    let mut asked: Vec<String> = Vec::new();
    loop {
        match Target::parse(args.clone(), &resolved).unwrap() {
            Step::Resolve(path) => {
                resolved.push(stamp(&path, 7));
                asked.push(path);
            }
            Step::Done(target) => {
                assert!(!target.needs_rebuild());
                break;
            }
        }
    }
    assert_eq!(asked, strings(&["o1", "o2", "i1", "i2"]));
}

#[test]
fn whole_seconds_decide() {
    let args = strings(&["out", ":", "in", "--", "cc"]);
    let stamp = |path: &str, secs: u64, nanos: u32| {
        Ok(File { modified: Timestamp { secs, nanos }, path: path.to_string() })
    };
    let same = vec![stamp("out", 10, 1), stamp("in", 10, 999_999_999)];
    match Target::parse(args.clone(), &same) {
        Ok(Step::Done(target)) => assert!(!target.needs_rebuild()),
        other => panic!("{:?}", other),
    }
    let later = vec![stamp("out", 10, 999_999_999), stamp("in", 11, 0)];
    match Target::parse(args, &later) {
        Ok(Step::Done(target)) => assert!(target.needs_rebuild()),
        other => panic!("{:?}", other),
    }
}

#[test]
fn other_failures_are_fatal() {
    let args = strings(&["out", ":", "in", "--", "cc"]);
    let denied = Error::IO("out".to_string(), "Permission denied".to_string());
    let resolved = vec![Err(denied.clone())];
    match Target::parse(args.clone(), &resolved) {
        Err(e) => assert_eq!(e, denied),
        other => panic!("{:?}", other),
    }
    let out = File { modified: Timestamp { secs: 5, nanos: 0 }, path: "out".to_string() };
    let denied = Error::IO("in".to_string(), "Permission denied".to_string());
    let resolved = vec![Ok(out), Err(denied.clone())];
    match Target::parse(args, &resolved) {
        Err(e) => assert_eq!(e, denied),
        other => panic!("{:?}", other),
    }
}

#[test]
fn no_output_declared() {
    match Target::parse(strings(&["--", "touch", "x"]), &Vec::new()) {
        Err(e) => assert_eq!(e, Error::MissingOutputs),
        other => panic!("{:?}", other),
    }
    match Target::parse(strings(&[":", "in"]), &Vec::new()) {
        Err(e) => assert_eq!(e, Error::MissingOutputs),
        other => panic!("{:?}", other),
    }
    match Target::parse(Vec::new(), &Vec::new()) {
        Err(e) => assert_eq!(e, Error::MissingOutputs),
        other => panic!("{:?}", other),
    }
}

#[test]
fn empty_directory_output_without_command() {
    let mut w = world();
    mkdir(&mut w, "build");
    touch(&mut w, "input");
    match evaluate(&w, &["build", ":", "input"]) {
        Err(e) => assert_eq!(e, Error::MissingOutput("build".to_string())),
        Ok(_) => panic!("parsed"),
    }
    let target = evaluate(&w, &["build", ":", "input", "--", "touch", "build/x"]).unwrap();
    assert!(target.needs_rebuild());
}

#[test]
fn command_failure_keeps_its_code() {
    let mut w = world();
    touch(&mut w, "in");
    let target = evaluate(&w, &["out", ":", "in", "--", "false"]).unwrap();
    assert!(target.should_run_command());
    let r = target.run_command(Ok(Some(1)), &Vec::new());
    assert_eq!(r, Err(Error::CommandFailed(1)));
    let r = target.run_command(Ok(Some(42)), &vec![Ok(())]);
    assert_eq!(r, Err(Error::CommandFailed(42)));
    assert!(!is_there(&w, "out"));
}

#[test]
fn killed_command_counts_as_minus_one() {
    let w = world();
    let target = evaluate(&w, &["out", "--", "sleep", "9"]).unwrap();
    let r = target.run_command(Ok(None), &Vec::new());
    assert_eq!(r, Err(Error::CommandFailed(-1)));
}

#[test]
fn shell_that_does_not_start() {
    let w = world();
    let target = evaluate(&w, &["out", "--", "true"]).unwrap();
    let fault = IoFault { not_found: false, cause: "Resource temporarily unavailable".to_string() };
    let r = target.run_command(Err(fault), &Vec::new());
    assert_eq!(r, Err(Error::IO(String::new(), "Resource temporarily unavailable".to_string())));
    let r = target.run_command(Err(absent()), &Vec::new());
    assert_eq!(r, Err(Error::NotFound(String::new())));
}

#[test]
fn output_missing_after_success() {
    let mut w = world();
    touch(&mut w, "in");
    let target = evaluate(&w, &["out", ":", "in", "--", "true"]).unwrap();
    let r = target.run_command(Ok(Some(0)), &vec![Err(absent())]);
    assert_eq!(r, Err(Error::MissingOutput("out".to_string())));
    let r = target.run_command(Ok(Some(0)), &vec![Ok(())]);
    assert_eq!(r, Ok(()));
}

#[test]
fn first_missing_output_is_named() {
    let w = world();
    let target = evaluate(&w, &["a", "b", "c", "--", "true"]).unwrap();
    let r = target.run_command(Ok(Some(0)), &vec![Ok(()), Err(absent()), Err(absent())]);
    assert_eq!(r, Err(Error::MissingOutput("b".to_string())));
    let denied = IoFault { not_found: false, cause: "Permission denied".to_string() };
    let r = target.run_command(Ok(Some(0)), &vec![Ok(()), Err(denied), Err(absent())]);
    assert_eq!(r, Err(Error::IO(String::new(), "Permission denied".to_string())));
}

#[test]
fn echo_suppression() {
    let mut w = world();
    let target = evaluate(&w, &["out", "--", "@touch", "out"]).unwrap();
    let line = target.command_line();
    assert!(!line.echo);
    assert_eq!(line.text, "touch out");
    assert_mk_ok(&mut w, &["out", "--", "@touch", "out"]);
    assert!(w.echoed.is_empty());
    assert!(is_there(&w, "out"));
}

#[test]
fn command_is_echoed_by_default() {
    let mut w = world();
    assert_mk_ok(&mut w, &["out", "--", "touch", "out"]);
    assert_eq!(w.echoed, strings(&["touch out"]));
}

#[test]
fn single_token_runs_verbatim() {
    let w = world();
    let target = evaluate(&w, &["out", "--", "cc -c main.c && touch out"]).unwrap();
    let line = target.command_line();
    assert!(line.echo);
    assert_eq!(line.text, "cc -c main.c && touch out");
    let target = evaluate(&w, &["out", "--", "@"]).unwrap();
    let line = target.command_line();
    assert!(!line.echo);
    assert_eq!(line.text, "");
}

#[test]
fn several_tokens_are_quoted() {
    let w = world();
    let target = evaluate(&w, &["out", "--", "echo", "a b", "it's", ""]).unwrap();
    let line = target.command_line();
    assert!(line.echo);
    assert_eq!(line.text, shell_words::join(["echo", "a b", "it's", ""]));
    assert_eq!(line.text, "echo 'a b' 'it'\\''s' ''");
}

#[test]
fn separators_inside_the_command_are_tokens() {
    let w = world();
    let target = evaluate(&w, &["out", "--", "git", "log", "--", ":", "x"]).unwrap();
    assert_eq!(target.outputs(), &strings(&["out"]));
    assert!(target.inputs().is_empty());
    assert_eq!(target.command(), &strings(&["git", "log", "--", ":", "x"]));
}

#[test]
fn repeated_colon_is_dropped() {
    let mut w = world();
    touch(&mut w, "a");
    touch(&mut w, "b");
    touch(&mut w, "out");
    let target = evaluate(&w, &["out", ":", "a", ":", "b"]).unwrap();
    assert_eq!(target.inputs(), &strings(&["a", "b"]));
    assert!(target.command().is_empty());
    assert!(!target.needs_rebuild());
}
