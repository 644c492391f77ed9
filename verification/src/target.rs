//! The rule itself: its staleness verdict and the check that follows a run.

use crate::error::Error;
use crate::error::fault_at;
use crate::error::ErrorView;
use crate::error::IoFault;
use crate::error::IoFaultView;
use crate::file::File;
use crate::file::FileView;
use crate::grammar::partition;
use crate::grammar::split_args;
use crate::grammar::words;
use crate::shell::echo_policy;
use crate::shell::echo_policy_spec;
use crate::shell::format_command;
use crate::shell::formatted;
use crate::shell::CommandLine;
use crate::walk::resolutions;
use crate::walk::Resolved;
use vstd::prelude::*;

verus! {

/// One evaluated rule: what it declares, and whether it must be rebuilt.
#[derive(Debug)]
pub struct Target {
    outputs: Vec<String>,
    inputs: Vec<String>,
    command: Vec<String>,
    needs_rebuild: bool,
}

/// A [`Target`] with its tokens as sequences of characters.
pub struct TargetView {
    pub outputs: Seq<Seq<char>>,
    pub inputs: Seq<Seq<char>>,
    pub command: Seq<Seq<char>>,
    pub needs_rebuild: bool,
}

impl TargetView {
    /// What holds of every parsed rule: it declares an output, and it is
    /// stale if it declares no input.
    pub open spec fn well_formed(self) -> bool {
        self.outputs.len() > 0 && (self.inputs.len() == 0 ==> self.needs_rebuild)
    }

    /// Whether the command is to be run: the rule is stale and has one.
    pub open spec fn should_run_command(self) -> bool {
        self.needs_rebuild && self.command.len() > 0
    }
}

impl View for Target {
    type V = TargetView;

    closed spec fn view(&self) -> TargetView {
        TargetView {
            outputs: words(self.outputs@),
            inputs: words(self.inputs@),
            command: words(self.command@),
            needs_rebuild: self.needs_rebuild,
        }
    }
}

/// What parsing asks for or yields.
#[derive(Debug)]
pub enum Step {
    /// The stamp of this declared path is needed next.
    Resolve(String),
    /// Every stamp that matters is known: the rule with its verdict.
    Done(Target),
}

/// A [`Step`] seen through the views of its parts.
pub enum StepView {
    Resolve(Seq<char>),
    Done(TargetView),
}

impl View for Step {
    type V = StepView;

    open spec fn view(&self) -> StepView {
        match self {
            Step::Resolve(path) => StepView::Resolve(path@),
            Step::Done(target) => StepView::Done(target@),
        }
    }
}

/// How far the walk over the declared outputs got.
pub enum OutputScan {
    /// The stamp of this output is not known yet.
    Pending(Seq<char>),
    /// A lookup failed for another reason than absence.
    Failed(ErrorView),
    /// The walk ended: the newest stamp seen, whether it ended at a missing
    /// output, and how many lookups it used.
    Settled { newest: FileView, missing: bool, used: nat },
}

/// How far the walk over the declared inputs got.
pub enum InputScan {
    /// The stamp of this input is not known yet.
    Pending(Seq<char>),
    /// An input is absent, or its lookup failed.
    Failed(ErrorView),
    /// The walk ended, at an input newer than every output or at the end.
    Settled { stale: bool },
}

/// The newer of two stamps at whole seconds; the one held so far stays on
/// a tie.
pub open spec fn newer_of(held: FileView, seen: FileView) -> FileView {
    if seen.newer_than(held) {
        seen
    } else {
        held
    }
}

/// Walks the outputs from the `i`-th on, `newest` being the newest stamp
/// so far. The lookup of the `i`-th output is `resolved[i]`. The walk stops
/// at the first output that does not exist.
pub open spec fn scan_outputs(
    outputs: Seq<Seq<char>>,
    resolved: Seq<Resolved>,
    i: nat,
    newest: FileView,
) -> OutputScan
    decreases outputs.len() - i,
{
    if i >= outputs.len() {
        OutputScan::Settled { newest, missing: false, used: i }
    } else if i >= resolved.len() {
        OutputScan::Pending(outputs[i as int])
    } else {
        match resolved[i as int] {
            Ok(file) => scan_outputs(outputs, resolved, i + 1, newer_of(newest, file)),
            Err(e) => if e is NotFound {
                OutputScan::Settled { newest, missing: true, used: i + 1 }
            } else {
                OutputScan::Failed(e)
            },
        }
    }
}

/// Walks the inputs from the `j`-th on against the newest output. The
/// lookup of the `j`-th input is `resolved[base + j]`. The walk stops at
/// the first input that is newer than `newest`.
pub open spec fn scan_inputs(
    inputs: Seq<Seq<char>>,
    resolved: Seq<Resolved>,
    base: nat,
    j: nat,
    newest: FileView,
) -> InputScan
    decreases inputs.len() - j,
{
    if j >= inputs.len() {
        InputScan::Settled { stale: false }
    } else if base + j >= resolved.len() {
        InputScan::Pending(inputs[j as int])
    } else {
        match resolved[(base + j) as int] {
            Ok(file) => if file.newer_than(newest) {
                InputScan::Settled { stale: true }
            } else {
                scan_inputs(inputs, resolved, base, j + 1, newest)
            },
            Err(e) => if e is NotFound {
                InputScan::Failed(ErrorView::MissingInput(inputs[j as int]))
            } else {
                InputScan::Failed(e)
            },
        }
    }
}

/// The last part of parsing, once both walks have ended. A rule without
/// inputs is always stale. A rule whose outputs gave no stamp and which
/// has no command cannot be satisfied.
pub open spec fn conclude(
    outputs: Seq<Seq<char>>,
    inputs: Seq<Seq<char>>,
    command: Seq<Seq<char>>,
    newest: FileView,
    missing: bool,
    stale: bool,
) -> Result<StepView, ErrorView>
    recommends
        outputs.len() > 0,
{
    if newest.same_second(FileView::unset()) && command.len() == 0 {
        Err(ErrorView::MissingOutput(outputs[0]))
    } else {
        Ok(
            StepView::Done(
                TargetView {
                    outputs,
                    inputs,
                    command,
                    needs_rebuild: missing || stale || inputs.len() == 0,
                },
            ),
        )
    }
}

/// What parsing `tokens` gives when `resolved` holds the lookups made so
/// far: first those of the outputs in declared order, up to the first
/// missing one, then, unless an output is missing, those of the inputs.
pub open spec fn parse_spec(tokens: Seq<Seq<char>>, resolved: Seq<Resolved>) -> Result<
    StepView,
    ErrorView,
> {
    let b = partition(tokens);
    if b.outputs.len() == 0 {
        Err(ErrorView::MissingOutputs)
    } else {
        match scan_outputs(b.outputs, resolved, 0, FileView::unset()) {
            OutputScan::Pending(path) => Ok(StepView::Resolve(path)),
            OutputScan::Failed(e) => Err(e),
            OutputScan::Settled { newest, missing, used } => if missing {
                conclude(b.outputs, b.inputs, b.command, newest, true, false)
            } else {
                match scan_inputs(b.inputs, resolved, used, 0, newest) {
                    InputScan::Pending(path) => Ok(StepView::Resolve(path)),
                    InputScan::Failed(e) => Err(e),
                    InputScan::Settled { stale } => conclude(
                        b.outputs,
                        b.inputs,
                        b.command,
                        newest,
                        false,
                        stale,
                    ),
                }
            },
        }
    }
}

/// What looking for one declared output after the command gave.
pub type Probed = Result<(), IoFaultView>;

/// The view of one such lookup.
pub open spec fn probe_view(p: Result<(), IoFault>) -> Probed {
    match p {
        Ok(_) => Ok(()),
        Err(fault) => Err(fault@),
    }
}

/// The views of the lookups of all declared outputs, in declared order.
pub open spec fn probes(ps: Seq<Result<(), IoFault>>) -> Seq<Probed> {
    ps.map_values(|p: Result<(), IoFault>| probe_view(p))
}

/// The exit code that a finished command counts as: its own, or -1 where
/// a signal ended it and it has none.
pub open spec fn exit_code(status: Option<i32>) -> int {
    match status {
        Some(code) => code as int,
        None => -1,
    }
}

/// Checks the outputs from the `k`-th on: the first that is absent is the
/// missing output; the first whose lookup fails otherwise is reported
/// with no path.
pub open spec fn check_outputs(outputs: Seq<Seq<char>>, probed: Seq<Probed>, k: nat) -> Result<
    (),
    ErrorView,
>
    recommends
        probed.len() == outputs.len(),
    decreases outputs.len() - k,
{
    if k >= outputs.len() {
        Ok(())
    } else {
        match probed[k as int] {
            Ok(_) => check_outputs(outputs, probed, k + 1),
            Err(fault) => if fault.not_found {
                Err(ErrorView::MissingOutput(outputs[k as int]))
            } else {
                Err(fault_at(Seq::<char>::empty(), fault))
            },
        }
    }
}

/// The outcome of a run: a shell that could not be started, a command
/// that failed, or the check of the outputs after a command that
/// succeeded.
pub open spec fn run_command_spec(
    outputs: Seq<Seq<char>>,
    exit: Result<Option<i32>, IoFaultView>,
    probed: Seq<Probed>,
) -> Result<(), ErrorView> {
    match exit {
        Err(fault) => Err(fault_at(Seq::<char>::empty(), fault)),
        Ok(status) => if exit_code(status) != 0 {
            Err(ErrorView::CommandFailed(exit_code(status)))
        } else {
            check_outputs(outputs, probed, 0)
        },
    }
}

/// The view of what starting the shell and waiting for it gave.
pub open spec fn exit_view(exit: Result<Option<i32>, IoFault>) -> Result<Option<i32>, IoFaultView> {
    match exit {
        Ok(status) => Ok(status),
        Err(fault) => Err(fault@),
    }
}

/// Whether `r` is what `expected` describes.
pub open spec fn run_matches(r: Result<(), Error>, expected: Result<(), ErrorView>) -> bool {
    match r {
        Ok(_) => expected is Ok,
        Err(e) => expected == Err::<(), ErrorView>(e@),
    }
}

/// Whether `r` is what `expected` describes.
pub open spec fn step_matches(r: Result<Step, Error>, expected: Result<StepView, ErrorView>) -> bool {
    match r {
        Ok(step) => expected == Ok::<StepView, ErrorView>(step@),
        Err(e) => expected == Err::<StepView, ErrorView>(e@),
    }
}

impl Target {
    #[verifier::type_invariant]
    closed spec fn is_rule(&self) -> bool {
        self@.well_formed()
    }

    /// The declared outputs, in declared order.
    pub fn outputs(&self) -> (outputs: &Vec<String>)
        ensures
            words(outputs@) == self@.outputs,
            outputs.len() > 0,
    {
        proof {
            use_type_invariant(self);
        }
        &self.outputs
    }

    /// The declared inputs, in declared order.
    pub fn inputs(&self) -> (inputs: &Vec<String>)
        ensures
            words(inputs@) == self@.inputs,
    {
        &self.inputs
    }

    /// The tokens of the command; none for a rule that only reports.
    pub fn command(&self) -> (command: &Vec<String>)
        ensures
            words(command@) == self@.command,
    {
        &self.command
    }

    /// Parses `args` as far as the lookups in `resolved` allow.
    ///
    /// `resolved` holds, in the order in which earlier calls asked for
    /// them, the stamps of the declared paths. While one is wanting the
    /// result is `Step::Resolve` with the path to look up next: append its
    /// stamp and call again. No path is asked for once the verdict is
    /// certain.
    pub fn parse(args: Vec<String>, resolved: &Vec<Result<File, Error>>) -> (r: Result<
        Step,
        Error,
    >)
        ensures
            step_matches(r, parse_spec(words(args@), resolutions(resolved@))),
    {
        let parts = split_args(&args);
        let outputs = parts.outputs;
        let inputs = parts.inputs;
        let command = parts.command;
        if outputs.len() == 0 {
            return Err(Error::MissingOutputs);
        }
        let (newest_output, missing, used) = match walk_outputs(&outputs, resolved) {
            OutputWalk::Pending(path) => {
                return Ok(Step::Resolve(path));
            },
            OutputWalk::Failed(e) => {
                return Err(e);
            },
            OutputWalk::Settled { newest, missing, used } => (newest, missing, used),
        };
        let stale = if missing {
            false
        } else {
            match walk_inputs(&inputs, resolved, used, &newest_output) {
                InputWalk::Pending(path) => {
                    return Ok(Step::Resolve(path));
                },
                InputWalk::Failed(e) => {
                    return Err(e);
                },
                InputWalk::Settled { stale } => stale,
            }
        };
        if newest_output == File::default() && command.len() == 0 {
            return Err(Error::MissingOutput(outputs[0].clone()));
        }
        let needs_rebuild = missing || stale || inputs.len() == 0;
        Ok(Step::Done(Target { outputs, inputs, command, needs_rebuild }))
    }

    /// Whether the rule is stale. Every rule is well formed: parsing makes
    /// no other, and a rule does not change once it is made.
    pub fn needs_rebuild(&self) -> (stale: bool)
        ensures
            stale == self@.needs_rebuild,
            self@.well_formed(),
    {
        proof {
            use_type_invariant(self);
        }
        self.needs_rebuild
    }

    /// The command as the shell is to get it, and whether to show it.
    pub fn command_line(&self) -> (line: CommandLine)
        requires
            self@.command.len() > 0,
        ensures
            line@ == echo_policy_spec(formatted(self@.command)),
    {
        echo_policy(format_command(&self.command))
    }

    /// Judges a run of the command and verifies that all outputs exist.
    ///
    /// `exit` is what starting the shell and waiting for it gave: a fault,
    /// or the exit code, if the command has one. `present` holds, for a
    /// command that succeeded, the lookup of each declared output in
    /// declared order.
    pub fn run_command(
        &self,
        exit: Result<Option<i32>, IoFault>,
        present: &Vec<Result<(), IoFault>>,
    ) -> (r: Result<(), Error>)
        requires
            exit_view(exit) is Ok && exit_code(exit_view(exit)->Ok_0) == 0 ==> present.len()
                == self@.outputs.len(),
        ensures
            run_matches(r, run_command_spec(self@.outputs, exit_view(exit), probes(present@))),
    {
        let status = match exit {
            Ok(status) => status,
            Err(fault) => {
                return Err(Error::from(fault));
            },
        };
        let code: i32 = match status {
            Some(code) => code,
            None => -1,
        };
        if code != 0 {
            return Err(Error::CommandFailed(code));
        }
        verify_outputs(&self.outputs, present)
    }

    /// Returns true if the command should be run.
    pub fn should_run_command(&self) -> (run: bool)
        ensures
            run == self@.should_run_command(),
    {
        self.needs_rebuild && self.command.len() > 0
    }
}

/// [`OutputScan`] with owned values.
enum OutputWalk {
    Pending(String),
    Failed(Error),
    Settled { newest: File, missing: bool, used: usize },
}

impl View for OutputWalk {
    type V = OutputScan;

    closed spec fn view(&self) -> OutputScan {
        match self {
            OutputWalk::Pending(path) => OutputScan::Pending(path@),
            OutputWalk::Failed(e) => OutputScan::Failed(e@),
            OutputWalk::Settled { newest, missing, used } => OutputScan::Settled {
                newest: newest@,
                missing: *missing,
                used: *used as nat,
            },
        }
    }
}

/// [`InputScan`] with owned values.
enum InputWalk {
    Pending(String),
    Failed(Error),
    Settled { stale: bool },
}

impl View for InputWalk {
    type V = InputScan;

    closed spec fn view(&self) -> InputScan {
        match self {
            InputWalk::Pending(path) => InputScan::Pending(path@),
            InputWalk::Failed(e) => InputScan::Failed(e@),
            InputWalk::Settled { stale } => InputScan::Settled { stale: *stale },
        }
    }
}

/// Walks the declared outputs over the lookups made so far.
fn walk_outputs(outputs: &Vec<String>, resolved: &Vec<Result<File, Error>>) -> (w: OutputWalk)
    ensures
        w@ == scan_outputs(words(outputs@), resolutions(resolved@), 0, FileView::unset()),
        w matches OutputWalk::Settled { used, .. } ==> used <= resolved.len(),
{
    let ghost outs = words(outputs@);
    let ghost res = resolutions(resolved@);
    let mut newest = File::default();
    let mut i: usize = 0;
    while i < outputs.len()
        invariant
            outs == words(outputs@),
            res == resolutions(resolved@),
            i <= outputs.len(),
            i <= resolved.len(),
            scan_outputs(outs, res, 0, FileView::unset()) == scan_outputs(
                outs,
                res,
                i as nat,
                newest@,
            ),
        decreases outputs.len() - i,
    {
        if i >= resolved.len() {
            return OutputWalk::Pending(outputs[i].clone());
        }
        match &resolved[i] {
            Ok(file) => {
                if *file > newest {
                    newest = file.clone();
                }
            },
            Err(e) => {
                if e.is_not_found() {
                    return OutputWalk::Settled { newest, missing: true, used: i + 1 };
                }
                return OutputWalk::Failed(e.clone());
            },
        }
        i = i + 1;
    }
    OutputWalk::Settled { newest, missing: false, used: i }
}

/// Walks the declared inputs over the lookups that follow the first
/// `used` ones, against the newest output.
fn walk_inputs(
    inputs: &Vec<String>,
    resolved: &Vec<Result<File, Error>>,
    used: usize,
    newest: &File,
) -> (w: InputWalk)
    requires
        used <= resolved.len(),
    ensures
        w@ == scan_inputs(words(inputs@), resolutions(resolved@), used as nat, 0, newest@),
{
    let ghost ins = words(inputs@);
    let ghost res = resolutions(resolved@);
    let mut j: usize = 0;
    while j < inputs.len()
        invariant
            ins == words(inputs@),
            res == resolutions(resolved@),
            used <= resolved.len(),
            j <= inputs.len(),
            scan_inputs(ins, res, used as nat, 0, newest@) == scan_inputs(
                ins,
                res,
                used as nat,
                j as nat,
                newest@,
            ),
        decreases inputs.len() - j,
    {
        if j >= resolved.len() - used {
            return InputWalk::Pending(inputs[j].clone());
        }
        match &resolved[used + j] {
            Ok(file) => {
                if *file > *newest {
                    return InputWalk::Settled { stale: true };
                }
            },
            Err(e) => {
                if e.is_not_found() {
                    return InputWalk::Failed(Error::MissingInput(inputs[j].clone()));
                }
                return InputWalk::Failed(e.clone());
            },
        }
        j = j + 1;
    }
    InputWalk::Settled { stale: false }
}

/// Reports the first declared output that a successful command left
/// absent, or whose lookup failed.
fn verify_outputs(outputs: &Vec<String>, present: &Vec<Result<(), IoFault>>) -> (r: Result<
    (),
    Error,
>)
    requires
        present.len() == outputs.len(),
    ensures
        run_matches(r, check_outputs(words(outputs@), probes(present@), 0)),
{
    let ghost outs = words(outputs@);
    let ghost probed = probes(present@);
    let mut k: usize = 0;
    while k < outputs.len()
        invariant
            outs == words(outputs@),
            probed == probes(present@),
            present.len() == outputs.len(),
            k <= outputs.len(),
            check_outputs(outs, probed, 0) == check_outputs(outs, probed, k as nat),
        decreases outputs.len() - k,
    {
        match &present[k] {
            Ok(_) => {},
            Err(fault) => {
                if fault.not_found {
                    return Err(Error::MissingOutput(outputs[k].clone()));
                }
                return Err(Error::from(fault.clone()));
            },
        }
        k = k + 1;
    }
    Ok(())
}

} // verus!
