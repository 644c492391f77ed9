//! What holds of every rule, proved from the definitions of parsing.
//!
//! Throughout, `resolved[k]` is the lookup of the `k`-th declared path,
//! the outputs counted first and the inputs after them: parsing asks for
//! the paths in this order and for no others.

use crate::error::exit_status_spec;
use crate::error::fault_at;
use crate::error::ErrorView;
use crate::error::IoFaultView;
use crate::file::FileView;
use crate::grammar::is_colon;
use crate::grammar::is_dashes;
use crate::grammar::lemma_leading_separator_has_no_output;
use crate::grammar::partition;
use crate::target::check_outputs;
use crate::target::exit_code;
use crate::target::parse_spec;
use crate::target::run_command_spec;
use crate::target::scan_inputs;
use crate::target::scan_outputs;
use crate::target::InputScan;
use crate::target::OutputScan;
use crate::target::Probed;
use crate::target::StepView;
use crate::walk::all_read;
use crate::walk::find_newest_spec;
use crate::walk::lemma_find_newest_is_latest;
use crate::walk::lemma_nested_file_makes_path_newer;
use crate::walk::Resolved;
use crate::walk::VisitView;
use vstd::prelude::*;

verus! {

/// Whether the lookup says that the path does not exist.
pub open spec fn is_absent(r: Resolved) -> bool {
    r matches Err(e) && e is NotFound
}

/// A walk over outputs that all exist ends at the last of them, with a
/// stamp that none of them, nor the one held before, is newer than.
pub proof fn lemma_outputs_all_present(
    outputs: Seq<Seq<char>>,
    resolved: Seq<Resolved>,
    i: nat,
    held: FileView,
)
    requires
        i <= outputs.len() <= resolved.len(),
        forall|k: int| i <= k < outputs.len() ==> (#[trigger] resolved[k]) is Ok,
    ensures
        scan_outputs(outputs, resolved, i, held) matches OutputScan::Settled {
            newest,
            missing,
            used,
        } && !missing && used == outputs.len() && !held.newer_than(newest) && (forall|k: int|
            i <= k < outputs.len() ==> !(#[trigger] resolved[k])->Ok_0.newer_than(newest)) && (
        newest == held || exists|k: int|
            i <= k < outputs.len() && newest == (#[trigger] resolved[k])->Ok_0),
    decreases outputs.len() - i,
{
    if i < outputs.len() {
        let file = resolved[i as int]->Ok_0;
        let next = crate::target::newer_of(held, file);
        lemma_outputs_all_present(outputs, resolved, i + 1, next);
        let newest = scan_outputs(outputs, resolved, i, held)->Settled_newest;
        if newest == next && next != held {
            assert(newest == resolved[i as int]->Ok_0);
        }
    }
}

/// A walk over outputs that reaches one that does not exist never ends
/// with all outputs found, and never waits for a lookup before it.
pub proof fn lemma_outputs_one_absent(
    outputs: Seq<Seq<char>>,
    resolved: Seq<Resolved>,
    i: nat,
    held: FileView,
    at: nat,
)
    requires
        i <= at < outputs.len(),
        at < resolved.len(),
        is_absent(resolved[at as int]),
    ensures
        match scan_outputs(outputs, resolved, i, held) {
            OutputScan::Settled { missing, .. } => missing,
            OutputScan::Failed(_) => true,
            OutputScan::Pending(_) => false,
        },
    decreases outputs.len() - i,
{
    if i < at {
        if resolved[i as int] is Ok {
            let file = resolved[i as int]->Ok_0;
            lemma_outputs_one_absent(
                outputs,
                resolved,
                i + 1,
                crate::target::newer_of(held, file),
                at,
            );
        }
    }
}

/// A walk over outputs whose first absent one is the `at`-th, every
/// earlier one being present, ends there: it has used the lookups up to
/// that one, and holds a stamp that none of the earlier outputs is newer
/// than.
pub proof fn lemma_outputs_first_absent(
    outputs: Seq<Seq<char>>,
    resolved: Seq<Resolved>,
    i: nat,
    held: FileView,
    at: nat,
)
    requires
        i <= at < outputs.len(),
        at < resolved.len(),
        forall|k: int| i <= k < at ==> (#[trigger] resolved[k]) is Ok,
        is_absent(resolved[at as int]),
    ensures
        scan_outputs(outputs, resolved, i, held) matches OutputScan::Settled {
            newest,
            missing,
            used,
        } && missing && used == at + 1 && !held.newer_than(newest) && (forall|k: int|
            i <= k < at ==> !(#[trigger] resolved[k])->Ok_0.newer_than(newest)) && (newest == held
            || exists|k: int| i <= k < at && newest == (#[trigger] resolved[k])->Ok_0),
    decreases outputs.len() - i,
{
    if i < at {
        assert(resolved[i as int] is Ok);
        let file = resolved[i as int]->Ok_0;
        let next = crate::target::newer_of(held, file);
        lemma_outputs_first_absent(outputs, resolved, i + 1, next, at);
        let newest = scan_outputs(outputs, resolved, i, held)->Settled_newest;
        if newest == next && next != held {
            assert(newest == resolved[i as int]->Ok_0);
        }
    }
}

/// A walk over inputs that all exist, none of them newer than the newest
/// output, ends without finding the rule stale.
pub proof fn lemma_inputs_all_older(
    inputs: Seq<Seq<char>>,
    resolved: Seq<Resolved>,
    base: nat,
    j: nat,
    newest: FileView,
)
    requires
        j <= inputs.len(),
        base + inputs.len() <= resolved.len(),
        forall|k: int|
            base + j <= k < base + inputs.len() ==> (#[trigger] resolved[k]) is Ok
                && !resolved[k]->Ok_0.newer_than(newest),
    ensures
        scan_inputs(inputs, resolved, base, j, newest) == (InputScan::Settled { stale: false }),
    decreases inputs.len() - j,
{
    if j < inputs.len() {
        assert(resolved[(base + j) as int] is Ok);
        lemma_inputs_all_older(inputs, resolved, base, j + 1, newest);
    }
}

/// A walk over inputs whose first absent one is the `at`-th, with every
/// earlier one present and no newer than the newest output, fails on that
/// input.
pub proof fn lemma_inputs_first_absent(
    inputs: Seq<Seq<char>>,
    resolved: Seq<Resolved>,
    base: nat,
    j: nat,
    newest: FileView,
    at: nat,
)
    requires
        j <= at < inputs.len(),
        base + at < resolved.len(),
        is_absent(resolved[(base + at) as int]),
        forall|k: int|
            base + j <= k < base + at ==> (#[trigger] resolved[k]) is Ok
                && !resolved[k]->Ok_0.newer_than(newest),
    ensures
        scan_inputs(inputs, resolved, base, j, newest) == InputScan::Failed(
            ErrorView::MissingInput(inputs[at as int]),
        ),
    decreases inputs.len() - j,
{
    if j < at {
        assert(resolved[(base + j) as int] is Ok);
        lemma_inputs_first_absent(inputs, resolved, base, j + 1, newest, at);
    }
}

/// A rule with at least one input, whose outputs all exist and are each
/// newer, at whole seconds, than each of its inputs, is satisfied: it
/// needs no rebuild, and its command, if it has one, is not to be run.
pub proof fn lemma_fresh_rule_is_satisfied(tokens: Seq<Seq<char>>, resolved: Seq<Resolved>)
    requires
        partition(tokens).outputs.len() > 0,
        partition(tokens).inputs.len() > 0,
        resolved.len() >= partition(tokens).outputs.len() + partition(tokens).inputs.len(),
        forall|k: int|
            0 <= k < partition(tokens).outputs.len() + partition(tokens).inputs.len() ==> (
            #[trigger] resolved[k]) is Ok,
        forall|i: int, j: int|
            0 <= i < partition(tokens).outputs.len() <= j < partition(tokens).outputs.len()
                + partition(tokens).inputs.len() ==> (#[trigger] resolved[i])->Ok_0.newer_than(
                (#[trigger] resolved[j])->Ok_0,
            ),
    ensures
        parse_spec(tokens, resolved) matches Ok(StepView::Done(rule)) && !rule.needs_rebuild
            && !rule.should_run_command(),
{
    let b = partition(tokens);
    let n = b.outputs.len();
    lemma_outputs_all_present(b.outputs, resolved, 0, FileView::unset());
    let newest = scan_outputs(b.outputs, resolved, 0, FileView::unset())->Settled_newest;
    assert forall|k: int| n <= k < n + b.inputs.len() implies (#[trigger] resolved[k]) is Ok
        && !resolved[k]->Ok_0.newer_than(newest) by {
        assert(resolved[0]->Ok_0.newer_than(resolved[k]->Ok_0));
        assert(!resolved[0]->Ok_0.newer_than(newest));
    }
    lemma_inputs_all_older(b.inputs, resolved, n, 0, newest);
    assert(resolved[0]->Ok_0.newer_than(resolved[n as int]->Ok_0));
    assert(!resolved[0]->Ok_0.newer_than(newest));
}

/// A rule that declares no input needs a rebuild, whatever its outputs
/// look like.
pub proof fn lemma_no_inputs_always_stale(tokens: Seq<Seq<char>>, resolved: Seq<Resolved>)
    requires
        partition(tokens).inputs.len() == 0,
    ensures
        parse_spec(tokens, resolved) matches Ok(StepView::Done(rule)) ==> rule.needs_rebuild,
{
}

/// A rule one of whose outputs was looked up and does not exist needs a
/// rebuild.
pub proof fn lemma_missing_output_is_stale(
    tokens: Seq<Seq<char>>,
    resolved: Seq<Resolved>,
    at: nat,
)
    requires
        at < partition(tokens).outputs.len(),
        at < resolved.len(),
        is_absent(resolved[at as int]),
    ensures
        parse_spec(tokens, resolved) matches Ok(StepView::Done(rule)) ==> rule.needs_rebuild,
        !(parse_spec(tokens, resolved) matches Ok(StepView::Resolve(_))),
{
    lemma_outputs_one_absent(partition(tokens).outputs, resolved, 0, FileView::unset(), at);
}

/// Where the outputs before the first missing one exist, parsing asks for
/// nothing more and gives a stale rule, whatever the inputs are. The one
/// exception is a rule without a command none of whose outputs has a
/// stamp later than the epoch: it fails for its first output.
pub proof fn lemma_first_missing_output_decides(
    tokens: Seq<Seq<char>>,
    resolved: Seq<Resolved>,
    at: nat,
)
    requires
        at < partition(tokens).outputs.len(),
        at < resolved.len(),
        forall|k: int| 0 <= k < at ==> (#[trigger] resolved[k]) is Ok,
        is_absent(resolved[at as int]),
    ensures
        match parse_spec(tokens, resolved) {
            Ok(StepView::Done(rule)) => rule.needs_rebuild,
            Ok(StepView::Resolve(_)) => false,
            Err(e) => partition(tokens).command.len() == 0 && e == ErrorView::MissingOutput(
                partition(tokens).outputs[0],
            ) && (forall|k: int|
                0 <= k < at ==> (#[trigger] resolved[k])->Ok_0.same_second(FileView::unset())),
        },
{
    lemma_outputs_first_absent(partition(tokens).outputs, resolved, 0, FileView::unset(), at);
}

/// Where every output exists, and the inputs before the `at`-th exist
/// and are each no newer than some output, an `at`-th input that does not
/// exist makes parsing fail with `MissingInput` for it.
pub proof fn lemma_missing_input_fails(tokens: Seq<Seq<char>>, resolved: Seq<Resolved>, at: nat)
    requires
        partition(tokens).outputs.len() > 0,
        at < partition(tokens).inputs.len(),
        partition(tokens).outputs.len() + at < resolved.len(),
        forall|k: int|
            0 <= k < partition(tokens).outputs.len() + at ==> (#[trigger] resolved[k]) is Ok,
        forall|j: int|
            partition(tokens).outputs.len() <= j < partition(tokens).outputs.len() + at
                ==> exists|i: int|
                0 <= i < partition(tokens).outputs.len() && !(#[trigger] resolved[j])->Ok_0.newer_than(
                    (#[trigger] resolved[i])->Ok_0,
                ),
        is_absent(resolved[(partition(tokens).outputs.len() + at) as int]),
    ensures
        parse_spec(tokens, resolved) == Err::<StepView, ErrorView>(
            ErrorView::MissingInput(partition(tokens).inputs[at as int]),
        ),
{
    let b = partition(tokens);
    let n = b.outputs.len();
    lemma_outputs_all_present(b.outputs, resolved, 0, FileView::unset());
    let newest = scan_outputs(b.outputs, resolved, 0, FileView::unset())->Settled_newest;
    assert forall|j: int| n <= j < n + at implies (#[trigger] resolved[j]) is Ok
        && !resolved[j]->Ok_0.newer_than(newest) by {
        let i = choose|i: int|
            0 <= i < n && !(#[trigger] resolved[j])->Ok_0.newer_than(
                (#[trigger] resolved[i])->Ok_0,
            );
        assert(!resolved[i]->Ok_0.newer_than(newest));
    }
    lemma_inputs_first_absent(b.inputs, resolved, n, 0, newest, at);
}

/// A rule that is satisfied is not run. Evaluated again on a file system
/// that answers as before, whatever else it holds, it is satisfied again:
/// its command does not run a second time and its outputs stay as they
/// are.
pub proof fn lemma_satisfied_rule_stays_satisfied(
    tokens: Seq<Seq<char>>,
    first: Seq<Resolved>,
    second: Seq<Resolved>,
)
    requires
        parse_spec(tokens, first) matches Ok(StepView::Done(rule)) && !rule.needs_rebuild,
        first.is_prefix_of(second),
    ensures
        parse_spec(tokens, second) == parse_spec(tokens, first),
        parse_spec(tokens, second) matches Ok(StepView::Done(rule)) && !rule.should_run_command(),
{
    let more = second.skip(first.len() as int);
    assert(first + more =~= second);
    lemma_verdict_is_final(tokens, first, more);
}

/// A token stream that is empty or opens with a separator declares no
/// output and is refused, whatever follows.
pub proof fn lemma_rule_without_outputs_is_refused(
    tokens: Seq<Seq<char>>,
    resolved: Seq<Resolved>,
)
    requires
        tokens.len() == 0 || is_colon(tokens[0]) || is_dashes(tokens[0]),
    ensures
        parse_spec(tokens, resolved) == Err::<StepView, ErrorView>(ErrorView::MissingOutputs),
{
    if tokens.len() > 0 {
        lemma_leading_separator_has_no_output(tokens);
    }
}

/// A parsed rule declares at least one output, and keeps the declared
/// tokens in their buckets and order.
pub proof fn lemma_parsed_rule_keeps_declarations(tokens: Seq<Seq<char>>, resolved: Seq<Resolved>)
    ensures
        parse_spec(tokens, resolved) matches Ok(StepView::Done(rule)) ==> rule.outputs.len() > 0
            && rule.outputs == partition(tokens).outputs && rule.inputs == partition(
            tokens,
        ).inputs && rule.command == partition(tokens).command,
{
}

/// A walk over outputs that waits for a lookup waits for that of the
/// first output without one; a walk that ended used no lookup that was
/// not there, and all of the outputs' unless one is missing.
pub proof fn lemma_outputs_ask_in_order(
    outputs: Seq<Seq<char>>,
    resolved: Seq<Resolved>,
    i: nat,
    held: FileView,
)
    requires
        i <= resolved.len(),
        i <= outputs.len(),
    ensures
        match scan_outputs(outputs, resolved, i, held) {
            OutputScan::Pending(path) => resolved.len() < outputs.len() && path
                == outputs[resolved.len() as int],
            OutputScan::Failed(_) => true,
            OutputScan::Settled { missing, used, .. } => used <= resolved.len() && used
                <= outputs.len() && (!missing ==> used == outputs.len()),
        },
    decreases outputs.len() - i,
{
    if i < outputs.len() && i < resolved.len() && resolved[i as int] is Ok {
        let file = resolved[i as int]->Ok_0;
        lemma_outputs_ask_in_order(outputs, resolved, i + 1, crate::target::newer_of(held, file));
    }
}

/// A walk over inputs that waits for a lookup waits for that of the first
/// input without one.
pub proof fn lemma_inputs_ask_in_order(
    inputs: Seq<Seq<char>>,
    resolved: Seq<Resolved>,
    base: nat,
    j: nat,
    newest: FileView,
)
    requires
        base + j <= resolved.len(),
        j <= inputs.len(),
    ensures
        scan_inputs(inputs, resolved, base, j, newest) matches InputScan::Pending(path)
            ==> resolved.len() - base < inputs.len() && path == inputs[resolved.len() - base],
    decreases inputs.len() - j,
{
    if j < inputs.len() && base + j < resolved.len() && resolved[(base + j) as int] is Ok
        && !resolved[(base + j) as int]->Ok_0.newer_than(newest) {
        lemma_inputs_ask_in_order(inputs, resolved, base, j + 1, newest);
    }
}

/// Parsing asks for the declared paths in declared order, outputs first:
/// after `n` lookups it asks, if at all, for the path at place `n`. So
/// it asks at most once for each declared path and then gives its verdict.
pub proof fn lemma_parse_asks_in_declared_order(tokens: Seq<Seq<char>>, resolved: Seq<Resolved>)
    ensures
        parse_spec(tokens, resolved) matches Ok(StepView::Resolve(path)) ==> resolved.len()
            < (partition(tokens).outputs + partition(tokens).inputs).len() && path == (partition(
            tokens,
        ).outputs + partition(tokens).inputs)[resolved.len() as int],
{
    let b = partition(tokens);
    if b.outputs.len() > 0 {
        lemma_outputs_ask_in_order(b.outputs, resolved, 0, FileView::unset());
        match scan_outputs(b.outputs, resolved, 0, FileView::unset()) {
            OutputScan::Settled { newest, missing, used } => {
                if !missing {
                    lemma_inputs_ask_in_order(b.inputs, resolved, used, 0, newest);
                }
            },
            _ => {},
        }
    }
}

/// With a lookup for every declared path parsing gives its verdict.
pub proof fn lemma_parse_settles(tokens: Seq<Seq<char>>, resolved: Seq<Resolved>)
    requires
        resolved.len() >= partition(tokens).outputs.len() + partition(tokens).inputs.len(),
    ensures
        !(parse_spec(tokens, resolved) matches Ok(StepView::Resolve(_))),
{
    lemma_parse_asks_in_declared_order(tokens, resolved);
}

/// A walk over outputs that does not wait for a lookup is not changed by
/// lookups that come after.
pub proof fn lemma_outputs_ignore_later_lookups(
    outputs: Seq<Seq<char>>,
    resolved: Seq<Resolved>,
    more: Seq<Resolved>,
    i: nat,
    held: FileView,
)
    requires
        !(scan_outputs(outputs, resolved, i, held) is Pending),
    ensures
        scan_outputs(outputs, resolved + more, i, held) == scan_outputs(outputs, resolved, i, held),
    decreases outputs.len() - i,
{
    if i < outputs.len() {
        assert(i < resolved.len());
        assert((resolved + more)[i as int] == resolved[i as int]);
        if resolved[i as int] is Ok {
            let file = resolved[i as int]->Ok_0;
            lemma_outputs_ignore_later_lookups(
                outputs,
                resolved,
                more,
                i + 1,
                crate::target::newer_of(held, file),
            );
        }
    }
}

/// A walk over inputs that does not wait for a lookup is not changed by
/// lookups that come after.
pub proof fn lemma_inputs_ignore_later_lookups(
    inputs: Seq<Seq<char>>,
    resolved: Seq<Resolved>,
    more: Seq<Resolved>,
    base: nat,
    j: nat,
    newest: FileView,
)
    requires
        !(scan_inputs(inputs, resolved, base, j, newest) is Pending),
    ensures
        scan_inputs(inputs, resolved + more, base, j, newest) == scan_inputs(
            inputs,
            resolved,
            base,
            j,
            newest,
        ),
    decreases inputs.len() - j,
{
    if j < inputs.len() {
        assert(base + j < resolved.len());
        assert((resolved + more)[(base + j) as int] == resolved[(base + j) as int]);
        if resolved[(base + j) as int] is Ok && !resolved[(base + j) as int]->Ok_0.newer_than(
            newest,
        ) {
            lemma_inputs_ignore_later_lookups(inputs, resolved, more, base, j + 1, newest);
        }
    }
}

/// Once parsing has given a rule or an error, lookups that come after
/// change nothing: the verdict rests on the paths asked for and no others.
pub proof fn lemma_verdict_is_final(
    tokens: Seq<Seq<char>>,
    resolved: Seq<Resolved>,
    more: Seq<Resolved>,
)
    requires
        !(parse_spec(tokens, resolved) matches Ok(StepView::Resolve(_))),
    ensures
        parse_spec(tokens, resolved + more) == parse_spec(tokens, resolved),
{
    let b = partition(tokens);
    if b.outputs.len() > 0 {
        lemma_outputs_ignore_later_lookups(b.outputs, resolved, more, 0, FileView::unset());
        match scan_outputs(b.outputs, resolved, 0, FileView::unset()) {
            OutputScan::Settled { newest, missing, used } => {
                if !missing {
                    lemma_inputs_ignore_later_lookups(b.inputs, resolved, more, used, 0, newest);
                }
            },
            _ => {},
        }
    }
}

/// A walk over inputs that all exist up to one that is newer than the
/// newest output finds the rule stale.
pub proof fn lemma_inputs_one_newer(
    inputs: Seq<Seq<char>>,
    resolved: Seq<Resolved>,
    base: nat,
    j: nat,
    newest: FileView,
    at: nat,
)
    requires
        j <= at < inputs.len(),
        base + at < resolved.len(),
        forall|k: int| base + j <= k <= base + at ==> (#[trigger] resolved[k]) is Ok,
        resolved[(base + at) as int]->Ok_0.newer_than(newest),
    ensures
        scan_inputs(inputs, resolved, base, j, newest) == (InputScan::Settled { stale: true }),
    decreases inputs.len() - j,
{
    assert(resolved[(base + j) as int] is Ok);
    if j < at && !resolved[(base + j) as int]->Ok_0.newer_than(newest) {
        lemma_inputs_one_newer(inputs, resolved, base, j + 1, newest, at);
    }
}

/// Where every output exists, an input that is newer than each of them,
/// with every input before it present, makes the rule stale. Parsing then
/// gives the rule, unless the rule has no command and no output has a
/// stamp later than the epoch.
pub proof fn lemma_newer_input_is_stale(tokens: Seq<Seq<char>>, resolved: Seq<Resolved>, at: nat)
    requires
        partition(tokens).outputs.len() > 0,
        at < partition(tokens).inputs.len(),
        partition(tokens).outputs.len() + at < resolved.len(),
        forall|k: int|
            0 <= k <= partition(tokens).outputs.len() + at ==> (#[trigger] resolved[k]) is Ok,
        forall|i: int|
            0 <= i < partition(tokens).outputs.len() ==> resolved[(partition(tokens).outputs.len()
                + at) as int]->Ok_0.newer_than((#[trigger] resolved[i])->Ok_0),
    ensures
        match parse_spec(tokens, resolved) {
            Ok(StepView::Done(rule)) => rule.needs_rebuild,
            Ok(StepView::Resolve(_)) => false,
            Err(e) => partition(tokens).command.len() == 0 && e == ErrorView::MissingOutput(
                partition(tokens).outputs[0],
            ),
        },
{
    let b = partition(tokens);
    let n = b.outputs.len();
    lemma_outputs_all_present(b.outputs, resolved, 0, FileView::unset());
    let newest = scan_outputs(b.outputs, resolved, 0, FileView::unset())->Settled_newest;
    let input = resolved[(n + at) as int]->Ok_0;
    assert(input.newer_than(resolved[0]->Ok_0));
    assert(input.newer_than(newest));
    lemma_inputs_one_newer(b.inputs, resolved, n, 0, newest, at);
}

/// A change anywhere under a declared input counts: where every output
/// exists, and the walk of an input met a regular file that is newer than
/// each output, the rule is stale.
pub proof fn lemma_nested_change_is_stale(
    tokens: Seq<Seq<char>>,
    resolved: Seq<Resolved>,
    at: nat,
    visits: Seq<VisitView>,
    nested: int,
)
    requires
        partition(tokens).outputs.len() > 0,
        at < partition(tokens).inputs.len(),
        partition(tokens).outputs.len() + at < resolved.len(),
        forall|k: int|
            0 <= k < partition(tokens).outputs.len() + at ==> (#[trigger] resolved[k]) is Ok,
        resolved[(partition(tokens).outputs.len() + at) as int] == find_newest_spec(
            partition(tokens).inputs[at as int],
            visits,
        ),
        all_read(visits),
        0 <= nested < visits.len(),
        visits[nested].is_regular_file(),
        forall|i: int|
            0 <= i < partition(tokens).outputs.len() ==> visits[nested].stamp().secs > (
            #[trigger] resolved[i])->Ok_0.modified.secs,
    ensures
        match parse_spec(tokens, resolved) {
            Ok(StepView::Done(rule)) => rule.needs_rebuild,
            Ok(StepView::Resolve(_)) => false,
            Err(e) => partition(tokens).command.len() == 0 && e == ErrorView::MissingOutput(
                partition(tokens).outputs[0],
            ),
        },
{
    let b = partition(tokens);
    let n = b.outputs.len();
    assert forall|i: int| 0 <= i < n implies resolved[(n + at) as int]->Ok_0.newer_than(
        (#[trigger] resolved[i])->Ok_0,
    ) by {
        lemma_nested_file_makes_path_newer(
            b.inputs[at as int],
            visits,
            nested,
            resolved[i]->Ok_0,
        );
    }
    lemma_find_newest_is_latest(b.inputs[at as int], visits);
    lemma_newer_input_is_stale(tokens, resolved, at);
}

/// A run that fails never ends the process with status 0: a command
/// counts as failed only with a code other than 0, and every other error
/// ends it with 1.
pub proof fn lemma_failure_exits_nonzero(
    outputs: Seq<Seq<char>>,
    exit: Result<Option<i32>, IoFaultView>,
    probed: Seq<Probed>,
)
    ensures
        run_command_spec(outputs, exit, probed) matches Err(e) ==> exit_status_spec(e) != 0,
{
    if exit is Ok && exit_code(exit->Ok_0) == 0 {
        lemma_missing_output_is_no_command_failure(outputs, probed, 0);
    }
}

/// The check of the outputs after a run fails only with a missing output
/// or with a failure of the system.
pub proof fn lemma_missing_output_is_no_command_failure(
    outputs: Seq<Seq<char>>,
    probed: Seq<Probed>,
    k: nat,
)
    ensures
        check_outputs(outputs, probed, k) matches Err(e) ==> !(e is CommandFailed),
    decreases outputs.len() - k,
{
    if k < outputs.len() && probed[k as int] is Ok {
        lemma_missing_output_is_no_command_failure(outputs, probed, k + 1);
    }
}

/// After a command that succeeded, a rule whose declared outputs are all
/// there is satisfied.
pub proof fn lemma_outputs_all_there(outputs: Seq<Seq<char>>, probed: Seq<Probed>, k: nat)
    requires
        probed.len() == outputs.len(),
        forall|m: int| k <= m < outputs.len() ==> (#[trigger] probed[m]) is Ok,
    ensures
        check_outputs(outputs, probed, k) is Ok,
    decreases outputs.len() - k,
{
    if k < outputs.len() {
        assert(probed[k as int] is Ok);
        lemma_outputs_all_there(outputs, probed, k + 1);
    }
}

/// After a command that succeeded, the first declared output that is not
/// there decides the error: it is the missing output, or, where its lookup
/// failed otherwise, that failure tied to no path.
pub proof fn lemma_first_absent_output_decides(
    outputs: Seq<Seq<char>>,
    probed: Seq<Probed>,
    k: nat,
    at: nat,
)
    requires
        probed.len() == outputs.len(),
        k <= at < outputs.len(),
        forall|m: int| k <= m < at ==> (#[trigger] probed[m]) is Ok,
        probed[at as int] is Err,
    ensures
        check_outputs(outputs, probed, k) == Err::<(), ErrorView>(
            if probed[at as int]->Err_0.not_found {
                ErrorView::MissingOutput(outputs[at as int])
            } else {
                fault_at(Seq::<char>::empty(), probed[at as int]->Err_0)
            },
        ),
    decreases outputs.len() - k,
{
    if k < at {
        assert(probed[k as int] is Ok);
        lemma_first_absent_output_decides(outputs, probed, k + 1, at);
    }
}

} // verus!
