//! The token stream of a rule: `OUTPUT... [":" INPUT...] ["--" COMMAND...]`.

use vstd::prelude::*;

verus! {

/// The bucket that the next plain token falls into.
#[derive(Clone, Copy, Debug, PartialEq, Eq, Structural)]
pub enum Section {
    Output,
    Input,
    Command,
}

/// The three ordered buckets of a token stream, and the section in which
/// the stream ended.
pub struct Buckets {
    pub outputs: Seq<Seq<char>>,
    pub inputs: Seq<Seq<char>>,
    pub command: Seq<Seq<char>>,
    pub section: Section,
}

/// The characters of each string of `v`, in order.
pub open spec fn words(v: Seq<String>) -> Seq<Seq<char>> {
    v.map_values(|s: String| s@)
}

/// The token `:`, which opens the inputs.
pub open spec fn is_colon(token: Seq<char>) -> bool {
    token.len() == 1 && token[0] == ':'
}

/// The token `--`, which opens the command.
pub open spec fn is_dashes(token: Seq<char>) -> bool {
    token.len() == 2 && token[0] == '-' && token[1] == '-'
}

/// The section after `token` was read in `section`. A separator opens a
/// later section only; inside the command no token is a separator.
pub open spec fn next_section(section: Section, token: Seq<char>) -> Section {
    match section {
        Section::Command => Section::Command,
        _ => if is_colon(token) {
            Section::Input
        } else if is_dashes(token) {
            Section::Command
        } else {
            section
        },
    }
}

/// Whether `token`, read in `section`, is kept in that section's bucket.
/// A separator outside the command is consumed and kept nowhere.
pub open spec fn is_kept(section: Section, token: Seq<char>) -> bool {
    section == Section::Command || !(is_colon(token) || is_dashes(token))
}

/// The buckets after one more token.
pub open spec fn place(b: Buckets, token: Seq<char>) -> Buckets {
    let kept = is_kept(b.section, token);
    Buckets {
        outputs: if kept && b.section == Section::Output {
            b.outputs.push(token)
        } else {
            b.outputs
        },
        inputs: if kept && b.section == Section::Input {
            b.inputs.push(token)
        } else {
            b.inputs
        },
        command: if kept && b.section == Section::Command {
            b.command.push(token)
        } else {
            b.command
        },
        section: next_section(b.section, token),
    }
}

/// The buckets of a whole token stream, read from left to right.
pub open spec fn partition(tokens: Seq<Seq<char>>) -> Buckets
    decreases tokens.len(),
{
    if tokens.len() == 0 {
        Buckets {
            outputs: Seq::empty(),
            inputs: Seq::empty(),
            command: Seq::empty(),
            section: Section::Output,
        }
    } else {
        place(partition(tokens.drop_last()), tokens.last())
    }
}

/// Whether `token` is the separator `:`.
pub fn token_is_colon(token: &String) -> (yes: bool)
    ensures
        yes == is_colon(token@),
{
    let s = token.as_str();
    s.unicode_len() == 1 && s.get_char(0) == ':'
}

/// Whether `token` is the separator `--`.
pub fn token_is_dashes(token: &String) -> (yes: bool)
    ensures
        yes == is_dashes(token@),
{
    let s = token.as_str();
    s.unicode_len() == 2 && s.get_char(0) == '-' && s.get_char(1) == '-'
}

/// Reads one token in `section`: the section that follows, and whether
/// the token is kept in the bucket of `section`.
pub fn read_token(section: Section, token: &String) -> (r: (Section, bool))
    ensures
        r.0 == next_section(section, token@),
        r.1 == is_kept(section, token@),
{
    let colon = token_is_colon(token);
    let dashes = token_is_dashes(token);
    match (section, colon, dashes) {
        (Section::Command, _, _) => (Section::Command, true),
        (_, true, _) => (Section::Input, false),
        (_, _, true) => (Section::Command, false),
        (Section::Output, false, false) => (Section::Output, true),
        (Section::Input, false, false) => (Section::Input, true),
    }
}

/// The three buckets of a token stream as owned lists.
pub struct Partition {
    pub outputs: Vec<String>,
    pub inputs: Vec<String>,
    pub command: Vec<String>,
}

/// Sorts `args` into outputs, inputs and command tokens.
pub fn split_args(args: &Vec<String>) -> (p: Partition)
    ensures
        words(p.outputs@) == partition(words(args@)).outputs,
        words(p.inputs@) == partition(words(args@)).inputs,
        words(p.command@) == partition(words(args@)).command,
{
    let mut outputs: Vec<String> = Vec::new();
    let mut inputs: Vec<String> = Vec::new();
    let mut command: Vec<String> = Vec::new();
    let mut section = Section::Output;
    let mut i: usize = 0;
    proof {
        assert(words(args@).take(0) =~= Seq::<Seq<char>>::empty());
        assert(words(outputs@) =~= Seq::<Seq<char>>::empty());
        assert(words(inputs@) =~= Seq::<Seq<char>>::empty());
        assert(words(command@) =~= Seq::<Seq<char>>::empty());
    }
    while i < args.len()
        invariant
            i <= args.len(),
            words(outputs@) == partition(words(args@).take(i as int)).outputs,
            words(inputs@) == partition(words(args@).take(i as int)).inputs,
            words(command@) == partition(words(args@).take(i as int)).command,
            section == partition(words(args@).take(i as int)).section,
        decreases args.len() - i,
    {
        let arg = &args[i];
        proof {
            let all = words(args@);
            assert(all.take(i + 1).drop_last() =~= all.take(i as int));
            assert(all.take(i + 1).last() == arg@);
            assert(words(outputs@.push(*arg)) =~= words(outputs@).push(arg@));
            assert(words(inputs@.push(*arg)) =~= words(inputs@).push(arg@));
            assert(words(command@.push(*arg)) =~= words(command@).push(arg@));
        }
        let (next, kept) = read_token(section, arg);
        if kept {
            match section {
                Section::Output => outputs.push(arg.clone()),
                Section::Input => inputs.push(arg.clone()),
                Section::Command => command.push(arg.clone()),
            }
        }
        section = next;
        i = i + 1;
    }
    proof {
        assert(words(args@).take(i as int) =~= words(args@));
    }
    Partition { outputs, inputs, command }
}

/// No token is lost or invented: the buckets hold at most the tokens of
/// the stream, and every token in a bucket is one of them.
pub proof fn lemma_partition_bounded(tokens: Seq<Seq<char>>)
    ensures
        partition(tokens).outputs.len() + partition(tokens).inputs.len() + partition(
            tokens,
        ).command.len() <= tokens.len(),
    decreases tokens.len(),
{
    if tokens.len() > 0 {
        lemma_partition_bounded(tokens.drop_last());
    }
}

/// A stream that opens with a separator declares no output.
pub proof fn lemma_leading_separator_has_no_output(tokens: Seq<Seq<char>>)
    requires
        tokens.len() > 0,
        is_colon(tokens[0]) || is_dashes(tokens[0]),
    ensures
        partition(tokens).outputs.len() == 0,
        partition(tokens).section != Section::Output,
    decreases tokens.len(),
{
    let before = tokens.drop_last();
    if tokens.len() > 1 {
        assert(before[0] == tokens[0]);
        lemma_leading_separator_has_no_output(before);
    } else {
        assert(partition(before).section == Section::Output);
        assert(partition(before).outputs.len() == 0);
        assert(tokens.last() == tokens[0]);
    }
    assert(partition(tokens) == place(partition(before), tokens.last()));
}

/// Whether no token of `tokens` is a separator.
pub open spec fn all_plain(tokens: Seq<Seq<char>>) -> bool {
    forall|i: int| 0 <= i < tokens.len() ==> !is_colon(#[trigger] tokens[i]) && !is_dashes(tokens[i])
}

/// The buckets `b` after the tokens of `more`, read from left to right.
pub open spec fn place_all(b: Buckets, more: Seq<Seq<char>>) -> Buckets
    decreases more.len(),
{
    if more.len() == 0 {
        b
    } else {
        place(place_all(b, more.drop_last()), more.last())
    }
}

/// The buckets before any token.
pub open spec fn no_tokens() -> Buckets {
    Buckets {
        outputs: Seq::empty(),
        inputs: Seq::empty(),
        command: Seq::empty(),
        section: Section::Output,
    }
}

/// Reading a stream is reading its tokens one after the other.
pub proof fn lemma_partition_reads_in_order(tokens: Seq<Seq<char>>)
    ensures
        partition(tokens) == place_all(no_tokens(), tokens),
    decreases tokens.len(),
{
    if tokens.len() > 0 {
        lemma_partition_reads_in_order(tokens.drop_last());
    }
}

/// Reading two streams one after the other is reading them joined.
pub proof fn lemma_place_all_joined(b: Buckets, first: Seq<Seq<char>>, second: Seq<Seq<char>>)
    ensures
        place_all(b, first + second) == place_all(place_all(b, first), second),
    decreases second.len(),
{
    if second.len() == 0 {
        assert(first + second =~= first);
    } else {
        assert((first + second).drop_last() =~= first + second.drop_last());
        assert((first + second).last() == second.last());
        lemma_place_all_joined(b, first, second.drop_last());
    }
}

/// Plain tokens go to the bucket of the section they are read in, in
/// order, and leave the section as it is.
pub proof fn lemma_plain_tokens_stay(b: Buckets, more: Seq<Seq<char>>)
    requires
        all_plain(more),
    ensures
        place_all(b, more) == (Buckets {
            outputs: if b.section == Section::Output {
                b.outputs + more
            } else {
                b.outputs
            },
            inputs: if b.section == Section::Input {
                b.inputs + more
            } else {
                b.inputs
            },
            command: if b.section == Section::Command {
                b.command + more
            } else {
                b.command
            },
            section: b.section,
        }),
    decreases more.len(),
{
    if more.len() == 0 {
        assert(b.outputs + more =~= b.outputs);
        assert(b.inputs + more =~= b.inputs);
        assert(b.command + more =~= b.command);
    } else {
        let before = more.drop_last();
        assert(all_plain(before)) by {
            assert forall|i: int| 0 <= i < before.len() implies !is_colon(#[trigger] before[i])
                && !is_dashes(before[i]) by {
                assert(before[i] == more[i]);
            }
        }
        lemma_plain_tokens_stay(b, before);
        assert(!is_colon(more[more.len() - 1]) && !is_dashes(more[more.len() - 1]));
        assert(b.outputs + more =~= (b.outputs + before).push(more.last()));
        assert(b.inputs + more =~= (b.inputs + before).push(more.last()));
        assert(b.command + more =~= (b.command + before).push(more.last()));
    }
}

/// Inside the command every token is kept, separators too.
pub proof fn lemma_command_takes_all(b: Buckets, more: Seq<Seq<char>>)
    requires
        b.section == Section::Command,
    ensures
        place_all(b, more) == (Buckets { command: b.command + more, ..b }),
    decreases more.len(),
{
    if more.len() == 0 {
        assert(b.command + more =~= b.command);
    } else {
        let before = more.drop_last();
        lemma_command_takes_all(b, before);
        assert(b.command + more =~= (b.command + before).push(more.last()));
    }
}

/// The token `:` as a sequence of characters.
pub open spec fn colon() -> Seq<char> {
    seq![':']
}

/// The token `--` as a sequence of characters.
pub open spec fn dashes() -> Seq<char> {
    seq!['-', '-']
}

/// The grammar `OUTPUT... [":" INPUT...] ["--" COMMAND...]` is read as it
/// is written: plain outputs, then, if the stream has them, `:` and plain
/// inputs, then, if the stream has them, `--` and any tokens at all, fall
/// into exactly these three buckets.
pub proof fn lemma_grammar(
    outputs: Seq<Seq<char>>,
    has_inputs: bool,
    inputs: Seq<Seq<char>>,
    has_command: bool,
    command: Seq<Seq<char>>,
)
    requires
        all_plain(outputs),
        all_plain(inputs),
        !has_inputs ==> inputs.len() == 0,
        !has_command ==> command.len() == 0,
    ensures
        ({
            let input_part = if has_inputs {
                seq![colon()] + inputs
            } else {
                Seq::empty()
            };
            let command_part = if has_command {
                seq![dashes()] + command
            } else {
                Seq::empty()
            };
            let b = partition(outputs + input_part + command_part);
            b.outputs == outputs && b.inputs == inputs && b.command == command
        }),
{
    let input_part = if has_inputs {
        seq![colon()] + inputs
    } else {
        Seq::empty()
    };
    let command_part = if has_command {
        seq![dashes()] + command
    } else {
        Seq::empty()
    };
    let tokens = outputs + input_part + command_part;
    lemma_partition_reads_in_order(tokens);
    lemma_place_all_joined(no_tokens(), outputs + input_part, command_part);
    lemma_place_all_joined(no_tokens(), outputs, input_part);
    lemma_plain_tokens_stay(no_tokens(), outputs);
    assert(Seq::<Seq<char>>::empty() + outputs =~= outputs);
    let after_outputs = place_all(no_tokens(), outputs);
    let after_inputs = place_all(after_outputs, input_part);
    if has_inputs {
        lemma_place_all_joined(after_outputs, seq![colon()], inputs);
        let opened = place_all(after_outputs, seq![colon()]);
        assert(seq![colon()].drop_last() =~= Seq::<Seq<char>>::empty());
        assert(place_all(after_outputs, seq![colon()].drop_last()) == after_outputs);
        assert(is_colon(colon()));
        assert(opened == place(after_outputs, colon()));
        lemma_plain_tokens_stay(opened, inputs);
        assert(Seq::<Seq<char>>::empty() + inputs =~= inputs);
    } else {
        assert(after_inputs == after_outputs);
        assert(inputs =~= Seq::<Seq<char>>::empty());
    }
    assert(after_inputs.outputs == outputs);
    assert(after_inputs.inputs == inputs);
    assert(after_inputs.command =~= Seq::<Seq<char>>::empty());
    assert(after_inputs.section != Section::Command);
    if has_command {
        lemma_place_all_joined(after_inputs, seq![dashes()], command);
        let opened = place_all(after_inputs, seq![dashes()]);
        assert(seq![dashes()].drop_last() =~= Seq::<Seq<char>>::empty());
        assert(place_all(after_inputs, seq![dashes()].drop_last()) == after_inputs);
        assert(is_dashes(dashes()));
        assert(!is_colon(dashes()));
        assert(opened == place(after_inputs, dashes()));
        lemma_command_takes_all(opened, command);
        assert(Seq::<Seq<char>>::empty() + command =~= command);
    } else {
        assert(command =~= Seq::<Seq<char>>::empty());
    }
}

} // verus!
