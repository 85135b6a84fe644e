//! What holds of every parse, proved from the rules of the engine.

use vstd::prelude::*;
use crate::arguments::{Token, ValueModel, spec_convert};
use crate::machine::{
    ProgressModel,
    ScanModel,
    StateModel,
    StepModel,
    after_value,
    answers,
    first_answering,
    initial,
    lemma_first_answering_is_first,
    lemma_nth_positional_exists,
    lemma_nth_positional_in_range,
    lemma_positional_slots_increase,
    lemma_scan_split,
    lemma_scan_wf,
    lemma_step_wf,
    nth_positional,
    positional_count,
    spec_scan,
    spec_step,
};
use crate::parse::{
    filled,
    first_missing,
    lemma_resolve_is_first,
    spec_command_parsing,
    spec_derive_from_raw,
    spec_finish,
    spec_resolve,
};
use crate::schema::{ArgType, CommandArgModel, CommandModel};
use crate::service::{ParseErrorModel, ParsedModel};

verus! {

/// The field of a flag or an option keeps what it holds over a run in which
/// no token selects its descriptor, provided its value is not awaited at
/// the start.
pub proof fn lemma_unselected_field_is_kept(
    command: CommandModel,
    tokens: Seq<Token>,
    i: int,
    st: ProgressModel,
    j: int,
)
    requires
        st.wf(command),
        0 <= i,
        0 <= j < command.args.len(),
        !(command.args[j].arg_type is Positional),
        st.state != StateModel::ExpectValue(j),
        forall|k: int|
            i <= k < tokens.len() ==> first_answering(command.args, #[trigger] tokens[k], 0)
                != Some(j),
    ensures
        match spec_scan(command, tokens, i, st) {
            ScanModel::Done(end) => end.fields[j] == st.fields[j],
            ScanModel::Boundary(end, _) => end.fields[j] == st.fields[j],
            ScanModel::Fail(_) => true,
        },
    decreases tokens.len() - i,
{
    if i < tokens.len() {
        let token = tokens[i];
        lemma_step_wf(command, st, token);
        lemma_first_answering_is_first(command.args, token, 0);
        lemma_nth_positional_in_range(command.args, st.positional, 0);
        match spec_step(command, st, token) {
            StepModel::Next(next) => {
                assert(next.fields[j] == st.fields[j]);
                assert(next.state != StateModel::ExpectValue(j));
                lemma_unselected_field_is_kept(command, tokens, i + 1, next, j);
            },
            _ => {},
        }
    }
}

/// A flag that no token of the line names is `false` in the parsed command,
/// whichever other flags and options the line sets.
pub proof fn lemma_flag_independence(
    command: CommandModel,
    index: int,
    tokens: Seq<Token>,
    j: int,
)
    requires
        0 <= j < command.args.len(),
        command.args[j].arg_type is Flag,
        command.args[j].ty == ArgType::Normal,
        forall|k: int| 0 <= k < tokens.len() ==> !answers(command.args[j], #[trigger] tokens[k]),
    ensures
        spec_command_parsing(command, index, tokens) matches Ok(parsed) ==> parsed.fields[j]
            == Some(ValueModel::Bool(false)),
{
    let start = initial(command);
    assert forall|k: int| 0 <= k < tokens.len() implies first_answering(
        command.args,
        #[trigger] tokens[k],
        0,
    ) != Some(j) by {
        lemma_first_answering_is_first(command.args, tokens[k], 0);
    }
    lemma_unselected_field_is_kept(command, tokens, 0, start, j);
    lemma_scan_wf(command, tokens, 0, start);
}

/// The value token right after the name of an option is bound to that
/// option: from any state, the two tokens together store the converted value
/// in the option's field and leave the machine in its normal state, or fail
/// with the error of the conversion.
pub proof fn lemma_option_value_binding(
    command: CommandModel,
    tokens: Seq<Token>,
    k: int,
    st: ProgressModel,
    i: int,
    text: Seq<char>,
)
    requires
        0 <= k,
        k + 1 < tokens.len(),
        first_answering(command.args, tokens[k], 0) == Some(i),
        command.args[i].arg_type is Option,
        tokens[k + 1] == Token::Value(text),
    ensures
        spec_scan(command, tokens, k, st) == (match spec_convert(
            command.args[i].field_type,
            text,
        ) {
            Ok(v) => spec_scan(
                command,
                tokens,
                k + 2,
                ProgressModel {
                    state: StateModel::Normal,
                    positional: st.positional,
                    fields: st.fields.update(i, Some(v)),
                },
            ),
            Err(e) => ScanModel::Fail(ParseErrorModel::ConversionFailure(e)),
        }),
{
    lemma_first_answering_is_first(command.args, tokens[k], 0);
    let awaiting = ProgressModel { state: StateModel::ExpectValue(i), ..st };
    assert(spec_step(command, st, tokens[k]) == StepModel::Next(awaiting));
    assert(spec_scan(command, tokens, k, st) == spec_scan(command, tokens, k + 1, awaiting));
    assert(spec_step(command, awaiting, tokens[k + 1]) == after_value(
        command.args[i],
        i,
        text,
        awaiting,
    ));
}

/// An option that is named once, with a value right after its name, has
/// that value in the parsed command. The line is `pre`, the name, the value
/// `text`, `rest`; the name selects option descriptor `i`, and no token of
/// `rest` selects it again.
pub proof fn lemma_option_value_is_parsed(
    command: CommandModel,
    index: int,
    pre: Seq<Token>,
    name: Token,
    text: Seq<char>,
    rest: Seq<Token>,
    i: int,
)
    requires
        spec_scan(command, pre, 0, initial(command)) is Done,
        first_answering(command.args, name, 0) == Some(i),
        command.args[i].arg_type is Option,
        forall|k: int|
            0 <= k < rest.len() ==> first_answering(command.args, #[trigger] rest[k], 0) != Some(
                i,
            ),
    ensures
        ({
            let line = pre.push(name).push(Token::Value(text)) + rest;
            match spec_command_parsing(command, index, line) {
                Ok(parsed) => spec_convert(command.args[i].field_type, text) matches Ok(v)
                    && parsed.fields[i] == Some(v),
                Err(_) => true,
            }
        }),
{
    let line = pre.push(name).push(Token::Value(text)) + rest;
    let n = pre.len() as int;
    let start = initial(command);
    let mid = spec_scan(command, pre, 0, start)->Done_0;
    lemma_first_answering_is_first(command.args, name, 0);
    lemma_scan_wf(command, pre, 0, start);
    assert(line.take(n) =~= pre);
    lemma_scan_split(command, line, 0, start, n);
    assert(line[n] == name);
    assert(line[n + 1] == Token::Value(text));
    lemma_option_value_binding(command, line, n, mid, i, text);
    match spec_convert(command.args[i].field_type, text) {
        Ok(v) => {
            let bound = ProgressModel {
                state: StateModel::Normal,
                positional: mid.positional,
                fields: mid.fields.update(i, Some(v)),
            };
            assert forall|k: int| n + 2 <= k < line.len() implies first_answering(
                command.args,
                #[trigger] line[k],
                0,
            ) != Some(i) by {
                assert(line[k] == rest[k - n - 2]);
            }
            lemma_unselected_field_is_kept(command, line, n + 2, bound, i);
            lemma_scan_wf(command, line, n + 2, bound);
        },
        Err(_) => {},
    }
}

/// A required descriptor without a value at or after `from` makes some
/// descriptor the first missing one.
proof fn lemma_missing_is_found(
    args: Seq<CommandArgModel>,
    fields: Seq<Option<ValueModel>>,
    from: int,
    i: int,
)
    requires
        0 <= from <= i < args.len(),
        fields[i] is None,
        args[i].required(),
    ensures
        first_missing(args, fields, from) is Some,
    decreases i - from,
{
    if from < i {
        lemma_missing_is_found(args, fields, from + 1, i);
    }
}

/// The name of an option as the last token of a line binds nothing: the
/// line parses as it does without that token. A field that was not given
/// before is then missing if its descriptor is required, and has its
/// fallback otherwise.
pub proof fn lemma_option_name_last(
    command: CommandModel,
    index: int,
    pre: Seq<Token>,
    token: Token,
    i: int,
)
    requires
        first_answering(command.args, token, 0) == Some(i),
        command.args[i].arg_type is Option,
        spec_scan(command, pre, 0, initial(command)) is Done,
    ensures
        spec_command_parsing(command, index, pre.push(token)) == spec_command_parsing(
            command,
            index,
            pre,
        ),
        ({
            let given = spec_scan(command, pre, 0, initial(command))->Done_0.fields;
            let result = spec_command_parsing(command, index, pre.push(token));
            given[i] is None ==> {
                &&& command.args[i].required() ==> result is Err && result->Err_0
                    is MissingRequiredArgument
                &&& result matches Ok(parsed) ==> parsed.fields[i] == filled(command.args[i], None)
            }
        }),
{
    let tokens = pre.push(token);
    let n = pre.len() as int;
    let mid = spec_scan(command, pre, 0, initial(command))->Done_0;
    lemma_first_answering_is_first(command.args, token, 0);
    assert(tokens.take(n) =~= pre);
    lemma_scan_split(command, tokens, 0, initial(command), n);
    let awaiting = ProgressModel { state: StateModel::ExpectValue(i), ..mid };
    assert(spec_step(command, mid, tokens[n]) == StepModel::Next(awaiting));
    assert(spec_scan(command, tokens, n + 1, awaiting) == ScanModel::Done(awaiting));
    assert(spec_scan(command, tokens, 0, initial(command)) == ScanModel::Done(awaiting));
    if mid.fields[i] is None && command.args[i].required() {
        lemma_missing_is_found(command.args, mid.fields, 0, i);
    }
}

/// Whether every token of the line is a plain value.
pub open spec fn all_values(tokens: Seq<Token>) -> bool {
    forall|k: int| 0 <= k < tokens.len() ==> (#[trigger] tokens[k]) is Value
}

/// A run over plain values from value number `m` on, where `m` values were
/// taken before: if it ends well, each value went to the positional
/// descriptor of its number, and no other field changed.
proof fn lemma_values_fill_in_order(
    command: CommandModel,
    tokens: Seq<Token>,
    m: int,
    st: ProgressModel,
)
    requires
        command.subcommand is None,
        all_values(tokens),
        0 <= m <= tokens.len(),
        st.state is Normal,
        st.positional == m,
        st.wf(command),
        spec_scan(command, tokens, m, st) is Done,
    ensures
        ({
            let end = spec_scan(command, tokens, m, st)->Done_0;
            &&& forall|k: int|
                m <= k < tokens.len() ==> {
                    &&& (#[trigger] nth_positional(command.args, k as nat, 0)) matches Some(i)
                    &&& spec_convert(command.args[i].field_type, tokens[k]->Value_0) matches Ok(v)
                    &&& end.fields[i] == Some(v)
                }
            &&& forall|j: int|
                0 <= j < command.args.len() && (forall|k: int|
                    m <= k < tokens.len() ==> #[trigger] nth_positional(command.args, k as nat, 0)
                        != Some(j)) ==> #[trigger] end.fields[j] == st.fields[j]
        }),
    decreases tokens.len() - m,
{
    if m < tokens.len() {
        let text = tokens[m]->Value_0;
        assert(tokens[m] is Value);
        lemma_nth_positional_in_range(command.args, m as nat, 0);
        lemma_step_wf(command, st, tokens[m]);
        let i = nth_positional(command.args, m as nat, 0)->0;
        let v = spec_convert(command.args[i].field_type, text)->Ok_0;
        let next = spec_step(command, st, tokens[m])->Next_0;
        assert(next.fields == st.fields.update(i, Some(v)));
        lemma_values_fill_in_order(command, tokens, m + 1, next);
        let end = spec_scan(command, tokens, m, st)->Done_0;
        assert forall|k: int| m + 1 <= k < tokens.len() implies #[trigger] nth_positional(
            command.args,
            k as nat,
            0,
        ) != Some(i) by {
            lemma_positional_slots_increase(command.args, m as nat, k as nat, 0);
        }
        assert(end.fields[i] == next.fields[i]);
        assert forall|j: int|
            0 <= j < command.args.len() && (forall|k: int|
                m <= k < tokens.len() ==> #[trigger] nth_positional(command.args, k as nat, 0)
                    != Some(j)) implies #[trigger] end.fields[j] == st.fields[j] by {
            assert(nth_positional(command.args, m as nat, 0) != Some(j));
            assert(end.fields[j] == next.fields[j]);
        }
    }
}

/// Positional values are bound from left to right in the order in which the
/// positional descriptors were declared: where a line of plain values
/// parses, value number `k` was converted for positional descriptor number
/// `k` and stands in its field.
pub proof fn lemma_positional_order(
    command: CommandModel,
    index: int,
    tokens: Seq<Token>,
    k: int,
)
    requires
        command.subcommand is None,
        all_values(tokens),
        spec_command_parsing(command, index, tokens) is Ok,
        0 <= k < tokens.len(),
    ensures
        ({
            let parsed = spec_command_parsing(command, index, tokens)->Ok_0;
            &&& nth_positional(command.args, k as nat, 0) matches Some(i)
            &&& spec_convert(command.args[i].field_type, tokens[k]->Value_0) matches Ok(v)
            &&& parsed.fields[i] == Some(v)
        }),
{
    lemma_scan_wf(command, tokens, 0, initial(command));
    lemma_values_fill_in_order(command, tokens, 0, initial(command));
    lemma_nth_positional_in_range(command.args, k as nat, 0);
}

/// A run over plain values in which the values from number `m` up to
/// number `n` convert, and no positional descriptor has number `n`, refuses
/// value number `n`.
proof fn lemma_values_overflow(
    command: CommandModel,
    tokens: Seq<Token>,
    m: int,
    st: ProgressModel,
    n: int,
)
    requires
        command.subcommand is None,
        all_values(tokens),
        0 <= m <= n < tokens.len(),
        st.state is Normal,
        st.positional == m,
        st.wf(command),
        nth_positional(command.args, n as nat, 0) is None,
        forall|k: int|
            m <= k < n ==> {
                &&& (#[trigger] nth_positional(command.args, k as nat, 0)) matches Some(i)
                &&& spec_convert(command.args[i].field_type, tokens[k]->Value_0) is Ok
            },
    ensures
        spec_scan(command, tokens, m, st) == ScanModel::Fail(
            ParseErrorModel::UnexpectedArgument { value: tokens[n]->Value_0 },
        ),
    decreases n - m,
{
    assert(tokens[m] is Value);
    if m < n {
        assert(nth_positional(command.args, m as nat, 0) is Some);
        lemma_step_wf(command, st, tokens[m]);
        let next = spec_step(command, st, tokens[m])->Next_0;
        lemma_values_overflow(command, tokens, m + 1, next, n);
    }
}

/// One plain value more than there are positional descriptors is an
/// unexpected argument: where the command has `n` positional descriptors and
/// no subcommand, and the first `n` values of a line of plain values
/// convert, value number `n` is refused.
pub proof fn lemma_positional_excess(command: CommandModel, index: int, tokens: Seq<Token>)
    requires
        command.subcommand is None,
        all_values(tokens),
        positional_count(command.args, 0) < tokens.len(),
        forall|k: int|
            0 <= k < positional_count(command.args, 0) ==> spec_convert(
                command.args[(#[trigger] nth_positional(command.args, k as nat, 0))->0].field_type,
                tokens[k]->Value_0,
            ) is Ok,
    ensures
        spec_command_parsing(command, index, tokens) == Err::<ParsedModel, ParseErrorModel>(
            ParseErrorModel::UnexpectedArgument {
                value: tokens[positional_count(command.args, 0) as int]->Value_0,
            },
        ),
{
    let n = positional_count(command.args, 0);
    lemma_nth_positional_exists(command.args, n, 0);
    assert forall|k: int| 0 <= k < n implies {
        &&& (#[trigger] nth_positional(command.args, k as nat, 0)) matches Some(i)
        &&& spec_convert(command.args[i].field_type, tokens[k]->Value_0) is Ok
    } by {
        lemma_nth_positional_exists(command.args, k as nat, 0);
    }
    lemma_values_overflow(command, tokens, 0, initial(command), n as int);
}

/// Once a value has named the subcommand, the tokens after it belong to the
/// subcommand alone. If the tokens `pre` leave the machine in its normal
/// state, then the line `pre`, `name`, `rest` is parsed as follows: `name`
/// and `rest` go to the nested namespace, and the fields of this command are
/// built from what `pre` gave. No token of `rest` reaches them, even one
/// that an option or a flag of this command answers to.
pub proof fn lemma_subcommand_short_circuit(
    command: CommandModel,
    index: int,
    pre: Seq<Token>,
    name: Seq<char>,
    rest: Seq<Token>,
)
    requires
        command.subcommand is Some,
        spec_scan(command, pre, 0, initial(command)) matches ScanModel::Done(mid)
            && mid.state is Normal,
    ensures
        spec_command_parsing(command, index, pre.push(Token::Value(name)) + rest) == (
        match spec_derive_from_raw(command.subcommand->0.commands, name, rest) {
            Ok(parsed) => spec_finish(
                command,
                index,
                spec_scan(command, pre, 0, initial(command))->Done_0.fields,
                Some(parsed),
            ),
            Err(e) => Err(e),
        }),
{
    let tokens = pre.push(Token::Value(name)) + rest;
    let n = pre.len() as int;
    let mid = spec_scan(command, pre, 0, initial(command))->Done_0;
    assert(tokens.take(n) =~= pre);
    lemma_scan_split(command, tokens, 0, initial(command), n);
    assert(tokens[n] == Token::Value(name));
    assert(spec_scan(command, tokens, 0, initial(command)) == ScanModel::Boundary(mid, n));
    assert(tokens.skip(n + 1) =~= rest);
}

/// The fields of a command with a subcommand are the same whatever follows
/// the name of the subcommand.
pub proof fn lemma_parent_fields_ignore_later_tokens(
    command: CommandModel,
    index: int,
    pre: Seq<Token>,
    name: Seq<char>,
    rest: Seq<Token>,
    other: Seq<Token>,
)
    requires
        command.subcommand is Some,
        spec_scan(command, pre, 0, initial(command)) matches ScanModel::Done(mid)
            && mid.state is Normal,
    ensures
        ({
            let a = spec_command_parsing(command, index, pre.push(Token::Value(name)) + rest);
            let b = spec_command_parsing(command, index, pre.push(Token::Value(name)) + other);
            a is Ok && b is Ok ==> a->Ok_0.fields == b->Ok_0.fields
        }),
{
    lemma_subcommand_short_circuit(command, index, pre, name, rest);
    lemma_subcommand_short_circuit(command, index, pre, name, other);
}

/// Parsing is a function of the namespace, the name and the tokens: the same
/// line parsed twice against the same schema gives equal results. Nothing of
/// the schema changes between two parses.
pub proof fn lemma_parse_is_repeatable(
    commands: Seq<CommandModel>,
    name: Seq<char>,
    tokens: Seq<Token>,
    first: Result<ParsedModel, ParseErrorModel>,
    second: Result<ParsedModel, ParseErrorModel>,
)
    requires
        first == spec_derive_from_raw(commands, name, tokens),
        second == spec_derive_from_raw(commands, name, tokens),
    ensures
        first == second,
{
}

/// A dispatch name that no command of the namespace has gives
/// `UnknownCommand`, whatever the tokens are.
pub proof fn lemma_unknown_command(commands: Seq<CommandModel>, name: Seq<char>, tokens: Seq<Token>)
    requires
        forall|k: int| 0 <= k < commands.len() ==> (#[trigger] commands[k]).name != name,
    ensures
        spec_derive_from_raw(commands, name, tokens) == Err::<ParsedModel, ParseErrorModel>(
            ParseErrorModel::UnknownCommand,
        ),
{
    lemma_resolve_is_first(commands, name, 0);
}

/// Where no descriptor from `from` on is required, none is missing.
proof fn lemma_none_missing(args: Seq<CommandArgModel>, fields: Seq<Option<ValueModel>>, from: int)
    requires
        0 <= from,
        forall|i: int| from <= i < args.len() ==> !(#[trigger] args[i]).required(),
    ensures
        first_missing(args, fields, from) is None,
    decreases args.len() - from,
{
    if from < args.len() {
        lemma_none_missing(args, fields, from + 1);
    }
}

/// Where every field has a default, an empty line parses to the value of
/// the defaults: if no descriptor is required and no subcommand is, every
/// field has its fallback, which is `false` for a flag, the declared default
/// for an option or a positional argument, and nothing for an optional
/// field.
pub proof fn lemma_defaults_round_trip(command: CommandModel, index: int)
    requires
        forall|i: int| 0 <= i < command.args.len() ==> !(#[trigger] command.args[i]).required(),
        command.subcommand matches Some(sub) ==> sub.ty == ArgType::Option,
    ensures
        spec_command_parsing(command, index, Seq::empty()) == Ok::<ParsedModel, ParseErrorModel>(
            ParsedModel {
                command: index,
                fields: Seq::new(command.args.len(), |i: int| filled(command.args[i], None)),
                subcommand: None,
            },
        ),
{
    let fields = initial(command).fields;
    lemma_none_missing(command.args, fields, 0);
    assert(Seq::new(command.args.len(), |i: int| filled(command.args[i], fields[i]))
        =~= Seq::new(command.args.len(), |i: int| filled(command.args[i], None)));
}

/// The same for a raw command: where its name resolves to such a command,
/// the line of the name alone parses to the value of the fallbacks.
pub proof fn lemma_defaults_round_trip_by_name(commands: Seq<CommandModel>, name: Seq<char>)
    requires
        spec_resolve(commands, name, 0) is Some,
        ({
            let command = commands[spec_resolve(commands, name, 0)->0];
            &&& forall|i: int|
                0 <= i < command.args.len() ==> !(#[trigger] command.args[i]).required()
            &&& command.subcommand matches Some(sub) ==> sub.ty == ArgType::Option
        }),
    ensures
        ({
            let k = spec_resolve(commands, name, 0)->0;
            spec_derive_from_raw(commands, name, Seq::empty()) == Ok::<
                ParsedModel,
                ParseErrorModel,
            >(
                ParsedModel {
                    command: k,
                    fields: Seq::new(
                        commands[k].args.len(),
                        |i: int| filled(commands[k].args[i], None),
                    ),
                    subcommand: None,
                },
            )
        }),
{
    let k = spec_resolve(commands, name, 0)->0;
    lemma_resolve_is_first(commands, name, 0);
    lemma_defaults_round_trip(commands[k], k);
}

/// Whether every value has the type of the field it stands in.
pub open spec fn typed(args: Seq<CommandArgModel>, fields: Seq<Option<ValueModel>>) -> bool {
    &&& fields.len() == args.len()
    &&& forall|i: int|
        0 <= i < args.len() ==> ((#[trigger] fields[i]) matches Some(v) ==> v.field_type()
            == args[i].field_type)
}

/// A run over well-formed descriptors stores values of the declared types
/// only.
proof fn lemma_scan_is_typed(command: CommandModel, tokens: Seq<Token>, i: int, st: ProgressModel)
    requires
        command.wf(),
        st.wf(command),
        typed(command.args, st.fields),
        0 <= i,
    ensures
        match spec_scan(command, tokens, i, st) {
            ScanModel::Done(end) => typed(command.args, end.fields),
            ScanModel::Boundary(end, _) => typed(command.args, end.fields),
            ScanModel::Fail(_) => true,
        },
    decreases tokens.len() - i,
{
    if i < tokens.len() {
        let token = tokens[i];
        lemma_step_wf(command, st, token);
        lemma_first_answering_is_first(command.args, token, 0);
        lemma_nth_positional_in_range(command.args, st.positional, 0);
        match spec_step(command, st, token) {
            StepModel::Next(next) => {
                assert(typed(command.args, next.fields));
                lemma_scan_is_typed(command, tokens, i + 1, next);
            },
            _ => {},
        }
    }
}

/// Where nothing is missing, every field without a value that is not
/// optional has a fallback.
proof fn lemma_not_missing(
    args: Seq<CommandArgModel>,
    fields: Seq<Option<ValueModel>>,
    from: int,
    i: int,
)
    requires
        0 <= from <= i < args.len(),
        first_missing(args, fields, from) is None,
    ensures
        !(fields[i] is None && args[i].required()),
    decreases i - from,
{
    if from < i {
        lemma_not_missing(args, fields, from + 1, i);
    }
}

/// A parsed command is typed as its schema declares: it carries the index
/// it was parsed under and one place for each descriptor; a value has the
/// type of its field; and only an optional field is left without a value.
pub proof fn lemma_parsed_is_typed(command: CommandModel, index: int, tokens: Seq<Token>)
    requires
        command.wf(),
    ensures
        spec_command_parsing(command, index, tokens) matches Ok(parsed) ==> {
            &&& parsed.command == index
            &&& typed(command.args, parsed.fields)
            &&& forall|i: int|
                0 <= i < command.args.len() && (#[trigger] parsed.fields[i]) is None
                    ==> command.args[i].ty == ArgType::Option
            &&& parsed.subcommand is Some ==> command.subcommand is Some
            &&& parsed.subcommand is None && command.subcommand is Some
                ==> command.subcommand->0.ty == ArgType::Option
        },
{
    let start = initial(command);
    lemma_scan_is_typed(command, tokens, 0, start);
    lemma_scan_wf(command, tokens, 0, start);
    match spec_command_parsing(command, index, tokens) {
        Ok(parsed) => {
            let given = match spec_scan(command, tokens, 0, start) {
                ScanModel::Done(end) => end.fields,
                ScanModel::Boundary(end, _) => end.fields,
                ScanModel::Fail(_) => start.fields,
            };
            assert(first_missing(command.args, given, 0) is None);
            assert forall|i: int| 0 <= i < command.args.len() implies ((
            #[trigger] parsed.fields[i]) matches Some(v) ==> v.field_type()
                == command.args[i].field_type) && (parsed.fields[i] is None ==> command.args[i].ty
                == ArgType::Option) by {
                lemma_not_missing(command.args, given, 0, i);
                assert(command.args[i].wf());
                assert(parsed.fields[i] == filled(command.args[i], given[i]));
            }
        },
        Err(_) => {},
    }
}

} // verus!
