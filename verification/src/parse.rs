//! The parsing engine: dispatch by name, the run of the state machine over
//! the tokens of the command, the hand-over to a subcommand, and the command
//! value built at the end.

use vstd::prelude::*;
use vstd::slice::slice_subrange;
use crate::arguments::{Arg, Token, Value, ValueModel, optional_value_view, tokens_view};
use crate::command::RawCommand;
use crate::machine::{Scan, ScanModel, initial, optional_index_view, scan, spec_scan};
use crate::schema::{
    ArgType,
    Command,
    CommandArgModel,
    CommandModel,
    lemma_subcommand_view,
    namespace_view,
    namespace_wf,
};
use crate::service::{
    ParseError,
    ParseErrorModel,
    Parsed,
    ParsedModel,
    fields_view,
    outcome_view,
};
use crate::utils::same_text;

verus! {

/// The first command at or after `from` whose dispatch name is exactly
/// `name`.
pub open spec fn spec_resolve(commands: Seq<CommandModel>, name: Seq<char>, from: int) -> Option<
    int,
>
    decreases commands.len() - from,
{
    if from < 0 || from >= commands.len() {
        None
    } else if commands[from].name == name {
        Some(from)
    } else {
        spec_resolve(commands, name, from + 1)
    }
}

/// The command that a name resolves to is the first one of that name.
pub proof fn lemma_resolve_is_first(commands: Seq<CommandModel>, name: Seq<char>, from: int)
    requires
        0 <= from,
    ensures
        match spec_resolve(commands, name, from) {
            Some(k) => {
                &&& from <= k < commands.len()
                &&& commands[k].name == name
                &&& forall|j: int| from <= j < k ==> (#[trigger] commands[j]).name != name
            },
            None => forall|j: int| from <= j < commands.len() ==> (#[trigger] commands[j]).name
                != name,
        },
    decreases commands.len() - from,
{
    if from < commands.len() && commands[from].name != name {
        lemma_resolve_is_first(commands, name, from + 1);
    }
}

/// The first command of the namespace whose dispatch name is exactly `name`.
/// Nothing but equality counts: no prefix, no folding of case.
pub fn resolve(commands: &[Command], name: &str) -> (r: Option<usize>)
    ensures
        optional_index_view(r) == spec_resolve(namespace_view(commands@), name@, 0),
        r matches Some(k) ==> k < commands@.len(),
{
    let mut i: usize = 0;
    while i < commands.len()
        invariant
            i <= commands@.len(),
            spec_resolve(namespace_view(commands@), name@, 0) == spec_resolve(
                namespace_view(commands@),
                name@,
                i as int,
            ),
        decreases commands@.len() - i,
    {
        assert(namespace_view(commands@)[i as int] == commands@[i as int]@);
        if same_text(commands[i].name.as_str(), name) {
            return Some(i);
        }
        i = i + 1;
    }
    None
}

/// The first descriptor at or after `from` that is required and was given no
/// value.
pub open spec fn first_missing(
    args: Seq<CommandArgModel>,
    fields: Seq<Option<ValueModel>>,
    from: int,
) -> Option<int>
    decreases args.len() - from,
{
    if from < 0 || from >= args.len() {
        None
    } else if fields[from] is None && args[from].required() {
        Some(from)
    } else {
        first_missing(args, fields, from + 1)
    }
}

/// The final value of a field: what was given, else nothing for an optional
/// field, else the fallback of its descriptor.
pub open spec fn filled(arg: CommandArgModel, given: Option<ValueModel>) -> Option<ValueModel> {
    match given {
        Some(v) => Some(v),
        None => if arg.ty == ArgType::Option {
            None
        } else {
            arg.fallback()
        },
    }
}

/// The command value built from what was given, or the first missing
/// required argument: the descriptors are checked in the order of their
/// declaration, the subcommand last.
pub open spec fn spec_finish(
    command: CommandModel,
    index: int,
    fields: Seq<Option<ValueModel>>,
    subcommand: Option<ParsedModel>,
) -> Result<ParsedModel, ParseErrorModel> {
    match first_missing(command.args, fields, 0) {
        Some(i) => Err(ParseErrorModel::MissingRequiredArgument { name: command.args[i].name }),
        None => match command.subcommand {
            Some(sub) if sub.ty == ArgType::Normal && subcommand is None => Err(
                ParseErrorModel::MissingRequiredArgument { name: sub.field.full_name(command.name) },
            ),
            _ => Ok(
                ParsedModel {
                    command: index,
                    fields: Seq::new(
                        command.args.len(),
                        |i: int| filled(command.args[i], fields[i]),
                    ),
                    subcommand: match subcommand {
                        Some(parsed) => Some(Box::new(parsed)),
                        None => None,
                    },
                },
            ),
        },
    }
}

/// The model of a parsed subcommand that may be absent.
pub open spec fn optional_parsed_view(parsed: Option<Parsed<'_>>) -> Option<ParsedModel> {
    match parsed {
        Some(parsed) => Some(parsed@),
        None => None,
    }
}

/// Builds the command value from what was given: a field without a value
/// takes its fallback, and the first required field without one fails the
/// parse.
pub fn finish<'a>(
    command: &'a Command,
    index: usize,
    fields: Vec<Option<Value<'a>>>,
    subcommand: Option<Parsed<'a>>,
) -> (r: Result<Parsed<'a>, ParseError<'a>>)
    requires
        fields@.len() == command@.args.len(),
    ensures
        outcome_view(r) == spec_finish(
            command@,
            index as int,
            fields_view(fields@),
            optional_parsed_view(subcommand),
        ),
{
    let ghost given = fields_view(fields@);
    let mut out: Vec<Option<Value<'a>>> = Vec::new();
    let mut i: usize = 0;
    while i < command.args.len()
        invariant
            i <= command.args@.len(),
            fields@.len() == command.args@.len(),
            given == fields_view(fields@),
            out@.len() == i,
            first_missing(command@.args, given, 0) == first_missing(command@.args, given, i as int),
            forall|j: int|
                0 <= j < i ==> optional_value_view(#[trigger] out@[j]) == filled(
                    command@.args[j],
                    given[j],
                ),
        decreases command.args@.len() - i,
    {
        assert(command@.args[i as int] == command.args@[i as int]@);
        let arg = &command.args[i];
        let value = match fields[i] {
            Some(v) => Some(v),
            None => match arg.ty {
                ArgType::Option => None,
                ArgType::Normal => match arg.fallback() {
                    Some(v) => Some(v),
                    None => {
                        return Err(
                            ParseError::MissingRequiredArgument { name: arg.name.as_str() },
                        );
                    },
                },
            },
        };
        out.push(value);
        i = i + 1;
    }
    let ghost built = Seq::new(
        command@.args.len(),
        |j: int| filled(command@.args[j], given[j]),
    );
    assert(fields_view(out@) =~= built);
    match &command.subcommand {
        Some(sub) => {
            proof {
                lemma_subcommand_view(*command);
            }
            if sub.ty == ArgType::Normal && subcommand.is_none() {
                return Err(
                    ParseError::MissingRequiredArgument {
                        name: sub.field.full_name(command.name.as_str()),
                    },
                );
            }
        },
        None => {},
    }
    let subcommand = match subcommand {
        Some(parsed) => Some(Box::new(parsed)),
        None => None,
    };
    Ok(Parsed { command: index, fields: out, subcommand })
}

/// The result of parsing `tokens` as the arguments of `command`, which is
/// number `index` of its namespace.
pub open spec fn spec_command_parsing(
    command: CommandModel,
    index: int,
    tokens: Seq<Token>,
) -> Result<ParsedModel, ParseErrorModel>
    decreases command,
{
    match spec_scan(command, tokens, 0, initial(command)) {
        ScanModel::Fail(e) => Err(e),
        ScanModel::Done(st) => spec_finish(command, index, st.fields, None),
        ScanModel::Boundary(st, i) => match (command.subcommand, tokens[i]) {
            (Some(sub), Token::Value(name)) => match spec_derive_from_raw(
                sub.commands,
                name,
                tokens.skip(i + 1),
            ) {
                Ok(parsed) => spec_finish(command, index, st.fields, Some(parsed)),
                Err(e) => Err(e),
            },
            _ => spec_finish(command, index, st.fields, None),
        },
    }
}

/// The result of parsing the raw command of the given name and tokens
/// against the namespace `commands`.
pub open spec fn spec_derive_from_raw(
    commands: Seq<CommandModel>,
    name: Seq<char>,
    tokens: Seq<Token>,
) -> Result<ParsedModel, ParseErrorModel>
    decreases commands,
{
    match spec_resolve(commands, name, 0) {
        Some(k) if 0 <= k < commands.len() => spec_command_parsing(commands[k], k, tokens),
        _ => Err(ParseErrorModel::UnknownCommand),
    }
}

/// Parses `tokens` as the arguments of `command`, which is number `index` of
/// its namespace. Where a value names a subcommand, it and all tokens after
/// it are parsed against the nested namespace, and the tokens before it
/// alone decide the fields of this command.
pub fn command_parsing<'a>(command: &'a Command, index: usize, tokens: &'a [Arg<'a>]) -> (r: Result<
    Parsed<'a>,
    ParseError<'a>,
>)
    requires
        command@.wf(),
    ensures
        outcome_view(r) == spec_command_parsing(command@, index as int, tokens_view(tokens@)),
    decreases command@,
{
    match scan(command, tokens) {
        Err(e) => Err(e),
        Ok(Scan::Done(progress)) => finish(command, index, progress.fields, None),
        Ok(Scan::Boundary(progress, i)) => match (&command.subcommand, tokens[i]) {
            (Some(sub), Arg::Value(name)) => {
                proof {
                    lemma_subcommand_view(*command);
                    assert(tokens_view(tokens@)[i as int] == tokens@[i as int]@);
                }
                let rest = slice_subrange(tokens, i + 1, tokens.len());
                assert(tokens_view(rest@) =~= tokens_view(tokens@).skip(i + 1));
                match derive_from_raw(sub.commands.as_slice(), RawCommand::new(name, rest)) {
                    Ok(parsed) => finish(command, index, progress.fields, Some(parsed)),
                    Err(e) => Err(e),
                }
            },
            _ => finish(command, index, progress.fields, None),
        },
    }
}

/// Parses a raw command against a namespace: the command whose dispatch name
/// is exactly the raw command's name takes the tokens; without one the
/// command is unknown, whatever the tokens are.
pub fn derive_from_raw<'a>(commands: &'a [Command], command: RawCommand<'a>) -> (r: Result<
    Parsed<'a>,
    ParseError<'a>,
>)
    requires
        namespace_wf(namespace_view(commands@)),
    ensures
        outcome_view(r) == spec_derive_from_raw(
            namespace_view(commands@),
            command.spec_name(),
            command.spec_args(),
        ),
    decreases namespace_view(commands@),
{
    match resolve(commands, command.name()) {
        Some(k) => {
            assert(namespace_view(commands@)[k as int] == commands@[k as int]@);
            command_parsing(&commands[k], k, command.args())
        },
        None => Err(ParseError::UnknownCommand),
    }
}

} // verus!
