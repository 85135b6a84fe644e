//! The state machine of one command: which descriptor a token selects, what
//! one token does to the machine, and the run over the tokens of a line.
//!
//! Each rule is a specification function over the models of schema and
//! tokens; the executable function beside it is proved to compute it.

use vstd::prelude::*;
use crate::arguments::{
    Arg,
    Token,
    Value,
    ValueModel,
    from_arg,
    spec_convert,
    tokens_view,
};
use crate::schema::{
    Command,
    CommandArg,
    CommandArgModel,
    CommandArgType,
    CommandArgTypeModel,
    CommandModel,
    args_view,
    optional_name_view,
};
use crate::service::{ParseError, ParseErrorModel, fields_view};
use crate::utils::same_text;

verus! {

/// Whether `token` is an option name that equals the long or the short name
/// given.
pub open spec fn spec_option_name_arm(
    short: Option<char>,
    long: Option<Seq<char>>,
    token: Token,
) -> bool {
    match token {
        Token::LongOption(name) => long == Some(name),
        Token::ShortOption(name) => short == Some(name),
        _ => false,
    }
}

/// Whether `token` is an option name that equals the long or the short name
/// of a descriptor. A descriptor without any name is not asked.
pub fn create_option_name_arm(short: &Option<char>, long: &Option<String>, token: &Arg) -> (r: bool)
    requires
        short is Some || long is Some,
    ensures
        r == spec_option_name_arm(*short, optional_name_view(*long), token@),
{
    match token {
        Arg::LongOption(name) => match long {
            Some(long) => same_text(long.as_str(), name),
            None => false,
        },
        Arg::ShortOption(name) => match short {
            Some(short) => *short == *name,
            None => false,
        },
        _ => false,
    }
}

/// Whether the descriptor answers to `token`: it is a flag or an option, and
/// the token is one of its names.
pub open spec fn answers(arg: CommandArgModel, token: Token) -> bool {
    match arg.arg_type {
        CommandArgTypeModel::Flag { long, short } => spec_option_name_arm(short, long, token),
        CommandArgTypeModel::Option { long, short } => spec_option_name_arm(short, long, token),
        CommandArgTypeModel::Positional => false,
    }
}

/// Whether the descriptor answers to the token.
fn arg_answers(arg: &CommandArg, token: &Arg) -> (r: bool)
    requires
        arg@.wf(),
    ensures
        r == answers(arg@, token@),
{
    match &arg.arg_type {
        CommandArgType::Flag { long, short } => create_option_name_arm(short, long, token),
        CommandArgType::Option { long, short } => create_option_name_arm(short, long, token),
        CommandArgType::Positional => false,
    }
}

/// The first descriptor at or after `from` that answers to `token`.
pub open spec fn first_answering(args: Seq<CommandArgModel>, token: Token, from: int) -> Option<
    int,
>
    decreases args.len() - from,
{
    if from < 0 || from >= args.len() {
        None
    } else if answers(args[from], token) {
        Some(from)
    } else {
        first_answering(args, token, from + 1)
    }
}

/// The first descriptor that answers to a token lies within the list,
/// answers to it, and no descriptor before it does.
pub proof fn lemma_first_answering_is_first(args: Seq<CommandArgModel>, token: Token, from: int)
    requires
        0 <= from,
    ensures
        match first_answering(args, token, from) {
            Some(i) => {
                &&& from <= i < args.len()
                &&& answers(args[i], token)
                &&& !(args[i].arg_type is Positional)
                &&& forall|j: int| from <= j < i ==> !answers(#[trigger] args[j], token)
            },
            None => forall|j: int| from <= j < args.len() ==> !answers(#[trigger] args[j], token),
        },
    decreases args.len() - from,
{
    if from < args.len() && !answers(args[from], token) {
        lemma_first_answering_is_first(args, token, from + 1);
    }
}

/// The model of an index that may be absent.
pub open spec fn optional_index_view(i: Option<usize>) -> Option<int> {
    match i {
        Some(i) => Some(i as int),
        None => None,
    }
}

/// The first descriptor that answers to the token.
fn find_answering(args: &Vec<CommandArg>, token: &Arg) -> (r: Option<usize>)
    requires
        forall|i: int| 0 <= i < args@.len() ==> (#[trigger] args_view(args@)[i]).wf(),
    ensures
        optional_index_view(r) == first_answering(args_view(args@), token@, 0),
        r matches Some(i) ==> i < args@.len(),
{
    let mut i: usize = 0;
    while i < args.len()
        invariant
            i <= args@.len(),
            forall|i: int| 0 <= i < args@.len() ==> (#[trigger] args_view(args@)[i]).wf(),
            first_answering(args_view(args@), token@, 0) == first_answering(
                args_view(args@),
                token@,
                i as int,
            ),
        decreases args@.len() - i,
    {
        assert(args_view(args@)[i as int] == args@[i as int]@);
        if arg_answers(&args[i], token) {
            return Some(i);
        }
        i = i + 1;
    }
    None
}

/// The positional descriptor number `k`, counted from zero among the
/// positional descriptors at or after `from`.
pub open spec fn nth_positional(args: Seq<CommandArgModel>, k: nat, from: int) -> Option<int>
    decreases args.len() - from,
{
    if from < 0 || from >= args.len() {
        None
    } else if args[from].arg_type is Positional {
        if k == 0 {
            Some(from)
        } else {
            nth_positional(args, (k - 1) as nat, from + 1)
        }
    } else {
        nth_positional(args, k, from + 1)
    }
}

/// How many positional descriptors there are at or after `from`.
pub open spec fn positional_count(args: Seq<CommandArgModel>, from: int) -> nat
    decreases args.len() - from,
{
    if from < 0 || from >= args.len() {
        0
    } else if args[from].arg_type is Positional {
        1 + positional_count(args, from + 1)
    } else {
        positional_count(args, from + 1)
    }
}

/// A positional descriptor that can be counted to lies within the list, is
/// positional, and has at least as many descriptors before it as its number.
pub proof fn lemma_nth_positional_in_range(args: Seq<CommandArgModel>, k: nat, from: int)
    requires
        0 <= from,
    ensures
        nth_positional(args, k, from) matches Some(i) ==> from + k <= i < args.len()
            && args[i].arg_type is Positional,
    decreases args.len() - from,
{
    if from < args.len() {
        if args[from].arg_type is Positional {
            if k > 0 {
                lemma_nth_positional_in_range(args, (k - 1) as nat, from + 1);
            }
        } else {
            lemma_nth_positional_in_range(args, k, from + 1);
        }
    }
}

/// The positional descriptors that can be counted to are those whose
/// number is below the count.
pub proof fn lemma_nth_positional_exists(args: Seq<CommandArgModel>, k: nat, from: int)
    requires
        0 <= from,
    ensures
        nth_positional(args, k, from) is Some <==> k < positional_count(args, from),
    decreases args.len() - from,
{
    if from < args.len() {
        if args[from].arg_type is Positional {
            if k > 0 {
                lemma_nth_positional_exists(args, (k - 1) as nat, from + 1);
            }
        } else {
            lemma_nth_positional_exists(args, k, from + 1);
        }
    }
}

/// Positional descriptors are numbered in the order of their declaration: a
/// higher number belongs to a later descriptor.
pub proof fn lemma_positional_slots_increase(
    args: Seq<CommandArgModel>,
    a: nat,
    b: nat,
    from: int,
)
    requires
        0 <= from,
        a < b,
        nth_positional(args, b, from) is Some,
    ensures
        nth_positional(args, a, from) is Some,
        nth_positional(args, a, from)->0 < nth_positional(args, b, from)->0,
    decreases args.len() - from,
{
    if from < args.len() {
        if args[from].arg_type is Positional {
            if a > 0 {
                lemma_positional_slots_increase(
                    args,
                    (a - 1) as nat,
                    (b - 1) as nat,
                    from + 1,
                );
            } else {
                lemma_nth_positional_in_range(args, (b - 1) as nat, from + 1);
            }
        } else {
            lemma_positional_slots_increase(args, a, b, from + 1);
        }
    }
}

/// The positional descriptor number `k`, counted from zero.
fn find_positional(args: &Vec<CommandArg>, k: usize) -> (r: Option<usize>)
    ensures
        optional_index_view(r) == nth_positional(args_view(args@), k as nat, 0),
        r matches Some(i) ==> i < args@.len(),
{
    let mut i: usize = 0;
    let mut left: usize = k;
    while i < args.len()
        invariant
            i <= args@.len(),
            nth_positional(args_view(args@), k as nat, 0) == nth_positional(
                args_view(args@),
                left as nat,
                i as int,
            ),
        decreases args@.len() - i,
    {
        assert(args_view(args@)[i as int] == args@[i as int]@);
        match &args[i].arg_type {
            CommandArgType::Positional => {
                if left == 0 {
                    return Some(i);
                }
                left = left - 1;
            },
            _ => {},
        }
        i = i + 1;
    }
    None
}

/// The state of the machine between two tokens.
pub enum StateModel {
    /// No value is awaited.
    Normal,
    /// The next value belongs to the option descriptor of this index.
    ExpectValue(int),
}

/// The state of the machine between two tokens.
#[derive(Clone, Copy, Debug, PartialEq, Eq)]
pub enum State {
    /// No value is awaited.
    Normal,
    /// The next value belongs to the option descriptor of this index.
    ExpectValue(usize),
}

impl View for State {
    type V = StateModel;

    open spec fn view(&self) -> StateModel {
        match *self {
            State::Normal => StateModel::Normal,
            State::ExpectValue(i) => StateModel::ExpectValue(i as int),
        }
    }
}

/// Whether `state` is a state of the machine of `command`: the normal state,
/// or the state that awaits the value of one of its option descriptors.
pub open spec fn is_state_of(command: CommandModel, state: StateModel) -> bool {
    match state {
        StateModel::Normal => true,
        StateModel::ExpectValue(i) => 0 <= i < command.args.len()
            && command.args[i].arg_type is Option,
    }
}

/// What the machine has gathered so far.
pub struct ProgressModel {
    pub state: StateModel,
    /// How many positional values were taken.
    pub positional: nat,
    /// The values given so far, one place for each descriptor.
    pub fields: Seq<Option<ValueModel>>,
}

impl ProgressModel {
    /// The progress fits the command: one place for each descriptor, an
    /// awaited value belongs to an option descriptor, and no more positional
    /// values were taken than there are descriptors.
    pub open spec fn wf(self, command: CommandModel) -> bool {
        &&& self.fields.len() == command.args.len()
        &&& self.positional <= command.args.len()
        &&& is_state_of(command, self.state)
    }
}

/// What the machine has gathered so far.
#[derive(Debug, PartialEq, Eq)]
pub struct Progress<'a> {
    pub state: State,
    /// How many positional values were taken.
    pub positional: usize,
    /// The values given so far, one place for each descriptor.
    pub fields: Vec<Option<Value<'a>>>,
}

impl<'a> View for Progress<'a> {
    type V = ProgressModel;

    open spec fn view(&self) -> ProgressModel {
        ProgressModel {
            state: self.state@,
            positional: self.positional as nat,
            fields: fields_view(self.fields@),
        }
    }
}

/// The state before the first token.
pub open spec fn initial(command: CommandModel) -> ProgressModel {
    ProgressModel {
        state: StateModel::Normal,
        positional: 0,
        fields: Seq::new(command.args.len(), |i: int| None),
    }
}

/// The machine in its first state: nothing given, no value awaited.
pub fn start<'a>(command: &Command) -> (progress: Progress<'a>)
    ensures
        progress@ == initial(command@),
        progress@.wf(command@),
{
    let mut fields: Vec<Option<Value<'a>>> = Vec::new();
    let mut i: usize = 0;
    while i < command.args.len()
        invariant
            i <= command.args@.len(),
            fields@.len() == i,
            forall|j: int| 0 <= j < i ==> fields@[j] is None,
        decreases command.args@.len() - i,
    {
        fields.push(None);
        i = i + 1;
    }
    assert(fields_view(fields@) =~= initial(command@).fields);
    Progress { state: State::Normal, positional: 0, fields }
}

/// What one token does to the machine.
pub enum StepModel {
    /// The token was taken; the machine goes on from this state.
    Next(ProgressModel),
    /// The token is the name of a subcommand: the machine stops, and the
    /// remaining tokens belong to the subcommand.
    Delegate,
    /// The token is refused.
    Fail(ParseErrorModel),
}

/// The state after the name of descriptor `i` was seen: a flag is set and the
/// machine is back in its normal state; an option awaits its value.
pub open spec fn after_name(arg: CommandArgModel, i: int, st: ProgressModel) -> ProgressModel {
    match arg.arg_type {
        CommandArgTypeModel::Flag { .. } => ProgressModel {
            state: StateModel::Normal,
            fields: st.fields.update(i, Some(ValueModel::Bool(true))),
            ..st
        },
        _ => ProgressModel { state: StateModel::ExpectValue(i), ..st },
    }
}

/// The state after the text of a value token was converted for descriptor
/// `i`, or the failure of that conversion.
pub open spec fn after_value(
    arg: CommandArgModel,
    i: int,
    text: Seq<char>,
    st: ProgressModel,
) -> StepModel {
    match spec_convert(arg.field_type, text) {
        Ok(v) => StepModel::Next(
            ProgressModel { state: StateModel::Normal, fields: st.fields.update(i, Some(v)), ..st },
        ),
        Err(e) => StepModel::Fail(ParseErrorModel::ConversionFailure(e)),
    }
}

/// The transition of the machine on one token.
///
/// An option name selects the first descriptor that answers to it, whatever
/// the state. A value goes to the awaited option; in the normal state it
/// names the subcommand if the command has one, and else fills the next
/// positional descriptor. The separator `--` changes nothing.
pub open spec fn spec_step(command: CommandModel, st: ProgressModel, token: Token) -> StepModel {
    match token {
        Token::DoubleDash => StepModel::Next(st),
        Token::LongOption(name) => match first_answering(command.args, token, 0) {
            Some(i) => StepModel::Next(after_name(command.args[i], i, st)),
            None => StepModel::Fail(ParseErrorModel::UnexpectedLongOption { name }),
        },
        Token::ShortOption(name) => match first_answering(command.args, token, 0) {
            Some(i) => StepModel::Next(after_name(command.args[i], i, st)),
            None => StepModel::Fail(ParseErrorModel::UnexpectedShortOption { name }),
        },
        Token::Value(text) => match st.state {
            StateModel::ExpectValue(i) => after_value(command.args[i], i, text, st),
            StateModel::Normal => if command.subcommand is Some {
                StepModel::Delegate
            } else {
                match nth_positional(command.args, st.positional, 0) {
                    Some(i) => after_value(
                        command.args[i],
                        i,
                        text,
                        ProgressModel { positional: st.positional + 1, ..st },
                    ),
                    None => StepModel::Fail(ParseErrorModel::UnexpectedArgument { value: text }),
                }
            },
        },
    }
}

/// What the engine does after a token.
#[derive(Clone, Copy, Debug, PartialEq, Eq, Structural)]
pub enum Action {
    /// Go on with the next token.
    Continue,
    /// Hand the token, as a dispatch name, and all tokens after it to the
    /// subcommand.
    Delegate,
}

/// Puts `value` into the place of descriptor `i`.
fn store<'a>(progress: &mut Progress<'a>, i: usize, value: Value<'a>)
    requires
        i < old(progress).fields@.len(),
    ensures
        final(progress).state == old(progress).state,
        final(progress).positional == old(progress).positional,
        fields_view(final(progress).fields@) == fields_view(old(progress).fields@).update(
            i as int,
            Some(value@),
        ),
{
    progress.fields.set(i, Some(value));
    assert(fields_view(progress.fields@) =~= fields_view(old(progress).fields@).update(
        i as int,
        Some(value@),
    ));
}

/// Records that the name of descriptor `i` was seen: a flag is set, an
/// option awaits its value.
fn see_name<'a>(command: &Command, progress: &mut Progress<'a>, i: usize)
    requires
        i < command@.args.len(),
        !(command@.args[i as int].arg_type is Positional),
        old(progress)@.wf(command@),
    ensures
        final(progress)@ == after_name(command@.args[i as int], i as int, old(progress)@),
        final(progress)@.wf(command@),
{
    assert(command@.args[i as int] == command.args@[i as int]@);
    match &command.args[i].arg_type {
        CommandArgType::Flag { .. } => {
            store(progress, i, Value::Bool(true));
            progress.state = State::Normal;
        },
        _ => {
            progress.state = State::ExpectValue(i);
        },
    }
}

/// Takes one token: the transition of the state machine.
///
/// On `Continue` the progress is the next state. On `Delegate` and on an
/// error it is left as it was.
pub fn step<'a>(command: &'a Command, progress: &mut Progress<'a>, token: Arg<'a>) -> (r: Result<
    Action,
    ParseError<'a>,
>)
    requires
        command@.wf(),
        old(progress)@.wf(command@),
    ensures
        match spec_step(command@, old(progress)@, token@) {
            StepModel::Next(next) => {
                &&& r == Ok::<Action, ParseError>(Action::Continue)
                &&& final(progress)@ == next
            },
            StepModel::Delegate => {
                &&& r == Ok::<Action, ParseError>(Action::Delegate)
                &&& final(progress)@ == old(progress)@
            },
            StepModel::Fail(e) => {
                &&& r is Err
                &&& r->Err_0@ == e
                &&& final(progress)@ == old(progress)@
            },
        },
        final(progress)@.wf(command@),
{
    proof {
        lemma_first_answering_is_first(command@.args, token@, 0);
        lemma_nth_positional_in_range(command@.args, progress@.positional, 0);
    }
    match token {
        Arg::DoubleDash => Ok(Action::Continue),
        Arg::LongOption(name) => match find_answering(&command.args, &token) {
            Some(i) => {
                see_name(command, progress, i);
                Ok(Action::Continue)
            },
            None => Err(ParseError::UnexpectedLongOption { name }),
        },
        Arg::ShortOption(name) => match find_answering(&command.args, &token) {
            Some(i) => {
                see_name(command, progress, i);
                Ok(Action::Continue)
            },
            None => Err(ParseError::UnexpectedShortOption { name }),
        },
        Arg::Value(text) => match progress.state {
            State::ExpectValue(i) => {
                assert(command@.args[i as int] == command.args@[i as int]@);
                match from_arg(command.args[i].field_type, text) {
                    Ok(v) => {
                        store(progress, i, v);
                        progress.state = State::Normal;
                        Ok(Action::Continue)
                    },
                    Err(e) => Err(ParseError::ConversionFailure(e)),
                }
            },
            State::Normal => {
                if command.subcommand.is_some() {
                    Ok(Action::Delegate)
                } else {
                    match find_positional(&command.args, progress.positional) {
                        Some(i) => {
                            assert(command@.args[i as int] == command.args@[i as int]@);
                            assert(progress.positional <= i < command.args.len());
                            match from_arg(command.args[i].field_type, text) {
                                Ok(v) => {
                                    progress.positional = progress.positional + 1;
                                    store(progress, i, v);
                                    Ok(Action::Continue)
                                },
                                Err(e) => Err(ParseError::ConversionFailure(e)),
                            }
                        },
                        None => Err(ParseError::UnexpectedArgument { value: text }),
                    }
                }
            },
        },
    }
}

/// A step keeps the progress fitting the command.
pub proof fn lemma_step_wf(command: CommandModel, st: ProgressModel, token: Token)
    requires
        st.wf(command),
    ensures
        spec_step(command, st, token) matches StepModel::Next(next) ==> next.wf(command),
{
    lemma_first_answering_is_first(command.args, token, 0);
    lemma_nth_positional_in_range(command.args, st.positional, 0);
}

/// How the run of the machine over the tokens of one command ends.
pub enum ScanModel {
    /// The tokens are exhausted; the machine is in this state.
    Done(ProgressModel),
    /// The token at this index names a subcommand; the machine was in this
    /// state when it met the token.
    Boundary(ProgressModel, int),
    /// A token was refused.
    Fail(ParseErrorModel),
}

/// The run of the machine from token `i` on, starting in state `st`.
pub open spec fn spec_scan(
    command: CommandModel,
    tokens: Seq<Token>,
    i: int,
    st: ProgressModel,
) -> ScanModel
    decreases tokens.len() - i,
{
    if i < 0 || i >= tokens.len() {
        ScanModel::Done(st)
    } else {
        match spec_step(command, st, tokens[i]) {
            StepModel::Next(next) => spec_scan(command, tokens, i + 1, next),
            StepModel::Delegate => ScanModel::Boundary(st, i),
            StepModel::Fail(e) => ScanModel::Fail(e),
        }
    }
}

/// How the run of the machine over the tokens of one command ended.
#[derive(Debug, PartialEq, Eq)]
pub enum Scan<'a> {
    /// The tokens are exhausted; the machine is in this state.
    Done(Progress<'a>),
    /// The token at this index names a subcommand; the machine was in this
    /// state when it met the token.
    Boundary(Progress<'a>, usize),
}

/// The model of the outcome of a run.
pub open spec fn scan_view(r: Result<Scan<'_>, ParseError<'_>>) -> ScanModel {
    match r {
        Ok(Scan::Done(progress)) => ScanModel::Done(progress@),
        Ok(Scan::Boundary(progress, i)) => ScanModel::Boundary(progress@, i as int),
        Err(e) => ScanModel::Fail(e@),
    }
}

/// Runs the state machine over the tokens of one command, until they are
/// exhausted, one is refused, or one names a subcommand.
pub fn scan<'a>(command: &'a Command, tokens: &[Arg<'a>]) -> (r: Result<Scan<'a>, ParseError<'a>>)
    requires
        command@.wf(),
    ensures
        scan_view(r) == spec_scan(command@, tokens_view(tokens@), 0, initial(command@)),
        r matches Ok(Scan::Done(progress)) ==> progress@.wf(command@),
        r matches Ok(Scan::Boundary(progress, i)) ==> {
            &&& progress@.wf(command@)
            &&& i < tokens@.len()
            &&& tokens@[i as int] is Value
            &&& command.subcommand is Some
        },
{
    let mut progress = start(command);
    let mut i: usize = 0;
    while i < tokens.len()
        invariant
            i <= tokens@.len(),
            command@.wf(),
            progress@.wf(command@),
            spec_scan(command@, tokens_view(tokens@), 0, initial(command@)) == spec_scan(
                command@,
                tokens_view(tokens@),
                i as int,
                progress@,
            ),
        decreases tokens@.len() - i,
    {
        assert(tokens_view(tokens@)[i as int] == tokens@[i as int]@);
        match step(command, &mut progress, tokens[i]) {
            Err(e) => {
                return Err(e);
            },
            Ok(Action::Delegate) => {
                return Ok(Scan::Boundary(progress, i));
            },
            Ok(Action::Continue) => {},
        }
        i = i + 1;
    }
    Ok(Scan::Done(progress))
}

/// A run ends in a state that fits the command, and a boundary is a value
/// token met in the normal state of a command with a subcommand.
pub proof fn lemma_scan_wf(command: CommandModel, tokens: Seq<Token>, i: int, st: ProgressModel)
    requires
        st.wf(command),
        0 <= i,
    ensures
        match spec_scan(command, tokens, i, st) {
            ScanModel::Done(end) => end.wf(command),
            ScanModel::Boundary(end, b) => {
                &&& end.wf(command)
                &&& i <= b < tokens.len()
                &&& tokens[b] is Value
                &&& end.state is Normal
                &&& command.subcommand is Some
            },
            ScanModel::Fail(_) => true,
        },
    decreases tokens.len() - i,
{
    if i < tokens.len() {
        lemma_step_wf(command, st, tokens[i]);
        match spec_step(command, st, tokens[i]) {
            StepModel::Next(next) => lemma_scan_wf(command, tokens, i + 1, next),
            _ => {},
        }
    }
}

/// A run over a line is the run over its first `k` tokens, continued from
/// the state reached there over the rest.
pub proof fn lemma_scan_split(
    command: CommandModel,
    tokens: Seq<Token>,
    i: int,
    st: ProgressModel,
    k: int,
)
    requires
        0 <= i <= k <= tokens.len(),
    ensures
        spec_scan(command, tokens, i, st) == match spec_scan(command, tokens.take(k), i, st) {
            ScanModel::Done(mid) => spec_scan(command, tokens, k, mid),
            other => other,
        },
    decreases k - i,
{
    if i < k {
        assert(tokens.take(k)[i] == tokens[i]);
        match spec_step(command, st, tokens[i]) {
            StepModel::Next(next) => lemma_scan_split(command, tokens, i + 1, next, k),
            _ => {},
        }
    }
}

} // verus!
