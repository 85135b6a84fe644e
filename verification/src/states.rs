//! The names of the states of the machine of a command.
//!
//! Beside its normal state the machine of a command has one state for each
//! option descriptor, in which the value of that option is awaited. The
//! states are known from the schema alone, and each has a name.

use vstd::prelude::*;
use vstd::string::StringExecFns;
use convert_case::{Case, Casing};
use crate::machine::{State, StateModel, is_state_of};
use crate::schema::{Command, CommandArgType, CommandModel};

verus! {

/// The field name `name`, read as snake case and written in Pascal case, as
/// `convert_case` does it.
pub uninterp spec fn pascal_case(name: Seq<char>) -> Seq<char>;

/// Calls `convert_case`: `Casing::from_case` with `Case::Snake`, then
/// `StateConverter::to_case` with `Case::Pascal`.
///
/// The crate splits the text at underscores, drops empty words, writes each
/// word with an upper-case first letter and the rest in lower case, and
/// joins the words without a delimiter. The result depends on the text
/// alone. The contract only gives that result its name.
#[verifier::external_body]
fn to_pascal_case(name: &str) -> (r: String)
    ensures
        r@ == pascal_case(name@),
{
    name.from_case(Case::Snake).to_case(Case::Pascal)
}

/// The name of the state in which the value of an option is awaited, given
/// the option's field name in Pascal case.
pub open spec fn spec_expect_state_name(pascal: Seq<char>) -> Seq<char> {
    "Expect"@ + pascal
}

/// The name of a state of the machine of `command`, if it is one.
pub open spec fn spec_state_name(command: CommandModel, state: StateModel) -> Option<Seq<char>> {
    if !is_state_of(command, state) {
        None
    } else {
        match state {
            StateModel::Normal => Some("Normal"@),
            StateModel::ExpectValue(i) => Some(
                spec_expect_state_name(pascal_case(command.args[i].name)),
            ),
        }
    }
}

/// The name of the state in which the value of an option is awaited, given
/// the option's field name in Pascal case.
pub fn expect_state_name(pascal: &str) -> (name: String)
    ensures
        name@ == spec_expect_state_name(pascal@),
{
    String::from_str("Expect").concat(pascal)
}

/// The model of a name that may be absent.
pub open spec fn optional_text_view(text: Option<String>) -> Option<Seq<char>> {
    match text {
        Some(text) => Some(text@),
        None => None,
    }
}

/// The name of a state of the machine of `command`: `Normal`, or `Expect`
/// followed by the field name of the awaited option in Pascal case. A state
/// that the machine of `command` does not have has no name.
pub fn state_name(command: &Command, state: State) -> (name: Option<String>)
    ensures
        optional_text_view(name) == spec_state_name(command@, state@),
{
    match state {
        State::Normal => Some(String::from_str("Normal")),
        State::ExpectValue(i) => {
            if i >= command.args.len() {
                return None;
            }
            assert(command@.args[i as int] == command.args@[i as int]@);
            match &command.args[i].arg_type {
                CommandArgType::Option { .. } => {
                    let pascal = to_pascal_case(command.args[i].name.as_str());
                    Some(expect_state_name(pascal.as_str()))
                },
                _ => None,
            }
        },
    }
}

/// The states of the machine of `command`, in order: the normal state, then
/// one state for each option descriptor in the order of declaration.
pub open spec fn spec_states(command: CommandModel, upto: int) -> Seq<StateModel>
    decreases upto,
{
    if upto <= 0 {
        seq![StateModel::Normal]
    } else if command.args[upto - 1].arg_type is Option {
        spec_states(command, upto - 1).push(StateModel::ExpectValue(upto - 1))
    } else {
        spec_states(command, upto - 1)
    }
}

/// The models of a sequence of states, in order.
pub open spec fn states_view(states: Seq<State>) -> Seq<StateModel> {
    states.map_values(|s: State| s@)
}

/// The states of the machine of `command`: the normal state, then one state
/// for each option descriptor in the order of declaration.
pub fn states(command: &Command) -> (all: Vec<State>)
    ensures
        states_view(all@) == spec_states(command@, command@.args.len() as int),
        forall|k: int| 0 <= k < all@.len() ==> is_state_of(command@, (#[trigger] all@[k])@),
{
    let mut all: Vec<State> = Vec::new();
    all.push(State::Normal);
    assert(states_view(all@) =~= spec_states(command@, 0));
    let mut i: usize = 0;
    while i < command.args.len()
        invariant
            i <= command.args@.len(),
            states_view(all@) == spec_states(command@, i as int),
            forall|k: int| 0 <= k < all@.len() ==> is_state_of(command@, (#[trigger] all@[k])@),
        decreases command.args@.len() - i,
    {
        assert(command@.args[i as int] == command.args@[i as int]@);
        let ghost before = all@;
        match &command.args[i].arg_type {
            CommandArgType::Option { .. } => {
                all.push(State::ExpectValue(i));
                assert(states_view(all@) =~= states_view(before).push(
                    StateModel::ExpectValue(i as int),
                ));
            },
            _ => {},
        }
        i = i + 1;
    }
    all
}

} // verus!
