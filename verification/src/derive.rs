//! From the declaration of a command type to the table of its schemas.

use vstd::prelude::*;
use vstd::string::StringExecFns;
use crate::schema::{Command, CommandModel, namespace_view, namespace_wf};

verus! {

/// What is declared of a command type as a whole.
#[derive(Clone, Debug, PartialEq, Eq, Default)]
pub struct ServiceAttrs {
    /// The title under which help lists the commands.
    pub help_title: Option<String>,
    /// Whether the type takes no part in autocompletion.
    pub skip_autocomplete: bool,
    /// Whether the type offers no help.
    pub skip_help: bool,
    /// Whether the type is not parsed from raw commands.
    pub skip_from_raw: bool,
}

/// The shape of the declared type, with the schema of each command.
#[derive(Debug, PartialEq, Eq)]
pub enum Data {
    /// A choice among several commands, one for each variant.
    Enum(Vec<Command>),
    /// A record that is one command by itself.
    Struct(Command),
    /// A union, which cannot be a command.
    Union,
}

/// The declaration of a command type.
#[derive(Debug, PartialEq, Eq)]
pub struct DeriveInput {
    pub attrs: ServiceAttrs,
    pub data: Data,
}

/// Why a declaration gives no table of schemas.
#[derive(Clone, Debug, PartialEq, Eq)]
pub enum DeriveError {
    /// The commands of these indices are not well formed.
    InvalidCommands(Vec<usize>),
    /// The type is neither an enum nor a struct.
    UnsupportedData,
}

/// The table of the schemas of a command type: one namespace, and what the
/// collaborators that read it are offered.
#[derive(Debug, PartialEq, Eq)]
pub struct Service {
    /// The commands of the namespace, in the order of their declaration.
    pub commands: Vec<Command>,
    /// The title under which help lists the commands.
    pub help_title: String,
    /// Whether the commands take part in autocompletion.
    pub autocomplete: bool,
    /// Whether the commands offer help.
    pub help: bool,
    /// Whether the commands are parsed from raw commands.
    pub from_raw: bool,
}

/// The title of the help where none is declared.
pub open spec fn default_help_title() -> Seq<char> {
    "Commands"@
}

/// The commands that a declaration lists: the variants of an enum in their
/// order, or the one command of a struct, marked as a record.
pub open spec fn declared_commands(data: Data) -> Seq<CommandModel> {
    match data {
        Data::Enum(commands) => namespace_view(commands@),
        Data::Struct(command) => seq![CommandModel { is_struct: true, ..command@ }],
        Data::Union => Seq::empty(),
    }
}

/// Whether `indices` lists, in rising order, exactly the commands that are
/// not well formed.
pub open spec fn lists_invalid(commands: Seq<CommandModel>, indices: Seq<usize>) -> bool {
    &&& forall|k: int|
        0 <= k < indices.len() ==> (#[trigger] indices[k]) < commands.len()
            && !commands[indices[k] as int].wf()
    &&& forall|k: int, l: int| 0 <= k < l < indices.len() ==> indices[k] < indices[l]
    &&& forall|i: int|
        0 <= i < commands.len() && !(#[trigger] commands[i]).wf() ==> exists|k: int|
            0 <= k < indices.len() && indices[k] == i
}

/// The commands of a namespace that are not well formed, by index.
fn invalid_commands(commands: &Vec<Command>) -> (indices: Vec<usize>)
    ensures
        lists_invalid(namespace_view(commands@), indices@),
        indices@.len() == 0 <==> namespace_wf(namespace_view(commands@)),
{
    let ghost models = namespace_view(commands@);
    let mut indices: Vec<usize> = Vec::new();
    let mut i: usize = 0;
    while i < commands.len()
        invariant
            i <= commands@.len(),
            models == namespace_view(commands@),
            forall|k: int|
                0 <= k < indices@.len() ==> (#[trigger] indices@[k]) < i && !models[indices@[k] as int].wf(),
            forall|k: int, l: int| 0 <= k < l < indices@.len() ==> indices@[k] < indices@[l],
            forall|j: int|
                0 <= j < i && !(#[trigger] models[j]).wf() ==> exists|k: int|
                    0 <= k < indices@.len() && indices@[k] == j,
        decreases commands@.len() - i,
    {
        assert(models[i as int] == commands@[i as int]@);
        if !commands[i].is_valid() {
            let ghost before = indices@;
            indices.push(i);
            assert forall|j: int| 0 <= j <= i && !(#[trigger] models[j]).wf() implies exists|
                k: int,
            |
                0 <= k < indices@.len() && indices@[k] == j by {
                if j < i {
                    let k = choose|k: int| 0 <= k < before.len() && before[k] == j;
                    assert(indices@[k] == j);
                } else {
                    assert(indices@[before.len() as int] == j);
                }
            }
        }
        i = i + 1;
    }
    proof {
        if indices@.len() > 0 {
            assert(!models[indices@[0] as int].wf());
        }
    }
    indices
}

/// Builds the table of schemas from the declaration of a command type.
///
/// An enum gives one command for each variant; a struct gives the one
/// command that it is, marked as a record, so that it too is found by its
/// own name. A union is refused. Every command must be well formed: if some
/// are not, all of them are reported together.
pub fn derive_command(input: DeriveInput) -> (r: Result<Service, DeriveError>)
    ensures
        match r {
            Ok(service) => {
                &&& !(input.data is Union)
                &&& namespace_view(service.commands@) == declared_commands(input.data)
                &&& namespace_wf(namespace_view(service.commands@))
                &&& service.help_title@ == match input.attrs.help_title {
                    Some(title) => title@,
                    None => default_help_title(),
                }
                &&& service.autocomplete == !input.attrs.skip_autocomplete
                &&& service.help == !input.attrs.skip_help
                &&& service.from_raw == !input.attrs.skip_from_raw
            },
            Err(DeriveError::UnsupportedData) => input.data is Union,
            Err(DeriveError::InvalidCommands(indices)) => {
                &&& !(input.data is Union)
                &&& indices@.len() > 0
                &&& lists_invalid(declared_commands(input.data), indices@)
            },
        },
{
    let DeriveInput { attrs, data } = input;
    let commands = match data {
        Data::Enum(commands) => commands,
        Data::Struct(command) => {
            let mut command = command;
            command.is_struct = true;
            let mut commands = Vec::new();
            commands.push(command);
            assert(namespace_view(commands@) =~= declared_commands(input.data));
            commands
        },
        Data::Union => {
            return Err(DeriveError::UnsupportedData);
        },
    };
    let invalid = invalid_commands(&commands);
    if invalid.len() > 0 {
        return Err(DeriveError::InvalidCommands(invalid));
    }
    let help_title = match attrs.help_title {
        Some(title) => title,
        None => String::from_str("Commands"),
    };
    Ok(
        Service {
            commands,
            help_title,
            autocomplete: !attrs.skip_autocomplete,
            help: !attrs.skip_help,
            from_raw: !attrs.skip_from_raw,
        },
    )
}

} // verus!
