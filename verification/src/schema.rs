//! The command schema: what a command is called, which arguments it takes and
//! which subcommands may follow it.
//!
//! A schema is built once and only read afterwards. Every type here has a
//! mathematical model, reached with `@`, over which the parsing rules are
//! stated.

use vstd::prelude::*;
use crate::arguments::{FieldType, Value, ValueModel, optional_value_view};

verus! {

/// Whether a field must end up with a value.
#[derive(Clone, Copy, Debug, PartialEq, Eq, Structural)]
pub enum ArgType {
    /// The field holds a value: one that was given, its default, or else the
    /// parse fails.
    Normal,
    /// The field may stay empty.
    Option,
}

/// The kind of an argument descriptor, with the names it answers to.
#[derive(Clone, Debug, PartialEq, Eq)]
pub enum CommandArgType {
    /// A switch without a value; it is `false` unless named.
    Flag { long: Option<String>, short: Option<char> },
    /// A named argument that takes the value token after its name.
    Option { long: Option<String>, short: Option<char> },
    /// An argument given by its place among the plain values.
    Positional,
}

/// The mathematical model of a [`CommandArgType`].
pub enum CommandArgTypeModel {
    Flag { long: Option<Seq<char>>, short: Option<char> },
    Option { long: Option<Seq<char>>, short: Option<char> },
    Positional,
}

/// The model of a name that may be absent.
pub open spec fn optional_name_view(name: Option<String>) -> Option<Seq<char>> {
    match name {
        None => None,
        Some(name) => Some(name@),
    }
}

impl View for CommandArgType {
    type V = CommandArgTypeModel;

    open spec fn view(&self) -> CommandArgTypeModel {
        match *self {
            CommandArgType::Flag { long, short } => CommandArgTypeModel::Flag {
                long: optional_name_view(long),
                short,
            },
            CommandArgType::Option { long, short } => CommandArgTypeModel::Option {
                long: optional_name_view(long),
                short,
            },
            CommandArgType::Positional => CommandArgTypeModel::Positional,
        }
    }
}

/// A default value held by a schema. It owns its text.
#[derive(Clone, Debug, PartialEq, Eq)]
pub enum DefaultValue {
    Bool(bool),
    Char(char),
    Signed(i64),
    Text(String),
    Unsigned(u64),
}

impl View for DefaultValue {
    type V = ValueModel;

    open spec fn view(&self) -> ValueModel {
        match *self {
            DefaultValue::Bool(b) => ValueModel::Bool(b),
            DefaultValue::Char(c) => ValueModel::Char(c),
            DefaultValue::Signed(n) => ValueModel::Signed(n as int),
            DefaultValue::Text(text) => ValueModel::Text(text@),
            DefaultValue::Unsigned(n) => ValueModel::Unsigned(n as nat),
        }
    }
}

impl DefaultValue {
    /// The same value, borrowing the text.
    pub fn as_value(&self) -> (v: Value<'_>)
        ensures
            v@ == self@,
    {
        match self {
            DefaultValue::Bool(b) => Value::Bool(*b),
            DefaultValue::Char(c) => Value::Char(*c),
            DefaultValue::Signed(n) => Value::Signed(*n),
            DefaultValue::Text(text) => Value::Text(text.as_str()),
            DefaultValue::Unsigned(n) => Value::Unsigned(*n),
        }
    }

    /// The field type that this value belongs to.
    pub fn field_type(&self) -> (ty: FieldType)
        ensures
            ty == self@.field_type(),
    {
        match self {
            DefaultValue::Bool(_) => FieldType::Bool,
            DefaultValue::Char(_) => FieldType::Char,
            DefaultValue::Signed(_) => FieldType::Signed,
            DefaultValue::Text(_) => FieldType::Text,
            DefaultValue::Unsigned(_) => FieldType::Unsigned,
        }
    }
}

/// The model of a default value that may be absent.
pub open spec fn optional_default_view(v: Option<DefaultValue>) -> Option<ValueModel> {
    match v {
        None => None,
        Some(v) => Some(v@),
    }
}

/// The descriptor of one argument.
#[derive(Clone, Debug, PartialEq, Eq)]
pub struct CommandArg {
    /// The declared external name of the field that the argument fills.
    pub name: String,
    /// The type that a value token is converted to.
    pub field_type: FieldType,
    /// Flag, option or positional, with the option names.
    pub arg_type: CommandArgType,
    /// Whether the field may stay empty.
    pub ty: ArgType,
    /// The value of the field when the argument is not given.
    pub default_value: Option<DefaultValue>,
}

/// The mathematical model of a [`CommandArg`].
pub struct CommandArgModel {
    pub name: Seq<char>,
    pub field_type: FieldType,
    pub arg_type: CommandArgTypeModel,
    pub ty: ArgType,
    pub default_value: Option<ValueModel>,
}

impl View for CommandArg {
    type V = CommandArgModel;

    open spec fn view(&self) -> CommandArgModel {
        CommandArgModel {
            name: self.name@,
            field_type: self.field_type,
            arg_type: self.arg_type@,
            ty: self.ty,
            default_value: optional_default_view(self.default_value),
        }
    }
}

impl CommandArgModel {
    /// A flag or an option answers to at least one name, a flag is a boolean,
    /// and a default has the type of its field.
    pub open spec fn wf(self) -> bool {
        &&& match self.arg_type {
            CommandArgTypeModel::Flag { long, short } => {
                &&& long is Some || short is Some
                &&& self.field_type == FieldType::Bool
            },
            CommandArgTypeModel::Option { long, short } => long is Some || short is Some,
            CommandArgTypeModel::Positional => true,
        }
        &&& match self.default_value {
            Some(v) => v.field_type() == self.field_type,
            None => true,
        }
    }

    /// The value that the field takes when the argument is not given: `false`
    /// for a flag, the declared default otherwise.
    pub open spec fn fallback(self) -> Option<ValueModel> {
        match self.arg_type {
            CommandArgTypeModel::Flag { .. } => Some(ValueModel::Bool(false)),
            _ => self.default_value,
        }
    }

    /// Whether a parse fails when the argument is not given.
    pub open spec fn required(self) -> bool {
        self.ty == ArgType::Normal && self.fallback() is None
    }
}

/// The models of a sequence of argument descriptors, in order.
pub open spec fn args_view(args: Seq<CommandArg>) -> Seq<CommandArgModel> {
    args.map_values(|a: CommandArg| a@)
}

/// Where the result of a subcommand goes.
#[derive(Clone, Debug, PartialEq, Eq)]
pub enum SubcommandField {
    /// The subcommand stands for the command as a whole; it has no field name
    /// of its own and goes by the name of its command.
    Replaces,
    /// The subcommand fills the field of this name.
    NamedField(String),
}

/// The mathematical model of a [`SubcommandField`].
pub enum SubcommandFieldModel {
    Replaces,
    NamedField(Seq<char>),
}

impl SubcommandFieldModel {
    /// The name under which a missing subcommand of the command called
    /// `command` is reported: the name of its field, or the name of the
    /// command where it has no field of its own.
    pub open spec fn full_name(self, command: Seq<char>) -> Seq<char> {
        match self {
            SubcommandFieldModel::Replaces => command,
            SubcommandFieldModel::NamedField(name) => name,
        }
    }
}

impl View for SubcommandField {
    type V = SubcommandFieldModel;

    open spec fn view(&self) -> SubcommandFieldModel {
        match *self {
            SubcommandField::Replaces => SubcommandFieldModel::Replaces,
            SubcommandField::NamedField(name) => SubcommandFieldModel::NamedField(name@),
        }
    }
}

/// The descriptor of the subcommand of a command.
#[derive(Debug, PartialEq, Eq)]
pub struct Subcommand {
    /// Where the result goes.
    pub field: SubcommandField,
    /// Whether the command may be given without a subcommand.
    pub ty: ArgType,
    /// The commands that may follow: the nested namespace.
    pub commands: Vec<Command>,
}

/// The schema of one command.
#[derive(Debug, PartialEq, Eq)]
pub struct Command {
    /// The dispatch name.
    pub name: String,
    /// The argument descriptors, in the order of their declaration.
    pub args: Vec<CommandArg>,
    /// The subcommand descriptor, if the command has one.
    pub subcommand: Option<Subcommand>,
    /// Whether the command value is built from named fields rather than from
    /// fields in order.
    pub named_args: bool,
    /// Whether the command is a record of its own rather than one variant
    /// among several.
    pub is_struct: bool,
}

/// The mathematical model of a [`Subcommand`].
pub struct SubcommandModel {
    pub field: SubcommandFieldModel,
    pub ty: ArgType,
    pub commands: Seq<CommandModel>,
}

/// The mathematical model of a [`Command`].
pub struct CommandModel {
    pub name: Seq<char>,
    pub args: Seq<CommandArgModel>,
    pub subcommand: Option<SubcommandModel>,
    pub named_args: bool,
    pub is_struct: bool,
}

/// The model of a command schema, nested namespaces included.
pub open spec fn command_view(command: Command) -> CommandModel
    decreases command,
{
    CommandModel {
        name: command.name@,
        args: args_view(command.args@),
        subcommand: match command.subcommand {
            None => None,
            Some(sub) => Some(
                SubcommandModel {
                    field: sub.field@,
                    ty: sub.ty,
                    commands: Seq::new(
                        sub.commands@.len(),
                        |i: int|
                            if 0 <= i < sub.commands@.len() {
                                command_view(sub.commands@[i])
                            } else {
                                arbitrary()
                            },
                    ),
                },
            ),
        },
        named_args: command.named_args,
        is_struct: command.is_struct,
    }
}

impl View for Command {
    type V = CommandModel;

    open spec fn view(&self) -> CommandModel {
        command_view(*self)
    }
}

/// The models of the commands of a namespace, in order.
pub open spec fn namespace_view(commands: Seq<Command>) -> Seq<CommandModel> {
    commands.map_values(|c: Command| c@)
}

impl CommandModel {
    /// Every argument descriptor is well formed, and so is every command of
    /// the nested namespace.
    pub open spec fn wf(self) -> bool
        decreases self,
    {
        &&& forall|i: int| 0 <= i < self.args.len() ==> (#[trigger] self.args[i]).wf()
        &&& match self.subcommand {
            None => true,
            Some(sub) => forall|i: int|
                0 <= i < sub.commands.len() ==> (#[trigger] sub.commands[i]).wf(),
        }
    }
}

/// Every command of the namespace is well formed.
pub open spec fn namespace_wf(commands: Seq<CommandModel>) -> bool {
    forall|i: int| 0 <= i < commands.len() ==> (#[trigger] commands[i]).wf()
}

/// The model of the nested namespace is the namespace of the models.
pub proof fn lemma_subcommand_view(command: Command)
    requires
        command.subcommand is Some,
    ensures
        command@.subcommand is Some,
        command@.subcommand->0.field == command.subcommand->0.field@,
        command@.subcommand->0.ty == command.subcommand->0.ty,
        command@.subcommand->0.commands == namespace_view(command.subcommand->0.commands@),
{
    let sub = command.subcommand->0;
    assert(command@.subcommand->0.commands =~= namespace_view(sub.commands@));
}

impl CommandArg {
    /// The value that the field takes when the argument is not given: `false`
    /// for a flag, the declared default otherwise.
    pub fn fallback(&self) -> (v: Option<Value<'_>>)
        ensures
            optional_value_view(v) == self@.fallback(),
    {
        match &self.arg_type {
            CommandArgType::Flag { .. } => Some(Value::Bool(false)),
            _ => match &self.default_value {
                Some(v) => Some(v.as_value()),
                None => None,
            },
        }
    }

    /// Whether a parse fails when the argument is not given.
    pub fn is_required(&self) -> (r: bool)
        ensures
            r == self@.required(),
    {
        self.ty == ArgType::Normal && self.fallback().is_none()
    }

    /// Whether the descriptor is well formed.
    pub fn is_valid(&self) -> (r: bool)
        ensures
            r == self@.wf(),
    {
        let named = match &self.arg_type {
            CommandArgType::Flag { long, short } => (long.is_some() || short.is_some()) && (
            self.field_type == FieldType::Bool),
            CommandArgType::Option { long, short } => long.is_some() || short.is_some(),
            CommandArgType::Positional => true,
        };
        let typed = match &self.default_value {
            Some(v) => v.field_type() == self.field_type,
            None => true,
        };
        named && typed
    }
}

impl SubcommandField {
    /// The name under which a missing subcommand of the command called
    /// `command` is reported.
    pub fn full_name<'a>(&'a self, command: &'a str) -> (name: &'a str)
        ensures
            name@ == self@.full_name(command@),
    {
        match self {
            SubcommandField::Replaces => command,
            SubcommandField::NamedField(name) => name.as_str(),
        }
    }
}

impl Command {
    /// Whether the schema is well formed, nested namespaces included.
    pub fn is_valid(&self) -> (r: bool)
        ensures
            r == self@.wf(),
        decreases self@,
    {
        let mut i: usize = 0;
        while i < self.args.len()
            invariant
                i <= self.args.len(),
                forall|j: int| 0 <= j < i ==> (#[trigger] self@.args[j]).wf(),
            decreases self.args.len() - i,
        {
            assert(self@.args[i as int] == self.args[i as int]@);
            if !self.args[i].is_valid() {
                return false;
            }
            i = i + 1;
        }
        match &self.subcommand {
            None => true,
            Some(sub) => {
                proof {
                    lemma_subcommand_view(*self);
                }
                namespace_is_valid(sub.commands.as_slice())
            },
        }
    }
}

/// Whether every command of a namespace is well formed.
pub fn namespace_is_valid(commands: &[Command]) -> (r: bool)
    ensures
        r == namespace_wf(namespace_view(commands@)),
    decreases namespace_view(commands@),
{
    let mut i: usize = 0;
    while i < commands.len()
        invariant
            i <= commands.len(),
            forall|j: int| 0 <= j < i ==> (#[trigger] namespace_view(commands@)[j]).wf(),
        decreases commands.len() - i,
    {
        assert(namespace_view(commands@)[i as int] == commands[i as int]@);
        if !commands[i].is_valid() {
            return false;
        }
        i = i + 1;
    }
    true
}

} // verus!
