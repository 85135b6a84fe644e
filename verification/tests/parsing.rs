use embedded_cli::arguments::{Arg, FieldType, FromArgumentError, Value};
use embedded_cli::command::RawCommand;
use embedded_cli::parse::{command_parsing, derive_from_raw, resolve};
use embedded_cli::schema::{
    namespace_is_valid, ArgType, Command, CommandArg, CommandArgType, DefaultValue, Subcommand,
    SubcommandField,
};
use embedded_cli::service::{ParseError, Parsed};

fn names(long: Option<&str>, short: Option<char>) -> (Option<String>, Option<char>) {
    (long.map(String::from), short)
}

fn flag(name: &str, long: Option<&str>, short: Option<char>) -> CommandArg {
    let (long, short) = names(long, short);
    CommandArg {
        name: String::from(name),
        field_type: FieldType::Bool,
        arg_type: CommandArgType::Flag { long, short },
        ty: ArgType::Normal,
        default_value: None,
    }
}

fn option(name: &str, ty: FieldType, long: Option<&str>, short: Option<char>) -> CommandArg {
    let (long, short) = names(long, short);
    CommandArg {
        name: String::from(name),
        field_type: ty,
        arg_type: CommandArgType::Option { long, short },
        ty: ArgType::Normal,
        default_value: None,
    }
}

fn positional(name: &str, ty: FieldType) -> CommandArg {
    CommandArg {
        name: String::from(name),
        field_type: ty,
        arg_type: CommandArgType::Positional,
        ty: ArgType::Normal,
        default_value: None,
    }
}

fn with_default(mut arg: CommandArg, value: DefaultValue) -> CommandArg {
    arg.default_value = Some(value);
    arg
}

fn optional(mut arg: CommandArg) -> CommandArg {
    arg.ty = ArgType::Option;
    arg
}

fn command(name: &str, args: Vec<CommandArg>) -> Command {
    Command { name: String::from(name), args, subcommand: None, named_args: true, is_struct: false }
}

fn with_subcommand(mut parent: Command, field: &str, ty: ArgType, commands: Vec<Command>) -> Command {
    parent.subcommand =
        Some(Subcommand { field: SubcommandField::NamedField(String::from(field)), ty, commands });
    parent
}

fn connect() -> Command {
    command(
        "connect",
        vec![
            flag("verbose", Some("verbose"), Some('v')),
            option("port", FieldType::Unsigned, Some("port"), Some('p')),
            positional("host", FieldType::Text),
        ],
    )
}

fn parse<'a>(commands: &'a [Command], name: &'a str, args: &'a [Arg<'a>]) -> Result<Parsed<'a>, ParseError<'a>> {
    assert!(namespace_is_valid(commands));
    derive_from_raw(commands, RawCommand::new(name, args))
}

fn plain(command: usize, fields: Vec<Option<Value<'_>>>) -> Parsed<'_> {
    Parsed { command, fields, subcommand: None }
}

#[test]
fn connect_with_host_and_port() {
    let commands = vec![connect()];
    let args = [Arg::Value("localhost"), Arg::LongOption("port"), Arg::Value("8080")];
    assert_eq!(
        parse(&commands, "connect", &args),
        Ok(plain(
            0,
            vec![
                Some(Value::Bool(false)),
                Some(Value::Unsigned(8080)),
                Some(Value::Text("localhost")),
            ]
        ))
    );
}

#[test]
fn connect_without_host_is_missing_host() {
    let commands = vec![connect()];
    let args = [Arg::LongOption("port"), Arg::Value("8080")];
    assert_eq!(
        parse(&commands, "connect", &args),
        Err(ParseError::MissingRequiredArgument { name: "host" })
    );
}

#[test]
fn value_without_a_place_is_unexpected() {
    let commands = vec![command("status", vec![flag("all", Some("all"), None)])];
    let args = [Arg::Value("x")];
    assert_eq!(
        parse(&commands, "status", &args),
        Err(ParseError::UnexpectedArgument { value: "x" })
    );
}

#[test]
fn value_for_a_command_without_descriptors_is_unexpected() {
    let commands = vec![command("status", vec![])];
    let args = [Arg::Value("x")];
    assert_eq!(
        parse(&commands, "status", &args),
        Err(ParseError::UnexpectedArgument { value: "x" })
    );
    assert_eq!(parse(&commands, "status", &[]), Ok(plain(0, vec![])));
}

fn led() -> Command {
    with_subcommand(
        command("led", vec![flag("all", Some("all"), Some('a'))]),
        "sub",
        ArgType::Normal,
        vec![
            command("get", vec![]),
            command("list", vec![flag("all", Some("all"), None)]),
        ],
    )
}

#[test]
fn subcommand_takes_the_remaining_tokens() {
    let commands = vec![led()];
    let args = [Arg::Value("list"), Arg::LongOption("all")];
    assert_eq!(
        parse(&commands, "led", &args),
        Ok(Parsed {
            command: 0,
            fields: vec![Some(Value::Bool(false))],
            subcommand: Some(Box::new(plain(1, vec![Some(Value::Bool(true))]))),
        })
    );
}

#[test]
fn unknown_command_whatever_the_tokens() {
    let commands = vec![connect(), led()];
    assert_eq!(parse(&commands, "disconnect", &[]), Err(ParseError::UnknownCommand));
    let args = [Arg::Value("localhost"), Arg::LongOption("nonsense"), Arg::DoubleDash];
    assert_eq!(parse(&commands, "disconnect", &args), Err(ParseError::UnknownCommand));
    assert_eq!(parse(&[], "connect", &args), Err(ParseError::UnknownCommand));
}

#[test]
fn failed_conversion_comes_back_as_it_was() {
    let commands = vec![connect()];
    let args = [Arg::Value("localhost"), Arg::ShortOption('p'), Arg::Value("http")];
    assert_eq!(
        parse(&commands, "connect", &args),
        Err(ParseError::ConversionFailure(FromArgumentError {
            value: "http",
            expected: FieldType::Unsigned,
        }))
    );
}

#[test]
fn dispatch_is_exact() {
    let commands = vec![connect()];
    for name in ["Connect", "conn", "connect ", " connect", "connectx", ""] {
        assert_eq!(parse(&commands, name, &[]), Err(ParseError::UnknownCommand));
    }
}

#[test]
fn resolve_gives_the_first_command_of_the_name() {
    let commands = vec![command("a", vec![]), command("b", vec![]), command("a", vec![])];
    assert_eq!(resolve(&commands, "a"), Some(0));
    assert_eq!(resolve(&commands, "b"), Some(1));
    assert_eq!(resolve(&commands, "c"), None);
    assert_eq!(resolve(&[], "a"), None);
}

#[test]
fn record_command_checks_its_own_name() {
    let mut record = connect();
    record.is_struct = true;
    let commands = vec![record];
    let args = [Arg::Value("localhost"), Arg::ShortOption('p'), Arg::Value("1")];
    assert!(parse(&commands, "connect", &args).is_ok());
    assert_eq!(parse(&commands, "other", &args), Err(ParseError::UnknownCommand));
}

#[test]
fn parsed_command_carries_its_index() {
    let commands = vec![command("a", vec![]), command("b", vec![]), command("c", vec![])];
    assert_eq!(parse(&commands, "c", &[]), Ok(plain(2, vec![])));
    assert_eq!(command_parsing(&commands[1], 7, &[]), Ok(plain(7, vec![])));
}

#[test]
fn flags_are_independent() {
    let commands = vec![command(
        "run",
        vec![
            flag("alpha", Some("alpha"), Some('a')),
            flag("beta", Some("beta"), Some('b')),
            flag("gamma", None, Some('g')),
        ],
    )];
    let args = [Arg::LongOption("alpha")];
    assert_eq!(
        parse(&commands, "run", &args),
        Ok(plain(0, vec![Some(Value::Bool(true)), Some(Value::Bool(false)), Some(Value::Bool(false))]))
    );
    let args = [Arg::ShortOption('b')];
    assert_eq!(
        parse(&commands, "run", &args),
        Ok(plain(0, vec![Some(Value::Bool(false)), Some(Value::Bool(true)), Some(Value::Bool(false))]))
    );
    let args = [Arg::ShortOption('g'), Arg::ShortOption('a'), Arg::ShortOption('g')];
    assert_eq!(
        parse(&commands, "run", &args),
        Ok(plain(0, vec![Some(Value::Bool(true)), Some(Value::Bool(false)), Some(Value::Bool(true))]))
    );
}

#[test]
fn option_takes_the_value_after_its_name() {
    let commands = vec![command(
        "set",
        vec![
            option("level", FieldType::Signed, Some("level"), Some('l')),
            option("name", FieldType::Text, Some("name"), None),
        ],
    )];
    let args = [
        Arg::LongOption("name"),
        Arg::Value("kitchen"),
        Arg::ShortOption('l'),
        Arg::Value("-3"),
    ];
    assert_eq!(
        parse(&commands, "set", &args),
        Ok(plain(0, vec![Some(Value::Signed(-3)), Some(Value::Text("kitchen"))]))
    );
}

#[test]
fn option_named_last_is_missing_or_default() {
    let required = vec![command("set", vec![option("level", FieldType::Signed, Some("level"), None)])];
    let args = [Arg::LongOption("level")];
    assert_eq!(
        parse(&required, "set", &args),
        Err(ParseError::MissingRequiredArgument { name: "level" })
    );
    let defaulted = vec![command(
        "set",
        vec![with_default(
            option("level", FieldType::Signed, Some("level"), None),
            DefaultValue::Signed(5),
        )],
    )];
    assert_eq!(parse(&defaulted, "set", &args), Ok(plain(0, vec![Some(Value::Signed(5))])));
    assert_eq!(parse(&defaulted, "set", &[]), Ok(plain(0, vec![Some(Value::Signed(5))])));
}

#[test]
fn later_value_of_an_option_replaces_the_earlier() {
    let commands = vec![command("set", vec![option("level", FieldType::Signed, Some("level"), None)])];
    let args = [
        Arg::LongOption("level"),
        Arg::Value("1"),
        Arg::LongOption("level"),
        Arg::Value("2"),
    ];
    assert_eq!(parse(&commands, "set", &args), Ok(plain(0, vec![Some(Value::Signed(2))])));
}

fn copy_command() -> Command {
    command(
        "copy",
        vec![
            positional("from", FieldType::Text),
            flag("force", Some("force"), Some('f')),
            positional("to", FieldType::Text),
            positional("count", FieldType::Unsigned),
        ],
    )
}

#[test]
fn positional_values_are_bound_in_order() {
    let commands = vec![copy_command()];
    let args = [Arg::Value("a"), Arg::Value("b"), Arg::Value("3")];
    assert_eq!(
        parse(&commands, "copy", &args),
        Ok(plain(
            0,
            vec![
                Some(Value::Text("a")),
                Some(Value::Bool(false)),
                Some(Value::Text("b")),
                Some(Value::Unsigned(3)),
            ]
        ))
    );
}

#[test]
fn one_value_too_many_is_unexpected() {
    let commands = vec![copy_command()];
    let args = [Arg::Value("a"), Arg::Value("b"), Arg::Value("3"), Arg::Value("extra")];
    assert_eq!(
        parse(&commands, "copy", &args),
        Err(ParseError::UnexpectedArgument { value: "extra" })
    );
}

#[test]
fn positional_values_and_options_may_mix() {
    let commands = vec![copy_command()];
    let args = [
        Arg::Value("a"),
        Arg::ShortOption('f'),
        Arg::Value("b"),
        Arg::DoubleDash,
        Arg::Value("3"),
    ];
    assert_eq!(
        parse(&commands, "copy", &args),
        Ok(plain(
            0,
            vec![
                Some(Value::Text("a")),
                Some(Value::Bool(true)),
                Some(Value::Text("b")),
                Some(Value::Unsigned(3)),
            ]
        ))
    );
}

#[test]
fn missing_arguments_are_reported_in_declaration_order() {
    let commands = vec![copy_command()];
    assert_eq!(
        parse(&commands, "copy", &[]),
        Err(ParseError::MissingRequiredArgument { name: "from" })
    );
    let args = [Arg::Value("a")];
    assert_eq!(
        parse(&commands, "copy", &args),
        Err(ParseError::MissingRequiredArgument { name: "to" })
    );
    let args = [Arg::Value("a"), Arg::Value("b")];
    assert_eq!(
        parse(&commands, "copy", &args),
        Err(ParseError::MissingRequiredArgument { name: "count" })
    );
}

#[test]
fn positional_conversion_failure() {
    let commands = vec![copy_command()];
    let args = [Arg::Value("a"), Arg::Value("b"), Arg::Value("three")];
    assert_eq!(
        parse(&commands, "copy", &args),
        Err(ParseError::ConversionFailure(FromArgumentError {
            value: "three",
            expected: FieldType::Unsigned,
        }))
    );
}

#[test]
fn tokens_after_the_subcommand_do_not_reach_the_parent() {
    let commands = vec![led()];
    let args = [Arg::Value("get")];
    let alone = parse(&commands, "led", &args).unwrap();
    assert_eq!(alone.fields, vec![Some(Value::Bool(false))]);

    let args = [Arg::Value("list"), Arg::ShortOption('a')];
    assert_eq!(
        parse(&commands, "led", &args),
        Err(ParseError::UnexpectedShortOption { name: 'a' })
    );

    let args = [Arg::ShortOption('a'), Arg::Value("list"), Arg::LongOption("all")];
    assert_eq!(
        parse(&commands, "led", &args),
        Ok(Parsed {
            command: 0,
            fields: vec![Some(Value::Bool(true))],
            subcommand: Some(Box::new(plain(1, vec![Some(Value::Bool(true))]))),
        })
    );

    let args = [Arg::Value("get"), Arg::LongOption("all")];
    assert_eq!(
        parse(&commands, "led", &args),
        Err(ParseError::UnexpectedLongOption { name: "all" })
    );
}

#[test]
fn subcommand_name_is_resolved_in_the_nested_namespace() {
    let commands = vec![led(), command("list", vec![])];
    let args = [Arg::Value("led")];
    assert_eq!(parse(&commands, "led", &args), Err(ParseError::UnknownCommand));
    let args = [Arg::Value("list"), Arg::Value("x")];
    assert_eq!(
        parse(&commands, "led", &args),
        Err(ParseError::UnexpectedArgument { value: "x" })
    );
}

#[test]
fn missing_subcommand() {
    let commands = vec![led()];
    assert_eq!(
        parse(&commands, "led", &[]),
        Err(ParseError::MissingRequiredArgument { name: "sub" })
    );
    let args = [Arg::LongOption("all")];
    assert_eq!(
        parse(&commands, "led", &args),
        Err(ParseError::MissingRequiredArgument { name: "sub" })
    );
}

#[test]
fn missing_subcommand_that_replaces_its_command() {
    let mut parent = command("led", vec![]);
    parent.subcommand = Some(Subcommand {
        field: SubcommandField::Replaces,
        ty: ArgType::Normal,
        commands: vec![command("get", vec![])],
    });
    let commands = vec![parent];
    assert_eq!(
        parse(&commands, "led", &[]),
        Err(ParseError::MissingRequiredArgument { name: "led" })
    );
    let args = [Arg::Value("get")];
    assert_eq!(
        parse(&commands, "led", &args),
        Ok(Parsed { command: 0, fields: vec![], subcommand: Some(Box::new(plain(0, vec![]))) })
    );
}

#[test]
fn optional_subcommand_may_be_absent() {
    let commands = vec![with_subcommand(
        command("led", vec![]),
        "sub",
        ArgType::Option,
        vec![command("get", vec![])],
    )];
    assert_eq!(parse(&commands, "led", &[]), Ok(plain(0, vec![])));
}

#[test]
fn missing_argument_comes_before_missing_subcommand() {
    let commands = vec![with_subcommand(
        command("led", vec![option("id", FieldType::Unsigned, Some("id"), None)]),
        "sub",
        ArgType::Normal,
        vec![command("get", vec![])],
    )];
    assert_eq!(
        parse(&commands, "led", &[]),
        Err(ParseError::MissingRequiredArgument { name: "id" })
    );
    let args = [Arg::Value("get")];
    assert_eq!(
        parse(&commands, "led", &args),
        Err(ParseError::MissingRequiredArgument { name: "id" })
    );
    let args = [Arg::Value("nothing")];
    assert_eq!(parse(&commands, "led", &args), Err(ParseError::UnknownCommand));
}

#[test]
fn value_after_an_option_name_is_not_a_subcommand() {
    let commands = vec![with_subcommand(
        command("led", vec![option("id", FieldType::Text, Some("id"), None)]),
        "sub",
        ArgType::Normal,
        vec![command("get", vec![])],
    )];
    let args = [Arg::LongOption("id"), Arg::Value("get"), Arg::Value("get")];
    assert_eq!(
        parse(&commands, "led", &args),
        Ok(Parsed {
            command: 0,
            fields: vec![Some(Value::Text("get"))],
            subcommand: Some(Box::new(plain(0, vec![]))),
        })
    );
}

#[test]
fn subcommands_nest() {
    let inner = with_subcommand(
        command("channel", vec![positional("index", FieldType::Unsigned)]),
        "action",
        ArgType::Normal,
        vec![command("on", vec![]), command("off", vec![flag("now", Some("now"), None)])],
    );
    let commands = vec![command("status", vec![]), with_subcommand(
        command("adc", vec![flag("raw", Some("raw"), None)]),
        "target",
        ArgType::Normal,
        vec![inner],
    )];
    let args = [
        Arg::LongOption("raw"),
        Arg::Value("channel"),
        Arg::Value("off"),
        Arg::LongOption("now"),
    ];
    assert_eq!(
        parse(&commands, "adc", &args),
        Err(ParseError::MissingRequiredArgument { name: "index" })
    );
    let inner = command("channel", vec![positional("index", FieldType::Unsigned)]);
    let commands = vec![with_subcommand(
        command("adc", vec![flag("raw", Some("raw"), None)]),
        "target",
        ArgType::Normal,
        vec![command("none", vec![]), inner],
    )];
    let args = [Arg::LongOption("raw"), Arg::Value("channel"), Arg::Value("4")];
    assert_eq!(
        parse(&commands, "adc", &args),
        Ok(Parsed {
            command: 0,
            fields: vec![Some(Value::Bool(true))],
            subcommand: Some(Box::new(plain(1, vec![Some(Value::Unsigned(4))]))),
        })
    );
}

#[test]
fn three_levels_of_commands() {
    let level3 = vec![command("on", vec![]), command("off", vec![])];
    let level2 = vec![with_subcommand(command("pin", vec![]), "state", ArgType::Normal, level3)];
    let commands = vec![with_subcommand(command("gpio", vec![]), "what", ArgType::Normal, level2)];
    let args = [Arg::Value("pin"), Arg::Value("off")];
    assert_eq!(
        parse(&commands, "gpio", &args),
        Ok(Parsed {
            command: 0,
            fields: vec![],
            subcommand: Some(Box::new(Parsed {
                command: 0,
                fields: vec![],
                subcommand: Some(Box::new(plain(1, vec![]))),
            })),
        })
    );
    let args = [Arg::Value("pin"), Arg::Value("toggle")];
    assert_eq!(parse(&commands, "gpio", &args), Err(ParseError::UnknownCommand));
    let args = [Arg::Value("pin")];
    assert_eq!(
        parse(&commands, "gpio", &args),
        Err(ParseError::MissingRequiredArgument { name: "state" })
    );
}

#[test]
fn error_of_a_subcommand_comes_through_unchanged() {
    let commands = vec![with_subcommand(
        command("led", vec![]),
        "sub",
        ArgType::Normal,
        vec![command("set", vec![option("level", FieldType::Unsigned, Some("level"), None)])],
    )];
    let args = [Arg::Value("set"), Arg::LongOption("level"), Arg::Value("high")];
    assert_eq!(
        parse(&commands, "led", &args),
        Err(ParseError::ConversionFailure(FromArgumentError {
            value: "high",
            expected: FieldType::Unsigned,
        }))
    );
    let args = [Arg::Value("set")];
    assert_eq!(
        parse(&commands, "led", &args),
        Err(ParseError::MissingRequiredArgument { name: "level" })
    );
    let args = [Arg::Value("set"), Arg::ShortOption('x')];
    assert_eq!(
        parse(&commands, "led", &args),
        Err(ParseError::UnexpectedShortOption { name: 'x' })
    );
}

#[test]
fn parsing_twice_gives_equal_results() {
    let commands = vec![connect(), led(), copy_command()];
    let lines: Vec<(&str, Vec<Arg>)> = vec![
        ("connect", vec![Arg::Value("h"), Arg::ShortOption('p'), Arg::Value("1")]),
        ("connect", vec![Arg::ShortOption('p')]),
        ("led", vec![Arg::Value("list"), Arg::LongOption("all")]),
        ("led", vec![Arg::Value("nothing")]),
        ("copy", vec![Arg::Value("a"), Arg::Value("b"), Arg::Value("c")]),
        ("none", vec![]),
    ];
    for (name, args) in &lines {
        let first = parse(&commands, name, args);
        let second = parse(&commands, name, args);
        assert_eq!(first, second);
    }
    assert_eq!(commands, vec![connect(), led(), copy_command()]);
}

#[test]
fn empty_line_gives_the_defaults() {
    let commands = vec![command(
        "serve",
        vec![
            flag("verbose", Some("verbose"), None),
            with_default(
                option("port", FieldType::Unsigned, Some("port"), None),
                DefaultValue::Unsigned(80),
            ),
            with_default(positional("root", FieldType::Text), DefaultValue::Text(String::from("."))),
            with_default(
                option("level", FieldType::Signed, None, Some('l')),
                DefaultValue::Signed(-1),
            ),
            with_default(option("mark", FieldType::Char, None, Some('m')), DefaultValue::Char('*')),
            with_default(option("color", FieldType::Bool, None, Some('c')), DefaultValue::Bool(true)),
            optional(option("name", FieldType::Text, Some("name"), None)),
        ],
    )];
    assert_eq!(
        parse(&commands, "serve", &[]),
        Ok(plain(
            0,
            vec![
                Some(Value::Bool(false)),
                Some(Value::Unsigned(80)),
                Some(Value::Text(".")),
                Some(Value::Signed(-1)),
                Some(Value::Char('*')),
                Some(Value::Bool(true)),
                None,
            ]
        ))
    );
}

#[test]
fn given_value_wins_over_the_default() {
    let commands = vec![command(
        "serve",
        vec![
            with_default(
                option("port", FieldType::Unsigned, Some("port"), None),
                DefaultValue::Unsigned(80),
            ),
            with_default(positional("root", FieldType::Text), DefaultValue::Text(String::from("."))),
        ],
    )];
    let args = [Arg::Value("/srv"), Arg::LongOption("port"), Arg::Value("8080")];
    assert_eq!(
        parse(&commands, "serve", &args),
        Ok(plain(0, vec![Some(Value::Unsigned(8080)), Some(Value::Text("/srv"))]))
    );
}

#[test]
fn optional_fields() {
    let commands = vec![command(
        "show",
        vec![
            optional(flag("all", Some("all"), None)),
            optional(option("depth", FieldType::Unsigned, Some("depth"), None)),
            optional(positional("path", FieldType::Text)),
        ],
    )];
    assert_eq!(parse(&commands, "show", &[]), Ok(plain(0, vec![None, None, None])));
    let args = [Arg::LongOption("all"), Arg::Value("x"), Arg::LongOption("depth"), Arg::Value("2")];
    assert_eq!(
        parse(&commands, "show", &args),
        Ok(plain(
            0,
            vec![Some(Value::Bool(true)), Some(Value::Unsigned(2)), Some(Value::Text("x"))]
        ))
    );
}

#[test]
fn unknown_option_names() {
    let commands = vec![connect()];
    let args = [Arg::LongOption("verbos")];
    assert_eq!(
        parse(&commands, "connect", &args),
        Err(ParseError::UnexpectedLongOption { name: "verbos" })
    );
    let args = [Arg::ShortOption('x')];
    assert_eq!(
        parse(&commands, "connect", &args),
        Err(ParseError::UnexpectedShortOption { name: 'x' })
    );
    let args = [Arg::LongOption("v")];
    assert_eq!(
        parse(&commands, "connect", &args),
        Err(ParseError::UnexpectedLongOption { name: "v" })
    );
    let args = [Arg::LongOption("host")];
    assert_eq!(
        parse(&commands, "connect", &args),
        Err(ParseError::UnexpectedLongOption { name: "host" })
    );
}

#[test]
fn first_error_wins() {
    let commands = vec![connect()];
    let args = [Arg::ShortOption('x'), Arg::LongOption("y"), Arg::Value("h"), Arg::Value("i")];
    assert_eq!(
        parse(&commands, "connect", &args),
        Err(ParseError::UnexpectedShortOption { name: 'x' })
    );
    let args = [Arg::Value("h"), Arg::Value("i"), Arg::ShortOption('x')];
    assert_eq!(
        parse(&commands, "connect", &args),
        Err(ParseError::UnexpectedArgument { value: "i" })
    );
}

#[test]
fn double_dash_changes_nothing() {
    let commands = vec![connect()];
    let args = [
        Arg::DoubleDash,
        Arg::Value("localhost"),
        Arg::DoubleDash,
        Arg::LongOption("verbose"),
        Arg::ShortOption('p'),
        Arg::DoubleDash,
        Arg::Value("22"),
        Arg::DoubleDash,
    ];
    assert_eq!(
        parse(&commands, "connect", &args),
        Ok(plain(
            0,
            vec![
                Some(Value::Bool(true)),
                Some(Value::Unsigned(22)),
                Some(Value::Text("localhost")),
            ]
        ))
    );
}

#[test]
fn option_name_while_a_value_is_awaited() {
    let commands = vec![connect()];
    let args = [Arg::ShortOption('p'), Arg::ShortOption('v'), Arg::Value("localhost")];
    assert_eq!(
        parse(&commands, "connect", &args),
        Err(ParseError::MissingRequiredArgument { name: "port" })
    );
    let args = [
        Arg::ShortOption('p'),
        Arg::LongOption("port"),
        Arg::Value("1"),
        Arg::Value("localhost"),
    ];
    assert_eq!(
        parse(&commands, "connect", &args),
        Ok(plain(
            0,
            vec![Some(Value::Bool(false)), Some(Value::Unsigned(1)), Some(Value::Text("localhost"))]
        ))
    );
    let args = [Arg::ShortOption('p'), Arg::ShortOption('x')];
    assert_eq!(
        parse(&commands, "connect", &args),
        Err(ParseError::UnexpectedShortOption { name: 'x' })
    );
}

#[test]
fn first_descriptor_of_a_name_takes_it() {
    let commands = vec![command(
        "run",
        vec![
            flag("first", Some("same"), Some('s')),
            flag("second", Some("same"), Some('t')),
            option("third", FieldType::Text, Some("other"), Some('s')),
        ],
    )];
    let args = [Arg::LongOption("same"), Arg::ShortOption('s'), Arg::LongOption("other")];
    assert_eq!(
        parse(&commands, "run", &args),
        Err(ParseError::MissingRequiredArgument { name: "third" })
    );
    let args = [Arg::LongOption("same"), Arg::LongOption("other"), Arg::Value("x")];
    assert_eq!(
        parse(&commands, "run", &args),
        Ok(plain(
            0,
            vec![Some(Value::Bool(true)), Some(Value::Bool(false)), Some(Value::Text("x"))]
        ))
    );
}

#[test]
fn long_and_short_names_are_apart() {
    let commands = vec![command(
        "run",
        vec![flag("quiet", Some("q"), None), flag("quick", None, Some('q'))],
    )];
    let args = [Arg::LongOption("q")];
    assert_eq!(
        parse(&commands, "run", &args),
        Ok(plain(0, vec![Some(Value::Bool(true)), Some(Value::Bool(false))]))
    );
    let args = [Arg::ShortOption('q')];
    assert_eq!(
        parse(&commands, "run", &args),
        Ok(plain(0, vec![Some(Value::Bool(false)), Some(Value::Bool(true))]))
    );
}

#[test]
fn values_borrow_from_the_input() {
    let commands = vec![connect()];
    let line = String::from("localhost");
    let args = [Arg::Value(&line), Arg::ShortOption('p'), Arg::Value("1")];
    let parsed = parse(&commands, "connect", &args).unwrap();
    match parsed.fields[2] {
        Some(Value::Text(host)) => assert_eq!(host.as_ptr(), line.as_ptr()),
        other => panic!("{:?}", other),
    }
}
