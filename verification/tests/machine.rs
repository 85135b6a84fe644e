use embedded_cli::arguments::{Arg, FieldType, FromArgumentError, Value};
use embedded_cli::machine::{
    create_option_name_arm, scan, start, step, Action, Progress, Scan, State,
};
use embedded_cli::parse::finish;
use embedded_cli::schema::{
    ArgType, Command, CommandArg, CommandArgType, DefaultValue, Subcommand, SubcommandField,
};
use embedded_cli::service::{ParseError, Parsed};

fn arg(name: &str, field_type: FieldType, arg_type: CommandArgType) -> CommandArg {
    CommandArg { name: String::from(name), field_type, arg_type, ty: ArgType::Normal, default_value: None }
}

fn flag(name: &str, long: &str, short: char) -> CommandArg {
    arg(
        name,
        FieldType::Bool,
        CommandArgType::Flag { long: Some(String::from(long)), short: Some(short) },
    )
}

fn option(name: &str, field_type: FieldType, long: &str, short: char) -> CommandArg {
    arg(name, field_type, CommandArgType::Option { long: Some(String::from(long)), short: Some(short) })
}

fn positional(name: &str, field_type: FieldType) -> CommandArg {
    arg(name, field_type, CommandArgType::Positional)
}

fn connect() -> Command {
    Command {
        name: String::from("connect"),
        args: vec![
            flag("verbose", "verbose", 'v'),
            option("port", FieldType::Unsigned, "port", 'p'),
            positional("host", FieldType::Text),
        ],
        subcommand: None,
        named_args: true,
        is_struct: false,
    }
}

fn with_subcommand(mut command: Command) -> Command {
    command.subcommand = Some(Subcommand {
        field: SubcommandField::NamedField(String::from("sub")),
        ty: ArgType::Normal,
        commands: vec![],
    });
    command
}

#[test]
fn name_arm_matches_long_and_short() {
    let long = Some(String::from("port"));
    let short = Some('p');
    assert!(create_option_name_arm(&short, &long, &Arg::LongOption("port")));
    assert!(create_option_name_arm(&short, &long, &Arg::ShortOption('p')));
    assert!(!create_option_name_arm(&short, &long, &Arg::LongOption("p")));
    assert!(!create_option_name_arm(&short, &long, &Arg::LongOption("por")));
    assert!(!create_option_name_arm(&short, &long, &Arg::LongOption("ports")));
    assert!(!create_option_name_arm(&short, &long, &Arg::LongOption("Port")));
    assert!(!create_option_name_arm(&short, &long, &Arg::ShortOption('P')));
    assert!(!create_option_name_arm(&short, &long, &Arg::Value("port")));
    assert!(!create_option_name_arm(&short, &long, &Arg::Value("p")));
    assert!(!create_option_name_arm(&short, &long, &Arg::DoubleDash));
}

#[test]
fn name_arm_with_one_name_only() {
    let long = Some(String::from("port"));
    assert!(create_option_name_arm(&None, &long, &Arg::LongOption("port")));
    assert!(!create_option_name_arm(&None, &long, &Arg::ShortOption('p')));
    assert!(create_option_name_arm(&Some('p'), &None, &Arg::ShortOption('p')));
    assert!(!create_option_name_arm(&Some('p'), &None, &Arg::LongOption("port")));
    assert!(!create_option_name_arm(&Some('p'), &None, &Arg::LongOption("p")));
}

#[test]
fn machine_starts_with_nothing_given() {
    let command = connect();
    assert_eq!(
        start(&command),
        Progress { state: State::Normal, positional: 0, fields: vec![None, None, None] }
    );
    let empty = Command { args: vec![], ..connect() };
    assert_eq!(start(&empty), Progress { state: State::Normal, positional: 0, fields: vec![] });
}

#[test]
fn step_on_a_flag_sets_it() {
    let command = connect();
    let mut progress = start(&command);
    assert_eq!(step(&command, &mut progress, Arg::ShortOption('v')), Ok(Action::Continue));
    assert_eq!(
        progress,
        Progress { state: State::Normal, positional: 0, fields: vec![Some(Value::Bool(true)), None, None] }
    );
}

#[test]
fn step_on_an_option_name_awaits_the_value() {
    let command = connect();
    let mut progress = start(&command);
    assert_eq!(step(&command, &mut progress, Arg::LongOption("port")), Ok(Action::Continue));
    assert_eq!(
        progress,
        Progress { state: State::ExpectValue(1), positional: 0, fields: vec![None, None, None] }
    );
    assert_eq!(step(&command, &mut progress, Arg::Value("8080")), Ok(Action::Continue));
    assert_eq!(
        progress,
        Progress {
            state: State::Normal,
            positional: 0,
            fields: vec![None, Some(Value::Unsigned(8080)), None],
        }
    );
}

#[test]
fn step_on_a_flag_ends_the_wait_for_a_value() {
    let command = connect();
    let mut progress = Progress { state: State::ExpectValue(1), positional: 0, fields: vec![None, None, None] };
    assert_eq!(step(&command, &mut progress, Arg::LongOption("verbose")), Ok(Action::Continue));
    assert_eq!(
        progress,
        Progress { state: State::Normal, positional: 0, fields: vec![Some(Value::Bool(true)), None, None] }
    );
}

#[test]
fn step_on_a_positional_value_counts_it() {
    let command = connect();
    let mut progress = start(&command);
    assert_eq!(step(&command, &mut progress, Arg::Value("localhost")), Ok(Action::Continue));
    assert_eq!(
        progress,
        Progress {
            state: State::Normal,
            positional: 1,
            fields: vec![None, None, Some(Value::Text("localhost"))],
        }
    );
    let before = Progress {
        state: State::Normal,
        positional: 1,
        fields: vec![None, None, Some(Value::Text("localhost"))],
    };
    assert_eq!(
        step(&command, &mut progress, Arg::Value("other")),
        Err(ParseError::UnexpectedArgument { value: "other" })
    );
    assert_eq!(progress, before);
}

#[test]
fn step_on_the_separator_changes_nothing() {
    let command = connect();
    let mut progress = Progress { state: State::ExpectValue(1), positional: 1, fields: vec![None, None, None] };
    assert_eq!(step(&command, &mut progress, Arg::DoubleDash), Ok(Action::Continue));
    assert_eq!(
        progress,
        Progress { state: State::ExpectValue(1), positional: 1, fields: vec![None, None, None] }
    );
}

#[test]
fn step_that_fails_leaves_the_progress() {
    let command = connect();
    let mut progress = Progress {
        state: State::ExpectValue(1),
        positional: 1,
        fields: vec![Some(Value::Bool(true)), None, Some(Value::Text("h"))],
    };
    assert_eq!(
        step(&command, &mut progress, Arg::Value("x1")),
        Err(ParseError::ConversionFailure(FromArgumentError {
            value: "x1",
            expected: FieldType::Unsigned,
        }))
    );
    assert_eq!(
        progress,
        Progress {
            state: State::ExpectValue(1),
            positional: 1,
            fields: vec![Some(Value::Bool(true)), None, Some(Value::Text("h"))],
        }
    );
    assert_eq!(
        step(&command, &mut progress, Arg::LongOption("nothing")),
        Err(ParseError::UnexpectedLongOption { name: "nothing" })
    );
    assert_eq!(progress.state, State::ExpectValue(1));
}

#[test]
fn step_on_a_value_delegates_to_the_subcommand() {
    let command = with_subcommand(connect());
    let mut progress = start(&command);
    assert_eq!(step(&command, &mut progress, Arg::Value("get")), Ok(Action::Delegate));
    assert_eq!(progress, start(&command));
    let mut awaiting = Progress { state: State::ExpectValue(1), positional: 0, fields: vec![None, None, None] };
    assert_eq!(step(&command, &mut awaiting, Arg::Value("7")), Ok(Action::Continue));
    assert_eq!(awaiting.fields, vec![None, Some(Value::Unsigned(7)), None]);
}

#[test]
fn scan_runs_to_the_end() {
    let command = connect();
    let args = [Arg::Value("h"), Arg::ShortOption('p')];
    assert_eq!(
        scan(&command, &args),
        Ok(Scan::Done(Progress {
            state: State::ExpectValue(1),
            positional: 1,
            fields: vec![None, None, Some(Value::Text("h"))],
        }))
    );
    assert_eq!(scan(&command, &[]), Ok(Scan::Done(start(&command))));
}

#[test]
fn scan_stops_at_the_subcommand() {
    let command = with_subcommand(connect());
    let args = [
        Arg::ShortOption('v'),
        Arg::ShortOption('p'),
        Arg::Value("1"),
        Arg::Value("get"),
        Arg::ShortOption('v'),
        Arg::LongOption("nothing"),
    ];
    assert_eq!(
        scan(&command, &args),
        Ok(Scan::Boundary(
            Progress {
                state: State::Normal,
                positional: 0,
                fields: vec![Some(Value::Bool(true)), Some(Value::Unsigned(1)), None],
            },
            3
        ))
    );
}

#[test]
fn scan_stops_at_the_first_error() {
    let command = connect();
    let args = [Arg::ShortOption('x'), Arg::Value("a"), Arg::Value("b")];
    assert_eq!(scan(&command, &args), Err(ParseError::UnexpectedShortOption { name: 'x' }));
}

#[test]
fn finish_fills_in_the_fallbacks() {
    let mut command = connect();
    command.args[1].default_value = Some(DefaultValue::Unsigned(22));
    assert_eq!(
        finish(&command, 3, vec![None, None, Some(Value::Text("h"))], None),
        Ok(Parsed {
            command: 3,
            fields: vec![Some(Value::Bool(false)), Some(Value::Unsigned(22)), Some(Value::Text("h"))],
            subcommand: None,
        })
    );
    assert_eq!(
        finish(&command, 0, vec![Some(Value::Bool(true)), Some(Value::Unsigned(1)), None], None),
        Err(ParseError::MissingRequiredArgument { name: "host" })
    );
}

#[test]
fn finish_keeps_the_subcommand() {
    let command = with_subcommand(Command { args: vec![], ..connect() });
    let sub = Parsed { command: 1, fields: vec![Some(Value::Char('x'))], subcommand: None };
    assert_eq!(
        finish(&command, 0, vec![], Some(sub)),
        Ok(Parsed {
            command: 0,
            fields: vec![],
            subcommand: Some(Box::new(Parsed {
                command: 1,
                fields: vec![Some(Value::Char('x'))],
                subcommand: None,
            })),
        })
    );
    assert_eq!(
        finish(&command, 0, vec![], None),
        Err(ParseError::MissingRequiredArgument { name: "sub" })
    );
}
