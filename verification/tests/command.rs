use embedded_cli::arguments::Arg;
use embedded_cli::command::RawCommand;
use embedded_cli::{create_option_name_arm, derive_command, derive_from_raw, trim_start};

#[test]
fn raw_command_keeps_name_and_tokens() {
    let args = [Arg::Value("a"), Arg::DoubleDash, Arg::LongOption("b"), Arg::ShortOption('c')];
    let raw = RawCommand::new("name", &args);
    assert_eq!(raw.name(), "name");
    assert_eq!(raw.args(), &args);
    let empty = RawCommand::new("", &[]);
    assert_eq!(empty.name(), "");
    assert!(empty.args().is_empty());
}

#[test]
fn raw_command_borrows_its_name() {
    let line = String::from("status");
    let raw = RawCommand::new(&line, &[]);
    assert_eq!(raw.name().as_ptr(), line.as_ptr());
}

#[test]
fn entry_points_stand_at_the_root() {
    assert_eq!(trim_start("  x"), "x");
    assert!(create_option_name_arm(&Some('x'), &None, &Arg::ShortOption('x')));
    let input = embedded_cli::derive::DeriveInput {
        attrs: embedded_cli::derive::ServiceAttrs::default(),
        data: embedded_cli::derive::Data::Enum(vec![]),
    };
    let service = derive_command(input).unwrap();
    assert!(derive_from_raw(&service.commands, RawCommand::new("x", &[])).is_err());
}
