use clap::{Arg, ArgAction, Command};
use reqlang_expr::cli::split_key_values;
use reqlang_expr::cliutil::{parse_key_val, unzip_key_values};

fn vars_command() -> Command {
    Command::new("test").arg(
        Arg::new("vars")
            .long("vars")
            .value_name("VARS")
            .value_delimiter(' ')
            .num_args(1..)
            .action(ArgAction::Append)
            .value_parser(parse_key_val),
    )
}

fn parsed_vars(args: &[&str]) -> Result<Vec<(String, String)>, clap::Error> {
    let matches = vars_command().try_get_matches_from(args)?;
    Ok(matches.get_many::<(String, String)>("vars").map(|v| v.cloned().collect()).unwrap_or_default())
}

#[test]
fn parse_key_val_valid_keyvalue_pair() {
    assert_eq!(
        vec![(String::from("key"), String::from("value"))],
        parsed_vars(&["test", "--vars", "key=value"]).ok().unwrap()
    );
}

#[test]
fn parse_key_val_invalid_keyvalue_pair() {
    assert_eq!(
        "error: invalid value 'key_without_value' for '--vars <VARS>...': should be formatted as key=value pair: `key_without_value`\n\nFor more information, try '--help'.\n",
        parsed_vars(&["test", "--vars", "key_without_value"]).err().unwrap().to_string()
    );
}

#[test]
fn parse_key_val_splits_at_the_first_equals_sign() {
    assert_eq!(Ok(("a".to_string(), "1".to_string())), parse_key_val("a=1"));
    assert_eq!(Ok(("a".to_string(), "b=c".to_string())), parse_key_val("a=b=c"));
    assert_eq!(Ok(("".to_string(), "".to_string())), parse_key_val("="));
    assert_eq!(Err("should be formatted as key=value pair: `ab`".to_string()), parse_key_val("ab"));
}

#[test]
fn unzip_key_values_keeps_the_order() {
    let keys_values: Vec<(String, String)> = vec![
        ("key1".to_string(), "val1".to_string()),
        ("key2".to_string(), "val2".to_string()),
    ];

    let (keys, values) = split_key_values(&keys_values);
    assert_eq!(vec!["key1", "key2"], keys);
    assert_eq!(vec!["val1", "val2"], values);

    let (keys, values) = unzip_key_values(keys_values);
    assert_eq!(vec!["key1", "key2"], keys);
    assert_eq!(vec!["val1", "val2"], values);
}
