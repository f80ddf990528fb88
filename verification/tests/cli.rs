use rusty_ulid::cli::{plan, Plan};
use rusty_ulid::Ulid;

fn main_with_args_and_return_value(args: Vec<String>) -> i32 {
    plan(&args).exit_code()
}

#[test]
fn invalid_value_returns_error() {
    let args = vec!["foo".to_string()];

    let result = main_with_args_and_return_value(args);
    assert_eq!(result, 1);
}

#[test]
fn valid_values_return_no_error() {
    let args = vec![
        "01CB265DSMTDS096TBTZRNTBPC".to_string(),
        "01CB265J6CRQA44WH98DP3YA07".to_string(),
    ];

    let result = main_with_args_and_return_value(args);
    assert_eq!(result, 0);
}

#[test]
fn valid_verbose_values_return_no_error() {
    let args = vec![
        "01CB265DSMTDS096TBTZRNTBPC".to_string(),
        "--verbose".to_string(),
        "01CB265J6CRQA44WH98DP3YA07".to_string(),
    ];

    let result = main_with_args_and_return_value(args);
    assert_eq!(result, 0);
}

#[test]
fn main_no_args_return_no_error() {
    let args = vec![];

    let result = main_with_args_and_return_value(args);
    assert_eq!(result, 0);
}

#[test]
fn main_verbose_short_returns_no_error() {
    let args = vec!["-v".to_string()];

    let result = main_with_args_and_return_value(args);
    assert_eq!(result, 0);
}

#[test]
fn main_verbose_long_returns_no_error() {
    let args = vec!["--verbose".to_string()];

    let result = main_with_args_and_return_value(args);
    assert_eq!(result, 0);
}

#[test]
fn version_short_returns_no_error() {
    let args = vec!["-V".to_string()];

    let result = main_with_args_and_return_value(args);
    assert_eq!(result, 0);
}

#[test]
fn version_long_returns_no_error() {
    let args = vec!["--version".to_string()];

    let result = main_with_args_and_return_value(args);
    assert_eq!(result, 0);
}

#[test]
fn help_short_returns_no_error() {
    let args = vec!["-h".to_string()];

    let result = main_with_args_and_return_value(args);
    assert_eq!(result, 0);
}

#[test]
fn help_long_returns_no_error() {
    let args = vec!["--help".to_string()];

    let result = main_with_args_and_return_value(args);
    assert_eq!(result, 0);
}

#[test]
fn exit_code_of_a_ulid_and_of_a_broken_one() {
    assert_eq!(main_with_args_and_return_value(vec!["01ARZ3NDEKTSV4RRFFQ69G5FAV".to_string()]), 0);
    assert_eq!(main_with_args_and_return_value(vec!["01ARZ3NDEKTSV4RRFFQ69G5FAU".to_string()]), 1);
}

#[test]
fn plan_sorts_the_arguments() {
    let args = vec![
        "01CB265DSMTDS096TBTZRNTBPC".to_string(),
        "foo".to_string(),
        "-v".to_string(),
        "01ARZ3NDEKTSV4RRFFQ69G5FAU".to_string(),
        "01CB265J6CRQA44WH98DP3YA07".to_string(),
    ];
    match plan(&args) {
        Plan::Check { verbose, valid, broken } => {
            assert!(verbose);
            assert_eq!(
                valid.iter().map(|ulid| ulid.to_string()).collect::<Vec<String>>(),
                vec!["01CB265DSMTDS096TBTZRNTBPC", "01CB265J6CRQA44WH98DP3YA07"]
            );
            assert_eq!(valid[0], Ulid::from(0x0162_C462_B734_D372_049B_4BD7_F15D_2ECC));
            assert_eq!(broken, vec!["foo", "01ARZ3NDEKTSV4RRFFQ69G5FAU"]);
        },
        other => panic!("unexpected plan {:?}", other),
    }
}

#[test]
fn plan_puts_version_before_help_before_the_rest() {
    let all = vec!["foo".to_string(), "-h".to_string(), "-v".to_string(), "--version".to_string()];
    assert!(matches!(plan(&all), Plan::Version));
    assert_eq!(plan(&all).exit_code(), 0);
    let help = vec!["foo".to_string(), "--help".to_string(), "-v".to_string()];
    assert!(matches!(plan(&help), Plan::Help));
    assert_eq!(plan(&help).exit_code(), 0);
    assert!(matches!(plan(&vec![]), Plan::Generate { verbose: false }));
    assert!(matches!(plan(&vec!["-v".to_string()]), Plan::Generate { verbose: true }));
    assert!(matches!(plan(&vec!["--verbose".to_string()]), Plan::Generate { verbose: true }));
    // only the six spellings are options
    let near = vec!["-vv".to_string(), "--Verbose".to_string(), "-H".to_string()];
    match plan(&near) {
        Plan::Check { verbose, valid, broken } => {
            assert!(!verbose);
            assert!(valid.is_empty());
            assert_eq!(broken, near);
        },
        other => panic!("unexpected plan {:?}", other),
    }
}
