use zhtta::args::{get_args, parse_number, select_args, ArgsOutcome};

fn args(v: &[&str]) -> Vec<String> {
    v.iter().map(|s| s.to_string()).collect()
}

#[test]
fn defaults_without_options() {
    match get_args(&args(&["zhtta"])) {
        ArgsOutcome::Run { ip, port } => {
            assert_eq!(ip, "127.0.0.1");
            assert_eq!(port, 4414);
        }
        _ => panic!("expected to run"),
    }
}

#[test]
fn given_address_and_port() {
    match get_args(&args(&["zhtta", "--ip", "0.0.0.0", "--port=8080"])) {
        ArgsOutcome::Run { ip, port } => {
            assert_eq!(ip, "0.0.0.0");
            assert_eq!(port, 8080);
        }
        _ => panic!("expected to run"),
    }
}

#[test]
fn help_flags_ask_for_usage() {
    assert!(matches!(get_args(&args(&["zhtta", "-h"])), ArgsOutcome::Usage { program } if program == "zhtta"));
    assert!(matches!(get_args(&args(&["prog", "--port", "1", "--help"])), ArgsOutcome::Usage { program } if program == "prog"));
}

#[test]
fn unknown_option_is_rejected() {
    assert!(matches!(get_args(&args(&["zhtta", "--verbose"])), ArgsOutcome::Rejected { .. }));
    assert!(matches!(get_args(&args(&["zhtta", "--port"])), ArgsOutcome::Rejected { .. }));
}

#[test]
fn port_must_be_a_number() {
    assert!(matches!(get_args(&args(&["zhtta", "--port", "http"])), ArgsOutcome::BadPort));
    assert!(matches!(get_args(&args(&["zhtta", "--port", ""])), ArgsOutcome::BadPort));
}

#[test]
fn numbers() {
    assert_eq!(parse_number(b"0"), Some(0));
    assert_eq!(parse_number(b"4414"), Some(4414));
    assert_eq!(parse_number(b"007"), Some(7));
    assert_eq!(parse_number(b""), None);
    assert_eq!(parse_number(b"12a"), None);
    assert_eq!(parse_number(b"-1"), None);
    assert_eq!(parse_number(b"+1"), None);
    assert_eq!(parse_number(b"18446744073709551615"), Some(usize::MAX));
    assert_eq!(parse_number(b"18446744073709551616"), None);
}

#[test]
fn select_args_directly() {
    assert!(matches!(select_args("p".to_string(), true, None, None), ArgsOutcome::Usage { .. }));
    match select_args("p".to_string(), false, None, Some("99".to_string())) {
        ArgsOutcome::Run { ip, port } => assert_eq!((ip.as_str(), port), ("127.0.0.1", 99)),
        _ => panic!("expected to run"),
    }
}
