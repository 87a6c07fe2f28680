use mvnx::cli::{parse_args, Command};

fn args(v: &[&str]) -> Vec<String> {
    v.iter().map(|s| s.to_string()).collect()
}

fn run(v: &[&str]) -> (String, Vec<String>, Option<String>, bool, u64, bool) {
    match parse_args(args(v)) {
        Command::Run(o) => (o.maven, o.args, o.log_file, o.show_jokes, o.joke_interval, o.clipboard),
        _ => panic!("expected a run"),
    }
}

#[test]
fn help_comes_first() {
    assert!(matches!(parse_args(args(&["clean", "-h"])), Command::Help));
    assert!(matches!(parse_args(args(&["--help", "--mvnhelp"])), Command::Help));
}

#[test]
fn maven_help_with_daemon() {
    match parse_args(args(&["--mvnd", "--mvnhelp"])) {
        Command::MavenHelp(m) => assert_eq!(m, "mvnd"),
        _ => panic!("expected maven help"),
    }
    match parse_args(args(&["--mvnhelp"])) {
        Command::MavenHelp(m) => assert_eq!(m, "mvn"),
        _ => panic!("expected maven help"),
    }
}

#[test]
fn plain_run() {
    assert_eq!(
        run(&["clean", "install"]),
        ("mvn".to_string(), args(&["clean", "install"]), None, false, 30, false)
    );
}

#[test]
fn log_file_option() {
    assert_eq!(
        run(&["-l", "out.log", "clean"]),
        ("mvn".to_string(), args(&["clean"]), Some("out.log".to_string()), false, 30, false)
    );
    assert_eq!(
        run(&["clean", "--log-file"]),
        ("mvn".to_string(), args(&["clean"]), None, false, 30, false)
    );
}

#[test]
fn joke_options() {
    assert_eq!(run(&["-ji", "10", "test"]), ("mvn".to_string(), args(&["test"]), None, true, 10, false));
    assert_eq!(
        run(&["-ji", "abc", "test"]),
        ("mvn".to_string(), args(&["abc", "test"]), None, true, 30, false)
    );
    assert_eq!(run(&["-ji", "+5", "x"]), ("mvn".to_string(), args(&["x"]), None, true, 5, false));
    assert_eq!(
        run(&["-j", "--clip", "package", "-j"]),
        ("mvn".to_string(), args(&["package"]), None, true, 30, true)
    );
}

#[test]
fn daemon_run() {
    assert_eq!(run(&["--mvnd", "verify", "--mvnd"]), ("mvnd".to_string(), args(&["verify"]), None, false, 30, false));
}

#[test]
fn nothing_left_for_maven() {
    assert!(matches!(parse_args(args(&[])), Command::MissingArguments));
    assert!(matches!(parse_args(args(&["--mvnd", "-j"])), Command::MissingArguments));
}

#[test]
fn only_first_joke_interval_is_read() {
    assert_eq!(
        run(&["-ji", "5", "-ji", "x"]),
        ("mvn".to_string(), args(&["-ji", "x"]), None, true, 5, false)
    );
}

#[test]
fn log_file_named_like_an_option() {
    assert_eq!(
        run(&["-l", "-ji", "test"]),
        ("mvn".to_string(), args(&["test"]), Some("-ji".to_string()), false, 30, false)
    );
}
