use termseq::commands::{Action, Arg, Commands};

#[test]
fn terminal_test() {
    let c = Commands::from_string("rust".to_string()).unwrap();
    assert!(c.action() == Action::Unknown("rust".to_string()));
    assert!(c.args() == Vec::new());

    let c = Commands::from_string("stop".to_string()).unwrap();
    assert!(c.action() == Action::Stop);
    assert!(c.args() == Vec::new());

    let c = Commands::from_string("help".to_string()).unwrap();
    assert!(c.action() == Action::Help);
    assert!(c.args() == Vec::new());

    let c = Commands::from_string("rust -t".to_string()).unwrap();
    assert!(c.action() == Action::Unknown("rust".to_string()));
    assert!(c.args() == vec![Arg::Flag("t".to_string())]);

    let c = Commands::from_string("rust --terminal".to_string()).unwrap();
    assert!(c.action() == Action::Unknown("rust".to_string()));
    assert!(c.args() == vec![Arg::Flag("terminal".to_string())]);

    let c = Commands::from_string("rust --terminal=true".to_string()).unwrap();
    assert!(c.action() == Action::Unknown("rust".to_string()));
    assert!(c.args() == vec![Arg::Inner(("terminal".to_string(), "true".to_string()))]);

    let c = Commands::from_string("rust --terminal=\"Is true\"".to_string()).unwrap();
    assert!(c.action() == Action::Unknown("rust".to_string()));
    assert!(c.args() == vec![Arg::Inner(("terminal".to_string(), "Is true".to_string()))]);

    let c = Commands::from_string("rust --terminal=\"Is true\" --rust=\"Is stupid\"".to_string())
        .unwrap();
    assert!(c.action() == Action::Unknown("rust".to_string()));
    assert!(
        c.args()
            == vec![
                Arg::Inner(("terminal".to_string(), "Is true".to_string())),
                Arg::Inner(("rust".to_string(), "Is stupid".to_string()))
            ]
    );

    let c = Commands::from_string(
        "rust -t -r --terminal --rust --terminal=\"Is true\" --rust=\"Is stupid\"".to_string(),
    )
    .unwrap();
    assert!(c.action() == Action::Unknown("rust".to_string()));
    assert!(
        c.args()
            == vec![
                Arg::Flag("t".to_string()),
                Arg::Flag("r".to_string()),
                Arg::Flag("terminal".to_string()),
                Arg::Flag("rust".to_string()),
                Arg::Inner(("terminal".to_string(), "Is true".to_string())),
                Arg::Inner(("rust".to_string(), "Is stupid".to_string()))
            ]
    );

    assert!(Commands::from_string("".to_string()).is_err());
}

#[test]
fn commands_read_the_same_with_surrounding_whitespace() {
    let a = Commands::from_string("\r\n  rust -t --x=\"y z\" \n".to_string()).unwrap();
    let b = Commands::from_string("rust -t --x=\"y z\"".to_string()).unwrap();
    assert!(a.action() == b.action());
    assert!(a.args() == b.args());
}
