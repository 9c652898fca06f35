use desktopdrawers::command::Command;
use desktopdrawers::error::Error;

fn args(a: &[&str]) -> Vec<String> {
    a.iter().map(|s| s.to_string()).collect()
}

/// Reads a forwarded envelope the way the application does: JSON object,
/// `command` string, optional `drawer_id` string.
fn from_json(text: &str) -> Result<Command, Error> {
    let v: serde_json::Value = serde_json::from_str(text.trim()).map_err(|e| Error::Json(e.to_string()))?;
    let command = v["command"].as_str().unwrap().to_string();
    let drawer_id = v.get("drawer_id").and_then(|d| d.as_str()).map(|s| s.to_string());
    Command::from_ipc_fields(&command, drawer_id)
}

fn bad(r: Result<Command, Error>) -> String {
    match r {
        Err(Error::BadCommandLine(m)) => m,
        other => panic!("expected a command-line error, got {other:?}"),
    }
}

#[test]
fn no_args_is_manager() {
    assert_eq!(Command::parse(&Vec::<String>::new()).unwrap(), Command::Manager);
}

#[test]
fn manage_flag() {
    assert_eq!(Command::parse(&args(&["--manage"])).unwrap(), Command::Manager);
}

#[test]
fn open_flag() {
    assert_eq!(
        Command::parse(&args(&["--open", "abc-123"])).unwrap(),
        Command::OpenDrawer("abc-123".into())
    );
}

#[test]
fn open_without_id_errors() {
    assert!(Command::parse(&args(&["--open"])).is_err());
}

#[test]
fn unknown_arg_errors() {
    assert!(Command::parse(&args(&["--frobnicate"])).is_err());
}

#[test]
fn ipc_roundtrip_manager() {
    let c = Command::Manager;
    assert_eq!(from_json(&c.to_ipc_json()).unwrap(), c);
}

#[test]
fn ipc_roundtrip_open() {
    let c = Command::OpenDrawer("7dcf239e-5d4d-45af-8293-a354ee90d002".into());
    assert_eq!(from_json(&c.to_ipc_json()).unwrap(), c);
}

#[test]
fn parse_errors_carry_their_messages() {
    assert_eq!(bad(Command::parse(&args(&["--open"]))), "--open requires a drawer id");
    assert_eq!(bad(Command::parse(&args(&["--open", "  \t "]))), "--open drawer id was empty");
    assert_eq!(bad(Command::parse(&args(&["--frobnicate"]))), "unknown argument: --frobnicate");
}

#[test]
fn parse_trims_id_and_ignores_extra_args() {
    assert_eq!(
        Command::parse(&args(&["--open", "  abc \n", "--manage"])).unwrap(),
        Command::OpenDrawer("abc".into())
    );
    assert_eq!(Command::parse(&args(&["--manage", "--open"])).unwrap(), Command::Manager);
}

#[test]
fn envelope_text_is_exact_and_escaped() {
    assert_eq!(Command::Manager.to_ipc_json(), r#"{"command":"open_manager"}"#);
    assert_eq!(
        Command::OpenDrawer("a\"b\\c".into()).to_ipc_json(),
        r#"{"command":"open_drawer","drawer_id":"a\"b\\c"}"#
    );
    let c = Command::OpenDrawer("quote\" back\\slash".into());
    assert_eq!(from_json(&c.to_ipc_json()).unwrap(), c);
}

#[test]
fn envelope_fields_are_checked() {
    assert_eq!(Command::from_ipc_fields("open_manager", Some("x".into())).unwrap(), Command::Manager);
    assert_eq!(bad(Command::from_ipc_fields("open_drawer", None)), "open_drawer without drawer_id");
    assert_eq!(bad(Command::from_ipc_fields("open_drawer", Some(String::new()))), "open_drawer without drawer_id");
    assert_eq!(bad(Command::from_ipc_fields("reboot", None)), "unknown IPC command: reboot");
}
