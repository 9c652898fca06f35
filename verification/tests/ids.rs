use desktopdrawers::command::Command;
use desktopdrawers::ipc::{
    after_send_attempt, mutex_name, pipe_name, user_suffix, ForwardStep, SEND_ATTEMPTS,
};
use desktopdrawers::model::{Drawer, DrawerIndex, IconSize};
use desktopdrawers::session::{App, Step};
use desktopdrawers::shortcut::managed_shortcut_names;
use desktopdrawers::storage::Store;
use uuid::Uuid;

#[test]
fn instance_object_names_are_per_user() {
    assert_eq!(user_suffix(None), "default");
    assert_eq!(user_suffix(Some("alice".to_string())), "alice");
    assert_eq!(mutex_name("alice"), "Local\\DesktopDrawers.Instance.alice");
    assert_eq!(pipe_name("alice"), r"\\.\pipe\DesktopDrawers.alice");
}

#[test]
fn identifiers_print_and_parse() {
    let id: u128 = 0x67e5_5044_10b1_426f_9247_bb68_0e5f_e0c8;
    let (file, _) = managed_shortcut_names(id);
    assert_eq!(file, "67e55044-10b1-426f-9247-bb680e5fe0c8.lnk");
    assert_eq!(file, format!("{}.lnk", Uuid::from_u128(id)));
    let (zero, _) = managed_shortcut_names(0);
    assert_eq!(zero, "00000000-0000-0000-0000-000000000000.lnk");

    let mut app = App::new(Store::at("/tmp/dd".into()), DrawerIndex::default(), Vec::new());
    let mut d = Drawer::new("One".to_string(), 2, 2, IconSize::Small);
    d.id = id;
    app.add_drawer(d);
    for text in [
        "67e55044-10b1-426f-9247-bb680e5fe0c8",
        "67E55044-10B1-426F-9247-BB680E5FE0C8",
        "67e5504410b1426f9247bb680e5fe0c8",
    ] {
        let p = app.execute(&Command::OpenDrawer(text.to_string()));
        assert!(p.notice.is_none(), "{text}");
        assert!(matches!(p.step, Step::CreateDrawer(x) if x == id), "{text}");
    }
    for text in ["not-a-uuid", "", "67e55044-10b1-426f-9247-bb680e5fe0c"] {
        let p = app.execute(&Command::OpenDrawer(text.to_string()));
        assert!(p.notice.is_some(), "{text}");
        assert!(matches!(p.step, Step::CreateManager), "{text}");
    }
}

#[test]
fn forwarding_retries_until_attempts_run_out() {
    assert!(matches!(after_send_attempt(0, true), ForwardStep::Done));
    assert!(matches!(after_send_attempt(19, true), ForwardStep::Done));
    assert!(matches!(after_send_attempt(0, false), ForwardStep::Retry(1)));
    assert!(matches!(after_send_attempt(18, false), ForwardStep::Retry(19)));
    assert!(matches!(after_send_attempt(19, false), ForwardStep::GiveUp));
    assert!(matches!(after_send_attempt(u32::MAX, false), ForwardStep::GiveUp));
    // Failing every time makes exactly SEND_ATTEMPTS attempts.
    let mut attempt = 0u32;
    let mut made = 1u32;
    while let ForwardStep::Retry(next) = after_send_attempt(attempt, false) {
        attempt = next;
        made += 1;
    }
    assert_eq!(made, SEND_ATTEMPTS);
}
