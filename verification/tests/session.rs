use desktopdrawers::command::Command;
use desktopdrawers::model::{Drawer, DrawerIndex, IconSize};
use desktopdrawers::session::{App, Notice, Step};
use desktopdrawers::storage::Store;
use uuid::Uuid;

fn app_with(names: &[&str]) -> App {
    let mut app = App::new(Store::at("/tmp/dd".into()), DrawerIndex::default(), Vec::new());
    for n in names {
        app.add_drawer(Drawer::new(n.to_string(), 2, 2, IconSize::Small));
    }
    app
}

#[test]
fn commands_open_or_focus() {
    let mut app = app_with(&["One", "Two"]);
    let id = app.drawers[1].id;
    let p = app.execute(&Command::Manager);
    assert!(p.notice.is_none());
    assert!(matches!(p.step, Step::CreateManager));
    app.record_manager(7);
    assert!(matches!(app.execute(&Command::Manager).step, Step::FocusManager(7)));
    let p = app.execute(&Command::OpenDrawer(Uuid::from_u128(id).to_string()));
    assert!(p.notice.is_none());
    assert!(matches!(p.step, Step::CreateDrawer(x) if x == id));
    app.record_drawer_window(id, 42);
    assert!(matches!(app.execute(&Command::OpenDrawer(Uuid::from_u128(id).to_string())).step, Step::FocusDrawer(42)));
}

#[test]
fn bad_or_missing_drawer_falls_back_to_manager() {
    let app = app_with(&["One"]);
    let p = app.execute(&Command::OpenDrawer("not-an-id".into()));
    assert!(matches!(p.notice, Some(Notice::InvalidId)));
    assert!(matches!(p.step, Step::CreateManager));
    assert_eq!(Notice::InvalidId.message(), "Invalid drawer id.");
    let p = app.execute(&Command::OpenDrawer("7dcf239e-5d4d-45af-8293-a354ee90d002".into()));
    assert!(matches!(p.notice, Some(Notice::MissingDrawer)));
    assert_eq!(
        Notice::MissingDrawer.message(),
        "That drawer no longer exists. Opening the manager instead."
    );
}

#[test]
fn delete_forgets_drawer_everywhere() {
    let mut app = app_with(&["One", "Two", "Three"]);
    let id = app.drawers[1].id;
    app.record_drawer_window(id, 5);
    app.record_drawer_window(app.drawers[0].id, 6);
    assert_eq!(app.delete_drawer(id), Some(5));
    let names: Vec<_> = app.drawers.iter().map(|d| d.name.as_str()).collect();
    assert_eq!(names, ["One", "Three"]);
    assert_eq!(app.index.drawer_order.len(), 2);
    assert!(!app.index.drawer_order.contains(&id));
    assert!(app.drawer(id).is_none());
    assert_eq!(app.delete_drawer(id), None);
    assert_eq!(app.open_drawers.len(), 1);
}

#[test]
fn closing_the_last_window_quits() {
    let mut app = app_with(&["One"]);
    let id = app.drawers[0].id;
    app.record_manager(1);
    app.record_drawer_window(id, 2);
    assert_eq!(app.any_window(), Some(1));
    assert!(!app.on_manager_closed());
    assert_eq!(app.any_window(), Some(2));
    assert!(app.on_drawer_closed(id));
    assert_eq!(app.any_window(), None);
}

#[test]
fn drawer_lookup_and_replace() {
    let mut app = app_with(&["One", "Two"]);
    let id = app.drawers[0].id;
    assert_eq!(app.drawer(id).unwrap().name, "One");
    let renamed = Drawer { name: "Games".into(), ..app.drawers[0].duplicated("x".into()) };
    let renamed = Drawer { id, ..renamed };
    assert!(app.set_drawer(id, renamed));
    assert_eq!(app.drawer(id).unwrap().name, "Games");
    assert!(!app.set_drawer(3, Drawer::new("Z".into(), 1, 1, IconSize::Small)));
    assert_eq!(app.data_location(id).parts.len(), 3);
}

#[test]
fn window_bookkeeping_leaves_the_rest_alone() {
    let mut app = app_with(&["One", "Two"]);
    app.message_window = 77;
    let (a, b) = (app.drawers[0].id, app.drawers[1].id);
    app.record_drawer_window(a, 3);
    app.record_drawer_window(b, 4);
    // Recording again replaces the entry.
    app.record_drawer_window(a, 5);
    assert_eq!(app.open_drawers.len(), 2);
    assert_eq!(app.open_drawers.get(&a), Some(&5));
    let w = app.any_window().unwrap();
    assert!(w == 5 || w == 4);
    assert!(!app.on_drawer_closed(a));
    assert_eq!(app.any_window(), Some(4));
    assert!(app.on_drawer_closed(b));
    assert!(app.on_manager_closed());
    assert_eq!(app.message_window, 77);
    assert_eq!(app.drawers.len(), 2);
    assert_eq!(app.store.index_path().base, "/tmp/dd");
}
