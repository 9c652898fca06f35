use desktopdrawers::command::Command;
use desktopdrawers::error::Error;
use desktopdrawers::model::{Drawer, DrawerIndex, IconSize};
use desktopdrawers::storage::{drawer_from_read, index_from_read, load_all_from};
use uuid::Uuid;

fn args(a: &[&str]) -> Vec<String> {
    a.iter().map(|s| s.to_string()).collect()
}

fn from_json(text: &str) -> Result<Command, Error> {
    let v: serde_json::Value = serde_json::from_str(text.trim()).map_err(|e| Error::Json(e.to_string()))?;
    let command = v["command"].as_str().unwrap().to_string();
    let drawer_id = v.get("drawer_id").and_then(|d| d.as_str()).map(|s| s.to_string());
    Command::from_ipc_fields(&command, drawer_id)
}

#[test]
fn no_arguments_opens_manager() {
    assert_eq!(Command::parse(&Vec::<String>::new()).unwrap(), Command::Manager);
    assert_eq!(Command::parse(&args(&["--manage"])).unwrap(), Command::Manager);
}

#[test]
fn open_flag_selects_drawer() {
    let id = "7dcf239e-5d4d-45af-8293-a354ee90d002";
    assert_eq!(Command::parse(&args(&["--open", id])).unwrap(), Command::OpenDrawer(id.into()));
}

#[test]
fn ipc_command_serialization_roundtrips() {
    for cmd in [Command::Manager, Command::OpenDrawer("abc-123".into())] {
        let json = cmd.to_ipc_json();
        assert_eq!(from_json(&json).unwrap(), cmd);
    }
}

#[test]
fn loading_keeps_index_order_and_skips_failures() {
    let mut index = index_from_read(Ok(None)).unwrap();
    let mut results = Vec::new();
    for name in ["One", "Two", "Three"] {
        let d = Drawer::new(name.to_string(), 2, 2, IconSize::Small);
        index.drawer_order.push(d.id);
        results.push(drawer_from_read(d.id, Ok(Some(d))));
    }
    let missing = Uuid::new_v4().as_u128();
    results.insert(1, drawer_from_read(missing, Ok(None)));
    let (idx, drawers) = load_all_from(index, results);
    assert_eq!(idx.drawer_order.len(), 3);
    let names: Vec<_> = drawers.iter().map(|d| d.name.as_str()).collect();
    assert_eq!(names, ["One", "Two", "Three"]);
}

#[test]
fn stored_drawer_is_normalized_or_rejected() {
    let mut d = Drawer::new("Emulation".to_string(), 4, 3, IconSize::Medium);
    d.schema_version = 0;
    let id = d.id;
    let loaded = drawer_from_read(id, Ok(Some(d))).unwrap();
    assert_eq!(loaded.schema_version, 1);
    assert_eq!(loaded.name, "Emulation");
    let mut newer = Drawer::new("Future".to_string(), 1, 1, IconSize::Small);
    newer.schema_version = 2;
    assert!(matches!(
        drawer_from_read(newer.id, Ok(Some(newer))),
        Err(Error::UnsupportedSchema { found: 2, supported: 1 })
    ));
    match drawer_from_read(id, Ok(None)) {
        Err(Error::DrawerNotFound(m)) => assert_eq!(m, Uuid::from_u128(id).to_string()),
        other => panic!("unexpected {:?}", other.is_ok()),
    }
    let idx = DrawerIndex { schema_version: 2, drawer_order: vec![] };
    assert!(matches!(index_from_read(Ok(Some(idx))), Err(Error::UnsupportedSchema { found: 2, .. })));
}
