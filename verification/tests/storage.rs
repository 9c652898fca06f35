use desktopdrawers::error::Error;
use desktopdrawers::model::{DrawerIndex, SCHEMA_VERSION};
use desktopdrawers::storage::{check_schema, index_from_read, needs_backup, recover, ReadOutcome, Store, StorePath};
use uuid::Uuid;

fn parts(p: &StorePath) -> Vec<&str> {
    p.parts.iter().map(|s| s.as_str()).collect()
}

fn index(order: Vec<u128>) -> DrawerIndex {
    DrawerIndex { schema_version: SCHEMA_VERSION, drawer_order: order }
}

#[test]
fn layout_under_the_root() {
    let s = Store::at("/tmp/dd".to_string());
    assert_eq!(s.data_dir().base, "/tmp/dd");
    assert_eq!(parts(&s.data_dir()), ["Data"]);
    assert_eq!(parts(&s.drawers_dir()), ["Data", "Drawers"]);
    assert_eq!(parts(&s.cache_icons_dir()), ["Cache", "Icons"]);
    assert_eq!(parts(&s.logs_dir()), ["Logs"]);
    assert_eq!(parts(&s.index_path()), ["Data", "drawers.json"]);
    let id = Uuid::parse_str("7dcf239e-5d4d-45af-8293-a354ee90d002").unwrap().as_u128();
    assert_eq!(parts(&s.drawer_dir(id)), ["Data", "Drawers", "7dcf239e-5d4d-45af-8293-a354ee90d002"]);
    assert_eq!(
        parts(&s.drawer_json_path(id)),
        ["Data", "Drawers", "7dcf239e-5d4d-45af-8293-a354ee90d002", "drawer.json"]
    );
    assert_eq!(parts(&s.drawer_items_dir(id))[3], "Items");
    let required = s.required_dirs();
    let dirs: Vec<Vec<&str>> = required.iter().map(parts).collect();
    assert_eq!(dirs, vec![vec!["Data"], vec!["Data", "Drawers"], vec!["Cache", "Icons"], vec!["Logs"]]);
}

#[test]
fn default_store_needs_local_app_data() {
    let s = Store::open_default(Some("C:\\Users\\me\\AppData\\Local".to_string())).unwrap();
    assert_eq!(parts(&s.logs_dir()), ["DesktopDrawers", "Logs"]);
    match Store::open_default(None) {
        Err(Error::Other(m)) => assert_eq!(m, "LOCALAPPDATA is not set"),
        _ => panic!("expected an error"),
    }
}

#[test]
fn schema_versions() {
    assert!(check_schema(0).is_ok());
    assert!(check_schema(SCHEMA_VERSION).is_ok());
    assert!(matches!(
        check_schema(SCHEMA_VERSION + 1),
        Err(Error::UnsupportedSchema { found: 2, supported: 1 })
    ));
    let old = DrawerIndex { schema_version: 0, drawer_order: vec![5] };
    let idx = index_from_read(Ok(Some(old))).unwrap();
    assert_eq!(idx.schema_version, SCHEMA_VERSION);
    assert_eq!(idx.drawer_order, vec![5]);
    assert!(matches!(index_from_read(Err(Error::Json("x".into()))), Err(Error::Json(_))));
}

#[test]
fn corrupt_primary_falls_back_to_backup() {
    let primary = ReadOutcome::Corrupt("expected value".to_string());
    assert!(needs_backup(&primary));
    let r = recover("drawers.json".to_string(), primary, ReadOutcome::Parsed(index(vec![1, 2])));
    assert!(r.restore);
    assert_eq!(r.result.unwrap().unwrap().drawer_order, vec![1, 2]);
    let r = recover("p".to_string(), ReadOutcome::<DrawerIndex>::Corrupt("bad".to_string()), ReadOutcome::Missing);
    assert!(!r.restore);
    assert!(matches!(r.result, Err(Error::Json(m)) if m == "bad"));
}

#[test]
fn missing_primary_uses_backup_or_nothing() {
    assert!(needs_backup(&ReadOutcome::<DrawerIndex>::Missing));
    let r = recover("p".to_string(), ReadOutcome::Missing, ReadOutcome::Parsed(index(vec![3])));
    assert!(r.restore);
    assert_eq!(r.result.unwrap().unwrap().drawer_order, vec![3]);
    let r = recover("p".to_string(), ReadOutcome::<DrawerIndex>::Missing, ReadOutcome::Failed("denied".into()));
    assert!(matches!(r.result, Ok(None)));
    let r = recover("p".to_string(), ReadOutcome::<DrawerIndex>::Missing, ReadOutcome::Corrupt("eof".into()));
    assert!(matches!(r.result, Err(Error::Json(m)) if m == "eof"));
}

#[test]
fn good_or_unreadable_primary_decides_alone() {
    let good = ReadOutcome::Parsed(index(vec![9]));
    assert!(!needs_backup(&good));
    let r = recover("p".to_string(), good, ReadOutcome::Parsed(index(vec![1])));
    assert!(!r.restore);
    assert_eq!(r.result.unwrap().unwrap().drawer_order, vec![9]);
    let r = recover("C:\\x".to_string(), ReadOutcome::<DrawerIndex>::Failed("denied".into()), ReadOutcome::Missing);
    assert!(matches!(r.result, Err(Error::Io { path, message }) if path == "C:\\x" && message == "denied"));
}
