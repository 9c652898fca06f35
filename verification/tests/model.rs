use desktopdrawers::model::copy_name;
use desktopdrawers::error::Error;
use desktopdrawers::model::{Drawer, DrawerIndex, IconSize, Item, SCHEMA_VERSION};
use uuid::Uuid;

fn new_id() -> u128 {
    Uuid::new_v4().as_u128()
}

fn drawer() -> Drawer {
    Drawer::new("Test".to_string(), 3, 2, IconSize::Medium)
}

fn cells(d: &Drawer) -> Vec<(u32, u32)> {
    d.items.iter().map(|i| (i.column, i.row)).collect()
}

fn item(name: &str, column: u32, row: u32) -> Item {
    Item {
        id: new_id(),
        shortcut: format!("{name}.lnk"),
        display_name: name.to_string(),
        column,
        row,
    }
}

#[test]
fn fills_next_free_cell() {
    let mut d = drawer();
    d.add_item("a.lnk".into(), "A".into(), new_id()).unwrap();
    d.add_item("b.lnk".into(), "B".into(), new_id()).unwrap();
    assert_eq!((d.items[0].column, d.items[0].row), (0, 0));
    assert_eq!((d.items[1].column, d.items[1].row), (1, 0));
}

#[test]
fn grid_full_errors() {
    let mut d = Drawer::new("Tiny".to_string(), 1, 1, IconSize::Small);
    d.add_item("a.lnk".into(), "A".into(), new_id()).unwrap();
    assert!(d.add_item("b.lnk".into(), "B".into(), new_id()).is_err());
}

#[test]
fn sort_by_name_orders_items() {
    let mut d = drawer();
    d.add_item("z.lnk".into(), "Zebra".into(), new_id()).unwrap();
    d.add_item("a.lnk".into(), "Apple".into(), new_id()).unwrap();
    d.sort_by_name();
    assert_eq!(d.items[0].display_name, "Apple");
    assert_eq!((d.items[0].column, d.items[0].row), (0, 0));
}

#[test]
fn duplicate_gets_new_id() {
    let d = drawer();
    let dup = d.duplicated("Copy".to_string());
    assert_ne!(d.id, dup.id);
    assert_eq!(dup.name, "Copy");
}

#[test]
fn icon_size_roundtrips() {
    assert_eq!(IconSize::from_px(48), IconSize::Medium);
    assert_eq!(IconSize::Large.px(), 64);
}

#[test]
fn icon_size_boundaries_and_labels() {
    assert_eq!(IconSize::from_px(0), IconSize::Small);
    assert_eq!(IconSize::from_px(39), IconSize::Small);
    assert_eq!(IconSize::from_px(40), IconSize::Medium);
    assert_eq!(IconSize::from_px(55), IconSize::Medium);
    assert_eq!(IconSize::from_px(56), IconSize::Large);
    assert_eq!(IconSize::from_px(79), IconSize::Large);
    assert_eq!(IconSize::from_px(80), IconSize::Huge);
    assert_eq!(IconSize::from_px(u32::MAX), IconSize::Huge);
    for s in IconSize::ALL {
        assert_eq!(IconSize::from_px(s.px()), s);
    }
    let labels: Vec<&str> = IconSize::ALL.iter().map(|s| s.label()).collect();
    assert_eq!(labels, ["Small", "Medium", "Large", "Huge"]);
    assert_eq!(IconSize::Small.px(), 32);
    assert_eq!(IconSize::Huge.px(), 96);
}

#[test]
fn new_drawer_clamps_grid_and_is_empty() {
    let d = Drawer::new("Zero".to_string(), 0, 0, IconSize::Huge);
    assert_eq!((d.columns, d.rows), (1, 1));
    assert_eq!(d.icon_size, 96);
    assert_eq!(d.schema_version, SCHEMA_VERSION);
    assert!(d.show_labels);
    assert!(!d.layout_locked);
    assert!(d.window_position.is_none());
    assert!(d.items.is_empty());
    let u = Uuid::from_u128(d.id);
    assert_eq!(u.get_version_num(), 4);
}

#[test]
fn next_free_cell_fills_gaps_in_reading_order() {
    let mut d = drawer();
    d.items.push(item("a", 0, 0));
    d.items.push(item("b", 2, 0));
    d.items.push(item("c", 0, 1));
    assert_eq!(d.next_free_cell(), Some((1, 0)));
    d.items.push(item("d", 1, 0));
    assert_eq!(d.next_free_cell(), Some((1, 1)));
    d.items.push(item("e", 1, 1));
    d.items.push(item("f", 2, 1));
    assert_eq!(d.next_free_cell(), None);
    let before = cells(&d);
    assert!(matches!(d.add_item("g.lnk".into(), "G".into(), new_id()), Err(Error::GridFull)));
    assert_eq!(cells(&d), before);
}

#[test]
fn add_then_remove_restores_items() {
    let mut d = drawer();
    d.add_item("a.lnk".into(), "A".into(), new_id()).unwrap();
    let id = new_id();
    d.add_item("b.lnk".into(), "B".into(), id).unwrap();
    let removed = d.remove_item(id).unwrap();
    assert_eq!(removed.display_name, "B");
    assert_eq!((removed.column, removed.row), (1, 0));
    assert_eq!(d.items.len(), 1);
    assert!(d.remove_item(id).is_none());
    assert_eq!(d.items.len(), 1);
}

#[test]
fn fills_reflow_in_both_directions() {
    let mut d = Drawer::new("Grid".to_string(), 3, 2, IconSize::Small);
    for (i, n) in ["a", "b", "c", "d", "e"].iter().enumerate() {
        d.items.push(item(n, 2, i as u32));
    }
    d.fill_left_to_right();
    assert_eq!(cells(&d), vec![(0, 0), (1, 0), (2, 0), (0, 1), (1, 1)]);
    d.fill_top_to_bottom();
    assert_eq!(cells(&d), vec![(0, 0), (0, 1), (1, 0), (1, 1), (2, 0)]);
    let names: Vec<&str> = d.items.iter().map(|i| i.display_name.as_str()).collect();
    assert_eq!(names, ["a", "b", "c", "d", "e"]);
}

#[test]
fn remove_empty_spaces_packs_in_reading_order() {
    let mut d = Drawer::new("Gaps".to_string(), 3, 3, IconSize::Small);
    d.items.push(item("late", 2, 2));
    d.items.push(item("first", 1, 0));
    d.items.push(item("mid", 0, 1));
    d.remove_empty_spaces();
    let names: Vec<&str> = d.items.iter().map(|i| i.display_name.as_str()).collect();
    assert_eq!(names, ["first", "mid", "late"]);
    assert_eq!(cells(&d), vec![(0, 0), (1, 0), (2, 0)]);
}

#[test]
fn sort_by_name_ignores_case_and_is_stable() {
    let mut d = Drawer::new("Names".to_string(), 2, 3, IconSize::Small);
    d.items.push(item("beta", 0, 0));
    d.items.push(item("Alpha", 1, 0));
    d.items.push(item("BETA", 0, 1));
    d.items.push(item("alpha", 1, 1));
    d.sort_by_name();
    let names: Vec<&str> = d.items.iter().map(|i| i.display_name.as_str()).collect();
    assert_eq!(names, ["Alpha", "alpha", "beta", "BETA"]);
    assert_eq!(cells(&d), vec![(0, 0), (1, 0), (0, 1), (1, 1)]);
}

#[test]
fn duplicate_keeps_layout_and_items() {
    let mut d = drawer();
    d.add_item("Items/x.lnk".into(), "X".into(), new_id()).unwrap();
    d.layout_locked = true;
    let dup = d.duplicated("Other".to_string());
    assert_eq!(dup.items.len(), 1);
    assert_eq!(dup.items[0].shortcut, "Items/x.lnk");
    assert_eq!((dup.columns, dup.rows, dup.icon_size), (3, 2, 48));
    assert!(dup.layout_locked);
    assert!(dup.window_position.is_none());
}

#[test]
fn default_index_is_empty() {
    let idx = DrawerIndex::default();
    assert_eq!(idx.schema_version, SCHEMA_VERSION);
    assert!(idx.drawer_order.is_empty());
    assert_eq!(desktopdrawers::model::default_schema(), 1);
    assert!(desktopdrawers::model::default_true());
}

#[test]
fn duplicates_are_named_as_copies_under_new_ids() {
    assert_eq!(copy_name("Games"), "Games (copy)");
    assert_eq!(copy_name(""), " (copy)");
    let d = Drawer::new("Games".into(), 3, 2, IconSize::Medium);
    for _ in 0..100 {
        let dup = d.duplicated(copy_name(&d.name));
        assert_ne!(dup.id, d.id);
        assert_eq!(Uuid::from_u128(dup.id).get_version_num(), 4);
        assert_eq!(dup.name, "Games (copy)");
    }
}
