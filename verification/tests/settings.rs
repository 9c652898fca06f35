use desktopdrawers::model::{Drawer, IconSize, Item};
use desktopdrawers::settings::{icon_size_at, icon_size_index, new_drawer_params, parse_grid_count};

#[test]
fn grid_counts_follow_integer_parsing() {
    assert_eq!(parse_grid_count("4"), Some(4));
    assert_eq!(parse_grid_count("  16 "), Some(16));
    assert_eq!(parse_grid_count("+3"), Some(3));
    assert_eq!(parse_grid_count("007"), Some(7));
    assert_eq!(parse_grid_count("0"), None);
    assert_eq!(parse_grid_count("17"), None);
    assert_eq!(parse_grid_count("-1"), None);
    assert_eq!(parse_grid_count("3x"), None);
    assert_eq!(parse_grid_count(""), None);
    assert_eq!(parse_grid_count("+"), None);
    assert_eq!(parse_grid_count("99999999999999999999"), None);
}

#[test]
fn icon_size_selection() {
    assert_eq!(icon_size_at(-1), IconSize::Small);
    assert_eq!(icon_size_at(2), IconSize::Large);
    assert_eq!(icon_size_at(9), IconSize::Medium);
    assert_eq!(icon_size_index(48), 1);
    assert_eq!(icon_size_index(100), 3);
}

#[test]
fn create_dialog_validation() {
    let p = new_drawer_params("  Emulation ", "4", "3", 1, true).unwrap();
    assert_eq!(p.name, "Emulation");
    assert_eq!((p.columns, p.rows), (4, 3));
    assert_eq!(p.icon_size, IconSize::Medium);
    assert!(p.create_desktop_shortcut);
    assert!(new_drawer_params("   ", "4", "3", 1, false).is_none());
    assert!(new_drawer_params("A", "0", "3", 1, false).is_none());
    assert!(new_drawer_params("A", "4", "x", 1, false).is_none());
}

#[test]
fn apply_settings_clamps_items_into_the_grid() {
    let mut d = Drawer::new("Grid".to_string(), 4, 4, IconSize::Medium);
    d.items.push(Item { id: 1, shortcut: "a".into(), display_name: "A".into(), column: 3, row: 3 });
    d.items.push(Item { id: 2, shortcut: "b".into(), display_name: "B".into(), column: 1, row: 0 });
    d.apply_settings(Some(2), None, IconSize::Huge, false);
    assert_eq!((d.columns, d.rows, d.icon_size, d.show_labels), (2, 4, 96, false));
    assert_eq!((d.items[0].column, d.items[0].row), (1, 3));
    assert_eq!((d.items[1].column, d.items[1].row), (1, 0));
    d.apply_settings(None, Some(1), IconSize::Small, true);
    assert_eq!((d.items[0].column, d.items[0].row), (1, 0));
}
