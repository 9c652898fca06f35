use desktopdrawers::shortcut::item_display_name;
use desktopdrawers::shortcut::{
    drawer_shortcut, is_link_extension, managed_shortcut_names, sanitize_filename,
};

#[test]
fn sanitizes_bad_chars() {
    assert_eq!(sanitize_filename("Emu/lation:*?"), "Emu_lation___");
    assert_eq!(sanitize_filename("   "), "Drawer");
    assert_eq!(sanitize_filename("Games."), "Games");
}

#[test]
fn sanitize_handles_controls_dots_and_unicode_space() {
    assert_eq!(sanitize_filename("a\tb"), "a_b");
    assert_eq!(sanitize_filename("<>|\"\\"), "_____");
    assert_eq!(sanitize_filename("\u{3000}Jeux\u{a0}"), "Jeux");
    assert_eq!(sanitize_filename("a. ."), "a.");
    assert_eq!(sanitize_filename("..."), "Drawer");
    assert_eq!(sanitize_filename(""), "Drawer");
    assert_eq!(sanitize_filename("Émulation"), "Émulation");
}

#[test]
fn drawer_shortcut_names_file_and_arguments() {
    let s = drawer_shortcut("7dcf239e-5d4d-45af-8293-a354ee90d002", "Games: Retro.");
    assert_eq!(s.file_name, "Games_ Retro.lnk");
    assert_eq!(s.arguments, "--open \"7dcf239e-5d4d-45af-8293-a354ee90d002\"");
    assert_eq!(s.description, "Open the Games: Retro. drawer");
}

#[test]
fn link_extension_ignores_ascii_case_only() {
    assert!(is_link_extension("lnk"));
    assert!(is_link_extension("LNK"));
    assert!(is_link_extension("Lnk"));
    assert!(!is_link_extension("url"));
    assert!(!is_link_extension("lnkx"));
    assert!(!is_link_extension("ln"));
    assert!(!is_link_extension(""));
}

#[test]
fn managed_shortcuts_are_named_by_item_id() {
    let (file, rel) = managed_shortcut_names(0x7dcf_239e_5d4d_45af_8293_a354_ee90_d002);
    assert_eq!(file, "7dcf239e-5d4d-45af-8293-a354ee90d002.lnk");
    assert_eq!(rel, "Items/7dcf239e-5d4d-45af-8293-a354ee90d002.lnk");
}

#[test]
fn sanitized_names_are_never_empty_and_hold_only_allowed_characters() {
    for name in ["", " . ", "a<b>c", "\u{1}\u{1f}x", "con:", "???", "My Games", "..\\..\\up"] {
        let s = sanitize_filename(name);
        assert!(!s.is_empty(), "{name:?}");
        assert!(
            s.chars().all(|c| !"<>:\"/\\|?*".contains(c) && (c as u32) >= 0x20),
            "{name:?} -> {s:?}"
        );
    }
}

#[test]
fn added_items_are_named_after_the_file_stem() {
    assert_eq!(item_display_name(Some("Notepad".to_string())), "Notepad");
    assert_eq!(item_display_name(None), "Shortcut");
}
