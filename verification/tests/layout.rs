use desktopdrawers::layout::{
    cell_origin, cell_size, center_over, ensure_on_screen, grid_client_size, item_count_label,
    pack_words,
};

#[test]
fn grid_geometry_for_each_icon_size() {
    assert_eq!(cell_size(48), (76, 88));
    assert_eq!(cell_size(32), (60, 72));
    assert_eq!(cell_size(64), (92, 104));
    assert_eq!(cell_origin(0, 0, 48), (8, 8));
    assert_eq!(cell_origin(2, 1, 48), (160, 96));
    assert_eq!(grid_client_size(4, 3, 48), (320, 280));
    assert_eq!(grid_client_size(1, 1, 32), (76, 88));
}

#[test]
fn words_pack_like_makelparam() {
    assert_eq!(pack_words(10, 20), 20 * 65536 + 10);
    assert_eq!(pack_words(0, 0), 0);
    assert_eq!(pack_words(-1, 0), 0xFFFF);
    assert_eq!(pack_words(-1, -1), -1);
    assert_eq!(pack_words(0x12345, 0), 0x2345);
    assert_eq!(pack_words(0, 0x7FFF), 0x7FFF_0000);
    assert_eq!(pack_words(0, 0x8000), 0x8000_0000u32 as i32 as isize);
}

#[test]
fn windows_are_kept_on_the_virtual_screen() {
    // Fully visible: stays.
    assert_eq!(ensure_on_screen(100, 100, 300, 200, 0, 0, 1920, 1080), None);
    // Off the left edge: centred horizontally, vertical position kept.
    assert_eq!(ensure_on_screen(-50, 10, 150, 110, 0, 0, 1920, 1080), Some((860, 10)));
    // Off the bottom on a screen that starts left of zero.
    assert_eq!(
        ensure_on_screen(0, 1000, 200, 1200, -1920, 0, 3840, 1080),
        Some((0, 440))
    );
    // Wider than the screen: flush with its start.
    assert_eq!(ensure_on_screen(-10, 0, 2990, 100, 0, 0, 1920, 1080), Some((0, 0)));
    assert_eq!(ensure_on_screen(0, 0, 3000, 100, 0, 0, 1920, 1080), None);
}

#[test]
fn dialogs_centre_over_their_parent() {
    assert_eq!(center_over(100, 100, 500, 400, 0, 0, 200, 100), (200, 200));
    // Never left of or above the origin.
    assert_eq!(center_over(0, 0, 100, 100, 0, 0, 300, 300), (0, 0));
    // Odd negative room halves toward zero.
    assert_eq!(center_over(10, 10, 20, 20, 0, 0, 13, 13), (9, 9));
}

#[test]
fn item_counts_are_pluralised() {
    assert_eq!(item_count_label(0), "0 items");
    assert_eq!(item_count_label(1), "1 item");
    assert_eq!(item_count_label(2), "2 items");
    assert_eq!(item_count_label(12), "12 items");
    assert_eq!(item_count_label(1000), "1000 items");
}
