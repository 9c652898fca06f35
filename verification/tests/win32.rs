use desktopdrawers::win32::{from_wide, get_x_lparam, get_y_lparam, wide};

#[test]
fn wide_appends_nul_and_matches_std() {
    for s in ["", "DesktopDrawers", "Émulation", "𝄞 music", "日本語"] {
        let mut expected: Vec<u16> = s.encode_utf16().collect();
        expected.push(0);
        assert_eq!(wide(s), expected);
        assert_eq!(from_wide(&wide(s)), s);
    }
}

#[test]
fn from_wide_stops_at_nul_and_replaces_lone_surrogates() {
    assert_eq!(from_wide(&[0x41, 0x42, 0, 0x43]), "AB");
    assert_eq!(from_wide(&[0x41, 0x42]), "AB");
    assert_eq!(from_wide(&[0xD800, 0x41]), "\u{FFFD}A");
    assert_eq!(from_wide(&[0xDC00]), "\u{FFFD}");
    assert_eq!(from_wide(&[0xD834, 0xDD1E]), "𝄞");
    let buf = [0xD834u16, 0xD834, 0xDD1E, 0x61];
    assert_eq!(from_wide(&buf), String::from_utf16_lossy(&buf));
}

#[test]
fn lparam_coordinates_are_signed_words() {
    let lp: isize = ((-5i32 as u32 as isize & 0xFFFF) << 16) | (300 & 0xFFFF);
    assert_eq!(get_x_lparam(lp), 300);
    assert_eq!(get_y_lparam(lp), -5);
    assert_eq!(get_x_lparam(0xFFFF), -1);
    assert_eq!(get_y_lparam(0x7FFF_0000), 32767);
    assert_eq!(get_x_lparam(-1), -1);
}
