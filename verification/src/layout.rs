//! Window geometry of the drawer grid and of dialogs, and the packing of
//! two 16-bit words into a message parameter.

use vstd::prelude::*;

use crate::text::push_char;

verus! {

/// A `u32` reinterpreted as an `i32` (two's complement).
pub open spec fn as_signed(u: u32) -> int {
    if u < 0x8000_0000 {
        u as int
    } else {
        u as int - 0x1_0000_0000
    }
}

/// The value fits in an `i32`.
pub open spec fn fits_i32(v: int) -> bool {
    i32::MIN <= v <= i32::MAX
}

fn signed(u: u32) -> (v: i64)
    ensures
        v as int == as_signed(u),
{
    if u < 0x8000_0000 {
        u as i64
    } else {
        u as i64 - 0x1_0000_0000
    }
}

/// Size of one grid cell for an icon size: the icon plus room for its label.
pub open spec fn spec_cell_size(icon_px: u32) -> (int, int) {
    (as_signed(icon_px) + 28, as_signed(icon_px) + 40)
}

/// Width and height of a grid cell.
pub fn cell_size(icon_px: u32) -> (r: (i32, i32))
    requires
        fits_i32(as_signed(icon_px) + 40),
    ensures
        r.0 as int == spec_cell_size(icon_px).0,
        r.1 as int == spec_cell_size(icon_px).1,
{
    let p = signed(icon_px);
    ((p + 28) as i32, (p + 40) as i32)
}

/// The margin around the grid inside the window.
pub const GRID_MARGIN: i32 = 8;

/// The top-left corner of cell (`col`, `row`).
pub open spec fn spec_cell_origin(col: u32, row: u32, icon_px: u32) -> (int, int) {
    (8 + as_signed(col) * spec_cell_size(icon_px).0, 8 + as_signed(row) * spec_cell_size(icon_px).1)
}

/// The top-left corner of a grid cell, in the window's client area.
pub fn cell_origin(col: u32, row: u32, icon_px: u32) -> (r: (i32, i32))
    requires
        fits_i32(as_signed(icon_px) + 40),
        fits_i32(as_signed(col) * spec_cell_size(icon_px).0),
        fits_i32(spec_cell_origin(col, row, icon_px).0),
        fits_i32(as_signed(row) * spec_cell_size(icon_px).1),
        fits_i32(spec_cell_origin(col, row, icon_px).1),
    ensures
        r.0 as int == spec_cell_origin(col, row, icon_px).0,
        r.1 as int == spec_cell_origin(col, row, icon_px).1,
{
    let (w, h) = cell_size(icon_px);
    let c = signed(col) as i32;
    let r = signed(row) as i32;
    let x = GRID_MARGIN + c * w;
    let y = GRID_MARGIN + r * h;
    (x, y)
}

/// The client-area size that fits a `cols` x `rows` grid exactly.
pub open spec fn spec_grid_client_size(cols: u32, rows: u32, icon_px: u32) -> (int, int) {
    (16 + as_signed(cols) * spec_cell_size(icon_px).0, 16 + as_signed(rows) * spec_cell_size(icon_px).1)
}

/// Size of the client area that fits the grid exactly.
pub fn grid_client_size(cols: u32, rows: u32, icon_px: u32) -> (r: (i32, i32))
    requires
        fits_i32(as_signed(icon_px) + 40),
        fits_i32(as_signed(cols) * spec_cell_size(icon_px).0),
        fits_i32(spec_grid_client_size(cols, rows, icon_px).0),
        fits_i32(as_signed(rows) * spec_cell_size(icon_px).1),
        fits_i32(spec_grid_client_size(cols, rows, icon_px).1),
    ensures
        r.0 as int == spec_grid_client_size(cols, rows, icon_px).0,
        r.1 as int == spec_grid_client_size(cols, rows, icon_px).1,
{
    let (cw, ch) = cell_size(icon_px);
    let c = signed(cols) as i32;
    let r = signed(rows) as i32;
    (GRID_MARGIN * 2 + c * cw, GRID_MARGIN * 2 + r * ch)
}

/// Two 16-bit words packed into a 32-bit message parameter, `hi` above
/// `lo`, read back as a signed value.
pub open spec fn spec_pack_words(lo: i32, hi: i32) -> int {
    let packed = (hi as int % 0x10000) * 0x10000 + lo as int % 0x10000;
    if packed < 0x8000_0000 {
        packed
    } else {
        packed - 0x1_0000_0000
    }
}

/// Packs two coordinates the way `MAKELPARAM` does (the low 16 bits of each).
pub fn pack_words(lo: i32, hi: i32) -> (p: isize)
    ensures
        p as int == spec_pack_words(lo, hi),
{
    let l: i64 = (lo as i64) % 0x10000;
    let l: i64 = if l < 0 { l + 0x10000 } else { l };
    let h: i64 = (hi as i64) % 0x10000;
    let h: i64 = if h < 0 { h + 0x10000 } else { h };
    assert(l as int == lo as int % 0x10000) by {
        assert((lo as i64) % 0x10000 == (lo as int) % 0x10000 || (lo as i64) % 0x10000 < 0);
    }
    let packed = h * 0x10000 + l;
    if packed < 0x8000_0000 {
        packed as isize
    } else {
        (packed - 0x1_0000_0000) as isize
    }
}

/// Truncating halving, as `i32` division by two does.
pub open spec fn half_toward_zero(v: int) -> int {
    if v >= 0 {
        v / 2
    } else {
        -((-v) / 2)
    }
}

/// Where `ensure_on_screen` moves a window: along each axis, a window that
/// sticks out of the virtual screen is centred on it (flush with its start
/// when it is larger).
pub open spec fn spec_fit_axis(start: int, size: int, screen_start: int, screen_size: int) -> int {
    if start < screen_start || start + size > screen_start + screen_size {
        screen_start + (if screen_size - size > 0 { screen_size - size } else { 0 }) / 2
    } else {
        start
    }
}

/// One axis of `ensure_on_screen`.
fn fit_axis(start: i32, size: i32, screen_start: i32, screen_size: i32) -> (r: i32)
    requires
        fits_i32(start + size),
        fits_i32(screen_start + screen_size),
        fits_i32(screen_size - size),
        fits_i32(spec_fit_axis(start as int, size as int, screen_start as int, screen_size as int)),
    ensures
        r as int == spec_fit_axis(start as int, size as int, screen_start as int, screen_size as int),
{
    if start < screen_start || start + size > screen_start + screen_size {
        let room = screen_size - size;
        let room = if room > 0 { room } else { 0 };
        screen_start + room / 2
    } else {
        start
    }
}

/// Keep a window within the virtual screen. Given the window's rectangle and
/// the virtual screen's origin and size, returns the new top-left corner, or
/// `None` when the window stays where it is.
pub fn ensure_on_screen(
    left: i32,
    top: i32,
    right: i32,
    bottom: i32,
    vx: i32,
    vy: i32,
    vw: i32,
    vh: i32,
) -> (r: Option<(i32, i32)>)
    requires
        fits_i32(right - left),
        fits_i32(bottom - top),
        fits_i32(left + (right - left)),
        fits_i32(top + (bottom - top)),
        fits_i32(vx + vw),
        fits_i32(vy + vh),
        fits_i32(vw - (right - left)),
        fits_i32(vh - (bottom - top)),
        fits_i32(spec_fit_axis(left as int, right - left, vx as int, vw as int)),
        fits_i32(spec_fit_axis(top as int, bottom - top, vy as int, vh as int)),
    ensures
        ({
            let x = spec_fit_axis(left as int, right - left, vx as int, vw as int);
            let y = spec_fit_axis(top as int, bottom - top, vy as int, vh as int);
            if x == left && y == top {
                r is None
            } else {
                r matches Some(p) && p.0 as int == x && p.1 as int == y
            }
        }),
{
    let x = fit_axis(left, right - left, vx, vw);
    let y = fit_axis(top, bottom - top, vy, vh);
    if x == left && y == top {
        None
    } else {
        Some((x, y))
    }
}

/// Where a dialog goes to sit centred over its parent (never left of or
/// above the screen origin).
pub open spec fn spec_center_over(p_left: int, p_top: int, p_right: int, p_bottom: int, w: int, h: int) -> (int, int) {
    let x = p_left + half_toward_zero((p_right - p_left) - w);
    let y = p_top + half_toward_zero((p_bottom - p_top) - h);
    (if x > 0 { x } else { 0 }, if y > 0 { y } else { 0 })
}

fn halve(v: i32) -> (r: i32)
    requires
        v > i32::MIN,
    ensures
        r as int == half_toward_zero(v as int),
{
    if v >= 0 {
        v / 2
    } else {
        -((-v) / 2)
    }
}

/// The top-left corner that centres a window of the given rectangle over
/// its parent's rectangle.
pub fn center_over(
    p_left: i32,
    p_top: i32,
    p_right: i32,
    p_bottom: i32,
    w_left: i32,
    w_top: i32,
    w_right: i32,
    w_bottom: i32,
) -> (r: (i32, i32))
    requires
        fits_i32(w_right - w_left),
        fits_i32(w_bottom - w_top),
        fits_i32(p_right - p_left),
        fits_i32(p_bottom - p_top),
        (p_right - p_left) - (w_right - w_left) > i32::MIN,
        (p_bottom - p_top) - (w_bottom - w_top) > i32::MIN,
        fits_i32((p_right - p_left) - (w_right - w_left)),
        fits_i32((p_bottom - p_top) - (w_bottom - w_top)),
        fits_i32(p_left + half_toward_zero((p_right - p_left) - (w_right - w_left))),
        fits_i32(p_top + half_toward_zero((p_bottom - p_top) - (w_bottom - w_top))),
    ensures
        r.0 as int == spec_center_over(
            p_left as int,
            p_top as int,
            p_right as int,
            p_bottom as int,
            w_right - w_left,
            w_bottom - w_top,
        ).0,
        r.1 as int == spec_center_over(
            p_left as int,
            p_top as int,
            p_right as int,
            p_bottom as int,
            w_right - w_left,
            w_bottom - w_top,
        ).1,
{
    let w = w_right - w_left;
    let h = w_bottom - w_top;
    let x = p_left + halve((p_right - p_left) - w);
    let y = p_top + halve((p_bottom - p_top) - h);
    (if x > 0 { x } else { 0 }, if y > 0 { y } else { 0 })
}

/// The decimal digits of `n`.
pub open spec fn decimal(n: nat) -> Seq<char>
    decreases n,
{
    if n < 10 {
        seq![(n + 48) as char]
    } else {
        decimal(n / 10) + seq![((n % 10) + 48) as char]
    }
}

/// Appends the decimal digits of `n`.
fn push_decimal(s: &mut String, n: usize)
    ensures
        final(s)@ == old(s)@ + decimal(n as nat),
    decreases n,
{
    if n >= 10 {
        push_decimal(s, n / 10);
    }
    let d = (n % 10) as u32;
    let c: char = if d == 0 {
        '0'
    } else if d == 1 {
        '1'
    } else if d == 2 {
        '2'
    } else if d == 3 {
        '3'
    } else if d == 4 {
        '4'
    } else if d == 5 {
        '5'
    } else if d == 6 {
        '6'
    } else if d == 7 {
        '7'
    } else if d == 8 {
        '8'
    } else {
        '9'
    };
    assert(c == ((n as nat % 10) + 48) as char);
    push_char(s, c);
}

/// The manager's item count column: `1 item`, `5 items`.
pub fn item_count_label(count: usize) -> (s: String)
    ensures
        s@ == decimal(count as nat) + if count == 1 {
            " item"@
        } else {
            " items"@
        },
{
    let mut s = String::new();
    push_decimal(&mut s, count);
    if count == 1 {
        s.append(" item");
    } else {
        s.append(" items");
    }
    s
}

} // verus!
