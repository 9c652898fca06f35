//! The values entered in the "Create Drawer" and "Drawer Settings" dialogs:
//! validating them and applying them to a drawer.

use vstd::prelude::*;

use crate::model::{placed, within_grid, Drawer, IconSize, Item};
use crate::text::{chars_of, string_of, trim_chars, trimmed};

verus! {

/// The character is an ASCII decimal digit.
pub open spec fn is_digit(c: char) -> bool {
    '0' <= c <= '9'
}

/// The number written by a string of decimal digits.
pub open spec fn digits_value(d: Seq<char>) -> nat
    decreases d.len(),
{
    if d.len() == 0 {
        0
    } else {
        digits_value(d.drop_last()) * 10 + ((d.last() as u32) - 48) as nat
    }
}

/// Every character is a decimal digit.
pub open spec fn all_digits(d: Seq<char>) -> bool {
    forall|i: int| 0 <= i < d.len() ==> is_digit(#[trigger] d[i])
}

/// The text after an optional leading `+`.
pub open spec fn unsigned_digits(s: Seq<char>) -> Seq<char> {
    if s.len() > 0 && s[0] == '+' {
        s.drop_first()
    } else {
        s
    }
}

/// What `str::parse::<u32>` accepts: an optional `+`, then one or more
/// decimal digits whose value fits in 32 bits.
pub open spec fn parse_u32(s: Seq<char>) -> Option<u32> {
    let d = unsigned_digits(s);
    if d.len() > 0 && all_digits(d) && digits_value(d) <= u32::MAX {
        Some(digits_value(d) as u32)
    } else {
        None
    }
}

/// A row or column count typed into a dialog: surrounding white space is
/// ignored, and only whole numbers from 1 to 16 are accepted.
pub open spec fn spec_grid_count(s: Seq<char>) -> Option<u32> {
    match parse_u32(trimmed(s)) {
        Some(n) => if 1 <= n <= 16 {
            Some(n)
        } else {
            None
        },
        None => None,
    }
}

/// Parses a number the way `str::parse::<u32>` does.
pub fn parse_u32_chars(s: &Vec<char>) -> (r: Option<u32>)
    ensures
        r == parse_u32(s@),
{
    let start: usize = if s.len() > 0 && s[0] == '+' { 1 } else { 0 };
    let ghost d = unsigned_digits(s@);
    assert(d =~= s@.subrange(start as int, s@.len() as int));
    if start == s.len() {
        return None;
    }
    let mut acc: u64 = 0;
    let mut i: usize = start;
    while i < s.len()
        invariant
            start <= i <= s@.len(),
            d == s@.subrange(start as int, s@.len() as int),
            d == unsigned_digits(s@),
            forall|k: int| start <= k < i ==> is_digit(#[trigger] s@[k]),
            acc as int == if digits_value(s@.subrange(start as int, i as int)) > u32::MAX {
                u32::MAX + 1
            } else {
                digits_value(s@.subrange(start as int, i as int)) as int
            },
        decreases s@.len() - i,
    {
        let c = s[i];
        if !('0' <= c && c <= '9') {
            assert(d[i - start] == s@[i as int]);
            assert(!is_digit(d[i - start]));
            return None;
        }
        let digit = (c as u32 - 48) as u64;
        let ghost prev = s@.subrange(start as int, i as int);
        assert(s@.subrange(start as int, i + 1).drop_last() =~= prev);
        assert(digits_value(s@.subrange(start as int, i + 1)) == digits_value(prev) * 10 + digit);
        if acc <= 0xffff_ffff {
            acc = acc * 10 + digit;
            if acc > 0xffff_ffff {
                acc = 0x1_0000_0000;
            }
        } else {
            assert(digits_value(prev) * 10 + digit > u32::MAX) by (nonlinear_arith)
                requires digits_value(prev) > u32::MAX, digit >= 0;
        }
        i = i + 1;
    }
    assert(s@.subrange(start as int, s@.len() as int) == d);
    if acc <= 0xffff_ffff {
        Some(acc as u32)
    } else {
        None
    }
}

/// A row or column count typed into a dialog.
pub fn parse_grid_count(text: &str) -> (r: Option<u32>)
    ensures
        r == spec_grid_count(text@),
{
    let t = trim_chars(&chars_of(text));
    match parse_u32_chars(&t) {
        Some(n) => if 1 <= n && n <= 16 {
            Some(n)
        } else {
            None
        },
        None => None,
    }
}

/// The icon size picked in a dialog's size list: the selected entry of the
/// standard sizes, or Medium when the selection is out of range. A negative
/// selection (none) picks the first entry.
pub open spec fn spec_icon_size_at(selection: isize) -> IconSize {
    let i = if selection < 0 { 0 } else { selection as int };
    if i == 0 {
        IconSize::Small
    } else if i == 1 {
        IconSize::Medium
    } else if i == 2 {
        IconSize::Large
    } else if i == 3 {
        IconSize::Huge
    } else {
        IconSize::Medium
    }
}

/// The icon size at a list selection.
pub fn icon_size_at(selection: isize) -> (s: IconSize)
    ensures
        s == spec_icon_size_at(selection),
{
    let i: usize = if selection < 0 { 0 } else { selection as usize };
    if i < 4 {
        IconSize::ALL[i]
    } else {
        IconSize::Medium
    }
}

/// The list entry that shows a drawer's icon size: the position of the
/// standard size its pixel count falls into.
pub fn icon_size_index(icon_px: u32) -> (i: usize)
    ensures
        i < 4,
        spec_icon_size_at(i as isize) == IconSize::spec_from_px(icon_px),
{
    match IconSize::from_px(icon_px) {
        IconSize::Small => 0,
        IconSize::Medium => 1,
        IconSize::Large => 2,
        IconSize::Huge => 3,
    }
}

/// Parameters gathered from the "Create Drawer" dialog.
pub struct NewDrawerParams {
    pub name: String,
    pub columns: u32,
    pub rows: u32,
    pub icon_size: IconSize,
    pub create_desktop_shortcut: bool,
}

/// Validates the "Create Drawer" dialog: the name (trimmed) must not be
/// empty, and the column and row counts must be whole numbers from 1 to 16.
pub fn new_drawer_params(
    name_text: &str,
    columns_text: &str,
    rows_text: &str,
    size_selection: isize,
    desktop_shortcut: bool,
) -> (r: Option<NewDrawerParams>)
    ensures
        r is Some <==> (trimmed(name_text@).len() > 0 && spec_grid_count(columns_text@) is Some
            && spec_grid_count(rows_text@) is Some),
        r matches Some(p) ==> {
            &&& p.name@ == trimmed(name_text@)
            &&& Some(p.columns) == spec_grid_count(columns_text@)
            &&& Some(p.rows) == spec_grid_count(rows_text@)
            &&& p.icon_size == spec_icon_size_at(size_selection)
            &&& p.create_desktop_shortcut == desktop_shortcut
        },
{
    let name = trim_chars(&chars_of(name_text));
    if name.len() == 0 {
        return None;
    }
    let columns = match parse_grid_count(columns_text) {
        Some(c) => c,
        None => return None,
    };
    let rows = match parse_grid_count(rows_text) {
        Some(r) => r,
        None => return None,
    };
    Some(NewDrawerParams {
        name: string_of(&name),
        columns,
        rows,
        icon_size: icon_size_at(size_selection),
        create_desktop_shortcut: desktop_shortcut,
    })
}

/// `v` lowered to at most `max`.
pub open spec fn at_most(v: u32, max: int) -> u32 {
    if v as int > max {
        max as u32
    } else {
        v
    }
}

impl Drawer {
    /// Applies the "Drawer Settings" dialog: new column and row counts where
    /// valid ones were entered, the icon size and label visibility; then every
    /// item that now lies outside the grid is pulled back to its last column
    /// or row. A grid left with no columns or rows must hold no items.
    pub fn apply_settings(&mut self, columns: Option<u32>, rows: Option<u32>, icon: IconSize, show_labels: bool)
        requires
            old(self).items@.len() > 0 ==> (match columns {
                Some(c) => c,
                None => old(self).columns,
            }) > 0 && (match rows {
                Some(r) => r,
                None => old(self).rows,
            }) > 0,
        ensures
            final(self).columns == match columns {
                Some(c) => c,
                None => old(self).columns,
            },
            final(self).rows == match rows {
                Some(r) => r,
                None => old(self).rows,
            },
            final(self).icon_size == icon.spec_px(),
            final(self).show_labels == show_labels,
            final(self).schema_version == old(self).schema_version,
            final(self).id == old(self).id,
            final(self).name == old(self).name,
            final(self).layout_locked == old(self).layout_locked,
            final(self).window_position == old(self).window_position,
            final(self).items@.len() == old(self).items@.len(),
            forall|i: int| 0 <= i < old(self).items@.len() ==> #[trigger] final(self).items@[i] == placed(
                old(self).items@[i],
                at_most(old(self).items@[i].column, final(self).columns - 1),
                at_most(old(self).items@[i].row, final(self).rows - 1),
            ),
            forall|i: int| 0 <= i < old(self).items@.len() ==> {
                &&& (old(self).items@[i].column >= final(self).columns ==> (#[trigger] final(self).items@[i]).column
                    == final(self).columns - 1)
                &&& (old(self).items@[i].column < final(self).columns ==> final(self).items@[i].column
                    == old(self).items@[i].column)
                &&& (old(self).items@[i].row >= final(self).rows ==> final(self).items@[i].row == final(self).rows
                    - 1)
                &&& (old(self).items@[i].row < final(self).rows ==> final(self).items@[i].row
                    == old(self).items@[i].row)
            },
    {
        match columns {
            Some(c) => self.columns = c,
            None => {},
        }
        match rows {
            Some(r) => self.rows = r,
            None => {},
        }
        self.icon_size = icon.px();
        self.show_labels = show_labels;
        let mc = self.columns;
        let mr = self.rows;
        let ghost orig = self.items@;
        let n = self.items.len();
        let mut i: usize = 0;
        while i < n
            invariant
                n == orig.len(),
                orig == old(self).items@,
                self.items@.len() == n,
                i <= n,
                mc == self.columns,
                mr == self.rows,
                n > 0 ==> mc > 0 && mr > 0,
                self.icon_size == icon.spec_px(),
                self.show_labels == show_labels,
                self.schema_version == old(self).schema_version,
                self.id == old(self).id,
                self.name == old(self).name,
                self.layout_locked == old(self).layout_locked,
                self.window_position == old(self).window_position,
                self.columns == match columns {
                    Some(c) => c,
                    None => old(self).columns,
                },
                self.rows == match rows {
                    Some(r) => r,
                    None => old(self).rows,
                },
                forall|k: int| 0 <= k < i ==> #[trigger] self.items@[k] == placed(
                    orig[k],
                    at_most(orig[k].column, mc - 1),
                    at_most(orig[k].row, mr - 1),
                ),
                forall|k: int| i <= k < n ==> #[trigger] self.items@[k] == orig[k],
            decreases n - i,
        {
            let mut it = self.items.remove(i);
            if it.column >= mc {
                it.column = mc - 1;
            }
            if it.row >= mr {
                it.row = mr - 1;
            }
            self.items.insert(i, it);
            i = i + 1;
        }
        proof {
            if n > 0 {
                law_apply_settings_clamps_to_last_cell(orig, self.items@, mc, mr);
            }
        }
    }
}

/// Applying settings pulls an item whose column (row) is beyond the new grid
/// back to the grid's last column (row), and leaves every coordinate that
/// still fits as it was; nothing else about an item changes.
pub proof fn law_apply_settings_clamps_to_last_cell(old_items: Seq<Item>, new_items: Seq<Item>, columns: u32, rows: u32)
    requires
        columns > 0,
        rows > 0,
        new_items.len() == old_items.len(),
        forall|i: int| 0 <= i < old_items.len() ==> #[trigger] new_items[i] == placed(
            old_items[i],
            at_most(old_items[i].column, columns - 1),
            at_most(old_items[i].row, rows - 1),
        ),
    ensures
        forall|i: int| 0 <= i < old_items.len() ==> {
            &&& (old_items[i].column >= columns ==> (#[trigger] new_items[i]).column == columns - 1)
            &&& (old_items[i].column < columns ==> new_items[i].column == old_items[i].column)
            &&& (old_items[i].row >= rows ==> new_items[i].row == rows - 1)
            &&& (old_items[i].row < rows ==> new_items[i].row == old_items[i].row)
            &&& new_items[i].id == old_items[i].id
            &&& new_items[i].shortcut == old_items[i].shortcut
            &&& new_items[i].display_name == old_items[i].display_name
        },
{
    assert forall|i: int| 0 <= i < old_items.len() implies {
        &&& (old_items[i].column >= columns ==> (#[trigger] new_items[i]).column == columns - 1)
        &&& (old_items[i].column < columns ==> new_items[i].column == old_items[i].column)
        &&& (old_items[i].row >= rows ==> new_items[i].row == rows - 1)
        &&& (old_items[i].row < rows ==> new_items[i].row == old_items[i].row)
        &&& new_items[i].id == old_items[i].id
        &&& new_items[i].shortcut == old_items[i].shortcut
        &&& new_items[i].display_name == old_items[i].display_name
    } by {
        assert(new_items[i] == placed(
            old_items[i],
            at_most(old_items[i].column, columns - 1),
            at_most(old_items[i].row, rows - 1),
        ));
    }
}

/// After applying settings that leave a non-empty grid, every item lies
/// inside it.
pub proof fn law_apply_settings_within_grid(old_items: Seq<Item>, new_items: Seq<Item>, columns: u32, rows: u32)
    requires
        columns > 0,
        rows > 0,
        new_items.len() == old_items.len(),
        forall|i: int| 0 <= i < old_items.len() ==> #[trigger] new_items[i] == placed(
            old_items[i],
            at_most(old_items[i].column, columns - 1),
            at_most(old_items[i].row, rows - 1),
        ),
    ensures
        within_grid(new_items, columns, rows),
{
    assert forall|i: int| 0 <= i < new_items.len() implies #[trigger] new_items[i].column < columns
        && new_items[i].row < rows by {
        assert(new_items[i] == placed(
            old_items[i],
            at_most(old_items[i].column, columns - 1),
            at_most(old_items[i].row, rows - 1),
        ));
    }
}

} // verus!
