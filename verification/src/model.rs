//! The drawer data model and its grid logic.

use vstd::prelude::*;

use crate::error::Error;
use crate::ids::{is_v4, new_id};
use crate::order::{is_stable_sort, law_stable_sort_permutes, lex_le, lex_le_exec, stable_sort_by_keys};
use crate::text::{chars_of, lowercase, string_of, to_lowercase, trim_chars, trimmed};

verus! {

/// Current on-disk schema version.
pub const SCHEMA_VERSION: u32 = 1;

/// Standard icon sizes offered in the UI (device-independent pixels).
#[derive(Debug, Clone, Copy, PartialEq, Eq, Structural)]
pub enum IconSize {
    Small,
    Medium,
    Large,
    Huge,
}

impl IconSize {
    /// Pixel size of each icon size.
    pub open spec fn spec_px(self) -> u32 {
        match self {
            IconSize::Small => 32,
            IconSize::Medium => 48,
            IconSize::Large => 64,
            IconSize::Huge => 96,
        }
    }

    /// The size class a pixel count falls into.
    pub open spec fn spec_from_px(px: u32) -> IconSize {
        if px <= 39 {
            IconSize::Small
        } else if px <= 55 {
            IconSize::Medium
        } else if px <= 79 {
            IconSize::Large
        } else {
            IconSize::Huge
        }
    }

    pub fn from_px(px: u32) -> (s: IconSize)
        ensures
            s == IconSize::spec_from_px(px),
    {
        if px <= 39 {
            IconSize::Small
        } else if px <= 55 {
            IconSize::Medium
        } else if px <= 79 {
            IconSize::Large
        } else {
            IconSize::Huge
        }
    }

    pub fn px(self) -> (p: u32)
        ensures
            p == self.spec_px(),
    {
        match self {
            IconSize::Small => 32,
            IconSize::Medium => 48,
            IconSize::Large => 64,
            IconSize::Huge => 96,
        }
    }

    pub const ALL: [IconSize; 4] = [IconSize::Small, IconSize::Medium, IconSize::Large, IconSize::Huge];

    pub fn label(self) -> (l: &'static str)
        ensures
            self == IconSize::Small ==> l@ == "Small"@,
            self == IconSize::Medium ==> l@ == "Medium"@,
            self == IconSize::Large ==> l@ == "Large"@,
            self == IconSize::Huge ==> l@ == "Huge"@,
    {
        match self {
            IconSize::Small => "Small",
            IconSize::Medium => "Medium",
            IconSize::Large => "Large",
            IconSize::Huge => "Huge",
        }
    }
}

/// Saved window position, including which monitor it was on.
pub struct WindowPosition {
    pub x: i32,
    pub y: i32,
    pub monitor: String,
}

impl WindowPosition {
    /// An identical copy.
    pub fn copy(&self) -> (r: WindowPosition)
        ensures
            r == *self,
    {
        WindowPosition { x: self.x, y: self.y, monitor: self.monitor.clone() }
    }
}

/// A single shortcut inside a drawer. `shortcut` is a path relative to the
/// drawer directory (e.g. `Items/<uuid>.lnk`).
pub struct Item {
    pub id: u128,
    pub shortcut: String,
    pub display_name: String,
    pub column: u32,
    pub row: u32,
}

impl Item {
    /// An identical copy.
    pub fn copy(&self) -> (r: Item)
        ensures
            r == *self,
    {
        Item {
            id: self.id,
            shortcut: self.shortcut.clone(),
            display_name: self.display_name.clone(),
            column: self.column,
            row: self.row,
        }
    }
}

/// A drawer: a fixed grid of shortcut items plus its window/layout settings.
pub struct Drawer {
    pub schema_version: u32,
    pub id: u128,
    pub name: String,
    pub columns: u32,
    pub rows: u32,
    pub icon_size: u32,
    pub show_labels: bool,
    pub layout_locked: bool,
    pub window_position: Option<WindowPosition>,
    pub items: Vec<Item>,
}

/// The top-level index: the order of the drawers, by id.
pub struct DrawerIndex {
    pub schema_version: u32,
    pub drawer_order: Vec<u128>,
}

/// The schema version a file gets when it does not state one.
pub fn default_schema() -> (v: u32)
    ensures
        v == SCHEMA_VERSION,
{
    SCHEMA_VERSION
}

/// Labels are shown unless a file says otherwise.
pub fn default_true() -> (b: bool)
    ensures
        b,
{
    true
}

impl DrawerIndex {
    /// An empty index at the current schema version.
    pub fn default() -> (idx: DrawerIndex)
        ensures
            idx.schema_version == SCHEMA_VERSION,
            idx.drawer_order@ == Seq::<u128>::empty(),
    {
        DrawerIndex { schema_version: SCHEMA_VERSION, drawer_order: Vec::new() }
    }
}

/// Some item sits in cell (`col`, `row`).
pub open spec fn occupied(items: Seq<Item>, col: u32, row: u32) -> bool {
    exists|i: int| 0 <= i < items.len() && #[trigger] items[i].column == col && items[i].row == row
}

/// Cell (`c1`, `r1`) comes before cell (`c2`, `r2`) in reading order
/// (left to right, then top to bottom).
pub open spec fn reads_before(c1: u32, r1: u32, c2: u32, r2: u32) -> bool {
    r1 < r2 || (r1 == r2 && c1 < c2)
}

/// (`col`, `row`) is the first free cell of a `columns` x `rows` grid in
/// reading order.
pub open spec fn first_free_cell(items: Seq<Item>, columns: u32, rows: u32, col: u32, row: u32) -> bool {
    &&& col < columns
    &&& row < rows
    &&& !occupied(items, col, row)
    &&& forall|c: u32, r: u32|
        c < columns && r < rows && reads_before(c, r, col, row) ==> #[trigger] occupied(items, c, r)
}

/// Every cell of a `columns` x `rows` grid holds an item.
pub open spec fn grid_full(items: Seq<Item>, columns: u32, rows: u32) -> bool {
    forall|c: u32, r: u32| c < columns && r < rows ==> #[trigger] occupied(items, c, r)
}

/// No two items share a cell.
pub open spec fn cells_distinct(items: Seq<Item>) -> bool {
    forall|i: int, j: int|
        0 <= i < j < items.len() ==> !(#[trigger] items[i].column == #[trigger] items[j].column
            && items[i].row == items[j].row)
}

/// Every item lies inside a `columns` x `rows` grid.
pub open spec fn within_grid(items: Seq<Item>, columns: u32, rows: u32) -> bool {
    forall|i: int| 0 <= i < items.len() ==> #[trigger] items[i].column < columns && items[i].row < rows
}

/// `it` moved to cell (`column`, `row`), everything else kept.
pub open spec fn placed(it: Item, column: u32, row: u32) -> Item {
    Item { id: it.id, shortcut: it.shortcut, display_name: it.display_name, column, row }
}

/// The `i`-th position as the 32-bit counter the reflow uses.
pub open spec fn slot(i: int) -> int {
    i % 0x1_0000_0000
}

/// Items placed in order filling rows left to right, `columns` to a row.
pub open spec fn reflow_left_to_right(s: Seq<Item>, columns: u32) -> Seq<Item> {
    Seq::new(
        s.len(),
        |i: int| placed(s[i], (slot(i) % columns as int) as u32, (slot(i) / columns as int) as u32),
    )
}

/// Items placed in order filling columns top to bottom, `rows` to a column.
pub open spec fn reflow_top_to_bottom(s: Seq<Item>, rows: u32) -> Seq<Item> {
    Seq::new(
        s.len(),
        |i: int| placed(s[i], (slot(i) / rows as int) as u32, (slot(i) % rows as int) as u32),
    )
}

/// Sort key of reading order: the row, then the column.
pub open spec fn cell_key(it: Item) -> Seq<u32> {
    seq![it.row, it.column]
}

/// Sort key of name order: the code points of the lowercased display name.
pub open spec fn name_key(it: Item) -> Seq<u32> {
    lowercase(it.display_name@).map_values(|c: char| c as u32)
}

/// The 32-bit counter steps by one and wraps to zero.
proof fn lemma_slot_next(i: int)
    requires
        i >= 0,
    ensures
        slot(i + 1) == if slot(i) == 0xffff_ffff { 0 } else { slot(i) + 1 },
{
    let m = 0x1_0000_0000int;
    vstd::arithmetic::div_mod::lemma_add_mod_noop(i, 1, m);
    vstd::arithmetic::div_mod::lemma_mod_bound(i, m);
    vstd::arithmetic::div_mod::lemma_small_mod(1, m as nat);
    if slot(i) == m - 1 {
        vstd::arithmetic::div_mod::lemma_mod_self_0(m);
    } else {
        vstd::arithmetic::div_mod::lemma_small_mod((slot(i) + 1) as nat, m as nat);
    }
}

/// The label a rename commits: the edited text trimmed; an edit left empty
/// is ignored.
pub fn edited_label(text: &str) -> (r: Option<String>)
    ensures
        r is Some <==> trimmed(text@).len() > 0,
        r matches Some(s) ==> s@ == trimmed(text@),
{
    let t = trim_chars(&chars_of(text));
    if t.len() == 0 {
        None
    } else {
        Some(string_of(&t))
    }
}

/// Name order as a key function.
pub open spec fn by_name() -> spec_fn(Item) -> Seq<u32> {
    |it: Item| name_key(it)
}

/// Reading order as a key function.
pub open spec fn by_cell() -> spec_fn(Item) -> Seq<u32> {
    |it: Item| cell_key(it)
}

/// The name-order key of an item.
fn name_key_of(it: &Item) -> (k: Vec<u32>)
    ensures
        k@ == name_key(*it),
{
    let lower = to_lowercase(it.display_name.as_str());
    let chars = chars_of(lower.as_str());
    let mut k: Vec<u32> = Vec::new();
    let mut i: usize = 0;
    while i < chars.len()
        invariant
            i <= chars@.len(),
            chars@ == lowercase(it.display_name@),
            k@ == chars@.subrange(0, i as int).map_values(|c: char| c as u32),
        decreases chars@.len() - i,
    {
        k.push(chars[i] as u32);
        assert(chars@.subrange(0, i + 1) =~= chars@.subrange(0, i as int).push(chars@[i as int]));
        assert(k@ =~= chars@.subrange(0, i + 1).map_values(|c: char| c as u32));
        i = i + 1;
    }
    assert(chars@.subrange(0, chars@.len() as int) =~= chars@);
    k
}

/// Sizing an icon to a standard size's own pixel count gives back that size.
pub proof fn law_icon_size_roundtrip(s: IconSize)
    ensures
        IconSize::spec_from_px(s.spec_px()) == s,
{
}

/// Adding an item in the first free cell never stacks it on another item:
/// if no two items shared a cell before, none do after.
pub proof fn law_add_item_keeps_cells_distinct(
    items: Seq<Item>,
    columns: u32,
    rows: u32,
    col: u32,
    row: u32,
    new_item: Item,
)
    requires
        cells_distinct(items),
        first_free_cell(items, columns, rows, col, row),
        new_item.column == col,
        new_item.row == row,
    ensures
        cells_distinct(items.push(new_item)),
        within_grid(items, columns, rows) ==> within_grid(items.push(new_item), columns, rows),
{
    let t = items.push(new_item);
    assert forall|i: int, j: int| 0 <= i < j < t.len() implies !(#[trigger] t[i].column
        == #[trigger] t[j].column && t[i].row == t[j].row) by {
        if j == items.len() {
            if t[i].column == col && t[i].row == row {
                assert(occupied(items, col, row));
            }
        }
    }
}

/// Removing the item just added under an id no other item has undoes the
/// addition: that item is the one found, and the rest are left as they were.
pub proof fn law_remove_undoes_add(items: Seq<Item>, new_item: Item)
    requires
        forall|k: int| 0 <= k < items.len() ==> (#[trigger] items[k]).id != new_item.id,
    ensures
        ({
            let t = items.push(new_item);
            let i = items.len() as int;
            &&& t[i].id == new_item.id
            &&& forall|k: int| 0 <= k < i ==> (#[trigger] t[k]).id != new_item.id
            &&& t[i] == new_item
            &&& t.remove(i) == items
        }),
{
    let t = items.push(new_item);
    assert(t.remove(items.len() as int) =~= items);
}

proof fn lemma_reflow_cell(i: int, n: int)
    requires
        0 <= i < 0x1_0000_0000,
        n > 0,
        n <= 0xffff_ffff,
    ensures
        slot(i) == i,
        0 <= i % n < n,
        0 <= i / n <= i,
        i == n * (i / n) + i % n,
{
    vstd::arithmetic::div_mod::lemma_small_mod(i as nat, 0x1_0000_0000nat);
    vstd::arithmetic::div_mod::lemma_fundamental_div_mod(i, n);
    vstd::arithmetic::div_mod::lemma_mod_bound(i, n);
    vstd::arithmetic::div_mod::lemma_div_pos_is_pos(i, n);
    vstd::arithmetic::div_mod::lemma_div_is_ordered_by_denominator(i, 1, n);
}

/// Reflowing left to right puts no two items in the same cell, as long as
/// the 32-bit position counter does not wrap.
pub proof fn law_fill_left_to_right_distinct(items: Seq<Item>, columns: u32)
    requires
        columns > 0,
        items.len() <= 0x1_0000_0000,
    ensures
        cells_distinct(reflow_left_to_right(items, columns)),
{
    let t = reflow_left_to_right(items, columns);
    let n = columns as int;
    assert forall|i: int, j: int| 0 <= i < j < t.len() implies !(#[trigger] t[i].column
        == #[trigger] t[j].column && t[i].row == t[j].row) by {
        lemma_reflow_cell(i, n);
        lemma_reflow_cell(j, n);
    }
}

/// Reflowing left to right keeps every item inside the grid when the items
/// fit in it (and the 32-bit position counter does not wrap).
pub proof fn law_fill_left_to_right_within_grid(items: Seq<Item>, columns: u32, rows: u32)
    requires
        columns > 0,
        items.len() <= columns * rows,
        items.len() <= 0x1_0000_0000,
    ensures
        within_grid(reflow_left_to_right(items, columns), columns, rows),
{
    let t = reflow_left_to_right(items, columns);
    let n = columns as int;
    assert forall|i: int| 0 <= i < t.len() implies #[trigger] t[i].column < columns && t[i].row
        < rows by {
        lemma_reflow_cell(i, n);
        assert(i / n < rows) by (nonlinear_arith)
            requires i < n * rows, i == n * (i / n) + i % n, 0 <= i % n, n > 0;
    }
}

/// Reflowing top to bottom puts no two items in the same cell, as long as
/// the 32-bit position counter does not wrap.
pub proof fn law_fill_top_to_bottom_distinct(items: Seq<Item>, rows: u32)
    requires
        rows > 0,
        items.len() <= 0x1_0000_0000,
    ensures
        cells_distinct(reflow_top_to_bottom(items, rows)),
{
    let t = reflow_top_to_bottom(items, rows);
    let n = rows as int;
    assert forall|i: int, j: int| 0 <= i < j < t.len() implies !(#[trigger] t[i].column
        == #[trigger] t[j].column && t[i].row == t[j].row) by {
        lemma_reflow_cell(i, n);
        lemma_reflow_cell(j, n);
    }
}

/// Reflowing top to bottom keeps every item inside the grid when the items
/// fit in it (and the 32-bit position counter does not wrap).
pub proof fn law_fill_top_to_bottom_within_grid(items: Seq<Item>, columns: u32, rows: u32)
    requires
        rows > 0,
        items.len() <= columns * rows,
        items.len() <= 0x1_0000_0000,
    ensures
        within_grid(reflow_top_to_bottom(items, rows), columns, rows),
{
    let t = reflow_top_to_bottom(items, rows);
    let n = rows as int;
    assert forall|i: int| 0 <= i < t.len() implies #[trigger] t[i].column < columns && t[i].row
        < rows by {
        lemma_reflow_cell(i, n);
        assert(i / n < columns) by (nonlinear_arith)
            requires i < columns * n, i == n * (i / n) + i % n, 0 <= i % n, n > 0;
    }
}

/// The code points of a text, in order.
pub open spec fn code_points(s: Seq<char>) -> Seq<u32> {
    s.map_values(|c: char| c as u32)
}

/// `a` sits in a cell that comes no later than `b`'s in reading order: an
/// earlier row, or the same row and a column no further right.
pub open spec fn cell_not_after(a: Item, b: Item) -> bool {
    a.row < b.row || (a.row == b.row && a.column <= b.column)
}

/// `new_items` are `sorted` in the same order, each with the same id, shortcut
/// and display name (only the cells may differ).
pub open spec fn same_items_in_order(new_items: Seq<Item>, sorted: Seq<Item>) -> bool {
    &&& new_items.len() == sorted.len()
    &&& forall|i: int| 0 <= i < sorted.len() ==> {
        &&& (#[trigger] new_items[i]).id == sorted[i].id
        &&& new_items[i].shortcut == sorted[i].shortcut
        &&& new_items[i].display_name == sorted[i].display_name
    }
}

/// Sorting by name orders the items by their whole lowercased display names:
/// for any two positions, the earlier item's lowercased name is
/// lexicographically no greater than the later one's, comparing every
/// character. The items are the drawer's own items, each once, rearranged.
pub proof fn law_sort_by_name_orders_whole_names(old_items: Seq<Item>, new_items: Seq<Item>, columns: u32)
    requires
        columns > 0,
        exists|sorted: Seq<Item>| {
            &&& is_stable_sort(sorted, old_items, by_name())
            &&& new_items == reflow_left_to_right(sorted, columns)
        },
    ensures
        new_items.len() == old_items.len(),
        forall|i: int, j: int|
            0 <= i < j < new_items.len() ==> lex_le(
                code_points(lowercase((#[trigger] new_items[i]).display_name@)),
                code_points(lowercase((#[trigger] new_items[j]).display_name@)),
            ),
        exists|sorted: Seq<Item>| {
            &&& sorted.to_multiset() == old_items.to_multiset()
            &&& same_items_in_order(new_items, sorted)
        },
{
    let sorted = choose|sorted: Seq<Item>| {
        &&& is_stable_sort(sorted, old_items, by_name())
        &&& new_items == reflow_left_to_right(sorted, columns)
    };
    law_stable_sort_permutes(sorted, old_items, by_name());
    sorted.to_multiset_ensures();
    old_items.to_multiset_ensures();
    assert(sorted.len() == old_items.len()) by {
        assert(sorted.to_multiset().len() == old_items.to_multiset().len());
    }
    assert forall|i: int, j: int| 0 <= i < j < new_items.len() implies lex_le(
        code_points(lowercase((#[trigger] new_items[i]).display_name@)),
        code_points(lowercase((#[trigger] new_items[j]).display_name@)),
    ) by {
        assert(lex_le(by_name()(sorted[i]), by_name()(sorted[j])));
        assert(by_name()(sorted[i]) =~= code_points(lowercase(new_items[i].display_name@)));
        assert(by_name()(sorted[j]) =~= code_points(lowercase(new_items[j].display_name@)));
    }
    assert(same_items_in_order(new_items, sorted));
}

/// Removing empty spaces keeps the items in the reading order of the cells
/// they were in: of any two, the earlier one came from a cell in an earlier
/// row, or in the same row no further right. The items are the drawer's own
/// items, each once, rearranged.
pub proof fn law_remove_empty_spaces_keeps_reading_order(old_items: Seq<Item>, new_items: Seq<Item>, columns: u32)
    requires
        columns > 0,
        exists|sorted: Seq<Item>| {
            &&& is_stable_sort(sorted, old_items, by_cell())
            &&& new_items == reflow_left_to_right(sorted, columns)
        },
    ensures
        new_items.len() == old_items.len(),
        exists|sorted: Seq<Item>| {
            &&& sorted.to_multiset() == old_items.to_multiset()
            &&& same_items_in_order(new_items, sorted)
            &&& forall|i: int, j: int|
                0 <= i < j < sorted.len() ==> cell_not_after(#[trigger] sorted[i], #[trigger] sorted[j])
        },
{
    let sorted = choose|sorted: Seq<Item>| {
        &&& is_stable_sort(sorted, old_items, by_cell())
        &&& new_items == reflow_left_to_right(sorted, columns)
    };
    law_stable_sort_permutes(sorted, old_items, by_cell());
    sorted.to_multiset_ensures();
    old_items.to_multiset_ensures();
    assert(sorted.len() == old_items.len()) by {
        assert(sorted.to_multiset().len() == old_items.to_multiset().len());
    }
    assert forall|i: int, j: int| 0 <= i < j < sorted.len() implies cell_not_after(
        #[trigger] sorted[i],
        #[trigger] sorted[j],
    ) by {
        reveal_with_fuel(lex_le, 3);
        let a = by_cell()(sorted[i]);
        let b = by_cell()(sorted[j]);
        assert(lex_le(a, b));
        assert(a == seq![sorted[i].row, sorted[i].column]);
        assert(b == seq![sorted[j].row, sorted[j].column]);
        assert(a.drop_first() =~= seq![sorted[i].column]);
        assert(b.drop_first() =~= seq![sorted[j].column]);
        assert(a.drop_first().drop_first() =~= Seq::<u32>::empty());
        assert(b.drop_first().drop_first() =~= Seq::<u32>::empty());
    }
    assert(same_items_in_order(new_items, sorted));
}

/// The name a duplicated drawer gets: the original name followed by
/// ` (copy)`.
pub fn copy_name(name: &str) -> (r: String)
    ensures
        r@ == name@ + " (copy)"@,
{
    let mut r = String::from_str(name);
    r.append(" (copy)");
    r
}

/// A fresh random id that differs from `taken`: on the (vanishingly rare)
/// draw of `taken` itself, one more is drawn, and should that collide too,
/// its lowest bit is flipped, which keeps it a version-4 id.
fn fresh_id_other_than(taken: u128) -> (id: u128)
    ensures
        is_v4(id),
        id != taken,
{
    let mut id = new_id();
    if id == taken {
        id = new_id();
    }
    if id == taken {
        let flipped = id ^ 1u128;
        assert(is_v4(flipped) && flipped != id) by (bit_vector)
            requires
                is_v4(id),
                flipped == id ^ 1u128,
        ;
        id = flipped;
    }
    id
}

impl Drawer {
    /// A fresh, empty drawer with a new random id.
    pub fn new(name: String, columns: u32, rows: u32, icon_size: IconSize) -> (d: Drawer)
        ensures
            d.schema_version == SCHEMA_VERSION,
            is_v4(d.id),
            d.name == name,
            d.columns == if columns >= 1 { columns } else { 1 },
            d.rows == if rows >= 1 { rows } else { 1 },
            d.icon_size == icon_size.spec_px(),
            d.show_labels,
            !d.layout_locked,
            d.window_position is None,
            d.items@ == Seq::<Item>::empty(),
    {
        Drawer {
            schema_version: SCHEMA_VERSION,
            id: new_id(),
            name,
            columns: if columns >= 1 { columns } else { 1 },
            rows: if rows >= 1 { rows } else { 1 },
            icon_size: icon_size.px(),
            show_labels: true,
            layout_locked: false,
            window_position: None,
            items: Vec::new(),
        }
    }

    /// Is the given cell occupied by some item?
    fn cell_occupied(&self, col: u32, row: u32) -> (b: bool)
        ensures
            b == occupied(self.items@, col, row),
    {
        let mut i: usize = 0;
        while i < self.items.len()
            invariant
                i <= self.items@.len(),
                forall|k: int| 0 <= k < i ==> !(#[trigger] self.items@[k].column == col && self.items@[k].row == row),
            decreases self.items@.len() - i,
        {
            if self.items[i].column == col && self.items[i].row == row {
                return true;
            }
            i = i + 1;
        }
        false
    }

    /// The first free cell scanning left to right, top to bottom, or `None`
    /// when every cell of the grid is taken.
    pub fn next_free_cell(&self) -> (r: Option<(u32, u32)>)
        ensures
            match r {
                Some((c, w)) => first_free_cell(self.items@, self.columns, self.rows, c, w),
                None => grid_full(self.items@, self.columns, self.rows),
            },
    {
        let mut row: u32 = 0;
        while row < self.rows
            invariant
                row <= self.rows,
                forall|c: u32, r: u32|
                    c < self.columns && r < row ==> #[trigger] occupied(self.items@, c, r),
            decreases self.rows - row,
        {
            let mut col: u32 = 0;
            while col < self.columns
                invariant
                    row < self.rows,
                    col <= self.columns,
                    forall|c: u32, r: u32|
                        c < self.columns && r < row ==> #[trigger] occupied(self.items@, c, r),
                    forall|c: u32| c < col ==> #[trigger] occupied(self.items@, c, row),
                decreases self.columns - col,
            {
                if !self.cell_occupied(col, row) {
                    return Some((col, row));
                }
                col = col + 1;
            }
            row = row + 1;
        }
        None
    }

    /// Adds an item in the next free cell, or fails with `GridFull` (leaving
    /// the drawer unchanged) when there is none.
    pub fn add_item(&mut self, shortcut: String, display_name: String, id: u128) -> (r: Result<(), Error>)
        ensures
            r is Err <==> grid_full(old(self).items@, old(self).columns, old(self).rows),
            r is Err ==> r == Err::<(), Error>(Error::GridFull) && *final(self) == *old(self),
            r is Ok ==> exists|c: u32, w: u32| {
                &&& first_free_cell(old(self).items@, old(self).columns, old(self).rows, c, w)
                &&& final(self).items@ == old(self).items@.push(
                    Item { id, shortcut, display_name, column: c, row: w },
                )
            },
            r is Ok ==> final(self).same_settings(*old(self)),
    {
        match self.next_free_cell() {
            None => Err(Error::GridFull),
            Some((col, row)) => {
                self.items.push(Item { id, shortcut, display_name, column: col, row });
                Ok(())
            },
        }
    }

    /// Renames the first item with this id; returns whether there was one.
    pub fn rename_item(&mut self, item_id: u128, name: String) -> (found: bool)
        ensures
            final(self).same_settings(*old(self)),
            found == exists|i: int| 0 <= i < old(self).items@.len() && (#[trigger] old(self).items@[i]).id == item_id,
            found ==> exists|i: int| {
                &&& 0 <= i < old(self).items@.len()
                &&& old(self).items@[i].id == item_id
                &&& forall|k: int| 0 <= k < i ==> (#[trigger] old(self).items@[k]).id != item_id
                &&& final(self).items@ == old(self).items@.update(
                    i,
                    Item { display_name: name, ..old(self).items@[i] },
                )
            },
            !found ==> final(self).items@ == old(self).items@,
    {
        let mut i: usize = 0;
        while i < self.items.len()
            invariant
                *self == *old(self),
                i <= self.items@.len(),
                forall|k: int| 0 <= k < i ==> (#[trigger] self.items@[k]).id != item_id,
            decreases self.items@.len() - i,
        {
            if self.items[i].id == item_id {
                let mut it = self.items.remove(i);
                it.display_name = name;
                self.items.insert(i, it);
                proof {
                    assert(self.items@ =~= old(self).items@.update(
                        i as int,
                        Item { display_name: name, ..old(self).items@[i as int] },
                    ));
                }
                return true;
            }
            i = i + 1;
        }
        false
    }

    /// Everything but the items is the same.
    pub open spec fn same_settings(self, other: Drawer) -> bool {
        &&& self.schema_version == other.schema_version
        &&& self.id == other.id
        &&& self.name == other.name
        &&& self.columns == other.columns
        &&& self.rows == other.rows
        &&& self.icon_size == other.icon_size
        &&& self.show_labels == other.show_labels
        &&& self.layout_locked == other.layout_locked
        &&& self.window_position == other.window_position
    }

    /// Removes the first item with this id and returns it, or returns `None`
    /// and leaves the drawer unchanged when there is none.
    pub fn remove_item(&mut self, id: u128) -> (r: Option<Item>)
        ensures
            final(self).same_settings(*old(self)),
            match r {
                Some(it) => exists|i: int| {
                    &&& 0 <= i < old(self).items@.len()
                    &&& old(self).items@[i].id == id
                    &&& forall|k: int| 0 <= k < i ==> (#[trigger] old(self).items@[k]).id != id
                    &&& it == old(self).items@[i]
                    &&& final(self).items@ == old(self).items@.remove(i)
                },
                None => {
                    &&& forall|k: int| 0 <= k < old(self).items@.len() ==> (#[trigger] old(self).items@[k]).id != id
                    &&& final(self).items@ == old(self).items@
                },
            },
    {
        let mut i: usize = 0;
        while i < self.items.len()
            invariant
                *self == *old(self),
                i <= self.items@.len(),
                forall|k: int| 0 <= k < i ==> (#[trigger] self.items@[k]).id != id,
            decreases self.items@.len() - i,
        {
            if self.items[i].id == id {
                return Some(self.items.remove(i));
            }
            i = i + 1;
        }
        None
    }

    /// Reflow items into cells filling left to right, keeping their order.
    pub fn fill_left_to_right(&mut self)
        requires
            old(self).columns > 0,
        ensures
            final(self).same_settings(*old(self)),
            final(self).items@ == reflow_left_to_right(old(self).items@, old(self).columns),
    {
        let cols = self.columns;
        let n = self.items.len();
        let ghost orig = self.items@;
        let mut idx: u32 = 0;
        let mut i: usize = 0;
        while i < n
            invariant
                n == orig.len(),
                self.items@.len() == n,
                i <= n,
                cols == old(self).columns,
                cols > 0,
                idx as int == slot(i as int),
                self.same_settings(*old(self)),
                forall|k: int| 0 <= k < i ==> #[trigger] self.items@[k] == reflow_left_to_right(orig, cols)[k],
                forall|k: int| i <= k < n ==> #[trigger] self.items@[k] == orig[k],
            decreases n - i,
        {
            let mut it = self.items.remove(i);
            it.column = idx % cols;
            it.row = idx / cols;
            self.items.insert(i, it);
            proof {
                assert(self.items@[i as int] == reflow_left_to_right(orig, cols)[i as int]);
            }
            idx = if idx == u32::MAX { 0 } else { idx + 1 };
            proof {
                lemma_slot_next(i as int);
            }
            i = i + 1;
        }
        proof {
            assert(self.items@ =~= reflow_left_to_right(orig, cols));
        }
    }
    /// Reflow items filling top to bottom, column by column, keeping their order.
    pub fn fill_top_to_bottom(&mut self)
        requires
            old(self).rows > 0,
        ensures
            final(self).same_settings(*old(self)),
            final(self).items@ == reflow_top_to_bottom(old(self).items@, old(self).rows),
    {
        let rows = self.rows;
        let n = self.items.len();
        let ghost orig = self.items@;
        let mut idx: u32 = 0;
        let mut i: usize = 0;
        while i < n
            invariant
                n == orig.len(),
                self.items@.len() == n,
                i <= n,
                rows == old(self).rows,
                rows > 0,
                idx as int == slot(i as int),
                self.same_settings(*old(self)),
                forall|k: int| 0 <= k < i ==> #[trigger] self.items@[k] == reflow_top_to_bottom(orig, rows)[k],
                forall|k: int| i <= k < n ==> #[trigger] self.items@[k] == orig[k],
            decreases n - i,
        {
            let mut it = self.items.remove(i);
            it.column = idx / rows;
            it.row = idx % rows;
            self.items.insert(i, it);
            proof {
                assert(self.items@[i as int] == reflow_top_to_bottom(orig, rows)[i as int]);
            }
            idx = if idx == u32::MAX { 0 } else { idx + 1 };
            proof {
                lemma_slot_next(i as int);
            }
            i = i + 1;
        }
        proof {
            assert(self.items@ =~= reflow_top_to_bottom(orig, rows));
        }
    }

    /// Sort items alphabetically by lowercased display name (stably), then
    /// reflow them left to right.
    pub fn sort_by_name(&mut self)
        requires
            old(self).columns > 0,
        ensures
            final(self).same_settings(*old(self)),
            exists|sorted: Seq<Item>| {
                &&& is_stable_sort(sorted, old(self).items@, by_name())
                &&& final(self).items@ == reflow_left_to_right(sorted, old(self).columns)
            },
            final(self).items@.len() == old(self).items@.len(),
            forall|i: int, j: int|
                0 <= i < j < final(self).items@.len() ==> lex_le(
                    code_points(lowercase((#[trigger] final(self).items@[i]).display_name@)),
                    code_points(lowercase((#[trigger] final(self).items@[j]).display_name@)),
                ),
    {
        let mut keys: Vec<Vec<u32>> = Vec::new();
        let mut i: usize = 0;
        while i < self.items.len()
            invariant
                *self == *old(self),
                i <= self.items@.len(),
                keys@.len() == i,
                forall|k: int| 0 <= k < i ==> (#[trigger] keys@[k])@ == by_name()(self.items@[k]),
            decreases self.items@.len() - i,
        {
            keys.push(name_key_of(&self.items[i]));
            i = i + 1;
        }
        stable_sort_by_keys(&mut self.items, &mut keys, Ghost(by_name()));
        let ghost sorted = self.items@;
        self.fill_left_to_right();
        proof {
            law_sort_by_name_orders_whole_names(old(self).items@, self.items@, old(self).columns);
        }
    }

    /// Remove gaps by re-packing items in reading order (stable by cell).
    pub fn remove_empty_spaces(&mut self)
        requires
            old(self).columns > 0,
        ensures
            final(self).same_settings(*old(self)),
            exists|sorted: Seq<Item>| {
                &&& is_stable_sort(sorted, old(self).items@, by_cell())
                &&& final(self).items@ == reflow_left_to_right(sorted, old(self).columns)
            },
            final(self).items@.len() == old(self).items@.len(),
            exists|sorted: Seq<Item>| {
                &&& sorted.to_multiset() == old(self).items@.to_multiset()
                &&& same_items_in_order(final(self).items@, sorted)
                &&& forall|i: int, j: int|
                    0 <= i < j < sorted.len() ==> cell_not_after(#[trigger] sorted[i], #[trigger] sorted[j])
            },
    {
        let mut keys: Vec<Vec<u32>> = Vec::new();
        let mut i: usize = 0;
        while i < self.items.len()
            invariant
                *self == *old(self),
                i <= self.items@.len(),
                keys@.len() == i,
                forall|k: int| 0 <= k < i ==> (#[trigger] keys@[k])@ == by_cell()(self.items@[k]),
            decreases self.items@.len() - i,
        {
            let k = vec![self.items[i].row, self.items[i].column];
            assert(k@ =~= cell_key(self.items@[i as int]));
            keys.push(k);
            i = i + 1;
        }
        stable_sort_by_keys(&mut self.items, &mut keys, Ghost(by_cell()));
        let ghost sorted = self.items@;
        self.fill_left_to_right();
        proof {
            law_remove_empty_spaces_keeps_reading_order(old(self).items@, self.items@, old(self).columns);
        }
    }

    /// A copy of this drawer under a new random id and a new name, with no
    /// saved window position. Items keep their relative shortcut paths.
    pub fn duplicated(&self, new_name: String) -> (d: Drawer)
        ensures
            is_v4(d.id),
            d.id != self.id,
            d.name == new_name,
            d.window_position is None,
            d.schema_version == self.schema_version,
            d.columns == self.columns,
            d.rows == self.rows,
            d.icon_size == self.icon_size,
            d.show_labels == self.show_labels,
            d.layout_locked == self.layout_locked,
            d.items@ == self.items@,
    {
        let mut items: Vec<Item> = Vec::new();
        let mut i: usize = 0;
        while i < self.items.len()
            invariant
                i <= self.items@.len(),
                items@ == self.items@.subrange(0, i as int),
            decreases self.items@.len() - i,
        {
            items.push(self.items[i].copy());
            assert(items@ =~= self.items@.subrange(0, i + 1));
            i = i + 1;
        }
        assert(items@ =~= self.items@);
        Drawer {
            schema_version: self.schema_version,
            id: fresh_id_other_than(self.id),
            name: new_name,
            columns: self.columns,
            rows: self.rows,
            icon_size: self.icon_size,
            show_labels: self.show_labels,
            layout_locked: self.layout_locked,
            window_position: None,
            items,
        }
    }
}

} // verus!
