//! The data model of a data table: column headers, text rows, the sort
//! indicator and row selection, and what the header shows and reports.
use vstd::prelude::*;
use crate::text::push_str;

verus! {

/// Sort direction shown in a column header.
#[derive(Clone, Copy, Debug, PartialEq, Eq, Structural)]
pub enum SortDirection {
    Ascending,
    Descending,
}

/// How a column is sized. Widths and factors are `f32` bit patterns
/// (`f32::to_bits`).
#[derive(Clone, Copy, Debug, PartialEq, Eq, Structural)]
pub enum ColumnSizing {
    /// As wide as its content.
    Auto,
    /// A fixed width.
    Fixed(u32),
    /// A share of the remaining width.
    Flex(u32),
}

/// One column: header label and width policy.
#[derive(Clone, Debug)]
pub struct DataTableColumn {
    pub label: String,
    pub sizing: ColumnSizing,
}

impl DataTableColumn {
    /// A column with this header, sized to its content.
    pub fn new(label: &str) -> (r: DataTableColumn)
        ensures
            r.label@ == label@,
            r.sizing == ColumnSizing::Auto,
    {
        DataTableColumn { label: label.to_owned(), sizing: ColumnSizing::Auto }
    }

    /// Fixes the column's width (`f32` bit pattern).
    pub fn fixed_width_bits(self, px: u32) -> (r: DataTableColumn)
        ensures
            r.label == self.label,
            r.sizing == ColumnSizing::Fixed(px),
    {
        DataTableColumn { label: self.label, sizing: ColumnSizing::Fixed(px) }
    }

    /// Gives the column a flex share (`f32` bit pattern).
    pub fn flex_bits(self, factor: u32) -> (r: DataTableColumn)
        ensures
            r.label == self.label,
            r.sizing == ColumnSizing::Flex(factor),
    {
        DataTableColumn { label: self.label, sizing: ColumnSizing::Flex(factor) }
    }
}

/// Columns, row-major text cells, the column showing a sort indicator and
/// its direction, and the row selection (when rows are selectable).
pub struct DataTable {
    pub columns: Vec<DataTableColumn>,
    pub rows: Vec<Vec<String>>,
    pub sort_col: Option<usize>,
    pub sort_dir: SortDirection,
    pub selectable: bool,
    pub selected_rows: Vec<bool>,
}

/// The header text of column `i`: its label, with ` ^` or ` v` appended
/// when it is the sorted column.
pub open spec fn header_text(label: Seq<char>, i: usize, sort_col: Option<usize>, dir: SortDirection) -> Seq<char> {
    if sort_col == Some(i) {
        label + (if dir == SortDirection::Ascending { " ^"@ } else { " v"@ })
    } else {
        label
    }
}

/// The direction a click on column `i` asks for: descending when `i` is
/// already sorted ascending, ascending otherwise.
pub open spec fn next_direction(i: usize, sort_col: Option<usize>, dir: SortDirection) -> SortDirection {
    if sort_col == Some(i) && dir == SortDirection::Ascending {
        SortDirection::Descending
    } else {
        SortDirection::Ascending
    }
}

impl DataTable {
    /// A table with these columns, no rows, no sort indicator, not
    /// selectable.
    pub fn new(columns: Vec<DataTableColumn>) -> (r: DataTable)
        ensures
            r.columns@ == columns@,
            r.rows@.len() == 0,
            r.sort_col is None,
            r.sort_dir == SortDirection::Ascending,
            !r.selectable,
            r.selected_rows@.len() == 0,
    {
        DataTable {
            columns,
            rows: Vec::new(),
            sort_col: None,
            sort_dir: SortDirection::Ascending,
            selectable: false,
            selected_rows: Vec::new(),
        }
    }

    /// Appends a row of cell texts, left to right.
    pub fn row(self, cells: Vec<String>) -> (r: DataTable)
        ensures
            r.rows@ == self.rows@.push(cells),
            r.columns@ == self.columns@,
            r.sort_col == self.sort_col,
            r.sort_dir == self.sort_dir,
            r.selectable == self.selectable,
            r.selected_rows@ == self.selected_rows@,
    {
        let mut me = self;
        me.rows.push(cells);
        me
    }

    /// Shows a sort indicator on column `col` (display only: the rows are
    /// sorted by whoever supplies them).
    pub fn sorted_by(self, col: usize, dir: SortDirection) -> (r: DataTable)
        ensures
            r.sort_col == Some(col),
            r.sort_dir == dir,
            r.rows@ == self.rows@,
            r.columns@ == self.columns@,
            r.selectable == self.selectable,
            r.selected_rows@ == self.selected_rows@,
    {
        let mut me = self;
        me.sort_col = Some(col);
        me.sort_dir = dir;
        me
    }

    /// Shows a leading checkbox column; `selected` gives each row's state.
    pub fn selectable(self, selected: Vec<bool>) -> (r: DataTable)
        ensures
            r.selectable,
            r.selected_rows@ == selected@,
            r.sort_col == self.sort_col,
            r.sort_dir == self.sort_dir,
            r.rows@ == self.rows@,
            r.columns@ == self.columns@,
    {
        let mut me = self;
        me.selectable = true;
        me.selected_rows = selected;
        me
    }

    /// The header text of column `i`.
    pub fn header_label(&self, i: usize) -> (r: String)
        requires
            i < self.columns@.len(),
        ensures
            r@ == header_text(self.columns@[i as int].label@, i, self.sort_col, self.sort_dir),
    {
        let mut s = self.columns[i].label.clone();
        match self.sort_col {
            Some(c) if c == i => {
                match self.sort_dir {
                    SortDirection::Ascending => push_str(&mut s, " ^"),
                    SortDirection::Descending => push_str(&mut s, " v"),
                }
            },
            _ => {},
        }
        s
    }

    /// The direction a click on column `i`'s header reports.
    pub fn next_sort_dir(&self, i: usize) -> (r: SortDirection)
        ensures
            r == next_direction(i, self.sort_col, self.sort_dir),
    {
        match self.sort_col {
            Some(c) if c == i => match self.sort_dir {
                SortDirection::Ascending => SortDirection::Descending,
                SortDirection::Descending => SortDirection::Ascending,
            },
            _ => SortDirection::Ascending,
        }
    }

    /// Whether row `r`'s checkbox is checked (rows past the end of the
    /// selection are unchecked).
    pub fn row_checked(&self, r: usize) -> (b: bool)
        ensures
            b == (r < self.selected_rows@.len() && self.selected_rows@[r as int]),
    {
        if r < self.selected_rows.len() {
            self.selected_rows[r]
        } else {
            false
        }
    }
}

/// Clicking a sorted column's header twice returns to where it started:
/// ascending asks for descending, and descending asks for ascending.
pub proof fn law_header_click_toggles(i: usize, dir: SortDirection)
    ensures
        next_direction(i, Some(i), dir) != dir,
        next_direction(i, Some(i), next_direction(i, Some(i), dir)) == dir,
{
}

} // verus!
