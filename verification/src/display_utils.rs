//! The grid: how many columns fit a terminal, which entry stands in which
//! cell, and the text of each row.

use crate::file_entry::{EntryView, FileEntry};
use vstd::prelude::*;
use vstd::string::*;

verus! {

/// The most columns a listing is ever given.
pub const MAX_COLUMNS: usize = 4;

/// Cells left free between the widest entry and the next column.
pub const COLUMN_GAP: usize = 2;

/// The number of terminal cells that a text occupies, as the `unicode-width`
/// crate measures it outside an East Asian context.
pub uninterp spec fn display_width(text: Seq<char>) -> usize;

/// Measures a text with `UnicodeWidthStr::width`. The width follows the
/// crate's Unicode tables and is a function of the text alone; the contract
/// names the result and claims nothing else.
#[verifier::external_body]
pub(crate) fn measure(text: &str) -> (width: usize)
    ensures
        width == display_width(text@),
{
    unicode_width::UnicodeWidthStr::width(text)
}

/// The shape of a listing.
#[derive(Debug, Clone, Copy, PartialEq, Eq, Structural)]
pub struct Grid {
    pub num_columns: usize,
    pub num_rows: usize,
    pub column_width: usize,
}

/// The greatest of the widths, 0 where there is none.
pub open spec fn widest(widths: Seq<usize>) -> int
    decreases widths.len(),
{
    if widths.len() == 0 {
        0
    } else if widest(widths.drop_last()) >= widths.last() {
        widest(widths.drop_last())
    } else {
        widths.last() as int
    }
}

/// How many columns of `column_width` cells a terminal of `term_width` cells
/// is given: as many as fit, but at least one and at most `MAX_COLUMNS`.
pub open spec fn column_count(term_width: int, column_width: int) -> int {
    let fit = term_width / column_width;
    if fit < 1 {
        1
    } else if fit > MAX_COLUMNS {
        MAX_COLUMNS as int
    } else {
        fit
    }
}

/// How many rows `entries` entries take in `columns` columns: the quotient,
/// rounded up.
pub open spec fn row_count(entries: int, columns: int) -> int {
    (entries + columns - 1) / columns
}

/// The grid for entries of the given widths on a terminal of `term_width`
/// cells.
pub open spec fn grid_of(widths: Seq<usize>, term_width: usize) -> Grid {
    let column_width = widest(widths) + COLUMN_GAP;
    let num_columns = column_count(term_width as int, column_width);
    Grid {
        num_columns: num_columns as usize,
        num_rows: row_count(widths.len() as int, num_columns) as usize,
        column_width: column_width as usize,
    }
}

/// The entry that stands in a cell of a grid with `rows` rows that holds
/// `entries` entries. The columns are filled one after the other, each from
/// the top; the cells left over at the end of the last column are empty.
pub open spec fn cell(entries: int, rows: int, row: int, col: int) -> Option<int> {
    let index = row + col * rows;
    if index < entries {
        Some(index)
    } else {
        None
    }
}

/// `widest` is a bound on every width, and is one of them unless there is
/// none.
pub proof fn lemma_widest(widths: Seq<usize>)
    ensures
        0 <= widest(widths) <= usize::MAX,
        forall|i: int| 0 <= i < widths.len() ==> #[trigger] widths[i] <= widest(widths),
        widths.len() == 0 ==> widest(widths) == 0,
        widths.len() > 0 ==> exists|i: int| 0 <= i < widths.len() && widths[i] == widest(widths),
    decreases widths.len(),
{
    if widths.len() > 0 {
        let front = widths.drop_last();
        lemma_widest(front);
        assert forall|i: int| 0 <= i < widths.len() implies #[trigger] widths[i] <= widest(
            widths,
        ) by {
            if i < front.len() {
                assert(widths[i] == front[i]);
            }
        }
    }
}

/// The number of columns is never less than one nor more than
/// `MAX_COLUMNS`, however narrow or wide the terminal is.
pub proof fn lemma_column_count_bounds(term_width: int, column_width: int)
    ensures
        1 <= column_count(term_width, column_width) <= MAX_COLUMNS,
{
}

/// The number of rows is the least that holds all entries: the rows times
/// the columns reach the number of entries, and one row less would not.
pub proof fn lemma_row_count_is_ceiling(entries: int, columns: int)
    requires
        0 <= entries,
        0 < columns,
    ensures
        0 <= row_count(entries, columns),
        row_count(entries, columns) * columns >= entries,
        (row_count(entries, columns) - 1) * columns < entries,
        entries == 0 ==> row_count(entries, columns) == 0,
        row_count(entries, columns) == entries / columns + if entries % columns == 0 {
            0int
        } else {
            1int
        },
{
    let r = row_count(entries, columns);
    let t = entries + columns - 1;
    vstd::arithmetic::div_mod::lemma_fundamental_div_mod(t, columns);
    vstd::arithmetic::div_mod::lemma_fundamental_div_mod(entries, columns);
    let q = entries / columns;
    let m = entries % columns;
    assert((r - 1) * columns == columns * r - columns) by (nonlinear_arith);
    if m == 0 {
        assert(r == q) by (nonlinear_arith)
            requires
                columns * r + t % columns == entries + columns - 1,
                0 <= t % columns < columns,
                entries == columns * q,
                columns > 0,
        ;
    } else {
        assert(r == q + 1) by (nonlinear_arith)
            requires
                columns * r + t % columns == entries + columns - 1,
                0 <= t % columns < columns,
                entries == columns * q + m,
                0 < m < columns,
                columns > 0,
        ;
    }
}

/// Every entry stands in exactly one cell of the grid: entry `index` in row
/// `index % rows` of column `index / rows`, a column that the grid has, and
/// in no other cell.
pub proof fn lemma_each_entry_has_one_cell(entries: int, columns: int, index: int)
    requires
        0 <= index < entries,
        0 < columns,
    ensures
        0 <= index % row_count(entries, columns) < row_count(entries, columns),
        0 <= index / row_count(entries, columns) < columns,
        cell(
            entries,
            row_count(entries, columns),
            index % row_count(entries, columns),
            index / row_count(entries, columns),
        ) == Some(index),
        forall|row: int, col: int|
            0 <= row < row_count(entries, columns) && #[trigger] cell(
                entries,
                row_count(entries, columns),
                row,
                col,
            ) == Some(index) ==> row == index % row_count(entries, columns) && col == index
                / row_count(entries, columns),
{
    let rows = row_count(entries, columns);
    lemma_row_count_is_ceiling(entries, columns);
    assert(rows > 0) by (nonlinear_arith)
        requires
            rows * columns >= entries,
            entries > 0,
            rows >= 0,
    ;
    vstd::arithmetic::div_mod::lemma_fundamental_div_mod(index, rows);
    let q = index / rows;
    let m = index % rows;
    assert(0 <= q < columns) by (nonlinear_arith)
        requires
            index == rows * q + m,
            0 <= m < rows,
            0 <= index < entries,
            rows * columns >= entries,
            columns > 0,
    ;
    assert forall|row: int, col: int|
        0 <= row < rows && #[trigger] cell(entries, rows, row, col) == Some(index) implies row == m
        && col == q by {
        assert(col == q && row == m) by (nonlinear_arith)
            requires
                row + col * rows == rows * q + m,
                0 <= row < rows,
                0 <= m < rows,
        ;
    }
}

/// A cell never holds anything but an entry of the listing: the index it
/// gives is that of an entry, and it is the row plus the column times the
/// number of rows.
pub proof fn lemma_cell_holds_an_entry(entries: int, rows: int, row: int, col: int)
    requires
        0 <= rows,
        0 <= row,
        0 <= col,
    ensures
        cell(entries, rows, row, col) matches Some(index) ==> 0 <= index < entries && index == row
            + col * rows,
{
    assert(col * rows >= 0) by (nonlinear_arith)
        requires
            0 <= rows,
            0 <= col,
    ;
}

/// No row of the grid is empty: each holds an entry in its first column.
pub proof fn lemma_rows_are_not_empty(entries: int, columns: int, row: int)
    requires
        0 <= entries,
        0 < columns,
        0 <= row < row_count(entries, columns),
    ensures
        cell(entries, row_count(entries, columns), row, 0) == Some(row),
{
    let rows = row_count(entries, columns);
    lemma_row_count_is_ceiling(entries, columns);
    assert(rows <= entries) by (nonlinear_arith)
        requires
            (rows - 1) * columns < entries,
            columns >= 1,
            rows >= 0,
            entries >= 0,
    ;
}

impl Grid {
    /// Lays out entries of the given widths on a terminal of `term_width`
    /// cells. A column is as wide as the widest entry and the gap; the
    /// terminal is given as many columns as fit, at least one and at most
    /// `MAX_COLUMNS`; the rows are as many as the entries need.
    pub fn plan(widths: &Vec<usize>, term_width: usize) -> (grid: Grid)
        requires
            forall|i: int|
                0 <= i < widths@.len() ==> #[trigger] widths@[i] + COLUMN_GAP <= usize::MAX,
        ensures
            grid == grid_of(widths@, term_width),
            grid.column_width == widest(widths@) + COLUMN_GAP,
            grid.num_columns == column_count(term_width as int, grid.column_width as int),
            grid.num_rows == row_count(widths@.len() as int, grid.num_columns as int),
            1 <= grid.num_columns <= MAX_COLUMNS,
            widths@.len() == 0 ==> grid.num_rows == 0,
    {
        let mut max_width: usize = 0;
        let mut i: usize = 0;
        while i < widths.len()
            invariant
                i <= widths@.len(),
                max_width == widest(widths@.take(i as int)),
            decreases widths@.len() - i,
        {
            assert(widths@.take(i + 1).drop_last() =~= widths@.take(i as int));
            if widths[i] > max_width {
                max_width = widths[i];
            }
            i += 1;
        }
        proof {
            assert(widths@.take(i as int) =~= widths@);
            lemma_widest(widths@);
        }
        let column_width = max_width + COLUMN_GAP;
        let fit = term_width / column_width;
        let num_columns = if fit < 1 {
            1
        } else if fit > MAX_COLUMNS {
            MAX_COLUMNS
        } else {
            fit
        };
        let num_entries = widths.len();
        proof {
            let rows = row_count(num_entries as int, num_columns as int);
            lemma_row_count_is_ceiling(num_entries as int, num_columns as int);
            assert(rows <= num_entries) by (nonlinear_arith)
                requires
                    (rows - 1) * num_columns < num_entries,
                    num_columns >= 1,
                    0 <= rows,
            ;
        }
        let num_rows = num_entries / num_columns + if num_entries % num_columns == 0 {
            0
        } else {
            1
        };
        Grid { num_columns, num_rows, column_width }
    }

    /// Returns the index of the entry that stands in a cell of this grid
    /// when it holds `entries` entries, or `None` for an empty cell.
    pub fn cell_index(&self, entries: usize, row: usize, col: usize) -> (index: Option<usize>)
        ensures
            match index {
                Some(i) => cell(entries as int, self.num_rows as int, row as int, col as int)
                    == Some(i as int),
                None => cell(entries as int, self.num_rows as int, row as int, col as int)
                    is None,
            },
    {
        match col.checked_mul(self.num_rows) {
            Some(offset) => match row.checked_add(offset) {
                Some(index) => if index < entries {
                    Some(index)
                } else {
                    None
                },
                None => None,
            },
            None => None,
        }
    }
}

/// A run of `count` spaces.
pub open spec fn spaces(count: int) -> Seq<char> {
    Seq::new(
        if count > 0 {
            count as nat
        } else {
            0
        },
        |i: int| ' ',
    )
}

/// The text of an entry: its icon, a space, its name.
pub open spec fn label(entry: EntryView) -> Seq<char> {
    entry.emoji + seq![' '] + entry.name
}

/// The text of one cell. An empty cell has none. An entry in the last column
/// of the grid is followed by nothing; in any other column it is followed by
/// the spaces that fill its width up to the column's.
pub open spec fn cell_text(
    entries: Seq<FileEntry>,
    widths: Seq<usize>,
    grid: Grid,
    row: int,
    col: int,
) -> Seq<char> {
    match cell(entries.len() as int, grid.num_rows as int, row, col) {
        Some(index) => if col < grid.num_columns - 1 {
            label(entries[index]@) + spaces(grid.column_width - widths[index])
        } else {
            label(entries[index]@)
        },
        None => Seq::empty(),
    }
}

/// The text of the first `cols` cells of a row.
pub open spec fn row_cells(
    entries: Seq<FileEntry>,
    widths: Seq<usize>,
    grid: Grid,
    row: int,
    cols: int,
) -> Seq<char>
    decreases cols,
{
    if cols <= 0 {
        Seq::empty()
    } else {
        row_cells(entries, widths, grid, row, cols - 1) + cell_text(
            entries,
            widths,
            grid,
            row,
            cols - 1,
        )
    }
}

/// The text of a row: that of its cells, column by column.
pub open spec fn row_text(entries: Seq<FileEntry>, widths: Seq<usize>, grid: Grid, row: int) -> Seq<
    char,
> {
    row_cells(entries, widths, grid, row, grid.num_columns as int)
}

/// The rows of the listing of `entries`, whose widths are `widths`, on a
/// terminal of `term_width` cells.
pub open spec fn listing(entries: Seq<FileEntry>, widths: Seq<usize>, term_width: usize) -> Seq<
    Seq<char>,
> {
    let grid = grid_of(widths, term_width);
    Seq::new(grid.num_rows as nat, |row: int| row_text(entries, widths, grid, row))
}

/// The cells that an entry occupies: those of its icon, one for the space,
/// those of its name.
pub open spec fn entry_width(entry: EntryView) -> int {
    display_width(entry.emoji) + 1 + display_width(entry.name)
}

/// Whether the width of an entry and the column gap can be counted in a
/// `usize`.
pub open spec fn fits(entry: EntryView) -> bool {
    entry_width(entry) + COLUMN_GAP <= usize::MAX
}

/// The widths of the entries.
pub open spec fn measured(entries: Seq<FileEntry>) -> Seq<usize> {
    Seq::new(entries.len(), |i: int| entry_width(entries[i]@) as usize)
}

/// The shape of a listing, whatever the entries and however narrow or wide
/// the terminal: the columns are at least one and at most `MAX_COLUMNS`, each
/// wide enough for every entry and the gap; the rows are the entries over the
/// columns, rounded up, so they hold every entry and one row less would not;
/// the listing has one line for each row.
pub proof fn lemma_listing_shape(entries: Seq<FileEntry>, widths: Seq<usize>, term_width: usize)
    requires
        widths.len() == entries.len(),
        widths.len() <= usize::MAX,
        forall|i: int| 0 <= i < widths.len() ==> #[trigger] widths[i] + COLUMN_GAP <= usize::MAX,
    ensures
        ({
            let grid = grid_of(widths, term_width);
            let count = entries.len() as int;
            &&& 1 <= grid.num_columns <= MAX_COLUMNS
            &&& grid.column_width == widest(widths) + COLUMN_GAP
            &&& forall|i: int|
                0 <= i < widths.len() ==> #[trigger] widths[i] + COLUMN_GAP <= grid.column_width
            &&& grid.num_columns == column_count(term_width as int, grid.column_width as int)
            &&& grid.num_rows == row_count(count, grid.num_columns as int)
            &&& grid.num_rows * grid.num_columns >= count
            &&& (grid.num_rows - 1) * grid.num_columns < count
            &&& grid.num_rows <= count
            &&& listing(entries, widths, term_width).len() == grid.num_rows
        }),
{
    let count = entries.len() as int;
    let column_width = widest(widths) + COLUMN_GAP;
    let columns = column_count(term_width as int, column_width);
    let rows = row_count(count, columns);
    lemma_widest(widths);
    lemma_row_count_is_ceiling(count, columns);
    assert(rows <= count) by (nonlinear_arith)
        requires
            (rows - 1) * columns < count,
            columns >= 1,
            rows >= 0,
            count >= 0,
    ;
}

/// Where each entry stands in a listing: entry `index` stands in row `index
/// % rows` of column `index / rows`, a row and a column that the grid has,
/// and in no other cell. Its cell holds its icon, a space and its name, and
/// in every column but the last the spaces that fill the column.
pub proof fn lemma_listing_places_each_entry(
    entries: Seq<FileEntry>,
    widths: Seq<usize>,
    term_width: usize,
    index: int,
)
    requires
        widths.len() == entries.len(),
        widths.len() <= usize::MAX,
        forall|i: int| 0 <= i < widths.len() ==> #[trigger] widths[i] + COLUMN_GAP <= usize::MAX,
        0 <= index < entries.len(),
    ensures
        ({
            let grid = grid_of(widths, term_width);
            let row = index % (grid.num_rows as int);
            let col = index / (grid.num_rows as int);
            &&& 0 <= row < grid.num_rows
            &&& 0 <= col < grid.num_columns
            &&& cell(entries.len() as int, grid.num_rows as int, row, col) == Some(index)
            &&& cell_text(entries, widths, grid, row, col) == if col < grid.num_columns - 1 {
                label(entries[index]@) + spaces(grid.column_width - widths[index])
            } else {
                label(entries[index]@)
            }
            &&& forall|r: int, c: int|
                0 <= r < grid.num_rows && #[trigger] cell(
                    entries.len() as int,
                    grid.num_rows as int,
                    r,
                    c,
                ) == Some(index) ==> r == row && c == col
        }),
{
    lemma_listing_shape(entries, widths, term_width);
    lemma_each_entry_has_one_cell(
        entries.len() as int,
        grid_of(widths, term_width).num_columns as int,
        index,
    );
}

/// A listing of no entries has no rows.
pub proof fn lemma_empty_listing(term_width: usize)
    ensures
        listing(Seq::empty(), Seq::empty(), term_width).len() == 0,
{
    let widths = Seq::<usize>::empty();
    lemma_row_count_is_ceiling(
        0,
        column_count(term_width as int, widest(widths) + COLUMN_GAP),
    );
}

/// The heading of a listing: the directory between the terminal's codes
/// for bold type and for plain type.
pub open spec fn heading_text(directory: Seq<char>) -> Seq<char> {
    "\x1B[1m"@ + directory + "\x1B[0m"@
}

/// Returns the heading line for the directory that is listed, without a
/// line end.
pub fn heading(directory: &str) -> (line: String)
    ensures
        line@ == heading_text(directory@),
{
    let mut line = String::new();
    line.append("\x1B[1m");
    line.append(directory);
    line.append("\x1B[0m");
    line
}

/// Appends `count` spaces to `line`.
fn pad(line: &mut String, count: usize)
    ensures
        final(line)@ == old(line)@ + spaces(count as int),
{
    let ghost start = line@;
    let mut done: usize = 0;
    while done < count
        invariant
            done <= count,
            line@ == start + spaces(done as int),
        decreases count - done,
    {
        line.append(" ");
        proof {
            reveal_strlit(" ");
        }
        done += 1;
    }
}

/// Renders one row of the grid.
fn render_row(entries: &Vec<FileEntry>, widths: &Vec<usize>, grid: &Grid, row: usize) -> (line:
    String)
    requires
        widths@.len() == entries@.len(),
        forall|i: int| 0 <= i < widths@.len() ==> #[trigger] widths@[i] <= grid.column_width,
    ensures
        line@ == row_text(entries@, widths@, *grid, row as int),
{
    let mut line = String::new();
    let mut col: usize = 0;
    while col < grid.num_columns
        invariant
            col <= grid.num_columns,
            widths@.len() == entries@.len(),
            forall|i: int| 0 <= i < widths@.len() ==> #[trigger] widths@[i] <= grid.column_width,
            line@ == row_cells(entries@, widths@, *grid, row as int, col as int),
        decreases grid.num_columns - col,
    {
        match grid.cell_index(entries.len(), row, col) {
            Some(index) => {
                let entry = &entries[index];
                line.append(entry.emoji());
                line.append(" ");
                line.append(entry.name());
                proof {
                    reveal_strlit(" ");
                }
                if col < grid.num_columns - 1 {
                    pad(&mut line, grid.column_width - widths[index]);
                }
            },
            None => {},
        }
        col += 1;
    }
    line
}

/// Renders the listing of `entries`, whose widths in cells are `widths`, for
/// a terminal of `term_width` cells: one string for each row of the grid,
/// without a line end.
pub fn render(entries: &Vec<FileEntry>, widths: &Vec<usize>, term_width: usize) -> (rows: Vec<
    String,
>)
    requires
        widths@.len() == entries@.len(),
        forall|i: int| 0 <= i < widths@.len() ==> #[trigger] widths@[i] + COLUMN_GAP <= usize::MAX,
    ensures
        rows.deep_view() == listing(entries@, widths@, term_width),
        rows@.len() == grid_of(widths@, term_width).num_rows,
        rows@.len() == row_count(
            entries@.len() as int,
            column_count(term_width as int, widest(widths@) + COLUMN_GAP),
        ),
        entries@.len() == 0 ==> rows@.len() == 0,
{
    let grid = Grid::plan(widths, term_width);
    proof {
        lemma_widest(widths@);
    }
    let mut rows: Vec<String> = Vec::new();
    let mut row: usize = 0;
    while row < grid.num_rows
        invariant
            row <= grid.num_rows,
            rows@.len() == row,
            widths@.len() == entries@.len(),
            forall|i: int| 0 <= i < widths@.len() ==> #[trigger] widths@[i] <= grid.column_width,
            forall|r: int|
                0 <= r < row ==> (#[trigger] rows@[r])@ == row_text(entries@, widths@, grid, r),
        decreases grid.num_rows - row,
    {
        let line = render_row(entries, widths, &grid, row);
        rows.push(line);
        row += 1;
    }
    rows
}

/// Adds up the cells of a label from those of its icon and its name, with
/// one cell for the space between them, or returns `None` where the sum
/// cannot be counted in a `usize`.
pub fn label_width(icon: usize, name: usize) -> (width: Option<usize>)
    ensures
        match width {
            Some(w) => w == icon + 1 + name,
            None => icon + 1 + name > usize::MAX,
        },
{
    match icon.checked_add(1) {
        Some(with_space) => with_space.checked_add(name),
        None => None,
    }
}

/// Measures an entry: the cells of its icon, a space and its name, or `None`
/// where their sum cannot be counted in a `usize`.
pub fn measure_entry(entry: &FileEntry) -> (width: Option<usize>)
    ensures
        match width {
            Some(w) => w == entry_width(entry@),
            None => entry_width(entry@) > usize::MAX,
        },
{
    label_width(measure(entry.emoji()), measure(entry.name()))
}

/// Tells whether an entry is narrow enough for a column to be counted.
pub fn entry_fits(entry: &FileEntry) -> (r: bool)
    ensures
        r == fits(entry@),
{
    match measure_entry(entry) {
        Some(width) => width <= usize::MAX - COLUMN_GAP,
        None => false,
    }
}

/// Renders the listing of `entries` for a terminal of `term_width` cells:
/// one string for each row of the grid, without a line end. The entries are
/// measured, a column is made as wide as the widest and the gap, and the
/// columns are filled one after the other.
pub fn display_entries(entries: &Vec<FileEntry>, term_width: usize) -> (rows: Vec<String>)
    requires
        forall|i: int| 0 <= i < entries@.len() ==> fits(#[trigger] entries@[i]@),
    ensures
        rows.deep_view() == listing(entries@, measured(entries@), term_width),
        rows@.len() == grid_of(measured(entries@), term_width).num_rows,
        rows@.len() == row_count(
            entries@.len() as int,
            column_count(term_width as int, widest(measured(entries@)) + COLUMN_GAP),
        ),
        entries@.len() == 0 ==> rows@.len() == 0,
{
    let mut widths: Vec<usize> = Vec::new();
    let mut i: usize = 0;
    while i < entries.len()
        invariant
            i <= entries@.len(),
            widths@.len() == i,
            forall|k: int| 0 <= k < entries@.len() ==> fits(#[trigger] entries@[k]@),
            forall|k: int| 0 <= k < i ==> #[trigger] widths@[k] == entry_width(entries@[k]@),
        decreases entries@.len() - i,
    {
        let width = measure_entry(&entries[i]);
        widths.push(width.unwrap());
        i += 1;
    }
    assert(widths@ =~= measured(entries@));
    render(entries, &widths, term_width)
}

/// Renders the listing like [`display_entries`] where every entry is narrow
/// enough for a column to be counted, and returns `None` where one is not.
pub fn try_display_entries(entries: &Vec<FileEntry>, term_width: usize) -> (rows: Option<
    Vec<String>,
>)
    ensures
        rows is Some <==> forall|i: int| 0 <= i < entries@.len() ==> fits(#[trigger] entries@[i]@),
        rows matches Some(text) ==> text.deep_view() == listing(
            entries@,
            measured(entries@),
            term_width,
        ),
        rows matches Some(text) ==> text@.len() == grid_of(measured(entries@), term_width).num_rows,
        rows matches Some(text) ==> text@.len() == row_count(
            entries@.len() as int,
            column_count(term_width as int, widest(measured(entries@)) + COLUMN_GAP),
        ),
        entries@.len() == 0 ==> (rows matches Some(text) && text@.len() == 0),
{
    let mut i: usize = 0;
    while i < entries.len()
        invariant
            i <= entries@.len(),
            forall|k: int| 0 <= k < i ==> fits(#[trigger] entries@[k]@),
        decreases entries@.len() - i,
    {
        if !entry_fits(&entries[i]) {
            return None;
        }
        i += 1;
    }
    Some(display_entries(entries, term_width))
}

} // verus!
