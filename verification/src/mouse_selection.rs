//! Application-owned mouse selection over the last committed screen cells.
use vstd::prelude::*;

use crate::event::PointerEvent;
use crate::text::{has_white_space, is_white_space, push_char, push_str};

verus! {

/// One screen cell: the glyph it starts (empty for the trailing columns of
/// a wide glyph), the column of the glyph that owns it, and its width.
#[derive(Debug, Clone, PartialEq, Eq)]
struct Cell {
    symbol: String,
    owner: u16,
    width: u16,
}

#[derive(Debug, Clone, Copy, PartialEq, Eq, Structural)]
pub struct Point {
    pub row: u16,
    pub column: u16,
}

/// Reading order of screen points.
pub open spec fn point_le(a: Point, b: Point) -> bool {
    a.row < b.row || (a.row == b.row && a.column <= b.column)
}

/// Terminal-neutral, screen-bounded text from a successfully submitted frame.
#[derive(Debug, Clone)]
pub struct SelectionFrame {
    epoch: u64,
    context: u64,
    width: u16,
    height: u16,
    pane_separator: Option<u16>,
    rows: Vec<Vec<Cell>>,
}

#[derive(Debug, Clone, PartialEq, Eq)]
pub struct SelectionUpdate {
    pub changed: bool,
    pub copy: Option<String>,
}

#[derive(Debug, Clone, Copy, PartialEq, Eq, Structural)]
pub struct SelectionCellRange {
    pub x: u16,
    pub y: u16,
    pub width: u16,
}

/// Interaction state holds coordinates and identity, never a screen buffer.
#[derive(Debug, Clone, Copy, PartialEq, Eq, Structural)]
pub struct MouseSelection {
    epoch: Option<u64>,
    anchor: Option<Point>,
    focus: Option<Point>,
    dragging: bool,
    moved: bool,
}

/// `a - b`, or zero.
pub open spec fn sub_or_zero(a: int, b: int) -> int {
    if a > b {
        a - b
    } else {
        0
    }
}

/// `s` without trailing ASCII spaces.
pub open spec fn trim_end_spaces(s: Seq<char>) -> Seq<char>
    decreases s.len(),
{
    if s.len() > 0 && s.last() == ' ' {
        trim_end_spaces(s.drop_last())
    } else {
        s
    }
}

/// Lines joined by `\n`.
pub open spec fn join_lines(lines: Seq<Seq<char>>) -> Seq<char>
    decreases lines.len(),
{
    if lines.len() == 0 {
        Seq::empty()
    } else if lines.len() == 1 {
        lines[0]
    } else {
        join_lines(lines.drop_last()) + seq!['\n'] + lines.last()
    }
}

/// The glyphs of `cells[from..to]`, concatenated.
spec fn symbols(cells: Seq<Cell>, from: int, to: int) -> Seq<char>
    decreases to - from,
{
    if to <= from {
        Seq::empty()
    } else {
        symbols(cells, from, to - 1) + cells[to - 1].symbol@
    }
}

spec fn cell_glyph(c: Cell) -> (Seq<char>, u16, u16) {
    (c.symbol@, c.owner, c.width)
}

/// The width a glyph is written with: at least one column, at most what is
/// left of the row from `column`.
pub open spec fn glyph_width(frame_width: u16, column: u16, width: u16) -> u16 {
    if width < 1 {
        1
    } else if width > frame_width - column {
        (frame_width - column) as u16
    } else {
        width
    }
}

/// A cell at `c` of the row a glyph of width `w` is written to at
/// `column`: the glyph's first cell, one of its empty continuation cells,
/// or unchanged.
pub open spec fn glyph_cell(
    before: (Seq<char>, u16, u16),
    c: int,
    column: u16,
    symbol: Seq<char>,
    w: u16,
) -> (Seq<char>, u16, u16) {
    if c == column {
        (symbol, column, w)
    } else if column < c < column + w {
        (Seq::empty(), column, 0u16)
    } else {
        before
    }
}

/// The empty selection.
pub closed spec fn no_selection() -> MouseSelection {
    MouseSelection { epoch: None, anchor: None, focus: None, dragging: false, moved: false }
}

impl SelectionFrame {
    /// Viewport size, rows of equal width, a separator strictly inside, and
    /// every cell owned by a column at or before it, its glyph ending in view.
    pub closed spec fn wf(&self) -> bool {
        &&& self.rows@.len() == self.height
        &&& self.pane_separator matches Some(s) ==> 0 < s && s + 1 < self.width
        &&& forall|r: int| 0 <= r < self.rows@.len() ==> (#[trigger] self.rows@[r])@.len() == self.width
        &&& forall|r: int, c: int|
            0 <= r < self.rows@.len() && 0 <= c < self.width ==> {
                let cell = #[trigger] self.rows@[r]@[c];
                &&& cell.owner <= c
                &&& c + cell.width <= self.width
            }
    }

    pub closed spec fn epoch_spec(&self) -> u64 {
        self.epoch
    }

    /// Both frames hold the same cells.
    pub closed spec fn same_rows(&self, other: SelectionFrame) -> bool {
        self.rows@ == other.rows@
    }

    /// Same context, viewport, separator and cell contents.
    pub closed spec fn geometry_matches(&self, other: SelectionFrame) -> bool {
        &&& self.context == other.context
        &&& self.width == other.width
        &&& self.height == other.height
        &&& self.pane_separator == other.pane_separator
        &&& self.rows@.len() == other.rows@.len()
        &&& forall|k: int| 0 <= k < self.rows@.len() ==> same_cells(#[trigger] self.rows@[k]@, other.rows@[k]@)
    }

    pub closed spec fn context_spec(&self) -> u64 {
        self.context
    }

    pub closed spec fn viewport_spec(&self) -> (u16, u16) {
        (self.width, self.height)
    }

    pub closed spec fn separator_spec(&self) -> Option<u16> {
        self.pane_separator
    }

    spec fn cell_spec(&self, column: int, row: int) -> Cell {
        self.rows@[row]@[column]
    }

    /// The columns a selection anchored at `anchor` may cover: its own pane.
    pub closed spec fn pane_bounds_spec(&self, anchor: Point) -> (u16, u16) {
        match self.pane_separator {
            Some(s) => if anchor.column < s {
                (0u16, (s - 1) as u16)
            } else {
                ((s + 1) as u16, (self.width - 1) as u16)
            },
            None => (0u16, sub_or_zero(self.width as int, 1) as u16),
        }
    }

    /// The point at `(column, row)` when it is on screen.
    pub closed spec fn point_at_spec(&self, column: u16, row: u16) -> Option<Point> {
        if column < self.width && row < self.height {
            Some(Point { row, column })
        } else {
            None
        }
    }

    /// The screen point nearest to `(column, row)`.
    pub closed spec fn clamp_point_spec(&self, column: u16, row: u16) -> Option<Point> {
        let c = if column < sub_or_zero(self.width as int, 1) {
            column
        } else {
            sub_or_zero(self.width as int, 1) as u16
        };
        let r = if row < sub_or_zero(self.height as int, 1) {
            row
        } else {
            sub_or_zero(self.height as int, 1) as u16
        };
        self.point_at_spec(c, r)
    }

    /// The cells of one selected row between two columns, widened to whole
    /// glyphs.
    spec fn range_spec(&self, first: int, last: int, row: int) -> SelectionCellRange {
        let x = self.cell_spec(first, row).owner;
        let last_owner = self.cell_spec(last, row).owner;
        let right = last_owner + self.cell_spec(last_owner as int, row).width;
        SelectionCellRange { x, y: row as u16, width: sub_or_zero(right, x as int) as u16 }
    }

    /// The selected range of every selected row, top to bottom.
    pub closed spec fn ranges_spec(&self, selection: MouseSelection) -> Seq<SelectionCellRange> {
        match selection.bounds_spec(self.epoch) {
            None => Seq::empty(),
            Some((start, end)) => {
                let (left, right) = self.pane_bounds_spec(selection.anchor.unwrap());
                Seq::new(
                    (end.row - start.row + 1) as nat,
                    |i: int|
                        {
                            let row = start.row + i;
                            let first = if row == start.row {
                                start.column as int
                            } else {
                                left as int
                            };
                            let last = if row == end.row {
                                end.column as int
                            } else {
                                right as int
                            };
                            self.range_spec(first, last, row)
                        },
                )
            },
        }
    }

    /// The text of one range, trailing spaces removed.
    spec fn line_spec(&self, range: SelectionCellRange) -> Seq<char> {
        trim_end_spaces(
            symbols(self.rows@[range.y as int]@, range.x as int, range.x + range.width),
        )
    }

    /// The copied text of a selection: its rows joined by newlines, when any
    /// of it is not whitespace.
    spec fn lines_spec(&self, selection: MouseSelection) -> Seq<Seq<char>> {
        self.ranges_spec(selection).map_values(|r: SelectionCellRange| self.line_spec(r))
    }

    pub closed spec fn text_spec(&self, selection: MouseSelection) -> Option<Seq<char>> {
        let text = join_lines(self.lines_spec(selection));
        if exists|i: int| 0 <= i < text.len() && !is_white_space(text[i]) {
            Some(text)
        } else {
            None
        }
    }

    /// A blank frame: one space per cell, no separator, epoch and context 0.
    pub fn for_viewport(width: u16, height: u16) -> (r: SelectionFrame)
        ensures
            r.wf(),
            r.viewport_spec() == (width, height),
            r.epoch_spec() == 0,
            r.context_spec() == 0,
            r.separator_spec() is None,
    {
        let mut rows: Vec<Vec<Cell>> = Vec::new();
        let mut r: u16 = 0;
        while r < height
            invariant
                r <= height,
                rows@.len() == r,
                forall|k: int| 0 <= k < r ==> (#[trigger] rows@[k])@.len() == width,
                forall|k: int, c: int|
                    0 <= k < r && 0 <= c < width ==> {
                        let cell = #[trigger] rows@[k]@[c];
                        &&& cell.owner <= c
                        &&& c + cell.width <= width
                    },
            decreases height - r,
        {
            let mut row: Vec<Cell> = Vec::new();
            let mut c: u16 = 0;
            while c < width
                invariant
                    c <= width,
                    row@.len() == c,
                    forall|j: int|
                        0 <= j < c ==> (#[trigger] row@[j]).owner == j && row@[j].width == 1,
                decreases width - c,
            {
                row.push(Cell { symbol: crate::text::owned(" "), owner: c, width: 1 });
                c = c + 1;
            }
            rows.push(row);
            r = r + 1;
        }
        SelectionFrame { epoch: 0, context: 0, width, height, pane_separator: None, rows }
    }

    pub fn epoch(&self) -> (r: u64)
        ensures
            r == self.epoch_spec(),
    {
        self.epoch
    }

    pub fn set_epoch(&mut self, epoch: u64)
        requires
            old(self).wf(),
        ensures
            final(self).wf(),
            final(self).epoch_spec() == epoch,
            final(self).context_spec() == old(self).context_spec(),
            final(self).viewport_spec() == old(self).viewport_spec(),
            final(self).separator_spec() == old(self).separator_spec(),
            final(self).same_rows(*old(self)),
    {
        self.epoch = epoch;
    }

    pub fn context(&self) -> (r: u64)
        ensures
            r == self.context_spec(),
    {
        self.context
    }

    pub fn set_context(&mut self, context: u64)
        requires
            old(self).wf(),
        ensures
            final(self).wf(),
            final(self).context_spec() == context,
            final(self).epoch_spec() == old(self).epoch_spec(),
            final(self).viewport_spec() == old(self).viewport_spec(),
            final(self).separator_spec() == old(self).separator_spec(),
            final(self).same_rows(*old(self)),
    {
        self.context = context;
    }

    /// Record the split separator; one outside the viewport's interior
    /// leaves a single pane.
    pub fn set_pane_separator(&mut self, column: Option<u16>)
        requires
            old(self).wf(),
        ensures
            final(self).wf(),
            final(self).separator_spec() == match column {
                Some(c) => if c > 0 && c + 1 < old(self).viewport_spec().0 {
                    Some(c)
                } else {
                    None
                },
                None => None,
            },
            final(self).epoch_spec() == old(self).epoch_spec(),
            final(self).context_spec() == old(self).context_spec(),
            final(self).viewport_spec() == old(self).viewport_spec(),
            final(self).same_rows(*old(self)),
    {
        self.pane_separator = match column {
            Some(c) => if c > 0 && c.saturating_add(1) < self.width {
                Some(c)
            } else {
                None
            },
            None => None,
        };
    }

    fn pane_bounds(&self, anchor: Point) -> (r: (u16, u16))
        requires
            self.wf(),
        ensures
            r == self.pane_bounds_spec(anchor),
            r.0 <= r.1,
            self.viewport_spec().0 > 0 ==> r.1 < self.viewport_spec().0,
    {
        match self.pane_separator {
            Some(separator) => if anchor.column < separator {
                (0, separator - 1)
            } else {
                (separator + 1, self.width - 1)
            },
            None => (0, self.width.saturating_sub(1)),
        }
    }

    /// Same context, viewport, separator and cells.
    pub fn same_geometry(&self, other: &SelectionFrame) -> (r: bool)
        ensures
            r == self.geometry_matches(*other),
    {
        if !(self.context == other.context && self.width == other.width
            && self.height == other.height && self.pane_separator == other.pane_separator
            && self.rows.len() == other.rows.len()) {
            return false;
        }
        let mut r: usize = 0;
        while r < self.rows.len()
            invariant
                r <= self.rows@.len() == other.rows@.len(),
                forall|k: int| 0 <= k < r ==> same_cells(#[trigger] self.rows@[k]@, other.rows@[k]@),
            decreases self.rows.len() - r,
        {
            if !cells_equal(&self.rows[r], &other.rows[r]) {
                return false;
            }
            r = r + 1;
        }
        true
    }

    pub fn matches_viewport(&self, width: u16, height: u16) -> (r: bool)
        ensures
            r == (self.viewport_spec() == (width, height)),
    {
        self.width == width && self.height == height
    }

    /// Write one glyph: its first cell holds the symbol and the width
    /// (at least one column, at most what is left of the row), the cells it
    /// spans after that become its empty continuation. Off-screen writes
    /// are ignored.
    pub fn put_glyph(&mut self, column: u16, row: u16, symbol: &str, width: u16)
        requires
            old(self).wf(),
        ensures
            final(self).wf(),
            final(self).epoch_spec() == old(self).epoch_spec(),
            final(self).context_spec() == old(self).context_spec(),
            final(self).viewport_spec() == old(self).viewport_spec(),
            final(self).separator_spec() == old(self).separator_spec(),
            row >= old(self).viewport_spec().1 || column >= old(self).viewport_spec().0 ==> final(self).same_rows(
                *old(self),
            ),
            row < old(self).viewport_spec().1 && column < old(self).viewport_spec().0 ==> forall|r: int, c: int|
                #![trigger final(self).cell_view(c, r)]
                0 <= r < old(self).viewport_spec().1 && 0 <= c < old(self).viewport_spec().0
                    ==> final(self).cell_view(c, r) == if r == row {
                    glyph_cell(
                        old(self).cell_view(c, r),
                        c,
                        column,
                        symbol@,
                        glyph_width(old(self).viewport_spec().0, column, width),
                    )
                } else {
                    old(self).cell_view(c, r)
                },
    {
        if row >= self.height || column >= self.width {
            return ;
        }
        let w = self.width;
        let limit = w - column;
        let ghost gw = glyph_width(w, column, width);
        let width = if width < 1 {
            1
        } else if width > limit {
            limit
        } else {
            width
        };
        let r = row as usize;
        let mut cells: Vec<Cell> = Vec::new();
        let mut c: usize = 0;
        let old_row = &self.rows[r];
        while c < old_row.len()
            invariant
                old_row@.len() == w,
                c <= w,
                cells@.len() == c,
                1 <= width <= w - column,
                width == gw,
                forall|j: int| 0 <= j < w ==> (#[trigger] old_row@[j]).owner <= j && j + old_row@[j].width <= w,
                forall|j: int| 0 <= j < c ==> (#[trigger] cells@[j]).owner <= j && j + cells@[j].width <= w,
                forall|j: int| 0 <= j < c ==> #[trigger] cell_glyph(cells@[j]) == glyph_cell(
                    cell_glyph(old_row@[j]),
                    j,
                    column,
                    symbol@,
                    gw,
                ),
            decreases old_row.len() - c,
        {
            let cell = if c == column as usize {
                Cell { symbol: crate::text::owned(symbol), owner: column, width }
            } else if c > column as usize && c < column as usize + width as usize {
                Cell { symbol: String::new(), owner: column, width: 0 }
            } else {
                Cell {
                    symbol: old_row[c].symbol.clone(),
                    owner: old_row[c].owner,
                    width: old_row[c].width,
                }
            };
            cells.push(cell);
            c = c + 1;
        }
        let ghost before = self.rows@;
        self.rows.set(r, cells);
        proof {
            assert forall|k: int, j: int|
                0 <= k < self.rows@.len() && 0 <= j < self.width implies {
                let cell = #[trigger] self.rows@[k]@[j];
                &&& cell.owner <= j
                &&& j + cell.width <= self.width
            } by {
                if k != r {
                    assert(self.rows@[k] == before[k]);
                }
            }
        }
    }

    /// The glyph at a cell: its symbol, the column that owns it, its width.
    pub closed spec fn cell_view(&self, column: int, row: int) -> (Seq<char>, u16, u16) {
        cell_glyph(self.rows@[row]@[column])
    }

    fn cell(&self, column: u16, row: u16) -> (r: &Cell)
        requires
            self.wf(),
            column < self.viewport_spec().0,
            row < self.viewport_spec().1,
        ensures
            *r == self.cell_spec(column as int, row as int),
            r.owner <= column,
            column + r.width <= self.viewport_spec().0,
    {
        &self.rows[row as usize][column as usize]
    }

    fn point_at(&self, column: u16, row: u16) -> (r: Option<Point>)
        ensures
            r == self.point_at_spec(column, row),
    {
        if column < self.width && row < self.height {
            Some(Point { row, column })
        } else {
            None
        }
    }

    fn clamp_point(&self, column: u16, row: u16) -> (r: Option<Point>)
        ensures
            r == self.clamp_point_spec(column, row),
    {
        let max_c = self.width.saturating_sub(1);
        let max_r = self.height.saturating_sub(1);
        let c = if column < max_c {
            column
        } else {
            max_c
        };
        let r = if row < max_r {
            row
        } else {
            max_r
        };
        self.point_at(c, r)
    }

    /// The screen cells a selection covers, one range per row.
    pub fn selected_cell_ranges(&self, selection: &MouseSelection) -> (r: Vec<SelectionCellRange>)
        requires
            self.wf(),
            selection.fits(*self),
        ensures
            r@ == self.ranges_spec(*selection),
    {
        let (start, end) = match selection.bounds_for(self) {
            Some(b) => b,
            None => return Vec::new(),
        };
        let anchor = match selection.anchor {
            Some(a) => a,
            None => return Vec::new(),
        };
        let (left, right) = self.pane_bounds(anchor);
        let mut out: Vec<SelectionCellRange> = Vec::new();
        let mut row: u32 = start.row as u32;
        let ghost want = self.ranges_spec(*selection);
        while row <= end.row as u32
            invariant
                self.wf(),
                selection.fits(*self),
                selection.bounds_spec(self.epoch) == Some((start, end)),
                selection.anchor == Some(anchor),
                (left, right) == self.pane_bounds_spec(anchor),
                left <= right,
                start.row <= row <= end.row + 1,
                end.row < self.height,
                start.column < self.width,
                end.column < self.width,
                right < self.width,
                want == self.ranges_spec(*selection),
                want.len() == end.row - start.row + 1,
                out@.len() == row - start.row,
                forall|i: int| 0 <= i < out@.len() ==> #[trigger] out@[i] == want[i],
            decreases end.row + 1 - row,
        {
            let r16 = row as u16;
            let first = if r16 == start.row {
                start.column
            } else {
                left
            };
            let last = if r16 == end.row {
                end.column
            } else {
                right
            };
            let x = self.cell(first, r16).owner;
            let last_owner = self.cell(last, r16).owner;
            let right_edge = last_owner + self.cell(last_owner, r16).width;
            let width = if right_edge > x {
                right_edge - x
            } else {
                0
            };
            out.push(SelectionCellRange { x, y: r16, width });
            row = row + 1;
        }
        proof {
            assert(out@ =~= want);
        }
        out
    }

    fn line(&self, range: SelectionCellRange) -> (r: String)
        requires
            self.wf(),
            range.y < self.viewport_spec().1,
            range.x + range.width <= self.viewport_spec().0,
        ensures
            r@ == self.line_spec(range),
    {
        let mut line = String::new();
        let row = &self.rows[range.y as usize];
        let mut c: usize = range.x as usize;
        let end: usize = range.x as usize + range.width as usize;
        while c < end
            invariant
                range.x <= c <= end,
                end == range.x + range.width,
                end <= row@.len(),
                line@ == symbols(row@, range.x as int, c as int),
            decreases end - c,
        {
            push_str(&mut line, row[c].symbol.as_str());
            c = c + 1;
        }
        let v = crate::text::chars_of(line.as_str());
        let mut n = v.len();
        proof {
            assert(v@.take(n as int) =~= v@);
        }
        while n > 0 && v[n - 1] == ' '
            invariant
                n <= v@.len(),
                trim_end_spaces(v@) == trim_end_spaces(v@.take(n as int)),
            decreases n,
        {
            proof {
                assert(v@.take(n as int).drop_last() =~= v@.take(n - 1));
            }
            n = n - 1;
        }
        proof {
            assert(v@.subrange(0, n as int) =~= v@.take(n as int));
            assert(trim_end_spaces(v@.take(n as int)) == v@.take(n as int));
        }
        crate::text::string_of_range(v.as_slice(), 0, n)
    }

    fn extract(&self, selection: &MouseSelection) -> (r: Option<String>)
        requires
            self.wf(),
            selection.fits(*self),
        ensures
            match self.text_spec(*selection) {
                Some(t) => r matches Some(s) && s@ == t,
                None => r is None,
            },
    {
        let ranges = self.selected_cell_ranges(selection);
        let ghost lines = self.lines_spec(*selection);
        let mut text = String::new();
        let mut i: usize = 0;
        while i < ranges.len()
            invariant
                self.wf(),
                selection.fits(*self),
                ranges@ == self.ranges_spec(*selection),
                lines == self.lines_spec(*selection),
                lines.len() == ranges@.len(),
                forall|k: int| 0 <= k < lines.len() ==> #[trigger] lines[k] == self.line_spec(ranges@[k]),
                i <= ranges@.len(),
                text@ == join_lines(lines.take(i as int)),
                forall|k: int| 0 <= k < ranges@.len() ==> (#[trigger] ranges@[k]).y < self.height && ranges@[k].x + ranges@[k].width <= self.width,
            decreases ranges.len() - i,
        {
            let line = self.line(ranges[i]);
            if i > 0 {
                push_char(&mut text, '\n');
            }
            push_str(&mut text, line.as_str());
            proof {
                assert(lines.take(i + 1).drop_last() =~= lines.take(i as int));
                if i == 0 {
                    assert(text@ =~= join_lines(lines.take(1)));
                } else {
                    assert(text@ =~= join_lines(lines.take(i + 1)));
                }
            }
            i = i + 1;
        }
        proof {
            assert(lines.take(i as int) =~= lines);
        }
        let v = crate::text::chars_of(text.as_str());
        let mut k: usize = 0;
        while k < v.len()
            invariant
                k <= v@.len(),
                v@ == text@,
                text@ == join_lines(self.lines_spec(*selection)),
                forall|j: int| 0 <= j < k ==> is_white_space(#[trigger] v@[j]),
            decreases v.len() - k,
        {
            if !crate::text::is_whitespace(v[k]) {
                proof {
                    assert(!is_white_space(text@[k as int]));
                }
                return Some(text);
            }
            k = k + 1;
        }
        None
    }
}

/// Two rows hold the same cells.
spec fn same_cells(a: Seq<Cell>, b: Seq<Cell>) -> bool {
    &&& a.len() == b.len()
    &&& forall|i: int|
        0 <= i < a.len() ==> (#[trigger] a[i]).symbol@ == b[i].symbol@ && a[i].owner == b[i].owner
            && a[i].width == b[i].width
}

fn cells_equal(a: &Vec<Cell>, b: &Vec<Cell>) -> (r: bool)
    ensures
        r == same_cells(a@, b@),
{
    if a.len() != b.len() {
        return false;
    }
    let mut i: usize = 0;
    while i < a.len()
        invariant
            i <= a@.len() == b@.len(),
            forall|k: int|
                0 <= k < i ==> (#[trigger] a@[k]).symbol@ == b@[k].symbol@ && a@[k].owner == b@[k].owner
                    && a@[k].width == b@[k].width,
        decreases a.len() - i,
    {
        if !(crate::text::str_eq(a[i].symbol.as_str(), b[i].symbol.as_str()) && a[i].owner == b[i].owner
            && a[i].width == b[i].width) {
            return false;
        }
        i = i + 1;
    }
    true
}

impl MouseSelection {
    pub closed spec fn epoch_spec(&self) -> Option<u64> {
        self.epoch
    }

    pub closed spec fn dragging_spec(&self) -> bool {
        self.dragging
    }

    /// The selection's points lie on `frame` whenever it belongs to it, and
    /// a drag always has its anchor.
    pub closed spec fn fits(&self, frame: SelectionFrame) -> bool {
        &&& self.dragging ==> self.anchor is Some
        &&& self.moved ==> self.anchor is Some || self.focus is None
        &&& self.epoch == Some(frame.epoch) ==> {
            &&& self.anchor matches Some(a) ==> a.column < frame.width && a.row < frame.height
            &&& self.focus matches Some(f) ==> f.column < frame.width && f.row < frame.height
        }
    }

    /// Start and end of the selected region in reading order, once the
    /// pointer has moved within the selection's own frame.
    pub closed spec fn bounds_spec(&self, frame_epoch: u64) -> Option<(Point, Point)> {
        if self.epoch != Some(frame_epoch) || !self.moved {
            None
        } else {
            match (self.anchor, self.focus) {
                (Some(a), Some(f)) => if point_le(a, f) {
                    Some((a, f))
                } else {
                    Some((f, a))
                },
                _ => None,
            }
        }
    }

    /// The selection after `event` over `frame`.
    pub closed spec fn after_event(self, event: PointerEvent, frame: SelectionFrame) -> MouseSelection {
        let s = if self.epoch matches Some(e) && e != frame.epoch {
            no_selection()
        } else {
            self
        };
        match event {
            PointerEvent::Wheel { .. } | PointerEvent::FocusLost => no_selection(),
            PointerEvent::PrimaryPress { column, row } => match frame.point_at_spec(column, row) {
                Some(p) => if frame.epoch != 0 && Some(p.column) != frame.pane_separator {
                    MouseSelection {
                        epoch: Some(frame.epoch),
                        anchor: Some(p),
                        focus: Some(p),
                        dragging: true,
                        moved: false,
                    }
                } else {
                    no_selection()
                },
                None => no_selection(),
            },
            PointerEvent::PrimaryDrag { column, row } | PointerEvent::PrimaryRelease {
                column,
                row,
            } => if s.dragging {
                let (left, right) = frame.pane_bounds_spec(s.anchor.unwrap());
                let c = if column < left {
                    left
                } else if column > right {
                    right
                } else {
                    column
                };
                MouseSelection {
                    focus: frame.clamp_point_spec(c, row),
                    moved: s.moved || s.anchor != Some(Point { column, row }),
                    dragging: s.dragging && !(event is PrimaryRelease),
                    ..s
                }
            } else {
                s
            },
        }
    }

    /// The text a gesture copies: a release ending a drag over this frame
    /// copies the selection it leaves.
    pub closed spec fn copied_text(self, event: PointerEvent, frame: SelectionFrame) -> Option<
        Seq<char>,
    > {
        let s = if self.epoch matches Some(e) && e != frame.epoch {
            no_selection()
        } else {
            self
        };
        if event is PrimaryRelease && s.dragging {
            frame.text_spec(self.after_event(event, frame))
        } else {
            None
        }
    }

    pub fn new() -> (r: MouseSelection)
        ensures
            r == no_selection(),
    {
        MouseSelection { epoch: None, anchor: None, focus: None, dragging: false, moved: false }
    }

    pub fn clear(&mut self)
        ensures
            *final(self) == no_selection(),
    {
        *self = MouseSelection::new();
    }

    pub fn is_dragging(&self) -> (r: bool)
        ensures
            r == self.dragging_spec(),
    {
        self.dragging
    }

    /// A drag over this very frame is in progress.
    pub fn holds(&self, frame: &SelectionFrame) -> (r: bool)
        ensures
            r == (self.dragging_spec() && self.epoch_spec() == Some(frame.epoch_spec())),
    {
        self.dragging && self.epoch == Some(frame.epoch)
    }

    /// Apply one pointer gesture. A release that ends a drag copies the
    /// selected text, if any.
    pub fn handle(&mut self, event: PointerEvent, frame: &SelectionFrame) -> (r: SelectionUpdate)
        requires
            frame.wf(),
            old(self).fits(*frame),
        ensures
            *final(self) == old(self).after_event(event, *frame),
            final(self).fits(*frame),
            r.changed == (*final(self) != *old(self)),
            match old(self).copied_text(event, *frame) {
                Some(t) => r.copy matches Some(c) && c@ == t,
                None => r.copy is None,
            },
    {
        let before = *self;
        let mut copy: Option<String> = None;
        match self.epoch {
            Some(e) => if e != frame.epoch {
                self.clear();
            },
            None => {},
        }
        match event {
            PointerEvent::Wheel { .. } | PointerEvent::FocusLost => self.clear(),
            PointerEvent::PrimaryPress { column, row } => {
                self.clear();
                if frame.epoch != 0 {
                    match frame.point_at(column, row) {
                        Some(point) => {
                            let on_separator = match frame.pane_separator {
                                Some(s) => point.column == s,
                                None => false,
                            };
                            if !on_separator {
                                self.epoch = Some(frame.epoch);
                                self.anchor = Some(point);
                                self.focus = Some(point);
                                self.dragging = true;
                            }
                        },
                        None => {},
                    }
                }
            },
            PointerEvent::PrimaryDrag { column, row } | PointerEvent::PrimaryRelease {
                column,
                row,
            } => {
                if self.dragging {
                    let anchor = self.anchor.unwrap();
                    let (left, right) = frame.pane_bounds(anchor);
                    let c = if column < left {
                        left
                    } else if column > right {
                        right
                    } else {
                        column
                    };
                    self.focus = frame.clamp_point(c, row);
                    let same = match self.anchor {
                        Some(a) => a.column == column && a.row == row,
                        None => false,
                    };
                    self.moved = self.moved || !same;
                    if let PointerEvent::PrimaryRelease { .. } = event {
                        self.dragging = false;
                        copy = frame.extract(self);
                    }
                }
            },
        }
        SelectionUpdate { changed: *self != before, copy }
    }

    fn bounds_for(&self, frame: &SelectionFrame) -> (r: Option<(Point, Point)>)
        ensures
            r == self.bounds_spec(frame.epoch_spec()),
    {
        if self.epoch != Some(frame.epoch) || !self.moved {
            return None;
        }
        match (self.anchor, self.focus) {
            (Some(a), Some(f)) => if a.row < f.row || (a.row == f.row && a.column <= f.column) {
                Some((a, f))
            } else {
                Some((f, a))
            },
            _ => None,
        }
    }
}

impl Default for MouseSelection {
    fn default() -> (r: MouseSelection)
        ensures
            r == no_selection(),
    {
        MouseSelection::new()
    }
}

} // verus!
