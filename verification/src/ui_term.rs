//! A terminal in a window: which cells are painted, and which are left alone.

use vstd::prelude::*;

use crate::text::{append_decimal, chars_of, decimal};

verus! {

/// A screen of `vt100`.
#[verifier::external_type_specification]
#[verifier::external_body]
pub struct ExScreen(vt100::Screen);

/// A colour of a cell.
#[derive(Copy, Clone, Debug, PartialEq, Eq, Structural)]
pub enum CellColor {
    /// Whatever the window uses.
    Default,
    /// By its index.
    Idx(u8),
    /// By its parts.
    Rgb(u8, u8, u8),
}

/// How a cell looks.
#[derive(Copy, Clone, Debug, PartialEq, Eq, Structural)]
pub struct CellStyle {
    /// Whether it is bold.
    pub bold: bool,
    /// Whether it is italic.
    pub italic: bool,
    /// Whether the colours are exchanged.
    pub inverse: bool,
    /// Whether it is underlined.
    pub underline: bool,
    /// Colour of the text.
    pub fg: CellColor,
    /// Colour behind the text.
    pub bg: CellColor,
}

/// A cell of a screen.
#[derive(Debug)]
pub struct Cell {
    /// Its text.
    pub contents: String,
    /// How it looks.
    pub style: CellStyle,
}

/// A cell of a screen, its text as characters.
pub struct CellView {
    /// Its text.
    pub contents: Seq<char>,
    /// How it looks.
    pub style: CellStyle,
}

impl View for Cell {
    type V = CellView;

    open spec fn view(&self) -> CellView {
        CellView { contents: self.contents@, style: self.style }
    }
}

/// The cells that can be seen on a screen, by row and column.
pub uninterp spec fn cells_of(screen: vt100::Screen) -> Map<(u16, u16), CellView>;

/// How many lines a screen is scrolled back.
pub uninterp spec fn scrollback_of(screen: vt100::Screen) -> nat;

/// `vt100::Screen::cell` gives the cell at a row and a column, if there is one. Its text and its
/// look are those that `vt100::Cell` tells of.
#[verifier::external_body]
fn cell(screen: &vt100::Screen, row: u16, col: u16) -> (r: Option<Cell>)
    ensures
        match r {
            Some(cell) => cells_of(*screen).contains_key((row, col)) && cell@ == cells_of(
                *screen,
            )[(row, col)],
            None => !cells_of(*screen).contains_key((row, col)),
        },
{
    let color = |c| match c {
        vt100::Color::Default => CellColor::Default,
        vt100::Color::Idx(i) => CellColor::Idx(i),
        vt100::Color::Rgb(r, g, b) => CellColor::Rgb(r, g, b),
    };
    let cell = screen.cell(row, col)?;
    let (fg, bg) = (color(cell.fgcolor()), color(cell.bgcolor()));
    let (bold, italic) = (cell.bold(), cell.italic());
    let (inverse, underline) = (cell.inverse(), cell.underline());
    let style = CellStyle { bold, italic, inverse, underline, fg, bg };
    Some(Cell { contents: cell.contents().to_string(), style })
}

/// `vt100::Screen::scrollback` gives the number of lines that the screen is scrolled back.
#[verifier::external_body]
fn scrollback(screen: &vt100::Screen) -> (r: usize)
    ensures
        r == scrollback_of(*screen),
{
    screen.scrollback()
}

/// A part of a window.
#[derive(Copy, Clone, Debug, PartialEq, Eq, Structural)]
pub struct Area {
    /// Its first column.
    pub x: u16,
    /// Its first row.
    pub y: u16,
    /// How many columns it has.
    pub width: u16,
    /// How many rows it has.
    pub height: u16,
}

/// What happens to a cell of the window.
#[derive(Debug)]
pub enum Paint {
    /// It shows a cell of the screen.
    Show(Cell),
    /// It is cleared.
    Blank,
    /// It is left as it is.
    Skip,
}

/// What happens to a cell of the window, its text as characters.
pub enum PaintView {
    /// It shows a cell of the screen.
    Show(CellView),
    /// It is cleared.
    Blank,
    /// It is left as it is.
    Skip,
}

impl View for Paint {
    type V = PaintView;

    open spec fn view(&self) -> PaintView {
        match *self {
            Paint::Show(cell) => PaintView::Show(cell@),
            Paint::Blank => PaintView::Blank,
            Paint::Skip => PaintView::Skip,
        }
    }
}

/// A text over the top right corner of the terminal.
#[derive(Debug)]
pub struct Overlay {
    /// The column that it starts in.
    pub x: u16,
    /// Its row.
    pub y: u16,
    /// What it says.
    pub text: String,
}

/// A row of a screen: its cells, as far as there are any.
pub type RowView = Seq<Option<CellView>>;

/// Whether there is a cell with a text.
pub open spec fn has_contents(cell: Option<CellView>) -> bool {
    match cell {
        Some(cell) => cell.contents.len() > 0,
        None => false,
    }
}

/// The column past the last cell with a text.
pub open spec fn content_end(row: RowView) -> nat
    decreases row.len(),
{
    if row.len() == 0 {
        0
    } else if has_contents(row.last()) {
        row.len()
    } else {
        content_end(row.drop_last())
    }
}

/// What happens to a cell of a row of the window of which so many columns were painted before:
/// it shows the cell of the screen, or is cleared where that has no text but a later one has, or
/// where it was painted before.
pub open spec fn paint_of(row: RowView, painted: nat, col: int) -> PaintView {
    if col < content_end(row) {
        if has_contents(row[col]) {
            PaintView::Show(row[col]->0)
        } else {
            PaintView::Blank
        }
    } else if col < painted {
        PaintView::Blank
    } else {
        PaintView::Skip
    }
}

/// What happens to a row of the window.
pub open spec fn painted_row(row: RowView, painted: nat) -> Seq<PaintView> {
    Seq::new(row.len(), |col: int| paint_of(row, painted, col))
}

/// How many columns of a row were painted before: none of a row that is new.
pub open spec fn painted_before(painted: Seq<u16>, row: int) -> nat {
    if row < painted.len() {
        painted[row] as nat
    } else {
        0
    }
}

/// What the text over the corner says.
pub open spec fn overlay_text(scrollback: nat) -> Seq<char> {
    " -"@ + decimal(scrollback) + " "@
}

/// The views of rows.
pub open spec fn rows_view(rows: Seq<Vec<Option<Cell>>>) -> Seq<RowView> {
    rows.map_values(|row: Vec<Option<Cell>>| row_view(row@))
}

/// The view of a row.
pub open spec fn row_view(row: Seq<Option<Cell>>) -> RowView {
    row.map_values(
        |cell: Option<Cell>|
            match cell {
                Some(cell) => Some(cell@),
                None => None,
            },
    )
}

/// The views of what happens to cells.
pub open spec fn paints_view(paints: Seq<Paint>) -> Seq<PaintView> {
    paints.map_values(|p: Paint| p@)
}

/// What was done to the window.
#[derive(Debug)]
pub struct Painted {
    /// What happened to the cells, row by row.
    pub rows: Vec<Vec<Paint>>,
    /// The text over the corner.
    pub overlay: Option<Overlay>,
}

/// Whether this is how a screen is painted.
pub open spec fn is_painted(
    r: Painted,
    rows: Seq<RowView>,
    scrollback: nat,
    area: Area,
    before: Seq<u16>,
    after: Seq<u16>,
) -> bool {
    &&& r.rows@.len() == rows.len()
    &&& forall|i: int|
        0 <= i < rows.len() ==> paints_view((#[trigger] r.rows@[i])@) == painted_row(
            rows[i],
            painted_before(before, i),
        )
    &&& after.len() == rows.len()
    &&& forall|i: int|
        0 <= i < rows.len() ==> #[trigger] after[i] == if i == 0 && scrollback > 0 {
            area.width as nat
        } else {
            content_end(rows[i])
        }
    &&& if scrollback > 0 {
        &&& r.overlay is Some
        &&& r.overlay->0.text@ == overlay_text(scrollback)
        &&& r.overlay->0.x == area.x + area.width - overlay_text(scrollback).len()
        &&& r.overlay->0.y == area.y
    } else {
        r.overlay is None
    }
}

/// Whether the text over the corner fits.
pub open spec fn overlay_fits(scrollback: nat, area: Area) -> bool {
    scrollback > 0 ==> area.height > 0 && area.x + area.width <= u16::MAX && overlay_text(
        scrollback,
    ).len() <= area.x + area.width
}

fn find_content_end(row: &Vec<Option<Cell>>) -> (r: u16)
    requires
        row@.len() <= u16::MAX,
    ensures
        r == content_end(row_view(row@)),
        r <= row@.len(),
{
    let ghost view = row_view(row@);
    let mut end: usize = row.len();
    assert(view.take(end as int) =~= view);
    while end > 0
        invariant
            view == row_view(row@),
            end <= row@.len() <= u16::MAX,
            content_end(view) == content_end(view.take(end as int)),
        decreases end,
    {
        proof {
            assert(view.take(end as int).last() == view[end - 1]);
            assert(view.take(end as int).drop_last() =~= view.take(end - 1));
        }
        let has = match &row[end - 1] {
            Some(cell) => chars_of(cell.contents.as_str()).len() > 0,
            None => false,
        };
        if has {
            return end as u16;
        }
        end -= 1;
    }
    0
}

/// Paints a row. Returned is also the column past the last cell with a text.
fn paint_row(row: Vec<Option<Cell>>, painted: u16) -> (r: (Vec<Paint>, u16))
    requires
        row@.len() <= u16::MAX,
    ensures
        paints_view(r.0@) == painted_row(row_view(row@), painted as nat),
        r.1 == content_end(row_view(row@)),
        r.1 <= row@.len(),
{
    let ghost all = row@;
    let ghost view = row_view(all);
    let end: u16 = find_content_end(&row);
    let mut r: Vec<Paint> = Vec::new();
    let mut col: usize = 0;
    let n: usize = row.len();
    for cell in it: row
        invariant
            it.seq() == all,
            view == row_view(all),
            n == all.len() <= u16::MAX,
            end == content_end(view),
            col == it.index(),
            r@.len() == it.index(),
            forall|j: int|
                0 <= j < it.index() ==> (#[trigger] r@[j])@ == paint_of(view, painted as nat, j),
    {
        assert(view[it.index() as int] == match cell {
            Some(cell) => Some(cell@),
            None => None,
        });
        let has = match &cell {
            Some(cell) => chars_of(cell.contents.as_str()).len() > 0,
            None => false,
        };
        let paint = if col < end as usize {
            match cell {
                Some(cell) => if has {
                    Paint::Show(cell)
                } else {
                    Paint::Blank
                },
                None => Paint::Blank,
            }
        } else if col < painted as usize {
            Paint::Blank
        } else {
            Paint::Skip
        };
        r.push(paint);
        col = col + 1;
    }
    assert(paints_view(r@) =~= painted_row(view, painted as nat));
    (r, end)
}

/// Paints the rows of a screen. The number of columns that are painted in each row is kept for
/// the next time, so that what a longer line left behind is cleared, and cells that were never
/// painted are left alone.
pub fn paint(
    rows: Vec<Vec<Option<Cell>>>,
    scrollback: usize,
    area: Area,
    painted_cols: &mut Vec<u16>,
) -> (r: Painted)
    requires
        rows@.len() == area.height,
        forall|i: int| 0 <= i < rows@.len() ==> (#[trigger] rows@[i])@.len() == area.width,
        overlay_fits(scrollback as nat, area),
    ensures
        is_painted(
            r,
            rows_view(rows@),
            scrollback as nat,
            area,
            old(painted_cols)@,
            final(painted_cols)@,
        ),
{
    let ghost all = rows@;
    let ghost views = rows_view(all);
    let ghost before = painted_cols@;
    let mut painted: Vec<Vec<Paint>> = Vec::new();
    let mut after: Vec<u16> = Vec::new();
    let mut i: usize = 0;
    for row in it: rows
        invariant
            it.seq() == all,
            views == rows_view(all),
            all.len() == area.height,
            forall|j: int| 0 <= j < all.len() ==> (#[trigger] all[j])@.len() == area.width,
            painted_cols@ == before,
            i == it.index(),
            painted@.len() == i,
            after@.len() == i,
            forall|j: int|
                0 <= j < i ==> paints_view((#[trigger] painted@[j])@) == painted_row(
                    views[j],
                    painted_before(before, j),
                ),
            forall|j: int| 0 <= j < i ==> #[trigger] after@[j] == content_end(views[j]),
    {
        proof {
            assert(row == all[it.index() as int]);
            assert(views[it.index() as int] == row_view(row@));
        }
        let old_cols: u16 = if i < painted_cols.len() {
            painted_cols[i]
        } else {
            0
        };
        let (paints, end) = paint_row(row, old_cols);
        painted.push(paints);
        after.push(end);
        i = i + 1;
    }
    let mut overlay: Option<Overlay> = None;
    if scrollback > 0 {
        let mut text = " -".to_owned();
        append_decimal(&mut text, scrollback as u64);
        text.append(" ");
        let length: u16 = chars_of(text.as_str()).len() as u16;
        overlay = Some(Overlay { x: area.x + area.width - length, y: area.y, text });
        after.set(0, area.width);
    }
    *painted_cols = after;
    Painted { rows: painted, overlay }
}

/// The rows of a screen, as far as an area shows them.
pub open spec fn shown_rows(screen: vt100::Screen, area: Area) -> Seq<RowView> {
    Seq::new(
        area.height as nat,
        |row: int|
            Seq::new(
                area.width as nat,
                |col: int|
                    {
                        let at = (row as u16, col as u16);
                        if cells_of(screen).contains_key(at) {
                            Some(cells_of(screen)[at])
                        } else {
                            None
                        }
                    },
            ),
    )
}

/// A terminal in a window.
pub struct UiTerm<'a> {
    /// What it shows.
    pub screen: &'a vt100::Screen,
}

impl<'a> UiTerm<'a> {
    /// Shows a screen.
    pub fn new(screen: &'a vt100::Screen) -> (r: Self)
        ensures
            r.screen == screen,
    {
        UiTerm { screen }
    }

    /// Paints the screen into an area of the window, unless it is scrolled back and the text that
    /// tells so does not fit.
    pub fn render(&self, area: Area, painted_cols: &mut Vec<u16>) -> (r: Option<Painted>)
        ensures
            if overlay_fits(scrollback_of(*self.screen), area) {
                &&& r is Some
                &&& is_painted(
                    r->0,
                    shown_rows(*self.screen, area),
                    scrollback_of(*self.screen),
                    area,
                    old(painted_cols)@,
                    final(painted_cols)@,
                )
            } else {
                r is None && final(painted_cols)@ == old(painted_cols)@
            },
    {
        let lines: usize = scrollback(self.screen);
        if lines > 0 {
            let mut text = " -".to_owned();
            append_decimal(&mut text, lines as u64);
            text.append(" ");
            let right: u32 = area.x as u32 + area.width as u32;
            let length: usize = chars_of(text.as_str()).len();
            if area.height == 0 || right > 65535 || length > right as usize {
                return None;
            }
        }
        let ghost shown = shown_rows(*self.screen, area);
        let mut rows: Vec<Vec<Option<Cell>>> = Vec::new();
        for row in 0..area.height
            invariant
                shown == shown_rows(*self.screen, area),
                rows@.len() == row,
                forall|i: int|
                    0 <= i < row ==> (#[trigger] rows@[i])@.len() == area.width && row_view(
                        rows@[i]@,
                    ) == shown[i],
        {
            let mut cells: Vec<Option<Cell>> = Vec::new();
            for col in 0..area.width
                invariant
                    row < area.height,
                    shown == shown_rows(*self.screen, area),
                    cells@.len() == col,
                    forall|j: int|
                        0 <= j < col ==> #[trigger] row_view(cells@)[j] == shown[row as int][j],
            {
                let ghost before = cells@;
                cells.push(cell(self.screen, row, col));
                proof {
                    assert forall|j: int| 0 <= j < col + 1 implies #[trigger] row_view(cells@)[j]
                        == shown[row as int][j] by {
                        if j < col {
                            assert(row_view(before)[j] == shown[row as int][j]);
                        }
                    }
                }
            }
            assert(row_view(cells@) =~= shown[row as int]);
            rows.push(cells);
        }
        assert(rows_view(rows@) =~= shown);
        Some(paint(rows, lines, area, painted_cols))
    }
}

/// A cell that was painted for a line is painted again the next time, whatever is shown then: a
/// shorter line leaves nothing of a longer one behind.
pub proof fn law_nothing_is_left_behind(first: RowView, painted: nat, second: RowView, col: int)
    requires
        0 <= col < first.len(),
        first.len() == second.len(),
        col < content_end(first),
    ensures
        !(paint_of(first, painted, col) is Skip),
        !(paint_of(second, content_end(first), col) is Skip),
{
}

/// Cells past the text that were not painted before are left alone, and no others are.
pub proof fn law_trailing_cells_are_skipped(row: RowView, painted: nat, col: int)
    requires
        0 <= col < row.len(),
    ensures
        paint_of(row, painted, col) is Skip <==> col >= content_end(row) && col >= painted,
        has_contents(row[col]) ==> paint_of(row, painted, col) == PaintView::Show(row[col]->0),
{
    if has_contents(row[col]) {
        lemma_content_end(row, col);
    }
}

proof fn lemma_content_end(row: RowView, col: int)
    requires
        0 <= col < row.len(),
        has_contents(row[col]),
    ensures
        col < content_end(row),
    decreases row.len(),
{
    if !has_contents(row.last()) {
        lemma_content_end(row.drop_last(), col);
    }
}

/// The text of a line ends behind its last cell with contents.
pub proof fn law_text_ends_behind_last_cell(row: RowView, end: int)
    ensures
        content_end(row) == end <==> 0 <= end <= row.len() && (end > 0 ==> has_contents(
            row[end - 1],
        )) && forall|col: int| end <= col < row.len() ==> !has_contents(#[trigger] row[col]),
        forall|col: int|
            0 <= col < row.len() ==> (has_contents(#[trigger] row[col]) <==> row[col] is Some
                && row[col]->0.contents.len() > 0),
    decreases row.len(),
{
    if row.len() > 0 && !has_contents(row.last()) {
        let rest = row.drop_last();
        law_text_ends_behind_last_cell(rest, end);
        assert forall|col: int| end <= col < rest.len() && 0 <= end implies row[col]
            == #[trigger] rest[col] by {}
        if content_end(row) == end {
            assert forall|col: int| end <= col < row.len() implies !has_contents(
                #[trigger] row[col],
            ) by {
                if col < rest.len() {
                    assert(!has_contents(rest[col]));
                }
            }
        }
        if 0 <= end <= row.len() && (end > 0 ==> has_contents(row[end - 1])) && forall|col: int|
            end <= col < row.len() ==> !has_contents(#[trigger] row[col]) {
            assert(end < row.len());
            assert forall|col: int| end <= col < rest.len() implies !has_contents(
                #[trigger] rest[col],
            ) by {
                assert(!has_contents(row[col]));
            }
        }
    } else if row.len() > 0 {
        if 0 <= end < row.len() {
            assert(has_contents(row[row.len() - 1]));
        }
    }
}

/// A cell without contents is blanked out if there is text behind it or if it was painted before.
pub proof fn law_blank_cells(row: RowView, painted: nat, col: int)
    requires
        0 <= col < row.len(),
    ensures
        paint_of(row, painted, col) is Blank <==> !has_contents(row[col]) && (col < painted
            || exists|later: int| col < later < row.len() && has_contents(#[trigger] row[later])),
        painted_row(row, painted).len() == row.len(),
        painted_row(row, painted)[col] == paint_of(row, painted, col),
{
    law_text_ends_behind_last_cell(row, content_end(row) as int);
    if has_contents(row[col]) {
        lemma_content_end(row, col);
    }
    if exists|later: int| col < later < row.len() && has_contents(#[trigger] row[later]) {
        let later = choose|later: int|
            col < later < row.len() && has_contents(#[trigger] row[later]);
        lemma_content_end(row, later);
    }
    if col < content_end(row) && !has_contents(row[col]) {
        let last = content_end(row) - 1;
        assert(has_contents(row[last]));
    }
}

/// How far the view is scrolled back stands at the right end of the first line, and the whole line
/// is painted anew the next time.
pub proof fn law_scrolled_back_is_told(
    r: Painted,
    rows: Seq<RowView>,
    scrollback: nat,
    area: Area,
    before: Seq<u16>,
    after: Seq<u16>,
    next: RowView,
    col: int,
)
    requires
        is_painted(r, rows, scrollback, area, before, after),
        rows.len() > 0,
        0 <= col < area.width,
    ensures
        r.overlay is Some <==> scrollback > 0,
        r.overlay matches Some(overlay) ==> {
            &&& overlay.text@ == seq![' ', '-'] + decimal(scrollback) + seq![' ']
            &&& overlay.x + overlay.text@.len() == area.x + area.width
            &&& overlay.y == area.y
            &&& !(paint_of(next, painted_before(after, 0), col) is Skip)
        },
        scrollback == 0 ==> painted_before(after, 0) == content_end(rows[0]),
        painted_before(after, rows.len() as int) == 0,
{
    reveal_strlit(" -");
    reveal_strlit(" ");
    assert(" -"@ =~= seq![' ', '-']);
    assert(" "@ =~= seq![' ']);
    assert(after[0] == after[0]);
}

/// The cell at a place of the window is that of the screen at the same row and column.
pub proof fn law_rows_are_those_of_screen(screen: vt100::Screen, area: Area, row: u16, col: u16)
    requires
        row < area.height,
        col < area.width,
    ensures
        shown_rows(screen, area).len() == area.height,
        shown_rows(screen, area)[row as int].len() == area.width,
        shown_rows(screen, area)[row as int][col as int] is Some <==> cells_of(
            screen,
        ).contains_key((row, col)),
        cells_of(screen).contains_key((row, col)) ==> shown_rows(screen, area)[row as int][
            col as int
        ] == Some(cells_of(screen)[(row, col)]),
{
}

} // verus!
