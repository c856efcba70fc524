//! What the markdown renderer can lay out in a width.
//!
//! The renderer wraps lines, and it squeezes the columns of tables or drops some of them. There
//! are texts for which there is no room to do so; they are told apart here, from the shapes of
//! their lines.

use termimad::minimad::{parse_text, Options};
use termimad::wrap::hard_wrap_composite;
use termimad::CompositeKind::ListItem;
use termimad::FmtLine::{self, HorizontalRule, Normal, TableRow, TableRule};
use termimad::{get_default_skin, FmtComposite};
use vstd::prelude::*;

verus! {

// ---------------------------------------------------------------- the shapes of lines

/// A line of text or a cell of a table, as far as laying it out goes.
#[derive(Debug, Clone, Copy, PartialEq, Eq, Structural)]
pub struct CellShape {
    /// For an item of a list, how deep it is.
    pub depth: Option<u8>,
    /// The columns that it takes up on one row, with its bullet and its indentation.
    pub width: usize,
    /// The rows to which it is wrapped in a column of three characters; none where it need not be
    /// wrapped, or has no room there.
    pub pieces: usize,
}

/// A line of markdown, as far as laying it out goes.
#[derive(Debug, Clone, PartialEq, Eq)]
pub enum LineShape {
    Text(CellShape),
    /// A row of a table.
    Row(Vec<CellShape>),
    /// A row of a table that aligns so many columns.
    Rule(usize),
    Divider,
}

/// What a [`LineShape`] stands for.
pub enum ShapeView {
    Text(CellShape),
    Row(Seq<CellShape>),
    Rule(usize),
    Divider,
}

impl View for LineShape {
    type V = ShapeView;

    open spec fn view(&self) -> ShapeView {
        match self {
            LineShape::Text(cell) => ShapeView::Text(*cell),
            LineShape::Row(cells) => ShapeView::Row(cells@),
            LineShape::Rule(n) => ShapeView::Rule(*n),
            LineShape::Divider => ShapeView::Divider,
        }
    }
}

/// What a list of shapes stands for.
pub open spec fn shape_views(shapes: Seq<LineShape>) -> Seq<ShapeView> {
    shapes.map_values(|s: LineShape| s@)
}

/// The shapes of the lines of a markdown text.
pub uninterp spec fn line_shapes(text: Seq<char>) -> Seq<ShapeView>;

/// The width to which a line is wrapped to count its pieces; none where it fits into three
/// characters, or has no room for its bullet there.
fn piece_width(depth: Option<u8>, width: usize) -> (n: usize)
    ensures
        n == (if width > 3 && !(depth matches Some(d) && d > 1) {
            3
        } else {
            0usize
        }),
{
    let deep = match depth {
        Some(d) => d > 1,
        None => false,
    };
    if width > 3 && !deep {
        3
    } else {
        0
    }
}

/// `termimad::minimad::parse_text`, `termimad::FmtLine::from` and
/// `termimad::wrap::hard_wrap_composite`: the lines of a markdown text as the renderer takes them,
/// before it lays them out, the fences of code blocks left out, and into how many pieces it wraps
/// each of them; none where it is not to be wrapped. No style changes how wide a line is or where
/// it is wrapped, so those of the default skin serve.
#[verifier::external_body]
fn parse_shapes(text: &str) -> (shapes: Vec<LineShape>)
    ensures
        shape_views(shapes@) == line_shapes(text@),
{
    let skin = get_default_skin();
    let cell = |c: &FmtComposite| {
        let depth = match c.kind { ListItem(d) => Some(d), _ => None };
        let wrapped = hard_wrap_composite(c, piece_width(depth, c.visible_length), skin);
        CellShape { depth, width: c.visible_length, pieces: wrapped.iter().flatten().count() }
    };
    let shape = |line| match FmtLine::from(line, skin) {
        Normal(c) => LineShape::Text(cell(&c)),
        TableRow(row) => LineShape::Row(row.cells.iter().map(cell).collect()),
        TableRule(rule) => LineShape::Rule(rule.aligns.len()),
        HorizontalRule => LineShape::Divider,
    };
    parse_text(text, Options::default()).lines.into_iter().map(shape).collect()
}

// ---------------------------------------------------------------- the columns of a table

/// The width that rows of cells of the given widths need in a column, at least three columns of
/// the screen; `n` rows count.
pub open spec fn column_width(rows: Seq<Seq<usize>>, n: int, c: int) -> usize
    decreases n,
{
    if n <= 0 {
        3
    } else {
        let before = column_width(rows, n - 1, c);
        if c < rows[n - 1].len() && rows[n - 1][c] > before {
            rows[n - 1][c]
        } else {
            before
        }
    }
}

/// The width that the first `c` columns need together.
pub open spec fn columns_width(rows: Seq<Seq<usize>>, c: int) -> nat
    decreases c,
{
    if c <= 0 {
        0
    } else {
        columns_width(rows, c - 1) + column_width(rows, rows.len() as int, c - 1) as nat
    }
}

/// The widths of the first `n` rows' cells in a column, added up.
pub open spec fn column_total(rows: Seq<Seq<usize>>, n: int, c: int) -> nat
    decreases n,
{
    if n <= 0 {
        0
    } else {
        column_total(rows, n - 1, c) + (if c < rows[n - 1].len() {
            rows[n - 1][c] as nat
        } else {
            0
        })
    }
}

/// Whether columns can be squeezed into a width by the machine's arithmetic: the widths of a
/// column can be added up, and if several columns need more than there is, what they need can be
/// squared.
pub open spec fn can_fit(rows: Seq<Seq<usize>>, columns: usize, width: usize) -> bool {
    let need = columns_width(rows, columns as int);
    &&& forall|c: int|
        0 <= c < columns ==> #[trigger] column_total(rows, rows.len() as int, c) <= usize::MAX
    &&& columns <= 1 || need + columns + 1 <= width || need * need <= usize::MAX / 2
}

/// The widths of the columns of a table that is squeezed into a width.
pub uninterp spec fn fitted_widths(
    rows: Seq<Seq<usize>>,
    columns: usize,
    width: usize,
) -> Seq<usize>;

/// What the widths of rows of cells stand for.
pub open spec fn row_widths(rows: Seq<Vec<usize>>) -> Seq<Seq<usize>> {
    rows.map_values(|r: Vec<usize>| r@)
}

/// `termimad::TblFit::fit`: the widths of the columns of a table that is squeezed into a width,
/// borders among it, which has room for three characters in each. Where there is room for what
/// every column needs, it gets that.
#[verifier::external_body]
fn fit_columns(rows: &Vec<Vec<usize>>, columns: usize, width: usize) -> (widths: Vec<usize>)
    requires
        width <= usize::MAX / 8,
        4 * columns + 1 <= width,
        can_fit(row_widths(rows@), columns, width),
    ensures
        widths@ == fitted_widths(row_widths(rows@), columns, width),
        widths@.len() == columns,
        columns_width(row_widths(rows@), columns as int) + columns + 1 <= width ==> forall|c: int|
            0 <= c < columns ==> #[trigger] widths@[c] == column_width(
                row_widths(rows@),
                rows@.len() as int,
                c,
            ),
{
    let mut fit = termimad::TblFit::new(columns, width).expect("there is room for every column");
    for row in rows {
        for (i, w) in row.iter().enumerate() {
            fit.see_cell(i, *w);
        }
    }
    fit.fit().col_widths
}

// ---------------------------------------------------------------- what can be laid out

/// Whether a cell is an item of a list whose bullet and indentation have no room in a width.
pub open spec fn too_deep(cell: CellShape, width: int) -> bool {
    cell.depth matches Some(d) && d + 2 > width
}

/// Whether a line is part of a table.
pub open spec fn in_table(shape: ShapeView) -> bool {
    shape is Row || shape is Rule
}

/// Whether the lines from `i` up to `j` are one table.
pub open spec fn is_table(shapes: Seq<ShapeView>, i: int, j: int) -> bool {
    &&& 0 <= i < j <= shapes.len()
    &&& forall|k: int| i <= k < j ==> in_table(#[trigger] shapes[k])
    &&& i > 0 ==> !in_table(shapes[i - 1])
    &&& j < shapes.len() ==> !in_table(shapes[j])
}

/// How many columns a line of a table has.
pub open spec fn column_count(shape: ShapeView) -> usize {
    match shape {
        ShapeView::Row(cells) => cells.len() as usize,
        ShapeView::Rule(n) => n,
        _ => 0,
    }
}

/// The most columns that one of the first `n` lines of a table has.
pub open spec fn most_columns(table: Seq<ShapeView>, n: int) -> usize
    decreases n,
{
    if n <= 0 {
        0
    } else {
        let before = most_columns(table, n - 1);
        if column_count(table[n - 1]) > before {
            column_count(table[n - 1])
        } else {
            before
        }
    }
}

/// The widths of the cells of a line of a table; a row that aligns columns has none.
pub open spec fn cell_widths(shape: ShapeView) -> Seq<usize> {
    match shape {
        ShapeView::Row(cells) => cells.map_values(|c: CellShape| c.width),
        _ => seq![],
    }
}

/// The widths of the cells of the lines of a table.
pub open spec fn table_widths(table: Seq<ShapeView>) -> Seq<Seq<usize>> {
    table.map_values(|s: ShapeView| cell_widths(s))
}

/// Whether a row can be laid out where all but `n` columns are dropped, three characters wide
/// each. A row with fewer cells than that cannot be continued, so each of them has to be of one
/// piece.
pub open spec fn fits_dropped(shape: ShapeView, n: int) -> bool {
    shape matches ShapeView::Row(cells) ==> {
        &&& cells.len() >= n || forall|c: int|
            0 <= c < cells.len() ==> (#[trigger] cells[c]).pieces <= 1
        &&& forall|c: int| 0 <= c < n && c < cells.len() ==> !too_deep(#[trigger] cells[c], 3)
    }
}

/// Whether cells can be laid out in columns of the given widths.
pub open spec fn cells_fit(cells: Seq<CellShape>, widths: Seq<usize>) -> bool {
    forall|c: int|
        0 <= c < cells.len() && c < widths.len() ==> !too_deep(
            #[trigger] cells[c],
            widths[c] as int,
        )
}

/// Whether a row can be laid out in columns of the given widths.
pub open spec fn fits_widths(shape: ShapeView, widths: Seq<usize>) -> bool {
    shape matches ShapeView::Row(cells) ==> cells_fit(cells, widths)
}

/// Whether a table can be laid out in a width. A column takes up three characters and a border at
/// least; where there is no room for so many, some are dropped.
pub open spec fn table_fits(table: Seq<ShapeView>, width: usize) -> bool {
    let columns = most_columns(table, table.len() as int);
    let room = (width - 1) / 4;
    let rows = table_widths(table);
    if columns > room {
        forall|i: int| 0 <= i < table.len() ==> #[trigger] fits_dropped(table[i], room)
    } else {
        columns == 0 || {
            &&& can_fit(rows, columns, width)
            &&& forall|i: int|
                0 <= i < table.len() ==> #[trigger] fits_widths(
                    table[i],
                    fitted_widths(rows, columns, width),
                )
        }
    }
}

/// Whether a line that is not part of a table can be wrapped to a width.
pub open spec fn text_fits(shape: ShapeView, width: usize) -> bool {
    shape matches ShapeView::Text(cell) ==> !too_deep(cell, width as int)
}

/// Whether lines of the given shapes can be laid out in a width: every line has room for its
/// bullet, and every table has room. At less than three columns nothing is wrapped. A line cannot
/// be longer than memory.
pub open spec fn can_lay_out(shapes: Seq<ShapeView>, width: usize) -> bool {
    width < 3 || {
        &&& width <= usize::MAX / 8
        &&& forall|i: int| 0 <= i < shapes.len() ==> #[trigger] text_fits(shapes[i], width)
        &&& forall|i: int, j: int|
            #[trigger] is_table(shapes, i, j) ==> table_fits(shapes.subrange(i, j), width)
    }
}

/// Whether the renderer can lay a markdown text out in a width.
pub open spec fn can_wrap(text: Seq<char>, width: usize) -> bool {
    can_lay_out(line_shapes(text), width)
}

fn is_too_deep(cell: CellShape, width: usize) -> (r: bool)
    ensures
        r == too_deep(cell, width as int),
{
    match cell.depth {
        Some(d) => width < 2 || d as usize > width - 2,
        None => false,
    }
}

fn is_in_table(shape: &LineShape) -> (r: bool)
    ensures
        r == in_table(shape@),
{
    match shape {
        LineShape::Row(_) | LineShape::Rule(_) => true,
        LineShape::Text(_) | LineShape::Divider => false,
    }
}

fn count_columns(shapes: &Vec<LineShape>, from: usize, to: usize) -> (n: usize)
    requires
        from <= to <= shapes@.len(),
    ensures
        n == most_columns(
            shape_views(shapes@).subrange(from as int, to as int),
            to - from,
        ),
{
    let ghost table = shape_views(shapes@).subrange(from as int, to as int);
    let mut n: usize = 0;
    let mut i: usize = from;
    while i < to
        invariant
            from <= i <= to <= shapes@.len(),
            table == shape_views(shapes@).subrange(from as int, to as int),
            n == most_columns(table, i - from),
        decreases to - i,
    {
        assert(table[i - from] == shapes@[i as int]@);
        let own: usize = match &shapes[i] {
            LineShape::Row(cells) => cells.len(),
            LineShape::Rule(columns) => *columns,
            _ => 0,
        };
        if own > n {
            n = own;
        }
        i += 1;
    }
    n
}

fn widths_of_cells(shape: &LineShape) -> (widths: Vec<usize>)
    ensures
        widths@ == cell_widths(shape@),
{
    let mut widths: Vec<usize> = Vec::new();
    if let LineShape::Row(cells) = shape {
        let mut i: usize = 0;
        while i < cells.len()
            invariant
                i <= cells@.len(),
                widths@.len() == i,
                forall|c: int| 0 <= c < i ==> #[trigger] widths@[c] == cells@[c].width,
            decreases cells@.len() - i,
        {
            widths.push(cells[i].width);
            i += 1;
        }
    }
    assert(widths@ =~= cell_widths(shape@));
    widths
}

fn widths_of_table(shapes: &Vec<LineShape>, from: usize, to: usize) -> (rows: Vec<Vec<usize>>)
    requires
        from <= to <= shapes@.len(),
    ensures
        row_widths(rows@) == table_widths(
            shape_views(shapes@).subrange(from as int, to as int),
        ),
{
    let ghost table = shape_views(shapes@).subrange(from as int, to as int);
    let mut rows: Vec<Vec<usize>> = Vec::new();
    let mut i: usize = from;
    while i < to
        invariant
            from <= i <= to <= shapes@.len(),
            table == shape_views(shapes@).subrange(from as int, to as int),
            rows@.len() == i - from,
            forall|k: int| 0 <= k < i - from ==> (#[trigger] rows@[k])@ == cell_widths(table[k]),
        decreases to - i,
    {
        assert(table[i - from] == shapes@[i as int]@);
        rows.push(widths_of_cells(&shapes[i]));
        i += 1;
    }
    assert(row_widths(rows@) =~= table_widths(table));
    rows
}

/// The width that rows need in a column; `None` where the widths cannot be added up.
fn measure_column(rows: &Vec<Vec<usize>>, c: usize) -> (w: Option<usize>)
    ensures
        match w {
            Some(w) => w == column_width(row_widths(rows@), rows@.len() as int, c as int)
                && column_total(row_widths(rows@), rows@.len() as int, c as int) <= usize::MAX,
            None => column_total(row_widths(rows@), rows@.len() as int, c as int) > usize::MAX,
        },
{
    let ghost all = row_widths(rows@);
    let mut w: usize = 3;
    let mut total: usize = 0;
    let mut i: usize = 0;
    while i < rows.len()
        invariant
            i <= rows@.len(),
            all == row_widths(rows@),
            w == column_width(all, i as int, c as int),
            total == column_total(all, i as int, c as int),
        decreases rows@.len() - i,
    {
        assert(all[i as int] == rows@[i as int]@);
        if c < rows[i].len() {
            let own: usize = rows[i][c];
            if own > usize::MAX - total {
                proof {
                    lemma_total_grows(all, i + 1, rows@.len() as int, c as int);
                }
                return None;
            }
            total += own;
            if own > w {
                w = own;
            }
        }
        i += 1;
    }
    Some(w)
}

proof fn lemma_total_grows(rows: Seq<Seq<usize>>, m: int, n: int, c: int)
    requires
        0 <= m <= n,
    ensures
        column_total(rows, m, c) <= column_total(rows, n, c),
    decreases n,
{
    if m < n {
        lemma_total_grows(rows, m, n - 1, c);
    }
}

proof fn lemma_width_grows(rows: Seq<Seq<usize>>, m: int, n: int)
    requires
        0 <= m <= n,
    ensures
        columns_width(rows, m) <= columns_width(rows, n),
    decreases n,
{
    if m < n {
        lemma_width_grows(rows, m, n - 1);
    }
}

fn can_fit_columns(rows: &Vec<Vec<usize>>, columns: usize, width: usize) -> (r: bool)
    requires
        width <= usize::MAX / 8,
        4 * columns + 1 <= width,
    ensures
        r == can_fit(row_widths(rows@), columns, width),
{
    let ghost all = row_widths(rows@);
    let mut need: usize = 0;
    let mut c: usize = 0;
    while c < columns
        invariant
            c <= columns,
            all == row_widths(rows@),
            width <= usize::MAX / 8,
            4 * columns + 1 <= width,
            need == columns_width(all, c as int),
            forall|k: int|
                0 <= k < c ==> #[trigger] column_total(all, all.len() as int, k) <= usize::MAX,
        decreases columns - c,
    {
        match measure_column(rows, c) {
            None => {
                return false;
            },
            Some(w) => {
                if w > usize::MAX - need {
                    assert(c > 0);
                    proof {
                        lemma_width_grows(all, c + 1, columns as int);
                        let total = columns_width(all, columns as int);
                        assert(total * total > usize::MAX / 2) by (nonlinear_arith)
                            requires
                                total > usize::MAX,
                        ;
                    }
                    return false;
                }
                need += w;
            },
        }
        c += 1;
    }
    if columns <= 1 || (need <= width && columns < width - need) {
        return true;
    }
    match need.checked_mul(need) {
        Some(square) => square <= usize::MAX / 2,
        None => false,
    }
}

fn row_fits_dropped(shape: &LineShape, n: usize) -> (r: bool)
    ensures
        r == fits_dropped(shape@, n as int),
{
    if let LineShape::Row(cells) = shape {
        let mut i: usize = 0;
        while i < cells.len()
            invariant
                i <= cells@.len(),
                shape@ == ShapeView::Row(cells@),
                cells@.len() >= n || forall|c: int|
                    0 <= c < i ==> (#[trigger] cells@[c]).pieces <= 1,
                forall|c: int| 0 <= c < i && c < n ==> !too_deep(#[trigger] cells@[c], 3),
            decreases cells@.len() - i,
        {
            if cells.len() < n && cells[i].pieces > 1 {
                assert(cells@[i as int].pieces > 1);
                return false;
            }
            if i < n && is_too_deep(cells[i], 3) {
                assert(too_deep(cells@[i as int], 3));
                return false;
            }
            i += 1;
        }
    }
    true
}

/// Whether a row can be laid out in columns of the given widths.
pub fn row_fits_widths(shape: &LineShape, widths: &Vec<usize>) -> (r: bool)
    ensures
        r == fits_widths(shape@, widths@),
{
    if let LineShape::Row(cells) = shape {
        let mut i: usize = 0;
        while i < cells.len() && i < widths.len()
            invariant
                i <= cells@.len(),
                i <= widths@.len(),
                shape@ == ShapeView::Row(cells@),
                forall|c: int|
                    0 <= c < i ==> !too_deep(#[trigger] cells@[c], widths@[c] as int),
            decreases cells@.len() - i,
        {
            if is_too_deep(cells[i], widths[i]) {
                assert(too_deep(cells@[i as int], widths@[i as int] as int));
                assert(!cells_fit(cells@, widths@));
                return false;
            }
            i += 1;
        }
    }
    true
}

fn table_can_fit(shapes: &Vec<LineShape>, from: usize, to: usize, width: usize) -> (r: bool)
    requires
        from <= to <= shapes@.len(),
        3 <= width <= usize::MAX / 8,
    ensures
        r == table_fits(shape_views(shapes@).subrange(from as int, to as int), width),
{
    let ghost table = shape_views(shapes@).subrange(from as int, to as int);
    let columns: usize = count_columns(shapes, from, to);
    let room: usize = (width - 1) / 4;
    assert(columns == most_columns(table, table.len() as int));
    let mut i: usize = from;
    if columns > room {
        while i < to
            invariant
                from <= i <= to <= shapes@.len(),
                table == shape_views(shapes@).subrange(from as int, to as int),
                columns == most_columns(table, table.len() as int),
                room == (width - 1) / 4,
                columns > room,
                forall|k: int| 0 <= k < i - from ==> #[trigger] fits_dropped(table[k], room as int),
            decreases to - i,
        {
            assert(table[i - from] == shapes@[i as int]@);
            if !row_fits_dropped(&shapes[i], room) {
                assert(!fits_dropped(table[i - from], room as int));
                return false;
            }
            assert(fits_dropped(table[i - from], room as int));
            i += 1;
        }
        return true;
    }
    if columns == 0 {
        return true;
    }
    let rows = widths_of_table(shapes, from, to);
    if !can_fit_columns(&rows, columns, width) {
        return false;
    }
    let widths = fit_columns(&rows, columns, width);
    while i < to
        invariant
            from <= i <= to <= shapes@.len(),
            table == shape_views(shapes@).subrange(from as int, to as int),
            columns == most_columns(table, table.len() as int),
            0 < columns <= (width - 1) / 4,
            can_fit(table_widths(table), columns, width),
            widths@ == fitted_widths(table_widths(table), columns, width),
            forall|k: int| 0 <= k < i - from ==> #[trigger] fits_widths(table[k], widths@),
        decreases to - i,
    {
        assert(table[i - from] == shapes@[i as int]@);
        if !row_fits_widths(&shapes[i], &widths) {
            assert(!fits_widths(table[i - from], widths@));
            return false;
        }
        assert(fits_widths(table[i - from], widths@));
        i += 1;
    }
    true
}

/// The end of the table that begins at line `from`.
fn find_table_end(shapes: &Vec<LineShape>, from: usize) -> (to: usize)
    requires
        from <= shapes@.len(),
    ensures
        from <= to <= shapes@.len(),
        forall|k: int| from <= k < to ==> in_table(#[trigger] shape_views(shapes@)[k]),
        to < shapes@.len() ==> !in_table(shape_views(shapes@)[to as int]),
{
    let ghost all = shape_views(shapes@);
    let mut to: usize = from;
    while to < shapes.len() && is_in_table(&shapes[to])
        invariant
            from <= to <= shapes@.len(),
            all == shape_views(shapes@),
            forall|k: int| from <= k < to ==> in_table(#[trigger] all[k]),
        decreases shapes@.len() - to,
    {
        assert(all[to as int] == shapes@[to as int]@);
        to += 1;
    }
    assert(to < shapes@.len() ==> all[to as int] == shapes@[to as int]@);
    to
}

/// Whether lines of the given shapes can be laid out in a width.
pub fn lays_out(shapes: &Vec<LineShape>, width: usize) -> (r: bool)
    ensures
        r == can_lay_out(shape_views(shapes@), width),
{
    if width < 3 {
        return true;
    }
    if width > usize::MAX / 8 {
        return false;
    }
    let ghost all = shape_views(shapes@);
    let mut i: usize = 0;
    while i < shapes.len()
        invariant
            i <= shapes@.len(),
            all == shape_views(shapes@),
            3 <= width <= usize::MAX / 8,
            0 < i < shapes@.len() ==> !in_table(all[i - 1]) || !in_table(all[i as int]),
            forall|k: int| 0 <= k < i ==> #[trigger] text_fits(all[k], width),
            forall|j: int, k: int|
                #[trigger] is_table(all, j, k) && j < i ==> k <= i && table_fits(
                    all.subrange(j, k),
                    width,
                ),
        decreases shapes@.len() - i,
    {
        assert(all[i as int] == shapes@[i as int]@);
        let to: usize = find_table_end(shapes, i);
        if to > i {
            assert(is_table(all, i as int, to as int));
            if !table_can_fit(shapes, i, to, width) {
                return false;
            }
            assert forall|j: int, k: int| #[trigger] is_table(all, j, k) && j < to implies k <= to
                && table_fits(all.subrange(j, k), width) by {
                if j >= i {
                    if j > i {
                        assert(in_table(all[j - 1]));
                    }
                    if k < to {
                        assert(in_table(all[k]));
                    }
                    if k > to {
                        assert(in_table(all[to as int]));
                    }
                }
            }
            assert forall|k: int| 0 <= k < to implies #[trigger] text_fits(all[k], width) by {
                if k >= i {
                    assert(in_table(all[k]));
                }
            }
            i = to;
        } else {
            if let LineShape::Text(cell) = &shapes[i] {
                if is_too_deep(*cell, width) {
                    assert(!text_fits(all[i as int], width));
                    return false;
                }
            }
            assert(text_fits(all[i as int], width));
            assert forall|j: int, k: int| #[trigger] is_table(all, j, k) && j < i + 1 implies k <= i
                + 1 && table_fits(all.subrange(j, k), width) by {
                if j == i {
                    assert(in_table(all[j]));
                }
            }
            i += 1;
        }
    }
    assert forall|j: int, k: int| #[trigger] is_table(all, j, k) implies table_fits(
        all.subrange(j, k),
        width,
    ) by {
        assert(j < i);
    }
    true
}

/// Whether the renderer can lay a markdown text out in a width.
pub fn wraps_to(text: &str, width: usize) -> (r: bool)
    ensures
        r == can_wrap(text@, width),
{
    lays_out(&parse_shapes(text), width)
}

/// A column is as wide as its widest cell, and at least three characters.
pub proof fn law_column_width(rows: Seq<Seq<usize>>, n: int, c: int)
    requires
        0 <= n <= rows.len(),
        0 <= c,
    ensures
        column_width(rows, n, c) >= 3,
        forall|i: int|
            0 <= i < n && c < (#[trigger] rows[i]).len() ==> rows[i][c] <= column_width(rows, n, c),
        column_width(rows, n, c) > 3 ==> exists|i: int|
            0 <= i < n && c < (#[trigger] rows[i]).len() && rows[i][c] == column_width(rows, n, c),
    decreases n,
{
    if n > 0 {
        law_column_width(rows, n - 1, c);
        if column_width(rows, n, c) != column_width(rows, n - 1, c) {
            assert(rows[n - 1][c] == column_width(rows, n, c));
        }
    }
}

/// A table has as many columns as its row with the most.
pub proof fn law_most_columns(table: Seq<ShapeView>, n: int)
    requires
        0 <= n <= table.len(),
    ensures
        forall|i: int|
            0 <= i < n ==> column_count(#[trigger] table[i]) <= most_columns(table, n),
        most_columns(table, n) > 0 ==> exists|i: int|
            0 <= i < n && column_count(#[trigger] table[i]) == most_columns(table, n),
    decreases n,
{
    if n > 0 {
        law_most_columns(table, n - 1);
        if most_columns(table, n) != most_columns(table, n - 1) {
            assert(column_count(table[n - 1]) == most_columns(table, n));
        }
    }
}

/// The columns of a table take up what each of them does; their cells, all of what each holds.
pub proof fn law_columns_add_up(rows: Seq<Seq<usize>>, row: Seq<usize>, c: int)
    requires
        0 <= c,
    ensures
        columns_width(rows, 0) == 0,
        columns_width(rows, c + 1) - columns_width(rows, c) == column_width(
            rows,
            rows.len() as int,
            c,
        ),
        columns_width(rows, c) >= 3 * c,
        column_total(rows, 0, c) == 0,
        c < row.len() ==> column_total(rows.push(row), rows.len() as int + 1, c) == column_total(
            rows,
            rows.len() as int,
            c,
        ) + row[c],
        c >= row.len() ==> column_total(rows.push(row), rows.len() as int + 1, c) == column_total(
            rows,
            rows.len() as int,
            c,
        ),
{
    lemma_columns_at_least(rows, c);
    lemma_total_of_more(rows, row, rows.len() as int, c);
}

proof fn lemma_columns_at_least(rows: Seq<Seq<usize>>, c: int)
    requires
        0 <= c,
    ensures
        columns_width(rows, c) >= 3 * c,
    decreases c,
{
    if c > 0 {
        lemma_columns_at_least(rows, c - 1);
        law_column_width(rows, rows.len() as int, c - 1);
    }
}

proof fn lemma_total_of_more(rows: Seq<Seq<usize>>, row: Seq<usize>, n: int, c: int)
    requires
        0 <= n <= rows.len(),
        0 <= c,
    ensures
        column_total(rows.push(row), n, c) == column_total(rows, n, c),
    decreases n,
{
    if n > 0 {
        lemma_total_of_more(rows, row, n - 1, c);
    }
}

/// There is room for lines of text where each has two columns beside its indentation; below three
/// columns nothing is wrapped.
pub proof fn law_texts_are_laid_out(shapes: Seq<ShapeView>, width: usize)
    requires
        forall|i: int| 0 <= i < shapes.len() ==> (#[trigger] shapes[i]) is Text || shapes[i] is
            Divider,
    ensures
        width < 3 ==> can_lay_out(shapes, width),
        3 <= width <= usize::MAX / 8 ==> (can_lay_out(shapes, width) <==> forall|i: int|
            0 <= i < shapes.len() ==> ((#[trigger] shapes[i]) matches ShapeView::Text(cell) ==> (
            cell.depth matches Some(d) ==> d + 2 <= width))),
        width > usize::MAX / 8 ==> !can_lay_out(shapes, width),
{
    if 3 <= width <= usize::MAX / 8 {
        assert forall|i: int, j: int| #[trigger]
            is_table(shapes, i, j) implies table_fits(shapes.subrange(i, j), width) by {
            assert(in_table(shapes[i]));
        }
        if can_lay_out(shapes, width) {
            assert forall|i: int| 0 <= i < shapes.len() implies ((#[trigger] shapes[i]) matches
                ShapeView::Text(cell) ==> (cell.depth matches Some(d) ==> d + 2 <= width)) by {
                assert(text_fits(shapes[i], width));
            }
        }
    }
}

/// A table whose cells are no items of lists, with short columns that all have room, is laid out.
pub proof fn law_short_tables_are_laid_out(table: Seq<ShapeView>, width: usize)
    requires
        3 <= width <= usize::MAX / 8,
        table.len() > 0,
        forall|i: int| 0 <= i < table.len() ==> in_table(#[trigger] table[i]),
        forall|i: int|
            0 <= i < table.len() ==> ((#[trigger] table[i]) matches ShapeView::Row(cells) ==> forall|
                c: int,
            |
                0 <= c < cells.len() ==> (#[trigger] cells[c]).depth is None),
        ({
            let columns = most_columns(table, table.len() as int);
            let rows = table_widths(table);
            &&& 4 * columns + 1 <= width
            &&& columns_width(rows, columns as int) + columns + 1 <= width
            &&& forall|c: int|
                0 <= c < columns ==> #[trigger] column_total(rows, rows.len() as int, c)
                    <= usize::MAX
        }),
    ensures
        can_lay_out(table, width),
{
    let columns = most_columns(table, table.len() as int);
    let rows = table_widths(table);
    let widths = fitted_widths(rows, columns, width);
    assert forall|i: int| 0 <= i < table.len() implies #[trigger] text_fits(table[i], width) by {
        assert(in_table(table[i]));
    }
    assert forall|i: int| 0 <= i < table.len() implies #[trigger] fits_widths(table[i], widths) by {
        assert(in_table(table[i]));
    }
    assert forall|i: int, j: int| #[trigger] is_table(table, i, j) implies table_fits(
        table.subrange(i, j),
        width,
    ) by {
        if i > 0 {
            assert(in_table(table[i - 1]));
        }
        if j < table.len() {
            assert(in_table(table[j]));
        }
        assert(table.subrange(i, j) =~= table);
    }
}

/// A line of text, or a cell, with a list's item so deep that no two columns are left is refused.
pub proof fn law_deep_items_are_refused(before: Seq<ShapeView>, cell: CellShape, behind: Seq<
    ShapeView,
>, width: usize)
    requires
        width >= 3,
        cell.depth is Some,
        cell.depth->0 + 2 > width,
    ensures
        !can_lay_out(before.push(ShapeView::Text(cell)) + behind, width),
{
    let all = before.push(ShapeView::Text(cell)) + behind;
    assert(all[before.len() as int] == ShapeView::Text(cell));
    if can_lay_out(all, width) {
        assert(text_fits(all[before.len() as int], width));
    }
}

/// Every table of a document has to fit, wherever it stands: at the beginning, at the end, or
/// between lines that are no part of it.
pub proof fn law_every_table_fits(
    before: Seq<ShapeView>,
    table: Seq<ShapeView>,
    behind: Seq<ShapeView>,
    width: usize,
)
    requires
        width >= 3,
        table.len() > 0,
        forall|i: int| 0 <= i < table.len() ==> in_table(#[trigger] table[i]),
        before.len() > 0 ==> !in_table(before.last()),
        behind.len() > 0 ==> !in_table(behind[0]),
        can_lay_out(before + table + behind, width),
    ensures
        table_fits(table, width),
{
    let all = before + table + behind;
    let i = before.len() as int;
    let j = i + table.len();
    assert forall|k: int| i <= k < j implies in_table(#[trigger] all[k]) by {
        assert(all[k] == table[k - i]);
    }
    if i > 0 {
        assert(all[i - 1] == before.last());
    }
    if j < all.len() {
        assert(all[j] == behind[0]);
    }
    assert(is_table(all, i, j));
    assert(all.subrange(i, j) =~= table);
}

/// Where a table has more columns than there is room for, those that stay are three characters
/// wide: a list's item in one of them that is deeper than that leaves is refused.
pub proof fn law_narrow_columns(
    table: Seq<ShapeView>,
    width: usize,
    i: int,
    cells: Seq<CellShape>,
    c: int,
)
    requires
        width >= 3,
        0 <= i < table.len(),
        table[i] == ShapeView::Row(cells),
        4 * most_columns(table, table.len() as int) + 1 > width,
        0 <= c < cells.len(),
        4 * c + 5 <= width,
        cells[c].depth matches Some(d) && d > 1,
    ensures
        !table_fits(table, width),
{
    if table_fits(table, width) {
        assert(fits_dropped(table[i], ((width - 1) / 4) as int));
        assert(!too_deep(cells[c], 3));
    }
}

/// A shape stands for itself, and a list for its shapes in their order.
pub proof fn law_shapes_stand_for_themselves(cell: CellShape, cells: Vec<CellShape>, n: usize)
    ensures
        LineShape::Text(cell)@ == ShapeView::Text(cell),
        LineShape::Row(cells)@ == ShapeView::Row(cells@),
        LineShape::Rule(n)@ == ShapeView::Rule(n),
        LineShape::Divider@ == ShapeView::Divider,
{
}

} // verus!
