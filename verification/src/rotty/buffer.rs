//! The cell grid, and the commands that turn one grid into another.

use vstd::prelude::*;
use crossterm::style::Attribute;
use crossterm::style::Attributes;
use crate::rotty::style::Color;
use crate::rotty::style::attribute_set;
use crate::rotty::style::same_attributes;

verus! {

/// One character position of the terminal.
#[derive(Copy, Debug, PartialEq, Eq)]
pub struct Cell {
    pub ch: char,
    pub fg_color: Color,
    pub bg_color: Color,
    pub attrs: Attributes,
}

/// A cell as plain data.
pub struct CellView {
    pub ch: char,
    pub fg_color: Color,
    pub bg_color: Color,
    pub attrs: Set<Attribute>,
}

impl View for Cell {
    type V = CellView;

    open spec fn view(&self) -> CellView {
        CellView {
            ch: self.ch,
            fg_color: self.fg_color,
            bg_color: self.bg_color,
            attrs: attribute_set(self.attrs),
        }
    }
}

impl CellView {
    /// A blank in white on black, without attributes.
    pub open spec fn blank() -> CellView {
        CellView {
            ch: ' ',
            fg_color: Color::White,
            bg_color: Color::Black,
            attrs: Set::empty(),
        }
    }
}

impl Clone for Cell {
    fn clone(&self) -> (copy: Cell)
        ensures
            copy == *self,
    {
        *self
    }
}

impl Default for Cell {
    fn default() -> (cell: Cell)
        ensures
            cell@ == CellView::blank(),
    {
        Cell { ch: ' ', fg_color: Color::White, bg_color: Color::Black, attrs: Attributes::none() }
    }
}

impl Cell {
    /// Whether two cells show the same: the same character in the same
    /// colours with the same attributes.
    pub fn same(&self, other: &Cell) -> (same: bool)
        ensures
            same == (self@ == other@),
    {
        self.ch == other.ch && self.fg_color == other.fg_color && self.bg_color == other.bg_color
            && same_attributes(&self.attrs, &other.attrs)
    }
}

/// One instruction to the terminal.
#[derive(Copy, Debug, PartialEq, Eq)]
pub enum Command {
    /// Switch to the alternate screen.
    EnterAlternateScreen,
    /// Switch back from the alternate screen.
    LeaveAlternateScreen,
    /// Take input key by key, unechoed.
    EnableRawMode,
    /// Take input as before `EnableRawMode`.
    DisableRawMode,
    /// Hide the cursor.
    HideCursor,
    /// Show the cursor.
    ShowCursor,
    /// Reset the colours to the terminal's own.
    ResetColor,
    /// Move the cursor to a column and a row.
    MoveTo(u16, u16),
    /// Switch off every attribute, which also resets the colours.
    ResetAttributes,
    /// Switch on the attributes.
    SetAttributes(Attributes),
    /// Write in this colour from here on.
    SetForegroundColor(Color),
    /// Write on this colour from here on.
    SetBackgroundColor(Color),
    /// Write the character at the cursor, which moves one column on.
    Print(char),
}

impl Clone for Command {
    fn clone(&self) -> (copy: Command)
        ensures
            copy == *self,
    {
        *self
    }
}

/// A command as plain data.
pub enum CommandView {
    EnterAlternateScreen,
    LeaveAlternateScreen,
    EnableRawMode,
    DisableRawMode,
    HideCursor,
    ShowCursor,
    ResetColor,
    MoveTo(u16, u16),
    ResetAttributes,
    SetAttributes(Set<Attribute>),
    SetForegroundColor(Color),
    SetBackgroundColor(Color),
    Print(char),
}

impl View for Command {
    type V = CommandView;

    open spec fn view(&self) -> CommandView {
        match self {
            Command::EnterAlternateScreen => CommandView::EnterAlternateScreen,
            Command::LeaveAlternateScreen => CommandView::LeaveAlternateScreen,
            Command::EnableRawMode => CommandView::EnableRawMode,
            Command::DisableRawMode => CommandView::DisableRawMode,
            Command::HideCursor => CommandView::HideCursor,
            Command::ShowCursor => CommandView::ShowCursor,
            Command::ResetColor => CommandView::ResetColor,
            Command::MoveTo(x, y) => CommandView::MoveTo(*x, *y),
            Command::ResetAttributes => CommandView::ResetAttributes,
            Command::SetAttributes(attrs) => CommandView::SetAttributes(attribute_set(*attrs)),
            Command::SetForegroundColor(color) => CommandView::SetForegroundColor(*color),
            Command::SetBackgroundColor(color) => CommandView::SetBackgroundColor(*color),
            Command::Print(ch) => CommandView::Print(*ch),
        }
    }
}

/// The commands as plain data.
pub open spec fn command_views(commands: Seq<Command>) -> Seq<CommandView> {
    commands.map_values(|command: Command| command@)
}

/// What the terminal writes with: a foreground colour, a background colour
/// and attributes, as last set.
#[derive(Copy, Debug, PartialEq, Eq)]
pub struct Pen {
    pub fg_color: Color,
    pub bg_color: Color,
    pub attrs: Attributes,
}

impl Clone for Pen {
    fn clone(&self) -> (copy: Pen)
        ensures
            copy == *self,
    {
        *self
    }
}

/// What is known of the terminal in the middle of a frame: where its cursor
/// is, once it has been moved, and what it writes with.
pub struct PenView {
    pub cursor: Option<(int, int)>,
    pub fg_color: Color,
    pub bg_color: Color,
    pub attrs: Set<Attribute>,
}

impl View for Pen {
    type V = PenView;

    /// The pen of a terminal whose cursor may be anywhere.
    open spec fn view(&self) -> PenView {
        PenView {
            cursor: None,
            fg_color: self.fg_color,
            bg_color: self.bg_color,
            attrs: attribute_set(self.attrs),
        }
    }
}

impl Pen {
    /// The pen of a terminal after its attributes are reset.
    pub fn reset() -> (pen: Pen)
        ensures
            pen@ == (PenView {
                cursor: None,
                fg_color: Color::Reset,
                bg_color: Color::Reset,
                attrs: Set::empty(),
            }),
    {
        Pen { fg_color: Color::Reset, bg_color: Color::Reset, attrs: Attributes::none() }
    }
}

impl PenView {
    /// The commands that move the cursor to column `x` of row `y`: none
    /// where printing has left it there.
    pub open spec fn move_commands(self, x: int, y: int) -> Seq<CommandView> {
        if self.cursor == Some((x, y)) {
            Seq::empty()
        } else {
            seq![CommandView::MoveTo(x as u16, y as u16)]
        }
    }

    /// The commands that make the pen write with `attrs`: none where it
    /// does, else a reset and the attributes.
    pub open spec fn attribute_commands(self, attrs: Set<Attribute>) -> Seq<CommandView> {
        if self.attrs == attrs {
            Seq::empty()
        } else {
            seq![CommandView::ResetAttributes, CommandView::SetAttributes(attrs)]
        }
    }

    /// The pen once it writes with `attrs`: a reset of the attributes has
    /// reset its colours too.
    pub open spec fn with_attributes(self, attrs: Set<Attribute>) -> PenView {
        if self.attrs == attrs {
            self
        } else {
            PenView { attrs, fg_color: Color::Reset, bg_color: Color::Reset, ..self }
        }
    }

    /// The commands that make the pen write in the colours of `cell`: one
    /// for the foreground where that differs, then one for the background
    /// where that differs.
    pub open spec fn color_commands(self, cell: CellView) -> Seq<CommandView> {
        (if self.fg_color == cell.fg_color {
            Seq::<CommandView>::empty()
        } else {
            seq![CommandView::SetForegroundColor(cell.fg_color)]
        }) + (if self.bg_color == cell.bg_color {
            Seq::<CommandView>::empty()
        } else {
            seq![CommandView::SetBackgroundColor(cell.bg_color)]
        })
    }

    /// The commands that put `cell` in column `x` of row `y`: a move of the
    /// cursor, a change of attributes and changes of colours, each only
    /// where needed, and the character.
    pub open spec fn cell_commands(self, cell: CellView, x: int, y: int) -> Seq<CommandView> {
        self.move_commands(x, y) + self.attribute_commands(cell.attrs) + self.with_attributes(
            cell.attrs,
        ).color_commands(cell) + seq![CommandView::Print(cell.ch)]
    }

    /// The pen after `cell` is put in column `x` of row `y`: it writes as
    /// the cell is written, and its cursor is one column on.
    pub open spec fn after_cell(self, cell: CellView, x: int, y: int) -> PenView {
        PenView {
            cursor: Some((x + 1, y)),
            fg_color: cell.fg_color,
            bg_color: cell.bg_color,
            attrs: cell.attrs,
        }
    }
}

/// The terminal as the renderer knows it in the middle of a frame.
struct Brush {
    cursor: Option<(u16, u16)>,
    pen: Pen,
}

impl View for Brush {
    type V = PenView;

    closed spec fn view(&self) -> PenView {
        PenView {
            cursor: match self.cursor {
                Some((x, y)) => Some((x as int, y as int)),
                None => None,
            },
            ..self.pen@
        }
    }
}

/// One more command at the end is one more view at the end.
proof fn lemma_command_views_push(commands: Seq<Command>, command: Command)
    ensures
        command_views(commands.push(command)) == command_views(commands).push(command@),
{
    assert(command_views(commands.push(command)) =~= command_views(commands).push(command@));
}

/// Adds one command to `out`.
fn emit(out: &mut Vec<Command>, command: Command)
    ensures
        command_views(final(out)@) == command_views(old(out)@).push(command@),
{
    proof {
        lemma_command_views_push(out@, command);
    }
    out.push(command);
}

/// Adds to `out` the command that moves the cursor to column `x` of row `y`,
/// where it is needed.
fn put_move(out: &mut Vec<Command>, brush: &Brush, x: u16, y: u16)
    ensures
        command_views(final(out)@) == command_views(old(out)@) + brush@.move_commands(
            x as int,
            y as int,
        ),
{
    let at_target: bool = match brush.cursor {
        Some((cx, cy)) => cx == x && cy == y,
        None => false,
    };
    if !at_target {
        emit(out, Command::MoveTo(x, y));
    }
    assert(command_views(out@) =~= command_views(old(out)@) + brush@.move_commands(
        x as int,
        y as int,
    ));
}

/// Adds to `out` the commands that make the pen write with the attributes
/// of `cell`, where they are needed.
fn put_attributes(out: &mut Vec<Command>, brush: &mut Brush, cell: &Cell)
    ensures
        command_views(final(out)@) == command_views(old(out)@) + old(brush)@.attribute_commands(
            cell@.attrs,
        ),
        final(brush)@ == old(brush)@.with_attributes(cell@.attrs),
{
    if !same_attributes(&cell.attrs, &brush.pen.attrs) {
        emit(out, Command::ResetAttributes);
        emit(out, Command::SetAttributes(cell.attrs));
        brush.pen.attrs = cell.attrs;
        brush.pen.fg_color = Color::Reset;
        brush.pen.bg_color = Color::Reset;
    }
    assert(command_views(out@) =~= command_views(old(out)@) + old(brush)@.attribute_commands(
        cell@.attrs,
    ));
}

/// Adds to `out` the commands that make the pen write in the colours of
/// `cell`, where they are needed.
fn put_colors(out: &mut Vec<Command>, brush: &mut Brush, cell: &Cell)
    ensures
        command_views(final(out)@) == command_views(old(out)@) + old(brush)@.color_commands(
            cell@,
        ),
        final(brush)@ == (PenView {
            fg_color: cell.fg_color,
            bg_color: cell.bg_color,
            ..old(brush)@
        }),
{
    if cell.fg_color != brush.pen.fg_color {
        emit(out, Command::SetForegroundColor(cell.fg_color));
        brush.pen.fg_color = cell.fg_color;
    }
    if cell.bg_color != brush.pen.bg_color {
        emit(out, Command::SetBackgroundColor(cell.bg_color));
        brush.pen.bg_color = cell.bg_color;
    }
    assert(command_views(out@) =~= command_views(old(out)@) + old(brush)@.color_commands(cell@));
}

/// Adds to `out` the commands that put `cell` in column `x` of row `y`.
fn put_cell(out: &mut Vec<Command>, brush: &mut Brush, cell: &Cell, x: u16, y: u16)
    requires
        x < 65535,
    ensures
        command_views(final(out)@) == command_views(old(out)@) + old(brush)@.cell_commands(
            cell@,
            x as int,
            y as int,
        ),
        final(brush)@ == old(brush)@.after_cell(cell@, x as int, y as int),
{
    let ghost start = command_views(out@);
    let ghost before = brush@;
    put_move(out, brush, x, y);
    put_attributes(out, brush, cell);
    put_colors(out, brush, cell);
    emit(out, Command::Print(cell.ch));
    brush.cursor = Some((x + 1, y));
    assert(command_views(out@) =~= start + before.cell_commands(cell@, x as int, y as int));
}

/// A grid of cells, `width` columns by `height` rows, and one cell off the
/// grid that stands in for every position outside it.
pub struct RenderBuffer {
    /// The cells of the grid row by row, then the cell off the grid.
    cells: Vec<Cell>,
    width: u16,
    height: u16,
}

/// A grid as plain data: its cells row by row, and the cell off the grid.
pub struct BufferView {
    pub width: nat,
    pub height: nat,
    pub cells: Seq<CellView>,
    pub dummy: CellView,
}

impl BufferView {
    /// Whether column `x` of row `y` lies on the grid.
    pub open spec fn holds(self, x: int, y: int) -> bool {
        0 <= x < self.width && 0 <= y < self.height
    }

    /// The cell in column `x` of row `y`; the cell off the grid where that
    /// position lies outside it.
    pub open spec fn cell_at(self, x: int, y: int) -> CellView {
        if self.holds(x, y) {
            self.cells[y * self.width + x]
        } else {
            self.dummy
        }
    }

    /// The grid with `cell` in column `x` of row `y`; where that position
    /// lies outside the grid, the grid with `cell` as the cell off it.
    pub open spec fn with_cell(self, x: int, y: int, cell: CellView) -> BufferView {
        if self.holds(x, y) {
            BufferView { cells: self.cells.update(y * self.width + x, cell), ..self }
        } else {
            BufferView { dummy: cell, ..self }
        }
    }

    /// Whether cell `k`, counted row by row, differs from what `prev` has in
    /// its place; every cell does where there is no `prev`.
    pub open spec fn differs_at(self, prev: Option<BufferView>, k: int) -> bool {
        match prev {
            Some(prev) => self.cells[k] != prev.cell_at(
                k % self.width as int,
                k / self.width as int,
            ),
            None => true,
        }
    }

    /// The commands that turn `prev` into this grid from cell `k` on, the
    /// cells counted row by row, with the pen as it is on reaching cell `k`:
    /// for every cell that differs, in order, the commands that put it
    /// there.
    pub open spec fn diff_from(self, prev: Option<BufferView>, k: nat, pen: PenView) -> Seq<
        CommandView,
    >
        decreases self.cells.len() - k,
    {
        if k >= self.cells.len() {
            Seq::empty()
        } else if self.differs_at(prev, k as int) {
            let x = k % self.width;
            let y = k / self.width;
            pen.cell_commands(self.cells[k as int], x as int, y as int) + self.diff_from(
                prev,
                k + 1,
                pen.after_cell(self.cells[k as int], x as int, y as int),
            )
        } else {
            self.diff_from(prev, k + 1, pen)
        }
    }

    /// How many cells from cell `k` on differ from what `prev` has in their
    /// place.
    pub open spec fn changed_from(self, prev: Option<BufferView>, k: nat) -> nat
        decreases self.cells.len() - k,
    {
        if k >= self.cells.len() {
            0
        } else if self.differs_at(prev, k as int) {
            1 + self.changed_from(prev, k + 1)
        } else {
            self.changed_from(prev, k + 1)
        }
    }

    /// The commands that turn `prev` into this grid on a terminal that writes
    /// with `pen`.
    pub open spec fn diff(self, prev: Option<BufferView>, pen: PenView) -> Seq<CommandView> {
        self.diff_from(prev, 0, pen)
    }

    /// Whether the grid has a cell for each of its positions, and its
    /// columns and rows can be counted in 16 bits.
    pub open spec fn wf(self) -> bool {
        &&& self.width <= 65535
        &&& self.height <= 65535
        &&& self.cells.len() == self.width * self.height
    }
}

/// The position of column `x` in row `y` lies within a grid's cells.
pub proof fn lemma_position_in_grid(width: nat, height: nat, x: int, y: int)
    requires
        0 <= x < width,
        0 <= y < height,
    ensures
        0 <= y * width + x < width * height,
{
    assert(y * width + x < width * height) by (nonlinear_arith)
        requires
            0 <= x < width,
            0 <= y < height,
    ;
    assert(0 <= y * width) by (nonlinear_arith)
        requires
            0 <= y,
            0 <= width,
    ;
}

/// Putting a cell on a grid changes the cell at its position and no other
/// cell of the grid.
pub proof fn lemma_with_cell(grid: BufferView, x: int, y: int, cell: CellView, cx: int, cy: int)
    requires
        grid.wf(),
        grid.holds(cx, cy),
    ensures
        grid.with_cell(x, y, cell).wf(),
        grid.with_cell(x, y, cell).holds(cx, cy),
        grid.with_cell(x, y, cell).cell_at(cx, cy) == if cx == x && cy == y {
            cell
        } else {
            grid.cell_at(cx, cy)
        },
{
    let w = grid.width as int;
    lemma_position_in_grid(grid.width, grid.height, cx, cy);
    if grid.holds(x, y) {
        lemma_position_in_grid(grid.width, grid.height, x, y);
        if cy * w + cx == y * w + x {
            vstd::arithmetic::div_mod::lemma_fundamental_div_mod_converse(cy * w + cx, w, cy, cx);
            vstd::arithmetic::div_mod::lemma_fundamental_div_mod_converse(y * w + x, w, y, x);
        }
    }
}

/// Counted row by row, cell `k` of a grid is the cell in column `k % width`
/// of row `k / width`.
pub proof fn lemma_cell_position(grid: BufferView, k: int)
    requires
        grid.wf(),
        0 <= k < grid.cells.len(),
    ensures
        grid.width > 0,
        grid.holds(k % grid.width as int, k / grid.width as int),
        grid.cell_at(k % grid.width as int, k / grid.width as int) == grid.cells[k],
{
    let w = grid.width as int;
    let h = grid.height as int;
    if w == 0 {
        assert(w * h == 0) by (nonlinear_arith)
            requires
                w == 0,
        ;
    }
    vstd::arithmetic::div_mod::lemma_fundamental_div_mod(k, w);
    vstd::arithmetic::div_mod::lemma_mod_pos_bound(k, w);
    let x = k % w;
    let y = k / w;
    assert(w * y == y * w) by (nonlinear_arith);
    assert(0 <= y < h) by (nonlinear_arith)
        requires
            k == w * y + x,
            0 <= x < w,
            0 <= k < w * h,
    ;
}

/// From a cell on after which no cell differs, no command is needed.
pub proof fn lemma_diff_from_unchanged(
    curr: BufferView,
    prev: Option<BufferView>,
    k: nat,
    pen: PenView,
)
    requires
        forall|j: int| k <= j < curr.cells.len() ==> !#[trigger] curr.differs_at(prev, j),
    ensures
        curr.diff_from(prev, k, pen) == Seq::<CommandView>::empty(),
    decreases curr.cells.len() - k,
{
    if k < curr.cells.len() {
        assert(!curr.differs_at(prev, k as int));
        lemma_diff_from_unchanged(curr, prev, k + 1, pen);
    }
}

/// A frame takes at most six commands for every cell that differs, however
/// large the grid is: a move, a reset and the attributes, two colours and the
/// character.
pub proof fn lemma_diff_is_short(
    curr: BufferView,
    prev: Option<BufferView>,
    k: nat,
    pen: PenView,
)
    ensures
        curr.diff_from(prev, k, pen).len() <= 6 * curr.changed_from(prev, k),
    decreases curr.cells.len() - k,
{
    if k < curr.cells.len() {
        if curr.differs_at(prev, k as int) {
            let x = (k % curr.width) as int;
            let y = (k / curr.width) as int;
            lemma_diff_is_short(curr, prev, k + 1, pen.after_cell(curr.cells[k as int], x, y));
        } else {
            lemma_diff_is_short(curr, prev, k + 1, pen);
        }
    }
}

/// A grid needs no command to be made from itself.
pub proof fn lemma_diff_of_same(curr: BufferView, pen: PenView)
    requires
        curr.wf(),
    ensures
        curr.diff(Some(curr), pen) == Seq::<CommandView>::empty(),
{
    assert forall|j: int| 0 <= j < curr.cells.len() implies !#[trigger] curr.differs_at(
        Some(curr),
        j,
    ) by {
        lemma_cell_position(curr, j);
    }
    lemma_diff_from_unchanged(curr, Some(curr), 0, pen);
}

/// Up to a cell before which no cell differs, the commands are those from
/// that cell on.
proof fn lemma_diff_from_skips(
    curr: BufferView,
    prev: Option<BufferView>,
    from: nat,
    k: nat,
    pen: PenView,
)
    requires
        from <= k <= curr.cells.len(),
        forall|j: int| from <= j < k ==> !#[trigger] curr.differs_at(prev, j),
    ensures
        curr.diff_from(prev, from, pen) == curr.diff_from(prev, k, pen),
    decreases k - from,
{
    if from < k {
        assert(!curr.differs_at(prev, from as int));
        lemma_diff_from_skips(curr, prev, from + 1, k, pen);
    }
}

/// Two grids of the same size that differ in exactly one cell: the commands
/// that turn one into the other are one move of the cursor to that cell,
/// then the changes of attributes and colours that the pen needs for it, and
/// one character written.
pub proof fn lemma_diff_of_one_cell(curr: BufferView, prev: BufferView, k: int, pen: PenView)
    requires
        curr.wf(),
        prev.wf(),
        curr.width == prev.width,
        curr.height == prev.height,
        0 <= k < curr.cells.len(),
        curr.cells[k] != prev.cells[k],
        forall|j: int| 0 <= j < curr.cells.len() && j != k ==> curr.cells[j] == prev.cells[j],
        pen.cursor is None,
    ensures
        curr.diff(Some(prev), pen) == seq![
            CommandView::MoveTo((k % curr.width as int) as u16, (k / curr.width as int) as u16),
        ] + pen.attribute_commands(curr.cells[k].attrs) + pen.with_attributes(
            curr.cells[k].attrs,
        ).color_commands(curr.cells[k]) + seq![CommandView::Print(curr.cells[k].ch)],
{
    let before = Some(prev);
    assert forall|j: int| 0 <= j < curr.cells.len() implies (#[trigger] curr.differs_at(before, j)
        == (j == k)) by {
        lemma_cell_position(prev, j);
    }
    let x = k % curr.width as int;
    let y = k / curr.width as int;
    lemma_diff_from_skips(curr, before, 0, k as nat, pen);
    lemma_diff_from_unchanged(
        curr,
        before,
        (k + 1) as nat,
        pen.after_cell(curr.cells[k], x, y),
    );
    assert(curr.diff_from(before, k as nat, pen) =~= pen.cell_commands(curr.cells[k], x, y));
}

impl View for RenderBuffer {
    type V = BufferView;

    closed spec fn view(&self) -> BufferView {
        let count = self.width * self.height;
        BufferView {
            width: self.width as nat,
            height: self.height as nat,
            cells: self.cells@.take(count).map_values(|cell: Cell| cell@),
            dummy: self.cells@[count]@,
        }
    }
}

/// A grid of 16-bit width and height has fewer cells than 32 bits count.
proof fn lemma_grid_fits(width: u16, height: u16)
    ensures
        0 <= width * height <= 65535 * 65535,
{
    assert(0 <= width * height <= 65535 * 65535) by (nonlinear_arith)
        requires
            0 <= width <= 65535,
            0 <= height <= 65535,
    ;
}

impl RenderBuffer {
    #[verifier::type_invariant]
    closed spec fn holds_every_cell(self) -> bool {
        self.cells.len() == self.width * self.height + 1
    }

    /// Where the cell of column `x` in row `y` is kept.
    fn slot(&self, x: u16, y: u16) -> (idx: usize)
        ensures
            self@.wf(),
            self.cells.len() == self.width * self.height + 1,
            idx < self.cells.len(),
            self@.holds(x as int, y as int) ==> idx == y * self.width + x && idx < self.width
                * self.height,
            !self@.holds(x as int, y as int) ==> idx == self.width * self.height,
            self.cells[idx as int]@ == self@.cell_at(x as int, y as int),
    {
        proof {
            use_type_invariant(self);
            lemma_grid_fits(self.width, self.height);
        }
        if x < self.width && y < self.height {
            proof {
                lemma_position_in_grid(self.width as nat, self.height as nat, x as int, y as int);
                lemma_grid_fits(self.width, y);
            }
            let idx: usize = y as usize * self.width as usize + x as usize;
            proof {
                self.lemma_slot(idx as int);
            }
            idx
        } else {
            let idx: usize = self.width as usize * self.height as usize;
            proof {
                self.lemma_slot(idx as int);
            }
            idx
        }
    }

    /// The cells that are kept are the grid's cells, then the cell off the
    /// grid.
    proof fn lemma_slot(&self, idx: int)
        requires
            self.cells.len() == self.width * self.height + 1,
            0 <= idx < self.cells.len(),
        ensures
            idx < self.width * self.height ==> self@.cells[idx] == self.cells[idx]@,
            idx == self.width * self.height ==> self@.dummy == self.cells[idx]@,
    {
    }

    /// A grid of cells that all show as `cell` does.
    fn filled(width: u16, height: u16, cell: Cell) -> (buffer: RenderBuffer)
        ensures
            buffer@.wf(),
            buffer@.width == width,
            buffer@.height == height,
            buffer@.dummy == cell@,
            forall|i: int| 0 <= i < buffer@.cells.len() ==> #[trigger] buffer@.cells[i] == cell@,
    {
        proof {
            lemma_grid_fits(width, height);
        }
        let count: usize = width as usize * height as usize + 1;
        let mut cells: Vec<Cell> = Vec::new();
        let mut i: usize = 0;
        while i < count
            invariant
                i <= count,
                cells.len() == i,
                forall|j: int| 0 <= j < i ==> (#[trigger] cells[j])@ == cell@,
            decreases count - i,
        {
            cells.push(cell);
            i += 1;
        }
        RenderBuffer { cells, width, height }
    }

    /// A grid of blanks in white on black.
    pub fn new(width: u16, height: u16) -> (buffer: RenderBuffer)
        ensures
            buffer@.wf(),
            buffer@.width == width,
            buffer@.height == height,
            buffer@.dummy == CellView::blank(),
            forall|i: int|
                0 <= i < buffer@.cells.len() ==> #[trigger] buffer@.cells[i] == CellView::blank(),
    {
        Self::filled(width, height, Cell::default())
    }

    /// The number of columns.
    pub fn width(&self) -> (w: u16)
        ensures
            w == self@.width,
            self@.wf(),
    {
        proof {
            use_type_invariant(self);
        }
        self.width
    }

    /// The number of rows.
    pub fn height(&self) -> (h: u16)
        ensures
            h == self@.height,
            self@.wf(),
    {
        proof {
            use_type_invariant(self);
        }
        self.height
    }

    /// The cell in column `x` of row `y`, to be written to; the cell off the
    /// grid where that position lies outside it.
    pub fn at_mut(&mut self, x: u16, y: u16) -> (cell: &mut Cell)
        ensures
            old(self)@.wf(),
            cell@ == old(self)@.cell_at(x as int, y as int),
            final(self)@ == old(self)@.with_cell(x as int, y as int, final(cell)@),
            final(self)@.wf(),
    {
        let idx: usize = self.slot(x, y);
        let ghost count = self.width * self.height;
        proof {
            use_type_invariant(&*self);
        }
        let cell = &mut self.cells[idx];
        proof {
            let before = old(self).cells@;
            let after = before.update(idx as int, *final(cell));
            let views = before.take(count).map_values(|c: Cell| c@);
            if old(self)@.holds(x as int, y as int) {
                assert(after.take(count).map_values(|c: Cell| c@) =~= views.update(
                    idx as int,
                    final(cell)@,
                ));
            } else {
                assert(after.take(count).map_values(|c: Cell| c@) =~= views);
            }
        }
        cell
    }

    /// The commands that turn `prev` into this grid on a terminal that
    /// writes with `pen`: for every cell that differs from the one `prev`
    /// has in its place, row by row, the commands that put it there; for
    /// every cell where there is no `prev`.
    pub fn render(&self, prev: Option<&RenderBuffer>, pen: Pen) -> (out: Vec<Command>)
        ensures
            command_views(out@) == self@.diff(
                match prev {
                    Some(prev) => Some(prev@),
                    None => None,
                },
                pen@,
            ),
    {
        let ghost curr = self@;
        let ghost before: Option<BufferView> = match prev {
            Some(prev) => Some(prev@),
            None => None,
        };
        let mut out: Vec<Command> = Vec::new();
        let mut brush = Brush { cursor: None, pen };
        assert(command_views(out@) =~= Seq::<CommandView>::empty());
        let width: u16 = self.width();
        let height: u16 = self.height();
        let mut y: u16 = 0;
        while y < height
            invariant
                y <= height == self.height,
                width == self.width,
                curr == self@,
                curr.wf(),
                before == match prev {
                    Some(prev) => Some(prev@),
                    None => None,
                },
                command_views(out@) + curr.diff_from(before, (y * self.width) as nat, brush@)
                    == curr.diff(before, pen@),
            decreases height - y,
        {
            let mut x: u16 = 0;
            while x < width
                invariant
                    y < height == self.height,
                    x <= width == self.width,
                    curr == self@,
                    curr.wf(),
                    before == match prev {
                        Some(prev) => Some(prev@),
                        None => None,
                    },
                    command_views(out@) + curr.diff_from(
                        before,
                        (y * self.width + x) as nat,
                        brush@,
                    ) == curr.diff(before, pen@),
                decreases width - x,
            {
                let ghost k = y * self.width + x;
                proof {
                    lemma_position_in_grid(curr.width, curr.height, x as int, y as int);
                    vstd::arithmetic::div_mod::lemma_fundamental_div_mod_converse(
                        k,
                        self.width as int,
                        y as int,
                        x as int,
                    );
                }
                let cell = self.at_ref(x, y);
                assert(cell@ == curr.cells[k]);
                let changed: bool = match prev {
                    Some(prev) => !cell.same(prev.at_ref(x, y)),
                    None => true,
                };
                assert(changed == curr.differs_at(before, k));
                let ghost start = command_views(out@);
                let ghost pen_before = brush@;
                if changed {
                    put_cell(&mut out, &mut brush, cell, x, y);
                    assert(command_views(out@) + curr.diff_from(before, (k + 1) as nat, brush@)
                        =~= start + curr.diff_from(before, k as nat, pen_before));
                }
                x += 1;
            }
            assert((y + 1) * self.width == y * self.width + self.width) by (nonlinear_arith);
            y += 1;
        }
        assert(curr.diff_from(before, (self.height * self.width) as nat, brush@)
            =~= Seq::<CommandView>::empty()) by {
            assert(self.height * self.width == self.width * self.height) by (nonlinear_arith);
        }
        out
    }

    /// Makes every cell of the grid, and the cell off it, a blank in the
    /// given colours, without attributes.
    pub fn fill(&mut self, fg_color: Color, bg_color: Color)
        ensures
            final(self)@.wf(),
            final(self)@.width == old(self)@.width,
            final(self)@.height == old(self)@.height,
            final(self)@.dummy == (CellView { ch: ' ', fg_color, bg_color, attrs: Set::empty() }),
            forall|i: int|
                0 <= i < final(self)@.cells.len() ==> #[trigger] final(self)@.cells[i] == (CellView {
                    ch: ' ',
                    fg_color,
                    bg_color,
                    attrs: Set::empty(),
                }),
    {
        let blank = Cell { ch: ' ', fg_color, bg_color, attrs: Attributes::none() };
        *self = Self::filled(self.width, self.height, blank);
    }

    /// The cell in column `x` of row `y`; the cell off the grid where that
    /// position lies outside it.
    pub fn at_ref(&self, x: u16, y: u16) -> (cell: &Cell)
        ensures
            self@.wf(),
            cell@ == self@.cell_at(x as int, y as int),
    {
        let idx: usize = self.slot(x, y);
        &self.cells[idx]
    }
}

} // verus!
