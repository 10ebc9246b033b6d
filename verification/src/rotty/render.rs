//! Painting blocks into a grid, and the renderer that sends a terminal only
//! what has changed.

use vstd::prelude::*;
use crossterm::style::Attributes;
use crate::rotty::block::Block;
use crate::rotty::block::BlockView;
use crate::rotty::block::EDGE;
use crate::rotty::block::Image;
use crate::rotty::block::ImageView;
use crate::rotty::block::JoinDir;
use crate::rotty::block::TextAlign;
use crate::rotty::block::capped;
use crate::rotty::block::lemma_block_views;
use crate::rotty::block::views_of;
use crate::rotty::buffer::BufferView;
use crate::rotty::buffer::Cell;
use crate::rotty::buffer::CellView;
use crate::rotty::buffer::Command;
use crate::rotty::buffer::CommandView;
use crate::rotty::buffer::Pen;
use crate::rotty::buffer::PenView;
use crate::rotty::buffer::RenderBuffer;
use crate::rotty::buffer::command_views;
use crate::rotty::style::Color;
use crate::text::chars_of;

verus! {

/// A column and a row, or a width and a height.
#[derive(Clone, Copy, Debug, PartialEq, Eq, Structural)]
pub struct Point {
    pub x: u16,
    pub y: u16,
}

/// The box that a painted block takes up.
#[derive(Clone, Copy, Debug, PartialEq, Eq, Structural)]
pub struct Aabb {
    pub top_left: Point,
    pub size: Point,
}

/// The column at which a text of `len` characters starts in a field of
/// `width` columns: at the left edge, in the middle, or so that it ends at
/// the right edge; at the left edge where the text is longer than the field.
pub open spec fn text_offset(align: TextAlign, width: u16, len: nat) -> nat {
    match align {
        TextAlign::Left => 0,
        TextAlign::Center => if len < width {
            ((width - len) / 2) as nat
        } else {
            0
        },
        TextAlign::Right => if len < width {
            (width - len) as nat
        } else {
            0
        },
    }
}

/// A grid and the size of what was painted into it.
pub struct Painted {
    pub buffer: BufferView,
    pub size: Point,
}

/// The sum of two extents, or the edge where it lies beyond that.
pub open spec fn extended(a: u16, b: u16) -> u16 {
    capped((a + b) as nat)
}

/// The larger of two extents.
pub open spec fn larger(a: u16, b: u16) -> u16 {
    if a >= b {
        a
    } else {
        b
    }
}

impl ImageView {
    /// What a cell shows once a character of the image is written to it: the
    /// character, the image's colours where it has any and the cell's own
    /// where it has none, and the image's attributes beside the cell's own.
    pub open spec fn over(self, cell: CellView, ch: char) -> CellView {
        CellView {
            ch,
            fg_color: match self.fg_color {
                Some(color) => color,
                None => cell.fg_color,
            },
            bg_color: match self.bg_color {
                Some(color) => color,
                None => cell.bg_color,
            },
            attrs: cell.attrs.union(self.attrs),
        }
    }

    /// The grid with the first `n` characters of the image's text written
    /// from column `x` of row `y` on. A column beyond the edge counts as the
    /// edge, which lies off every grid.
    pub open spec fn paint_text(self, buffer: BufferView, x: nat, y: u16, n: nat) -> BufferView
        decreases n,
    {
        if n == 0 || n > self.text.len() {
            buffer
        } else {
            let before = self.paint_text(buffer, x, y, (n - 1) as nat);
            let column = capped((x + n - 1) as nat) as int;
            before.with_cell(
                column,
                y as int,
                self.over(before.cell_at(column, y as int), self.text[n - 1]),
            )
        }
    }

    /// The grid with the image painted at `at`, and the image's size: its
    /// width and one row, whatever the length of its text.
    pub open spec fn paint(self, at: Point, buffer: BufferView) -> Painted {
        Painted {
            buffer: self.paint_text(
                buffer,
                (at.x + text_offset(self.align, self.width, self.text.len())) as nat,
                at.y,
                self.text.len(),
            ),
            size: Point { x: self.width, y: 1 },
        }
    }
}

/// Where the next block of a join is painted: right of what is painted, below
/// it, or in the same place.
pub open spec fn next_origin(dir: JoinDir, at: Point, size: Point) -> Point {
    match dir {
        JoinDir::Horiz => Point { x: extended(at.x, size.x), y: at.y },
        JoinDir::Vert => Point { x: at.x, y: extended(at.y, size.y) },
        JoinDir::Stack => at,
    }
}

/// The size of a join after one more block: along the join the sizes add
/// up, across it the larger one counts.
pub open spec fn joined_size(dir: JoinDir, size: Point, more: Point) -> Point {
    match dir {
        JoinDir::Horiz => Point { x: extended(size.x, more.x), y: larger(size.y, more.y) },
        JoinDir::Vert => Point { x: larger(size.x, more.x), y: extended(size.y, more.y) },
        JoinDir::Stack => Point { x: larger(size.x, more.x), y: larger(size.y, more.y) },
    }
}

/// The grid with the first `n` of `blocks` painted as a join at `at`, and
/// their size together.
pub open spec fn paint_join(
    blocks: Seq<BlockView>,
    n: nat,
    dir: JoinDir,
    at: Point,
    buffer: BufferView,
) -> Painted
    decreases blocks, n,
{
    if n == 0 || n > blocks.len() {
        Painted { buffer, size: Point { x: 0, y: 0 } }
    } else {
        let before = paint_join(blocks, (n - 1) as nat, dir, at, buffer);
        let last = blocks[n - 1].paint(next_origin(dir, at, before.size), before.buffer);
        Painted { buffer: last.buffer, size: joined_size(dir, before.size, last.size) }
    }
}

impl BlockView {
    /// The grid with the block painted at `at`, and the block's size.
    pub open spec fn paint(self, at: Point, buffer: BufferView) -> Painted
        decreases self,
    {
        match self {
            BlockView::Image(image) => image.paint(at, buffer),
            BlockView::Join { dir, blocks } => paint_join(blocks, blocks.len(), dir, at, buffer),
        }
    }
}

fn extend(a: u16, b: u16) -> (sum: u16)
    ensures
        sum == extended(a, b),
{
    if b > EDGE - a {
        EDGE
    } else {
        a + b
    }
}

fn larger_of(a: u16, b: u16) -> (max: u16)
    ensures
        max == larger(a, b),
{
    if a >= b {
        a
    } else {
        b
    }
}

/// The column at which the image's text starts within its field.
pub fn text_start(align: TextAlign, width: u16, len: usize) -> (offset: u16)
    ensures
        offset == text_offset(align, width, len as nat),
{
    match align {
        TextAlign::Left => 0,
        TextAlign::Center => if len < width as usize {
            (width - len as u16) / 2
        } else {
            0
        },
        TextAlign::Right => if len < width as usize {
            width - len as u16
        } else {
            0
        },
    }
}

/// Paints an image with its top left corner at `top_left`: writes its text
/// where its alignment puts it, in its colours where it has any, and adds
/// its attributes to those of the cells. What falls off the grid goes to the
/// cell off the grid.
pub fn render_image(image: &Image, top_left: Point, buffer: &mut RenderBuffer) -> (aabb: Aabb)
    ensures
        final(buffer)@ == image@.paint(top_left, old(buffer)@).buffer,
        aabb.top_left == top_left,
        aabb.size == image@.paint(top_left, old(buffer)@).size,
{
    let chars = chars_of(image.text.as_str());
    let len: usize = chars.len();
    let offset: u16 = text_start(image.align, image.width, len);
    let start: u32 = top_left.x as u32 + offset as u32;
    let ghost view = image@;
    let mut i: usize = 0;
    while i < len
        invariant
            i <= len == chars.len(),
            chars@ == view.text,
            view == image@,
            start == top_left.x + text_offset(view.align, view.width, view.text.len()),
            buffer@ == view.paint_text(old(buffer)@, start as nat, top_left.y, i as nat),
        decreases len - i,
    {
        let column: u16 = if i >= EDGE as usize {
            EDGE
        } else if start + i as u32 > EDGE as u32 {
            EDGE
        } else {
            (start + i as u32) as u16
        };
        assert(column == capped((start + i) as nat));
        let below: Cell = *buffer.at_ref(column, top_left.y);
        let mut attrs: Attributes = below.attrs;
        attrs.extend(image.attrs);
        let cell = Cell {
            ch: chars[i],
            fg_color: match image.fg_color {
                Some(color) => color,
                None => below.fg_color,
            },
            bg_color: match image.bg_color {
                Some(color) => color,
                None => below.bg_color,
            },
            attrs,
        };
        assert(cell@ == view.over(below@, view.text[i as int]));
        let place = buffer.at_mut(column, top_left.y);
        *place = cell;
        i += 1;
    }
    Aabb { top_left, size: Point { x: image.width, y: 1 } }
}

/// Paints the blocks of a join from `top_left` on, each where the ones
/// before it leave off.
pub fn render_join(dir: JoinDir, blocks: &Vec<Block>, top_left: Point, buffer: &mut RenderBuffer)
    -> (aabb: Aabb)
    ensures
        final(buffer)@ == paint_join(
            views_of(blocks@),
            blocks@.len(),
            dir,
            top_left,
            old(buffer)@,
        ).buffer,
        aabb.top_left == top_left,
        aabb.size == paint_join(
            views_of(blocks@),
            blocks@.len(),
            dir,
            top_left,
            old(buffer)@,
        ).size,
    decreases blocks, 0nat,
{
    let ghost views = views_of(blocks@);
    proof {
        lemma_block_views(blocks@, blocks@.len());
    }
    let mut size = Point { x: 0, y: 0 };
    let mut i: usize = 0;
    while i < blocks.len()
        invariant
            i <= blocks.len(),
            views == views_of(blocks@),
            views.len() == blocks.len(),
            forall|j: int| 0 <= j < views.len() ==> #[trigger] views[j] == blocks[j]@,
            buffer@ == paint_join(views, i as nat, dir, top_left, old(buffer)@).buffer,
            size == paint_join(views, i as nat, dir, top_left, old(buffer)@).size,
        decreases blocks.len() - i,
    {
        let at = match dir {
            JoinDir::Horiz => Point { x: extend(top_left.x, size.x), y: top_left.y },
            JoinDir::Vert => Point { x: top_left.x, y: extend(top_left.y, size.y) },
            JoinDir::Stack => top_left,
        };
        let sub = render_block(&blocks[i], at, buffer);
        size = match dir {
            JoinDir::Horiz => Point {
                x: extend(size.x, sub.size.x),
                y: larger_of(size.y, sub.size.y),
            },
            JoinDir::Vert => Point {
                x: larger_of(size.x, sub.size.x),
                y: extend(size.y, sub.size.y),
            },
            JoinDir::Stack => Point {
                x: larger_of(size.x, sub.size.x),
                y: larger_of(size.y, sub.size.y),
            },
        };
        i += 1;
    }
    Aabb { top_left, size }
}

/// Paints a block with its top left corner at `top_left` and returns the
/// box that it takes up.
pub fn render_block(block: &Block, top_left: Point, buffer: &mut RenderBuffer) -> (aabb: Aabb)
    ensures
        final(buffer)@ == block@.paint(top_left, old(buffer)@).buffer,
        aabb.top_left == top_left,
        aabb.size == block@.paint(top_left, old(buffer)@).size,
    decreases block, 1nat,
{
    match block {
        Block::Image(image) => {
            assert(block@ == BlockView::Image(image@));
            render_image(image, top_left, buffer)
        },
        Block::Join { dir, blocks } => {
            assert(block@ == (BlockView::Join { dir: *dir, blocks: views_of(blocks@) }));
            proof {
                lemma_block_views(blocks@, blocks@.len());
            }
            render_join(*dir, blocks, top_left, buffer)
        },
    }
}

/// Painting the first `n` characters of an image's text from column `x` of
/// row `y` on puts each of them in its own cell, the first at column `x`,
/// and leaves every other cell of the grid as it is.
pub proof fn lemma_painted_text(
    image: ImageView,
    buffer: BufferView,
    x: nat,
    y: u16,
    n: nat,
    cx: int,
    cy: int,
)
    requires
        buffer.wf(),
        n <= image.text.len(),
        buffer.holds(cx, cy),
    ensures
        image.paint_text(buffer, x, y, n).wf(),
        image.paint_text(buffer, x, y, n).holds(cx, cy),
        image.paint_text(buffer, x, y, n).cell_at(cx, cy) == if cy == y && x <= cx < x + n {
            image.over(buffer.cell_at(cx, cy), image.text[cx - x])
        } else {
            buffer.cell_at(cx, cy)
        },
    decreases n,
{
    if n > 0 {
        lemma_painted_text(image, buffer, x, y, (n - 1) as nat, cx, cy);
        let before = image.paint_text(buffer, x, y, (n - 1) as nat);
        let column = capped((x + n - 1) as nat) as int;
        crate::rotty::buffer::lemma_with_cell(
            before,
            column,
            y as int,
            image.over(before.cell_at(column, y as int), image.text[n - 1]),
            cx,
            cy,
        );
    }
}

/// An image is painted with its text where its alignment puts it: the
/// character `i` of the text stands `text_offset` and `i` columns right of
/// the image's corner, where that lies on the grid.
pub proof fn lemma_painted_image(image: ImageView, at: Point, buffer: BufferView, i: int)
    requires
        buffer.wf(),
        0 <= i < image.text.len(),
        buffer.holds(
            at.x + text_offset(image.align, image.width, image.text.len()) + i,
            at.y as int,
        ),
    ensures
        image.paint(at, buffer).buffer.cell_at(
            at.x + text_offset(image.align, image.width, image.text.len()) + i,
            at.y as int,
        ).ch == image.text[i],
        image.align == TextAlign::Left || image.text.len() >= image.width ==> text_offset(
            image.align,
            image.width,
            image.text.len(),
        ) == 0,
        image.align == TextAlign::Right && image.text.len() < image.width ==> text_offset(
            image.align,
            image.width,
            image.text.len(),
        ) + image.text.len() == image.width,
        image.align == TextAlign::Center && image.text.len() < image.width ==> text_offset(
            image.align,
            image.width,
            image.text.len(),
        ) == (image.width - image.text.len()) / 2,
{
    let start = (at.x + text_offset(image.align, image.width, image.text.len())) as nat;
    lemma_painted_text(image, buffer, start, at.y, image.text.len(), start + i, at.y as int);
}

/// Painting changes no grid's size.
pub proof fn lemma_paint_keeps_size(block: BlockView, at: Point, buffer: BufferView)
    requires
        buffer.wf(),
    ensures
        block.paint(at, buffer).buffer.width == buffer.width,
        block.paint(at, buffer).buffer.height == buffer.height,
        block.paint(at, buffer).buffer.wf(),
    decreases block,
{
    match block {
        BlockView::Image(image) => {
            lemma_text_keeps_size(
                image,
                buffer,
                (at.x + text_offset(image.align, image.width, image.text.len())) as nat,
                at.y,
                image.text.len(),
            );
        },
        BlockView::Join { dir, blocks } => {
            lemma_join_keeps_size(blocks, blocks.len(), dir, at, buffer);
        },
    }
}

proof fn lemma_text_keeps_size(image: ImageView, buffer: BufferView, x: nat, y: u16, n: nat)
    requires
        n <= image.text.len(),
        buffer.wf(),
    ensures
        image.paint_text(buffer, x, y, n).width == buffer.width,
        image.paint_text(buffer, x, y, n).height == buffer.height,
        image.paint_text(buffer, x, y, n).wf(),
    decreases n,
{
    if n > 0 {
        lemma_text_keeps_size(image, buffer, x, y, (n - 1) as nat);
        let before = image.paint_text(buffer, x, y, (n - 1) as nat);
        let column = capped((x + n - 1) as nat) as int;
        if before.holds(column, y as int) {
            crate::rotty::buffer::lemma_position_in_grid(
                before.width,
                before.height,
                column,
                y as int,
            );
        }
    }
}

proof fn lemma_join_keeps_size(
    blocks: Seq<BlockView>,
    n: nat,
    dir: JoinDir,
    at: Point,
    buffer: BufferView,
)
    requires
        n <= blocks.len(),
        buffer.wf(),
    ensures
        paint_join(blocks, n, dir, at, buffer).buffer.width == buffer.width,
        paint_join(blocks, n, dir, at, buffer).buffer.height == buffer.height,
        paint_join(blocks, n, dir, at, buffer).buffer.wf(),
    decreases blocks, n,
{
    if n > 0 {
        lemma_join_keeps_size(blocks, (n - 1) as nat, dir, at, buffer);
        let before = paint_join(blocks, (n - 1) as nat, dir, at, buffer);
        lemma_paint_keeps_size(blocks[n - 1], next_origin(dir, at, before.size), before.buffer);
    }
}

/// What is painted is as wide as the block, or reaches the edge where the
/// block is wider than that.
pub proof fn lemma_painted_width(block: BlockView, at: Point, buffer: BufferView)
    ensures
        block.paint(at, buffer).size.x == capped(block.width()),
    decreases block,
{
    match block {
        BlockView::Image(image) => {},
        BlockView::Join { dir, blocks } => {
            lemma_join_painted_width(blocks, blocks.len(), dir, at, buffer);
        },
    }
}

proof fn lemma_join_painted_width(
    blocks: Seq<BlockView>,
    n: nat,
    dir: JoinDir,
    at: Point,
    buffer: BufferView,
)
    requires
        n <= blocks.len(),
    ensures
        paint_join(blocks, n, dir, at, buffer).size.x == capped(
            match dir {
                JoinDir::Horiz => crate::rotty::block::sum_of_widths(blocks, n),
                _ => crate::rotty::block::max_of_widths(blocks, n),
            },
        ),
    decreases blocks, n,
{
    if n > 0 {
        lemma_join_painted_width(blocks, (n - 1) as nat, dir, at, buffer);
        let before = paint_join(blocks, (n - 1) as nat, dir, at, buffer);
        lemma_painted_width(blocks[n - 1], next_origin(dir, at, before.size), before.buffer);
    }
}

/// The renderer: the frame that the terminal shows, as far as it is known,
/// a grid for the next one, and the colours a frame starts from.
pub struct Renderer {
    initialized: bool,
    default_fg_color: Color,
    default_bg_color: Color,
    current: RenderBuffer,
    previous: RenderBuffer,
    previous_known: bool,
}

/// A grid of blanks in the given colours, without attributes.
pub open spec fn blank_grid(width: u16, height: u16, fg_color: Color, bg_color: Color)
    -> BufferView {
    let blank = CellView { ch: ' ', fg_color, bg_color, attrs: Set::empty() };
    BufferView {
        width: width as nat,
        height: height as nat,
        cells: Seq::new((width * height) as nat, |i: int| blank),
        dummy: blank,
    }
}

/// The frame that shows `block` on a terminal of the given size: the block
/// painted from the top left corner on blanks in the given colours.
pub open spec fn frame_of(
    block: BlockView,
    width: u16,
    height: u16,
    fg_color: Color,
    bg_color: Color,
) -> BufferView {
    block.paint(Point { x: 0, y: 0 }, blank_grid(width, height, fg_color, bg_color)).buffer
}

/// The commands that take over the terminal: the alternate screen, raw
/// input, no cursor.
pub open spec fn setup_commands() -> Seq<CommandView> {
    seq![
        CommandView::EnterAlternateScreen,
        CommandView::EnableRawMode,
        CommandView::HideCursor,
    ]
}

/// The commands that hand the terminal back, undoing the setup in reverse
/// order.
pub open spec fn teardown_commands() -> Seq<CommandView> {
    seq![
        CommandView::ResetColor,
        CommandView::ShowCursor,
        CommandView::LeaveAlternateScreen,
        CommandView::DisableRawMode,
    ]
}

/// The pen of a terminal after its attributes are reset.
pub open spec fn reset_pen() -> PenView {
    PenView { cursor: None, fg_color: Color::Reset, bg_color: Color::Reset, attrs: Set::empty() }
}

impl Renderer {
    /// Whether the renderer has taken over the terminal.
    pub closed spec fn initialized(&self) -> bool {
        self.initialized
    }

    /// The frame that the terminal shows, where the renderer knows it.
    pub closed spec fn shown(&self) -> Option<BufferView> {
        if self.previous_known {
            Some(self.previous@)
        } else {
            None
        }
    }

    /// The colours that a frame starts from.
    pub closed spec fn default_colors(&self) -> (Color, Color) {
        (self.default_fg_color, self.default_bg_color)
    }

    /// The frame that the next one is compared with: the one shown, where
    /// it is known and of the terminal's size.
    pub open spec fn baseline(&self, width: u16, height: u16) -> Option<BufferView> {
        match self.shown() {
            Some(shown) => if shown.width == width && shown.height == height {
                Some(shown)
            } else {
                None
            },
            None => None,
        }
    }

    /// A renderer that has not touched the terminal yet and starts its
    /// frames from the terminal's own colours.
    pub fn new() -> (renderer: Renderer)
        ensures
            !renderer.initialized(),
            renderer.shown() is None,
            renderer.default_colors() == (Color::Reset, Color::Reset),
    {
        Renderer {
            initialized: false,
            default_fg_color: Color::Reset,
            default_bg_color: Color::Reset,
            current: RenderBuffer::new(0, 0),
            previous: RenderBuffer::new(0, 0),
            previous_known: false,
        }
    }

    /// Sets the colours that a frame starts from.
    pub fn set_default_colors(&mut self, fg_color: Color, bg_color: Color)
        ensures
            final(self).default_colors() == (fg_color, bg_color),
            final(self).initialized() == old(self).initialized(),
            final(self).shown() == old(self).shown(),
    {
        self.default_fg_color = fg_color;
        self.default_bg_color = bg_color;
    }

    /// Renders one frame on a terminal of `width` columns and `height`
    /// rows: returns the commands that make the terminal show `block`. On
    /// the first frame these begin with the setup. Then the attributes are
    /// reset, and every cell that differs from the frame shown is written;
    /// every cell where the frame shown is not known or the size of the
    /// terminal has changed.
    pub fn render(&mut self, block: &Block, width: u16, height: u16) -> (commands: Vec<Command>)
        ensures
            final(self).initialized(),
            final(self).default_colors() == old(self).default_colors(),
            final(self).shown() == Some(
                frame_of(
                    block@,
                    width,
                    height,
                    old(self).default_colors().0,
                    old(self).default_colors().1,
                ),
            ),
            command_views(commands@) == (if old(self).initialized() {
                Seq::<CommandView>::empty()
            } else {
                setup_commands()
            }) + seq![CommandView::ResetAttributes] + final(self).shown().unwrap().diff(
                old(self).baseline(width, height),
                reset_pen(),
            ),
    {
        let mut commands: Vec<Command> = Vec::new();
        if !self.initialized {
            commands.push(Command::EnterAlternateScreen);
            commands.push(Command::EnableRawMode);
            commands.push(Command::HideCursor);
            self.initialized = true;
        }
        commands.push(Command::ResetAttributes);
        let ghost head = command_views(commands@);
        assert(head =~= (if old(self).initialized() {
            Seq::<CommandView>::empty()
        } else {
            setup_commands()
        }) + seq![CommandView::ResetAttributes]);

        if width != self.previous.width() || height != self.previous.height() {
            self.previous_known = false;
        }
        if width != self.current.width() || height != self.current.height() {
            self.current = RenderBuffer::new(width, height);
        }
        self.current.fill(self.default_fg_color, self.default_bg_color);
        let ghost blank = blank_grid(width, height, self.default_fg_color, self.default_bg_color);
        assert(self.current@.cells =~= blank.cells);
        assert(self.current@ == blank);
        render_block(block, Point { x: 0, y: 0 }, &mut self.current);
        proof {
            lemma_paint_keeps_size(block@, Point { x: 0, y: 0 }, blank);
        }

        let mut changes = if self.previous_known {
            self.current.render(Some(&self.previous), Pen::reset())
        } else {
            self.current.render(None, Pen::reset())
        };
        let ghost tail = command_views(changes@);
        commands.append(&mut changes);
        assert(command_views(commands@) =~= head + tail);
        std::mem::swap(&mut self.current, &mut self.previous);
        self.previous_known = true;
        commands
    }

    /// Hands the terminal back: returns the commands that undo the setup.
    pub fn teardown(&mut self) -> (commands: Vec<Command>)
        ensures
            !final(self).initialized(),
            final(self).shown() is None,
            final(self).default_colors() == old(self).default_colors(),
            command_views(commands@) == teardown_commands(),
    {
        self.initialized = false;
        self.previous_known = false;
        let mut commands: Vec<Command> = Vec::new();
        commands.push(Command::ResetColor);
        commands.push(Command::ShowCursor);
        commands.push(Command::LeaveAlternateScreen);
        commands.push(Command::DisableRawMode);
        assert(command_views(commands@) =~= teardown_commands());
        commands
    }
}

} // verus!
