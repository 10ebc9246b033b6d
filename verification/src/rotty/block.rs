//! Blocks: styled lines of text and their compositions.

use vstd::prelude::*;
use crossterm::style::Attribute;
use crossterm::style::Attributes;
use crate::rotty::style::Color;
use crate::rotty::style::attribute_set;
use crate::text::repeated;

verus! {

/// Where a text stands within the width of its image.
#[derive(Clone, Copy, Debug, PartialEq, Eq, Structural)]
pub enum TextAlign {
    Left,
    Right,
    Center,
}

/// How the blocks of a join are laid out: side by side, one below the
/// other, or all in the same place.
#[derive(Clone, Copy, Debug, PartialEq, Eq, Structural)]
pub enum JoinDir {
    Horiz,
    Vert,
    Stack,
}

/// One line of styled text in a field of a given width.
#[derive(Debug)]
pub struct Image {
    pub fg_color: Option<Color>,
    pub bg_color: Option<Color>,
    pub attrs: Attributes,
    pub text: String,
    pub width: u16,
    pub align: TextAlign,
}

/// An image as plain data.
pub struct ImageView {
    pub fg_color: Option<Color>,
    pub bg_color: Option<Color>,
    pub attrs: Set<Attribute>,
    pub text: Seq<char>,
    pub width: u16,
    pub align: TextAlign,
}

impl View for Image {
    type V = ImageView;

    open spec fn view(&self) -> ImageView {
        ImageView {
            fg_color: self.fg_color,
            bg_color: self.bg_color,
            attrs: attribute_set(self.attrs),
            text: self.text@,
            width: self.width,
            align: self.align,
        }
    }
}

impl Clone for Image {
    fn clone(&self) -> (copy: Image)
        ensures
            copy == *self,
    {
        Image {
            fg_color: self.fg_color,
            bg_color: self.bg_color,
            attrs: self.attrs,
            text: self.text.clone(),
            width: self.width,
            align: self.align,
        }
    }
}

/// A recursive composition of images.
#[derive(Debug)]
pub enum Block {
    Image(Image),
    Join { dir: JoinDir, blocks: Vec<Block> },
}

/// A block as plain data.
pub enum BlockView {
    Image(ImageView),
    Join { dir: JoinDir, blocks: Seq<BlockView> },
}

/// The views of the first `n` of `blocks`.
pub open spec fn block_views(blocks: Seq<Block>, n: nat) -> Seq<BlockView>
    decreases blocks, n,
{
    if n == 0 || n > blocks.len() {
        Seq::empty()
    } else {
        block_views(blocks, (n - 1) as nat).push(blocks[n - 1].view())
    }
}

impl View for Block {
    type V = BlockView;

    open spec fn view(&self) -> BlockView
        decreases self,
    {
        match self {
            Block::Image(image) => BlockView::Image(image@),
            Block::Join { dir, blocks } => BlockView::Join {
                dir: *dir,
                blocks: block_views(blocks@, blocks@.len()),
            },
        }
    }
}

/// The largest number that a coordinate or an extent can be. It lies beyond
/// every buffer, whose columns and rows are counted in 16 bits.
pub const EDGE: u16 = 65535;

/// A size as an extent can hold it: the size itself, or the edge where it is
/// larger.
pub open spec fn capped(n: nat) -> u16 {
    if n > EDGE {
        EDGE
    } else {
        n as u16
    }
}

/// The widths of the first `n` of `blocks`, added up.
pub open spec fn sum_of_widths(blocks: Seq<BlockView>, n: nat) -> nat
    decreases blocks, n,
{
    if n == 0 || n > blocks.len() {
        0
    } else {
        sum_of_widths(blocks, (n - 1) as nat) + blocks[n - 1].width()
    }
}

/// The largest of the widths of the first `n` of `blocks`; zero where there
/// are none.
pub open spec fn max_of_widths(blocks: Seq<BlockView>, n: nat) -> nat
    decreases blocks, n,
{
    if n == 0 || n > blocks.len() {
        0
    } else {
        let rest = max_of_widths(blocks, (n - 1) as nat);
        let last = blocks[n - 1].width();
        if last > rest {
            last
        } else {
            rest
        }
    }
}

impl BlockView {
    /// The width of a block: that of an image is the width it was given;
    /// that of blocks side by side the sum of their widths; that of blocks
    /// below each other or in the same place the largest of their widths.
    pub open spec fn width(self) -> nat
        decreases self,
    {
        match self {
            BlockView::Image(image) => image.width as nat,
            BlockView::Join { dir: JoinDir::Horiz, blocks } => sum_of_widths(blocks, blocks.len()),
            BlockView::Join { dir, blocks } => max_of_widths(blocks, blocks.len()),
        }
    }
}

impl Clone for Block {
    fn clone(&self) -> (copy: Block)
        ensures
            copy@ == self@,
        decreases self,
    {
        match self {
            Block::Image(image) => Block::Image(image.clone()),
            Block::Join { dir, blocks } => {
                let mut copies: Vec<Block> = Vec::new();
                let mut i: usize = 0;
                while i < blocks.len()
                    invariant
                        i <= blocks.len(),
                        copies.len() == i,
                        block_views(copies@, i as nat) == block_views(blocks@, i as nat),
                        *self matches Block::Join { blocks: own, .. } && own == blocks,
                    decreases blocks.len() - i,
                {
                    let copy = blocks[i].clone();
                    proof {
                        lemma_block_views_push(copies@, copy, i as nat);
                    }
                    copies.push(copy);
                    i += 1;
                }
                Block::Join { dir: *dir, blocks: copies }
            },
        }
    }
}

/// The views of the first `n` blocks are the same after one more block is
/// added at the end; the views of all of them are those with its view added.
pub proof fn lemma_block_views_push(blocks: Seq<Block>, block: Block, n: nat)
    requires
        n <= blocks.len(),
    ensures
        block_views(blocks.push(block), n) == block_views(blocks, n),
        n == blocks.len() ==> block_views(blocks.push(block), n + 1) == block_views(
            blocks,
            n,
        ).push(block@),
    decreases n,
{
    if n > 0 {
        lemma_block_views_push(blocks, block, (n - 1) as nat);
    }
}

/// The first `n` views are as many, and each is the view of its block.
pub proof fn lemma_block_views(blocks: Seq<Block>, n: nat)
    requires
        n <= blocks.len(),
    ensures
        block_views(blocks, n).len() == n,
        forall|i: int| 0 <= i < n ==> #[trigger] block_views(blocks, n)[i] == blocks[i]@,
    decreases n,
{
    if n > 0 {
        lemma_block_views(blocks, (n - 1) as nat);
        assert(block_views(blocks, n) == block_views(blocks, (n - 1) as nat).push(
            blocks[n - 1]@,
        ));
    } else {
        assert(block_views(blocks, n) == Seq::<BlockView>::empty());
    }
}

/// One change of style: a foreground colour, a background colour, or one
/// more attribute.
#[derive(Copy, Debug)]
pub enum Style {
    Foreground(Color),
    Background(Color),
    Attribute(Attribute),
}

impl Clone for Style {
    fn clone(&self) -> (copy: Style)
        ensures
            copy == *self,
    {
        *self
    }
}

impl ImageView {
    /// The image with the change of style made.
    pub open spec fn with_style(self, style: Style) -> ImageView {
        match style {
            Style::Foreground(color) => ImageView { fg_color: Some(color), ..self },
            Style::Background(color) => ImageView { bg_color: Some(color), ..self },
            Style::Attribute(attr) => ImageView { attrs: self.attrs.insert(attr), ..self },
        }
    }
}

/// The first `n` of `blocks`, each with the change of style made.
pub open spec fn all_with_style(blocks: Seq<BlockView>, n: nat, style: Style) -> Seq<BlockView>
    decreases blocks, n,
{
    if n == 0 || n > blocks.len() {
        Seq::empty()
    } else {
        all_with_style(blocks, (n - 1) as nat, style).push(blocks[n - 1].with_style(style))
    }
}

impl BlockView {
    /// The block with the change of style made to every image in it.
    pub open spec fn with_style(self, style: Style) -> BlockView
        decreases self,
    {
        match self {
            BlockView::Image(image) => BlockView::Image(image.with_style(style)),
            BlockView::Join { dir, blocks } => BlockView::Join {
                dir,
                blocks: all_with_style(blocks, blocks.len(), style),
            },
        }
    }

    /// The block with the foreground colour of every image in it set.
    pub open spec fn with_fg(self, color: Color) -> BlockView {
        self.with_style(Style::Foreground(color))
    }

    /// The block with the background colour of every image in it set.
    pub open spec fn with_bg(self, color: Color) -> BlockView {
        self.with_style(Style::Background(color))
    }

    /// The block with one more attribute on every image in it.
    pub open spec fn with_attr(self, attr: Attribute) -> BlockView {
        self.with_style(Style::Attribute(attr))
    }

    /// The blocks side by side.
    pub open spec fn row(blocks: Seq<BlockView>) -> BlockView {
        BlockView::Join { dir: JoinDir::Horiz, blocks }
    }

    /// The blocks one below the other.
    pub open spec fn column(blocks: Seq<BlockView>) -> BlockView {
        BlockView::Join { dir: JoinDir::Vert, blocks }
    }

    /// The blocks in the same place, later ones over earlier ones.
    pub open spec fn pile(blocks: Seq<BlockView>) -> BlockView {
        BlockView::Join { dir: JoinDir::Stack, blocks }
    }

    /// An image of `width` blanks, without colours or attributes.
    pub open spec fn blank(width: u16) -> BlockView {
        BlockView::Image(
            ImageView {
                fg_color: None,
                bg_color: None,
                attrs: Set::empty(),
                text: Seq::new(width as nat, |i: int| ' '),
                width,
                align: TextAlign::Left,
            },
        )
    }

    /// The block padded with blanks on its left to `width`, where it is
    /// narrower; the block itself where it is not.
    pub open spec fn left_padded(self, width: u16) -> BlockView {
        if width <= capped(self.width()) {
            self
        } else {
            Self::row(seq![Self::blank((width - capped(self.width())) as u16), self])
        }
    }
}

/// The views of all of `blocks`.
pub open spec fn views_of(blocks: Seq<Block>) -> Seq<BlockView> {
    block_views(blocks, blocks.len())
}

/// Adds a block at the end.
pub(crate) fn push_block(blocks: &mut Vec<Block>, block: Block)
    ensures
        views_of(final(blocks)@) == views_of(old(blocks)@).push(block@),
        final(blocks)@ == old(blocks)@.push(block),
{
    proof {
        lemma_block_views_push(blocks@, block, blocks@.len());
    }
    blocks.push(block);
}

fn join_two(dir: JoinDir, first: Block, second: Block) -> (block: Block)
    ensures
        block@ == (BlockView::Join { dir, blocks: seq![first@, second@] }),
{
    let mut blocks: Vec<Block> = Vec::new();
    blocks.push(first);
    blocks.push(second);
    proof {
        lemma_block_views(blocks@, 2);
        assert(views_of(blocks@) =~= seq![first@, second@]);
    }
    Block::Join { dir, blocks }
}

impl Block {
    /// `self` with `right` on its right.
    pub fn horiz(self, right: Block) -> (block: Block)
        ensures
            block@ == BlockView::row(seq![self@, right@]),
    {
        join_two(JoinDir::Horiz, self, right)
    }

    /// The blocks side by side, from left to right.
    pub fn hcat(blocks: Vec<Block>) -> (block: Block)
        ensures
            block@ == BlockView::row(views_of(blocks@)),
    {
        Block::Join { dir: JoinDir::Horiz, blocks }
    }

    /// `self` with `down` below it.
    pub fn vert(self, down: Block) -> (block: Block)
        ensures
            block@ == BlockView::column(seq![self@, down@]),
    {
        join_two(JoinDir::Vert, self, down)
    }

    /// The blocks one below the other, from the top down.
    pub fn vcat(blocks: Vec<Block>) -> (block: Block)
        ensures
            block@ == BlockView::column(views_of(blocks@)),
    {
        Block::Join { dir: JoinDir::Vert, blocks }
    }

    /// `self` with `bottom` in the same place, painted over it.
    pub fn stack(self, bottom: Block) -> (block: Block)
        ensures
            block@ == BlockView::pile(seq![self@, bottom@]),
    {
        join_two(JoinDir::Stack, self, bottom)
    }

    /// The blocks in the same place, each painted over the ones before it.
    pub fn zcat(blocks: Vec<Block>) -> (block: Block)
        ensures
            block@ == BlockView::pile(views_of(blocks@)),
    {
        Block::Join { dir: JoinDir::Stack, blocks }
    }

    /// The width of the block, or the edge where it is wider than that.
    pub fn width(&self) -> (w: u16)
        ensures
            w == capped(self@.width()),
        decreases self,
    {
        match self {
            Block::Image(image) => image.width,
            Block::Join { dir, blocks } => {
                let ghost views = views_of(blocks@);
                proof {
                    lemma_block_views(blocks@, blocks@.len());
                }
                let mut total: u16 = 0;
                let mut i: usize = 0;
                while i < blocks.len()
                    invariant
                        i <= blocks.len(),
                        views == views_of(blocks@),
                        views.len() == blocks.len(),
                        forall|j: int| 0 <= j < views.len() ==> #[trigger] views[j] == blocks[j]@,
                        *self matches Block::Join { blocks: own, .. } && own == blocks,
                        total == capped(
                            match dir {
                                JoinDir::Horiz => sum_of_widths(views, i as nat),
                                _ => max_of_widths(views, i as nat),
                            },
                        ),
                    decreases blocks.len() - i,
                {
                    let w: u16 = blocks[i].width();
                    match dir {
                        JoinDir::Horiz => {
                            total = if w > EDGE - total {
                                EDGE
                            } else {
                                total + w
                            };
                        },
                        _ => {
                            if w > total {
                                total = w;
                            }
                        },
                    }
                    i += 1;
                }
                total
            },
        }
    }

    /// The block padded with blanks on its left to `width`; never cut.
    pub fn left_pad(self, width: u16) -> (block: Block)
        ensures
            block@ == self@.left_padded(width),
    {
        let block_width: u16 = self.width();
        if width <= block_width {
            self
        } else {
            let count: u16 = width - block_width;
            let text = repeated(' ', count);
            let pad = Image::new(text.as_str(), count, TextAlign::Left).build();
            pad.horiz(self)
        }
    }

    /// The block with the foreground colour of every image in it set.
    pub fn fg_color(self, color: Color) -> (block: Block)
        ensures
            block@ == self@.with_fg(color),
    {
        self.restyle(Style::Foreground(color))
    }

    /// The block with the background colour of every image in it set.
    pub fn bg_color(self, color: Color) -> (block: Block)
        ensures
            block@ == self@.with_bg(color),
    {
        self.restyle(Style::Background(color))
    }

    /// The block with one more attribute on every image in it.
    pub fn attr(self, attr: Attribute) -> (block: Block)
        ensures
            block@ == self@.with_attr(attr),
    {
        self.restyle(Style::Attribute(attr))
    }

    fn restyle(self, style: Style) -> (block: Block)
        ensures
            block@ == self@.with_style(style),
        decreases self,
    {
        let ghost whole = self;
        match self {
            Block::Image(image) => Block::Image(
                match style {
                    Style::Foreground(color) => image.fg_color(color),
                    Style::Background(color) => image.bg_color(color),
                    Style::Attribute(attr) => image.attr(attr),
                },
            ),
            Block::Join { dir, blocks } => {
                let ghost views = views_of(blocks@);
                let ghost parts = blocks;
                proof {
                    lemma_block_views(blocks@, blocks@.len());
                }
                let mut styled: Vec<Block> = Vec::new();
                for b in it: blocks
                    invariant
                        styled.len() == it.index(),
                        views.len() == it.seq().len(),
                        it.seq() == parts@,
                        whole == self,
                        whole matches Block::Join { blocks: own, .. } && own == parts,
                        forall|j: int| 0 <= j < views.len() ==> #[trigger] views[j] == it.seq()[j]@,
                        views_of(styled@) == all_with_style(views, it.index() as nat, style),
                {
                    assert(b == parts@[it.index() as int]);
                    assert(decreases_to!(whole => parts));
                    assert(decreases_to!(parts => parts[it.index() as int]));
                    let done = b.restyle(style);
                    proof {
                        lemma_block_views_push(styled@, done, styled@.len());
                    }
                    styled.push(done);
                }
                Block::Join { dir, blocks: styled }
            },
        }
    }
}

/// The width of blocks side by side is the sum of their widths: that of
/// none is zero, and one more block adds its width. The width of blocks
/// below each other or in the same place is the largest of their widths: no
/// block is wider, and where there are blocks one of them is as wide.
pub proof fn lemma_join_width(dir: JoinDir, blocks: Seq<BlockView>)
    ensures
        dir == JoinDir::Horiz ==> (BlockView::Join { dir, blocks }).width() == sum_of_widths(
            blocks,
            blocks.len(),
        ),
        dir != JoinDir::Horiz ==> (BlockView::Join { dir, blocks }).width() == max_of_widths(
            blocks,
            blocks.len(),
        ),
        sum_of_widths(blocks, 0) == 0,
        forall|n: nat|
            0 < n <= blocks.len() ==> #[trigger] sum_of_widths(blocks, n) == sum_of_widths(
                blocks,
                (n - 1) as nat,
            ) + blocks[n - 1].width(),
        forall|i: int|
            0 <= i < blocks.len() ==> (#[trigger] blocks[i]).width() <= max_of_widths(
                blocks,
                blocks.len(),
            ),
        blocks.len() == 0 ==> max_of_widths(blocks, blocks.len()) == 0,
        blocks.len() > 0 ==> exists|i: int|
            0 <= i < blocks.len() && (#[trigger] blocks[i]).width() == max_of_widths(
                blocks,
                blocks.len(),
            ),
{
    lemma_max_of_widths(blocks, blocks.len());
}

/// The largest of the first `n` widths is no less than any of them, and is
/// one of them where there are any.
proof fn lemma_max_of_widths(blocks: Seq<BlockView>, n: nat)
    requires
        n <= blocks.len(),
    ensures
        forall|i: int| 0 <= i < n ==> (#[trigger] blocks[i]).width() <= max_of_widths(blocks, n),
        n == 0 ==> max_of_widths(blocks, n) == 0,
        n > 0 ==> exists|i: int|
            0 <= i < n && (#[trigger] blocks[i]).width() == max_of_widths(blocks, n),
    decreases n,
{
    if n > 0 {
        lemma_max_of_widths(blocks, (n - 1) as nat);
        if n > 1 {
            let k = choose|i: int|
                0 <= i < n - 1 && (#[trigger] blocks[i]).width() == max_of_widths(
                    blocks,
                    (n - 1) as nat,
                );
            if blocks[n - 1].width() > max_of_widths(blocks, (n - 1) as nat) {
                assert(blocks[n - 1].width() == max_of_widths(blocks, n));
            } else {
                assert(blocks[k].width() == max_of_widths(blocks, n));
            }
        } else {
            assert(blocks[0].width() == max_of_widths(blocks, n));
        }
    }
}

impl Image {
    /// An image of `t` with no colours and no attributes.
    pub fn new(t: &str, width: u16, align: TextAlign) -> (image: Image)
        ensures
            image.text@ == t@,
            image.width == width,
            image.align == align,
            image.fg_color is None,
            image.bg_color is None,
            attribute_set(image.attrs) == Set::<Attribute>::empty(),
    {
        Image {
            text: String::from_str(t),
            width,
            align,
            fg_color: None,
            bg_color: None,
            attrs: Attributes::none(),
        }
    }

    /// The image with its foreground colour set.
    pub fn fg_color(self, color: Color) -> (image: Image)
        ensures
            image == (Image { fg_color: Some(color), ..self }),
    {
        let mut image = self;
        image.fg_color = Some(color);
        image
    }

    /// The image with its background colour set.
    pub fn bg_color(self, color: Color) -> (image: Image)
        ensures
            image == (Image { bg_color: Some(color), ..self }),
    {
        let mut image = self;
        image.bg_color = Some(color);
        image
    }

    /// The image as a block.
    pub fn build(self) -> (block: Block)
        ensures
            block@ == BlockView::Image(self@),
    {
        Block::Image(self)
    }

    /// The image with one more attribute.
    pub fn attr(self, attr: Attribute) -> (image: Image)
        ensures
            attribute_set(image.attrs) == attribute_set(self.attrs).insert(attr),
            image == (Image { attrs: image.attrs, ..self }),
    {
        let mut image = self;
        image.attrs = image.attrs.with(attr);
        image
    }
}

} // verus!
