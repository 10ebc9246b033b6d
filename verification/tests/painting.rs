use crossterm::style::Attribute;
use flitter::rotty::buffer::Command;
use flitter::rotty::buffer::Pen;
use flitter::rotty::buffer::RenderBuffer;
use flitter::rotty::render::render_block;
use flitter::rotty::render::Point;
use flitter::rotty::Block;
use flitter::rotty::Color;
use flitter::rotty::Image;
use flitter::rotty::TextAlign;

fn row_text(buffer: &RenderBuffer, y: u16) -> String {
    (0..buffer.width()).map(|x| buffer.at_ref(x, y).ch).collect()
}

#[test]
fn right_aligned_text_starts_at_offset_six() {
    let mut buffer = RenderBuffer::new(12, 1);
    let block = Image::new("abcd", 10, TextAlign::Right).build();
    let aabb = render_block(&block, Point { x: 0, y: 0 }, &mut buffer);
    assert_eq!(row_text(&buffer, 0), "      abcd  ");
    assert_eq!(aabb.size, Point { x: 10, y: 1 });
}

#[test]
fn centered_text_starts_at_offset_three() {
    let mut buffer = RenderBuffer::new(12, 1);
    let block = Image::new("abcd", 10, TextAlign::Center).build();
    render_block(&block, Point { x: 0, y: 0 }, &mut buffer);
    assert_eq!(row_text(&buffer, 0), "   abcd     ");
}

#[test]
fn left_aligned_text_starts_at_offset_zero() {
    let mut buffer = RenderBuffer::new(12, 1);
    let block = Image::new("abcd", 10, TextAlign::Left).build();
    render_block(&block, Point { x: 0, y: 0 }, &mut buffer);
    assert_eq!(row_text(&buffer, 0), "abcd        ");
}

#[test]
fn text_longer_than_its_width_starts_at_offset_zero() {
    for align in [TextAlign::Left, TextAlign::Center, TextAlign::Right] {
        let mut buffer = RenderBuffer::new(8, 1);
        let block = Image::new("abcdef", 3, align).build();
        let aabb = render_block(&block, Point { x: 1, y: 0 }, &mut buffer);
        assert_eq!(row_text(&buffer, 0), " abcdef ");
        assert_eq!(aabb.size, Point { x: 3, y: 1 });
    }
}

#[test]
fn writes_off_the_grid_are_absorbed() {
    let mut buffer = RenderBuffer::new(3, 2);
    let block = Image::new("abcdef", 6, TextAlign::Left).build();
    render_block(&block, Point { x: 1, y: 0 }, &mut buffer);
    assert_eq!(row_text(&buffer, 0), " ab");
    assert_eq!(row_text(&buffer, 1), "   ");
    render_block(&block, Point { x: 0, y: 5 }, &mut buffer);
    assert_eq!(row_text(&buffer, 0), " ab");
    assert_eq!(row_text(&buffer, 1), "   ");
}

#[test]
fn joins_advance_along_their_axis() {
    let a = Image::new("aa", 2, TextAlign::Left).build();
    let b = Image::new("bbb", 3, TextAlign::Left).build();
    let c = Image::new("c", 1, TextAlign::Left).build();
    let block = a.horiz(b).vert(c);
    assert_eq!(block.width(), 5);
    let mut buffer = RenderBuffer::new(6, 3);
    let aabb = render_block(&block, Point { x: 1, y: 0 }, &mut buffer);
    assert_eq!(row_text(&buffer, 0), " aabbb");
    assert_eq!(row_text(&buffer, 1), " c    ");
    assert_eq!(aabb.top_left, Point { x: 1, y: 0 });
    assert_eq!(aabb.size, Point { x: 5, y: 2 });
}

#[test]
fn stack_paints_later_blocks_over_earlier_ones() {
    let under = Image::new("uuuu", 4, TextAlign::Left)
        .fg_color(Color::Red)
        .attr(Attribute::Bold)
        .build();
    let over = Image::new("yy", 4, TextAlign::Left).attr(Attribute::Italic).build();
    let mut buffer = RenderBuffer::new(4, 1);
    let aabb = render_block(&under.stack(over), Point { x: 0, y: 0 }, &mut buffer);
    assert_eq!(row_text(&buffer, 0), "yyuu");
    assert_eq!(aabb.size, Point { x: 4, y: 1 });
    let first = buffer.at_ref(0, 0);
    assert_eq!(first.fg_color, Color::Red);
    assert_eq!(first.bg_color, Color::Black);
    assert!(first.attrs.has(Attribute::Bold));
    assert!(first.attrs.has(Attribute::Italic));
    assert!(!first.attrs.has(Attribute::Dim));
    let third = buffer.at_ref(2, 0);
    assert!(third.attrs.has(Attribute::Bold));
    assert!(!third.attrs.has(Attribute::Italic));
}

#[test]
fn width_of_joins() {
    let images = || {
        vec![
            Image::new("", 3, TextAlign::Left).build(),
            Image::new("", 7, TextAlign::Left).build(),
            Image::new("", 5, TextAlign::Left).build(),
        ]
    };
    assert_eq!(Block::hcat(images()).width(), 15);
    assert_eq!(Block::vcat(images()).width(), 7);
    assert_eq!(Block::zcat(images()).width(), 7);
    assert_eq!(Block::hcat(vec![]).width(), 0);
    assert_eq!(Block::vcat(vec![]).width(), 0);
    let wide = Image::new("", 40000, TextAlign::Left).build();
    assert_eq!(wide.clone().horiz(wide).width(), 65535);
}

#[test]
fn left_pad_never_cuts() {
    let block = Image::new("ab", 2, TextAlign::Left).build();
    let padded = block.clone().left_pad(5);
    assert_eq!(padded.width(), 5);
    let mut buffer = RenderBuffer::new(6, 1);
    buffer.fill(Color::Reset, Color::Reset);
    render_block(&padded, Point { x: 0, y: 0 }, &mut buffer);
    assert_eq!(row_text(&buffer, 0), "   ab ");
    assert_eq!(block.left_pad(1).width(), 2);
}

#[test]
fn recolouring_reaches_every_image() {
    let block = Image::new("a", 1, TextAlign::Left)
        .build()
        .horiz(Image::new("b", 1, TextAlign::Left).build().vert(Image::new("c", 1, TextAlign::Left).build()))
        .fg_color(Color::Green)
        .bg_color(Color::Blue);
    let mut buffer = RenderBuffer::new(2, 2);
    render_block(&block, Point { x: 0, y: 0 }, &mut buffer);
    for (x, y) in [(0u16, 0u16), (1, 0), (1, 1)] {
        assert_eq!(buffer.at_ref(x, y).fg_color, Color::Green);
        assert_eq!(buffer.at_ref(x, y).bg_color, Color::Blue);
    }
    assert_eq!(buffer.at_ref(0, 1).fg_color, Color::White);
}

#[test]
fn identical_buffers_need_no_commands() {
    let mut a = RenderBuffer::new(5, 3);
    let mut b = RenderBuffer::new(5, 3);
    let block = Image::new("hello", 5, TextAlign::Left).fg_color(Color::Red).build();
    render_block(&block, Point { x: 0, y: 1 }, &mut a);
    render_block(&block, Point { x: 0, y: 1 }, &mut b);
    assert_eq!(a.render(Some(&b), Pen::reset()), vec![]);
}

#[test]
fn one_changed_cell_needs_one_move_and_one_character() {
    let a = RenderBuffer::new(5, 3);
    let mut b = RenderBuffer::new(5, 3);
    b.at_mut(0, 0).ch = 'x';
    let pen = Pen { fg_color: Color::White, bg_color: Color::Black, attrs: a.at_ref(0, 0).attrs };
    assert_eq!(b.render(Some(&a), pen), vec![Command::MoveTo(0, 0), Command::Print('x')]);
    let mut c = RenderBuffer::new(5, 3);
    c.at_mut(3, 2).ch = 'y';
    c.at_mut(3, 2).fg_color = Color::Red;
    assert_eq!(
        c.render(Some(&a), Pen::reset()),
        vec![
            Command::MoveTo(3, 2),
            Command::SetForegroundColor(Color::Red),
            Command::SetBackgroundColor(Color::Black),
            Command::Print('y'),
        ]
    );
}

#[test]
fn neighbouring_cells_need_one_move() {
    let a = RenderBuffer::new(4, 2);
    let mut b = RenderBuffer::new(4, 2);
    b.at_mut(1, 0).ch = 'a';
    b.at_mut(2, 0).ch = 'b';
    b.at_mut(3, 0).ch = 'c';
    b.at_mut(0, 1).ch = 'd';
    b.at_mut(2, 1).attrs = b.at_ref(2, 1).attrs.with(Attribute::Bold);
    let pen = Pen { fg_color: Color::White, bg_color: Color::Black, attrs: a.at_ref(0, 0).attrs };
    assert_eq!(
        b.render(Some(&a), pen),
        vec![
            Command::MoveTo(1, 0),
            Command::Print('a'),
            Command::Print('b'),
            Command::Print('c'),
            Command::MoveTo(0, 1),
            Command::Print('d'),
            Command::MoveTo(2, 1),
            Command::ResetAttributes,
            Command::SetAttributes(b.at_ref(2, 1).attrs),
            Command::SetForegroundColor(Color::White),
            Command::SetBackgroundColor(Color::Black),
            Command::Print(' '),
        ]
    );
}

#[test]
fn attributes_reach_every_image() {
    let block = Image::new("a", 1, TextAlign::Left)
        .attr(Attribute::Dim)
        .build()
        .vert(Image::new("b", 1, TextAlign::Left).build())
        .attr(Attribute::Bold);
    let mut buffer = RenderBuffer::new(2, 2);
    render_block(&block, Point { x: 0, y: 0 }, &mut buffer);
    assert!(buffer.at_ref(0, 0).attrs.has(Attribute::Bold));
    assert!(buffer.at_ref(0, 0).attrs.has(Attribute::Dim));
    assert!(buffer.at_ref(0, 1).attrs.has(Attribute::Bold));
    assert!(!buffer.at_ref(0, 1).attrs.has(Attribute::Dim));
    assert!(buffer.at_ref(1, 0).attrs.is_empty());
}

#[test]
fn cells_off_the_grid_share_one_cell() {
    let mut buffer = RenderBuffer::new(2, 2);
    assert_eq!(buffer.width(), 2);
    assert_eq!(buffer.height(), 2);
    buffer.at_mut(2, 0).ch = 'x';
    assert_eq!(buffer.at_ref(0, 1).ch, ' ');
    assert_eq!(buffer.at_ref(5, 5).ch, 'x');
    assert_eq!(buffer.at_ref(0, 2).ch, 'x');
    buffer.at_mut(1, 1).ch = 'y';
    assert_eq!(buffer.at_ref(1, 1).ch, 'y');
    assert_eq!(buffer.at_ref(65535, 65535).ch, 'x');
    let empty = RenderBuffer::new(0, 7);
    assert_eq!(empty.height(), 7);
    assert_eq!(empty.at_ref(0, 0).ch, ' ');
    assert_eq!(empty.render(None, Pen::reset()), vec![]);
}

#[test]
fn an_unknown_frame_is_painted_whole() {
    let mut buffer = RenderBuffer::new(2, 2);
    buffer.at_mut(1, 0).ch = 'a';
    let pen = Pen { fg_color: Color::White, bg_color: Color::Black, attrs: buffer.at_ref(0, 0).attrs };
    assert_eq!(
        buffer.render(None, pen),
        vec![
            Command::MoveTo(0, 0),
            Command::Print(' '),
            Command::Print('a'),
            Command::MoveTo(0, 1),
            Command::Print(' '),
            Command::Print(' '),
        ]
    );
}
