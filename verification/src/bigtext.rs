//! Text in big glyphs, four rows high.
//!
//! The font is one table of five rows. The first row is the key: every
//! character that has a glyph stands above each column of its glyph. The
//! other four rows hold the glyphs, drawn with a few characters that stand
//! for block characters.

use vstd::prelude::*;
use crate::rotty::block::Block;
use crate::rotty::block::BlockView;
use crate::rotty::block::Image;
use crate::rotty::block::ImageView;
use crate::rotty::block::TextAlign;
use crate::rotty::block::lemma_block_views_push;
use crate::rotty::block::views_of;
use crate::text::chars_of;
use crate::text::find_char;
use crate::text::find_end;
use crate::text::first_index;
use crate::text::last_index;
use crate::text::string_from_chars;

verus! {

/// The number of columns of the font table.
pub const FONT_WIDTH: usize = 58;

/// Row `r` of the font table; the key for `r == 0`.
pub open spec fn font_row(r: int) -> Seq<char> {
    if r == 0 {
        "00000111112222233333444445555566666777778888899999  !!::.."@
    } else if r == 1 {
        ".^^.  .|  .^^. .^^. .  | |^^^ .^^  ^^^| .^^. .^^.   |     "@
    } else if r == 2 {
        "|  |   |    .^   .^ |..| |..  |..    ][ ^..^ ^..|   | ^   "@
    } else if r == 3 {
        "|  |   |  .^   .  |    |    | |  |   |  |  |    |   ^ ^   "@
    } else {
        " ^^   ^^^ ^^^^  ^^     ^ ^^^   ^^    ^   ^^   ^^    ^   ^ "@
    }
}

/// Every row of the font table has the table's width.
pub proof fn lemma_font_rows(r: int)
    ensures
        font_row(r).len() == FONT_WIDTH,
{
    reveal_strlit("00000111112222233333444445555566666777778888899999  !!::..");
    reveal_strlit(".^^.  .|  .^^. .^^. .  | |^^^ .^^  ^^^| .^^. .^^.   |     ");
    reveal_strlit("|  |   |    .^   .^ |..| |..  |..    ][ ^..^ ^..|   | ^   ");
    reveal_strlit("|  |   |  .^   .  |    |    | |  |   |  |  |    |   ^ ^   ");
    reveal_strlit(" ^^   ^^^ ^^^^  ^^     ^ ^^^   ^^    ^   ^^   ^^    ^   ^ ");
}

fn big_font(r: usize) -> (row: &'static str)
    ensures
        row@ == font_row(r as int),
        row@.len() == FONT_WIDTH,
{
    proof {
        lemma_font_rows(r as int);
    }
    if r == 0 {
        "00000111112222233333444445555566666777778888899999  !!::.."
    } else if r == 1 {
        ".^^.  .|  .^^. .^^. .  | |^^^ .^^  ^^^| .^^. .^^.   |     "
    } else if r == 2 {
        "|  |   |    .^   .^ |..| |..  |..    ][ ^..^ ^..|   | ^   "
    } else if r == 3 {
        "|  |   |  .^   .  |    |    | |  |   |  |  |    |   ^ ^   "
    } else {
        " ^^   ^^^ ^^^^  ^^     ^ ^^^   ^^    ^   ^^   ^^    ^   ^ "
    }
}

/// The block character that a character of the font table stands for.
pub open spec fn block_char(ch: char) -> char {
    if ch == '[' {
        '\u{258C}'
    } else if ch == ']' {
        '\u{2590}'
    } else if ch == '|' {
        '\u{2588}'
    } else if ch == '.' {
        '\u{2584}'
    } else if ch == '^' {
        '\u{2580}'
    } else {
        ch
    }
}

fn to_block_char(ch: char) -> (block: char)
    ensures
        block == block_char(ch),
{
    if ch == '[' {
        '\u{258C}'
    } else if ch == ']' {
        '\u{2590}'
    } else if ch == '|' {
        '\u{2588}'
    } else if ch == '.' {
        '\u{2584}'
    } else if ch == '^' {
        '\u{2580}'
    } else {
        ch
    }
}

/// The first column of the glyph of `c`.
pub open spec fn glyph_start(c: char) -> int {
    first_index(font_row(0), c)
}

/// The column after the last one of the glyph of `c`.
pub open spec fn glyph_end(c: char) -> int {
    last_index(font_row(0), c) + 1
}

/// Whether `c` has a glyph.
pub open spec fn has_glyph(c: char) -> bool {
    glyph_start(c) < font_row(0).len()
}

/// Row `r` of the glyph of `c`, in block characters.
pub open spec fn glyph_row(c: char, r: int) -> Seq<char> {
    font_row(r).subrange(glyph_start(c), glyph_end(c)).map_values(|ch: char| block_char(ch))
}

/// Row `r` of the glyph of `c` as an image of the glyph's width.
pub open spec fn glyph_image(c: char, r: int) -> BlockView {
    BlockView::Image(
        ImageView {
            fg_color: None,
            bg_color: None,
            attrs: Set::empty(),
            text: glyph_row(c, r),
            width: (glyph_end(c) - glyph_start(c)) as u16,
            align: TextAlign::Left,
        },
    )
}

/// The glyph of `c`: its four rows, one below the other.
pub open spec fn glyph(c: char) -> BlockView {
    BlockView::column(
        seq![glyph_image(c, 1), glyph_image(c, 2), glyph_image(c, 3), glyph_image(c, 4)],
    )
}

/// The glyphs of the first `n` characters of `text`, those without a glyph
/// left out.
pub open spec fn glyphs(text: Seq<char>, n: nat) -> Seq<BlockView>
    decreases n,
{
    if n == 0 || n > text.len() {
        Seq::empty()
    } else if has_glyph(text[n - 1]) {
        glyphs(text, (n - 1) as nat).push(glyph(text[n - 1]))
    } else {
        glyphs(text, (n - 1) as nat)
    }
}

/// The text in big glyphs, side by side.
pub open spec fn big_text(text: Seq<char>) -> BlockView {
    BlockView::row(glyphs(text, text.len()))
}

/// The glyph of `c`, if it has one.
pub fn get_char_block(c: char) -> (block: Option<Block>)
    ensures
        block is Some == has_glyph(c),
        block matches Some(b) ==> b@ == glyph(c),
{
    let key = chars_of(big_font(0));
    let start: usize = find_char(&key, 0, key.len(), c);
    assert(key@.subrange(0, key.len() as int) =~= key@);
    if start == key.len() {
        return None;
    }
    let end: usize = find_end(&key, c);
    assert(start < end) by {
        key@.index_of_last_ensures(c);
        key@.index_of_first_ensures(c);
    }
    let mut rows: Vec<Block> = Vec::new();
    let mut r: usize = 1;
    while r < 5
        invariant
            1 <= r <= 5,
            start < end <= FONT_WIDTH,
            start == glyph_start(c),
            end == glyph_end(c),
            rows.len() == r - 1,
            forall|j: int| 0 <= j < rows.len() ==> (#[trigger] rows[j])@ == glyph_image(c, j + 1),
        decreases 5 - r,
    {
        let row = chars_of(big_font(r));
        let mut text: Vec<char> = Vec::new();
        let mut i: usize = start;
        while i < end
            invariant
                start <= i <= end <= row.len(),
                text@ == row@.subrange(start as int, i as int).map_values(
                    |ch: char| block_char(ch),
                ),
            decreases end - i,
        {
            text.push(to_block_char(row[i]));
            i += 1;
            assert(text@ =~= row@.subrange(start as int, i as int).map_values(
                |ch: char| block_char(ch),
            ));
        }
        let shown = string_from_chars(&text);
        rows.push(Image::new(shown.as_str(), (end - start) as u16, TextAlign::Left).build());
        r += 1;
    }
    let block = Block::vcat(rows);
    proof {
        crate::rotty::block::lemma_block_views(rows@, 4);
        assert(views_of(rows@) =~= seq![
            glyph_image(c, 1),
            glyph_image(c, 2),
            glyph_image(c, 3),
            glyph_image(c, 4),
        ]);
    }
    Some(block)
}

/// The text in big glyphs; characters without a glyph are left out.
pub fn get_big_text(text: &str) -> (block: Block)
    ensures
        block@ == big_text(text@),
{
    let chars = chars_of(text);
    let mut blocks: Vec<Block> = Vec::new();
    let mut i: usize = 0;
    while i < chars.len()
        invariant
            i <= chars.len(),
            views_of(blocks@) == glyphs(chars@, i as nat),
        decreases chars.len() - i,
    {
        match get_char_block(chars[i]) {
            Some(block) => {
                proof {
                    lemma_block_views_push(blocks@, block, blocks@.len());
                }
                blocks.push(block);
            },
            None => {},
        }
        i += 1;
    }
    Block::hcat(blocks)
}

} // verus!
