//! The timer's display: a block built from the run's summary and the theme.

use vstd::prelude::*;
use crossterm::style::Attribute;
use crate::bigtext::big_text;
use crate::bigtext::get_big_text;
use crate::duration::Duration;
use crate::duration::Instant;
use crate::duration::MAX_NANOS;
use crate::duration::opt_nanos;
use crate::rotty::block::Block;
use crate::rotty::block::BlockView;
use crate::rotty::block::Image;
use crate::rotty::block::ImageView;
use crate::rotty::block::TextAlign;
use crate::rotty::block::lemma_block_views;
use crate::rotty::block::push_block;
use crate::rotty::block::views_of;
use crate::rotty::style::Color;
use crate::settings::Theme;
use crate::text::push_text;
use crate::text::repeated;
use crate::text::string_from_chars;
use crate::timer_state::TimerMode;
use crate::timer_state::TimerState;
use crate::utils::Prefix;
use crate::utils::SegModel;
use crate::utils::SegSummary;
use crate::utils::Sign;
use crate::utils::color_of_hex;
use crate::utils::decimal;
use crate::utils::format_duration;
use crate::utils::format_duration_spec;
use crate::utils::get_run_summary;
use crate::utils::parse_color;
use crate::utils::push_decimal;
use crate::utils::run_summary;

verus! {

/// The width of the timer.
pub const TIMER_WIDTH: u16 = 48;

/// The width of one of the four columns of a split's row.
pub const COL_WIDTH: u16 = 12;

/// An image of a text with the given style.
pub open spec fn styled(
    text: Seq<char>,
    width: u16,
    align: TextAlign,
    fg_color: Option<Color>,
    bg_color: Option<Color>,
    attrs: Set<Attribute>,
) -> BlockView {
    BlockView::Image(ImageView { fg_color, bg_color, attrs, text, width, align })
}

/// An image of a text without colours or attributes.
pub open spec fn plain(text: Seq<char>, width: u16, align: TextAlign) -> BlockView {
    styled(text, width, align, None, None, Set::empty())
}

/// An image of a text in a colour.
pub open spec fn colored(text: Seq<char>, width: u16, align: TextAlign, color: Color)
    -> BlockView {
    styled(text, width, align, Some(color), None, Set::empty())
}

/// A duration as the timer shows it: with two digits of the milliseconds.
pub open spec fn shown_time(nanos: nat) -> Seq<char> {
    format_duration_spec(nanos, 2, Sign::Positive, Prefix::NoneOrMinus)
}

/// A duration as the timer shows it, or a dash where there is none.
pub open spec fn time_or_dash(time: Option<nat>) -> Seq<char> {
    match time {
        Some(nanos) => shown_time(nanos),
        None => "-"@,
    }
}

/// A difference as the timer shows it: with its sign.
pub open spec fn shown_delta(nanos: nat, negative: bool) -> Seq<char> {
    format_duration_spec(
        nanos,
        2,
        if negative {
            Sign::Negative
        } else {
            Sign::Positive
        },
        Prefix::PlusOrMinus,
    )
}

fn plain_image(text: &str, width: u16, align: TextAlign) -> (block: Block)
    ensures
        block@ == plain(text@, width, align),
{
    Image::new(text, width, align).build()
}

fn colored_image(text: &str, width: u16, align: TextAlign, color: Color) -> (block: Block)
    ensures
        block@ == colored(text@, width, align, color),
{
    Image::new(text, width, align).fg_color(color).build()
}

fn time_text(time: Option<Duration>) -> (text: String)
    ensures
        text@ == time_or_dash(opt_nanos(time)),
{
    match time {
        Some(time) => format_duration(time, 2, Sign::Positive, Prefix::NoneOrMinus),
        None => String::from_str("-"),
    }
}

fn delta_text(delta: Duration, negative: bool) -> (text: String)
    ensures
        text@ == shown_delta(delta@, negative),
{
    format_duration(delta, 2, Sign::from(!negative), Prefix::PlusOrMinus)
}

/// The colour of a split's delta: by whether the run is ahead of the
/// personal best or behind it there, and whether it gained or lost time on
/// the segment; where the gain is not known, as if it went the way of the
/// delta. The colour of a gain ahead where there is no delta.
pub open spec fn delta_color(seg: SegModel, theme: Theme) -> Color {
    if seg.live_delta is Some {
        let gain_neg = if seg.gained is Some {
            seg.gained_neg
        } else {
            seg.live_delta_neg
        };
        color_of_hex(
            if seg.live_delta_neg {
                if gain_neg {
                    theme.ahead_gain@
                } else {
                    theme.ahead_lose@
                }
            } else {
                if gain_neg {
                    theme.behind_gain@
                } else {
                    theme.behind_lose@
                }
            },
        )
    } else {
        color_of_hex(theme.ahead_gain@)
    }
}

/// The colour of the delta of split `idx`.
pub fn get_delta_color(idx: usize, theme: &Theme, summary: &Vec<SegSummary>) -> (color: Color)
    requires
        idx < summary.len(),
    ensures
        color == delta_color(summary[idx as int]@, *theme),
{
    let seg = &summary[idx];
    if seg.live_delta.is_some() {
        let delta_neg: bool = seg.live_delta_neg;
        let gain_neg: bool = if seg.gained.is_some() {
            seg.gained_neg
        } else {
            delta_neg
        };
        let color_str: &str = match (delta_neg, gain_neg) {
            (true, true) => theme.ahead_gain,
            (true, false) => theme.ahead_lose,
            (false, true) => theme.behind_gain,
            (false, false) => theme.behind_lose,
        };
        parse_color(color_str)
    } else {
        parse_color(theme.ahead_gain)
    }
}

/// Whether the delta of a split is shown: once the segment has taken as long
/// as its gold, where both are known; else once the split is as late as the
/// personal best's, where both are known; else at once.
pub open spec fn delta_shown(seg: SegModel) -> bool {
    match (seg.live_seg, seg.gold) {
        (Some(run), Some(gold)) => run >= gold,
        _ => match (seg.live_split, seg.pb_split) {
            (Some(time), Some(best)) => time >= best,
            _ => true,
        },
    }
}

/// The delta column of a split's row: the delta with its sign, in the
/// rainbow colour where the segment is a new gold and in the delta's colour
/// otherwise; a blank while the delta is not shown; a dash where there is no
/// delta.
pub open spec fn delta_block(seg: SegModel, theme: Theme, rainbow: Color) -> BlockView {
    match seg.live_delta {
        Some(delta) => if delta_shown(seg) {
            colored(
                shown_delta(delta, seg.live_delta_neg),
                COL_WIDTH,
                TextAlign::Right,
                if seg.is_gold_new {
                    rainbow
                } else {
                    delta_color(seg, theme)
                },
            )
        } else {
            plain(" "@, COL_WIDTH, TextAlign::Left)
        },
        None => plain("-"@, COL_WIDTH, TextAlign::Right),
    }
}

/// The delta column of the row of split `idx`.
pub fn get_delta_block(
    idx: usize,
    theme: &Theme,
    summary: &Vec<SegSummary>,
    rainbow: Color,
) -> (block: Block)
    requires
        idx < summary.len(),
    ensures
        block@ == delta_block(summary[idx as int]@, *theme, rainbow),
{
    let seg = &summary[idx];
    match seg.live_delta {
        Some(delta) => {
            let show: bool = match (seg.live_seg, seg.gold) {
                (Some(run), Some(gold)) => gold.le(&run),
                _ => match (seg.live_split, seg.pb_split) {
                    (Some(time), Some(best)) => best.le(&time),
                    _ => true,
                },
            };
            if show {
                let text = delta_text(delta, seg.live_delta_neg);
                let color = if seg.is_gold_new {
                    rainbow
                } else {
                    get_delta_color(idx, theme, summary)
                };
                colored_image(text.as_str(), COL_WIDTH, TextAlign::Right, color)
            } else {
                plain_image(" ", COL_WIDTH, TextAlign::Left)
            }
        },
        None => plain_image("-", COL_WIDTH, TextAlign::Right),
    }
}

/// The row of a split: its name, its delta, its segment time and its split
/// time side by side, over a bar that has the highlight colour where the
/// split is the one being run. The times are the run's where the split is
/// reached and the personal best's where it is not.
pub open spec fn split_row(
    name: Seq<char>,
    seg: SegModel,
    reached: bool,
    current: bool,
    theme: Theme,
    rainbow: Color,
) -> BlockView {
    BlockView::pile(
        seq![
            styled(
                Seq::new(TIMER_WIDTH as nat, |i: int| ' '),
                TIMER_WIDTH,
                TextAlign::Left,
                None,
                if current {
                    Some(color_of_hex(theme.highlight@))
                } else {
                    None
                },
                Set::empty(),
            ),
            BlockView::row(
                seq![
                    plain(name, COL_WIDTH, TextAlign::Left),
                    delta_block(seg, theme, rainbow),
                    plain(
                        time_or_dash(
                            if reached {
                                seg.live_seg
                            } else {
                                seg.pb_seg
                            },
                        ),
                        COL_WIDTH,
                        TextAlign::Right,
                    ),
                    plain(
                        time_or_dash(
                            if reached {
                                seg.live_split
                            } else {
                                seg.pb_split
                            },
                        ),
                        COL_WIDTH,
                        TextAlign::Right,
                    ),
                ],
            ),
        ],
    )
}

/// Whether split `idx` is the one being run.
pub open spec fn is_current(timer: &TimerState, idx: int) -> bool {
    timer.mode is Running && idx == timer.splits.len()
}

/// The row of split `idx`.
pub fn get_split_row(
    timer: &TimerState,
    idx: usize,
    theme: &Theme,
    summary: &Vec<SegSummary>,
    rainbow: Color,
) -> (block: Block)
    requires
        idx < summary.len(),
        summary.len() == timer.split_file.split_names.len(),
    ensures
        block@ == split_row(
            timer.split_file.split_names[idx as int]@,
            summary[idx as int]@,
            idx < timer.splits.len(),
            is_current(timer, idx as int),
            *theme,
            rainbow,
        ),
{
    let name_col = plain_image(
        timer.split_file.split_names[idx].as_str(),
        COL_WIDTH,
        TextAlign::Left,
    );
    let reached: bool = idx < timer.splits.len();
    let seg_text = time_text(
        if reached {
            summary[idx].live_seg
        } else {
            summary[idx].pb_seg
        },
    );
    let split_text = time_text(
        if reached {
            summary[idx].live_split
        } else {
            summary[idx].pb_split
        },
    );
    let seg_col = plain_image(seg_text.as_str(), COL_WIDTH, TextAlign::Right);
    let split_col = plain_image(split_text.as_str(), COL_WIDTH, TextAlign::Right);
    let delta_col = get_delta_block(idx, theme, summary, rainbow);

    let running: bool = match timer.mode {
        TimerMode::Running { .. } => true,
        _ => false,
    };
    let bar = repeated(' ', TIMER_WIDTH);
    let mut bg_image = Image::new(bar.as_str(), TIMER_WIDTH, TextAlign::Left);
    if running && idx == timer.splits.len() {
        bg_image = bg_image.bg_color(parse_color(theme.highlight));
    }
    let bg = bg_image.build();

    let mut columns: Vec<Block> = Vec::new();
    columns.push(name_col);
    columns.push(delta_col);
    columns.push(seg_col);
    columns.push(split_col);
    proof {
        lemma_block_views(columns@, 4);
        assert(views_of(columns@) =~= seq![name_col@, delta_col@, seg_col@, split_col@]);
    }
    bg.stack(Block::hcat(columns))
}

/// The line that tells what the last completed segment gained or lost: in
/// the colour of a gain ahead where time was gained, of a loss behind where
/// it was lost; a dash in the colour of normal text where that is not known.
pub open spec fn prev_segment_block(last: Option<SegModel>, theme: Theme) -> BlockView {
    let gained = match last {
        Some(seg) => seg.gained,
        None => None,
    };
    BlockView::row(
        seq![
            plain("Previous Segment"@, 24, TextAlign::Left),
            match gained {
                Some(gained) => colored(
                    shown_delta(gained, last->0.gained_neg),
                    24,
                    TextAlign::Right,
                    color_of_hex(
                        if last->0.gained_neg {
                            theme.ahead_gain@
                        } else {
                            theme.behind_lose@
                        },
                    ),
                ),
                None => colored("-"@, 24, TextAlign::Right, color_of_hex(theme.normal_text@)),
            },
        ],
    )
}

/// The line that tells what the last completed segment gained or lost.
pub fn get_prev_segment_block(
    timer: &TimerState,
    theme: &Theme,
    summary: &Vec<SegSummary>,
) -> (block: Block)
    requires
        timer.splits.len() <= summary.len(),
    ensures
        block@ == prev_segment_block(
            if timer.splits.len() == 0 {
                None
            } else {
                Some(summary[timer.splits.len() - 1]@)
            },
            *theme,
        ),
{
    let label_col = plain_image("Previous Segment", TIMER_WIDTH / 2, TextAlign::Left);
    let recorded: usize = timer.splits.len();
    let gained: Option<Duration> = if recorded == 0 {
        None
    } else {
        summary[recorded - 1].gained
    };
    let prev_seg_col = match gained {
        Some(gained) => {
            let neg: bool = summary[recorded - 1].gained_neg;
            let text = delta_text(gained, neg);
            let color = if neg {
                parse_color(theme.ahead_gain)
            } else {
                parse_color(theme.behind_lose)
            };
            colored_image(text.as_str(), TIMER_WIDTH - TIMER_WIDTH / 2, TextAlign::Right, color)
        },
        None => colored_image(
            "-",
            TIMER_WIDTH - TIMER_WIDTH / 2,
            TextAlign::Right,
            parse_color(theme.normal_text),
        ),
    };
    let ghost last: Option<SegModel> = if timer.splits.len() == 0 {
        None
    } else {
        Some(summary[timer.splits.len() - 1]@)
    };
    assert(prev_segment_block(last, *theme)->blocks =~= seq![label_col@, prev_seg_col@]);
    label_col.horiz(prev_seg_col)
}

/// Whether every one of the first `n` segments has a best time.
pub open spec fn all_golds(segs: Seq<SegModel>, n: nat) -> bool {
    forall|i: int| 0 <= i < n ==> (#[trigger] segs[i]).gold is Some
}

/// The best times of the first `n` segments, added up; a missing one counts
/// as nothing.
pub open spec fn sum_of_golds(segs: Seq<SegModel>, n: nat) -> nat
    decreases n,
{
    if n == 0 || n > segs.len() {
        0
    } else {
        sum_of_golds(segs, (n - 1) as nat) + match segs[n - 1].gold {
            Some(gold) => gold,
            None => 0,
        }
    }
}

/// The line that tells the sum of the best segment times, as far as a
/// duration can hold it; a dash where a segment has no best time.
pub open spec fn sum_of_best_block(segs: Seq<SegModel>) -> BlockView {
    let sum = sum_of_golds(segs, segs.len());
    BlockView::row(
        seq![
            plain("Sum of Best Segments"@, 24, TextAlign::Left),
            plain(
                if all_golds(segs, segs.len()) {
                    shown_time(
                        if sum > MAX_NANOS {
                            MAX_NANOS as nat
                        } else {
                            sum
                        },
                    )
                } else {
                    "-"@
                },
                24,
                TextAlign::Right,
            ),
        ],
    )
}

/// The summaries as plain data.
pub open spec fn seg_views(summary: Seq<SegSummary>) -> Seq<SegModel> {
    summary.map_values(|seg: SegSummary| seg@)
}

/// The line that tells the sum of the best segment times.
pub fn get_sum_of_best_block(summary: &Vec<SegSummary>) -> (block: Block)
    ensures
        block@ == sum_of_best_block(seg_views(summary@)),
{
    let ghost segs = seg_views(summary@);
    let mut total: Option<Duration> = Some(Duration::zero());
    let mut i: usize = 0;
    while i < summary.len()
        invariant
            i <= summary.len(),
            segs == seg_views(summary@),
            total is Some == all_golds(segs, i as nat),
            total matches Some(sum) ==> sum@ == if sum_of_golds(segs, i as nat) > MAX_NANOS {
                MAX_NANOS as nat
            } else {
                sum_of_golds(segs, i as nat)
            },
        decreases summary.len() - i,
    {
        total = match (total, summary[i].gold) {
            (Some(sum), Some(gold)) => Some(
                match sum.checked_add(gold) {
                    Some(more) => more,
                    None => Duration::longest(),
                },
            ),
            _ => None,
        };
        assert(all_golds(segs, (i + 1) as nat) ==> segs[i as int].gold is Some && all_golds(
            segs,
            i as nat,
        ));
        i += 1;
    }
    let sob_text = time_text(total);
    let label_col = plain_image("Sum of Best Segments", TIMER_WIDTH / 2, TextAlign::Left);
    let sob_col = plain_image(sob_text.as_str(), TIMER_WIDTH - TIMER_WIDTH / 2, TextAlign::Right);
    label_col.horiz(sob_col)
}

/// The time that the big timer shows: nothing before the start, the running
/// time during the run, the running time at the pause during a pause, the
/// last split after the finish.
pub open spec fn shown_elapsed(timer: &TimerState, now: Instant) -> nat {
    match timer.mode {
        TimerMode::Initial => 0,
        TimerMode::Running { .. } => timer.elapsed(now)->0,
        TimerMode::Paused { elapsed_at_pause } => elapsed_at_pause@,
        TimerMode::Finished { .. } => match timer.splits[timer.splits.len() - 1] {
            Some(last) => last@,
            None => 0,
        },
    }
}

/// The colour of the big timer: that of a gain ahead before the start; that
/// of the current split's delta during the run; that of paused text during
/// a pause; after the finish the rainbow colour where the run beat the
/// personal best, and that of a loss behind where it did not.
pub open spec fn big_timer_color(
    timer: &TimerState,
    segs: Seq<SegModel>,
    theme: Theme,
    rainbow: Color,
) -> Color {
    match timer.mode {
        TimerMode::Initial => color_of_hex(theme.ahead_gain@),
        TimerMode::Running { .. } => delta_color(segs[timer.splits.len() as int], theme),
        TimerMode::Paused { .. } => color_of_hex(theme.paused_text@),
        TimerMode::Finished { .. } => if segs[segs.len() - 1].live_delta_neg {
            rainbow
        } else {
            color_of_hex(theme.behind_lose@)
        },
    }
}

/// The big timer: a time in big glyphs, padded on the left to the timer's
/// width, in a colour.
pub open spec fn big_timer(elapsed: nat, color: Color) -> BlockView {
    big_text(shown_time(elapsed)).left_padded(TIMER_WIDTH).with_fg(color)
}

/// The big timer, showing `elapsed`.
pub fn get_big_timer(
    timer: &TimerState,
    theme: &Theme,
    summary: &Vec<SegSummary>,
    elapsed: Duration,
    rainbow: Color,
) -> (block: Block)
    requires
        timer.wf(),
        summary.len() == timer.split_file.len(),
    ensures
        block@ == big_timer(elapsed@, big_timer_color(timer, seg_views(summary@), *theme, rainbow)),
{
    let color = match timer.mode {
        TimerMode::Initial => parse_color(theme.ahead_gain),
        TimerMode::Running { .. } => get_delta_color(timer.splits.len(), theme, summary),
        TimerMode::Paused { .. } => parse_color(theme.paused_text),
        TimerMode::Finished { .. } => {
            if summary[summary.len() - 1].live_delta_neg {
                rainbow
            } else {
                parse_color(theme.behind_lose)
            }
        },
    };
    let text = format_duration(elapsed, 2, Sign::Positive, Prefix::NoneOrMinus);
    get_big_text(text.as_str()).left_pad(TIMER_WIDTH).fg_color(color)
}

/// The line of the counts: completed runs, a slash, attempts.
pub open spec fn attempts_text(completed: u32, attempts: u32) -> Seq<char> {
    decimal(completed as nat) + "/"@ + decimal(attempts as nat)
}

/// The rows of the first `n` splits.
pub open spec fn split_rows(
    timer: &TimerState,
    segs: Seq<SegModel>,
    theme: Theme,
    rainbow: Color,
    n: nat,
) -> Seq<BlockView> {
    Seq::new(
        n,
        |i: int|
            split_row(
                timer.split_file.split_names[i]@,
                segs[i],
                i < timer.splits.len(),
                is_current(timer, i),
                theme,
                rainbow,
            ),
    )
}

/// The lines above the splits: the title and the category in bold, the
/// counts, a blank line, the column headers and a rule.
pub open spec fn head_blocks(timer: &TimerState, theme: Theme) -> Seq<BlockView> {
    let label = color_of_hex(theme.label_text@);
    seq![
        styled(
            timer.split_file.title@,
            TIMER_WIDTH,
            TextAlign::Center,
            None,
            None,
            set![Attribute::Bold],
        ),
        styled(
            timer.split_file.category@,
            TIMER_WIDTH,
            TextAlign::Center,
            None,
            None,
            set![Attribute::Bold],
        ),
        plain(
            attempts_text(timer.split_file.completed, timer.split_file.attempts),
            TIMER_WIDTH,
            TextAlign::Right,
        ),
        plain(Seq::new(TIMER_WIDTH as nat, |i: int| ' '), TIMER_WIDTH, TextAlign::Left),
        BlockView::row(
            seq![
                colored(""@, COL_WIDTH, TextAlign::Right, label),
                colored("Delta"@, COL_WIDTH, TextAlign::Right, label),
                colored("Segment"@, COL_WIDTH, TextAlign::Right, label),
                colored("Split"@, COL_WIDTH, TextAlign::Right, label),
            ],
        ),
        colored(
            Seq::new(TIMER_WIDTH as nat, |i: int| '\u{2500}'),
            TIMER_WIDTH,
            TextAlign::Left,
            label,
        ),
    ]
}

/// The lines below the splits: a rule, a blank line, the big timer, a blank
/// line, the previous segment and the sum of the best segments.
pub open spec fn foot_blocks(
    timer: &TimerState,
    segs: Seq<SegModel>,
    now: Instant,
    theme: Theme,
    rainbow: Color,
) -> Seq<BlockView> {
    let blank = plain(Seq::new(TIMER_WIDTH as nat, |i: int| ' '), TIMER_WIDTH, TextAlign::Left);
    seq![
        colored(
            Seq::new(TIMER_WIDTH as nat, |i: int| '\u{2500}'),
            TIMER_WIDTH,
            TextAlign::Left,
            color_of_hex(theme.label_text@),
        ),
        blank,
        big_timer(shown_elapsed(timer, now), big_timer_color(timer, segs, theme, rainbow)),
        blank,
        prev_segment_block(
            if timer.splits.len() == 0 {
                None
            } else {
                Some(segs[timer.splits.len() - 1])
            },
            theme,
        ),
        sum_of_best_block(segs),
    ]
}

/// The timer's display of a session as summarised in `segs`: the head, a row
/// for every split, and the foot, one below the other.
pub open spec fn timer_view(
    timer: &TimerState,
    segs: Seq<SegModel>,
    now: Instant,
    theme: Theme,
    rainbow: Color,
) -> BlockView {
    BlockView::column(
        head_blocks(timer, theme) + split_rows(timer, segs, theme, rainbow, segs.len())
            + foot_blocks(timer, segs, now, theme, rainbow),
    )
}

/// The summary of the run as it stands at `now`, for every segment.
pub open spec fn run_summaries(timer: &TimerState, now: Instant) -> Seq<SegModel> {
    Seq::new(timer.split_file.len(), |i: int| run_summary(timer, now, i))
}

fn spacer() -> (block: Block)
    ensures
        block@ == plain(Seq::new(TIMER_WIDTH as nat, |i: int| ' '), TIMER_WIDTH, TextAlign::Left),
{
    let text = repeated(' ', TIMER_WIDTH);
    plain_image(text.as_str(), TIMER_WIDTH, TextAlign::Left)
}

fn rule(theme: &Theme) -> (block: Block)
    ensures
        block@ == colored(
            Seq::new(TIMER_WIDTH as nat, |i: int| '\u{2500}'),
            TIMER_WIDTH,
            TextAlign::Left,
            color_of_hex(theme.label_text@),
        ),
{
    let text = repeated('\u{2500}', TIMER_WIDTH);
    colored_image(text.as_str(), TIMER_WIDTH, TextAlign::Left, parse_color(theme.label_text))
}

fn bold_line(text: &str) -> (block: Block)
    ensures
        block@ == styled(
            text@,
            TIMER_WIDTH,
            TextAlign::Center,
            None,
            None,
            set![Attribute::Bold],
        ),
{
    let image = Image::new(text, TIMER_WIDTH, TextAlign::Center).attr(Attribute::Bold);
    assert(image@.attrs =~= set![Attribute::Bold]);
    image.build()
}

/// Adds the lines above the splits.
fn push_head(sections: &mut Vec<Block>, timer: &TimerState, theme: &Theme)
    ensures
        views_of(final(sections)@) == views_of(old(sections)@) + head_blocks(timer, *theme),
{
    let ghost start = views_of(sections@);
    push_block(sections, bold_line(timer.split_file.title.as_str()));
    push_block(sections, bold_line(timer.split_file.category.as_str()));

    let mut counts: Vec<char> = Vec::new();
    push_decimal(&mut counts, timer.split_file.completed as u64);
    push_text(&mut counts, "/");
    push_decimal(&mut counts, timer.split_file.attempts as u64);
    let attempts_text = string_from_chars(&counts);
    push_block(sections, plain_image(attempts_text.as_str(), TIMER_WIDTH, TextAlign::Right));
    push_block(sections, spacer());

    let label = parse_color(theme.label_text);
    let mut headers: Vec<Block> = Vec::new();
    push_block(&mut headers, colored_image("", COL_WIDTH, TextAlign::Right, label));
    push_block(&mut headers, colored_image("Delta", COL_WIDTH, TextAlign::Right, label));
    push_block(&mut headers, colored_image("Segment", COL_WIDTH, TextAlign::Right, label));
    push_block(&mut headers, colored_image("Split", COL_WIDTH, TextAlign::Right, label));
    assert(views_of(headers@) =~= seq![
        colored(""@, COL_WIDTH, TextAlign::Right, label),
        colored("Delta"@, COL_WIDTH, TextAlign::Right, label),
        colored("Segment"@, COL_WIDTH, TextAlign::Right, label),
        colored("Split"@, COL_WIDTH, TextAlign::Right, label),
    ]) by {
        assert(views_of(Seq::<Block>::empty()) =~= Seq::<BlockView>::empty());
    }
    push_block(sections, Block::hcat(headers));
    push_block(sections, rule(theme));
    assert(views_of(sections@) =~= start + head_blocks(timer, *theme));
}

/// Adds the lines below the splits.
fn push_foot(
    sections: &mut Vec<Block>,
    timer: &TimerState,
    summary: &Vec<SegSummary>,
    now: Instant,
    theme: &Theme,
    rainbow: Color,
)
    requires
        timer.wf(),
        summary.len() == timer.split_file.len(),
    ensures
        views_of(final(sections)@) == views_of(old(sections)@) + foot_blocks(
            timer,
            seg_views(summary@),
            now,
            *theme,
            rainbow,
        ),
{
    let ghost start = views_of(sections@);
    let elapsed: Duration = match timer.mode {
        TimerMode::Initial => Duration::zero(),
        TimerMode::Running { start_time } => now.duration_since(start_time),
        TimerMode::Paused { elapsed_at_pause } => elapsed_at_pause,
        TimerMode::Finished { .. } => match timer.splits[timer.splits.len() - 1] {
            Some(last) => last,
            None => Duration::zero(),
        },
    };
    assert(elapsed@ == shown_elapsed(timer, now));
    push_block(sections, rule(theme));
    push_block(sections, spacer());
    push_block(sections, get_big_timer(timer, theme, summary, elapsed, rainbow));
    push_block(sections, spacer());
    push_block(sections, get_prev_segment_block(timer, theme, summary));
    push_block(sections, get_sum_of_best_block(summary));
    assert(views_of(sections@) =~= start + foot_blocks(
        timer,
        seg_views(summary@),
        now,
        *theme,
        rainbow,
    ));
}

/// Builds the timer's display of the session as it stands at `now`, with
/// `rainbow` as the colour that marks a new best.
pub fn render_view(timer: &TimerState, theme: &Theme, now: Instant, rainbow: Color) -> (block:
    Block)
    requires
        timer.wf(),
        timer.admits(now),
    ensures
        block@ == timer_view(timer, run_summaries(timer, now), now, *theme, rainbow),
{
    let summary = get_run_summary(timer, now);
    let ghost segs = seg_views(summary@);
    assert(segs =~= run_summaries(timer, now));

    let mut sections: Vec<Block> = Vec::new();
    assert(views_of(sections@) =~= Seq::<BlockView>::empty());
    push_head(&mut sections, timer, theme);
    let ghost head = views_of(sections@);
    let mut i: usize = 0;
    while i < summary.len()
        invariant
            i <= summary.len() == timer.split_file.split_names.len(),
            segs == seg_views(summary@),
            views_of(sections@) == head + split_rows(timer, segs, *theme, rainbow, i as nat),
        decreases summary.len() - i,
    {
        push_block(&mut sections, get_split_row(timer, i, theme, &summary, rainbow));
        assert(views_of(sections@) =~= head + split_rows(
            timer,
            segs,
            *theme,
            rainbow,
            (i + 1) as nat,
        ));
        i += 1;
    }
    push_foot(&mut sections, timer, &summary, now, theme, rainbow);
    Block::vcat(sections)
}

} // verus!
