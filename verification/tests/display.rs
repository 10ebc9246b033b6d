use crossterm::style::Attribute;
use flitter::bigtext::get_big_text;
use flitter::bigtext::get_char_block;
use flitter::duration::Duration;
use flitter::duration::Instant;
use flitter::rotty::buffer::Command;
use flitter::rotty::buffer::RenderBuffer;
use flitter::rotty::render::render_block;
use flitter::rotty::render::text_start;
use flitter::rotty::render::Point;
use flitter::rotty::render::Renderer;
use flitter::rotty::Block;
use flitter::rotty::Color;
use flitter::rotty::Image;
use flitter::rotty::TextAlign;
use flitter::settings::default_settings;
use flitter::settings::flitter_theme;
use flitter::settings::Action;
use flitter::split_file::Gold;
use flitter::split_file::PersonalBest;
use flitter::split_file::Split;
use flitter::split_file::SplitFile;
use flitter::timer::triggered_actions;
use flitter::timer::Frame;
use flitter::timer::Timer;
use flitter::timer_state::TimerMode;
use flitter::timer_state::TimerState;
use flitter::utils::get_run_summary;
use flitter::utils::parse_color;
use flitter::view::get_delta_block;
use flitter::view::get_delta_color;
use flitter::view::get_prev_segment_block;
use flitter::view::get_sum_of_best_block;
use flitter::view::render_view;
use std::collections::HashMap;

fn secs(s: u64) -> Duration {
    Duration::from_secs(s)
}

fn at(s: u64) -> Instant {
    Instant::at(secs(s))
}

fn ledger() -> SplitFile {
    SplitFile {
        title: "Game".to_string(),
        category: "Any%".to_string(),
        attempts: 7,
        completed: 3,
        split_names: vec!["One".to_string(), "Two".to_string(), "Three".to_string()],
        golds: vec![Some(Gold { duration: secs(5) }), None, Some(Gold { duration: secs(2) })],
        personal_best: PersonalBest {
            attempt: 2,
            splits: vec![
                Some(Split { time: secs(10) }),
                Some(Split { time: secs(25) }),
                Some(Split { time: secs(40) }),
            ],
        },
    }
}

fn painted(block: &Block, width: u16, height: u16) -> RenderBuffer {
    let mut buffer = RenderBuffer::new(width, height);
    render_block(block, Point { x: 0, y: 0 }, &mut buffer);
    buffer
}

fn row(buffer: &RenderBuffer, y: u16) -> String {
    (0..buffer.width()).map(|x| buffer.at_ref(x, y).ch).collect()
}

const RAINBOW: Color = Color::Rgb { r: 1, g: 2, b: 3 };

#[test]
fn text_starts_where_its_alignment_puts_it() {
    assert_eq!(text_start(TextAlign::Right, 10, 4), 6);
    assert_eq!(text_start(TextAlign::Center, 10, 4), 3);
    assert_eq!(text_start(TextAlign::Center, 10, 5), 2);
    assert_eq!(text_start(TextAlign::Left, 10, 4), 0);
    for align in [TextAlign::Left, TextAlign::Center, TextAlign::Right] {
        assert_eq!(text_start(align, 10, 11), 0);
        assert_eq!(text_start(align, 10, 10), 0);
        assert_eq!(text_start(align, 10, 100_000), 0);
    }
}

#[test]
fn glyphs_are_cut_from_the_font() {
    let one = get_char_block('1').expect("1 has a glyph");
    assert_eq!(one.width(), 5);
    let buffer = painted(&one, 5, 4);
    assert_eq!(row(&buffer, 0), " \u{2584}\u{2588}  ");
    assert_eq!(row(&buffer, 1), "  \u{2588}  ");
    assert_eq!(row(&buffer, 2), "  \u{2588}  ");
    assert_eq!(row(&buffer, 3), " \u{2580}\u{2580}\u{2580} ");
    let seven = painted(&get_char_block('7').expect("7 has a glyph"), 5, 4);
    assert_eq!(row(&seven, 1), "  \u{2590}\u{258C} ");
    assert_eq!(get_char_block(':').expect(": has a glyph").width(), 2);
    assert_eq!(get_char_block('.').expect(". has a glyph").width(), 2);
    assert_eq!(get_char_block(' ').expect("a blank has a glyph").width(), 2);
    assert_eq!(get_char_block('!').expect("! has a glyph").width(), 2);
    assert!(get_char_block('a').is_none());
    assert!(get_char_block('-').is_none());
}

#[test]
fn big_text_leaves_out_what_has_no_glyph() {
    assert_eq!(get_big_text("1:05.2").width(), 5 + 2 + 5 + 5 + 2 + 5);
    assert_eq!(get_big_text("a1b").width(), 5);
    assert_eq!(get_big_text("").width(), 0);
    let buffer = painted(&get_big_text("0.x0"), 12, 4);
    assert_eq!(row(&buffer, 0), "\u{2584}\u{2580}\u{2580}\u{2584}   \u{2584}\u{2580}\u{2580}\u{2584} ");
    assert_eq!(row(&buffer, 3), " \u{2580}\u{2580}  \u{2580}  \u{2580}\u{2580}  ");
}

#[test]
fn delta_is_hidden_until_the_gold_is_passed() {
    let theme = flitter_theme();
    let mut timer = TimerState::new(ledger(), at(0));
    timer.apply_action(Action::Split, at(100));
    // Two seconds into a segment whose gold is five.
    let summary = get_run_summary(&timer, at(102));
    let hidden = painted(&get_delta_block(0, &theme, &summary, RAINBOW), 12, 1);
    assert_eq!(row(&hidden, 0), "            ");
    // Seven seconds in: past the gold, still ahead of the personal best.
    let summary = get_run_summary(&timer, at(107));
    let shown = painted(&get_delta_block(0, &theme, &summary, RAINBOW), 12, 1);
    assert_eq!(row(&shown, 0), "       -3.00");
    assert_eq!(shown.at_ref(11, 0).fg_color, parse_color(theme.ahead_gain));
    assert_eq!(get_delta_color(0, &theme, &summary), parse_color(theme.ahead_gain));
    // Twelve seconds in: behind.
    let summary = get_run_summary(&timer, at(112));
    let behind = painted(&get_delta_block(0, &theme, &summary, RAINBOW), 12, 1);
    assert_eq!(row(&behind, 0), "       +2.00");
    assert_eq!(behind.at_ref(11, 0).fg_color, parse_color(theme.behind_lose));
    // A split not reached has no delta.
    let none = painted(&get_delta_block(1, &theme, &summary, RAINBOW), 12, 1);
    assert_eq!(row(&none, 0), "           -");
}

#[test]
fn delta_without_a_gold_waits_for_the_personal_best() {
    let theme = flitter_theme();
    let mut timer = TimerState::new(ledger(), at(0));
    timer.apply_action(Action::Split, at(100));
    timer.apply_action(Action::Split, at(104));
    // The first segment is a new gold.
    let summary = get_run_summary(&timer, at(110));
    let gold = painted(&get_delta_block(0, &theme, &summary, RAINBOW), 12, 1);
    assert_eq!(row(&gold, 0), "       -6.00");
    assert_eq!(gold.at_ref(11, 0).fg_color, RAINBOW);
    // The second has no gold: hidden until the personal best's split.
    let hidden = painted(&get_delta_block(1, &theme, &summary, RAINBOW), 12, 1);
    assert_eq!(row(&hidden, 0), "            ");
    let summary = get_run_summary(&timer, at(126));
    let shown = painted(&get_delta_block(1, &theme, &summary, RAINBOW), 12, 1);
    assert_eq!(row(&shown, 0), "       +1.00");
    assert_eq!(shown.at_ref(11, 0).fg_color, parse_color(theme.behind_lose));
    assert_eq!(get_delta_color(1, &theme, &summary), parse_color(theme.behind_lose));
}

#[test]
fn previous_segment_and_sum_of_best() {
    let theme = flitter_theme();
    let mut timer = TimerState::new(ledger(), at(0));
    let summary = get_run_summary(&timer, at(1));
    let prev = painted(&get_prev_segment_block(&timer, &theme, &summary), 48, 1);
    assert_eq!(row(&prev, 0), "Previous Segment                               -");
    assert_eq!(prev.at_ref(47, 0).fg_color, parse_color(theme.normal_text));
    let sum = painted(&get_sum_of_best_block(&summary), 48, 1);
    assert_eq!(row(&sum, 0), "Sum of Best Segments                           -");

    timer.apply_action(Action::Split, at(100));
    timer.apply_action(Action::Split, at(104));
    timer.apply_action(Action::Split, at(130));
    let summary = get_run_summary(&timer, at(131));
    let prev = painted(&get_prev_segment_block(&timer, &theme, &summary), 48, 1);
    assert_eq!(row(&prev, 0), "Previous Segment                          +11.00");
    assert_eq!(prev.at_ref(47, 0).fg_color, parse_color(theme.behind_lose));
    let sum = painted(&get_sum_of_best_block(&summary), 48, 1);
    assert_eq!(row(&sum, 0), "Sum of Best Segments                       32.00");
}

#[test]
fn the_view_shows_the_session() {
    let theme = flitter_theme();
    let mut timer = TimerState::new(ledger(), at(0));
    let block = render_view(&timer, &theme, at(50), RAINBOW);
    assert_eq!(block.width(), 48);
    let buffer = painted(&block, 48, 18);
    assert_eq!(row(&buffer, 0).trim(), "Game");
    assert_eq!(row(&buffer, 0).find("Game"), Some(22));
    assert!(buffer.at_ref(22, 0).attrs.has(Attribute::Bold));
    assert_eq!(row(&buffer, 1).trim(), "Any%");
    assert_eq!(row(&buffer, 2), format!("{:>48}", "3/7"));
    assert_eq!(row(&buffer, 3), " ".repeat(48));
    assert_eq!(row(&buffer, 4), format!("{:>12}{:>12}{:>12}{:>12}", "", "Delta", "Segment", "Split"));
    assert_eq!(buffer.at_ref(47, 4).fg_color, parse_color(theme.label_text));
    assert_eq!(row(&buffer, 5), "\u{2500}".repeat(48));
    assert_eq!(row(&buffer, 6), format!("{:<12}{:>12}{:>12}{:>12}", "One", "-", "10.00", "10.00"));
    assert_eq!(row(&buffer, 7), format!("{:<12}{:>12}{:>12}{:>12}", "Two", "-", "15.00", "25.00"));
    assert_eq!(row(&buffer, 8), format!("{:<12}{:>12}{:>12}{:>12}", "Three", "-", "15.00", "40.00"));
    assert_eq!(row(&buffer, 9), "\u{2500}".repeat(48));
    assert_eq!(row(&buffer, 10), " ".repeat(48));
    // The big timer shows 0.00 at the right, four rows high.
    assert_eq!(row(&buffer, 11), format!("{:>48}", "\u{2584}\u{2580}\u{2580}\u{2584}   \u{2584}\u{2580}\u{2580}\u{2584} \u{2584}\u{2580}\u{2580}\u{2584} "));
    assert_eq!(buffer.at_ref(44, 11).fg_color, parse_color(theme.ahead_gain));
    assert_eq!(row(&buffer, 15), " ".repeat(48));
    assert_eq!(row(&buffer, 16), format!("{:<24}{:>24}", "Previous Segment", "-"));
    assert_eq!(row(&buffer, 17), format!("{:<24}{:>24}", "Sum of Best Segments", "-"));

    timer.apply_action(Action::Split, at(100));
    timer.apply_action(Action::Split, at(104));
    let buffer = painted(&render_view(&timer, &theme, at(112), RAINBOW), 48, 18);
    assert_eq!(row(&buffer, 6), format!("{:<12}{:>12}{:>12}{:>12}", "One", "-6.00", "4.00", "4.00"));
    // The split being run shows the personal best's times, and no delta yet.
    assert_eq!(row(&buffer, 7), format!("{:<12}{:>12}{:>12}{:>12}", "Two", " ", "15.00", "25.00"));
    // Its row stands on the highlight.
    assert_eq!(buffer.at_ref(0, 7).bg_color, parse_color(theme.highlight));
    assert_eq!(buffer.at_ref(47, 7).bg_color, parse_color(theme.highlight));
    assert_eq!(buffer.at_ref(0, 6).bg_color, Color::Black);
    assert_eq!(row(&buffer, 16), format!("{:<24}{:>24}", "Previous Segment", "-6.00"));
    assert_eq!(buffer.at_ref(47, 16).fg_color, parse_color(theme.ahead_gain));

    timer.apply_action(Action::Pause, at(113));
    let buffer = painted(&render_view(&timer, &theme, at(500), RAINBOW), 48, 18);
    assert_eq!(buffer.at_ref(44, 11).fg_color, parse_color(theme.paused_text));
    assert_eq!(row(&buffer, 7), format!("{:<12}{:>12}{:>12}{:>12}", "Two", "-", "15.00", "25.00"));
    assert_eq!(buffer.at_ref(0, 7).bg_color, Color::Black);
}

#[test]
fn the_renderer_sends_only_what_changed() {
    let mut renderer = Renderer::new();
    let hello = Image::new("hi", 2, TextAlign::Left).build();
    let first = renderer.render(&hello, 3, 2);
    assert_eq!(
        first[..6],
        [
            Command::EnterAlternateScreen,
            Command::EnableRawMode,
            Command::HideCursor,
            Command::ResetAttributes,
            Command::MoveTo(0, 0),
            Command::Print('h'),
        ]
    );
    // Every cell is written on the first frame.
    assert_eq!(first.iter().filter(|c| matches!(c, Command::Print(_))).count(), 6);
    assert_eq!(first.iter().filter(|c| matches!(c, Command::MoveTo(_, _))).count(), 2);

    assert_eq!(renderer.render(&hello, 3, 2), vec![Command::ResetAttributes]);

    let ho = Image::new("ho", 2, TextAlign::Left).build();
    assert_eq!(
        renderer.render(&ho, 3, 2),
        vec![Command::ResetAttributes, Command::MoveTo(1, 0), Command::Print('o')]
    );
    assert_eq!(renderer.render(&ho, 3, 2), vec![Command::ResetAttributes]);

    // A change of size is a full repaint.
    let resized = renderer.render(&ho, 2, 2);
    assert_eq!(resized[0], Command::ResetAttributes);
    assert_eq!(resized.iter().filter(|c| matches!(c, Command::Print(_))).count(), 4);

    renderer.set_default_colors(Color::Red, Color::Blue);
    let recolored = renderer.render(&ho, 2, 2);
    assert_eq!(
        recolored[..5],
        [
            Command::ResetAttributes,
            Command::MoveTo(0, 0),
            Command::SetForegroundColor(Color::Red),
            Command::SetBackgroundColor(Color::Blue),
            Command::Print('h'),
        ]
    );
    assert_eq!(recolored.len(), 5 + 1 + 2 + 1);

    assert_eq!(
        renderer.teardown(),
        vec![
            Command::ResetColor,
            Command::ShowCursor,
            Command::LeaveAlternateScreen,
            Command::DisableRawMode,
        ]
    );
    assert_eq!(renderer.render(&ho, 2, 2)[..3], [
        Command::EnterAlternateScreen,
        Command::EnableRawMode,
        Command::HideCursor,
    ]);
}

#[test]
fn keys_act_when_they_go_down() {
    let mut hotkeys = HashMap::new();
    hotkeys.insert(1u32, Action::Split);
    hotkeys.insert(2u32, Action::Pause);
    assert_eq!(triggered_actions(&vec![1, 2, 3], &vec![], &hotkeys), vec![Action::Split, Action::Pause]);
    assert_eq!(triggered_actions(&vec![2, 1], &vec![], &hotkeys), vec![Action::Pause, Action::Split]);
    assert_eq!(triggered_actions(&vec![1, 2, 3], &vec![1, 3], &hotkeys), vec![Action::Pause]);
    assert_eq!(triggered_actions(&vec![1, 2], &vec![2, 1], &hotkeys), vec![]);
    assert_eq!(triggered_actions(&vec![], &vec![1], &hotkeys), vec![]);
}

fn frame(typed: &str, held: Vec<u32>, now: u64) -> Frame {
    Frame {
        typed: typed.chars().collect(),
        held_keys: held,
        now: at(now),
        width: 48,
        height: 18,
        rainbow: RAINBOW,
    }
}

#[test]
fn the_timer_runs_frame_by_frame() {
    let settings = default_settings().expect("the default keys have names");
    let space = device_query::Keycode::Space as u32;
    let backspace = device_query::Keycode::Backspace as u32;
    let mut timer = Timer::new(ledger(), settings, at(0)).expect("the ledger is consistent");

    let update = timer.update(&frame("", vec![], 1));
    assert!(update.keep_running && !update.save);
    assert_eq!(update.commands[0], Command::EnterAlternateScreen);
    assert_eq!(timer.timer_state.mode, TimerMode::Initial);

    let update = timer.update(&frame("x", vec![space], 100));
    assert!(update.keep_running && !update.save);
    assert_eq!(timer.timer_state.mode, TimerMode::Running { start_time: at(100) });
    assert_eq!(timer.prev_keys, vec![space]);

    // The key is still held: nothing happens.
    timer.update(&frame("", vec![space], 101));
    assert_eq!(timer.timer_state.splits.len(), 0);
    timer.update(&frame("", vec![], 102));
    timer.update(&frame("", vec![space], 104));
    assert_eq!(timer.timer_state.splits, vec![Some(secs(4))]);

    // Nothing is taken in on the frame that quits.
    let update = timer.update(&frame("aqb", vec![backspace], 105));
    assert!(!update.keep_running && !update.save);
    assert_eq!(update.commands, vec![]);
    assert_eq!(timer.prev_keys, vec![space]);
    assert_eq!(timer.timer_state.splits.len(), 1);

    let update = timer.update(&frame("", vec![backspace], 106));
    assert!(update.keep_running && update.save);
    assert_eq!(timer.timer_state.mode, TimerMode::Initial);
    assert_eq!(timer.timer_state.split_file.attempts, 8);
    assert_eq!(timer.timer_state.split_file.golds[0], Some(Gold { duration: secs(4) }));

    // An unchanged display needs nothing but the reset.
    let update = timer.update(&frame("", vec![backspace], 107));
    assert_eq!(update.commands, vec![Command::ResetAttributes]);
    assert!(!update.save);
}

#[test]
fn a_timer_refuses_a_broken_ledger() {
    let mut file = ledger();
    file.golds.pop();
    let settings = default_settings().expect("the default keys have names");
    assert!(Timer::new(file, settings, at(0)).is_err());
}
