//! Durations as text, colours by their hexadecimal names, and the per-segment
//! summary of a run.

use vstd::prelude::*;
use crate::duration::Duration;
use crate::duration::Instant;
use crate::duration::MAX_NANOS;
use crate::duration::NANOS_PER_MILLI;
use crate::duration::NANOS_PER_SEC;
use crate::duration::opt_nanos;
use crate::rotty::style::Color;
use crate::text::chars_of;
use crate::text::string_from_chars;
use crate::timer_state::TimerMode;
use crate::timer_state::TimerState;
use crate::timer_state::no_later;
use crate::timer_state::within;

verus! {

/// The sign a formatted duration is shown with.
#[derive(Clone, Copy, Debug, PartialEq, Eq, Structural)]
pub enum Sign {
    Positive,
    Negative,
}

impl From<bool> for Sign {
    fn from(positive: bool) -> (sign: Sign) {
        if positive {
            Sign::Positive
        } else {
            Sign::Negative
        }
    }
}

impl vstd::std_specs::convert::FromSpecImpl<bool> for Sign {
    open spec fn obeys_from_spec() -> bool {
        true
    }

    open spec fn from_spec(positive: bool) -> Sign {
        if positive {
            Sign::Positive
        } else {
            Sign::Negative
        }
    }
}

/// Whether a positive duration is written with a leading `+`.
#[derive(Clone, Copy, Debug, PartialEq, Eq, Structural)]
pub enum Prefix {
    NoneOrMinus,
    PlusOrMinus,
}

/// The character of the decimal digit `d`.
pub open spec fn digit_char(d: nat) -> char {
    if d == 0 {
        '0'
    } else if d == 1 {
        '1'
    } else if d == 2 {
        '2'
    } else if d == 3 {
        '3'
    } else if d == 4 {
        '4'
    } else if d == 5 {
        '5'
    } else if d == 6 {
        '6'
    } else if d == 7 {
        '7'
    } else if d == 8 {
        '8'
    } else {
        '9'
    }
}

/// Whether `c` is one of the ten ASCII digits.
pub open spec fn is_digit(c: char) -> bool {
    c == '0' || c == '1' || c == '2' || c == '3' || c == '4' || c == '5' || c == '6' || c == '7'
        || c == '8' || c == '9'
}

/// The number that the digit `c` stands for.
pub open spec fn digit_value(c: char) -> nat {
    if c == '1' {
        1
    } else if c == '2' {
        2
    } else if c == '3' {
        3
    } else if c == '4' {
        4
    } else if c == '5' {
        5
    } else if c == '6' {
        6
    } else if c == '7' {
        7
    } else if c == '8' {
        8
    } else if c == '9' {
        9
    } else {
        0
    }
}

/// `n` in decimal, without leading zeros.
pub open spec fn decimal(n: nat) -> Seq<char>
    decreases n,
{
    if n < 10 {
        seq![digit_char(n)]
    } else {
        decimal(n / 10).push(digit_char(n % 10))
    }
}

/// `n` in decimal, padded with zeros on the left to at least `width` digits.
#[verifier::opaque]
pub open spec fn padded(n: nat, width: nat) -> Seq<char> {
    let digits = decimal(n);
    if digits.len() >= width {
        digits
    } else {
        Seq::new((width - digits.len()) as nat, |i: int| '0') + digits
    }
}

/// What a duration's prefix is: `-` for a negative one, `+` for a positive
/// one where the plus is asked for, nothing otherwise.
pub open spec fn prefix_text(sign: Sign, prefix: Prefix) -> Seq<char> {
    match (sign, prefix) {
        (Sign::Positive, Prefix::PlusOrMinus) => seq!['+'],
        (Sign::Positive, Prefix::NoneOrMinus) => Seq::empty(),
        (Sign::Negative, _) => seq!['-'],
    }
}

/// A time of day and a count of days written out: days, hours, minutes and
/// seconds separated by colons, leading parts that are zero left out, every
/// part after the first in two digits, then a dot and the milliseconds in
/// three.
pub open spec fn parts_text(days: nat, hours: nat, minutes: nat, seconds: nat, millis: nat) -> Seq<
    char,
> {
    let tail = seq!['.'] + padded(millis, 3);
    if days == 0 && hours == 0 && minutes == 0 {
        decimal(seconds) + tail
    } else if days == 0 && hours == 0 {
        decimal(minutes) + seq![':'] + padded(seconds, 2) + tail
    } else if days == 0 {
        decimal(hours) + seq![':'] + padded(minutes, 2) + seq![':'] + padded(seconds, 2) + tail
    } else {
        decimal(days) + seq![':'] + padded(hours, 2) + seq![':'] + padded(minutes, 2) + seq![':']
            + padded(seconds, 2) + tail
    }
}

/// A duration of `nanos` nanoseconds written out in full.
pub open spec fn clock_text(nanos: nat) -> Seq<char> {
    let secs = nanos / NANOS_PER_SEC as nat;
    parts_text(
        secs / 86400,
        (secs % 86400) / 3600,
        (secs % 3600) / 60,
        secs % 60,
        (nanos % NANOS_PER_SEC as nat) / NANOS_PER_MILLI as nat,
    )
}

/// The text of a duration: its prefix and its clock text, with the last
/// `3 - ms_digits` millisecond digits cut off.
#[verifier::opaque]
pub open spec fn format_duration_spec(
    nanos: nat,
    ms_digits: nat,
    sign: Sign,
    prefix: Prefix,
) -> Seq<char> {
    let full = prefix_text(sign, prefix) + clock_text(nanos);
    full.take(full.len() - (3 - ms_digits))
}

/// A number under a hundred, padded to two digits, is its tens digit and its
/// units digit; one under a thousand, padded to three, its three digits.
pub proof fn lemma_padded_digits(n: nat)
    ensures
        n < 100 ==> padded(n, 2) == seq![digit_char(n / 10), digit_char(n % 10)],
        n < 1000 ==> padded(n, 3) == seq![
            digit_char(n / 100),
            digit_char((n / 10) % 10),
            digit_char(n % 10),
        ],
{
    reveal(padded);
    reveal_with_fuel(decimal, 3);
    if n < 100 {
        assert(padded(n, 2) =~= seq![digit_char(n / 10), digit_char(n % 10)]);
    }
    if n < 1000 {
        assert(padded(n, 3) =~= seq![
            digit_char(n / 100),
            digit_char((n / 10) % 10),
            digit_char(n % 10),
        ]);
    }
}

fn digit_to_char(d: u64) -> (c: char)
    requires
        d < 10,
    ensures
        c == digit_char(d as nat),
{
    if d == 0 {
        '0'
    } else if d == 1 {
        '1'
    } else if d == 2 {
        '2'
    } else if d == 3 {
        '3'
    } else if d == 4 {
        '4'
    } else if d == 5 {
        '5'
    } else if d == 6 {
        '6'
    } else if d == 7 {
        '7'
    } else if d == 8 {
        '8'
    } else {
        '9'
    }
}

pub(crate) fn push_decimal(out: &mut Vec<char>, n: u64)
    ensures
        final(out)@ == old(out)@ + decimal(n as nat),
    decreases n,
{
    if n >= 10 {
        push_decimal(out, n / 10);
    }
    out.push(digit_to_char(n % 10));
    assert(out@ =~= old(out)@ + decimal(n as nat));
}

fn push_two_digits(out: &mut Vec<char>, n: u64)
    requires
        n < 100,
    ensures
        final(out)@ == old(out)@ + padded(n as nat, 2),
{
    proof {
        lemma_padded_digits(n as nat);
    }
    out.push(digit_to_char(n / 10));
    out.push(digit_to_char(n % 10));
    assert(out@ =~= old(out)@ + padded(n as nat, 2));
}

fn push_three_digits(out: &mut Vec<char>, n: u64)
    requires
        n < 1000,
    ensures
        final(out)@ == old(out)@ + padded(n as nat, 3),
{
    proof {
        lemma_padded_digits(n as nat);
    }
    out.push(digit_to_char(n / 100));
    out.push(digit_to_char((n / 10) % 10));
    out.push(digit_to_char(n % 10));
    assert(out@ =~= old(out)@ + padded(n as nat, 3));
}

fn push_parts(
    out: &mut Vec<char>,
    days: u64,
    hours: u64,
    minutes: u64,
    seconds: u64,
    millis: u64,
)
    requires
        hours < 100,
        minutes < 100,
        seconds < 100,
        millis < 1000,
    ensures
        final(out)@ == old(out)@ + parts_text(
            days as nat,
            hours as nat,
            minutes as nat,
            seconds as nat,
            millis as nat,
        ),
{
    let ghost tail = seq!['.'] + padded(millis as nat, 3);
    let ghost sep = seq![':'];
    if days == 0 && hours == 0 && minutes == 0 {
        push_decimal(out, seconds);
        let ghost body = out@;
        out.push('.');
        push_three_digits(out, millis);
        assert(out@ =~= body + tail);
    } else if days == 0 && hours == 0 {
        push_decimal(out, minutes);
        out.push(':');
        push_two_digits(out, seconds);
        let ghost body = out@;
        assert(body =~= old(out)@ + (decimal(minutes as nat) + sep + padded(seconds as nat, 2)));
        out.push('.');
        push_three_digits(out, millis);
        assert(out@ =~= body + tail);
    } else if days == 0 {
        push_decimal(out, hours);
        out.push(':');
        push_two_digits(out, minutes);
        out.push(':');
        push_two_digits(out, seconds);
        let ghost body = out@;
        assert(body =~= old(out)@ + (decimal(hours as nat) + sep + padded(minutes as nat, 2) + sep
            + padded(seconds as nat, 2)));
        out.push('.');
        push_three_digits(out, millis);
        assert(out@ =~= body + tail);
    } else {
        push_decimal(out, days);
        out.push(':');
        push_two_digits(out, hours);
        out.push(':');
        push_two_digits(out, minutes);
        out.push(':');
        push_two_digits(out, seconds);
        let ghost body = out@;
        assert(body =~= old(out)@ + (decimal(days as nat) + sep + padded(hours as nat, 2) + sep
            + padded(minutes as nat, 2) + sep + padded(seconds as nat, 2)));
        out.push('.');
        push_three_digits(out, millis);
        assert(out@ =~= body + tail);
    }
    assert(out@ =~= old(out)@ + parts_text(
        days as nat,
        hours as nat,
        minutes as nat,
        seconds as nat,
        millis as nat,
    ));
}

/// The characters of a formatted duration.
pub fn format_duration_chars(
    duration: Duration,
    ms_digits: u32,
    sign: Sign,
    prefix: Prefix,
) -> (out: Vec<char>)
    requires
        ms_digits <= 3,
    ensures
        out@ == format_duration_spec(duration@, ms_digits as nat, sign, prefix),
{
    reveal(format_duration_spec);
    let duration_secs: u64 = duration.as_secs();
    let days: u64 = duration_secs / 86400;
    let hours: u64 = (duration_secs % 86400) / 3600;
    let minutes: u64 = (duration_secs % 3600) / 60;
    let seconds: u64 = duration_secs % 60;
    let milliseconds: u64 = duration.subsec_millis() as u64;

    let mut out: Vec<char> = Vec::new();
    match (sign, prefix) {
        (Sign::Positive, Prefix::PlusOrMinus) => {
            out.push('+');
        },
        (Sign::Positive, Prefix::NoneOrMinus) => {},
        (Sign::Negative, _) => {
            out.push('-');
        },
    }
    assert(out@ =~= prefix_text(sign, prefix));
    push_parts(&mut out, days, hours, minutes, seconds, milliseconds);
    proof {
        lemma_padded_digits(milliseconds as nat);
    }
    let keep: usize = out.len() - (3 - ms_digits as usize);
    out.truncate(keep);
    out
}

/// Formats a duration as `D:HH:MM:SS.mmm`, leaving out the leading parts that
/// are zero and keeping `ms_digits` of the three millisecond digits.
pub fn format_duration(
    duration: Duration,
    ms_digits: u32,
    sign: Sign,
    prefix: Prefix,
) -> (text: String)
    requires
        ms_digits <= 3,
    ensures
        text@ == format_duration_spec(duration@, ms_digits as nat, sign, prefix),
{
    let chars = format_duration_chars(duration, ms_digits, sign, prefix);
    string_from_chars(&chars)
}

/// The number that a hexadecimal digit stands for; none for another
/// character.
pub open spec fn hex_digit(c: char) -> Option<nat> {
    if is_digit(c) {
        Some(digit_value(c))
    } else if c == 'a' || c == 'A' {
        Some(10)
    } else if c == 'b' || c == 'B' {
        Some(11)
    } else if c == 'c' || c == 'C' {
        Some(12)
    } else if c == 'd' || c == 'D' {
        Some(13)
    } else if c == 'e' || c == 'E' {
        Some(14)
    } else if c == 'f' || c == 'F' {
        Some(15)
    } else {
        None
    }
}

/// Whether `s` is a non-empty run of hexadecimal digits.
pub open spec fn all_hex(s: Seq<char>) -> bool {
    s.len() > 0 && forall|i: int| 0 <= i < s.len() ==> hex_digit(#[trigger] s[i]) is Some
}

/// The number that a run of hexadecimal digits spells.
pub open spec fn hex_value(s: Seq<char>) -> nat
    decreases s.len(),
{
    if s.len() == 0 {
        0
    } else {
        hex_value(s.drop_last()) * 16 + match hex_digit(s.last()) {
            Some(d) => d,
            None => 0,
        }
    }
}

/// How many `#` stand at the start of `s`.
pub open spec fn leading_hashes(s: Seq<char>) -> nat
    decreases s.len(),
{
    if s.len() > 0 && s[0] == '#' {
        1 + leading_hashes(s.drop_first())
    } else {
        0
    }
}

/// The number that `s` spells in hexadecimal, with or without a plus sign
/// before it, where it spells one that fits in 32 bits.
pub open spec fn hex_number(s: Seq<char>) -> Option<u32> {
    let digits = if s.len() > 0 && s[0] == '+' {
        s.drop_first()
    } else {
        s
    };
    if all_hex(digits) && hex_value(digits) <= u32::MAX {
        Some(hex_value(digits) as u32)
    } else {
        None
    }
}

/// The colour that `s` names as `#RRGGBB`: the red, green and blue parts of
/// the number that follows the `#`; black where no number follows.
#[verifier::opaque]
pub open spec fn color_of_hex(s: Seq<char>) -> Color {
    let number = match hex_number(s.skip(leading_hashes(s) as int)) {
        Some(number) => number,
        None => 0,
    };
    Color::Rgb {
        r: ((number / 65536) % 256) as u8,
        g: ((number / 256) % 256) as u8,
        b: (number % 256) as u8,
    }
}

/// A run of hexadecimal digits spells at least what any of its prefixes
/// spells.
proof fn lemma_hex_value_prefix(s: Seq<char>, k: int)
    requires
        0 <= k <= s.len(),
    ensures
        hex_value(s.take(k)) <= hex_value(s),
    decreases s.len(),
{
    if k == s.len() {
        assert(s.take(k) =~= s);
    } else {
        lemma_hex_value_prefix(s.drop_last(), k);
        assert(s.drop_last().take(k) =~= s.take(k));
    }
}

fn hex_digit_of(c: char) -> (d: Option<u32>)
    ensures
        match d {
            Some(d) => hex_digit(c) == Some(d as nat) && d < 16,
            None => hex_digit(c) is None,
        },
{
    if c == '0' {
        Some(0)
    } else if c == '1' {
        Some(1)
    } else if c == '2' {
        Some(2)
    } else if c == '3' {
        Some(3)
    } else if c == '4' {
        Some(4)
    } else if c == '5' {
        Some(5)
    } else if c == '6' {
        Some(6)
    } else if c == '7' {
        Some(7)
    } else if c == '8' {
        Some(8)
    } else if c == '9' {
        Some(9)
    } else if c == 'a' || c == 'A' {
        Some(10)
    } else if c == 'b' || c == 'B' {
        Some(11)
    } else if c == 'c' || c == 'C' {
        Some(12)
    } else if c == 'd' || c == 'D' {
        Some(13)
    } else if c == 'e' || c == 'E' {
        Some(14)
    } else if c == 'f' || c == 'F' {
        Some(15)
    } else {
        None
    }
}

/// The number that the characters from `from` on spell in hexadecimal, where
/// they are hexadecimal digits, at least one, that spell a number of 32
/// bits.
fn read_hex(chars: &Vec<char>, from: usize) -> (number: Option<u32>)
    requires
        from <= chars.len(),
    ensures
        match number {
            Some(n) => all_hex(chars@.skip(from as int)) && n == hex_value(
                chars@.skip(from as int),
            ),
            None => !all_hex(chars@.skip(from as int)) || hex_value(chars@.skip(from as int))
                > u32::MAX,
        },
{
    let ghost run = chars@.skip(from as int);
    if from == chars.len() {
        return None;
    }
    let mut value: u32 = 0;
    let mut i: usize = from;
    while i < chars.len()
        invariant
            from <= i <= chars.len(),
            run == chars@.skip(from as int),
            forall|j: int| 0 <= j < i - from ==> hex_digit(#[trigger] run[j]) is Some,
            value == hex_value(run.take(i - from)),
        decreases chars.len() - i,
    {
        let ghost before = run.take(i - from);
        let ghost after = run.take(i - from + 1);
        assert(after.drop_last() =~= before);
        assert(after.last() == chars@[i as int]);
        proof {
            lemma_hex_value_prefix(run, i - from + 1);
        }
        match hex_digit_of(chars[i]) {
            None => {
                assert(hex_digit(run[i - from]) is None);
                return None;
            },
            Some(d) => {
                if value > (u32::MAX - d) / 16 {
                    return None;
                }
                value = value * 16 + d;
            },
        }
        i += 1;
    }
    assert(run.take(chars.len() - from) =~= run);
    Some(value)
}

/// The colour that a theme names as `#RRGGBB`; black where the text is not
/// of that form.
pub fn parse_color(color_hex: &str) -> (color: Color)
    ensures
        color == color_of_hex(color_hex@),
{
    reveal(color_of_hex);
    let chars = chars_of(color_hex);
    let mut start: usize = 0;
    assert(chars@.skip(0) =~= chars@);
    while start < chars.len() && chars[start] == '#'
        invariant
            start <= chars.len(),
            leading_hashes(chars@) == start + leading_hashes(chars@.skip(start as int)),
        decreases chars.len() - start,
    {
        assert(chars@.skip(start as int).drop_first() =~= chars@.skip(start + 1));
        start += 1;
    }
    assert(leading_hashes(chars@) == start);
    let ghost rest = chars@.skip(start as int);
    let signed: bool = start < chars.len() && chars[start] == '+';
    let from: usize = if signed {
        start + 1
    } else {
        start
    };
    assert(chars@.skip(from as int) =~= if signed {
        rest.drop_first()
    } else {
        rest
    });
    let number: u32 = match read_hex(&chars, from) {
        Some(number) => number,
        None => 0,
    };
    Color::Rgb {
        r: ((number / 65536) % 256) as u8,
        g: ((number / 256) % 256) as u8,
        b: (number % 256) as u8,
    }
}

/// What is known of one segment of a run.
#[derive(Clone, Copy, Debug, PartialEq, Eq, Structural)]
pub struct SegSummary {
    /// The time from the start at which the split was reached.
    pub live_split: Option<Duration>,
    /// The time from the split before it.
    pub live_seg: Option<Duration>,
    /// How far the split is from the personal best's, and whether ahead of
    /// it.
    pub live_delta: Option<Duration>,
    pub live_delta_neg: bool,
    /// The time lost on this segment against the personal best, or, where
    /// `gained_neg` is set, gained.
    pub gained: Option<Duration>,
    pub gained_neg: bool,
    /// The personal best's split and segment.
    pub pb_split: Option<Duration>,
    pub pb_seg: Option<Duration>,
    /// The best time for the segment, this run counted in, and whether this
    /// run set it.
    pub gold: Option<Duration>,
    pub is_gold_new: bool,
}

/// A segment summary with its times in nanoseconds.
pub struct SegModel {
    pub live_split: Option<nat>,
    pub live_seg: Option<nat>,
    pub live_delta: Option<nat>,
    pub live_delta_neg: bool,
    pub gained: Option<nat>,
    pub gained_neg: bool,
    pub pb_split: Option<nat>,
    pub pb_seg: Option<nat>,
    pub gold: Option<nat>,
    pub is_gold_new: bool,
}

impl View for SegSummary {
    type V = SegModel;

    open spec fn view(&self) -> SegModel {
        SegModel {
            live_split: opt_nanos(self.live_split),
            live_seg: opt_nanos(self.live_seg),
            live_delta: opt_nanos(self.live_delta),
            live_delta_neg: self.live_delta_neg,
            gained: opt_nanos(self.gained),
            gained_neg: self.gained_neg,
            pb_split: opt_nanos(self.pb_split),
            pb_seg: opt_nanos(self.pb_seg),
            gold: opt_nanos(self.gold),
            is_gold_new: self.is_gold_new,
        }
    }
}

impl Default for SegSummary {
    fn default() -> (seg: SegSummary)
        ensures
            seg == (SegSummary {
                live_split: None,
                live_seg: None,
                live_delta: None,
                live_delta_neg: false,
                gained: None,
                gained_neg: false,
                pb_split: None,
                pb_seg: None,
                gold: None,
                is_gold_new: false,
            }),
    {
        SegSummary {
            live_split: None,
            live_seg: None,
            live_delta: None,
            live_delta_neg: false,
            gained: None,
            gained_neg: false,
            pb_split: None,
            pb_seg: None,
            gold: None,
            is_gold_new: false,
        }
    }
}

/// The time in slot `i`, where there is such a slot and it is filled.
pub open spec fn time_at(times: Seq<Option<nat>>, i: int) -> Option<nat> {
    if 0 <= i < times.len() {
        times[i]
    } else {
        None
    }
}

/// The length of segment `i`: the time from the split before it to split
/// `i`, from the start for the first, where both are there.
pub open spec fn segment_at(times: Seq<Option<nat>>, i: int) -> Option<nat> {
    if i == 0 {
        time_at(times, 0)
    } else {
        match (time_at(times, i), time_at(times, i - 1)) {
            (Some(t), Some(before)) => Some((t - before) as nat),
            _ => None,
        }
    }
}

/// How much later than the personal best split `i` was reached; negative
/// where it was reached earlier.
pub open spec fn delta_at(live: Seq<Option<nat>>, pb: Seq<Option<nat>>, i: int) -> Option<int> {
    match (time_at(live, i), time_at(pb, i)) {
        (Some(t), Some(best)) => Some(t - best),
        _ => None,
    }
}

/// The time lost to the personal best on segment `i` alone: the change of
/// the delta over the segment, the delta before the first split being zero.
pub open spec fn gained_at(live: Seq<Option<nat>>, pb: Seq<Option<nat>>, i: int) -> Option<int> {
    let before = if i == 0 {
        Some(0int)
    } else {
        delta_at(live, pb, i - 1)
    };
    match (delta_at(live, pb, i), before) {
        (Some(delta), Some(before)) => Some(delta - before),
        _ => None,
    }
}

/// The best time for segment `i`: for one of the first `recorded`, which
/// this run has completed, the shorter of this run's and the stored gold, or
/// whichever there is; for the others the stored gold.
pub open spec fn gold_at(
    live: Seq<Option<nat>>,
    golds: Seq<Option<nat>>,
    recorded: nat,
    i: int,
) -> Option<nat> {
    if i < recorded {
        match (segment_at(live, i), time_at(golds, i)) {
            (Some(run), Some(stored)) => Some(
                if run <= stored {
                    run
                } else {
                    stored
                },
            ),
            (Some(run), None) => Some(run),
            (None, stored) => stored,
        }
    } else {
        time_at(golds, i)
    }
}

/// Whether this run has completed segment `i` in less than the stored gold.
pub open spec fn gold_beaten_at(
    live: Seq<Option<nat>>,
    golds: Seq<Option<nat>>,
    recorded: nat,
    i: int,
) -> bool {
    i < recorded && match (segment_at(live, i), time_at(golds, i)) {
        (Some(run), Some(stored)) => run < stored,
        _ => false,
    }
}

/// The size of a signed time.
pub open spec fn magnitude(signed: Option<int>) -> Option<nat> {
    match signed {
        Some(x) => Some(
            (if x < 0 {
                -x
            } else {
                x
            }) as nat,
        ),
        None => None,
    }
}

/// Whether a signed time is there and below zero.
pub open spec fn is_negative(signed: Option<int>) -> bool {
    match signed {
        Some(x) => x < 0,
        None => false,
    }
}

/// The summary of segment `i` of a run with the split times `live`, of which
/// the first `recorded` are final, against the personal best `pb` and the
/// stored `golds`.
pub open spec fn segment_summary(
    live: Seq<Option<nat>>,
    pb: Seq<Option<nat>>,
    golds: Seq<Option<nat>>,
    recorded: nat,
    i: int,
) -> SegModel {
    SegModel {
        live_split: time_at(live, i),
        live_seg: segment_at(live, i),
        live_delta: magnitude(delta_at(live, pb, i)),
        live_delta_neg: is_negative(delta_at(live, pb, i)),
        gained: magnitude(gained_at(live, pb, i)),
        gained_neg: is_negative(gained_at(live, pb, i)),
        pb_split: time_at(pb, i),
        pb_seg: segment_at(pb, i),
        gold: gold_at(live, golds, recorded, i),
        is_gold_new: gold_beaten_at(live, golds, recorded, i),
    }
}

/// Whether the time in slot `i` is no earlier than the one directly before
/// it, where both are there.
pub open spec fn in_order_at(times: Seq<Option<nat>>, i: int) -> bool {
    match (time_at(times, i), time_at(times, i - 1)) {
        (Some(t), Some(before)) => before <= t,
        _ => true,
    }
}

/// Whether no time in `times` is earlier than one directly before it.
pub open spec fn in_order(times: Seq<Option<nat>>) -> bool {
    forall|i: int| 0 < i < times.len() ==> #[trigger] in_order_at(times, i)
}

/// The summary of the run as it stands at `now`, for every segment.
pub open spec fn run_summary(timer: &TimerState, now: Instant, i: int) -> SegModel {
    segment_summary(
        timer.live_times(now),
        timer.split_file.pb_times(),
        timer.split_file.gold_times(),
        timer.splits.len() as nat,
        i,
    )
}

/// What a segment gained or lost against the personal best is the
/// difference of the two segment times: the run's less the personal best's,
/// where the run and the personal best both have the split and the one
/// before it, in order.
pub proof fn lemma_gained_is_segment_difference(
    live: Seq<Option<nat>>,
    pb: Seq<Option<nat>>,
    i: int,
)
    requires
        0 <= i < live.len(),
        i < pb.len(),
        in_order(live),
        in_order(pb),
        segment_at(live, i) is Some,
        segment_at(pb, i) is Some,
    ensures
        gained_at(live, pb, i) == Some(segment_at(live, i)->0 - segment_at(pb, i)->0),
{
    if i > 0 {
        assert(in_order_at(live, i));
        assert(in_order_at(pb, i));
    }
}

/// In a well-formed session that admits `now`, neither the run's times as
/// they stand at `now` nor the personal best's go backwards from one slot to
/// the next.
pub proof fn lemma_times_in_order(timer: &TimerState, now: Instant)
    requires
        timer.wf(),
        timer.admits(now),
    ensures
        in_order(timer.live_times(now)),
        in_order(timer.split_file.pb_times()),
        timer.live_times(now).len() == timer.split_file.len(),
        timer.split_file.pb_times().len() == timer.split_file.len(),
        timer.split_file.gold_times().len() == timer.split_file.len(),
{
    let live = timer.live_times(now);
    let pb = timer.split_file.pb_times();
    assert forall|i: int| 0 < i < live.len() implies #[trigger] in_order_at(live, i) by {
        if i < timer.splits.len() {
            assert(no_later(timer.splits[i - 1], timer.splits[i]));
        } else if i == timer.splits.len() && timer.elapsed(now) is Some {
            assert(within(timer.splits[i - 1], timer.elapsed(now)->0));
        }
    }
    assert forall|i: int| 0 < i < pb.len() implies #[trigger] in_order_at(pb, i) by {
        assert(!timer.split_file.split_out_of_order(i));
    }
}

/// The time between two times of which the second is the earlier, where both
/// are there; the first time itself where `first` is set.
pub(crate) fn segment_between(
    first: bool,
    time: Option<Duration>,
    before: Option<Duration>,
) -> (segment: Option<Duration>)
    requires
        !first ==> match (time, before) {
            (Some(t), Some(b)) => b@ <= t@,
            _ => true,
        },
    ensures
        opt_nanos(segment) == if first {
            opt_nanos(time)
        } else {
            match (time, before) {
                (Some(t), Some(b)) => Some((t@ - b@) as nat),
                _ => None,
            }
        },
{
    if first {
        time
    } else {
        match (time, before) {
            (Some(t), Some(b)) => Some(t.saturating_sub(b)),
            _ => None,
        }
    }
}

/// How much later than `best` the time `time` is, in nanoseconds, where both
/// are there.
fn signed_delta(time: Option<Duration>, best: Option<Duration>) -> (delta: Option<i128>)
    ensures
        match (time, best) {
            (Some(t), Some(b)) => delta == Some((t@ - b@) as i128) && t@ <= MAX_NANOS && b@
                <= MAX_NANOS,
            _ => delta is None,
        },
{
    match (time, best) {
        (Some(t), Some(b)) => Some(t.as_nanos() as i128 - b.as_nanos() as i128),
        _ => None,
    }
}

/// The summary of segment `i`, from the times in slot `i` and in the slot
/// before it.
fn summarise_segment(
    Ghost(live): Ghost<Seq<Option<nat>>>,
    Ghost(pb): Ghost<Seq<Option<nat>>>,
    Ghost(golds): Ghost<Seq<Option<nat>>>,
    Ghost(recorded): Ghost<nat>,
    Ghost(i): Ghost<int>,
    first: bool,
    complete: bool,
    live_split: Option<Duration>,
    prev_live: Option<Duration>,
    pb_split: Option<Duration>,
    prev_pb: Option<Duration>,
    stored_gold: Option<Duration>,
) -> (seg: SegSummary)
    requires
        0 <= i,
        first == (i == 0),
        complete == (i < recorded),
        opt_nanos(live_split) == time_at(live, i),
        opt_nanos(pb_split) == time_at(pb, i),
        opt_nanos(stored_gold) == time_at(golds, i),
        !first ==> opt_nanos(prev_live) == time_at(live, i - 1),
        !first ==> opt_nanos(prev_pb) == time_at(pb, i - 1),
        !first ==> match (live_split, prev_live) {
            (Some(t), Some(b)) => b@ <= t@,
            _ => true,
        },
        !first ==> match (pb_split, prev_pb) {
            (Some(t), Some(b)) => b@ <= t@,
            _ => true,
        },
    ensures
        seg@ == segment_summary(live, pb, golds, recorded, i),
{
    let live_seg = segment_between(first, live_split, prev_live);
    let pb_seg = segment_between(first, pb_split, prev_pb);
    assert(opt_nanos(live_seg) == segment_at(live, i));
    assert(opt_nanos(pb_seg) == segment_at(pb, i));

    let delta = signed_delta(live_split, pb_split);
    let before: Option<i128> = if first {
        Some(0)
    } else {
        signed_delta(prev_live, prev_pb)
    };
    let mut live_delta: Option<Duration> = None;
    let mut live_delta_neg: bool = false;
    match (live_split, pb_split) {
        (Some(t), Some(best)) => {
            live_delta = Some(t.abs_diff(best));
            live_delta_neg = t.lt(&best);
        },
        _ => {},
    }
    assert(opt_nanos(live_delta) == magnitude(delta_at(live, pb, i)));
    assert(live_delta_neg == is_negative(delta_at(live, pb, i)));

    let mut gained: Option<Duration> = None;
    let mut gained_neg: bool = false;
    match (delta, before) {
        (Some(d), Some(b)) => {
            let change: i128 = d - b;
            let size: u128 = if change < 0 {
                (-change) as u128
            } else {
                change as u128
            };
            assert(gained_at(live, pb, i) == Some(change as int));
            assert(size <= MAX_NANOS) by {
                let t = live_split->0@;
                let best = pb_split->0@;
                assert(t <= MAX_NANOS && best <= MAX_NANOS);
                if !first {
                    let t0 = prev_live->0@;
                    let best0 = prev_pb->0@;
                    assert(t0 <= t && best0 <= best);
                    assert(change == (t - t0) - (best - best0));
                }
            }
            gained = Duration::from_nanos(size);
            gained_neg = change < 0;
        },
        _ => {},
    }
    assert(opt_nanos(gained) == magnitude(gained_at(live, pb, i)));
    assert(gained_neg == is_negative(gained_at(live, pb, i)));

    let mut gold: Option<Duration> = stored_gold;
    let mut is_gold_new: bool = false;
    if complete {
        match (live_seg, stored_gold) {
            (Some(run), Some(stored)) => {
                gold = Some(run.min(stored));
                is_gold_new = run.lt(&stored);
            },
            (Some(run), None) => {
                gold = Some(run);
            },
            _ => {},
        }
    }
    assert(opt_nanos(gold) == gold_at(live, golds, recorded, i));
    assert(is_gold_new == gold_beaten_at(live, golds, recorded, i));

    SegSummary {
        live_split,
        live_seg,
        live_delta,
        live_delta_neg,
        gained,
        gained_neg,
        pb_split,
        pb_seg,
        gold,
        is_gold_new,
    }
}

/// Summarises every segment of the run as it stands at `now`: the live
/// split and segment times, how they compare with the personal best, and the
/// best segment times.
pub fn get_run_summary(timer: &TimerState, now: Instant) -> (summary: Vec<SegSummary>)
    requires
        timer.wf(),
        timer.admits(now),
    ensures
        summary.len() == timer.split_file.len(),
        forall|i: int|
            0 <= i < summary.len() ==> (#[trigger] summary[i])@ == run_summary(timer, now, i),
{
    let n: usize = timer.split_file.split_names.len();
    let recorded: usize = timer.splits.len();
    let running: Option<Duration> = match timer.mode {
        TimerMode::Running { start_time } => Some(now.duration_since(start_time)),
        _ => None,
    };
    let ghost live = timer.live_times(now);
    let ghost pb = timer.split_file.pb_times();
    let ghost golds = timer.split_file.gold_times();
    proof {
        lemma_times_in_order(timer, now);
    }

    let mut summary: Vec<SegSummary> = Vec::new();
    let mut prev_live: Option<Duration> = None;
    let mut prev_pb: Option<Duration> = None;
    let mut i: usize = 0;
    while i < n
        invariant
            i <= n == timer.split_file.len(),
            recorded == timer.splits.len() <= n,
            timer.split_file.golds.len() == n,
            timer.split_file.personal_best.splits.len() == n,
            opt_nanos(running) == timer.elapsed(now),
            live == timer.live_times(now),
            pb == timer.split_file.pb_times(),
            golds == timer.split_file.gold_times(),
            live.len() == n,
            pb.len() == n,
            golds.len() == n,
            in_order(live),
            in_order(pb),
            summary.len() == i,
            forall|j: int|
                0 <= j < i ==> (#[trigger] summary[j])@ == segment_summary(
                    live,
                    pb,
                    golds,
                    recorded as nat,
                    j,
                ),
            i > 0 ==> opt_nanos(prev_live) == live[i - 1] && opt_nanos(prev_pb) == pb[i - 1],
        decreases n - i,
    {
        let live_split: Option<Duration> = if i < recorded {
            timer.splits[i]
        } else if i == recorded {
            running
        } else {
            None
        };
        let pb_split: Option<Duration> = match timer.split_file.personal_best.splits[i] {
            Some(split) => Some(split.time),
            None => None,
        };
        let stored_gold: Option<Duration> = match timer.split_file.golds[i] {
            Some(gold) => Some(gold.duration),
            None => None,
        };
        assert(opt_nanos(live_split) == live[i as int]);
        assert(opt_nanos(pb_split) == pb[i as int]);
        assert(opt_nanos(stored_gold) == golds[i as int]);
        assert(i > 0 ==> in_order_at(live, i as int) && in_order_at(pb, i as int));
        let seg = summarise_segment(
            Ghost(live),
            Ghost(pb),
            Ghost(golds),
            Ghost(recorded as nat),
            Ghost(i as int),
            i == 0,
            i < recorded,
            live_split,
            prev_live,
            pb_split,
            prev_pb,
            stored_gold,
        );
        summary.push(seg);
        prev_live = live_split;
        prev_pb = pb_split;
        i += 1;
    }
    summary
}

} // verus!
