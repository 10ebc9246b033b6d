//! Reading a duration back from its text.
//!
//! The text is one to four groups of decimal digits separated by colons
//! (seconds, then minutes, hours and days to their left), optionally followed
//! by a dot and one to three digits of a second's fraction.

use vstd::prelude::*;
use crate::duration::Duration;
use crate::duration::MAX_NANOS;
use crate::duration::NANOS_PER_MILLI;
use crate::duration::NANOS_PER_SEC;
use crate::text::chars_of;
use crate::text::find_char;
use crate::text::first_index;
use crate::text::lemma_first_index;
use crate::utils::Prefix;
use crate::utils::Sign;
use crate::utils::clock_text;
use crate::utils::decimal;
use crate::utils::digit_char;
use crate::utils::digit_value;
use crate::utils::format_duration_spec;
use crate::utils::is_digit;
use crate::utils::lemma_padded_digits;
use crate::utils::padded;
use crate::utils::parts_text;

verus! {

/// Why a text is not a duration.
#[derive(Clone, Copy, Debug, PartialEq, Eq, Structural)]
pub enum DurationError {
    /// The text does not have the shape of a duration.
    InvalidFormat,
    /// The text has the shape of a duration of more seconds than fit in 64
    /// bits.
    TooLarge,
}

/// Whether `s` is a non-empty run of ASCII digits.
pub open spec fn all_digits(s: Seq<char>) -> bool {
    s.len() > 0 && forall|i: int| 0 <= i < s.len() ==> is_digit(#[trigger] s[i])
}

/// The number that a run of digits spells in decimal.
pub open spec fn digits_value(s: Seq<char>) -> nat
    decreases s.len(),
{
    if s.len() == 0 {
        0
    } else {
        digits_value(s.drop_last()) * 10 + digit_value(s.last())
    }
}

/// The pieces of `s` between its colons.
pub open spec fn colon_fields(s: Seq<char>) -> Seq<Seq<char>>
    decreases s.len(),
{
    let k = first_index(s, ':');
    if 0 <= k < s.len() {
        seq![s.take(k)] + colon_fields(s.skip(k + 1))
    } else {
        seq![s]
    }
}

/// The part of `s` before its first dot.
pub open spec fn whole_part(s: Seq<char>) -> Seq<char> {
    s.take(first_index(s, '.'))
}

/// The part of `s` after its first dot, if it has one.
pub open spec fn fraction_part(s: Seq<char>) -> Option<Seq<char>> {
    let dot = first_index(s, '.');
    if dot < s.len() {
        Some(s.skip(dot + 1))
    } else {
        None
    }
}

/// Whether `s` has the shape of a duration.
pub open spec fn is_duration_text(s: Seq<char>) -> bool {
    let fields = colon_fields(whole_part(s));
    &&& fields.len() <= 4
    &&& forall|i: int| 0 <= i < fields.len() ==> all_digits(#[trigger] fields[i])
    &&& match fraction_part(s) {
        Some(fraction) => fraction.len() <= 3 && all_digits(fraction),
        None => true,
    }
}

/// The number spelled by the field `back` places from the last; zero where
/// there is no such field.
pub open spec fn field_from_end(fields: Seq<Seq<char>>, back: int) -> nat {
    let i = fields.len() - 1 - back;
    if 0 <= i < fields.len() {
        digits_value(fields[i])
    } else {
        0
    }
}

/// The whole seconds that a duration text spells.
pub open spec fn text_secs(s: Seq<char>) -> nat {
    let fields = colon_fields(whole_part(s));
    field_from_end(fields, 0) + 60 * field_from_end(fields, 1) + 3600 * field_from_end(fields, 2)
        + 86400 * field_from_end(fields, 3)
}

/// The milliseconds that a duration text spells: its fraction, read as if
/// padded with zeros on the right to three digits.
pub open spec fn text_millis(s: Seq<char>) -> nat {
    match fraction_part(s) {
        Some(fraction) => if fraction.len() == 1 {
            digits_value(fraction) * 100
        } else if fraction.len() == 2 {
            digits_value(fraction) * 10
        } else {
            digits_value(fraction)
        },
        None => 0,
    }
}

/// The length in nanoseconds of the duration that `s` spells.
pub open spec fn text_nanos(s: Seq<char>) -> nat {
    text_secs(s) * NANOS_PER_SEC as nat + text_millis(s) * NANOS_PER_MILLI as nat
}

/// What reading `s` as a duration gives.
pub open spec fn parse_duration_spec(s: Seq<char>) -> Result<nat, DurationError> {
    if !is_duration_text(s) {
        Err(DurationError::InvalidFormat)
    } else if text_secs(s) > u64::MAX {
        Err(DurationError::TooLarge)
    } else {
        Ok(text_nanos(s))
    }
}

/// A run of digits spells at least what any of its prefixes spells.
pub proof fn lemma_digits_value_prefix(s: Seq<char>, k: int)
    requires
        0 <= k <= s.len(),
    ensures
        digits_value(s.take(k)) <= digits_value(s),
    decreases s.len(),
{
    if k == s.len() {
        assert(s.take(k) =~= s);
    } else {
        lemma_digits_value_prefix(s.drop_last(), k);
        assert(s.drop_last().take(k) =~= s.take(k));
    }
}

fn digit_of(c: char) -> (d: Option<u64>)
    ensures
        d is Some == is_digit(c),
        d is Some ==> d->0 == digit_value(c) && d->0 < 10,
{
    if c == '0' {
        Some(0)
    } else if c == '1' {
        Some(1)
    } else if c == '2' {
        Some(2)
    } else if c == '3' {
        Some(3)
    } else if c == '4' {
        Some(4)
    } else if c == '5' {
        Some(5)
    } else if c == '6' {
        Some(6)
    } else if c == '7' {
        Some(7)
    } else if c == '8' {
        Some(8)
    } else if c == '9' {
        Some(9)
    } else {
        None
    }
}

/// The number spelled by the characters from `from` up to `to`.
enum Field {
    /// Some character there is not a digit, or there is none at all.
    Malformed,
    /// Digits that spell more than fits in 64 bits.
    Overflow,
    /// Digits that spell this number.
    Number(u64),
}

fn read_field(chars: &Vec<char>, from: usize, to: usize) -> (field: Field)
    requires
        from <= to <= chars.len(),
    ensures
        field is Malformed == !all_digits(chars@.subrange(from as int, to as int)),
        field is Overflow ==> digits_value(chars@.subrange(from as int, to as int)) > u64::MAX,
        field matches Field::Number(n) ==> n == digits_value(
            chars@.subrange(from as int, to as int),
        ),
{
    let ghost run = chars@.subrange(from as int, to as int);
    if from == to {
        return Field::Malformed;
    }
    let mut value: Option<u64> = Some(0);
    let mut i: usize = from;
    while i < to
        invariant
            from <= i <= to <= chars.len(),
            run == chars@.subrange(from as int, to as int),
            forall|j: int| 0 <= j < i - from ==> is_digit(#[trigger] run[j]),
            value matches Some(v) ==> v == digits_value(run.take(i - from)),
            value is None ==> digits_value(run.take(i - from)) > u64::MAX,
        decreases to - i,
    {
        let ghost before = run.take(i - from);
        let ghost after = run.take(i - from + 1);
        assert(after.drop_last() =~= before);
        assert(after.last() == chars@[i as int]);
        match digit_of(chars[i]) {
            None => {
                assert(!is_digit(run[i - from]));
                return Field::Malformed;
            },
            Some(d) => {
                value = match value {
                    Some(v) => match v.checked_mul(10) {
                        Some(tens) => tens.checked_add(d),
                        None => None,
                    },
                    None => None,
                };
            },
        }
        i += 1;
    }
    assert(run.take(to - from) =~= run);
    match value {
        Some(v) => Field::Number(v),
        None => Field::Overflow,
    }
}

/// The fields of a text's whole part, as far as they have been read: `done`
/// are the fields before position `start`, and the rest are the fields of
/// what follows it.
spec fn fields_split_at(whole: Seq<char>, done: Seq<Seq<char>>, start: int) -> bool {
    0 <= start <= whole.len() && colon_fields(whole) == done + colon_fields(whole.skip(start))
}

/// Reads a duration from text of the form `D:H:M:S.mmm`, in which the days,
/// hours and minutes with their colons, and the dot with its fraction, may
/// each be left out.
pub fn parse_duration(text: &str) -> (parsed: Result<Duration, DurationError>)
    ensures
        match parse_duration_spec(text@) {
            Ok(nanos) => parsed is Ok && parsed->Ok_0@ == nanos,
            Err(e) => parsed == Err::<Duration, DurationError>(e),
        },
{
    let chars = chars_of(text);
    let len: usize = chars.len();
    let dot: usize = find_char(&chars, 0, len, '.');
    let ghost s = text@;
    let ghost whole = whole_part(s);
    assert(chars@.subrange(0, len as int) =~= s);
    assert(whole =~= chars@.subrange(0, dot as int));

    let mut values: Vec<Option<u64>> = Vec::new();
    let ghost mut done: Seq<Seq<char>> = Seq::empty();
    let mut start: usize = 0;
    let mut more: bool = true;
    proof {
        assert(whole.skip(0) =~= whole);
        assert(done + colon_fields(whole.skip(0)) =~= colon_fields(whole));
    }
    while more
        invariant
            dot <= len == chars.len(),
            s == chars@,
            s == text@,
            whole == whole_part(s),
            whole == chars@.subrange(0, dot as int),
            start <= dot,
            values.len() == done.len() <= 4,
            more ==> fields_split_at(whole, done, start as int),
            !more ==> colon_fields(whole) == done,
            !more ==> done.len() >= 1,
            forall|i: int| 0 <= i < done.len() ==> all_digits(#[trigger] done[i]),
            forall|i: int|
                0 <= i < done.len() ==> match #[trigger] values[i] {
                    Some(v) => v == digits_value(done[i]),
                    None => digits_value(done[i]) > u64::MAX,
                },
        decreases dot - start + (if more { 1int } else { 0int }),
    {
        let end: usize = find_char(&chars, start, dot, ':');
        let ghost rest = whole.skip(start as int);
        let ghost field = chars@.subrange(start as int, end as int);
        proof {
            assert(rest =~= chars@.subrange(start as int, dot as int));
            assert(field =~= rest.take(end - start));
            if end < dot {
                assert(rest.skip(end - start + 1) =~= whole.skip(end + 1));
                assert(colon_fields(rest) == seq![field] + colon_fields(whole.skip(end + 1)));
                assert(colon_fields(whole) =~= done.push(field) + colon_fields(
                    whole.skip(end + 1),
                ));
            } else {
                assert(rest.take(end - start) =~= rest);
                assert(colon_fields(rest) == seq![field]);
                assert(colon_fields(whole) =~= done.push(field));
            }
        }
        if values.len() == 4 {
            // A fifth field.
            assert(colon_fields(whole).len() >= 5);
            return Err(DurationError::InvalidFormat);
        }
        let value = match read_field(&chars, start, end) {
            Field::Malformed => {
                assert(colon_fields(whole)[done.len() as int] == field);
                return Err(DurationError::InvalidFormat);
            },
            Field::Overflow => None,
            Field::Number(n) => Some(n),
        };
        values.push(value);
        proof {
            done = done.push(field);
        }
        if end < dot {
            start = end + 1;
        } else {
            more = false;
        }
    }

    let mut millis: u64 = 0;
    if dot < len {
        let ghost fraction = s.skip(dot + 1);
        assert(fraction =~= chars@.subrange(dot + 1, len as int));
        if len - dot - 1 > 3 {
            return Err(DurationError::InvalidFormat);
        }
        match read_field(&chars, dot + 1, len) {
            Field::Malformed => {
                return Err(DurationError::InvalidFormat);
            },
            Field::Overflow => {
                proof {
                    lemma_digits_value_bound(fraction);
                }
                return Err(DurationError::InvalidFormat);
            },
            Field::Number(n) => {
                proof {
                    lemma_digits_value_bound(fraction);
                }
                millis = if len - dot - 1 == 1 {
                    n * 100
                } else if len - dot - 1 == 2 {
                    n * 10
                } else {
                    n
                };
            },
        }
    }
    assert(is_duration_text(s));
    assert(millis == text_millis(s));

    let count: usize = values.len();
    let mut secs: u128 = 0;
    let mut overflow: bool = false;
    let mut back: usize = 0;
    while back < count
        invariant
            count == values.len() == done.len() <= 4,
            back <= count,
            forall|i: int|
                0 <= i < done.len() ==> match #[trigger] values[i] {
                    Some(v) => v == digits_value(done[i]),
                    None => digits_value(done[i]) > u64::MAX,
                },
            !overflow ==> secs == partial_secs(done, back as int),
            overflow ==> partial_secs(done, back as int) > u64::MAX,
            secs <= back * 86400 * u64::MAX,
        decreases count - back,
    {
        let unit: u128 = if back == 0 {
            1
        } else if back == 1 {
            60
        } else if back == 2 {
            3600
        } else {
            86400
        };
        assert(unit == unit_secs(back as int));
        match values[count - 1 - back] {
            Some(v) => {
                assert(v as u128 * unit <= 86400 * u64::MAX) by (nonlinear_arith)
                    requires
                        unit <= 86400,
                        v <= u64::MAX,
                ;
                secs = secs + v as u128 * unit;
            },
            None => {
                assert(field_from_end(done, back as int) * unit_secs(back as int) > u64::MAX)
                    by (nonlinear_arith)
                    requires
                        field_from_end(done, back as int) > u64::MAX,
                        unit_secs(back as int) >= 1,
                ;
                overflow = true;
            },
        }
        back += 1;
    }
    proof {
        lemma_partial_secs_total(done);
    }
    if overflow || secs > u64::MAX as u128 {
        return Err(DurationError::TooLarge);
    }
    Ok(Duration::new(secs as u64, (millis * 1_000_000) as u32))
}

/// The seconds in one unit of the field `back` places from the last.
pub open spec fn unit_secs(back: int) -> nat {
    if back == 0 {
        1
    } else if back == 1 {
        60
    } else if back == 2 {
        3600
    } else {
        86400
    }
}

/// The seconds spelled by the last `count` fields.
pub open spec fn partial_secs(fields: Seq<Seq<char>>, count: int) -> nat
    decreases count,
{
    if count <= 0 {
        0
    } else {
        partial_secs(fields, count - 1) + field_from_end(fields, count - 1) * unit_secs(count - 1)
    }
}

proof fn lemma_partial_secs_total(fields: Seq<Seq<char>>)
    requires
        fields.len() <= 4,
    ensures
        partial_secs(fields, fields.len() as int) == field_from_end(fields, 0) + 60
            * field_from_end(fields, 1) + 3600 * field_from_end(fields, 2) + 86400
            * field_from_end(fields, 3),
{
    let a = field_from_end(fields, 0);
    let b = field_from_end(fields, 1);
    let c = field_from_end(fields, 2);
    let d = field_from_end(fields, 3);
    assert(partial_secs(fields, 0) == 0);
    assert(partial_secs(fields, 1) == a) by {
        assert(a * unit_secs(0) == a);
    }
    assert(partial_secs(fields, 2) == a + 60 * b) by {
        assert(b * unit_secs(1) == 60 * b);
    }
    assert(partial_secs(fields, 3) == a + 60 * b + 3600 * c) by {
        assert(c * unit_secs(2) == 3600 * c);
    }
    assert(partial_secs(fields, 4) == a + 60 * b + 3600 * c + 86400 * d) by {
        assert(d * unit_secs(3) == 86400 * d);
    }
}

/// A run of at most three digits spells less than a thousand; one of a
/// single digit less than ten, one of two less than a hundred.
proof fn lemma_digits_value_bound(s: Seq<char>)
    requires
        all_digits(s),
        s.len() <= 3,
    ensures
        s.len() == 1 ==> digits_value(s) < 10,
        s.len() == 2 ==> digits_value(s) < 100,
        digits_value(s) < 1000,
{
    reveal_with_fuel(digits_value, 4);
    let a = s.drop_last();
    if s.len() >= 2 {
        assert(is_digit(a.last())) by {
            assert(a.last() == s[s.len() - 2]);
        }
        let b = a.drop_last();
        if s.len() >= 3 {
            assert(is_digit(b.last())) by {
                assert(b.last() == s[s.len() - 3]);
            }
        }
    }
    assert(is_digit(s.last())) by {
        assert(s.last() == s[s.len() - 1]);
    }
}

/// The character of a digit is a digit and stands for it.
proof fn lemma_digit_char(d: nat)
    requires
        d < 10,
    ensures
        is_digit(digit_char(d)),
        digit_value(digit_char(d)) == d,
{
}

/// One more digit at the end multiplies what a run spells by ten and adds
/// the digit.
proof fn lemma_digits_value_push(s: Seq<char>, c: char)
    ensures
        digits_value(s.push(c)) == digits_value(s) * 10 + digit_value(c),
{
    assert(s.push(c).drop_last() =~= s);
}

/// The decimal text of a number is a run of digits that spells it.
pub proof fn lemma_decimal_spells(n: nat)
    ensures
        all_digits(decimal(n)),
        digits_value(decimal(n)) == n,
    decreases n,
{
    lemma_digit_char(n % 10);
    if n >= 10 {
        lemma_decimal_spells(n / 10);
        lemma_digits_value_push(decimal(n / 10), digit_char(n % 10));
        assert forall|i: int| 0 <= i < decimal(n).len() implies is_digit(
            #[trigger] decimal(n)[i],
        ) by {
            if i < decimal(n).len() - 1 {
                assert(decimal(n)[i] == decimal(n / 10)[i]);
            }
        }
    } else {
        lemma_digits_value_push(Seq::<char>::empty(), digit_char(n));
        assert(decimal(n) =~= Seq::<char>::empty().push(digit_char(n)));
    }
}

/// Two digits in a row are a run that spells ten times the first plus the
/// second.
proof fn lemma_two_digits(a: nat, b: nat)
    requires
        a < 10,
        b < 10,
    ensures
        all_digits(seq![digit_char(a), digit_char(b)]),
        digits_value(seq![digit_char(a), digit_char(b)]) == a * 10 + b,
{
    lemma_digit_char(a);
    lemma_digit_char(b);
    let e = Seq::<char>::empty();
    lemma_digits_value_push(e, digit_char(a));
    lemma_digits_value_push(e.push(digit_char(a)), digit_char(b));
    assert(seq![digit_char(a), digit_char(b)] =~= e.push(digit_char(a)).push(digit_char(b)));
}

/// Three digits in a row are a run that spells them.
proof fn lemma_three_digits(a: nat, b: nat, c: nat)
    requires
        a < 10,
        b < 10,
        c < 10,
    ensures
        all_digits(seq![digit_char(a), digit_char(b), digit_char(c)]),
        digits_value(seq![digit_char(a), digit_char(b), digit_char(c)]) == a * 100 + b * 10 + c,
{
    lemma_two_digits(a, b);
    lemma_digit_char(c);
    let ab = seq![digit_char(a), digit_char(b)];
    lemma_digits_value_push(ab, digit_char(c));
    assert(seq![digit_char(a), digit_char(b), digit_char(c)] =~= ab.push(digit_char(c)));
}

/// A number padded to two or three digits is a run of that many digits that
/// spells it.
pub proof fn lemma_padded_spells(n: nat)
    ensures
        n < 100 ==> all_digits(padded(n, 2)) && padded(n, 2).len() == 2 && digits_value(
            padded(n, 2),
        ) == n,
        n < 1000 ==> all_digits(padded(n, 3)) && padded(n, 3).len() == 3 && digits_value(
            padded(n, 3),
        ) == n,
{
    lemma_padded_digits(n);
    if n < 100 {
        lemma_two_digits(n / 10, n % 10);
    }
    if n < 1000 {
        lemma_three_digits(n / 100, (n / 10) % 10, n % 10);
    }
}

/// A run of digits followed by a colon is the first field of a text.
proof fn lemma_field_then_colon(field: Seq<char>, rest: Seq<char>)
    requires
        all_digits(field),
    ensures
        colon_fields(field + seq![':'] + rest) == seq![field] + colon_fields(rest),
{
    let s = field + seq![':'] + rest;
    assert forall|j: int| 0 <= j < field.len() implies s[j] != ':' by {
        assert(is_digit(field[j]));
    }
    lemma_first_index(s, ':', field.len() as int);
    assert(s.take(field.len() as int) =~= field);
    assert(s.skip(field.len() as int + 1) =~= rest);
}

/// A run of digits alone is a text of one field.
proof fn lemma_single_field(field: Seq<char>)
    requires
        all_digits(field),
    ensures
        colon_fields(field) == seq![field],
{
    assert forall|j: int| 0 <= j < field.len() implies field[j] != ':' by {
        assert(is_digit(field[j]));
    }
    lemma_first_index(field, ':', field.len() as int);
}

/// Whether a text has no dot in it.
spec fn dotless(s: Seq<char>) -> bool {
    forall|i: int| 0 <= i < s.len() ==> #[trigger] s[i] != '.'
}

proof fn lemma_digits_dotless(s: Seq<char>)
    requires
        all_digits(s),
    ensures
        dotless(s),
{
    assert forall|i: int| 0 <= i < s.len() implies #[trigger] s[i] != '.' by {
        assert(is_digit(s[i]));
    }
}

/// A text without a dot, then a dot, then more: the first is the whole part
/// and the last the fraction.
proof fn lemma_split_at_dot(whole: Seq<char>, fraction: Seq<char>)
    requires
        dotless(whole),
    ensures
        whole_part(whole + seq!['.'] + fraction) == whole,
        fraction_part(whole + seq!['.'] + fraction) == Some(fraction),
{
    let s = whole + seq!['.'] + fraction;
    lemma_first_index(s, '.', whole.len() as int);
    assert(s.take(whole.len() as int) =~= whole);
    assert(s.skip(whole.len() as int + 1) =~= fraction);
}

/// The fields joined by colons.
spec fn joined(fields: Seq<Seq<char>>) -> Seq<char>
    decreases fields.len(),
{
    if fields.len() == 0 {
        Seq::empty()
    } else if fields.len() == 1 {
        fields[0]
    } else {
        fields[0] + seq![':'] + joined(fields.drop_first())
    }
}

/// Runs of digits joined by colons are a text without a dot whose fields
/// are those runs.
proof fn lemma_joined_fields(fields: Seq<Seq<char>>)
    requires
        fields.len() >= 1,
        forall|i: int| 0 <= i < fields.len() ==> all_digits(#[trigger] fields[i]),
    ensures
        colon_fields(joined(fields)) == fields,
        dotless(joined(fields)),
    decreases fields.len(),
{
    let first = fields[0];
    lemma_digits_dotless(first);
    if fields.len() == 1 {
        lemma_single_field(first);
        assert(seq![first] =~= fields);
    } else {
        let rest = fields.drop_first();
        assert forall|i: int| 0 <= i < rest.len() implies all_digits(#[trigger] rest[i]) by {
            assert(rest[i] == fields[i + 1]);
        }
        lemma_joined_fields(rest);
        lemma_field_then_colon(first, joined(rest));
        assert(seq![first] + rest =~= fields);
        let text = joined(fields);
        assert forall|i: int| 0 <= i < text.len() implies #[trigger] text[i] != '.' by {
            if i < first.len() {
                assert(text[i] == first[i]);
            } else if i > first.len() {
                assert(text[i] == joined(rest)[i - first.len() - 1]);
            }
        }
    }
}

/// Up to four runs of digits joined by colons, then a dot and three digits:
/// a duration text whose fields are the runs and whose milliseconds are what
/// the three digits spell.
proof fn lemma_text_reads(fields: Seq<Seq<char>>, fraction: Seq<char>)
    requires
        1 <= fields.len() <= 4,
        forall|i: int| 0 <= i < fields.len() ==> all_digits(#[trigger] fields[i]),
        all_digits(fraction),
        fraction.len() == 3,
    ensures
        is_duration_text(joined(fields) + seq!['.'] + fraction),
        colon_fields(whole_part(joined(fields) + seq!['.'] + fraction)) == fields,
        text_millis(joined(fields) + seq!['.'] + fraction) == digits_value(fraction),
{
    lemma_joined_fields(fields);
    lemma_split_at_dot(joined(fields), fraction);
}

/// The text of runs of digits joined by colons, a dot and three digits reads
/// as the seconds that the runs spell, each in its unit, and the milliseconds
/// that the three digits spell.
proof fn lemma_fields_read(
    text: Seq<char>,
    fields: Seq<Seq<char>>,
    fraction: Seq<char>,
    units: Seq<nat>,
    millis: nat,
)
    requires
        text == joined(fields) + seq!['.'] + fraction,
        1 <= fields.len() <= 4,
        units.len() == fields.len(),
        forall|i: int|
            0 <= i < fields.len() ==> all_digits(#[trigger] fields[i]) && digits_value(fields[i])
                == units[i],
        all_digits(fraction),
        fraction.len() == 3,
        digits_value(fraction) == millis,
    ensures
        is_duration_text(text),
        text_millis(text) == millis,
        fields.len() == 1 ==> text_secs(text) == units[0],
        fields.len() == 2 ==> text_secs(text) == units[0] * 60 + units[1],
        fields.len() == 3 ==> text_secs(text) == units[0] * 3600 + units[1] * 60 + units[2],
        fields.len() == 4 ==> text_secs(text) == units[0] * 86400 + units[1] * 3600 + units[2] * 60
            + units[3],
{
    lemma_text_reads(fields, fraction);
}

proof fn lemma_seconds_read(seconds: nat, millis: nat)
    requires
        millis < 1000,
    ensures
        is_duration_text(parts_text(0, 0, 0, seconds, millis)),
        text_secs(parts_text(0, 0, 0, seconds, millis)) == seconds,
        text_millis(parts_text(0, 0, 0, seconds, millis)) == millis,
{
    lemma_padded_spells(millis);
    lemma_decimal_spells(seconds);
    let fields = seq![decimal(seconds)];
    let text = parts_text(0, 0, 0, seconds, millis);
    assert(text =~= joined(fields) + seq!['.'] + padded(millis, 3));
    lemma_fields_read(text, fields, padded(millis, 3), seq![seconds], millis);
}

proof fn lemma_minutes_read(minutes: nat, seconds: nat, millis: nat)
    requires
        minutes > 0,
        seconds < 60,
        millis < 1000,
    ensures
        is_duration_text(parts_text(0, 0, minutes, seconds, millis)),
        text_secs(parts_text(0, 0, minutes, seconds, millis)) == minutes * 60 + seconds,
        text_millis(parts_text(0, 0, minutes, seconds, millis)) == millis,
{
    lemma_padded_spells(millis);
    lemma_padded_spells(seconds);
    lemma_decimal_spells(minutes);
    let fields = seq![decimal(minutes), padded(seconds, 2)];
    let text = parts_text(0, 0, minutes, seconds, millis);
    assert(text =~= joined(fields) + seq!['.'] + padded(millis, 3)) by {
        reveal_with_fuel(joined, 2);
        assert(fields.drop_first()[0] == fields[1]);
    }
    lemma_fields_read(text, fields, padded(millis, 3), seq![minutes, seconds], millis);
}

proof fn lemma_hours_read(hours: nat, minutes: nat, seconds: nat, millis: nat)
    requires
        hours > 0,
        minutes < 60,
        seconds < 60,
        millis < 1000,
    ensures
        is_duration_text(parts_text(0, hours, minutes, seconds, millis)),
        text_secs(parts_text(0, hours, minutes, seconds, millis)) == hours * 3600 + minutes * 60
            + seconds,
        text_millis(parts_text(0, hours, minutes, seconds, millis)) == millis,
{
    lemma_padded_spells(millis);
    lemma_padded_spells(seconds);
    lemma_padded_spells(minutes);
    lemma_decimal_spells(hours);
    let fields = seq![decimal(hours), padded(minutes, 2), padded(seconds, 2)];
    let text = parts_text(0, hours, minutes, seconds, millis);
    assert(text =~= joined(fields) + seq!['.'] + padded(millis, 3)) by {
        reveal_with_fuel(joined, 3);
        let rest = fields.drop_first();
        assert(rest[0] == fields[1]);
        assert(rest.drop_first()[0] == fields[2]);
    }
    lemma_fields_read(text, fields, padded(millis, 3), seq![hours, minutes, seconds], millis);
}

proof fn lemma_days_read(days: nat, hours: nat, minutes: nat, seconds: nat, millis: nat)
    requires
        days > 0,
        hours < 24,
        minutes < 60,
        seconds < 60,
        millis < 1000,
    ensures
        is_duration_text(parts_text(days, hours, minutes, seconds, millis)),
        text_secs(parts_text(days, hours, minutes, seconds, millis)) == days * 86400 + hours * 3600
            + minutes * 60 + seconds,
        text_millis(parts_text(days, hours, minutes, seconds, millis)) == millis,
{
    lemma_padded_spells(millis);
    lemma_padded_spells(seconds);
    lemma_padded_spells(minutes);
    lemma_padded_spells(hours);
    lemma_decimal_spells(days);
    let fields = seq![decimal(days), padded(hours, 2), padded(minutes, 2), padded(seconds, 2)];
    let text = parts_text(days, hours, minutes, seconds, millis);
    assert(text =~= joined(fields) + seq!['.'] + padded(millis, 3)) by {
        reveal_with_fuel(joined, 4);
        let rest = fields.drop_first();
        let last = rest.drop_first();
        assert(rest[0] == fields[1]);
        assert(last[0] == fields[2]);
        assert(last.drop_first()[0] == fields[3]);
    }
    lemma_fields_read(
        text,
        fields,
        padded(millis, 3),
        seq![days, hours, minutes, seconds],
        millis,
    );
}

/// What reading gives for the text of days, hours, minutes, seconds and
/// milliseconds: the seconds and milliseconds that they add up to.
proof fn lemma_parts_text_reads(days: nat, hours: nat, minutes: nat, seconds: nat, millis: nat)
    requires
        hours < 24,
        minutes < 60,
        seconds < 60,
        millis < 1000,
    ensures
        is_duration_text(parts_text(days, hours, minutes, seconds, millis)),
        text_secs(parts_text(days, hours, minutes, seconds, millis)) == days * 86400 + hours * 3600
            + minutes * 60 + seconds,
        text_millis(parts_text(days, hours, minutes, seconds, millis)) == millis,
{
    if days == 0 && hours == 0 && minutes == 0 {
        lemma_seconds_read(seconds, millis);
    } else if days == 0 && hours == 0 {
        lemma_minutes_read(minutes, seconds, millis);
    } else if days == 0 {
        lemma_hours_read(hours, minutes, seconds, millis);
    } else {
        lemma_days_read(days, hours, minutes, seconds, millis);
    }
}

/// The days, hours, minutes and seconds of a number of seconds add up to it.
proof fn lemma_clock_parts(secs: nat)
    ensures
        (secs / 86400) * 86400 + ((secs % 86400) / 3600) * 3600 + ((secs % 3600) / 60) * 60 + secs
            % 60 == secs,
        (secs % 86400) / 3600 < 24,
        (secs % 3600) / 60 < 60,
        secs % 60 < 60,
{
    let s = secs as int;
    let in_day = s % 86400;
    let in_hour = in_day % 3600;
    vstd::arithmetic::div_mod::lemma_fundamental_div_mod(s, 86400);
    vstd::arithmetic::div_mod::lemma_fundamental_div_mod(in_day, 3600);
    vstd::arithmetic::div_mod::lemma_fundamental_div_mod(in_hour, 60);
    assert(in_hour == s % 3600) by {
        vstd::arithmetic::div_mod::lemma_mod_mod(s, 3600, 24);
    }
    assert(in_hour % 60 == s % 60) by {
        vstd::arithmetic::div_mod::lemma_mod_mod(s, 60, 60);
    }
}

/// The whole seconds and the whole milliseconds of a duration add up to the
/// duration cut down to whole milliseconds.
proof fn lemma_whole_millis(nanos: nat)
    ensures
        (nanos / 1_000_000_000) * 1_000_000_000 + ((nanos % 1_000_000_000) / 1_000_000) * 1_000_000
            == (nanos / 1_000_000) * 1_000_000,
        (nanos % 1_000_000_000) / 1_000_000 < 1000,
        nanos % 1_000_000 == 0 ==> (nanos / 1_000_000) * 1_000_000 == nanos,
{
    let n = nanos as int;
    let in_sec = n % 1_000_000_000;
    vstd::arithmetic::div_mod::lemma_fundamental_div_mod(n, 1_000_000_000);
    vstd::arithmetic::div_mod::lemma_fundamental_div_mod(in_sec, 1_000_000);
    vstd::arithmetic::div_mod::lemma_fundamental_div_mod(n, 1_000_000);
    assert(in_sec % 1_000_000 == n % 1_000_000) by {
        vstd::arithmetic::div_mod::lemma_mod_mod(n, 1_000_000, 1000);
    }
}

/// Writing a duration with all three millisecond digits and no sign, then
/// reading the text back, gives the duration again, cut down to whole
/// milliseconds: nothing is lost but what is finer than a millisecond, and
/// a duration of whole milliseconds comes back as it was.
pub proof fn lemma_format_then_parse(d: Duration)
    requires
        d@ <= MAX_NANOS,
    ensures
        parse_duration_spec(format_duration_spec(d@, 3, Sign::Positive, Prefix::NoneOrMinus))
            == Ok::<nat, DurationError>(
            (d@ / NANOS_PER_MILLI as nat) * NANOS_PER_MILLI as nat,
        ),
        d@ % NANOS_PER_MILLI as nat == 0 ==> parse_duration_spec(
            format_duration_spec(d@, 3, Sign::Positive, Prefix::NoneOrMinus),
        ) == Ok::<nat, DurationError>(d@),
{
    reveal(format_duration_spec);
    let nanos = d@;
    let text = format_duration_spec(nanos, 3, Sign::Positive, Prefix::NoneOrMinus);
    assert(text =~= clock_text(nanos));
    let secs = nanos / NANOS_PER_SEC as nat;
    let days = secs / 86400;
    let hours = (secs % 86400) / 3600;
    let minutes = (secs % 3600) / 60;
    let seconds = secs % 60;
    let millis = (nanos % NANOS_PER_SEC as nat) / NANOS_PER_MILLI as nat;
    lemma_clock_parts(secs);
    lemma_whole_millis(nanos);
    lemma_parts_text_reads(days, hours, minutes, seconds, millis);
}

} // verus!
