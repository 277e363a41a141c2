//! A calendar of a month or of a year, as lines of text.

use crate::decimal::{decimal_digits, integer_digits, integer_chars, push_decimal, Integer};
use crate::text::{
    centered, chars_of, joined, left_aligned, push_all, push_centered, push_left_aligned,
    push_right_aligned, push_spaces, right_aligned, spaces, starts_ignoring_case,
    starts_with_ignoring_case, string_of, views,
};
use chrono::Datelike;
use vstd::prelude::*;
use vstd::string::StringExecFns;

verus! {

/// A day of the calendar.
#[derive(Clone, Copy, Debug, PartialEq, Eq, Structural)]
pub struct Date {
    pub year: i32,
    /// The month, from one.
    pub month: u32,
    /// The day of the month, from one.
    pub day: u32,
}

/// What to show.
pub struct Args {
    /// The year to show, from 1 to 9999.
    pub year: Option<i32>,
    /// The month to show: its number, or the start of its name.
    pub month: Option<String>,
    /// Show the whole of the current year.
    pub show_current_year: bool,
}

/// The first year of the calendar.
pub const MIN_YEAR: i32 = -262143;

/// The last year of the calendar.
pub const MAX_YEAR: i32 = 262142;

/// The year is a leap year of the Gregorian calendar, carried back and forth
/// without end.
pub open spec fn is_leap_year(year: int) -> bool {
    year % 4 == 0 && (year % 100 != 0 || year % 400 == 0)
}

/// The number of days of a month.
pub open spec fn days_in_month(year: int, month: int) -> int {
    if month == 2 {
        if is_leap_year(year) {
            29
        } else {
            28
        }
    } else if month == 4 || month == 6 || month == 9 || month == 11 {
        30
    } else {
        31
    }
}

/// The day is one of the calendar.
pub open spec fn is_date(year: int, month: int, day: int) -> bool {
    &&& MIN_YEAR <= year <= MAX_YEAR
    &&& 1 <= month <= 12
    &&& 1 <= day <= days_in_month(year, month)
}

/// The day of the week of a day of the calendar, counted from Sunday, which
/// is zero.
pub uninterp spec fn weekday_number(year: int, month: int, day: int) -> int;

/// True when the day is one of the calendar.
///
/// Trusted: `chrono::NaiveDate::from_ymd_opt`, which gives a date for the
/// days of the proleptic Gregorian calendar in the years that `NaiveDate`
/// holds, and `None` for a month or day that does not exist and for a year
/// out of range.
#[verifier::external_body]
fn date_exists(year: i32, month: u32, day: u32) -> (b: bool)
    ensures
        b == is_date(year as int, month as int, day as int),
{
    chrono::NaiveDate::from_ymd_opt(year, month, day).is_some()
}

/// The day of the week of a day of the calendar, counted from Sunday.
///
/// Trusted: `weekday` of `chrono::NaiveDate` and `num_days_from_sunday` of
/// `chrono::Weekday`. The result depends on the date alone and is below seven.
#[verifier::external_body]
fn weekday_of(year: i32, month: u32, day: u32) -> (w: u32)
    requires
        is_date(year as int, month as int, day as int),
    ensures
        w == weekday_number(year as int, month as int, day as int),
        w < 7,
{
    chrono::NaiveDate::from_ymd_opt(year, month, day).unwrap().weekday().num_days_from_sunday()
}

/// A text as a terminal shows it with the colours of letters and ground
/// exchanged: between the escape sequences that switch this on and all off.
pub open spec fn emphasized(text: Seq<char>) -> Seq<char> {
    seq!['\u{1b}', '[', '7', 'm'] + text + seq!['\u{1b}', '[', '0', 'm']
}

/// Marks a text to be shown with the colours of letters and ground exchanged.
///
/// Trusted: `paint` of an `ansi_term::Style` that is `reverse` and nothing
/// else, written out: the text after `ESC [ 7 m` and before `ESC [ 0 m`.
#[verifier::external_body]
fn emphasize(text: &str) -> (out: String)
    ensures
        out@ == emphasized(text@),
{
    ansi_term::Style::new().reverse().paint(text).to_string()
}

/// The number of days of a month.
pub fn month_length(year: i32, month: u32) -> (days: u32)
    requires
        MIN_YEAR <= year <= MAX_YEAR,
        1 <= month <= 12,
    ensures
        days == days_in_month(year as int, month as int),
{
    let mut days: u32 = 31;
    while days > 28 && !date_exists(year, month, days)
        invariant
            28 <= days <= 31,
            MIN_YEAR <= year <= MAX_YEAR,
            1 <= month <= 12,
            days_in_month(year as int, month as int) <= days,
        decreases days,
    {
        days -= 1;
    }
    days
}

/// The last day of a month.
pub fn last_day_in_month(year: i32, month: u32) -> (date: Date)
    requires
        MIN_YEAR <= year <= MAX_YEAR,
        1 <= month <= 12,
    ensures
        date == (Date { year, month, day: days_in_month(year as int, month as int) as u32 }),
{
    Date { year, month, day: month_length(year, month) }
}

/// The name of a month.
pub open spec fn month_name(month: int) -> Seq<char> {
    if month == 1 {
        "January"@
    } else if month == 2 {
        "February"@
    } else if month == 3 {
        "March"@
    } else if month == 4 {
        "April"@
    } else if month == 5 {
        "May"@
    } else if month == 6 {
        "June"@
    } else if month == 7 {
        "July"@
    } else if month == 8 {
        "August"@
    } else if month == 9 {
        "September"@
    } else if month == 10 {
        "October"@
    } else if month == 11 {
        "November"@
    } else {
        "December"@
    }
}

/// The name of a month.
pub fn name_of_month(month: u32) -> (name: &'static str)
    ensures
        name@ == month_name(month as int),
{
    if month == 1 {
        "January"
    } else if month == 2 {
        "February"
    } else if month == 3 {
        "March"
    } else if month == 4 {
        "April"
    } else if month == 5 {
        "May"
    } else if month == 6 {
        "June"
    } else if month == 7 {
        "July"
    } else if month == 8 {
        "August"
    } else if month == 9 {
        "September"
    } else if month == 10 {
        "October"
    } else if month == 11 {
        "November"
    } else {
        "December"
    }
}

/// The number of months, among the first `n`, whose names `s` starts.
pub open spec fn months_started(s: Seq<char>, n: int) -> int
    decreases n,
{
    if n <= 0 {
        0
    } else {
        months_started(s, n - 1) + if starts_ignoring_case(month_name(n), s) {
            1int
        } else {
            0int
        }
    }
}

/// The month whose name `s` starts, where the case of ASCII letters does not
/// count, if there is one and only one.
pub open spec fn named_month(s: Seq<char>) -> Option<u32> {
    if months_started(s, 12) == 1 {
        Some(
            choose|m: u32| 1 <= m <= 12 && starts_ignoring_case(month_name(m as int), s),
        )
    } else {
        None
    }
}

/// No month's name is started among the first `n` exactly where the count is zero.
pub proof fn lemma_months_started(s: Seq<char>, n: int)
    requires
        0 <= n,
    ensures
        0 <= months_started(s, n) <= n,
        months_started(s, n) == 0 <==> forall|m: int|
            1 <= m <= n ==> !starts_ignoring_case(#[trigger] month_name(m), s),
    decreases n,
{
    if n > 0 {
        lemma_months_started(s, n - 1);
    }
}

/// Where one name only is started among the first `n`, every month that
/// starts so is the same.
pub proof fn lemma_one_month_started(s: Seq<char>, n: int, a: int, b: int)
    requires
        months_started(s, n) <= 1,
        1 <= a <= n,
        1 <= b <= n,
        starts_ignoring_case(month_name(a), s),
        starts_ignoring_case(month_name(b), s),
    ensures
        a == b,
    decreases n,
{
    lemma_months_started(s, n - 1);
    if a == n && b == n {
    } else if a == n {
        assert(months_started(s, n - 1) == 0);
    } else if b == n {
        assert(months_started(s, n - 1) == 0);
    } else {
        lemma_one_month_started(s, n - 1, a, b);
    }
}

/// What a text says of a month: its number from 1 to 12, or the start of
/// its name, or else the words that say what is wrong.
pub open spec fn month_of(s: Seq<char>) -> Result<u32, Seq<char>> {
    match u32::of_text(s) {
        Some(m) => if 1 <= m <= 12 {
            Ok(m)
        } else {
            Err(
                "month \""@ + decimal_digits(m as nat) + "\" not in the range 1 through 12"@,
            )
        },
        None => match named_month(s) {
            Some(m) => Ok(m),
            None => Err("Invalid month \""@ + s + "\""@),
        },
    }
}

/// The words that say that a text is no integer.
pub open spec fn invalid_integer(s: Seq<char>) -> Seq<char> {
    "Invalid integer \""@ + s + "\""@
}

/// Reads an integer.
pub fn parse_int<T: Integer>(val: &str) -> (r: Result<T, String>)
    ensures
        match T::of_text(val@) {
            Some(n) => r == Ok::<T, String>(n),
            None => r is Err && r->Err_0@ == invalid_integer(val@),
        },
{
    let chars = chars_of(val);
    match T::from_chars(&chars) {
        Some(n) => Ok(n),
        None => {
            let mut message = String::from_str("Invalid integer \"");
            message.append(val);
            message.append("\"");
            assert(message@ =~= invalid_integer(val@));
            Err(message)
        },
    }
}

/// Reads a month: its number, or the start of its name in any case.
pub fn parse_month(month: &str) -> (r: Result<u32, String>)
    ensures
        match month_of(month@) {
            Ok(m) => r == Ok::<u32, String>(m),
            Err(message) => r is Err && r->Err_0@ == message,
        },
        r is Ok ==> 1 <= r->Ok_0 <= 12,
{
    let chars = chars_of(month);
    match u32::from_chars(&chars) {
        Some(number) => {
            if 1 <= number && number <= 12 {
                Ok(number)
            } else {
                let mut digits: Vec<char> = Vec::new();
                push_decimal(&mut digits, number as u64);
                let text = string_of(&digits);
                let mut message = String::from_str("month \"");
                message.append(text.as_str());
                message.append("\" not in the range 1 through 12");
                assert(message@ =~= month_of(month@)->Err_0);
                Err(message)
            }
        },
        None => {
            let mut candidate: Option<u32> = None;
            let mut count: u32 = 0;
            let mut m: u32 = 1;
            while m <= 12
                invariant
                    1 <= m <= 13,
                    count == months_started(chars@, m - 1),
                    count <= m - 1,
                    count == 1 ==> candidate is Some && 1 <= candidate->Some_0 < m
                        && starts_ignoring_case(month_name(candidate->Some_0 as int), chars@),
                decreases 13 - m,
            {
                let name = chars_of(name_of_month(m));
                if starts_with_ignoring_case(&name, &chars) {
                    count += 1;
                    candidate = Some(m);
                }
                m += 1;
            }
            if count == 1 {
                let found = candidate.unwrap();
                proof {
                    let chosen = choose|m: u32|
                        1 <= m <= 12 && starts_ignoring_case(month_name(m as int), chars@);
                    lemma_one_month_started(chars@, 12, found as int, chosen as int);
                }
                Ok(found)
            } else {
                let mut message = String::from_str("Invalid month \"");
                message.append(month);
                message.append("\"");
                assert(message@ =~= month_of(month@)->Err_0);
                Err(message)
            }
        },
    }
}

/// The heading of a month: its name, and the year where that is wanted.
pub open spec fn title(year: int, month: int, print_year: bool) -> Seq<char> {
    month_name(month) + if print_year {
        seq![' '] + integer_digits(year)
    } else {
        Seq::<char>::empty()
    }
}

/// The names of the days of the week, as they head the columns.
pub open spec fn weekday_names() -> Seq<char> {
    "Su Mo Tu We Th Fr Sa"@
}

/// One cell of a month: the number of the day in two characters, marked
/// where it is the day to mark; two spaces where the cell holds no day of
/// the month.
pub open spec fn day_cell(day: int, length: int, marked: int) -> Seq<char> {
    if 1 <= day <= length {
        if day == marked {
            emphasized(right_aligned(decimal_digits(day as nat), 2))
        } else {
            right_aligned(decimal_digits(day as nat), 2)
        }
    } else {
        spaces(2)
    }
}

/// The day of the month that stands in a column of a week, where the first
/// of the month stands in the column `first_weekday` of the first week. It is
/// below one or above the month's length where the cell holds no day.
pub open spec fn day_at(week: int, column: int, first_weekday: int) -> int {
    week * 7 + column - first_weekday + 1
}

/// The seven cells of a week.
pub open spec fn week_cells(week: int, first_weekday: int, length: int, marked: int) -> Seq<
    Seq<char>,
> {
    Seq::new(7, |column: int| day_cell(day_at(week, column, first_weekday), length, marked))
}

/// The line of a week: its cells with a space between each two, and two
/// spaces at the end.
pub open spec fn week_line(week: int, first_weekday: int, length: int, marked: int) -> Seq<
    char,
> {
    joined(week_cells(week, first_weekday, length, marked), seq![' ']) + spaces(2)
}

/// The eight lines of a month: the heading in the middle of twenty
/// characters, the names of the days, and six weeks from Sunday to Saturday.
/// Every line ends in two spaces.
pub open spec fn month_layout(heading: Seq<char>, first_weekday: int, length: int, marked: int)
    -> Seq<Seq<char>> {
    seq![centered(heading, 20) + spaces(2), left_aligned(weekday_names(), 20) + spaces(2)]
        + Seq::new(6, |week: int| week_line(week, first_weekday, length, marked))
}

/// Appends one cell of a month.
fn push_day_cell(out: &mut Vec<char>, day: i64, length: u32, marked: u32)
    ensures
        final(out)@ == old(out)@ + day_cell(day as int, length as int, marked as int),
{
    if 1 <= day && day <= length as i64 {
        let mut digits: Vec<char> = Vec::new();
        push_decimal(&mut digits, day as u64);
        let mut cell: Vec<char> = Vec::new();
        push_right_aligned(&mut cell, &digits, 2);
        assert(cell@ =~= right_aligned(decimal_digits(day as nat), 2));
        if day == marked as i64 {
            let plain = string_of(&cell);
            let painted = emphasize(plain.as_str());
            let painted_chars = chars_of(painted.as_str());
            push_all(out, &painted_chars);
        } else {
            push_all(out, &cell);
        }
    } else {
        push_spaces(out, 2);
    }
}

/// The line of a week.
fn format_week(week: u32, first_weekday: u32, length: u32, marked: u32) -> (line: String)
    requires
        week < 6,
    ensures
        line@ == week_line(week as int, first_weekday as int, length as int, marked as int),
{
    let ghost cells = week_cells(week as int, first_weekday as int, length as int, marked as int);
    let mut out: Vec<char> = Vec::new();
    let mut column: u32 = 0;
    assert(cells.take(0) =~= Seq::<Seq<char>>::empty());
    while column < 7
        invariant
            column <= 7,
            week < 6,
            cells == week_cells(week as int, first_weekday as int, length as int, marked as int),
            out@ == joined(cells.take(column as int), seq![' ']),
        decreases 7 - column,
    {
        let ghost before = out@;
        if column > 0 {
            out.push(' ');
        }
        let day: i64 = (week * 7 + column + 1) as i64 - first_weekday as i64;
        push_day_cell(&mut out, day, length, marked);
        proof {
            let next = cells.take(column + 1);
            assert(next.drop_last() =~= cells.take(column as int));
            assert(next.last() == cells[column as int]);
            assert(day == day_at(week as int, column as int, first_weekday as int));
            if column > 0 {
                assert(out@ =~= before + seq![' '] + next.last());
            } else {
                assert(out@ =~= next[0]);
            }
        }
        column += 1;
    }
    assert(cells.take(7) =~= cells);
    push_spaces(&mut out, 2);
    string_of(&out)
}

/// Lays out a month whose first day falls on `first_weekday`, counted from
/// Sunday, and which has `length` days; `marked` is the day to mark, or zero.
pub fn layout_month(heading: &str, first_weekday: u32, length: u32, marked: u32) -> (lines: Vec<
    String,
>)
    ensures
        views(lines@) == month_layout(
            heading@,
            first_weekday as int,
            length as int,
            marked as int,
        ),
{
    let mut lines: Vec<String> = Vec::new();
    let heading_chars = chars_of(heading);
    let mut first: Vec<char> = Vec::new();
    push_centered(&mut first, &heading_chars, 20);
    push_spaces(&mut first, 2);
    assert(first@ =~= centered(heading@, 20) + spaces(2));
    lines.push(string_of(&first));
    let names = chars_of("Su Mo Tu We Th Fr Sa");
    let mut second: Vec<char> = Vec::new();
    push_left_aligned(&mut second, &names, 20);
    push_spaces(&mut second, 2);
    assert(second@ =~= left_aligned(weekday_names(), 20) + spaces(2));
    lines.push(string_of(&second));
    let mut week: u32 = 0;
    while week < 6
        invariant
            week <= 6,
            lines.len() == 2 + week,
            lines@[0]@ == centered(heading@, 20) + spaces(2),
            lines@[1]@ == left_aligned(weekday_names(), 20) + spaces(2),
            forall|w: int|
                0 <= w < week ==> (#[trigger] lines@[2 + w])@ == week_line(
                    w,
                    first_weekday as int,
                    length as int,
                    marked as int,
                ),
        decreases 6 - week,
    {
        lines.push(format_week(week, first_weekday, length, marked));
        week += 1;
    }
    proof {
        let wanted = month_layout(heading@, first_weekday as int, length as int, marked as int);
        assert(wanted.len() == 8);
        assert forall|i: int| 0 <= i < 8 implies views(lines@)[i] == wanted[i] by {
            if i >= 2 {
                assert(lines@[2 + (i - 2)]@ == week_line(
                    i - 2,
                    first_weekday as int,
                    length as int,
                    marked as int,
                ));
            }
        }
        assert(views(lines@) =~= wanted);
    }
    lines
}

/// The day of a month to mark: the day of `today` where it lies in the
/// month, else zero.
pub open spec fn marked_day(year: int, month: int, today: Date) -> int {
    if today.year == year && today.month == month {
        today.day as int
    } else {
        0
    }
}

/// The eight lines of the calendar of a month, with `today` marked where it
/// lies in the month.
pub open spec fn month_lines(year: int, month: int, print_year: bool, today: Date) -> Seq<
    Seq<char>,
> {
    month_layout(
        title(year, month, print_year),
        weekday_number(year, month, 1),
        days_in_month(year, month),
        marked_day(year, month, today),
    )
}

/// The calendar of a month.
pub fn format_month(year: i32, month: u32, print_year: bool, today: Date) -> (lines: Vec<String>)
    requires
        MIN_YEAR <= year <= MAX_YEAR,
        1 <= month <= 12,
    ensures
        views(lines@) == month_lines(year as int, month as int, print_year, today),
        lines.len() == 8,
{
    let mut heading = chars_of(name_of_month(month));
    if print_year {
        heading.push(' ');
        let digits = integer_chars(year as i64);
        push_all(&mut heading, &digits);
    }
    assert(heading@ =~= title(year as int, month as int, print_year));
    let heading = string_of(&heading);
    let first_weekday = weekday_of(year, month, 1);
    let length = month_length(year, month);
    let marked: u32 = if today.year == year && today.month == month {
        today.day
    } else {
        0
    };
    let lines = layout_month(heading.as_str(), first_weekday, length, marked);
    assert(views(lines@).len() == lines@.len());
    lines
}

/// The line of a year's calendar at `row` of the quarter that starts with
/// the month `first`: the lines of its three months, side by side.
pub open spec fn quarter_line(year: int, first: int, row: int, today: Date) -> Seq<char> {
    month_lines(year, first, false, today)[row] + month_lines(year, first + 1, false, today)[row]
        + month_lines(year, first + 2, false, today)[row]
}

/// The line of a year's calendar at `i`: the year, moved to the right in
/// thirty-two characters; then for each quarter the eight lines of its
/// months, with an empty line between two quarters.
pub open spec fn year_line(year: int, i: int, today: Date) -> Seq<char> {
    if i == 0 {
        right_aligned(integer_digits(year), 32)
    } else if (i - 1) % 9 == 8 {
        Seq::empty()
    } else {
        quarter_line(year, ((i - 1) / 9) * 3 + 1, (i - 1) % 9, today)
    }
}

/// The thirty-six lines of the calendar of a year.
pub open spec fn year_lines(year: int, today: Date) -> Seq<Seq<char>> {
    Seq::new(36, |i: int| year_line(year, i, today))
}

/// The calendar of a whole year.
pub fn show_whole_year(year: i32, today: Date) -> (lines: Vec<String>)
    requires
        MIN_YEAR <= year <= MAX_YEAR,
    ensures
        views(lines@) == year_lines(year as int, today),
{
    let mut lines: Vec<String> = Vec::new();
    let digits = integer_chars(year as i64);
    let mut first: Vec<char> = Vec::new();
    push_right_aligned(&mut first, &digits, 32);
    assert(first@ =~= right_aligned(integer_digits(year as int), 32));
    lines.push(string_of(&first));
    let mut quarter: u32 = 0;
    while quarter < 4
        invariant
            quarter <= 4,
            MIN_YEAR <= year <= MAX_YEAR,
            lines.len() == if quarter == 0 {
                1int
            } else {
                quarter * 9
            },
            forall|i: int|
                0 <= i < lines.len() ==> (#[trigger] lines@[i])@ == year_line(
                    year as int,
                    i,
                    today,
                ),
        decreases 4 - quarter,
    {
        if quarter > 0 {
            lines.push(String::new());
            assert((lines.len() - 2) % 9 == 8);
        }
        let month: u32 = quarter * 3 + 1;
        let m1 = format_month(year, month, false, today);
        let m2 = format_month(year, month + 1, false, today);
        let m3 = format_month(year, month + 2, false, today);
        let ghost base = lines.len();
        assert(base == 1 + quarter * 9);
        let mut row: usize = 0;
        while row < 8
            invariant
                row <= 8,
                quarter < 4,
                month == quarter * 3 + 1,
                base == 1 + quarter * 9,
                m1.len() == 8,
                m2.len() == 8,
                m3.len() == 8,
                views(m1@) == month_lines(year as int, month as int, false, today),
                views(m2@) == month_lines(year as int, month + 1, false, today),
                views(m3@) == month_lines(year as int, month + 2, false, today),
                lines.len() == base + row,
                forall|i: int|
                    0 <= i < lines.len() ==> (#[trigger] lines@[i])@ == year_line(
                        year as int,
                        i,
                        today,
                    ),
            decreases 8 - row,
        {
            let mut line = String::new();
            line.append(m1[row].as_str());
            line.append(m2[row].as_str());
            line.append(m3[row].as_str());
            proof {
                let i = base + row;
                assert(views(m1@)[row as int] == m1@[row as int]@);
                assert(views(m2@)[row as int] == m2@[row as int]@);
                assert(views(m3@)[row as int] == m3@[row as int]@);
                assert((i - 1) / 9 == quarter as int);
                assert((i - 1) % 9 == row as int);
                assert(line@ =~= year_line(year as int, i, today));
            }
            lines.push(line);
            row += 1;
        }
        quarter += 1;
    }
    assert(views(lines@) =~= year_lines(year as int, today));
    lines
}

/// What is shown for the arguments: the current year where that is asked
/// for; the year given, where no month is; else one month, of the year and
/// month given or of today's where one is not; or the words that say why the
/// month given is none.
pub open spec fn calendar(args: &Args, today: Date) -> Result<Seq<Seq<char>>, Seq<char>> {
    if args.show_current_year {
        Ok(year_lines(today.year as int, today))
    } else {
        match args.month {
            Some(text) => match month_of(text@) {
                Err(message) => Err(message),
                Ok(month) => Ok(
                    month_lines(
                        (match args.year {
                            Some(year) => year,
                            None => today.year,
                        }) as int,
                        month as int,
                        true,
                        today,
                    ),
                ),
            },
            None => match args.year {
                Some(year) => Ok(year_lines(year as int, today)),
                None => Ok(month_lines(today.year as int, today.month as int, true, today)),
            },
        }
    }
}

/// The lines of the calendar that the arguments ask for.
pub fn run(args: &Args, today: Date) -> (r: Result<Vec<String>, String>)
    requires
        is_date(today.year as int, today.month as int, today.day as int),
        args.year is Some ==> MIN_YEAR <= args.year->Some_0 <= MAX_YEAR,
    ensures
        match calendar(args, today) {
            Ok(lines) => r is Ok && views(r->Ok_0@) == lines,
            Err(message) => r is Err && r->Err_0@ == message,
        },
{
    if args.show_current_year {
        return Ok(show_whole_year(today.year, today));
    }
    let month: Option<u32> = match &args.month {
        Some(text) => match parse_month(text.as_str()) {
            Ok(month) => Some(month),
            Err(message) => {
                return Err(message);
            },
        },
        None => None,
    };
    match (args.year, month) {
        (Some(year), None) => Ok(show_whole_year(year, today)),
        (year, month) => {
            let year = match year {
                Some(year) => year,
                None => today.year,
            };
            let month = match month {
                Some(month) => month,
                None => today.month,
            };
            Ok(format_month(year, month, true, today))
        },
    }
}

} // verus!
