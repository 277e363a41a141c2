use textutils::cal::{
    format_month, last_day_in_month, layout_month, month_length, parse_int, parse_month, run,
    show_whole_year, Args, Date,
};

fn date(year: i32, month: u32, day: u32) -> Date {
    Date { year, month, day }
}

#[test]
fn test_parse_int() {
    let res = parse_int::<usize>("1");
    assert!(res.is_ok());
    assert_eq!(res.unwrap(), 1usize);

    let res = parse_int::<i32>("-1");
    assert!(res.is_ok());
    assert_eq!(res.unwrap(), -1i32);

    let res = parse_int::<i64>("foo");
    assert!(res.is_err());
    assert_eq!(res.unwrap_err().to_string(), "Invalid integer \"foo\"");
}

#[test]
fn test_parse_month() {
    let res = parse_month("1");
    assert!(res.is_ok());
    assert_eq!(res.unwrap(), 1u32);

    let res = parse_month("12");
    assert!(res.is_ok());
    assert_eq!(res.unwrap(), 12u32);

    let res = parse_month("jan");
    assert!(res.is_ok());
    assert_eq!(res.unwrap(), 1u32);

    let res = parse_month("0");
    assert!(res.is_err());
    assert_eq!(
        res.unwrap_err().to_string(),
        "month \"0\" not in the range 1 through 12"
    );

    let res = parse_month("13");
    assert!(res.is_err());
    assert_eq!(
        res.unwrap_err().to_string(),
        "month \"13\" not in the range 1 through 12"
    );

    let res = parse_month("foo");
    assert!(res.is_err());
    assert_eq!(res.unwrap_err().to_string(), "Invalid month \"foo\"");
}

#[test]
fn test_format_month() {
    let today = date(0, 1, 1);
    let leap_february = vec![
        "   February 2020      ",
        "Su Mo Tu We Th Fr Sa  ",
        "                   1  ",
        " 2  3  4  5  6  7  8  ",
        " 9 10 11 12 13 14 15  ",
        "16 17 18 19 20 21 22  ",
        "23 24 25 26 27 28 29  ",
        "                      ",
    ];
    assert_eq!(format_month(2020, 2, true, today), leap_february);

    let may = vec![
        "        May           ",
        "Su Mo Tu We Th Fr Sa  ",
        "                1  2  ",
        " 3  4  5  6  7  8  9  ",
        "10 11 12 13 14 15 16  ",
        "17 18 19 20 21 22 23  ",
        "24 25 26 27 28 29 30  ",
        "31                    ",
    ];
    assert_eq!(format_month(2020, 5, false, today), may);

    let april_hl = vec![
        "     April 2021       ",
        "Su Mo Tu We Th Fr Sa  ",
        "             1  2  3  ",
        " 4  5  6 \u{1b}[7m 7\u{1b}[0m  8  9 10  ",
        "11 12 13 14 15 16 17  ",
        "18 19 20 21 22 23 24  ",
        "25 26 27 28 29 30     ",
        "                      ",
    ];
    let today = date(2021, 4, 7);
    assert_eq!(format_month(2021, 4, true, today), april_hl);
}

#[test]
fn test_last_day_in_month() {
    assert_eq!(last_day_in_month(2020, 1), date(2020, 1, 31));
    assert_eq!(last_day_in_month(2020, 2), date(2020, 2, 29));
    assert_eq!(last_day_in_month(2020, 4), date(2020, 4, 30))
}

#[test]
fn month_lengths() {
    assert_eq!(month_length(2021, 2), 28);
    assert_eq!(month_length(1900, 2), 28);
    assert_eq!(month_length(2000, 2), 29);
    assert_eq!(month_length(0, 2), 29);
    assert_eq!(month_length(-4, 2), 29);
    assert_eq!(month_length(-100, 2), 28);
    assert_eq!(month_length(262142, 12), 31);
    assert_eq!(month_length(-262143, 1), 31);
    let lengths: Vec<u32> = (1..=12).map(|m| month_length(2023, m)).collect();
    assert_eq!(lengths, [31, 28, 31, 30, 31, 30, 31, 31, 30, 31, 30, 31]);
}

#[test]
fn parse_int_by_type() {
    assert_eq!(parse_int::<u32>("+7"), Ok(7));
    assert_eq!(parse_int::<u32>("4294967295"), Ok(u32::MAX));
    assert_eq!(parse_int::<u32>("4294967296"), Err("Invalid integer \"4294967296\"".to_string()));
    assert_eq!(parse_int::<u32>("-0"), Err("Invalid integer \"-0\"".to_string()));
    assert_eq!(parse_int::<i32>("-0"), Ok(0));
    assert_eq!(parse_int::<i32>("-2147483648"), Ok(i32::MIN));
    assert_eq!(parse_int::<i32>("2147483648"), Err("Invalid integer \"2147483648\"".to_string()));
    assert_eq!(parse_int::<i32>("-2147483649"), Err("Invalid integer \"-2147483649\"".to_string()));
    assert_eq!(parse_int::<i64>("-9223372036854775808"), Ok(i64::MIN));
    assert_eq!(parse_int::<i64>("9223372036854775807"), Ok(i64::MAX));
    assert!(parse_int::<i64>("9223372036854775808").is_err());
    assert!(parse_int::<i64>("-9223372036854775809").is_err());
    assert_eq!(parse_int::<u64>("18446744073709551615"), Ok(u64::MAX));
    assert!(parse_int::<u64>("18446744073709551616").is_err());
    assert_eq!(parse_int::<usize>("0042"), Ok(42));
    for bad in ["", "+", "-", "1 ", " 1", "1_000", "0x1", "١"] {
        assert_eq!(parse_int::<i64>(bad).ok(), bad.parse::<i64>().ok());
        assert_eq!(parse_int::<usize>(bad).ok(), bad.parse::<usize>().ok());
    }
}

#[test]
fn parse_month_by_name() {
    assert_eq!(parse_month("Jan"), Ok(1));
    assert_eq!(parse_month("FEB"), Ok(2));
    assert_eq!(parse_month("mar"), Ok(3));
    assert_eq!(parse_month("ap"), Ok(4));
    assert_eq!(parse_month("may"), Ok(5));
    assert_eq!(parse_month("jun"), Ok(6));
    assert_eq!(parse_month("jul"), Ok(7));
    assert_eq!(parse_month("au"), Ok(8));
    assert_eq!(parse_month("s"), Ok(9));
    assert_eq!(parse_month("o"), Ok(10));
    assert_eq!(parse_month("n"), Ok(11));
    assert_eq!(parse_month("d"), Ok(12));
    assert_eq!(parse_month("december"), Ok(12));
    assert_eq!(parse_month("+3"), Ok(3));
    assert_eq!(parse_month("012"), Ok(12));
    for bad in ["", "j", "ju", "m", "ma", "a", "decembers", "jan ", "-1", "ſ"] {
        assert_eq!(parse_month(bad), Err(format!("Invalid month \"{}\"", bad)));
    }
    assert_eq!(parse_month("0013"), Err("month \"13\" not in the range 1 through 12".to_string()));
}

#[test]
fn layout_of_given_month() {
    let lines = layout_month("x", 6, 30, 0);
    assert_eq!(
        lines,
        vec![
            "         x            ",
            "Su Mo Tu We Th Fr Sa  ",
            "                   1  ",
            " 2  3  4  5  6  7  8  ",
            " 9 10 11 12 13 14 15  ",
            "16 17 18 19 20 21 22  ",
            "23 24 25 26 27 28 29  ",
            "30                    ",
        ]
    );
    let lines = layout_month("a heading longer than the field", 0, 1, 1);
    assert_eq!(lines[0], "a heading longer than the field  ");
    assert_eq!(lines[2], "\u{1b}[7m 1\u{1b}[0m                    ");
    assert_eq!(lines[3], "                      ");
}

#[test]
fn whole_year() {
    let lines = show_whole_year(2020, date(2020, 2, 29));
    assert_eq!(lines.len(), 36);
    assert_eq!(lines[0], "                            2020");
    assert_eq!(lines[1], "      January               February               March          ");
    assert_eq!(lines[2], "Su Mo Tu We Th Fr Sa  Su Mo Tu We Th Fr Sa  Su Mo Tu We Th Fr Sa  ");
    assert_eq!(lines[3], "          1  2  3  4                     1   1  2  3  4  5  6  7  ");
    assert_eq!(lines[7], "26 27 28 29 30 31     23 24 25 26 27 28 \u{1b}[7m29\u{1b}[0m  29 30 31              ");
    assert_eq!(lines[9], "");
    assert_eq!(lines[10], "       April                  May                   June          ");
    assert_eq!(lines[18], "");
    assert_eq!(lines[27], "");
    assert_eq!(lines[28], "      October               November              December        ");
}

#[test]
fn run_picks_what_to_show() {
    let today = date(2021, 4, 7);
    let args = |year, month: Option<&str>, show_current_year| Args {
        year,
        month: month.map(|m| m.to_string()),
        show_current_year,
    };
    assert_eq!(run(&args(None, None, false), today), Ok(format_month(2021, 4, true, today)));
    assert_eq!(run(&args(None, None, true), today), Ok(show_whole_year(2021, today)));
    assert_eq!(run(&args(Some(1999), None, false), today), Ok(show_whole_year(1999, today)));
    assert_eq!(run(&args(Some(1999), Some("2"), false), today), Ok(format_month(1999, 2, true, today)));
    assert_eq!(run(&args(None, Some("dec"), false), today), Ok(format_month(2021, 12, true, today)));
    assert_eq!(run(&args(None, Some("x"), false), today), Err("Invalid month \"x\"".to_string()));
    assert_eq!(
        run(&args(Some(5), Some("99"), false), today),
        Err("month \"99\" not in the range 1 through 12".to_string())
    );
}
