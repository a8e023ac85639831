use timetxt::find_duration;
use timetxt::parse_time;
use timetxt::ClockTime;
use timetxt::Date;
use timetxt::DateBlock;
use timetxt::Time;
use timetxt::TimeEntry;
use timetxt::TimeError;

#[test]
fn test_valid_lines() {
    let input = "1822-01-15\n\
        // Some comments\n\
        3:00 4:00 Sketched ideas for a new machine\n\
        4:00 11:00 Created the first computer\n\
        15:30 17:30 Decided on the name, Difference Engine\n";

    let expected = "1822-01-15\n\
        03:00 04:00 Sketched ideas for a new machine\n\
        04:00 11:00 Created the first computer\n\
        15:30 17:30 Decided on the name, Difference Engine\n";

    let t = parse_time(input);
    match t {
        Ok(t) => {
            let result = t.to_text();
            assert_eq!(result, expected);
        }
        Err(e) => panic!("{}", e.message()),
    }
}

#[test]
fn scenario_three_entries_one_date() {
    let input = "1822-01-15\n\
        // comment\n\
        3:00 4:00 Sketched ideas for a new machine\n\
        4:00 11:00 Created the first computer\n\
        15:30 17:30 Decided on the name, Difference Engine\n";
    let t = parse_time(input).unwrap();
    assert_eq!(t.entries.len(), 1);
    let block = &t.entries[0];
    assert_eq!(
        block.date,
        Date {
            year: 1822,
            month: 1,
            day: 15
        }
    );
    assert_eq!(block.entries.len(), 3);
    assert_eq!(
        block.entries[0].description,
        "Sketched ideas for a new machine"
    );
    assert_eq!(block.entries[1].description, "Created the first computer");
    assert_eq!(
        block.entries[2].description,
        "Decided on the name, Difference Engine"
    );
    assert_eq!(block.entries[0].start, ClockTime { hour: 3, minute: 0 });
    assert_eq!(block.entries[0].end, ClockTime { hour: 4, minute: 0 });
    assert_eq!(
        block.entries[2].start,
        ClockTime {
            hour: 15,
            minute: 30
        }
    );
    let expected = "1822-01-15\n\
        03:00 04:00 Sketched ideas for a new machine\n\
        04:00 11:00 Created the first computer\n\
        15:30 17:30 Decided on the name, Difference Engine\n";
    assert_eq!(t.to_text(), expected);
}

#[test]
fn scenario_invalid_time_aborts() {
    let r = parse_time("1822-01-15\n25:99 04:00 bad time\n");
    assert_eq!(r.unwrap_err(), TimeError::TimeParse);
    // The error fires even before any date header was seen.
    let r = parse_time("25:99 04:00 bad time\n");
    assert_eq!(r.unwrap_err(), TimeError::TimeParse);
}

#[test]
fn scenario_malformed_minute_width() {
    // First space at index 3: the width check fires before any time parse.
    let r = find_duration("3:0 4:00 desc");
    assert_eq!(r.unwrap_err(), TimeError::StartTimeNotFound);
    let r = parse_time("1822-01-15\n3:0 4:00 desc\n");
    assert_eq!(r.unwrap_err(), TimeError::StartTimeNotFound);
}

#[test]
fn extraction_returns_offset_of_second_space() {
    let (off, dur) = find_duration("3:00 4:00 desc").unwrap();
    assert_eq!(off, 9);
    assert_eq!(dur.start, ClockTime { hour: 3, minute: 0 });
    assert_eq!(dur.end, ClockTime { hour: 4, minute: 0 });

    let (off, dur) = find_duration("15:30 17:30 Decided on the name").unwrap();
    assert_eq!(off, 11);
    assert_eq!(
        dur.start,
        ClockTime {
            hour: 15,
            minute: 30
        }
    );
    assert_eq!(
        dur.end,
        ClockTime {
            hour: 17,
            minute: 30
        }
    );
}

#[test]
fn extraction_fewer_than_two_spaces() {
    assert_eq!(
        find_duration("3:00 description").unwrap_err(),
        TimeError::TimesNotFound
    );
    assert_eq!(
        find_duration("3:00 4:00").unwrap_err(),
        TimeError::TimesNotFound
    );
    assert_eq!(
        find_duration("no-spaces-here").unwrap_err(),
        TimeError::TimesNotFound
    );
}

#[test]
fn extraction_second_space_too_early() {
    assert_eq!(
        find_duration("3:00 4:0 x").unwrap_err(),
        TimeError::EndTimeNotFound
    );
}

#[test]
fn extraction_invalid_tokens() {
    assert_eq!(
        find_duration("3:60 4:00 x").unwrap_err(),
        TimeError::TimeParse
    );
    assert_eq!(
        find_duration("24:00 01:00 x").unwrap_err(),
        TimeError::TimeParse
    );
    assert_eq!(
        find_duration("ab:cd 01:00 x").unwrap_err(),
        TimeError::TimeParse
    );
    assert_eq!(
        find_duration("01:00 9:999 x").unwrap_err(),
        TimeError::TimeParse
    );
}

#[test]
fn extraction_edge_times() {
    let (off, dur) = find_duration("23:59 00:00 edge").unwrap();
    assert_eq!(off, 11);
    assert_eq!(
        dur.start,
        ClockTime {
            hour: 23,
            minute: 59
        }
    );
    assert_eq!(dur.end, ClockTime { hour: 0, minute: 0 });
}

#[test]
fn error_messages() {
    assert_eq!(TimeError::TimeParse.message(), "invalid time");
    assert_eq!(
        TimeError::StartTimeNotFound.message(),
        "Start time not found"
    );
    assert_eq!(TimeError::EndTimeNotFound.message(), "End time not found");
    assert_eq!(
        TimeError::TimesNotFound.message(),
        "Neither start or end time not found"
    );
}

#[test]
fn comments_and_blanks_never_produce_entries_or_errors() {
    let input = "// 25:99 04:00 not even scanned\n\n\n2020-05-06\n// another comment line\n08:00 09:15 standup\n";
    let t = parse_time(input).unwrap();
    assert_eq!(t.entries.len(), 1);
    assert_eq!(t.entries[0].entries.len(), 1);
    assert_eq!(t.entries[0].entries[0].description, "standup");
}

#[test]
fn entries_before_any_date_are_dropped() {
    let input = "03:00 04:00 early bird\n1822-01-15\n04:00 05:00 counted\n";
    let t = parse_time(input).unwrap();
    assert_eq!(t.entries.len(), 1);
    assert_eq!(t.entries[0].entries.len(), 1);
    assert_eq!(t.entries[0].entries[0].description, "counted");
}

#[test]
fn short_lines_are_skipped() {
    let input = "2020-01-02\nabc\n12345678\n08:00 09:00 ok\n";
    let t = parse_time(input).unwrap();
    assert_eq!(t.entries.len(), 1);
    assert_eq!(t.entries[0].entries.len(), 1);
    assert_eq!(t.entries[0].entries[0].description, "ok");
}

#[test]
fn invalid_date_falls_through_to_entry_parsing() {
    // A month out of range is no date header; the line is then a failing
    // entry line, which aborts the parse.
    let r = parse_time("2020-13-01\n");
    assert_eq!(r.unwrap_err(), TimeError::TimesNotFound);
    // The 29th of February outside a leap year likewise.
    let r = parse_time("2021-02-29\n");
    assert_eq!(r.unwrap_err(), TimeError::TimesNotFound);
}

#[test]
fn leap_year_date_accepted() {
    let t = parse_time("2020-02-29\n01:00 02:00 leap\n").unwrap();
    assert_eq!(
        t.entries[0].date,
        Date {
            year: 2020,
            month: 2,
            day: 29
        }
    );
}

#[test]
fn duplicate_date_headers_merge_into_one_block() {
    let input = "2020-01-01\n01:00 02:00 a\n2020-01-02\n03:00 04:00 b\n2020-01-01\n05:00 06:00 c\n";
    let t = parse_time(input).unwrap();
    assert_eq!(t.entries.len(), 2);
    assert_eq!(t.entries[0].entries.len(), 2);
    assert_eq!(t.entries[0].entries[0].description, "a");
    assert_eq!(t.entries[0].entries[1].description, "c");
    assert_eq!(t.entries[1].entries.len(), 1);
    assert_eq!(t.entries[1].entries[0].description, "b");
    assert_eq!(
        t.to_text(),
        "2020-01-01\n01:00 02:00 a\n05:00 06:00 c\n2020-01-02\n03:00 04:00 b\n"
    );
}

#[test]
fn windows_line_endings_are_handled() {
    let t = parse_time("2020-01-01\r\n01:00 02:00 x\r\n").unwrap();
    assert_eq!(t.entries.len(), 1);
    assert_eq!(t.entries[0].entries[0].description, "x");
}

#[test]
fn description_is_trimmed() {
    let t = parse_time("2020-01-01\n01:00 02:00    padded   \n").unwrap();
    assert_eq!(t.entries[0].entries[0].description, "padded");
    assert_eq!(t.to_text(), "2020-01-01\n01:00 02:00 padded\n");
}

#[test]
fn empty_description_keeps_trailing_space_when_rendered() {
    let t = parse_time("2020-01-01\n03:00 04:00 \n").unwrap();
    assert_eq!(t.entries[0].entries[0].description, "");
    assert_eq!(t.to_text(), "2020-01-01\n03:00 04:00 \n");
}

#[test]
fn empty_input_parses_to_empty_log() {
    let t = parse_time("").unwrap();
    assert_eq!(t.entries.len(), 0);
    assert_eq!(t.to_text(), "");
}

#[test]
fn date_header_with_no_entries_renders_nothing() {
    let t = parse_time("1822-01-15\n// only a comment\n").unwrap();
    assert_eq!(t.entries.len(), 0);
    assert_eq!(t.to_text(), "");
}

#[test]
fn render_roundtrip_canonical_text() {
    let input = "0822-01-15\n03:05 04:09 one\n2020-12-31\n23:59 00:00 two words here\n09:00 10:30 \n";
    let t = parse_time(input).unwrap();
    assert_eq!(t.to_text(), input);
}

#[test]
fn to_text_of_built_log() {
    let t = Time {
        entries: vec![DateBlock {
            date: Date {
                year: 1822,
                month: 1,
                day: 15,
            },
            entries: vec![TimeEntry {
                date: Date {
                    year: 1822,
                    month: 1,
                    day: 15,
                },
                start: ClockTime { hour: 3, minute: 0 },
                end: ClockTime { hour: 4, minute: 0 },
                description: String::from("Sketched ideas for a new machine"),
            }],
        }],
    };
    assert_eq!(
        t.to_text(),
        "1822-01-15\n03:00 04:00 Sketched ideas for a new machine\n"
    );
}

#[test]
fn entry_to_text_zero_pads() {
    let e = TimeEntry {
        date: Date {
            year: 2020,
            month: 6,
            day: 1,
        },
        start: ClockTime { hour: 3, minute: 7 },
        end: ClockTime {
            hour: 14,
            minute: 0,
        },
        description: String::from("short nap"),
    };
    assert_eq!(e.to_text(), "03:07 14:00 short nap");
}

#[test]
fn parse_times_are_wall_clock_valid() {
    let t = parse_time("2020-06-01\n9:59 23:00 long day\n").unwrap();
    let e = &t.entries[0].entries[0];
    assert_eq!(e.start, ClockTime { hour: 9, minute: 59 });
    assert_eq!(
        e.end,
        ClockTime {
            hour: 23,
            minute: 0
        }
    );
    assert_eq!(
        e.date,
        Date {
            year: 2020,
            month: 6,
            day: 1
        }
    );
}

#[test]
fn last_line_without_newline_is_parsed() {
    let t = parse_time("2020-01-01\n01:00 02:00 tail").unwrap();
    assert_eq!(t.entries[0].entries[0].description, "tail");
}
