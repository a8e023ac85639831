//! The line parser: the grammar of time tokens, date headers and entry
//! lines as specification functions, and the verified executable parser
//! that turns a whole text into a [`Time`] log.

use vstd::prelude::*;

use crate::model::BlockV;
use crate::model::ClockTime;
use crate::model::Date;
use crate::model::DateBlock;
use crate::model::Duration;
use crate::model::EntryV;
use crate::model::Time;
use crate::model::TimeEntry;
use crate::model::TimeError;
use crate::model::days_in_month;
use crate::model::log_wf;
use crate::text::digit_val;
use crate::text::find_from;
use crate::text::is_digit_char;
use crate::text::is_ws;
use crate::text::is_ws_char;
use crate::text::lemma_find_from_is;
use crate::text::lemma_first_non_ws_is;
use crate::text::lemma_last_non_ws_is;
use crate::text::lemma_suffix_lines;
use crate::text::spec_lines;
use crate::text::trim_spec;

verus! {

/// A valid time token: `H:MM` or `HH:MM`, hour below 24, minute below 60,
/// the minute always two digits.
pub open spec fn valid_time_str(s: Seq<char>) -> bool {
    ||| (s.len() == 4 && is_digit_char(s[0]) && s[1] == ':' && is_digit_char(s[2])
        && is_digit_char(s[3]) && 10 * digit_val(s[2]) + digit_val(s[3]) < 60)
    ||| (s.len() == 5 && is_digit_char(s[0]) && is_digit_char(s[1]) && s[2] == ':'
        && is_digit_char(s[3]) && is_digit_char(s[4]) && 10 * digit_val(s[0]) + digit_val(s[1])
        < 24 && 10 * digit_val(s[3]) + digit_val(s[4]) < 60)
}

/// The wall-clock time a valid time token denotes.
pub open spec fn time_of_str(s: Seq<char>) -> ClockTime {
    if s.len() == 4 {
        ClockTime { hour: digit_val(s[0]) as u32, minute: (10 * digit_val(s[2]) + digit_val(s[3])) as u32 }
    } else {
        ClockTime {
            hour: (10 * digit_val(s[0]) + digit_val(s[1])) as u32,
            minute: (10 * digit_val(s[3]) + digit_val(s[4])) as u32,
        }
    }
}

/// The year named by the first four characters of a date header.
pub open spec fn year_of_str(s: Seq<char>) -> int {
    1000 * digit_val(s[0]) + 100 * digit_val(s[1]) + 10 * digit_val(s[2]) + digit_val(s[3])
}

/// A valid date header: exactly `YYYY-MM-DD`, naming a real calendar date.
pub open spec fn valid_date_str(s: Seq<char>) -> bool {
    &&& s.len() == 10
    &&& is_digit_char(s[0]) && is_digit_char(s[1]) && is_digit_char(s[2]) && is_digit_char(s[3])
    &&& s[4] == '-'
    &&& is_digit_char(s[5]) && is_digit_char(s[6])
    &&& s[7] == '-'
    &&& is_digit_char(s[8]) && is_digit_char(s[9])
    &&& 1 <= 10 * digit_val(s[5]) + digit_val(s[6]) <= 12
    &&& 1 <= 10 * digit_val(s[8]) + digit_val(s[9]) <= days_in_month(
        year_of_str(s),
        10 * digit_val(s[5]) + digit_val(s[6]),
    )
}

/// The date a valid date header denotes.
pub open spec fn date_of_str(s: Seq<char>) -> Date {
    Date {
        year: year_of_str(s) as u32,
        month: (10 * digit_val(s[5]) + digit_val(s[6])) as u32,
        day: (10 * digit_val(s[8]) + digit_val(s[9])) as u32,
    }
}

/// A comment line: the first two characters are `//`.
pub open spec fn is_comment_line(l: Seq<char>) -> bool {
    l.len() >= 2 && l[0] == '/' && l[1] == '/'
}

/// What duration extraction returns on a line: the scan counts spaces;
/// the first space must stand at index 4 or later and close a valid time
/// token, the second at index 9 or later and close a second one. The
/// offset of the second space is handed back with the two times.
pub open spec fn spec_find_duration(l: Seq<char>) -> Result<(int, Duration), TimeError> {
    let i = find_from(l, ' ', 0);
    if i == l.len() {
        Err(TimeError::TimesNotFound)
    } else if i < 4 {
        Err(TimeError::StartTimeNotFound)
    } else if !valid_time_str(l.subrange(0, i)) {
        Err(TimeError::TimeParse)
    } else {
        let j = find_from(l, ' ', i + 1);
        if j == l.len() {
            Err(TimeError::TimesNotFound)
        } else if j < 9 {
            Err(TimeError::EndTimeNotFound)
        } else if !valid_time_str(l.subrange(i + 1, j)) {
            Err(TimeError::TimeParse)
        } else {
            Ok(
                (
                    j,
                    Duration {
                        start: time_of_str(l.subrange(0, i)),
                        end: time_of_str(l.subrange(i + 1, j)),
                    },
                ),
            )
        }
    }
}

/// The first block index holding date `d`, or `log.len()` when none does.
pub open spec fn log_index_of(log: Seq<BlockV>, d: Date) -> int
    decreases log.len(),
{
    if log.len() == 0 {
        0
    } else if log[0].date == d {
        0
    } else {
        1 + log_index_of(log.subrange(1, log.len() as int), d)
    }
}

pub proof fn lemma_log_index_of(log: Seq<BlockV>, d: Date)
    ensures
        0 <= log_index_of(log, d) <= log.len(),
        log_index_of(log, d) < log.len() ==> log[log_index_of(log, d)].date == d,
        forall|k: int| 0 <= k < log_index_of(log, d) ==> (#[trigger] log[k]).date != d,
    decreases log.len(),
{
    if log.len() > 0 && log[0].date != d {
        let sub = log.subrange(1, log.len() as int);
        lemma_log_index_of(sub, d);
        assert forall|k: int| 0 <= k < log_index_of(log, d) implies (#[trigger] log[k]).date
            != d by {
            if k >= 1 {
                assert(log[k] == sub[k - 1]);
            }
        }
    }
}

pub proof fn lemma_log_index_of_is(log: Seq<BlockV>, d: Date, i: int)
    requires
        0 <= i <= log.len(),
        forall|k: int| 0 <= k < i ==> (#[trigger] log[k]).date != d,
        i < log.len() ==> log[i].date == d,
    ensures
        log_index_of(log, d) == i,
    decreases log.len(),
{
    if log.len() > 0 && log[0].date != d {
        let sub = log.subrange(1, log.len() as int);
        assert(forall|k: int| 0 <= k < i - 1 ==> (#[trigger] sub[k]).date != d);
        lemma_log_index_of_is(sub, d, i - 1);
    }
}

/// Appending an entry to the log: into the block already keyed by its
/// date, or as a fresh block at the end.
pub open spec fn log_insert(log: Seq<BlockV>, d: Date, e: EntryV) -> Seq<BlockV> {
    let k = log_index_of(log, d);
    if k >= log.len() {
        log.push(BlockV { date: d, entries: seq![e] })
    } else {
        log.update(k, BlockV { date: d, entries: log[k].entries.push(e) })
    }
}

/// How one line changes the parser state: comments, blanks and short
/// lines are skipped, a date header becomes the current date, and any
/// other line must yield a duration, recorded under the current date or
/// silently dropped when no date has been seen yet.
pub open spec fn spec_line_step(l: Seq<char>, date: Option<Date>, log: Seq<BlockV>) -> Result<
    (Option<Date>, Seq<BlockV>),
    TimeError,
> {
    if is_comment_line(l) || l.len() == 0 {
        Ok((date, log))
    } else if l.len() < 9 {
        Ok((date, log))
    } else if valid_date_str(l) {
        Ok((Some(date_of_str(l)), log))
    } else {
        match spec_find_duration(l) {
            Err(e) => Err(e),
            Ok((j, dur)) => match date {
                None => Ok((None, log)),
                Some(d) => Ok(
                    (
                        date,
                        log_insert(
                            log,
                            d,
                            EntryV {
                                date: d,
                                start: dur.start,
                                end: dur.end,
                                description: trim_spec(l.subrange(j, l.len() as int)),
                            },
                        ),
                    ),
                ),
            },
        }
    }
}

/// Folding [`spec_line_step`] over a sequence of lines, aborting on the
/// first error.
pub open spec fn spec_parse_lines(
    lines: Seq<Seq<char>>,
    date: Option<Date>,
    log: Seq<BlockV>,
) -> Result<Seq<BlockV>, TimeError>
    decreases lines.len(),
{
    if lines.len() == 0 {
        Ok(log)
    } else {
        match spec_line_step(lines[0], date, log) {
            Ok((d2, log2)) => spec_parse_lines(lines.subrange(1, lines.len() as int), d2, log2),
            Err(e) => Err(e),
        }
    }
}

/// The meaning of parsing a whole text: its lines folded from an empty
/// log with no current date.
pub open spec fn spec_parse(s: Seq<char>) -> Result<Seq<BlockV>, TimeError> {
    spec_parse_lines(spec_lines(s), None, Seq::empty())
}

/// The numeric value of a decimal digit character, or `None`.
fn digit_of(c: char) -> (r: Option<u32>)
    ensures
        match r {
            Some(v) => is_digit_char(c) && v == digit_val(c) && v <= 9,
            None => !is_digit_char(c),
        },
{
    let u = c as u32;
    if 48 <= u && u <= 57 {
        Some(u - 48)
    } else {
        None
    }
}

/// Parses the characters of `s` in `from..to` as a time token.
fn parse_clock(s: &str, from: usize, to: usize) -> (r: Option<ClockTime>)
    requires
        from <= to <= s@.len(),
    ensures
        match r {
            Some(t) => valid_time_str(s@.subrange(from as int, to as int)) && t == time_of_str(
                s@.subrange(from as int, to as int),
            ) && t.wf(),
            None => !valid_time_str(s@.subrange(from as int, to as int)),
        },
{
    let ghost tok = s@.subrange(from as int, to as int);
    let w = to - from;
    if w == 4 {
        let o0 = digit_of(s.get_char(from));
        let c1 = s.get_char(from + 1);
        let o2 = digit_of(s.get_char(from + 2));
        let o3 = digit_of(s.get_char(from + 3));
        match (o0, o2, o3) {
            (Some(h), Some(m1), Some(m2)) => {
                let m = 10 * m1 + m2;
                if c1 == ':' && m < 60 {
                    Some(ClockTime { hour: h, minute: m })
                } else {
                    None
                }
            },
            _ => None,
        }
    } else if w == 5 {
        let o0 = digit_of(s.get_char(from));
        let o1 = digit_of(s.get_char(from + 1));
        let c2 = s.get_char(from + 2);
        let o3 = digit_of(s.get_char(from + 3));
        let o4 = digit_of(s.get_char(from + 4));
        match (o0, o1, o3, o4) {
            (Some(h1), Some(h2), Some(m1), Some(m2)) => {
                let h = 10 * h1 + h2;
                let m = 10 * m1 + m2;
                if c2 == ':' && h < 24 && m < 60 {
                    Some(ClockTime { hour: h, minute: m })
                } else {
                    None
                }
            },
            _ => None,
        }
    } else {
        None
    }
}

/// The number of days of month `m` in year `y`.
pub fn month_length(y: u32, m: u32) -> (r: u32)
    ensures
        r == days_in_month(y as int, m as int),
{
    if m == 2 {
        if y % 4 == 0 && (y % 100 != 0 || y % 400 == 0) {
            29
        } else {
            28
        }
    } else if m == 4 || m == 6 || m == 9 || m == 11 {
        30
    } else {
        31
    }
}

/// Parses a whole line as a strict `YYYY-MM-DD` calendar date header.
pub fn parse_date(line: &str) -> (r: Option<Date>)
    ensures
        match r {
            Some(d) => valid_date_str(line@) && d == date_of_str(line@) && d.wf(),
            None => !valid_date_str(line@),
        },
{
    if line.unicode_len() != 10 {
        return None;
    }
    let o0 = digit_of(line.get_char(0));
    let o1 = digit_of(line.get_char(1));
    let o2 = digit_of(line.get_char(2));
    let o3 = digit_of(line.get_char(3));
    let dash1 = line.get_char(4);
    let o5 = digit_of(line.get_char(5));
    let o6 = digit_of(line.get_char(6));
    let dash2 = line.get_char(7);
    let o8 = digit_of(line.get_char(8));
    let o9 = digit_of(line.get_char(9));
    if dash1 != '-' || dash2 != '-' {
        return None;
    }
    match (o0, o1, o2, o3, o5, o6, o8, o9) {
        (Some(y0), Some(y1), Some(y2), Some(y3), Some(m0), Some(m1), Some(d0), Some(d1)) => {
            let y = 1000 * y0 + 100 * y1 + 10 * y2 + y3;
            let m = 10 * m0 + m1;
            let d = 10 * d0 + d1;
            if 1 <= m && m <= 12 && 1 <= d && d <= month_length(y, m) {
                Some(Date { year: y, month: m, day: d })
            } else {
                None
            }
        },
        _ => None,
    }
}

/// Extracts the start and end time of an entry line by counting spaces,
/// returning them with the offset of the second space. The contract is
/// exactly [`spec_find_duration`] on the line's characters.
pub fn find_duration(line: &str) -> (r: Result<(usize, Duration), TimeError>)
    ensures
        match r {
            Ok(p) => spec_find_duration(line@) == Ok::<(int, Duration), TimeError>(
                (p.0 as int, p.1),
            ) && p.0 < line@.len() && p.1.start.wf() && p.1.end.wf(),
            Err(e) => spec_find_duration(line@) == Err::<(int, Duration), TimeError>(e),
        },
{
    let n = line.unicode_len();
    let mut i: usize = 0;
    while i < n && line.get_char(i) != ' '
        invariant
            0 <= i <= n,
            n == line@.len(),
            forall|k: int| 0 <= k < i ==> line@[k] != ' ',
        decreases n - i,
    {
        i += 1;
    }
    proof {
        lemma_find_from_is(line@, ' ', 0, i as int);
    }
    if i == n {
        return Err(TimeError::TimesNotFound);
    }
    if i < 4 {
        return Err(TimeError::StartTimeNotFound);
    }
    let start = match parse_clock(line, 0, i) {
        Some(t) => t,
        None => {
            return Err(TimeError::TimeParse);
        },
    };
    let mut j: usize = i + 1;
    while j < n && line.get_char(j) != ' '
        invariant
            i + 1 <= j <= n,
            n == line@.len(),
            forall|k: int| i + 1 <= k < j ==> line@[k] != ' ',
        decreases n - j,
    {
        j += 1;
    }
    proof {
        lemma_find_from_is(line@, ' ', i as int + 1, j as int);
    }
    if j == n {
        return Err(TimeError::TimesNotFound);
    }
    if j < 9 {
        return Err(TimeError::EndTimeNotFound);
    }
    let end = match parse_clock(line, i + 1, j) {
        Some(t) => t,
        None => {
            return Err(TimeError::TimeParse);
        },
    };
    Ok((j, Duration { start, end }))
}

/// Copies `s` without its leading and trailing whitespace.
pub fn trim_str(s: &str) -> (r: String)
    ensures
        r@ == trim_spec(s@),
{
    let n = s.unicode_len();
    let mut a: usize = 0;
    while a < n && is_ws(s.get_char(a))
        invariant
            0 <= a <= n,
            n == s@.len(),
            forall|k: int| 0 <= k < a ==> is_ws_char(s@[k]),
        decreases n - a,
    {
        a += 1;
    }
    proof {
        lemma_first_non_ws_is(s@, 0, a as int);
    }
    if a == n {
        proof {
            assert(trim_spec(s@) =~= Seq::<char>::empty());
        }
        return String::new();
    }
    let mut b: usize = n;
    while is_ws(s.get_char(b - 1))
        invariant
            a < b <= n,
            n == s@.len(),
            !is_ws_char(s@[a as int]),
            forall|k: int| b <= k < n ==> is_ws_char(s@[k]),
        decreases b,
    {
        b -= 1;
    }
    proof {
        lemma_last_non_ws_is(s@, n as int, b as int - 1);
        assert(trim_spec(s@) =~= s@.subrange(a as int, b as int));
    }
    let piece = s.substring_char(a, b);
    piece.to_owned()
}

/// Appends `entry` under date `d`: into the block already holding `d`,
/// or as a new block at the end, exactly as [`log_insert`] says.
fn log_push(t: &mut Time, d: Date, entry: TimeEntry)
    requires
        entry@.date == d,
        entry@.wf(),
        log_wf(old(t)@),
    ensures
        final(t)@ == log_insert(old(t)@, d, entry@),
        log_wf(final(t)@),
{
    let ghost log0 = t@;
    let ghost ev = entry@;
    let len = t.entries.len();
    let mut k: usize = 0;
    while k < len && !(t.entries[k].date == d)
        invariant
            0 <= k <= len,
            len == t.entries.len(),
            *t == *old(t),
            forall|x: int| 0 <= x < k ==> (#[trigger] t@[x]).date != d,
        decreases len - k,
    {
        k += 1;
    }
    proof {
        lemma_log_index_of_is(log0, d, k as int);
    }
    if k == len {
        let mut es: Vec<TimeEntry> = Vec::new();
        es.push(entry);
        let ghost bnew = BlockV { date: d, entries: seq![ev] };
        assert((DateBlock { date: d, entries: es })@ =~~= bnew) by {
            assert(Seq::new(es@.len(), |i: int| es@[i]@) =~= seq![ev]);
        }
        t.entries.push(DateBlock { date: d, entries: es });
        assert(t@ =~~= log_insert(log0, d, ev));
    } else {
        let mut b = t.entries.remove(k);
        let ghost bold = log0[k as int];
        b.entries.push(entry);
        let ghost bnew = BlockV { date: d, entries: bold.entries.push(ev) };
        assert(b@ =~~= bnew) by {
            assert(b.date == d);
            assert(Seq::new(b.entries@.len(), |i: int| b.entries@[i]@) =~= bold.entries.push(ev));
        }
        t.entries.insert(k, b);
        assert(t@ =~~= log_insert(log0, d, ev)) by {
            assert(forall|x: int| 0 <= x < log0.len() && x != k ==> t@[x] =~~= log0[x]);
        }
    }
    proof {
        lemma_log_insert_wf(log0, d, ev);
    }
}

/// Inserting a well-formed entry keeps the log well-formed.
pub proof fn lemma_log_insert_wf(log: Seq<BlockV>, d: Date, e: EntryV)
    requires
        log_wf(log),
        e.wf(),
        e.date == d,
    ensures
        log_wf(log_insert(log, d, e)),
{
    lemma_log_index_of(log, d);
    let k = log_index_of(log, d);
    let r = log_insert(log, d, e);
    if k >= log.len() {
        assert(forall|i: int| 0 <= i < log.len() ==> r[i] == log[i]);
        assert(r[log.len() as int].wf()) by {
            assert(r[log.len() as int].entries =~= seq![e]);
        }
    } else {
        let bnew = BlockV { date: d, entries: log[k].entries.push(e) };
        assert(bnew.wf()) by {
            assert(forall|i: int| 0 <= i < log[k].entries.len() ==> bnew.entries[i]
                == log[k].entries[i]);
        }
        assert(forall|i: int| 0 <= i < r.len() && i != k ==> r[i] == log[i]);
        assert(forall|i: int| 0 <= i < r.len() ==> (#[trigger] r[i]).date == log[i].date);
    }
}

/// Parses a whole `time.txt` text into a log grouped by date.
///
/// Comment (`//`) and blank lines are skipped, as is any line shorter
/// than nine characters. A strict `YYYY-MM-DD` line opens a date block.
/// Every other line must carry two times; the text after the second
/// space, trimmed, is the description. Entries before the first date
/// header are dropped. The first extraction error aborts the parse.
#[verifier::rlimit(50)]
pub fn parse_time(contents: &str) -> (r: Result<Time, TimeError>)
    ensures
        match r {
            Ok(t) => spec_parse(contents@) == Ok::<Seq<BlockV>, TimeError>(t@) && t.wf(),
            Err(e) => spec_parse(contents@) == Err::<Seq<BlockV>, TimeError>(e),
        },
{
    let ghost s = contents@;
    let n = contents.unicode_len();
    let mut t = Time { entries: Vec::new() };
    let mut date: Option<Date> = None;
    let mut c: usize = 0;
    proof {
        assert(s.subrange(0, n as int) =~= s);
        assert(t@ =~= Seq::<BlockV>::empty());
    }
    while c < n
        invariant
            0 <= c <= n,
            n == s.len(),
            s == contents@,
            spec_parse(s) == spec_parse_lines(spec_lines(s.subrange(c as int, n as int)), date, t@),
            log_wf(t@),
            date matches Some(d) ==> d.wf(),
        decreases n - c,
    {
        let ghost suffix = s.subrange(c as int, n as int);
        let ghost date0 = date;
        let ghost log0 = t@;
        let mut i: usize = c;
        while i < n && contents.get_char(i) != '\n'
            invariant
                c <= i <= n,
                n == s.len(),
                s == contents@,
                forall|k: int| c <= k < i ==> s[k] != '\n',
            decreases n - i,
        {
            i += 1;
        }
        let mut e: usize = i;
        if i < n && e > c && contents.get_char(e - 1) == '\r' {
            e = e - 1;
        }
        let line = contents.substring_char(c, e);
        let ghost lv = line@;
        let ghost rest = if i < n {
            spec_lines(s.subrange(i as int + 1, n as int))
        } else {
            Seq::<Seq<char>>::empty()
        };
        proof {
            lemma_suffix_lines(s, c as int, i as int, e as int);
            assert(spec_lines(suffix) == seq![lv] + rest);
            assert((seq![lv] + rest)[0] == lv);
            assert((seq![lv] + rest).subrange(1, (seq![lv] + rest).len() as int) =~= rest);
        }
        let llen = line.unicode_len();
        if llen == 0 || (llen >= 2 && line.get_char(0) == '/' && line.get_char(1) == '/') {
            proof {
                assert(spec_line_step(lv, date0, log0) == Ok::<(Option<Date>, Seq<BlockV>), TimeError>((date0, log0)));
            }
        } else if llen < 9 {
            proof {
                assert(spec_line_step(lv, date0, log0) == Ok::<(Option<Date>, Seq<BlockV>), TimeError>((date0, log0)));
            }
        } else {
            let parsed = parse_date(line);
            match parsed {
                Some(d) => {
                    date = Some(d);
                    proof {
                        assert(spec_line_step(lv, date0, log0) == Ok::<
                            (Option<Date>, Seq<BlockV>),
                            TimeError,
                        >((Some(d), log0)));
                    }
                },
                None => {
                    match find_duration(line) {
                        Err(err) => {
                            proof {
                                assert(spec_line_step(lv, date0, log0) == Err::<
                                    (Option<Date>, Seq<BlockV>),
                                    TimeError,
                                >(err));
                                assert(spec_parse(s) == Err::<Seq<BlockV>, TimeError>(err));
                            }
                            return Err(err);
                        },
                        Ok((off, dur)) => {
                            let rest_str = line.substring_char(off, llen);
                            let desc = trim_str(rest_str);
                            proof {
                                assert(desc@ == trim_spec(lv.subrange(off as int, lv.len() as int)));
                            }
                            match date {
                                None => {
                                    proof {
                                        assert(spec_line_step(lv, date0, log0) == Ok::<
                                            (Option<Date>, Seq<BlockV>),
                                            TimeError,
                                        >((None, log0)));
                                    }
                                },
                                Some(d) => {
                                    let entry = TimeEntry {
                                        date: d,
                                        start: dur.start,
                                        end: dur.end,
                                        description: desc,
                                    };
                                    log_push(&mut t, d, entry);
                                    proof {
                                        assert(spec_line_step(lv, date0, log0) == Ok::<
                                            (Option<Date>, Seq<BlockV>),
                                            TimeError,
                                        >((date0, t@)));
                                    }
                                },
                            }
                        },
                    }
                },
            }
        }
        proof {
            assert(spec_parse_lines(spec_lines(suffix), date0, log0) == spec_parse_lines(
                rest,
                date,
                t@,
            ));
        }
        c = if i < n {
            i + 1
        } else {
            n
        };
        proof {
            if i < n {
                assert(s.subrange(c as int, n as int) =~= s.subrange(i as int + 1, n as int));
            } else {
                assert(s.subrange(c as int, n as int) =~= Seq::<char>::empty());
                assert(spec_lines(s.subrange(c as int, n as int)) =~= rest);
            }
        }
    }
    proof {
        assert(s.subrange(c as int, n as int) =~= Seq::<char>::empty());
    }
    Ok(t)
}

} // verus!
