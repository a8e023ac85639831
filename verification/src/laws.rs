//! The laws the parser and renderer obey, stated over the specification
//! functions and proved once and for all: how duration extraction
//! succeeds and fails, that skipped lines change nothing, that entries
//! before a date header are dropped, and that rendering a canonical log
//! is inverted by parsing.

use vstd::prelude::*;

use vstd::arithmetic::div_mod::lemma_div_denominator;
use vstd::arithmetic::div_mod::lemma_div_is_ordered;
use vstd::arithmetic::div_mod::lemma_div_pos_is_pos;
use vstd::arithmetic::div_mod::lemma_fundamental_div_mod;
use vstd::arithmetic::div_mod::lemma_mod_bound;

use crate::model::BlockV;
use crate::model::ClockTime;
use crate::model::Date;
use crate::model::Duration;
use crate::model::EntryV;
use crate::model::TimeError;
use crate::parse::date_of_str;
use crate::parse::is_comment_line;
use crate::parse::lemma_log_index_of_is;
use crate::parse::log_insert;
use crate::parse::spec_find_duration;
use crate::parse::spec_line_step;
use crate::parse::spec_parse;
use crate::parse::spec_parse_lines;
use crate::parse::time_of_str;
use crate::parse::valid_date_str;
use crate::parse::valid_time_str;
use crate::render::spec_entry_line;
use crate::render::spec_render_date;
use crate::render::spec_render_entries;
use crate::render::spec_render_log;
use crate::render::spec_render_time;
use crate::text::digit_char;
use crate::text::digit_val;
use crate::text::find_from;
use crate::text::is_digit_char;
use crate::text::is_ws_char;
use crate::text::lemma_digit_char_val;
use crate::text::lemma_find_from;
use crate::text::lemma_find_from_is;
use crate::text::lemma_spec_lines_append;
use crate::text::lemma_spec_lines_single;
use crate::text::lemma_trim_drop_leading_ws;
use crate::text::lemma_trimmed_ends;
use crate::text::spec_lines;
use crate::text::trim_spec;

verus! {

/// On a line whose first space stands at `i` closing a valid time token
/// and whose second space stands at `j` closing another, extraction
/// returns exactly those two times and the offset `j` of the second
/// space.
pub proof fn lemma_extract_valid_entry(l: Seq<char>, i: int, j: int)
    requires
        0 <= i < j < l.len(),
        l[i] == ' ',
        l[j] == ' ',
        forall|k: int| 0 <= k < i ==> l[k] != ' ',
        forall|k: int| i < k < j ==> l[k] != ' ',
        i >= 4,
        j >= 9,
        valid_time_str(l.subrange(0, i)),
        valid_time_str(l.subrange(i + 1, j)),
    ensures
        spec_find_duration(l) == Ok::<(int, Duration), TimeError>(
            (
                j,
                Duration {
                    start: time_of_str(l.subrange(0, i)),
                    end: time_of_str(l.subrange(i + 1, j)),
                },
            ),
        ),
{
    lemma_find_from_is(l, ' ', 0, i);
    lemma_find_from_is(l, ' ', i + 1, j);
}

/// A line with fewer than two spaces fails with the neither-found error.
/// The one proviso: a sole space must stand at index 4 or later and close
/// a valid time token, else the start-time checks fire first.
pub proof fn lemma_extract_fewer_than_two_spaces(l: Seq<char>)
    requires
        forall|k1: int, k2: int| 0 <= k1 < k2 < l.len() ==> l[k1] != ' ' || l[k2] != ' ',
        forall|k: int|
            0 <= k < l.len() && l[k] == ' ' ==> k >= 4 && valid_time_str(l.subrange(0, k)),
    ensures
        spec_find_duration(l) == Err::<(int, Duration), TimeError>(TimeError::TimesNotFound),
{
    lemma_find_from(l, ' ', 0);
    let i = find_from(l, ' ', 0);
    if i < l.len() {
        lemma_find_from(l, ' ', i + 1);
        let j = find_from(l, ' ', i + 1);
        assert(j == l.len()) by {
            if j < l.len() {
                assert(l[i] == ' ' && l[j] == ' ');
            }
        }
    }
}

/// A first space before index 4 fails with the start-time error, whatever
/// else the line holds.
pub proof fn lemma_extract_early_first_space(l: Seq<char>, i: int)
    requires
        0 <= i < 4,
        i < l.len(),
        l[i] == ' ',
        forall|k: int| 0 <= k < i ==> l[k] != ' ',
    ensures
        spec_find_duration(l) == Err::<(int, Duration), TimeError>(TimeError::StartTimeNotFound),
{
    lemma_find_from_is(l, ' ', 0, i);
}

/// When the first space closes a valid start token but the second space
/// stands before index 9, extraction fails with the end-time error.
pub proof fn lemma_extract_early_second_space(l: Seq<char>, i: int, j: int)
    requires
        0 <= i < j < l.len(),
        l[i] == ' ',
        l[j] == ' ',
        forall|k: int| 0 <= k < i ==> l[k] != ' ',
        forall|k: int| i < k < j ==> l[k] != ' ',
        i >= 4,
        valid_time_str(l.subrange(0, i)),
        j < 9,
    ensures
        spec_find_duration(l) == Err::<(int, Duration), TimeError>(TimeError::EndTimeNotFound),
{
    lemma_find_from_is(l, ' ', 0, i);
    lemma_find_from_is(l, ' ', i + 1, j);
}

/// Comment lines and blank lines change nothing and raise nothing,
/// whatever follows `//` and whatever the parser state.
pub proof fn lemma_skip_comment_blank(l: Seq<char>, date: Option<Date>, log: Seq<BlockV>)
    requires
        is_comment_line(l) || l.len() == 0,
    ensures
        spec_line_step(l, date, log) == Ok::<(Option<Date>, Seq<BlockV>), TimeError>((date, log)),
{
}

/// Before any date header, no line grows the log: a date line only sets
/// the date, everything else is skipped or dropped. An entry line whose
/// extraction succeeds raises no error either.
pub proof fn lemma_entries_before_date_dropped(l: Seq<char>, log: Seq<BlockV>)
    ensures
        spec_line_step(l, None, log) matches Ok((d2, log2)) ==> log2 == log,
        !is_comment_line(l) && l.len() >= 9 && !valid_date_str(l) && spec_find_duration(l) is Ok
            ==> spec_line_step(l, None, log) is Ok,
{
}

/// An entry is canonical for date `d` when it carries `d`, valid times,
/// and a trimmed description free of newlines.
pub open spec fn canonical_entry(e: EntryV, d: Date) -> bool {
    &&& e.date == d
    &&& e.start.wf()
    &&& e.end.wf()
    &&& trim_spec(e.description) == e.description
    &&& forall|k: int| 0 <= k < e.description.len() ==> e.description[k] != '\n'
}

/// A canonical block: a valid date and at least one canonical entry.
pub open spec fn canonical_block(b: BlockV) -> bool {
    &&& b.date.wf()
    &&& b.entries.len() > 0
    &&& forall|i: int| 0 <= i < b.entries.len() ==> canonical_entry(#[trigger] b.entries[i], b.date)
}

/// A canonical log: canonical blocks, no date twice.
pub open spec fn canonical_log(log: Seq<BlockV>) -> bool {
    &&& forall|i: int| 0 <= i < log.len() ==> canonical_block(#[trigger] log[i])
    &&& forall|i: int, j: int| 0 <= i < j < log.len() ==> log[i].date != log[j].date
}

/// The two decimal digits of a value below one hundred.
proof fn lemma_two_digits(v: int)
    requires
        0 <= v <= 99,
    ensures
        0 <= v / 10 <= 9,
        0 <= v % 10 <= 9,
        10 * (v / 10) + v % 10 == v,
{
    lemma_fundamental_div_mod(v, 10);
    lemma_mod_bound(v, 10);
    lemma_div_pos_is_pos(v, 10);
    lemma_div_is_ordered(v, 99, 10);
}

/// The four decimal digits of a value below ten thousand.
proof fn lemma_four_digits(y: int)
    requires
        0 <= y <= 9999,
    ensures
        0 <= y / 1000 <= 9,
        0 <= (y / 100) % 10 <= 9,
        0 <= (y / 10) % 10 <= 9,
        0 <= y % 10 <= 9,
        1000 * (y / 1000) + 100 * ((y / 100) % 10) + 10 * ((y / 10) % 10) + y % 10 == y,
{
    lemma_fundamental_div_mod(y, 10);
    lemma_fundamental_div_mod(y / 10, 10);
    lemma_div_denominator(y, 10, 10);
    lemma_fundamental_div_mod(y / 100, 10);
    lemma_div_denominator(y, 100, 10);
    lemma_mod_bound(y, 10);
    lemma_mod_bound(y / 10, 10);
    lemma_mod_bound(y / 100, 10);
    lemma_div_pos_is_pos(y, 10);
    lemma_div_pos_is_pos(y, 100);
    lemma_div_pos_is_pos(y, 1000);
    lemma_div_is_ordered(y, 9999, 1000);
    assert(y / 100 == 10 * (y / 1000) + (y / 100) % 10);
    assert(y / 10 == 10 * (y / 100) + (y / 10) % 10);
    assert(y == 10 * (y / 10) + y % 10);
}

/// A rendered time is five plain characters that parse back to the time.
proof fn lemma_render_time_token(t: ClockTime)
    requires
        t.wf(),
    ensures
        spec_render_time(t).len() == 5,
        valid_time_str(spec_render_time(t)),
        time_of_str(spec_render_time(t)) == t,
        forall|k: int|
            0 <= k < 5 ==> (#[trigger] spec_render_time(t)[k]) != ' ' && spec_render_time(t)[k]
                != '\n' && spec_render_time(t)[k] != '/' && spec_render_time(t)[k] != '\r',
{
    let h = t.hour as int;
    let m = t.minute as int;
    lemma_two_digits(h);
    lemma_two_digits(m);
    lemma_digit_char_val(h / 10);
    lemma_digit_char_val(h % 10);
    lemma_digit_char_val(m / 10);
    lemma_digit_char_val(m % 10);
}

/// A rendered date is ten plain characters forming a valid header that
/// parses back to the date.
proof fn lemma_render_date_token(d: Date)
    requires
        d.wf(),
    ensures
        spec_render_date(d).len() == 10,
        valid_date_str(spec_render_date(d)),
        date_of_str(spec_render_date(d)) == d,
        forall|k: int|
            0 <= k < 10 ==> (#[trigger] spec_render_date(d)[k]) != ' ' && spec_render_date(d)[k]
                != '\n' && spec_render_date(d)[k] != '/' && spec_render_date(d)[k] != '\r',
{
    let y = d.year as int;
    let m = d.month as int;
    let dd = d.day as int;
    lemma_four_digits(y);
    lemma_two_digits(m);
    lemma_two_digits(dd);
    lemma_digit_char_val(y / 1000);
    lemma_digit_char_val((y / 100) % 10);
    lemma_digit_char_val((y / 10) % 10);
    lemma_digit_char_val(y % 10);
    lemma_digit_char_val(m / 10);
    lemma_digit_char_val(m % 10);
    lemma_digit_char_val(dd / 10);
    lemma_digit_char_val(dd % 10);
}

/// A date header line sets the current date and touches nothing else.
proof fn lemma_step_date_line(d: Date, date: Option<Date>, log: Seq<BlockV>)
    requires
        d.wf(),
    ensures
        spec_line_step(spec_render_date(d), date, log) == Ok::<
            (Option<Date>, Seq<BlockV>),
            TimeError,
        >((Some(d), log)),
{
    lemma_render_date_token(d);
    let l = spec_render_date(d);
    assert(!is_comment_line(l));
    assert(l.len() == 10);
}

/// A canonical entry line under current date `d` appends exactly that
/// entry to the block keyed by `d`.
proof fn lemma_step_entry_line(e: EntryV, d: Date, log: Seq<BlockV>)
    requires
        canonical_entry(e, d),
    ensures
        spec_line_step(spec_entry_line(e), Some(d), log) == Ok::<
            (Option<Date>, Seq<BlockV>),
            TimeError,
        >((Some(d), log_insert(log, d, e))),
{
    lemma_render_time_token(e.start);
    lemma_render_time_token(e.end);
    let l = spec_entry_line(e);
    let rs = spec_render_time(e.start);
    let re = spec_render_time(e.end);
    let desc = e.description;
    assert(l.len() == 12 + desc.len());
    assert(l[0] == rs[0]);
    assert(!is_comment_line(l));
    assert(!valid_date_str(l));
    assert(forall|k: int| 0 <= k < 5 ==> l[k] == rs[k]);
    assert(l[5] == ' ');
    assert(forall|k: int| 6 <= k < 11 ==> l[k] == re[k - 6]);
    assert(l[11] == ' ');
    lemma_find_from_is(l, ' ', 0, 5);
    lemma_find_from_is(l, ' ', 6, 11);
    assert(l.subrange(0, 5) =~= rs);
    assert(l.subrange(6, 11) =~= re);
    assert(spec_find_duration(l) == Ok::<(int, Duration), TimeError>(
        (11, Duration { start: e.start, end: e.end }),
    ));
    let tail = l.subrange(11, l.len() as int);
    assert(tail.len() == 1 + desc.len());
    assert(tail[0] == ' ');
    assert(is_ws_char(' '));
    lemma_trim_drop_leading_ws(tail);
    assert(tail.subrange(1, tail.len() as int) =~= desc);
    assert(trim_spec(tail) == desc);
    assert(EntryV { date: d, start: e.start, end: e.end, description: trim_spec(tail) } == e);
}

/// The entry lines of a block, one sequence of characters per entry.
pub open spec fn entry_lines(es: Seq<EntryV>) -> Seq<Seq<char>> {
    Seq::new(es.len(), |i: int| spec_entry_line(es[i]))
}

/// The lines of a rendered log: each block's date line, then its entry
/// lines.
pub open spec fn log_lines(log: Seq<BlockV>) -> Seq<Seq<char>>
    decreases log.len(),
{
    if log.len() == 0 {
        Seq::empty()
    } else {
        seq![spec_render_date(log[0].date)] + entry_lines(log[0].entries) + log_lines(
            log.subrange(1, log.len() as int),
        )
    }
}

/// Rendered entries end with a newline.
proof fn lemma_render_entries_last_nl(es: Seq<EntryV>)
    requires
        es.len() > 0,
    ensures
        spec_render_entries(es).len() > 0,
        spec_render_entries(es)[spec_render_entries(es).len() - 1] == '\n',
    decreases es.len(),
{
    reveal_with_fuel(spec_render_entries, 2);
    let tail = es.subrange(1, es.len() as int);
    if es.len() == 1 {
        assert(tail =~= Seq::<EntryV>::empty());
    } else {
        lemma_render_entries_last_nl(tail);
    }
}

/// A canonical entry line holds no newline and does not end in a
/// carriage return.
proof fn lemma_entry_line_plain(e: EntryV, d: Date)
    requires
        canonical_entry(e, d),
    ensures
        spec_entry_line(e).len() == 12 + e.description.len(),
        forall|k: int| 0 <= k < spec_entry_line(e).len() ==> (#[trigger] spec_entry_line(e)[k])
            != '\n',
        spec_entry_line(e)[spec_entry_line(e).len() - 1] != '\r',
{
    lemma_render_time_token(e.start);
    lemma_render_time_token(e.end);
    let l = spec_entry_line(e);
    assert forall|k: int| 0 <= k < l.len() implies (#[trigger] l[k]) != '\n' by {
        if k < 5 {
            assert(l[k] == spec_render_time(e.start)[k]);
        } else if k == 5 {
            assert(l[k] == ' ');
        } else if k < 11 {
            assert(l[k] == spec_render_time(e.end)[k - 6]);
        } else if k == 11 {
            assert(l[k] == ' ');
        } else {
            assert(l[k] == e.description[k - 12]);
        }
    }
    if e.description.len() > 0 {
        lemma_trimmed_ends(e.description);
        assert(l[l.len() - 1] == e.description[e.description.len() - 1]);
        assert(is_ws_char('\r'));
    } else {
        assert(l[l.len() - 1] == ' ');
    }
}

/// The lines of rendered entries are exactly the entry lines.
proof fn lemma_lines_render_entries(es: Seq<EntryV>, d: Date)
    requires
        forall|i: int| 0 <= i < es.len() ==> canonical_entry(#[trigger] es[i], d),
    ensures
        spec_lines(spec_render_entries(es)) == entry_lines(es),
    decreases es.len(),
{
    if es.len() == 0 {
        assert(entry_lines(es) =~= Seq::<Seq<char>>::empty());
    } else {
        let tail = es.subrange(1, es.len() as int);
        let l0 = spec_entry_line(es[0]);
        lemma_entry_line_plain(es[0], d);
        let x = l0 + seq!['\n'];
        let y = spec_render_entries(tail);
        assert(spec_render_entries(es) =~= x + y);
        lemma_spec_lines_append(x, y);
        lemma_spec_lines_single(l0);
        assert(forall|i: int| 0 <= i < tail.len() ==> canonical_entry(#[trigger] tail[i], d));
        lemma_lines_render_entries(tail, d);
        assert(entry_lines(es) =~= seq![l0] + entry_lines(tail));
        assert(spec_lines(spec_render_entries(es)) =~= entry_lines(es));
    }
}

/// The lines of a rendered log are exactly its date and entry lines.
proof fn lemma_lines_render_log(log: Seq<BlockV>)
    requires
        forall|i: int| 0 <= i < log.len() ==> canonical_block(#[trigger] log[i]),
    ensures
        spec_lines(spec_render_log(log)) == log_lines(log),
    decreases log.len(),
{
    if log.len() > 0 {
        let b = log[0];
        let tail = log.subrange(1, log.len() as int);
        lemma_render_date_token(b.date);
        let dl = spec_render_date(b.date);
        let x1 = dl + seq!['\n'];
        let er = spec_render_entries(b.entries);
        let rr = spec_render_log(tail);
        assert(spec_render_log(log) =~= x1 + (er + rr));
        lemma_spec_lines_append(x1, er + rr);
        lemma_spec_lines_single(dl);
        lemma_render_entries_last_nl(b.entries);
        lemma_spec_lines_append(er, rr);
        lemma_lines_render_entries(b.entries, b.date);
        assert(forall|i: int| 0 <= i < tail.len() ==> canonical_block(#[trigger] tail[i]));
        lemma_lines_render_log(tail);
        assert(spec_lines(spec_render_log(log)) =~= log_lines(log));
    }
}

/// Parsing the entry lines of a block appends the entries, one by one,
/// to the block keyed by the current date at the end of the log.
proof fn lemma_parse_entry_lines(
    es: Seq<EntryV>,
    tail: Seq<Seq<char>>,
    d: Date,
    front: Seq<BlockV>,
    done: Seq<EntryV>,
)
    requires
        forall|i: int| 0 <= i < es.len() ==> canonical_entry(#[trigger] es[i], d),
        forall|i: int| 0 <= i < front.len() ==> (#[trigger] front[i]).date != d,
    ensures
        spec_parse_lines(
            entry_lines(es) + tail,
            Some(d),
            front.push(BlockV { date: d, entries: done }),
        ) == spec_parse_lines(tail, Some(d), front.push(BlockV { date: d, entries: done + es })),
    decreases es.len(),
{
    let acc = front.push(BlockV { date: d, entries: done });
    if es.len() == 0 {
        assert(entry_lines(es) + tail =~= tail);
        assert(done + es =~= done);
    } else {
        let lines = entry_lines(es) + tail;
        assert(lines[0] == spec_entry_line(es[0]));
        lemma_step_entry_line(es[0], d, acc);
        lemma_log_index_of_is(acc, d, front.len() as int);
        let acc2 = front.push(BlockV { date: d, entries: done.push(es[0]) });
        assert(log_insert(acc, d, es[0]) =~~= acc2);
        let es_tail = es.subrange(1, es.len() as int);
        assert(lines.subrange(1, lines.len() as int) =~= entry_lines(es_tail) + tail);
        assert(forall|i: int| 0 <= i < es_tail.len() ==> canonical_entry(#[trigger] es_tail[i], d));
        lemma_parse_entry_lines(es_tail, tail, d, front, done.push(es[0]));
        assert(done.push(es[0]) + es_tail =~= done + es);
    }
}

/// Parsing the lines of canonical blocks appends exactly those blocks.
proof fn lemma_parse_block_lines(rest: Seq<BlockV>, date: Option<Date>, front: Seq<BlockV>)
    requires
        forall|i: int| 0 <= i < rest.len() ==> canonical_block(#[trigger] rest[i]),
        forall|i: int, j: int| 0 <= i < j < rest.len() ==> rest[i].date != rest[j].date,
        forall|i: int, j: int|
            0 <= i < front.len() && 0 <= j < rest.len() ==> (#[trigger] front[i]).date != (
            #[trigger] rest[j]).date,
    ensures
        spec_parse_lines(log_lines(rest), date, front) == Ok::<Seq<BlockV>, TimeError>(
            front + rest,
        ),
    decreases rest.len(),
{
    if rest.len() == 0 {
        assert(front + rest =~= front);
    } else {
        let b = rest[0];
        let tail_blocks = rest.subrange(1, rest.len() as int);
        let es = b.entries;
        let d = b.date;
        let lines = log_lines(rest);
        assert(lines.len() > 0);
        assert(lines[0] == spec_render_date(d));
        lemma_step_date_line(d, date, front);
        let lines1 = entry_lines(es) + log_lines(tail_blocks);
        assert(lines.subrange(1, lines.len() as int) =~= lines1);
        assert(spec_parse_lines(lines, date, front) == spec_parse_lines(lines1, Some(d), front));
        let e0 = es[0];
        assert(canonical_entry(e0, d));
        assert(lines1[0] == spec_entry_line(e0));
        lemma_step_entry_line(e0, d, front);
        lemma_log_index_of_is(front, d, front.len() as int);
        let acc1 = front.push(BlockV { date: d, entries: seq![e0] });
        assert(log_insert(front, d, e0) =~~= acc1);
        let es_tail = es.subrange(1, es.len() as int);
        let lines2 = entry_lines(es_tail) + log_lines(tail_blocks);
        assert(lines1.subrange(1, lines1.len() as int) =~= lines2);
        assert(spec_parse_lines(lines1, Some(d), front) == spec_parse_lines(lines2, Some(d), acc1));
        assert(forall|i: int| 0 <= i < es_tail.len() ==> canonical_entry(#[trigger] es_tail[i], d));
        lemma_parse_entry_lines(es_tail, log_lines(tail_blocks), d, front, seq![e0]);
        assert(seq![e0] + es_tail =~= es);
        assert(front.push(BlockV { date: d, entries: seq![e0] + es_tail }) =~~= front.push(b));
        assert(spec_parse_lines(lines2, Some(d), acc1) == spec_parse_lines(
            log_lines(tail_blocks),
            Some(d),
            front.push(b),
        ));
        assert(forall|i: int| 0 <= i < tail_blocks.len() ==> canonical_block(
            #[trigger] tail_blocks[i],
        ));
        lemma_parse_block_lines(tail_blocks, Some(d), front.push(b));
        assert(front.push(b) + tail_blocks =~= front + rest);
    }
}

/// Round trip: text in canonical form is exactly the rendering of a
/// canonical log, and parsing such a rendering yields that log back.
/// Rendering what was parsed therefore reproduces the text byte for
/// byte.
pub proof fn lemma_parse_render_roundtrip(log: Seq<BlockV>)
    requires
        canonical_log(log),
    ensures
        spec_parse(spec_render_log(log)) == Ok::<Seq<BlockV>, TimeError>(log),
{
    lemma_lines_render_log(log);
    lemma_parse_block_lines(log, None, Seq::empty());
    assert(Seq::<BlockV>::empty() + log =~= log);
}

} // verus!
