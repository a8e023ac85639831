//! Rendering a log back to `time.txt` text: each date on its own
//! `YYYY-MM-DD` line, each entry below it as `HH:MM HH:MM description`,
//! every field zero-padded and every line newline-terminated.

use vstd::prelude::*;

use crate::model::BlockV;
use crate::model::ClockTime;
use crate::model::Date;
use crate::model::EntryV;
use crate::model::Time;
use crate::text::digit_char;

verus! {

/// A time as `HH:MM`, zero-padded.
pub open spec fn spec_render_time(t: ClockTime) -> Seq<char> {
    seq![
        digit_char(t.hour as int / 10),
        digit_char(t.hour as int % 10),
        ':',
        digit_char(t.minute as int / 10),
        digit_char(t.minute as int % 10),
    ]
}

/// A date as `YYYY-MM-DD`, zero-padded.
pub open spec fn spec_render_date(d: Date) -> Seq<char> {
    seq![
        digit_char(d.year as int / 1000),
        digit_char((d.year as int / 100) % 10),
        digit_char((d.year as int / 10) % 10),
        digit_char(d.year as int % 10),
        '-',
        digit_char(d.month as int / 10),
        digit_char(d.month as int % 10),
        '-',
        digit_char(d.day as int / 10),
        digit_char(d.day as int % 10),
    ]
}

/// An entry line, without its newline.
pub open spec fn spec_entry_line(e: EntryV) -> Seq<char> {
    spec_render_time(e.start) + seq![' '] + spec_render_time(e.end) + seq![' '] + e.description
}

/// The newline-terminated entry lines of a block, in order.
pub open spec fn spec_render_entries(es: Seq<EntryV>) -> Seq<char>
    decreases es.len(),
{
    if es.len() == 0 {
        Seq::empty()
    } else {
        spec_entry_line(es[0]) + seq!['\n'] + spec_render_entries(es.subrange(1, es.len() as int))
    }
}

/// A block: its date line, then its entry lines.
pub open spec fn spec_render_block(b: BlockV) -> Seq<char> {
    spec_render_date(b.date) + seq!['\n'] + spec_render_entries(b.entries)
}

/// The whole log, block by block in stored order.
pub open spec fn spec_render_log(log: Seq<BlockV>) -> Seq<char>
    decreases log.len(),
{
    if log.len() == 0 {
        Seq::empty()
    } else {
        spec_render_block(log[0]) + spec_render_log(log.subrange(1, log.len() as int))
    }
}

/// Rendering entries peels appended entries off the back.
pub proof fn lemma_render_entries_push(es: Seq<EntryV>, e: EntryV)
    ensures
        spec_render_entries(es.push(e)) == spec_render_entries(es) + spec_entry_line(e)
            + seq!['\n'],
    decreases es.len(),
{
    reveal_with_fuel(spec_render_entries, 3);
    let all = es.push(e);
    if es.len() == 0 {
        assert(all.subrange(1, all.len() as int) =~= Seq::<EntryV>::empty());
        assert(spec_render_entries(all) =~= spec_render_entries(es) + spec_entry_line(e)
            + seq!['\n']);
    } else {
        assert(all[0] == es[0]);
        assert(all.subrange(1, all.len() as int) =~= es.subrange(1, es.len() as int).push(e));
        lemma_render_entries_push(es.subrange(1, es.len() as int), e);
        assert(spec_render_entries(all) == spec_entry_line(es[0]) + seq!['\n']
            + (spec_render_entries(es.subrange(1, es.len() as int)) + spec_entry_line(e)
            + seq!['\n']));
        assert(spec_render_entries(es) == spec_entry_line(es[0]) + seq!['\n']
            + spec_render_entries(es.subrange(1, es.len() as int)));
        assert(spec_render_entries(all) =~= spec_render_entries(es) + spec_entry_line(e)
            + seq!['\n']);
    }
}

/// Rendering a log peels appended blocks off the back.
pub proof fn lemma_render_log_push(log: Seq<BlockV>, b: BlockV)
    ensures
        spec_render_log(log.push(b)) == spec_render_log(log) + spec_render_block(b),
    decreases log.len(),
{
    reveal_with_fuel(spec_render_log, 3);
    let all = log.push(b);
    if log.len() == 0 {
        assert(all.subrange(1, all.len() as int) =~= Seq::<BlockV>::empty());
        assert(spec_render_log(all) =~= spec_render_log(log) + spec_render_block(b));
    } else {
        assert(all[0] == log[0]);
        assert(all.subrange(1, all.len() as int) =~= log.subrange(1, log.len() as int).push(b));
        lemma_render_log_push(log.subrange(1, log.len() as int), b);
        assert(spec_render_log(all) == spec_render_block(log[0]) + (spec_render_log(
            log.subrange(1, log.len() as int),
        ) + spec_render_block(b)));
        assert(spec_render_log(log) == spec_render_block(log[0]) + spec_render_log(
            log.subrange(1, log.len() as int),
        ));
        assert(spec_render_log(all) =~= spec_render_log(log) + spec_render_block(b));
    }
}

/// The decimal digit character for a value in `0..=9`.
fn digit_str(d: u32) -> (r: &'static str)
    requires
        d <= 9,
    ensures
        r@ == seq![digit_char(d as int)],
{
    if d == 0 {
        proof {
            reveal_strlit("0");
            assert("0"@ =~= seq![digit_char(0)]);
        }
        "0"
    } else if d == 1 {
        proof {
            reveal_strlit("1");
            assert("1"@ =~= seq![digit_char(1)]);
        }
        "1"
    } else if d == 2 {
        proof {
            reveal_strlit("2");
            assert("2"@ =~= seq![digit_char(2)]);
        }
        "2"
    } else if d == 3 {
        proof {
            reveal_strlit("3");
            assert("3"@ =~= seq![digit_char(3)]);
        }
        "3"
    } else if d == 4 {
        proof {
            reveal_strlit("4");
            assert("4"@ =~= seq![digit_char(4)]);
        }
        "4"
    } else if d == 5 {
        proof {
            reveal_strlit("5");
            assert("5"@ =~= seq![digit_char(5)]);
        }
        "5"
    } else if d == 6 {
        proof {
            reveal_strlit("6");
            assert("6"@ =~= seq![digit_char(6)]);
        }
        "6"
    } else if d == 7 {
        proof {
            reveal_strlit("7");
            assert("7"@ =~= seq![digit_char(7)]);
        }
        "7"
    } else if d == 8 {
        proof {
            reveal_strlit("8");
            assert("8"@ =~= seq![digit_char(8)]);
        }
        "8"
    } else {
        proof {
            reveal_strlit("9");
            assert("9"@ =~= seq![digit_char(9)]);
        }
        "9"
    }
}

/// Appends `v` as exactly two decimal digits.
fn push_two(out: &mut String, v: u32)
    requires
        v <= 99,
    ensures
        final(out)@ == old(out)@ + seq![digit_char(v as int / 10), digit_char(v as int % 10)],
{
    out.append(digit_str(v / 10));
    out.append(digit_str(v % 10));
    assert(out@ =~= old(out)@ + seq![digit_char(v as int / 10), digit_char(v as int % 10)]);
}

/// Appends a time as `HH:MM`.
fn push_time(out: &mut String, t: ClockTime)
    requires
        t.hour <= 99,
        t.minute <= 99,
    ensures
        final(out)@ == old(out)@ + spec_render_time(t),
{
    push_two(out, t.hour);
    out.append(":");
    push_two(out, t.minute);
    proof {
        reveal_strlit(":");
        assert(out@ =~= old(out)@ + spec_render_time(t));
    }
}

/// Appends a date as `YYYY-MM-DD`.
fn push_date(out: &mut String, d: Date)
    requires
        d.year <= 9999,
        d.month <= 99,
        d.day <= 99,
    ensures
        final(out)@ == old(out)@ + spec_render_date(d),
{
    out.append(digit_str(d.year / 1000));
    out.append(digit_str((d.year / 100) % 10));
    out.append(digit_str((d.year / 10) % 10));
    out.append(digit_str(d.year % 10));
    out.append("-");
    push_two(out, d.month);
    out.append("-");
    push_two(out, d.day);
    proof {
        reveal_strlit("-");
        assert(out@ =~= old(out)@ + spec_render_date(d));
    }
}

impl crate::model::TimeEntry {
    /// Renders the entry as `HH:MM HH:MM description`, both times
    /// zero-padded, the description verbatim.
    pub fn to_text(&self) -> (r: String)
        requires
            self.start.wf(),
            self.end.wf(),
        ensures
            r@ == spec_entry_line(self@),
    {
        let mut out = String::new();
        push_time(&mut out, self.start);
        out.append(" ");
        push_time(&mut out, self.end);
        out.append(" ");
        out.append(self.description.as_str());
        proof {
            reveal_strlit(" ");
            assert(out@ =~= spec_entry_line(self@));
        }
        out
    }
}

impl Time {
    /// Renders the log back to text, block by block in stored order, each
    /// date line followed by its zero-padded entry lines.
    pub fn to_text(&self) -> (r: String)
        requires
            self.wf(),
        ensures
            r@ == spec_render_log(self@),
    {
        let ghost log = self@;
        let mut out = String::new();
        proof {
            assert(log.subrange(0, 0) =~= Seq::<BlockV>::empty());
        }
        let mut bi: usize = 0;
        while bi < self.entries.len()
            invariant
                0 <= bi <= self.entries.len(),
                log == self@,
                self.wf(),
                out@ == spec_render_log(log.subrange(0, bi as int)),
            decreases self.entries.len() - bi,
        {
            let b = &self.entries[bi];
            let ghost bv = log[bi as int];
            assert(bv.wf());
            push_date(&mut out, b.date);
            out.append("\n");
            proof {
                reveal_strlit("\n");
                assert(bv.entries.subrange(0, 0) =~= Seq::<EntryV>::empty());
                assert(out@ =~= spec_render_log(log.subrange(0, bi as int)) + spec_render_date(
                    bv.date,
                ) + seq!['\n'] + spec_render_entries(bv.entries.subrange(0, 0)));
            }
            let mut ei: usize = 0;
            while ei < b.entries.len()
                invariant
                    0 <= ei <= b.entries.len(),
                    log == self@,
                    self.wf(),
                    0 <= bi < self.entries.len(),
                    b == &self.entries[bi as int],
                    bv == log[bi as int],
                    out@ == spec_render_log(log.subrange(0, bi as int)) + spec_render_date(bv.date)
                        + seq!['\n'] + spec_render_entries(bv.entries.subrange(0, ei as int)),
                decreases b.entries.len() - ei,
            {
                let ghost out0 = out@;
                let en = &b.entries[ei];
                let ghost ev = bv.entries[ei as int];
                assert(en@ == ev);
                assert(ev.wf());
                let entry_text = en.to_text();
                out.append(entry_text.as_str());
                out.append("\n");
                proof {
                    reveal_strlit("\n");
                    assert(out@ =~= out0 + spec_entry_line(ev) + seq!['\n']);
                    assert(bv.entries.subrange(0, ei as int + 1) =~= bv.entries.subrange(
                        0,
                        ei as int,
                    ).push(ev));
                    lemma_render_entries_push(bv.entries.subrange(0, ei as int), ev);
                    assert(out@ =~= spec_render_log(log.subrange(0, bi as int)) + spec_render_date(
                        bv.date,
                    ) + seq!['\n'] + spec_render_entries(bv.entries.subrange(0, ei as int + 1)));
                }
                ei += 1;
            }
            proof {
                assert(bv.entries.subrange(0, b.entries.len() as int) =~= bv.entries);
                assert(log.subrange(0, bi as int + 1) =~= log.subrange(0, bi as int).push(bv));
                lemma_render_log_push(log.subrange(0, bi as int), bv);
                assert(out@ =~= spec_render_log(log.subrange(0, bi as int + 1)));
            }
            bi += 1;
        }
        proof {
            assert(log.subrange(0, self.entries.len() as int) =~= log);
        }
        out
    }
}

} // verus!
