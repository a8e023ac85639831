//! The data model: calendar dates, wall-clock times, entries, and the
//! log that groups entries by date, with the well-formedness each type
//! keeps and the ghost view each exposes to contracts.

use vstd::prelude::*;

verus! {

/// A calendar date in the proleptic Gregorian calendar, held as plain
/// year, month and day numbers.
#[derive(Clone, Copy, PartialEq, Eq, Structural, Debug)]
pub struct Date {
    pub year: u32,
    pub month: u32,
    pub day: u32,
}

/// A naive wall-clock time of day, minute precision.
#[derive(Clone, Copy, PartialEq, Eq, Structural, Debug)]
pub struct ClockTime {
    pub hour: u32,
    pub minute: u32,
}

/// The start and end times extracted from an entry line, before the
/// description is known.
#[derive(Clone, Copy, PartialEq, Eq, Structural, Debug)]
pub struct Duration {
    pub start: ClockTime,
    pub end: ClockTime,
}

/// One time-tracked activity: a date, a start and end time, and a
/// free-text description.
#[derive(Debug)]
pub struct TimeEntry {
    pub date: Date,
    pub start: ClockTime,
    pub end: ClockTime,
    pub description: String,
}

/// The entries recorded under one date header, in source order.
#[derive(Debug)]
pub struct DateBlock {
    pub date: Date,
    pub entries: Vec<TimeEntry>,
}

/// A parsed log: date blocks in the order their first entry appeared,
/// no date occurring twice.
#[derive(Debug)]
pub struct Time {
    pub entries: Vec<DateBlock>,
}

/// The reasons a parse fails.
#[derive(Clone, Copy, PartialEq, Eq, Structural, Debug)]
pub enum TimeError {
    /// A time token is not a valid `H:MM` or `HH:MM` wall-clock time.
    TimeParse,
    /// The first space of an entry line stands before index 4.
    StartTimeNotFound,
    /// The second space of an entry line stands before index 9.
    EndTimeNotFound,
    /// An entry line holds fewer than two spaces.
    TimesNotFound,
}

impl TimeError {
    /// The human-readable message for this error.
    pub open spec fn spec_message(self) -> Seq<char> {
        match self {
            TimeError::TimeParse => "invalid time"@,
            TimeError::StartTimeNotFound => "Start time not found"@,
            TimeError::EndTimeNotFound => "End time not found"@,
            TimeError::TimesNotFound => "Neither start or end time not found"@,
        }
    }

    /// Renders the error as its message text.
    pub fn message(&self) -> (r: &'static str)
        ensures
            r@ == self.spec_message(),
    {
        match self {
            TimeError::TimeParse => "invalid time",
            TimeError::StartTimeNotFound => "Start time not found",
            TimeError::EndTimeNotFound => "End time not found",
            TimeError::TimesNotFound => "Neither start or end time not found",
        }
    }
}

/// The ghost value of an entry: the description as a character sequence.
pub ghost struct EntryV {
    pub date: Date,
    pub start: ClockTime,
    pub end: ClockTime,
    pub description: Seq<char>,
}

/// The ghost value of a date block.
pub ghost struct BlockV {
    pub date: Date,
    pub entries: Seq<EntryV>,
}

impl View for TimeEntry {
    type V = EntryV;

    open spec fn view(&self) -> EntryV {
        EntryV {
            date: self.date,
            start: self.start,
            end: self.end,
            description: self.description@,
        }
    }
}

impl View for DateBlock {
    type V = BlockV;

    open spec fn view(&self) -> BlockV {
        BlockV {
            date: self.date,
            entries: Seq::new(self.entries@.len(), |i: int| self.entries@[i]@),
        }
    }
}

impl View for Time {
    type V = Seq<BlockV>;

    open spec fn view(&self) -> Seq<BlockV> {
        Seq::new(self.entries@.len(), |i: int| self.entries@[i]@)
    }
}

/// Whether `y` is a leap year of the proleptic Gregorian calendar.
pub open spec fn is_leap_year(y: int) -> bool {
    y % 4 == 0 && (y % 100 != 0 || y % 400 == 0)
}

/// The number of days of month `m` in year `y`.
pub open spec fn days_in_month(y: int, m: int) -> int {
    if m == 2 {
        if is_leap_year(y) {
            29
        } else {
            28
        }
    } else if m == 4 || m == 6 || m == 9 || m == 11 {
        30
    } else {
        31
    }
}

impl ClockTime {
    /// A valid wall-clock time: hours below 24, minutes below 60.
    pub open spec fn wf(self) -> bool {
        self.hour < 24 && self.minute < 60
    }
}

impl Date {
    /// A valid calendar date whose year fits the four-digit `YYYY` form.
    pub open spec fn wf(self) -> bool {
        &&& self.year <= 9999
        &&& 1 <= self.month <= 12
        &&& 1 <= self.day <= days_in_month(self.year as int, self.month as int)
    }
}

impl EntryV {
    /// Valid date and times; the description free text.
    pub open spec fn wf(self) -> bool {
        self.date.wf() && self.start.wf() && self.end.wf()
    }
}

impl BlockV {
    /// A valid date whose entries all carry it and are themselves valid.
    pub open spec fn wf(self) -> bool {
        &&& self.date.wf()
        &&& forall|i: int| 0 <= i < self.entries.len() ==> (#[trigger] self.entries[i]).wf()
        &&& forall|i: int| 0 <= i < self.entries.len() ==> (#[trigger] self.entries[i]).date
            == self.date
    }
}

/// Every block valid, and no date heading two blocks.
pub open spec fn log_wf(log: Seq<BlockV>) -> bool {
    &&& forall|i: int| 0 <= i < log.len() ==> (#[trigger] log[i]).wf()
    &&& forall|i: int, j: int| 0 <= i < j < log.len() ==> log[i].date != log[j].date
}

impl Time {
    /// Every block valid, and no date heading two blocks.
    pub open spec fn wf(self) -> bool {
        log_wf(self@)
    }
}

} // verus!
