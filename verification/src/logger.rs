//! The in-memory event log shown in the settings window: a sliding window of
//! the most recent entries, each stamped with the UTC time of day.
use vstd::prelude::*;
use std::collections::VecDeque;
use crate::clock::{since_epoch, sub_second_millis, whole_seconds};
use crate::text::push_char;

verus! {

/// One line of the event log.
#[derive(Clone)]
pub struct LogEntry {
    /// Time of day, "HH:MM:SS.mmm" (UTC).
    pub ts: String,
    pub level: String,
    pub msg: String,
}

/// How many entries the log keeps.
pub const LOG_CAPACITY: usize = 500;

/// The most recent log entries, oldest first, never more than [`LOG_CAPACITY`].
pub struct LogBuffer {
    entries: VecDeque<LogEntry>,
}

impl LogBuffer {
    /// The entries, oldest first.
    pub closed spec fn view(&self) -> Seq<LogEntry> {
        self.entries@
    }

    #[verifier::type_invariant]
    closed spec fn within_capacity(&self) -> bool {
        self.entries@.len() <= LOG_CAPACITY
    }

    /// The number of entries.
    pub fn len(&self) -> (r: usize)
        ensures
            r == self.view().len(),
            r <= LOG_CAPACITY,
    {
        proof {
            use_type_invariant(self);
        }
        self.entries.len()
    }

    /// The entry at `i`, counted from the oldest.
    pub fn get(&self, i: usize) -> (r: &LogEntry)
        requires
            i < self.view().len(),
        ensures
            *r == self.view()[i as int],
    {
        &self.entries[i]
    }
}

/// A copy of `e`.
pub fn copy_entry(e: &LogEntry) -> (r: LogEntry)
    ensures
        r == *e,
{
    LogEntry { ts: e.ts.clone(), level: e.level.clone(), msg: e.msg.clone() }
}

/// An empty log.
pub fn new_log() -> (r: LogBuffer)
    ensures
        r.view() == Seq::<LogEntry>::empty(),
{
    LogBuffer { entries: VecDeque::with_capacity(LOG_CAPACITY) }
}

/// The log after `entry` is added: the oldest entry goes when the log is full.
pub open spec fn after_push(entries: Seq<LogEntry>, entry: LogEntry) -> Seq<LogEntry> {
    if entries.len() >= LOG_CAPACITY {
        entries.drop_first().push(entry)
    } else {
        entries.push(entry)
    }
}

/// Records a message at `level`, stamped with the current time, and returns the entry.
pub fn push(log: &mut LogBuffer, level: &str, msg: String) -> (r: LogEntry)
    ensures
        final(log).view() == after_push(old(log).view(), r),
        r.level@ == level@,
        r.msg@ == msg@,
        is_clock_text(r.ts@),
{
    proof {
        use_type_invariant(&*log);
    }
    let entry = LogEntry { ts: now_utc(), level: level.to_owned(), msg };
    let kept = copy_entry(&entry);
    let mut entries: VecDeque<LogEntry> = VecDeque::new();
    std::mem::swap(&mut entries, &mut log.entries);
    if entries.len() >= LOG_CAPACITY {
        entries.pop_front();
    }
    entries.push_back(kept);
    std::mem::swap(&mut entries, &mut log.entries);
    entry
}

// ───────────────────────────── time stamps ─────────────────────────────

/// The decimal digit `d` as a character.
pub open spec fn digit(d: int) -> char {
    (('0' as int) + d) as char
}

/// `n` (below 100) in two decimal digits.
pub open spec fn two_digits(n: int) -> Seq<char> {
    seq![digit(n / 10), digit(n % 10)]
}

/// `n` (below 1000) in three decimal digits.
pub open spec fn three_digits(n: int) -> Seq<char> {
    seq![digit(n / 100), digit((n / 10) % 10), digit(n % 10)]
}

/// The UTC time of day `secs` seconds and `millis` milliseconds after the
/// epoch, as "HH:MM:SS.mmm".
pub open spec fn clock_text(secs: u64, millis: u32) -> Seq<char> {
    two_digits(((secs / 3600) % 24) as int) + seq![':'] + two_digits(((secs / 60) % 60) as int)
        + seq![':'] + two_digits((secs % 60) as int) + seq!['.'] + three_digits(millis as int)
}

/// `t` is the time-of-day text of some moment.
pub open spec fn is_clock_text(t: Seq<char>) -> bool {
    exists|secs: u64, millis: u32| millis < 1000 && t == clock_text(secs, millis)
}

fn digit_char(d: u64) -> (r: char)
    requires
        d < 10,
    ensures
        r == digit(d as int),
{
    let digits = vec!['0', '1', '2', '3', '4', '5', '6', '7', '8', '9'];
    assert(digits@[d as int] == digit(d as int)) by {
        assert(digits@ == seq![digit(0), digit(1), digit(2), digit(3), digit(4), digit(5), digit(6), digit(7), digit(8), digit(9)]);
    }
    digits[d as usize]
}

/// `secs` seconds and `millis` milliseconds after the epoch as "HH:MM:SS.mmm".
pub fn format_clock(secs: u64, millis: u32) -> (r: String)
    requires
        millis < 1000,
    ensures
        r@ == clock_text(secs, millis),
{
    let h: u64 = (secs / 3600) % 24;
    let m: u64 = (secs / 60) % 60;
    let s: u64 = secs % 60;
    let ms: u64 = millis as u64;
    let mut r = String::new();
    push_char(&mut r, digit_char(h / 10));
    push_char(&mut r, digit_char(h % 10));
    push_char(&mut r, ':');
    push_char(&mut r, digit_char(m / 10));
    push_char(&mut r, digit_char(m % 10));
    push_char(&mut r, ':');
    push_char(&mut r, digit_char(s / 10));
    push_char(&mut r, digit_char(s % 10));
    push_char(&mut r, '.');
    push_char(&mut r, digit_char(ms / 100));
    push_char(&mut r, digit_char((ms / 10) % 10));
    push_char(&mut r, digit_char(ms % 10));
    assert(r@ == clock_text(secs, millis));
    r
}

/// The current UTC time of day as "HH:MM:SS.mmm".
pub fn now_utc() -> (r: String)
    ensures
        is_clock_text(r@),
{
    let d = since_epoch();
    let secs: u64 = whole_seconds(&d);
    let millis: u32 = sub_second_millis(&d);
    format_clock(secs, millis)
}

/// The log is a sliding window: after an entry is added it holds at most
/// [`LOG_CAPACITY`] entries, ends with the new entry, and is the newest part of
/// the old entries followed by the new one.
pub proof fn law_log_window(entries: Seq<LogEntry>, e: LogEntry)
    requires
        entries.len() <= LOG_CAPACITY,
    ensures
        after_push(entries, e).len() <= LOG_CAPACITY,
        after_push(entries, e).last() == e,
        after_push(entries, e) == entries.push(e).skip(
            if entries.len() + 1 > LOG_CAPACITY {
                entries.len() + 1 - LOG_CAPACITY
            } else {
                0
            },
        ),
{
    if entries.len() >= LOG_CAPACITY {
        assert(entries.drop_first().push(e) == entries.push(e).skip(1));
    } else {
        assert(entries.push(e).skip(0) == entries.push(e));
    }
}

/// The log after the entries `es` were pushed, in order, onto an empty log.
pub open spec fn log_after(es: Seq<LogEntry>) -> Seq<LogEntry>
    decreases es.len(),
{
    if es.len() == 0 {
        seq![]
    } else {
        after_push(log_after(es.drop_last()), es.last())
    }
}

/// A push onto the log that `es` built (what [`push`] does to the log's view)
/// gives the log that `es` followed by the new entry builds; a new log is the
/// log of no entries.
pub proof fn law_push_extends_log(es: Seq<LogEntry>, e: LogEntry)
    ensures
        after_push(log_after(es), e) == log_after(es.push(e)),
        log_after(seq![]) == Seq::<LogEntry>::empty(),
{
    assert(es.push(e).drop_last() == es);
    assert(es.push(e).last() == e);
}

/// After any number of pushes onto a new log, the log holds the newest
/// [`LOG_CAPACITY`] entries pushed (all of them while there are fewer), oldest
/// first, in the order they were pushed.
pub proof fn law_log_keeps_newest(es: Seq<LogEntry>)
    ensures
        log_after(es) == es.skip(
            if es.len() > LOG_CAPACITY {
                es.len() - LOG_CAPACITY
            } else {
                0
            },
        ),
        log_after(es).len() == if es.len() > LOG_CAPACITY {
            LOG_CAPACITY as int
        } else {
            es.len() as int
        },
    decreases es.len(),
{
    if es.len() == 0 {
        assert(es.skip(0) == es);
    } else {
        let init = es.drop_last();
        let e = es.last();
        law_log_keeps_newest(init);
        let k0: int = if init.len() > LOG_CAPACITY {
            init.len() - LOG_CAPACITY
        } else {
            0
        };
        let prev = log_after(init);
        law_log_window(prev, e);
        assert(prev.push(e) == es.skip(k0));
        let d: int = if prev.len() + 1 > LOG_CAPACITY {
            prev.len() + 1 - LOG_CAPACITY
        } else {
            0
        };
        assert(es.skip(k0).skip(d) == es.skip(k0 + d));
    }
}

} // verus!
