//! Time descriptions: `t=` and the `r=` lines that follow it.

use crate::number::{decimal_chars, int_chars, push_decimal, push_int};
use crate::text::push_char;
use vstd::prelude::*;

verus! {

/// `t=<start-time> <stop-time>`
#[derive(Debug, Clone, Copy, Default, PartialEq, Eq, Structural)]
pub struct Timing {
    pub start_time: u64,
    pub stop_time: u64,
}

pub open spec fn timing_text(t: Timing) -> Seq<char> {
    decimal_chars(t.start_time as nat).push(' ') + decimal_chars(t.stop_time as nat)
}

impl Timing {
    pub fn to_string(&self) -> (r: String)
        ensures
            r@ == timing_text(*self),
    {
        let mut out = String::new();
        push_decimal(&mut out, self.start_time);
        push_char(&mut out, ' ');
        push_decimal(&mut out, self.stop_time);
        assert(out@ =~= timing_text(*self));
        out
    }
}

/// `r=<repeat interval> <active duration> <offsets from start-time>`, all in
/// seconds.
#[derive(Debug, Clone, Default, PartialEq, Eq)]
pub struct RepeatTime {
    pub interval: i64,
    pub duration: i64,
    pub offsets: Vec<i64>,
}

pub struct RepeatTimeView {
    pub interval: i64,
    pub duration: i64,
    pub offsets: Seq<i64>,
}

impl View for RepeatTime {
    type V = RepeatTimeView;

    open spec fn view(&self) -> RepeatTimeView {
        RepeatTimeView { interval: self.interval, duration: self.duration, offsets: self.offsets@ }
    }
}

/// Each offset with a space in front.
pub open spec fn offsets_text(offsets: Seq<i64>) -> Seq<char>
    decreases offsets.len(),
{
    if offsets.len() == 0 {
        seq![]
    } else {
        offsets_text(offsets.drop_last()).push(' ') + int_chars(offsets.last() as int)
    }
}

pub open spec fn repeat_time_text(r: RepeatTimeView) -> Seq<char> {
    int_chars(r.interval as int).push(' ') + int_chars(r.duration as int) + offsets_text(r.offsets)
}

impl RepeatTime {
    pub fn to_string(&self) -> (r: String)
        ensures
            r@ == repeat_time_text(self@),
    {
        let mut out = String::new();
        push_int(&mut out, self.interval);
        push_char(&mut out, ' ');
        push_int(&mut out, self.duration);
        let ghost head = out@;
        let mut i: usize = 0;
        while i < self.offsets.len()
            invariant
                i <= self.offsets.len(),
                out@ == head + offsets_text(self.offsets@.take(i as int)),
            decreases self.offsets.len() - i,
        {
            push_char(&mut out, ' ');
            push_int(&mut out, self.offsets[i]);
            i = i + 1;
            assert(self.offsets@.take(i as int).drop_last() =~= self.offsets@.take(i - 1));
            assert(out@ =~= head + offsets_text(self.offsets@.take(i as int)));
        }
        assert(self.offsets@.take(i as int) =~= self.offsets@);
        assert(out@ =~= repeat_time_text(self@));
        out
    }
}

/// A `t=` line with the `r=` lines under it.
#[derive(Debug, Clone, Default, PartialEq, Eq)]
pub struct TimeDescription {
    pub timing: Timing,
    pub repeat_times: Vec<RepeatTime>,
}

pub struct TimeDescriptionView {
    pub timing: Timing,
    pub repeat_times: Seq<RepeatTimeView>,
}

impl View for TimeDescription {
    type V = TimeDescriptionView;

    open spec fn view(&self) -> TimeDescriptionView {
        TimeDescriptionView {
            timing: self.timing,
            repeat_times: self.repeat_times@.map_values(|r: RepeatTime| r@),
        }
    }
}

} // verus!
