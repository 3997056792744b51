//! Calendar dates and times of day as stored in FAT directory entries.
use vstd::prelude::*;

verus! {

/// A calendar date.
#[derive(Debug, Clone, Copy, PartialEq, Eq, Structural)]
pub struct Date {
    pub day: u8,
    pub month: u8,
    pub year: u16,
}

/// A time of day with millisecond precision.
#[derive(Debug, Clone, Copy, PartialEq, Eq, Structural)]
pub struct Time {
    pub millis: u16,
    pub seconds: u8,
    pub minutes: u8,
    pub hours: u8,
}

/// A date together with a time of day.
#[derive(Debug, Clone, Copy, PartialEq, Eq, Structural)]
pub struct DateTime {
    pub year: u16,
    pub month: u8,
    pub day: u8,
    pub hours: u8,
    pub minutes: u8,
    pub seconds: u8,
    pub millis: u16,
}

/// `t` advanced by `ms` milliseconds, carrying into seconds, minutes and hours
/// (the hour wraps around at 24).
pub open spec fn spec_add_millis(t: Time, ms: nat) -> Time {
    let total_ms = t.millis + ms;
    let total_s = t.seconds + total_ms / 1000;
    let total_m = t.minutes + total_s / 60;
    let total_h = t.hours + total_m / 60;
    Time {
        millis: (total_ms % 1000) as u16,
        seconds: (total_s % 60) as u8,
        minutes: (total_m % 60) as u8,
        hours: (total_h % 24) as u8,
    }
}

impl Time {
    /// Advances the time by `ms` milliseconds.
    pub fn add_millis(&mut self, ms: u32)
        ensures
            *final(self) == spec_add_millis(*old(self), ms as nat),
    {
        let total_ms: u64 = self.millis as u64 + ms as u64;
        let total_s: u64 = self.seconds as u64 + total_ms / 1000;
        let total_m: u64 = self.minutes as u64 + total_s / 60;
        let total_h: u64 = self.hours as u64 + total_m / 60;
        self.millis = (total_ms % 1000) as u16;
        self.seconds = (total_s % 60) as u8;
        self.minutes = (total_m % 60) as u8;
        self.hours = (total_h % 24) as u8;
    }
}

impl DateTime {
    pub fn from_date_and_time(date: Date, time: Time) -> (r: DateTime)
        ensures
            r.to_date_spec() == date,
            r.to_time_spec() == time,
    {
        DateTime {
            year: date.year,
            month: date.month,
            day: date.day,
            hours: time.hours,
            minutes: time.minutes,
            seconds: time.seconds,
            millis: time.millis,
        }
    }

    pub open spec fn to_date_spec(self) -> Date {
        Date { day: self.day, month: self.month, year: self.year }
    }

    pub open spec fn to_time_spec(self) -> Time {
        Time { millis: self.millis, seconds: self.seconds, minutes: self.minutes, hours: self.hours }
    }

    pub fn to_date(&self) -> (r: Date)
        ensures
            r == self.to_date_spec(),
    {
        Date { day: self.day, month: self.month, year: self.year }
    }

    pub fn to_time(&self) -> (r: Time)
        ensures
            r == self.to_time_spec(),
    {
        Time { millis: self.millis, seconds: self.seconds, minutes: self.minutes, hours: self.hours }
    }
}

/// Packed FAT date: bits 9..15 hold the year since 1980, bits 5..8 the month,
/// bits 0..4 the day.
pub open spec fn spec_raw_to_date(raw: u16) -> Date {
    Date {
        day: (raw % 32) as u8,
        month: ((raw / 32) % 16) as u8,
        year: (raw / 512 + 1980) as u16,
    }
}

/// Packed FAT time: bits 11..15 hold the hour, bits 5..10 the minute and
/// bits 0..4 the second divided by two.
pub open spec fn spec_raw_to_time(raw: u16) -> Time {
    Time {
        millis: 0,
        seconds: ((raw % 32) * 2) as u8,
        minutes: ((raw / 32) % 64) as u8,
        hours: (raw / 2048) as u8,
    }
}

pub open spec fn spec_time_to_raw(t: Time) -> u16 {
    ((t.hours % 32) * 2048 + (t.minutes % 64) * 32 + (t.seconds / 2) % 32) as u16
}

pub open spec fn spec_date_to_raw(d: Date) -> u16 {
    (((d.year - 1980) % 128) * 512 + (d.month % 16) * 32 + d.day % 32) as u16
}

pub fn raw_date_to_date(raw: u16) -> (d: Date)
    ensures
        d == spec_raw_to_date(raw),
{
    let year = raw / 512 + 1980;
    let month = ((raw / 32) % 16) as u8;
    let day = (raw % 32) as u8;
    Date { day, month, year }
}

pub fn raw_time_to_time(raw: u16) -> (t: Time)
    ensures
        t == spec_raw_to_time(raw),
{
    let hours = (raw / 2048) as u8;
    let minutes = ((raw / 32) % 64) as u8;
    let seconds = ((raw % 32) * 2) as u8;
    Time { millis: 0, seconds, minutes, hours }
}

pub fn time_to_raw_time(time: Time) -> (raw: u16)
    ensures
        raw == spec_time_to_raw(time),
{
    let hours = (time.hours as u16 % 32) * 2048;
    let minutes = (time.minutes as u16 % 64) * 32;
    let seconds = (time.seconds as u16 / 2) % 32;
    hours + minutes + seconds
}

pub fn date_to_raw_date(date: Date) -> (raw: u16)
    requires
        date.year >= 1980,
    ensures
        raw == spec_date_to_raw(date),
{
    let year = ((date.year - 1980) % 128) * 512;
    let month = (date.month as u16 % 16) * 32;
    let day = date.day as u16 % 32;
    year + month + day
}

/// Packing a representable date and unpacking it gives the date back.
pub proof fn lemma_date_roundtrip(d: Date)
    requires
        1980 <= d.year < 1980 + 128,
        d.month < 16,
        d.day < 32,
    ensures
        spec_raw_to_date(spec_date_to_raw(d)) == d,
{
}

/// Packing a representable time and unpacking it gives the time back, to the
/// two-second resolution of the format.
pub proof fn lemma_time_roundtrip(t: Time)
    requires
        t.hours < 32,
        t.minutes < 64,
        t.seconds < 64,
    ensures
        spec_raw_to_time(spec_time_to_raw(t)) == (Time {
            millis: 0,
            seconds: ((t.seconds / 2) * 2) as u8,
            minutes: t.minutes,
            hours: t.hours,
        }),
{
}

/// Unpacking a raw date and packing it again gives the same raw value.
pub proof fn lemma_raw_date_roundtrip(raw: u16)
    ensures
        spec_date_to_raw(spec_raw_to_date(raw)) == raw,
{
}

/// Unpacking a raw time and packing it again gives the same raw value.
pub proof fn lemma_raw_time_roundtrip(raw: u16)
    ensures
        spec_time_to_raw(spec_raw_to_time(raw)) == raw,
{
}

} // verus!
