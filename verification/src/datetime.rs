//! Normalizes free-form date/time text, declared to be in a given source
//! zone, into date and time strings rendered in the fixed display zone
//! (America/Chicago, with its daylight-saving rules).

use crate::text::{dec_chars, push_char, append_decimal};
use chrono::{Datelike, Timelike};
use vstd::prelude::*;

verus! {

/// The source zone a textual date/time is declared to be in: the display
/// zone itself ("Local") or UTC.
#[derive(Debug)]
pub enum TZ {
    Local,
    UTC,
}

/// A wall-clock date and time in the display zone, as plain calendar fields.
#[derive(Clone, Copy, Debug)]
pub struct Civil {
    pub year: i32,
    pub month: u8,
    pub day: u8,
    pub hour: u8,
    pub minute: u8,
    pub second: u8,
}

/// Calendar-field ranges that chrono documents for any civil date/time.
pub open spec fn civil_in_range(c: Civil) -> bool {
    &&& 1 <= c.month <= 12
    &&& 1 <= c.day <= 31
    &&& c.hour <= 23
    &&& c.minute <= 59
    &&& c.second <= 59
}

/// Relies on dateparser::parse_with, reading the text as a date/time in
/// America/Chicago with the given default time of day, and on chrono-tz's
/// rendering of the parsed instant back in America/Chicago. For text
/// without a date part the parse consults the current date, so nothing
/// can relate the result to the text; the field ranges are the bounds
/// chrono documents for month, day, hour, minute and second.
#[verifier::external_body]
fn parse_civil_local(text: &str, h: u8, mi: u8, s: u8) -> (r: Option<Civil>)
    ensures
        r matches Some(c) ==> civil_in_range(c),
{
    let default_time = chrono::naive::NaiveTime::from_hms_opt(h as u32, mi as u32, s as u32)?;
    let utc = dateparser::parse_with(text, &chrono_tz::America::Chicago, default_time).ok()?;
    let local = utc.with_timezone(&chrono_tz::America::Chicago);
    Some(Civil {
        year: local.year(),
        month: local.month() as u8,
        day: local.day() as u8,
        hour: local.hour() as u8,
        minute: local.minute() as u8,
        second: local.second() as u8,
    })
}

/// Relies on dateparser::parse_with, reading the text as a UTC date/time
/// with the given default time of day, and on chrono-tz's rendering of the
/// parsed instant in America/Chicago; same caveats as the local variant.
#[verifier::external_body]
fn parse_civil_utc(text: &str, h: u8, mi: u8, s: u8) -> (r: Option<Civil>)
    ensures
        r matches Some(c) ==> civil_in_range(c),
{
    let default_time = chrono::naive::NaiveTime::from_hms_opt(h as u32, mi as u32, s as u32)?;
    let utc = dateparser::parse_with(text, &chrono::offset::Utc, default_time).ok()?;
    let local = utc.with_timezone(&chrono_tz::America::Chicago);
    Some(Civil {
        year: local.year(),
        month: local.month() as u8,
        day: local.day() as u8,
        hour: local.hour() as u8,
        minute: local.minute() as u8,
        second: local.second() as u8,
    })
}

/// A possibly negative number rendered in decimal.
pub open spec fn int_chars(n: int) -> Seq<char> {
    if n < 0 {
        seq!['-'] + dec_chars((-n) as nat)
    } else {
        dec_chars(n as nat)
    }
}

/// A number rendered in decimal, left-padded with '0' to two digits.
pub open spec fn pad2_chars(n: nat) -> Seq<char> {
    if n < 10 {
        seq!['0'] + dec_chars(n)
    } else {
        dec_chars(n)
    }
}

/// "year-month-day", the month and day zero-padded to two digits.
pub open spec fn spec_date_chars(c: Civil) -> Seq<char> {
    int_chars(c.year as int) + seq!['-'] + pad2_chars(c.month as nat) + seq!['-'] + pad2_chars(
        c.day as nat,
    )
}

/// "hour:minute:second", each zero-padded to two digits.
pub open spec fn spec_time_chars(c: Civil) -> Seq<char> {
    pad2_chars(c.hour as nat) + seq![':'] + pad2_chars(c.minute as nat) + seq![':'] + pad2_chars(
        c.second as nat,
    )
}

fn append_pad2(s: &mut String, n: u8)
    ensures
        final(s)@ == old(s)@ + pad2_chars(n as nat),
{
    if n < 10 {
        push_char(s, '0');
        proof {
            assert(old(s)@.push('0') =~= old(s)@ + seq!['0']);
        }
    }
    append_decimal(s, n as u64);
    proof {
        if n < 10 {
            assert(old(s)@ + seq!['0'] + dec_chars(n as nat) =~= old(s)@ + pad2_chars(n as nat));
        }
    }
}

/// The date of a civil date/time, rendered as the normalizer returns it.
pub fn format_date(c: &Civil) -> (r: String)
    ensures
        r@ == spec_date_chars(*c),
{
    let mut out = String::new();
    if c.year < 0 {
        push_char(&mut out, '-');
        let mag: u64 = (-(c.year as i64)) as u64;
        append_decimal(&mut out, mag);
        proof {
            assert(mag as nat == (-(c.year as int)) as nat);
            assert(Seq::<char>::empty().push('-') =~= seq!['-']);
        }
    } else {
        append_decimal(&mut out, c.year as u64);
        proof {
            assert(Seq::<char>::empty() + dec_chars(c.year as nat) =~= dec_chars(c.year as nat));
        }
    }
    proof {
        assert(out@ == int_chars(c.year as int));
    }
    push_char(&mut out, '-');
    append_pad2(&mut out, c.month);
    push_char(&mut out, '-');
    append_pad2(&mut out, c.day);
    proof {
        assert(out@ =~= spec_date_chars(*c));
    }
    out
}

/// The time of day of a civil date/time, rendered as the normalizer
/// returns it.
pub fn format_time(c: &Civil) -> (r: String)
    ensures
        r@ == spec_time_chars(*c),
{
    let mut out = String::new();
    append_pad2(&mut out, c.hour);
    push_char(&mut out, ':');
    append_pad2(&mut out, c.minute);
    push_char(&mut out, ':');
    append_pad2(&mut out, c.second);
    proof {
        assert(Seq::<char>::empty() + pad2_chars(c.hour as nat) =~= pad2_chars(c.hour as nat));
        assert(out@ =~= spec_time_chars(*c));
    }
    out
}

/// Parses the text as a date/time in the declared source zone, using noon
/// as the time of day when the text carries none, and renders the date of
/// that instant in the display zone. Unparseable text gives `None`; a
/// returned date is always the rendering of an in-range civil date.
pub fn to_local_date(datetime: &str, tz: &TZ) -> (r: Option<String>)
    ensures
        r matches Some(s) ==> exists|c: Civil|
            civil_in_range(c) && s@ == #[trigger] spec_date_chars(c),
{
    let civil = match tz {
        TZ::Local => parse_civil_local(datetime, 12, 0, 0),
        TZ::UTC => parse_civil_utc(datetime, 12, 0, 0),
    };
    match civil {
        Some(c) => {
            let rendered = format_date(&c);
            proof {
                assert(civil_in_range(c) && rendered@ == spec_date_chars(c));
            }
            Some(rendered)
        },
        None => None,
    }
}

/// Parses the text as a date/time in the declared source zone, using noon
/// as the default time of day, and renders the time of that instant in the
/// display zone. Unparseable text gives `None`; a returned time is always
/// the rendering of an in-range civil time.
pub fn to_local_time(datetime: &str, tz: &TZ) -> (r: Option<String>)
    ensures
        r matches Some(s) ==> exists|c: Civil|
            civil_in_range(c) && s@ == #[trigger] spec_time_chars(c),
{
    let civil = match tz {
        TZ::Local => parse_civil_local(datetime, 12, 0, 0),
        TZ::UTC => parse_civil_utc(datetime, 12, 0, 0),
    };
    match civil {
        Some(c) => {
            let rendered = format_time(&c);
            proof {
                assert(civil_in_range(c) && rendered@ == spec_time_chars(c));
            }
            Some(rendered)
        },
        None => None,
    }
}

} // verus!
