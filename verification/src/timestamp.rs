//! How the selection screen writes the time a book was last opened.
use vstd::prelude::*;
use crate::cover::terminal::string_push_str;
use crate::page_layout::string_push;

verus! {

broadcast use vstd::string::group_string_axioms;

/// The UTC calendar date and clock time (year, month, day, hour, minute) that
/// `time::OffsetDateTime::from_unix_timestamp` gives for a Unix timestamp, or
/// `None` where it reports the timestamp out of range.
pub uninterp spec fn spec_utc_datetime(timestamp: i64) -> Option<(i32, u8, u8, u8, u8)>;

/// Calls `time::OffsetDateTime::from_unix_timestamp` and reads the year, the
/// month's number, the day, the hour and the minute of the result. Claimed of
/// it: the result is a function of the timestamp (named `spec_utc_datetime`);
/// timestamp 0 is 1970-01-01 00:00; the month lies in 1..=12, the day in
/// 1..=31, the hour in 0..24 and the minute in 0..60 as the crate documents,
/// and the year within the widest range the crate supports. Which timestamps
/// are out of range (it depends on the crate's `large-dates` feature) is left
/// unsaid.
#[verifier::external_body]
fn utc_datetime(timestamp: i64) -> (r: Option<(i32, u8, u8, u8, u8)>)
    ensures
        r == spec_utc_datetime(timestamp),
        timestamp == 0 ==> r == Some((1970i32, 1u8, 1u8, 0u8, 0u8)),
        r matches Some((y, mo, d, h, mi)) ==> -999_999 <= y <= 999_999 && 1 <= mo <= 12 && 1 <= d <= 31
            && h < 24 && mi < 60,
{
    match time::OffsetDateTime::from_unix_timestamp(timestamp) {
        Ok(t) => Some((t.year(), u8::from(t.month()), t.day(), t.hour(), t.minute())),
        Err(_) => None,
    }
}

/// The decimal digit `d`.
pub open spec fn digit_char(d: nat) -> char {
    ((d + 48) as u32) as char
}

/// `v` in decimal, without leading zeros.
pub open spec fn decimal(v: nat) -> Seq<char>
    decreases v,
{
    if v < 10 {
        seq![digit_char(v)]
    } else {
        decimal(v / 10).push(digit_char(v % 10))
    }
}

/// `s` with zeros in front up to `width` characters.
pub open spec fn zero_pad(s: Seq<char>, width: nat) -> Seq<char> {
    if s.len() >= width {
        s
    } else {
        Seq::new((width - s.len()) as nat, |i: int| '0') + s
    }
}

/// `v` in decimal zero-padded to `width` characters, the sign counted in the
/// width, as `{:0width$}` writes it.
pub open spec fn padded(v: int, width: nat) -> Seq<char> {
    if v >= 0 {
        zero_pad(decimal(v as nat), width)
    } else {
        seq!['-'] + zero_pad(decimal((-v) as nat), if width >= 1 { (width - 1) as nat } else { 0 })
    }
}

/// The text shown for a last-opened time: `never` for 0, `invalid` for a time
/// the calendar cannot hold, else `YYYY-MM-DD HH:MM UTC`.
pub open spec fn timestamp_text(timestamp: u64) -> Seq<char> {
    if timestamp == 0 {
        "never"@
    } else {
        match spec_utc_datetime(timestamp as i64) {
            None => "invalid"@,
            Some((y, mo, d, h, mi)) => padded(y as int, 4) + "-"@ + padded(mo as int, 2) + "-"@ + padded(
                d as int,
                2,
            ) + " "@ + padded(h as int, 2) + ":"@ + padded(mi as int, 2) + " UTC"@,
        }
    }
}

fn digit(d: u64) -> (c: char)
    requires
        d < 10,
    ensures
        c == digit_char(d as nat),
{
    if d == 0 { '0' } else if d == 1 { '1' } else if d == 2 { '2' } else if d == 3 { '3' }
    else if d == 4 { '4' } else if d == 5 { '5' } else if d == 6 { '6' } else if d == 7 { '7' }
    else if d == 8 { '8' } else { '9' }
}

fn decimal_chars(v: u64) -> (r: Vec<char>)
    ensures
        r@ == decimal(v as nat),
    decreases v,
{
    if v < 10 {
        vec![digit(v)]
    } else {
        let mut r = decimal_chars(v / 10);
        r.push(digit(v % 10));
        r
    }
}

/// Appends `v` zero-padded to `width` characters (the sign included).
fn push_padded(s: &mut String, v: i64, width: usize)
    requires
        v > i64::MIN,
    ensures
        final(s)@ == old(s)@ + padded(v as int, width as nat),
{
    let pad_to: usize = if v >= 0 { width } else if width >= 1 { width - 1 } else { 0 };
    let magnitude: u64 = if v >= 0 { v as u64 } else { (-v) as u64 };
    if v < 0 {
        string_push(s, '-');
    }
    let digits = decimal_chars(magnitude);
    let ghost before = s@;
    let mut k: usize = digits.len();
    while k < pad_to
        invariant
            digits.len() <= k <= if pad_to >= digits.len() { pad_to } else { digits.len() },
            s@ == before + Seq::new((k - digits.len()) as nat, |i: int| '0'),
        decreases pad_to - k,
    {
        string_push(s, '0');
        assert(before + Seq::new((k + 1 - digits.len()) as nat, |i: int| '0') =~= (before + Seq::new(
            (k - digits.len()) as nat,
            |i: int| '0',
        )).push('0'));
        k = k + 1;
    }
    let ghost padded_part = s@;
    let mut j: usize = 0;
    while j < digits.len()
        invariant
            j <= digits.len(),
            s@ == padded_part + digits@.take(j as int),
        decreases digits.len() - j,
    {
        string_push(s, digits[j]);
        assert(digits@.take(j + 1) =~= digits@.take(j as int).push(digits@[j as int]));
        j = j + 1;
    }
    proof {
        assert(digits@.take(digits@.len() as int) =~= digits@);
        let z = zero_pad(digits@, pad_to as nat);
        if digits@.len() >= pad_to {
            assert(Seq::new((k - digits.len()) as nat, |i: int| '0') =~= Seq::<char>::empty());
            assert(s@ =~= before + z);
        } else {
            assert(s@ =~= before + z);
        }
    }
}

/// The text shown for a last-opened time: `never` for 0, `invalid` for a time
/// the calendar cannot hold, else `YYYY-MM-DD HH:MM UTC`.
pub fn format_timestamp(timestamp: u64) -> (text: String)
    ensures
        text@ == timestamp_text(timestamp),
{
    if timestamp == 0 {
        let mut s = String::new();
        string_push_str(&mut s, "never");
        return s;
    }
    match utc_datetime(timestamp as i64) {
        None => {
            let mut s = String::new();
            string_push_str(&mut s, "invalid");
            s
        },
        Some((y, mo, d, h, mi)) => {
            let mut s = String::new();
            push_padded(&mut s, y as i64, 4);
            string_push_str(&mut s, "-");
            push_padded(&mut s, mo as i64, 2);
            string_push_str(&mut s, "-");
            push_padded(&mut s, d as i64, 2);
            string_push_str(&mut s, " ");
            push_padded(&mut s, h as i64, 2);
            string_push_str(&mut s, ":");
            push_padded(&mut s, mi as i64, 2);
            string_push_str(&mut s, " UTC");
            s
        },
    }
}

} // verus!
