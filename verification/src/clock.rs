//! Calendar arithmetic for the VFS clock.
//!
//! The platform layer reads year, month, day, hour, minute and second from
//! the CMOS real-time clock; the conversion to the millisecond count since
//! the Julian epoch that SQLite expects is pure arithmetic and lives here.

use vstd::prelude::*;

verus! {

/// Convert a BCD-encoded byte to binary.
pub fn bcd_to_bin(v: u8) -> (r: u8)
    ensures
        r == (v & 0x0F) + (v >> 4) * 10,
{
    proof {
        assert((v & 0x0F) + (v >> 4) * 10 < 256) by (bit_vector);
    }
    (v & 0x0F) + (v >> 4) * 10
}

/// A raw RTC register value as a binary number: converted from BCD when
/// the clock runs in BCD mode, taken as-is otherwise.
pub open spec fn spec_rtc_field(v: u8, bcd: bool) -> int {
    if bcd {
        (v & 0x0F) + (v >> 4) * 10
    } else {
        v as int
    }
}

/// Normalize a raw CMOS real-time-clock reading: select BCD or binary
/// decoding from status register B, adjust the 12-hour wrap using the PM
/// bit, and assemble the four-digit year from the century register (a
/// zero century means the twenty-first century). The port reads that
/// produce the raw bytes belong to the platform layer.
pub fn normalize_rtc(
    sec: u8,
    min: u8,
    hour: u8,
    day: u8,
    month: u8,
    year: u8,
    century: u8,
    status_b: u8,
) -> (r: (u32, u32, u32, u32, u32, u32))
    ensures
        ({
            let bcd = status_b & 0x04 == 0;
            let h0 = spec_rtc_field(hour & 0x7F, bcd);
            let cen = spec_rtc_field(century, bcd);
            &&& r.0 == (if cen > 0 {
                cen * 100 + spec_rtc_field(year, bcd)
            } else {
                2000 + spec_rtc_field(year, bcd)
            })
            &&& r.1 == spec_rtc_field(month, bcd)
            &&& r.2 == spec_rtc_field(day, bcd)
            &&& r.3 == (if status_b & 0x02 == 0 && hour & 0x80 != 0 {
                h0 % 12 + 12
            } else {
                h0
            })
            &&& r.4 == spec_rtc_field(min, bcd)
            &&& r.5 == spec_rtc_field(sec, bcd)
        }),
{
    let bcd = status_b & 0x04 == 0;
    let pm = hour & 0x80 != 0;

    let sec_b = if bcd {
        bcd_to_bin(sec)
    } else {
        sec
    };
    let min_b = if bcd {
        bcd_to_bin(min)
    } else {
        min
    };
    let hour_b = if bcd {
        bcd_to_bin(hour & 0x7F)
    } else {
        hour & 0x7F
    };
    let day_b = if bcd {
        bcd_to_bin(day)
    } else {
        day
    };
    let month_b = if bcd {
        bcd_to_bin(month)
    } else {
        month
    };
    let year_b = if bcd {
        bcd_to_bin(year)
    } else {
        year
    };
    let century_b = if bcd {
        bcd_to_bin(century)
    } else {
        century
    };

    // Twelve-hour mode with the PM flag set wraps into the afternoon.
    let hour_adj: u32 = if status_b & 0x02 == 0 && pm {
        (hour_b as u32) % 12 + 12
    } else {
        hour_b as u32
    };

    let full_year: u32 = if century_b > 0 {
        (century_b as u32) * 100 + (year_b as u32)
    } else {
        2000 + (year_b as u32)
    };

    (full_year, month_b as u32, day_b as u32, hour_adj, min_b as u32, sec_b as u32)
}

/// The Julian day number of a calendar date, by the standard formula.
pub open spec fn spec_julian_day(y: int, m: int, d: int) -> int {
    let a = (14 - m) / 12;
    let adj_y = y + 4800 - a;
    let adj_m = m + 12 * a - 3;
    d + (153 * adj_m + 2) / 5 + 365 * adj_y + adj_y / 4 - adj_y / 100 + adj_y / 400 - 32045
}

/// Milliseconds since the Julian epoch for a date and time of day, as
/// SQLite's `xCurrentTimeInt64` expects: the day number at noon, shifted
/// back half a day to midnight, plus the time of day.
pub open spec fn spec_julian_ms(y: int, m: int, d: int, hh: int, mm: int, ss: int) -> int {
    (spec_julian_day(y, m, d) - 1) * 86_400_000 + 43_200_000 + hh * 3_600_000 + mm * 60_000 + ss
        * 1_000
}

/// Convert a broken-down UTC date and time to SQLite's millisecond count.
pub fn julian_ms(year: u32, month: u32, day: u32, hour: u32, minute: u32, second: u32) -> (r: i64)
    requires
        1 <= month <= 12,
        1 <= day <= 31,
        year <= 9999,
        hour < 24,
        minute < 60,
        second < 60,
    ensures
        r == spec_julian_ms(
            year as int,
            month as int,
            day as int,
            hour as int,
            minute as int,
            second as int,
        ),
{
    let y = year as i64;
    let m = month as i64;
    let d = day as i64;
    let a = (14 - m) / 12;
    let adj_y = y + 4800 - a;
    let adj_m = m + 12 * a - 3;
    let jdn = d + (153 * adj_m + 2) / 5 + 365 * adj_y + adj_y / 4 - adj_y / 100 + adj_y / 400
        - 32045;

    let time_ms = (hour as i64) * 3_600_000 + (minute as i64) * 60_000 + (second as i64) * 1_000;
    (jdn - 1) * 86_400_000 + 43_200_000 + time_ms
}

} // verus!
