//! The pure calendar arithmetic behind timestamps: the civil-from-days
//! conversion from an epoch day count to a Gregorian date, and the two
//! timestamp renderings the engine uses (backup file stamps and row
//! timestamps). No time-zone database is involved; all times are civil
//! readings of an epoch-seconds value.

use vstd::prelude::*;

use crate::text::{chars_to_string, chars_vec, push_dec_padded, spec_dec_padded};

verus! {

/// Epoch day counts accepted by the conversion; far beyond year 9999,
/// bounded only so the arithmetic stays in `u64`.
pub const MAX_EPOCH_DAYS: u64 = 100_000_000;

/// Epoch second counts accepted by the timestamp renderings.
pub const MAX_EPOCH_SECS: u64 = 8_640_000_000_000;

/// The Gregorian date of an epoch day count: the civil-from-days
/// conversion, counting eras of 146097 days (400 years) from 0000-03-01,
/// with the year adjusted so January and February belong to the next
/// civil year.
pub open spec fn spec_civil_from_days(days: nat) -> (nat, nat, nat) {
    let z = days + 719468;
    let era = z / 146097;
    let doe = z % 146097;
    let yoe = (doe - doe / 1460 + doe / 36524 - doe / 146096) / 365;
    let y = yoe + era * 400;
    let doy = doe - (365 * yoe + yoe / 4 - yoe / 100);
    let mp = (5 * doy + 2) / 153;
    let d = doy - (153 * mp + 2) / 5 + 1;
    let m = if mp < 10 {
        mp + 3
    } else {
        mp - 9
    };
    let yr = if m <= 2 {
        y + 1
    } else {
        y
    };
    ((yr) as nat, (m) as nat, (d) as nat)
}

/// Convert an epoch day count to its Gregorian year, month and day.
pub fn days_to_ymd(days: u64) -> (r: (u64, u64, u64))
    requires
        days <= MAX_EPOCH_DAYS,
    ensures
        (r.0 as nat, r.1 as nat, r.2 as nat) == spec_civil_from_days(days as nat),
{
    let z = days + 719468;
    let era = z / 146097;
    let doe = z % 146097;
    assert(doe / 1460 <= doe && doe / 36524 <= doe / 1460 + doe) by (nonlinear_arith);
    let yoe = (doe - doe / 1460 + doe / 36524 - doe / 146096) / 365;
    let y = yoe + era * 400;
    assert(365 * yoe + yoe / 4 - yoe / 100 <= doe) by (nonlinear_arith)
        requires
            yoe == (doe - doe / 1460 + doe / 36524 - doe / 146096) / 365 && doe < 146097,
    ;
    let doy = doe - (365 * yoe + yoe / 4 - yoe / 100);
    let mp = (5 * doy + 2) / 153;
    assert((153 * mp + 2) / 5 <= doy) by (nonlinear_arith)
        requires
            mp == (5 * doy + 2) / 153,
    ;
    let d = doy - (153 * mp + 2) / 5 + 1;
    let m = if mp < 10 {
        mp + 3
    } else {
        mp - 9
    };
    let yr = if m <= 2 {
        y + 1
    } else {
        y
    };
    (yr, m, d)
}

/// The compact backup timestamp for an epoch-seconds reading:
/// `YYYYMMDD_HHMMSS`, every field zero-filled.
pub open spec fn spec_simple_ts(secs: nat) -> Seq<char> {
    let days = secs / 86400;
    let tod = secs % 86400;
    let ymd = spec_civil_from_days(days);
    spec_dec_padded(ymd.0, 4) + spec_dec_padded(ymd.1, 2) + spec_dec_padded(ymd.2, 2) + seq!['_']
        + spec_dec_padded(tod / 3600, 2) + spec_dec_padded(tod % 3600 / 60, 2) + spec_dec_padded(
        tod % 60,
        2,
    )
}

/// Render the compact backup timestamp of an epoch-seconds reading.
pub fn simple_ts(secs: u64) -> (s: String)
    requires
        secs <= MAX_EPOCH_SECS,
    ensures
        s@ == spec_simple_ts(secs as nat),
{
    let days = secs / 86400;
    let tod = secs % 86400;
    let (y, m, d) = days_to_ymd(days);
    let mut v: Vec<char> = Vec::new();
    push_dec_padded(&mut v, y, 4);
    push_dec_padded(&mut v, m, 2);
    push_dec_padded(&mut v, d, 2);
    v.push('_');
    push_dec_padded(&mut v, tod / 3600, 2);
    push_dec_padded(&mut v, tod % 3600 / 60, 2);
    push_dec_padded(&mut v, tod % 60, 2);
    proof {
        assert(v@ =~= spec_simple_ts(secs as nat));
    }
    chars_to_string(&v)
}

/// The row timestamp for an epoch-seconds reading:
/// `YYYY-MM-DD HH:MM:SS`, every field zero-filled.
pub open spec fn spec_datetime(secs: nat) -> Seq<char> {
    let days = secs / 86400;
    let tod = secs % 86400;
    let ymd = spec_civil_from_days(days);
    spec_dec_padded(ymd.0, 4) + seq!['-'] + spec_dec_padded(ymd.1, 2) + seq!['-'] + spec_dec_padded(
        ymd.2,
        2,
    ) + seq![' '] + spec_dec_padded(tod / 3600, 2) + seq![':'] + spec_dec_padded(
        tod % 3600 / 60,
        2,
    ) + seq![':'] + spec_dec_padded(tod % 60, 2)
}

/// Render the row timestamp of an epoch-seconds reading.
pub fn datetime_string(secs: u64) -> (s: String)
    requires
        secs <= MAX_EPOCH_SECS,
    ensures
        s@ == spec_datetime(secs as nat),
{
    let days = secs / 86400;
    let tod = secs % 86400;
    let (y, m, d) = days_to_ymd(days);
    let mut v: Vec<char> = Vec::new();
    push_dec_padded(&mut v, y, 4);
    v.push('-');
    push_dec_padded(&mut v, m, 2);
    v.push('-');
    push_dec_padded(&mut v, d, 2);
    v.push(' ');
    push_dec_padded(&mut v, tod / 3600, 2);
    v.push(':');
    push_dec_padded(&mut v, tod % 3600 / 60, 2);
    v.push(':');
    push_dec_padded(&mut v, tod % 60, 2);
    proof {
        assert(v@ =~= spec_datetime(secs as nat));
    }
    chars_to_string(&v)
}

/// The file name a backup taken at this epoch-seconds reading receives.
pub open spec fn spec_backup_file_name(secs: nat) -> Seq<char> {
    "meet-eat-"@ + spec_simple_ts(secs) + ".db"@
}

/// Build the backup file name for an epoch-seconds reading.
pub fn backup_file_name(secs: u64) -> (s: String)
    requires
        secs <= MAX_EPOCH_SECS,
    ensures
        s@ == spec_backup_file_name(secs as nat),
{
    let ts = simple_ts(secs);
    let mut v = chars_vec("meet-eat-");
    let tc = chars_vec(ts.as_str());
    let ghost pre = v@;
    let mut i: usize = 0;
    while i < tc.len()
        invariant
            i <= tc@.len(),
            v@ == pre + tc@.take(i as int),
        decreases tc@.len() - i,
    {
        v.push(tc[i]);
        proof {
            assert(v@ =~= pre + tc@.take(i as int + 1));
        }
        i = i + 1;
    }
    let tail = chars_vec(".db");
    let ghost pre2 = v@;
    let mut j: usize = 0;
    while j < tail.len()
        invariant
            j <= tail@.len(),
            v@ == pre2 + tail@.take(j as int),
        decreases tail@.len() - j,
    {
        v.push(tail[j]);
        proof {
            assert(v@ =~= pre2 + tail@.take(j as int + 1));
        }
        j = j + 1;
    }
    proof {
        assert(tc@.take(tc@.len() as int) =~= tc@);
        assert(tail@.take(tail@.len() as int) =~= tail@);
        assert(v@ =~= spec_backup_file_name(secs as nat));
    }
    chars_to_string(&v)
}

} // verus!
