//! Names under which conflicting versions of a file are kept.
use crate::paths::{
    can_be_base, file_name, has_drive, joined, joins_below, last_part, lemma_name_start,
    lemma_with_name, parent_dir, sep_of, with_file_name, with_name, Platform,
};
use crate::text::{
    after_last_index, before_first, chars_of, decimal, head_before_first, last_pos, padded_decimal,
    string_range, zero_padded,
};
use vstd::prelude::*;

verus! {

#[verifier::opaque]
pub open spec fn is_leap(y: int) -> bool {
    y % 4 == 0 && (y % 100 != 0 || y % 400 == 0)
}

pub open spec fn leap_days(y: int) -> int {
    if is_leap(y) {
        1
    } else {
        0
    }
}

/// Number of days of a month.
pub open spec fn days_in_month(y: int, m: int) -> int {
    if m == 2 {
        if is_leap(y) {
            29
        } else {
            28
        }
    } else if m == 4 || m == 6 || m == 9 || m == 11 {
        30
    } else {
        31
    }
}

/// Number of days from the start of the year 0 to the start of the year `y`.
#[verifier::opaque]
pub open spec fn days_before_year(y: int) -> int {
    365 * y + (y + 3) / 4 - (y + 99) / 100 + (y + 399) / 400
}

/// Number of days from the start of the year to the start of the month.
pub open spec fn days_before_month(y: int, m: int) -> int
    decreases m,
{
    if m <= 1 {
        0
    } else {
        days_before_month(y, m - 1) + days_in_month(y, m - 1)
    }
}

/// Number of a day, counted from the first day of the year 0.
pub open spec fn day_number(y: int, m: int, d: int) -> int {
    days_before_year(y) + days_before_month(y, m) + d - 1
}

/// `y-m-d` is the day of the calendar that lies `days` days after 1970-01-01.
#[verifier::opaque]
pub open spec fn is_date(y: int, m: int, d: int, days: int) -> bool {
    &&& 1 <= m <= 12
    &&& 1 <= d <= days_in_month(y, m)
    &&& day_number(y, m, d) == day_number(1970, 1, 1) + days
}

/// The day `days` days after 1970-01-01 has the month `m`, the day `d` and a year whose lower 32
/// bits are `y`.
pub open spec fn is_day(y: u32, m: u32, d: u32, days: int) -> bool {
    exists|full: int| #[trigger]
        is_date(full, m as int, d as int, days) && full >= 1970 && y == full % 0x1_0000_0000
}

/// `t` is the time `secs` seconds after 1970-01-01: year, month, day, hour, minute and second.
pub open spec fn is_time(t: (u32, u32, u32, u32, u32, u32), secs: int) -> bool {
    &&& is_day(t.0, t.1, t.2, secs / 86_400)
    &&& t.3 < 24
    &&& t.4 < 60
    &&& t.5 < 60
    &&& t.3 * 3_600 + t.4 * 60 + t.5 == secs % 86_400
}

proof fn lemma_months(y: int)
    ensures
        days_before_month(y, 1) == 0,
        days_before_month(y, 2) == 31,
        ({
            let l: int = if is_leap(y) {
                1
            } else {
                0
            };
            &&& days_before_month(y, 3) == 59 + l
            &&& days_before_month(y, 4) == 90 + l
            &&& days_before_month(y, 5) == 120 + l
            &&& days_before_month(y, 6) == 151 + l
            &&& days_before_month(y, 7) == 181 + l
            &&& days_before_month(y, 8) == 212 + l
            &&& days_before_month(y, 9) == 243 + l
            &&& days_before_month(y, 10) == 273 + l
            &&& days_before_month(y, 11) == 304 + l
            &&& days_before_month(y, 12) == 334 + l
        }),
{
    reveal_with_fuel(days_before_month, 13);
}

/// The year of an era of 400 years, counted from March, that a day of the era lies in.
proof fn lemma_year_of_era(doe: int, yoe: int)
    requires
        0 <= doe <= 146_096,
        yoe == (doe - doe / 1460 + doe / 36_524 - doe / 146_096) / 365,
    ensures
        0 <= yoe <= 399,
        0 <= doe - (365 * yoe + yoe / 4 - yoe / 100) <= 365,
        doe - (365 * yoe + yoe / 4 - yoe / 100) == 365 ==> is_leap(yoe + 1),
{
    reveal(is_leap);
    // Centuries of an era, and years of a century.
    let c = if doe == 146_096 {
        3
    } else {
        doe / 36_524
    };
    assert(0 <= c <= 3);
    let doc = doe - 36_524 * c;
    assert(0 <= doc <= 36_524);
    assert(yoe / 100 >= 0);
}

spec fn divides(n: int, y: int) -> int {
    if y % n == 0 {
        1
    } else {
        0
    }
}

proof fn lemma_by_4(y: int)
    ensures
        (y + 3) / 4 + divides(4, y) == y / 4 + 1,
        (y + 4) / 4 == y / 4 + 1,
{
}

proof fn lemma_by_100(y: int)
    ensures
        (y + 99) / 100 + divides(100, y) == y / 100 + 1,
        (y + 100) / 100 == y / 100 + 1,
{
}

proof fn lemma_by_400(y: int)
    ensures
        (y + 399) / 400 + divides(400, y) == y / 400 + 1,
        (y + 400) / 400 == y / 400 + 1,
{
}

proof fn lemma_leap_days(y: int)
    ensures
        leap_days(y) == divides(4, y) - divides(100, y) + divides(400, y),
{
    reveal(is_leap);
    assert(y % 400 == 0 ==> y % 100 == 0);
    assert(y % 100 == 0 ==> y % 4 == 0);
}

proof fn lemma_year_step(y: int)
    ensures
        days_before_year(y + 1) == days_before_year(y) + 365 + leap_days(y),
        days_before_year(y) + leap_days(y) == 365 * y + y / 4 - y / 100 + y / 400 + 1,
{
    lemma_by_4(y);
    lemma_by_100(y);
    lemma_by_400(y);
    lemma_leap_days(y);
    assert(days_before_year(y) == 365 * y + (y + 3) / 4 - (y + 99) / 100 + (y + 399) / 400) by {
        reveal(days_before_year);
    }
    assert(days_before_year(y + 1) == 365 * (y + 1) + (y + 4) / 4 - (y + 100) / 100 + (y + 400)
        / 400) by {
        reveal(days_before_year);
    }
}

/// The month, counted from March, and the day of the month of a day of the year.
proof fn lemma_month(doy: int, mp: int)
    requires
        0 <= doy <= 365,
        mp == (5 * doy + 2) / 153,
    ensures
        0 <= mp <= 11,
        1 <= doy - (153 * mp + 2) / 5 + 1 <= (if mp == 1 || mp == 3 || mp == 6 || mp == 8 {
            30int
        } else if mp == 11 {
            29int
        } else {
            31int
        }),
        mp == 11 && doy < 365 ==> doy - (153 * mp + 2) / 5 + 1 <= 28,
{
}

proof fn lemma_leap_repeats(era: int, y: int)
    ensures
        is_leap(y + era * 400) == is_leap(y),
{
    reveal(is_leap);
    let full = y + era * 400;
    assert(full == 400 * era + y && full == 100 * (4 * era) + y && full == 4 * (100 * era) + y);
    vstd::arithmetic::div_mod::lemma_mod_multiples_vanish(era, y, 400);
    vstd::arithmetic::div_mod::lemma_mod_multiples_vanish(4 * era, y, 100);
    vstd::arithmetic::div_mod::lemma_mod_multiples_vanish(100 * era, y, 4);
}

/// The first day of a year, from the year of its era.
proof fn lemma_era(era: int, yoe: int)
    requires
        0 <= yoe <= 399,
    ensures
        ({
            let base = era * 146_097 + 365 * yoe + yoe / 4 - yoe / 100;
            let y = yoe + era * 400;
            &&& days_before_year(y) + leap_days(y) == base + 1
            &&& days_before_year(y + 1) == base + 366
            &&& is_leap(y + 1) == is_leap(yoe + 1)
        }),
{
    let y = yoe + era * 400;
    lemma_year_step(y);
    assert(y / 4 == 100 * era + yoe / 4) by {
        assert(y == 4 * (100 * era) + yoe);
        vstd::arithmetic::div_mod::lemma_hoist_over_denominator(yoe, 100 * era, 4);
    }
    assert(y / 100 == 4 * era + yoe / 100) by {
        assert(y == 100 * (4 * era) + yoe);
        vstd::arithmetic::div_mod::lemma_hoist_over_denominator(yoe, 4 * era, 100);
    }
    assert(y / 400 == era);
    assert(is_leap(y + 1) == is_leap(yoe + 1)) by {
        lemma_leap_repeats(era, yoe + 1);
    }
}

/// The date of a day, from the year of its era and its day in that year.
proof fn lemma_date(era: int, yoe: int, doy: int, mp: int, d: int, mo: int, y: int)
    requires
        era >= 0,
        0 <= yoe <= 399,
        0 <= doy <= 365,
        doy == 365 ==> is_leap(yoe + 1),
        mp == (5 * doy + 2) / 153,
        d == doy - (153 * mp + 2) / 5 + 1,
        mo == if mp < 10 {
            mp + 3
        } else {
            mp - 9
        },
        y == yoe + era * 400 + if mo <= 2 {
            1int
        } else {
            0int
        },
    ensures
        1 <= mo <= 12,
        1 <= d <= days_in_month(y, mo),
        day_number(y, mo, d) == era * 146_097 + 365 * yoe + yoe / 4 - yoe / 100 + doy + 60,
{
    let base = era * 146_097 + 365 * yoe + yoe / 4 - yoe / 100;
    lemma_months(y);
    lemma_month(doy, mp);
    lemma_era(era, yoe);
    if mo > 2 {
        assert(y == yoe + era * 400);
        assert(days_before_year(y) + leap_days(y) == base + 1);
        assert(days_before_month(y, mo) == 59 + leap_days(y) + (153 * mp + 2) / 5);
    } else {
        assert(y == yoe + era * 400 + 1);
        assert(days_before_year(y) == base + 366);
        assert(days_before_month(y, mo) == (153 * mp + 2) / 5 - 306);
        assert(is_leap(y) == is_leap(yoe + 1));
    }
}

proof fn lemma_civil(
    days: int,
    era: int,
    yoe: int,
    doy: int,
    mp: int,
    d: int,
    mo: int,
    y: int,
)
    requires
        days >= 0,
        era >= 0,
        0 <= yoe <= 399,
        0 <= doy <= 365,
        days + 719_468 == era * 146_097 + 365 * yoe + yoe / 4 - yoe / 100 + doy,
        doy == 365 ==> is_leap(yoe + 1),
        mp == (5 * doy + 2) / 153,
        d == doy - (153 * mp + 2) / 5 + 1,
        mo == if mp < 10 {
            mp + 3
        } else {
            mp - 9
        },
        y == yoe + era * 400 + if mo <= 2 {
            1int
        } else {
            0int
        },
    ensures
        is_date(y, mo, d, days),
        y >= 1970,
{
    reveal(is_date);
    lemma_date(era, yoe, doy, mp, d, mo, y);
    lemma_months(1970);
    assert(day_number(1970, 1, 1) == 719_528) by {
        reveal(days_before_year);
    }
    lemma_day_in_year(y, mo, d);
    if y < 1970 {
        lemma_years_ordered(y, 1970);
    }
}

/// The date and time of day (UTC) that lie `secs` seconds after 1970-01-01: year, month, day,
/// hour, minute and second. The year is given by its lower 32 bits.
pub fn epoch_to_ymdhms(secs: u64) -> (r: (u32, u32, u32, u32, u32, u32))
    ensures
        is_time(r, secs as int),
{
    let days: i64 = (secs / 86_400) as i64;
    let sod: u64 = secs % 86_400;
    let h: u32 = (sod / 3_600) as u32;
    let mi: u32 = ((sod % 3_600) / 60) as u32;
    let s: u32 = (sod % 60) as u32;
    let z: i64 = days + 719_468;
    let era: i64 = z / 146_097;
    let doe: u64 = (z - era * 146_097) as u64;
    let yoe: u64 = (doe - doe / 1460 + doe / 36_524 - doe / 146_096) / 365;
    proof {
        lemma_year_of_era(doe as int, yoe as int);
    }
    let y_civil: i64 = yoe as i64 + era * 400;
    let doy: u64 = doe - (365 * yoe + yoe / 4 - yoe / 100);
    let mp: u64 = (5 * doy + 2) / 153;
    let d: u32 = (doy - (153 * mp + 2) / 5 + 1) as u32;
    let mo: u32 = if mp < 10 {
        (mp + 3) as u32
    } else {
        (mp - 9) as u32
    };
    let y_full: i64 = y_civil + if mo <= 2 {
        1
    } else {
        0
    };
    proof {
        lemma_civil(
            days as int,
            era as int,
            yoe as int,
            doy as int,
            mp as int,
            d as int,
            mo as int,
            y_full as int,
        );
    }
    let y_wide: u64 = y_full as u64;
    assert(y_wide as u32 == y_wide % 0x1_0000_0000) by (bit_vector);
    let y: u32 = y_wide as u32;
    assert(is_date(y_full as int, mo as int, d as int, days as int));
    assert(is_day(y, mo, d, days as int));
    (y, mo, d, h, mi, s)
}

/// A number with at least `width` digits.
pub open spec fn digits(n: u32, width: nat) -> Seq<char> {
    zero_padded(decimal(n as nat), width)
}

/// A date and time as `YYYYMMDD-HHMMSS`.
pub open spec fn compact(t: (u32, u32, u32, u32, u32, u32)) -> Seq<char> {
    (digits(t.0, 4) + digits(t.1, 2) + digits(t.2, 2)).push('-') + digits(t.3, 2) + digits(t.4, 2)
        + digits(t.5, 2)
}

/// The time `secs` seconds after 1970-01-01 as `YYYYMMDD-HHMMSS` (UTC).
pub fn format_timestamp_compact(secs: u64) -> (out: String)
    ensures
        exists|t: (u32, u32, u32, u32, u32, u32)| #[trigger]
            is_time(t, secs as int) && out@ == compact(t),
{
    let (y, mo, d, h, mi, s) = epoch_to_ymdhms(secs);
    let mut out = padded_decimal(y as u64, 4);
    let b = padded_decimal(mo as u64, 2);
    let c = padded_decimal(d as u64, 2);
    let e = padded_decimal(h as u64, 2);
    let f = padded_decimal(mi as u64, 2);
    let g = padded_decimal(s as u64, 2);
    out.append(b.as_str());
    out.append(c.as_str());
    out.push('-');
    out.append(e.as_str());
    out.append(f.as_str());
    out.append(g.as_str());
    assert(is_time((y, mo, d, h, mi, s), secs as int));
    assert(out@ =~= compact((y, mo, d, h, mi, s)));
    out
}

/// The name of a machine without its domain.
pub fn hostname_short(full: &str) -> (out: String)
    ensures
        out@ == before_first(full@, '.'),
{
    head_before_first(full, '.')
}

/// The position at which the extension of a file name starts, with its dot: the last dot that
/// is not the first character.
pub open spec fn ext_start(name: Seq<char>) -> int {
    let p = last_pos(name, '.');
    if p <= 0 {
        name.len() as int
    } else {
        p
    }
}

/// The name before the extension; a path without a name is given one.
pub open spec fn stem_of(name: Seq<char>) -> Seq<char> {
    if name.len() == 0 {
        "file"@
    } else {
        name.take(ext_start(name))
    }
}

/// The name of the conflicting version of a file.
pub open spec fn conflict_name_of(
    name: Seq<char>,
    host: Seq<char>,
    stamp: Seq<char>,
) -> Seq<char> {
    stem_of(name) + ".conflict-"@ + host + "-"@ + stamp + name.skip(ext_start(name))
}

/// The path under which the conflicting version of a file is kept.
pub open spec fn conflict_path(
    platform: Platform,
    path: Seq<char>,
    host: Seq<char>,
    stamp: Seq<char>,
) -> Seq<char> {
    with_name(platform, path, conflict_name_of(last_part(platform, path), host, stamp))
}

fn conflict_name(w: &Vec<char>, host: &str, stamp: &str) -> (out: String)
    ensures
        out@ == conflict_name_of(w@, host@, stamp@),
{
    let dot: usize = after_last_index(w, '.');
    let ext: usize = if dot <= 1 {
        w.len()
    } else {
        dot - 1
    };
    let mut out = if w.len() == 0 {
        "file".to_owned()
    } else {
        string_range(w, 0, ext)
    };
    assert(w@.subrange(0, ext as int) =~= w@.take(ext as int));
    assert(out@ == stem_of(w@));
    out.append(".conflict-");
    out.append(host);
    out.append("-");
    out.append(stamp);
    let tail = string_range(w, ext, w.len());
    assert(tail@ =~= w@.skip(ext as int));
    out.append(tail.as_str());
    out
}

/// The path under which the conflicting version of a file is kept:
/// `{stem}.conflict-{host}-{YYYYMMDD-HHMMSS}{.ext}` beside the file.
pub fn make_conflict_path(platform: Platform, dest_path: &str, host: &str, secs: u64) -> (out:
    String)
    ensures
        exists|t: (u32, u32, u32, u32, u32, u32)| #[trigger]
            is_time(t, secs as int) && out@ == conflict_path(
                platform,
                dest_path@,
                host@,
                compact(t),
            ),
{
    let stamp = format_timestamp_compact(secs);
    let last = file_name(platform, dest_path);
    let name = chars_of(last.as_str());
    let marked = conflict_name(&name, host, stamp.as_str());
    with_file_name(platform, dest_path, marked.as_str())
}

/// No separator occurs in a text.
pub open spec fn without_seps(platform: Platform, s: Seq<char>) -> bool {
    forall|i: int| 0 <= i < s.len() ==> !sep_of(platform, #[trigger] s[i])
}

/// The conflicting version lies beside the file, never in its place, and keeps its extension.
pub proof fn law_conflict_path_is_beside(
    platform: Platform,
    path: Seq<char>,
    host: Seq<char>,
    stamp: Seq<char>,
)
    requires
        can_be_base(platform, path),
        last_part(platform, path).len() > 0,
        platform is Windows ==> !has_drive(last_part(platform, path)),
        without_seps(platform, host),
        without_seps(platform, stamp),
    ensures
        ({
            let c = conflict_path(platform, path, host, stamp);
            let name = last_part(platform, path);
            let kept = last_part(platform, c);
            &&& parent_dir(platform, path) matches Some(dir) && c == joined(platform, dir, kept)
            &&& kept.len() > name.len()
            &&& c != path
            &&& name.take(ext_start(name)).is_prefix_of(kept)
            &&& name.skip(ext_start(name)).is_suffix_of(kept)
        }),
{
    let name = last_part(platform, path);
    lemma_name_start(platform, path);
    crate::paths::lemma_last_start(
        platform,
        path,
        crate::paths::front_len(platform, path),
        crate::paths::names_end(platform, path),
    );
    crate::text::lemma_last_pos(name, '.');
    let kept = conflict_name_of(name, host, stamp);
    let head = name.take(ext_start(name));
    let tail = name.skip(ext_start(name));
    reveal_strlit(".conflict-");
    reveal_strlit("-");
    assert(kept.subrange(kept.len() - tail.len(), kept.len() as int) =~= tail);
    assert(kept.subrange(0, head.len() as int) =~= head);
    assert(without_seps(platform, name));
    assert(without_seps(platform, kept)) by {
        assert forall|i: int| 0 <= i < kept.len() implies !sep_of(platform, #[trigger] kept[i]) by {
            let h = head.len();
            if i < h {
                assert(kept[i] == name[i]);
            } else if i < h + 10 {
                assert(kept[i] == ".conflict-"@[i - h]);
            } else if i < h + 10 + host.len() {
                assert(kept[i] == host[i - h - 10]);
            } else if i < h + 11 + host.len() {
                assert(kept[i] == '-');
            } else if i < h + 11 + host.len() + stamp.len() {
                assert(kept[i] == stamp[i - h - 11 - host.len()]);
            } else {
                let k = i - h - 11 - host.len() - stamp.len();
                assert(kept[i] == tail[k]);
                assert(tail[k] == name[ext_start(name) + k]);
            }
        }
    }
    assert(kept.len() > 2);
    assert(joins_below(platform, kept)) by {
        if platform is Windows && has_drive(kept) {
            if head.len() >= 2 {
                assert(kept[0] == name[0] && kept[1] == name[1]);
            } else if head.len() == 1 {
                assert(kept[1] == '.');
            }
        }
    }
    lemma_with_name(platform, path, kept);
}

proof fn lemma_years_ordered(a: int, b: int)
    requires
        a < b,
    ensures
        days_before_year(a) + 365 + (if is_leap(a) {
            1int
        } else {
            0int
        }) <= days_before_year(b),
    decreases b - a,
{
    lemma_year_step(a);
    if a + 1 < b {
        lemma_years_ordered(a + 1, b);
    }
}

proof fn lemma_day_in_year(y: int, m: int, d: int)
    requires
        1 <= m <= 12,
        1 <= d <= days_in_month(y, m),
    ensures
        0 <= days_before_month(y, m) + d - 1 < 365 + (if is_leap(y) {
            1int
        } else {
            0int
        }),
{
    lemma_months(y);
}

/// A day has one date: no other date lies as many days after 1970-01-01.
pub proof fn law_date_is_unique(
    y1: int,
    m1: int,
    d1: int,
    y2: int,
    m2: int,
    d2: int,
    days: int,
)
    requires
        is_date(y1, m1, d1, days),
        is_date(y2, m2, d2, days),
    ensures
        y1 == y2,
        m1 == m2,
        d1 == d2,
{
    reveal(is_date);
    lemma_day_in_year(y1, m1, d1);
    lemma_day_in_year(y2, m2, d2);
    if y1 < y2 {
        lemma_years_ordered(y1, y2);
    }
    if y2 < y1 {
        lemma_years_ordered(y2, y1);
    }
    lemma_months(y1);
}

/// The conflicting version of a file keeps its extension and says in between which machine wrote
/// it and when; a name without an extension, or one that only begins with a dot, has it said at its
/// end.
pub proof fn law_conflict_names_are_built_from_the_name(
    base: Seq<char>,
    ext: Seq<char>,
    host: Seq<char>,
    stamp: Seq<char>,
)
    requires
        base.len() > 0,
        forall|i: int| 0 <= i < ext.len() ==> ext[i] != '.',
    ensures
        conflict_name_of(base.push('.') + ext, host, stamp) == base + ".conflict-"@ + host + "-"@
            + stamp + seq!['.'] + ext,
        ext.len() > 0 ==> conflict_name_of(ext, host, stamp) == ext + ".conflict-"@ + host + "-"@
            + stamp,
        conflict_name_of(seq!['.'] + ext, host, stamp) == seq!['.'] + ext + ".conflict-"@ + host
            + "-"@ + stamp,
        conflict_name_of(Seq::empty(), host, stamp) == "file"@ + ".conflict-"@ + host + "-"@
            + stamp,
{
    let a = base.push('.') + ext;
    assert forall|i: int| base.len() < i < a.len() implies a[i] != '.' by {
        assert(a[i] == ext[i - base.len() - 1]);
    }
    crate::text::lemma_last_pos_is(a, '.', base.len() as int);
    assert(a.take(base.len() as int) =~= base);
    assert(a.skip(base.len() as int) =~= seq!['.'] + ext);
    assert(conflict_name_of(a, host, stamp) =~= base + ".conflict-"@ + host + "-"@ + stamp
        + seq!['.'] + ext);
    crate::text::lemma_last_pos_is(ext, '.', -1);
    assert(ext.take(ext.len() as int) =~= ext);
    assert(ext.skip(ext.len() as int) =~= Seq::<char>::empty());
    assert(conflict_name_of(ext, host, stamp) =~= stem_of(ext) + ".conflict-"@ + host + "-"@
        + stamp);
    let b = seq!['.'] + ext;
    assert forall|i: int| 0 < i < b.len() implies b[i] != '.' by {
        assert(b[i] == ext[i - 1]);
    }
    crate::text::lemma_last_pos_is(b, '.', 0);
    assert(b.take(b.len() as int) =~= b);
    assert(b.skip(b.len() as int) =~= Seq::<char>::empty());
    assert(conflict_name_of(b, host, stamp) =~= b + ".conflict-"@ + host + "-"@ + stamp);
    let e = Seq::<char>::empty();
    crate::text::lemma_last_pos_is(e, '.', -1);
    assert(e.skip(0) =~= e);
    assert(conflict_name_of(e, host, stamp) =~= "file"@ + ".conflict-"@ + host + "-"@ + stamp);
}

/// A time of the day is that of its seconds, and a date one of the calendar.
pub proof fn law_times_of_day_are_exact(t: (u32, u32, u32, u32, u32, u32), secs: int)
    requires
        secs >= 0,
        is_time(t, secs),
    ensures
        t.5 == secs % 60,
        t.4 == secs / 60 % 60,
        t.3 == secs / 3_600 % 24,
        1 <= t.1 <= 12,
        1 <= t.2 <= 31,
{
    reveal(is_date);
    let full = choose|full: int| #[trigger]
        is_date(full, t.1 as int, t.2 as int, secs / 86_400) && full >= 1970 && t.0 == full
            % 0x1_0000_0000;
    assert(is_date(full, t.1 as int, t.2 as int, secs / 86_400));
    let day = secs % 86_400;
    assert(secs == 86_400 * (secs / 86_400) + day);
    assert(t.5 == day % 60 && t.4 == day / 60 % 60 && t.3 == day / 3_600);
    assert(day % 60 == secs % 60);
    assert(day / 60 == secs / 60 - 1_440 * (secs / 86_400));
    assert(day / 3_600 == secs / 3_600 - 24 * (secs / 86_400));
}

/// The name of a machine ends at its first dot.
pub proof fn law_host_has_no_domain(host: Seq<char>, domain: Seq<char>)
    requires
        forall|i: int| 0 <= i < host.len() ==> host[i] != '.',
    ensures
        before_first(host.push('.') + domain, '.') == host,
        before_first(host, '.') == host,
{
    let s = host.push('.') + domain;
    crate::text::lemma_first_pos_is(s, '.', host.len() as int);
    crate::text::lemma_first_pos_is(host, '.', host.len() as int);
    assert(s.take(host.len() as int) =~= host);
    assert(host.take(host.len() as int) =~= host);
}

/// A stamp of a year with four digits is one text of fixed length: two digits for each part of the
/// time, and a dash between the day and the time of day.
pub proof fn law_stamps_have_one_shape(t: (u32, u32, u32, u32, u32, u32))
    requires
        1_000 <= t.0 <= 9_999,
        t.1 < 100,
        t.2 < 100,
        t.3 < 100,
        t.4 < 100,
        t.5 < 100,
    ensures
        compact(t).len() == 15,
        compact(t)[8] == '-',
        crate::text::digits_value(compact(t).subrange(0, 4)) == Some(t.0 as int),
        crate::text::digits_value(compact(t).subrange(4, 6)) == Some(t.1 as int),
        crate::text::digits_value(compact(t).subrange(6, 8)) == Some(t.2 as int),
        crate::text::digits_value(compact(t).subrange(9, 11)) == Some(t.3 as int),
        crate::text::digits_value(compact(t).subrange(11, 13)) == Some(t.4 as int),
        crate::text::digits_value(compact(t).subrange(13, 15)) == Some(t.5 as int),
{
    reveal_with_fuel(decimal, 5);
    crate::text::law_padding_keeps_the_number(t.0 as nat, 4);
    crate::text::law_padding_keeps_the_number(t.1 as nat, 2);
    crate::text::law_padding_keeps_the_number(t.2 as nat, 2);
    crate::text::law_padding_keeps_the_number(t.3 as nat, 2);
    crate::text::law_padding_keeps_the_number(t.4 as nat, 2);
    crate::text::law_padding_keeps_the_number(t.5 as nat, 2);
    let c = compact(t);
    assert(c.subrange(0, 4) =~= digits(t.0, 4));
    assert(c.subrange(4, 6) =~= digits(t.1, 2));
    assert(c.subrange(6, 8) =~= digits(t.2, 2));
    assert(c.subrange(9, 11) =~= digits(t.3, 2));
    assert(c.subrange(11, 13) =~= digits(t.4, 2));
    assert(c.subrange(13, 15) =~= digits(t.5, 2));
}

} // verus!
