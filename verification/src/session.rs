//! Saved sessions: their data, how they are listed, and how their creation
//! time is shown.

use vstd::prelude::*;
use crate::text::{decimal, decimal_chars, owned, push_char, push_chars, push_decimal, zero_padded};

verus! {

/// One entry of the shared key history: newest first, no duplicate names.
#[derive(Debug, Clone)]
pub struct KeyEntry {
    pub name: String,
    pub bits: usize,
}

/// A key/IV as stored with a session.
#[derive(Debug, Clone)]
pub struct StoredKeyEntry {
    pub name: String,
    pub bits: usize,
}

impl From<&KeyEntry> for StoredKeyEntry {
    fn from(entry: &KeyEntry) -> (r: Self) {
        StoredKeyEntry { name: entry.name.clone(), bits: entry.bits }
    }
}

impl vstd::std_specs::convert::FromSpecImpl<&KeyEntry> for StoredKeyEntry {
    open spec fn obeys_from_spec() -> bool {
        true
    }

    open spec fn from_spec(entry: &KeyEntry) -> Self {
        StoredKeyEntry { name: entry.name, bits: entry.bits }
    }
}

impl From<StoredKeyEntry> for KeyEntry {
    fn from(entry: StoredKeyEntry) -> (r: Self) {
        KeyEntry { name: entry.name, bits: entry.bits }
    }
}

impl vstd::std_specs::convert::FromSpecImpl<StoredKeyEntry> for KeyEntry {
    open spec fn obeys_from_spec() -> bool {
        true
    }

    open spec fn from_spec(entry: StoredKeyEntry) -> Self {
        KeyEntry { name: entry.name, bits: entry.bits }
    }
}

/// Storing a key entry with a session and reading it back gives the same
/// entry, and the other way round.
pub proof fn law_key_entry_roundtrip(entry: KeyEntry, stored: StoredKeyEntry)
    ensures
        <KeyEntry as vstd::std_specs::convert::FromSpec<StoredKeyEntry>>::from_spec(
            <StoredKeyEntry as vstd::std_specs::convert::FromSpec<&KeyEntry>>::from_spec(&entry),
        ) == entry,
        <StoredKeyEntry as vstd::std_specs::convert::FromSpec<&KeyEntry>>::from_spec(
            &<KeyEntry as vstd::std_specs::convert::FromSpec<StoredKeyEntry>>::from_spec(stored),
        ) == stored,
{
}

/// A saved session: a name, a creation time and the key/IV history built
/// up in it.
#[derive(Debug, Clone)]
pub struct Session {
    pub id: String,
    pub name: String,
    pub created_at_unix: u64,
    pub key_history: Vec<StoredKeyEntry>,
}

} // verus!

verus! {

/// The year of the era (from March 1st) that day `doe` of a 400-year era
/// falls in, and the bounds of its day of year.
proof fn lemma_era_year(doe: u32)
    by (bit_vector)
    requires
        doe <= 146096,
    ensures
        ({
            let yoe = (doe - doe / 1460 + doe / 36524 - doe / 146096) / 365;
            &&& 365 * yoe + yoe / 4 - yoe / 100 <= doe
            &&& doe - (365 * yoe + yoe / 4 - yoe / 100) <= 365
            &&& yoe <= 399
        }),
{
}

/// The 366th day of a (March-based) year only exists in leap years.
proof fn lemma_era_leap_day(doe: u32)
    by (bit_vector)
    requires
        doe <= 146096,
    ensures
        ({
            let yoe = (doe - doe / 1460 + doe / 36524 - doe / 146096) / 365;
            let yc = yoe + 1;
            doe - (365 * yoe + yoe / 4 - yoe / 100) == 365 ==> (yc % 4 == 0 && yc % 100 != 0) || yc % 400 == 0
        }),
{
}

/// Month and day of a day of the (March-based) year.
proof fn lemma_year_day(doy: u32)
    by (bit_vector)
    requires
        doy <= 365,
    ensures
        ({
            let mp = (5 * doy + 2) / 153;
            let d = doy - (153 * mp + 2) / 5 + 1;
            &&& mp <= 11
            &&& (153 * mp + 2) / 5 <= doy
            &&& 1 <= d
            &&& (mp == 1 || mp == 3 || mp == 6 || mp == 8) ==> d <= 30
            &&& d <= 31
            &&& mp == 11 ==> d + 336 == doy
        }),
{
}

/// The day after day `doe` of a 400-year era (other than its last day) is
/// the next day of the same March-based year, or the first day of the next
/// one once the year's last day (the 366th in leap years) is reached.
#[verifier::rlimit(100)]
proof fn lemma_era_next_day(doe: u32)
    by (bit_vector)
    requires
        doe < 146096,
    ensures
        ({
            let yoe = (doe - doe / 1460 + doe / 36524 - doe / 146096) / 365;
            let doy = doe - (365 * yoe + yoe / 4 - yoe / 100);
            let e1 = (doe + 1) as u32;
            let yoe1 = (e1 - e1 / 1460 + e1 / 36524 - e1 / 146096) / 365;
            let doy1 = e1 - (365 * yoe1 + yoe1 / 4 - yoe1 / 100);
            let yc = yoe + 1;
            let ends = doy == 365 || (doy == 364 && !((yc % 4 == 0 && yc % 100 != 0) || yc % 400 == 0));
            &&& ends ==> yoe1 == yoe + 1 && doy1 == 0
            &&& !ends ==> yoe1 == yoe && doy1 == doy + 1
        }),
{
}

/// The day after day `doy` of a March-based year: the next day of the same
/// month, or the first of the next month once the month's last day is
/// reached (February, the last month, only ever continues).
proof fn lemma_year_next_day(doy: u32)
    by (bit_vector)
    requires
        doy <= 364,
    ensures
        ({
            let mp = (5 * doy + 2) / 153;
            let d = doy - (153 * mp + 2) / 5 + 1;
            let n = (doy + 1) as u32;
            let mp1 = (5 * n + 2) / 153;
            let d1 = n - (153 * mp1 + 2) / 5 + 1;
            let len: u32 = if mp == 1 || mp == 3 || mp == 6 || mp == 8 { 30 } else { 31 };
            &&& mp == 11 ==> mp1 == 11 && d1 == d + 1
            &&& mp < 11 && d < len ==> mp1 == mp && d1 == d + 1
            &&& mp < 11 && d == len ==> mp1 == mp + 1 && d1 == 1
        }),
{
}

} // verus!

verus! {

/// The proleptic Gregorian date `(year, month, day)` that lies `z` days
/// after 1970-01-01, computed through 400-year eras of March-based years.
pub open spec fn civil_from_days_spec(z: int) -> (int, int, int) {
    let z2 = z + 719468;
    let era = z2 / 146097;
    let doe = z2 - era * 146097;
    let yoe = (doe - doe / 1460 + doe / 36524 - doe / 146096) / 365;
    let y = yoe + era * 400;
    let doy = doe - (365 * yoe + yoe / 4 - yoe / 100);
    let mp = (5 * doy + 2) / 153;
    let d = doy - (153 * mp + 2) / 5 + 1;
    let m = if mp < 10 { mp + 3 } else { mp - 9 };
    (if m <= 2 { y + 1 } else { y }, m, d)
}

/// Gregorian leap years.
pub open spec fn is_leap_year(y: int) -> bool {
    (y % 4 == 0 && y % 100 != 0) || y % 400 == 0
}

/// The number of days of month `m` (1 to 12) of year `y`.
pub open spec fn days_in_month(y: int, m: int) -> int {
    if m == 2 {
        if is_leap_year(y) { 29 } else { 28 }
    } else if m == 4 || m == 6 || m == 9 || m == 11 {
        30
    } else {
        31
    }
}

/// The number of days from 1970-01-01 to the date `(y, m, d)` (for years
/// from 1 on): whole 400-year eras of 146097 days, then whole March-based
/// years of the era, then the days of the year since March 1st.
pub open spec fn days_from_civil(y: int, m: int, d: int) -> int {
    let yp = if m <= 2 { y - 1 } else { y };
    let era = yp / 400;
    let yoe = yp - era * 400;
    let mp = if m > 2 { m - 3 } else { m + 9 };
    let doy = (153 * mp + 2) / 5 + d - 1;
    let doe = 365 * yoe + yoe / 4 - yoe / 100 + doy;
    era * 146097 + doe - 719468
}

/// Largest day count a `u64` timestamp reaches.
pub open spec fn max_days() -> int {
    213503982334601
}

proof fn lemma_shift_mod(a: int, e: int, k: int)
    requires
        a >= 0,
        k == 4 || k == 100 || k == 400,
    ensures
        (a + e * 400) % k == a % k,
{
    let q = a / k;
    let r = a % k;
    assert(a == k * q + r) by {
        vstd::arithmetic::div_mod::lemma_fundamental_div_mod(a, k);
    }
    assert(0 <= r < k) by {
        vstd::arithmetic::div_mod::lemma_mod_bound(a, k);
    }
    let m: int = if k == 4 { 100 } else if k == 100 { 4 } else { 1 };
    assert(e * 400 == k * (e * m)) by (nonlinear_arith)
        requires
            k * m == 400,
    ;
    assert(a + e * 400 == (q + e * m) * k + r) by (nonlinear_arith)
        requires
            a == k * q + r,
            e * 400 == k * (e * m),
    ;
    vstd::arithmetic::div_mod::lemma_fundamental_div_mod_converse(a + e * 400, k, q + e * m, r);
}

/// Year `yc + 400 * e` is a leap year exactly when `yc` is.
proof fn lemma_leap_shift(yc: int, e: int)
    requires
        yc >= 0,
    ensures
        is_leap_year(yc + e * 400) == is_leap_year(yc),
{
    lemma_shift_mod(yc, e, 4);
    lemma_shift_mod(yc, e, 100);
    lemma_shift_mod(yc, e, 400);
}

/// Day `z` splits into its 400-year era (from 0000-03-01) and its day in the era.
proof fn lemma_era_split(z: int)
    ensures
        ({
            let z2 = z + 719468;
            let era = z2 / 146097;
            let doe = z2 - era * 146097;
            0 <= doe < 146097
        }),
{
    vstd::arithmetic::div_mod::lemma_fundamental_div_mod(z + 719468, 146097);
    vstd::arithmetic::div_mod::lemma_mod_bound(z + 719468, 146097);
}

/// The date of day `z` (counted from 1970-01-01, negative before it) is a
/// valid date, from 1970 on for the days from 1970-01-01 on, and counting
/// the days back to 1970-01-01 gives `z` again.
pub proof fn law_civil_date(z: int)
    ensures
        ({
            let (y, m, d) = civil_from_days_spec(z);
            &&& z >= 0 ==> y >= 1970
            &&& 1 <= m <= 12
            &&& 1 <= d <= days_in_month(y, m)
            &&& days_from_civil(y, m, d) == z
        }),
{
    let z2 = z + 719468;
    let era = z2 / 146097;
    let doe = z2 - era * 146097;
    lemma_era_split(z);
    lemma_era_year(doe as u32);
    lemma_era_leap_day(doe as u32);
    let yoe = (doe - doe / 1460 + doe / 36524 - doe / 146096) / 365;
    let doy = doe - (365 * yoe + yoe / 4 - yoe / 100);
    lemma_year_day(doy as u32);
    let mp = (5 * doy + 2) / 153;
    let d = doy - (153 * mp + 2) / 5 + 1;
    let m = if mp < 10 { mp + 3 } else { mp - 9 };
    let y0 = yoe + era * 400;
    let y = if m <= 2 { y0 + 1 } else { y0 };
    assert(civil_from_days_spec(z) == (y, m, d));
    // The year: era 0 starts in year 0, and day 0 of 1970 lies in era 4.
    if z >= 0 {
        assert(era >= 4) by {
            assert(z2 >= 719468);
            vstd::arithmetic::div_mod::lemma_div_is_ordered(719468, z2, 146097);
        }
    }
    if m == 2 {
        lemma_leap_shift(yoe + 1, era);
    }
    // Counting back.
    let yp = if m <= 2 { y - 1 } else { y };
    assert(yp == y0);
    assert(yp / 400 == era && yp - era * 400 == yoe) by {
        vstd::arithmetic::div_mod::lemma_fundamental_div_mod_converse(yp, 400, era, yoe);
    }
    let mp2 = if m > 2 { m - 3 } else { m + 9 };
    assert(mp2 == mp);
}

/// The date of the day after a day `z`: the next day of the month, the
/// first of the next month after a month's last day, and January 1st of
/// the next year after December 31st.
pub proof fn law_civil_next_day(z: int)
    ensures
        ({
            let (y, m, d) = civil_from_days_spec(z);
            civil_from_days_spec(z + 1) == if d < days_in_month(y, m) {
                (y, m, d + 1)
            } else if m < 12 {
                (y, m + 1, 1)
            } else {
                (y + 1, 1, 1)
            }
        }),
{
    let z2 = z + 719468;
    let era = z2 / 146097;
    let doe = z2 - era * 146097;
    lemma_era_split(z);
    lemma_era_year(doe as u32);
    lemma_era_leap_day(doe as u32);
    let yoe = (doe - doe / 1460 + doe / 36524 - doe / 146096) / 365;
    let doy = doe - (365 * yoe + yoe / 4 - yoe / 100);
    lemma_year_day(doy as u32);
    let mp = (5 * doy + 2) / 153;
    let d = doy - (153 * mp + 2) / 5 + 1;
    let m = if mp < 10 { mp + 3 } else { mp - 9 };
    let y0 = yoe + era * 400;
    let y = if m <= 2 { y0 + 1 } else { y0 };
    assert(civil_from_days_spec(z) == (y, m, d));
    lemma_leap_shift(yoe + 1, era);
    let leap = is_leap_year(yoe + 1);

    // The next day within the era, or the first day of the next era.
    let z3 = z2 + 1;
    let era1 = z3 / 146097;
    let doe1 = z3 - era1 * 146097;
    lemma_era_split(z + 1);
    if doe < 146096 {
        vstd::arithmetic::div_mod::lemma_fundamental_div_mod_converse(z3, 146097, era, doe + 1);
        assert(era1 == era && doe1 == doe + 1);
        lemma_era_next_day(doe as u32);
        let yoe1 = (doe1 - doe1 / 1460 + doe1 / 36524 - doe1 / 146096) / 365;
        let doy1 = doe1 - (365 * yoe1 + yoe1 / 4 - yoe1 / 100);
        let ends = doy == 365 || (doy == 364 && !leap);
        if ends {
            // Last day of February: the next day is March 1st of the same year.
            assert(yoe1 == yoe + 1 && doy1 == 0);
            assert(mp == 11);
            assert(m == 2 && d == doy - 336);
            assert(d == days_in_month(y, m));
            assert(civil_from_days_spec(z + 1) == (yoe + 1 + era * 400, 3int, 1int));
        } else {
            assert(yoe1 == yoe && doy1 == doy + 1);
            assert(doy <= 364);
            lemma_year_next_day(doy as u32);
            let mp1 = (5 * doy1 + 2) / 153;
            let d1 = doy1 - (153 * mp1 + 2) / 5 + 1;
            if mp == 11 {
                assert(mp1 == 11 && d1 == d + 1);
                assert(d < days_in_month(y, m));
            } else {
                let len: int = if mp == 1 || mp == 3 || mp == 6 || mp == 8 { 30 } else { 31 };
                assert(days_in_month(y, m) == len);
                if d < len {
                    assert(mp1 == mp && d1 == d + 1);
                } else {
                    assert(d == len);
                    assert(mp1 == mp + 1 && d1 == 1);
                }
            }
        }
    } else {
        // The era's last day is February 29th of a year divisible by 400.
        assert(doe == 146096);
        vstd::arithmetic::div_mod::lemma_fundamental_div_mod_converse(z3, 146097, era + 1, 0);
        assert(era1 == era + 1 && doe1 == 0);
        assert(yoe == 399 && doy == 365 && mp == 11 && d == 29);
        assert(leap);
        assert(civil_from_days_spec(z + 1) == ((era + 1) * 400, 3int, 1int));
    }
}

} // verus!

verus! {

/// The date `z` days after 1970-01-01 (before it for negative `z`). The
/// era is `z + 719468` divided by 146097 rounded down, also for negative
/// day counts.
pub fn civil_from_days(z: i64) -> (r: (i64, u32, u32))
    requires
        i64::MIN + 146096 <= z + 719468 <= i64::MAX,
    ensures
        (r.0 as int, r.1 as int, r.2 as int) == civil_from_days_spec(z as int),
        z >= 0 ==> r.0 >= 1970,
        1 <= r.1 <= 12,
        1 <= r.2 <= 31,
{
    proof {
        law_civil_date(z as int);
        lemma_era_split(z as int);
    }
    let z2 = z + 719468;
    let era: i64 = if z2 >= 0 {
        (z2 as u64 / 146097) as i64
    } else {
        let n = (-(z2 + 1)) as u64;
        proof {
            let q = n as int / 146097;
            let rem = n as int % 146097;
            vstd::arithmetic::div_mod::lemma_fundamental_div_mod(n as int, 146097);
            vstd::arithmetic::div_mod::lemma_mod_bound(n as int, 146097);
            vstd::arithmetic::div_mod::lemma_fundamental_div_mod_converse(
                z2 as int,
                146097,
                -q - 1,
                146096 - rem,
            );
        }
        -((n / 146097) as i64) - 1
    };
    assert(era == (z2 as int) / 146097);
    let doe = (z2 - era * 146097) as u64;
    proof {
        lemma_era_year(doe as u32);
    }
    let yoe = (doe - doe / 1460 + doe / 36524 - doe / 146096) / 365;
    let y = yoe as i64 + era * 400;
    let doy = doe - (365 * yoe + yoe / 4 - yoe / 100);
    proof {
        lemma_year_day(doy as u32);
    }
    let mp = (5 * doy + 2) / 153;
    let d = (doy - (153 * mp + 2) / 5 + 1) as u32;
    let m = (if mp < 10 { mp + 3 } else { mp - 9 }) as u32;
    let y = if m <= 2 { y + 1 } else { y };
    (y, m, d)
}

/// Two-digit (or wider) zero-padded decimal.
pub open spec fn padded(n: nat, width: nat) -> Seq<char> {
    zero_padded(decimal(n), width)
}

/// The `YYYY-MM-DD HH:MM` (UTC) text of a unix timestamp.
pub open spec fn created_at_text(unix: u64) -> Seq<char> {
    let (y, m, d) = civil_from_days_spec((unix / 86400) as int);
    let secs = unix % 86400;
    padded(y as nat, 4) + seq!['-'] + padded(m as nat, 2) + seq!['-'] + padded(d as nat, 2) + seq![' ']
        + padded((secs / 3600) as nat, 2) + seq![':'] + padded(((secs % 3600) / 60) as nat, 2)
}

/// Formats a unix timestamp as `YYYY-MM-DD HH:MM` in UTC.
pub fn format_created_at(unix: u64) -> (r: String)
    ensures
        r@ == created_at_text(unix),
{
    let days = (unix / 86400) as i64;
    let secs = unix % 86400;
    let (y, m, d) = civil_from_days(days);
    let h = secs / 3600;
    let min = (secs % 3600) / 60;
    let mut out = String::new();
    push_decimal(&mut out, y as u64, 4);
    push_char(&mut out, '-');
    push_decimal(&mut out, m as u64, 2);
    push_char(&mut out, '-');
    push_decimal(&mut out, d as u64, 2);
    push_char(&mut out, ' ');
    push_decimal(&mut out, h, 2);
    push_char(&mut out, ':');
    push_decimal(&mut out, min, 2);
    assert(out@ =~= created_at_text(unix));
    out
}

} // verus!

verus! {

/// `p` lists positions of `s` newest session first: every position once,
/// ordered by creation time (latest first), sessions created at the same
/// time keeping their order.
pub open spec fn newest_first_order(s: Seq<Session>, p: Seq<int>) -> bool {
    &&& p.len() == s.len()
    &&& forall|k: int| 0 <= k < p.len() ==> 0 <= #[trigger] p[k] < s.len()
    &&& forall|k: int, l: int| #![trigger p[k], p[l]] 0 <= k < l < p.len() ==> comes_before(s, p[k], p[l])
}

/// Session `i` of `s` is listed before session `j`: it is newer, or as new
/// and earlier in `s`.
pub open spec fn comes_before(s: Seq<Session>, i: int, j: int) -> bool {
    let a = s[i].created_at_unix;
    let b = s[j].created_at_unix;
    a > b || (a == b && i < j)
}

/// Orders sessions newest first (by creation time, latest first; sessions
/// created at the same time keep their relative order).
pub fn newest_first(sessions: Vec<Session>) -> (r: Vec<Session>)
    ensures
        exists|p: Seq<int>|
            newest_first_order(sessions@, p) && r@.len() == p.len() && forall|k: int|
                0 <= k < p.len() ==> #[trigger] r@[k] == sessions@[p[k]],
{
    let ghost orig = sessions@;
    let mut rest = sessions;
    let mut out: Vec<Session> = Vec::new();
    let ghost mut p: Seq<int> = seq![];
    let n = rest.len();
    let mut i: usize = 0;
    assert(orig.skip(0) =~= orig);
    while i < n
        invariant
            n == orig.len(),
            i <= n,
            rest@ == orig.skip(i as int),
            out@.len() == i,
            p.len() == i,
            forall|k: int| 0 <= k < p.len() ==> 0 <= #[trigger] p[k] < i,
            forall|k: int| 0 <= k < p.len() ==> #[trigger] out@[k] == orig[p[k]],
            forall|k: int, l: int| #![trigger p[k], p[l]] 0 <= k < l < p.len() ==> comes_before(orig, p[k], p[l]),
        decreases n - i,
    {
        let x = rest.remove(0);
        assert(x == orig[i as int]);
        assert(rest@ =~= orig.skip(i + 1));
        let key = x.created_at_unix;
        let mut j: usize = 0;
        while j < out.len() && out[j].created_at_unix >= key
            invariant
                j <= out@.len(),
                forall|k: int| 0 <= k < j ==> (#[trigger] out@[k]).created_at_unix >= key,
            decreases out@.len() - j,
        {
            j = j + 1;
        }
        let ghost old_p = p;
        let ghost old_out = out@;
        out.insert(j, x);
        proof {
            p = old_p.insert(j as int, i as int);
            assert forall|k: int| 0 <= k < p.len() implies #[trigger] out@[k] == orig[p[k]] by {
                if k < j {
                    assert(out@[k] == old_out[k]);
                } else if k > j {
                    assert(out@[k] == old_out[k - 1]);
                    assert(p[k] == old_p[k - 1]);
                }
            }
            assert forall|k: int| 0 <= k < p.len() implies 0 <= #[trigger] p[k] < i + 1 by {
                if k < j {
                    assert(p[k] == old_p[k]);
                } else if k > j {
                    assert(p[k] == old_p[k - 1]);
                }
            }
            assert forall|k: int, l: int| #![trigger p[k], p[l]] 0 <= k < l < p.len() implies comes_before(orig, p[k], p[l]) by {
                if l < j {
                    assert(p[k] == old_p[k] && p[l] == old_p[l]);
                } else if l == j {
                    assert(p[k] == old_p[k]);
                    assert(old_out[k].created_at_unix >= key);
                    assert(old_out[k] == orig[old_p[k]]);
                } else if k == j {
                    assert(p[l] == old_p[l - 1]);
                    // old_out[j] has a strictly older time, and so has everything after it.
                    assert(j < old_out.len());
                    assert(old_out[j as int].created_at_unix < key);
                    assert(old_out[j as int] == orig[old_p[j as int]]);
                    if l - 1 > j {
                        assert(comes_before(orig, old_p[j as int], old_p[l - 1]));
                    }
                } else if k < j {
                    assert(p[k] == old_p[k] && p[l] == old_p[l - 1]);
                } else {
                    assert(p[k] == old_p[k - 1] && p[l] == old_p[l - 1]);
                }
            }
        }
        i = i + 1;
    }
    assert(newest_first_order(orig, p));
    out
}

} // verus!

verus! {

/// The current time as seconds since the unix epoch (`SystemTime::now`
/// measured from `UNIX_EPOCH`, 0 if the clock is before it). Nothing is
/// claimed about the value.
#[verifier::external_body]
fn unix_now() -> u64 {
    std::time::SystemTime::now().duration_since(std::time::UNIX_EPOCH).map(|d| d.as_secs()).unwrap_or(0)
}

/// `rand::random::<u32>()`: a random number; nothing is claimed about it.
#[verifier::external_body]
fn random_u32() -> u32 {
    rand::random::<u32>()
}

/// The id of a session created at `created_at` with random `nonce`.
pub open spec fn session_id(created_at: u64, nonce: u32) -> Seq<char> {
    decimal(created_at as nat) + seq!['-'] + decimal(nonce as nat)
}

/// The default name of the session created after `existing_count` others.
pub open spec fn session_name(existing_count: usize) -> Seq<char> {
    "Session "@ + decimal(existing_count as nat + 1)
}

/// A new, empty session created at `created_at`, told apart by `nonce`.
pub fn session_with(existing_count: usize, created_at: u64, nonce: u32) -> (s: Session)
    requires
        existing_count < usize::MAX,
    ensures
        s.id@ == session_id(created_at, nonce),
        s.name@ == session_name(existing_count),
        s.created_at_unix == created_at,
        s.key_history@.len() == 0,
{
    let mut id = String::new();
    let d1 = decimal_chars(created_at);
    push_chars(&mut id, &d1);
    push_char(&mut id, '-');
    let d2 = decimal_chars(nonce as u64);
    push_chars(&mut id, &d2);
    assert(id@ =~= session_id(created_at, nonce));
    let mut name = owned("Session ");
    let d3 = decimal_chars((existing_count + 1) as u64);
    push_chars(&mut name, &d3);
    Session { id, name, created_at_unix: created_at, key_history: Vec::new() }
}

/// A new, empty session created now, with a unique id (creation time and a
/// random number) and the default name "Session <n>".
pub fn new_session(existing_count: usize) -> (s: Session)
    requires
        existing_count < usize::MAX,
    ensures
        exists|nonce: u32| s.id@ == session_id(s.created_at_unix, nonce),
        s.name@ == session_name(existing_count),
        s.key_history@.len() == 0,
{
    let created_at = unix_now();
    let nonce = random_u32();
    session_with(existing_count, created_at, nonce)
}

/// The abstract value of a key history.
pub open spec fn entries_view(h: Seq<KeyEntry>) -> Seq<(Seq<char>, usize)> {
    h.map_values(|e: KeyEntry| (e.name@, e.bits))
}

/// A key history is well formed: no empty name, no name twice.
pub open spec fn history_ok(h: Seq<(Seq<char>, usize)>) -> bool {
    &&& forall|k: int| 0 <= k < h.len() ==> (#[trigger] h[k]).0.len() > 0
    &&& forall|k: int, l: int| 0 <= k < l < h.len() ==> (#[trigger] h[k]).0 != (#[trigger] h[l]).0
}

/// Whether the history already holds `name`.
pub open spec fn has_name(h: Seq<(Seq<char>, usize)>, name: Seq<char>) -> bool {
    exists|k: int| 0 <= k < h.len() && (#[trigger] h[k]).0 == name
}

/// Adds a key/IV to the shared history, newest first: an empty name or one
/// already present leaves the history as it is; otherwise the entry (with
/// its size in bits) goes to the front.
pub fn add_key_history(history: &mut Vec<KeyEntry>, name: String, length_bytes: usize)
    requires
        length_bytes <= usize::MAX / 8,
    ensures
        name@.len() == 0 || has_name(entries_view(old(history)@), name@) ==> entries_view(final(history)@)
            == entries_view(old(history)@),
        name@.len() > 0 && !has_name(entries_view(old(history)@), name@) ==> entries_view(final(history)@)
            == entries_view(old(history)@).insert(0, (name@, (length_bytes * 8) as usize)),
        history_ok(entries_view(old(history)@)) ==> history_ok(entries_view(final(history)@)),
        name@.len() > 0 ==> has_name(entries_view(final(history)@), name@),
{
    let ghost hv = entries_view(history@);
    if name.as_str().unicode_len() == 0 {
        return;
    }
    let mut i: usize = 0;
    while i < history.len()
        invariant
            hv == entries_view(history@),
            i <= history@.len(),
            forall|k: int| 0 <= k < i ==> hv[k].0 != name@,
        decreases history@.len() - i,
    {
        if history[i].name == name {
            assert(hv[i as int].0 == name@);
            return;
        }
        i = i + 1;
    }
    let ghost nv = name@;
    history.insert(0, KeyEntry { name, bits: length_bytes * 8 });
    proof {
        assert(entries_view(history@) =~= hv.insert(0, (nv, (length_bytes * 8) as usize)));
        let h2 = entries_view(history@);
        assert(h2[0].0 == nv);
        if history_ok(hv) {
            assert forall|k: int, l: int| 0 <= k < l < h2.len() implies (#[trigger] h2[k]).0 != (#[trigger] h2[l]).0 by {
                if k == 0 {
                    assert(h2[l] == hv[l - 1]);
                } else {
                    assert(h2[k] == hv[k - 1] && h2[l] == hv[l - 1]);
                }
            }
            assert forall|k: int| 0 <= k < h2.len() implies (#[trigger] h2[k]).0.len() > 0 by {
                if k > 0 {
                    assert(h2[k] == hv[k - 1]);
                }
            }
        }
    }
}

} // verus!
