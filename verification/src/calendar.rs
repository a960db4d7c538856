//! Points in time in text form (RFC 3339).

use crate::text::{dec, dec_padded, digit_char, push_dec, push_padded, push_text};
use vstd::prelude::*;

verus! {

/// The year has a 29th of February (Gregorian calendar).
pub open spec fn is_leap(y: int) -> bool {
    y % 4 == 0 && (y % 100 != 0 || y % 400 == 0)
}

/// Days of the year before month `m`, leap days aside.
pub open spec fn days_before_month(m: int) -> int {
    if m == 1 {
        0
    } else if m == 2 {
        31
    } else if m == 3 {
        59
    } else if m == 4 {
        90
    } else if m == 5 {
        120
    } else if m == 6 {
        151
    } else if m == 7 {
        181
    } else if m == 8 {
        212
    } else if m == 9 {
        243
    } else if m == 10 {
        273
    } else if m == 11 {
        304
    } else {
        334
    }
}

/// Days of month `m` in year `y`.
pub open spec fn days_in_month(y: int, m: int) -> int {
    if m == 2 {
        if is_leap(y) {
            29
        } else {
            28
        }
    } else if m == 4 || m == 6 || m == 9 || m == 11 {
        30
    } else {
        31
    }
}

/// Days before the first of January of year `y`, counted from year 1.
pub open spec fn days_before_year(y: int) -> int {
    365 * (y - 1) + (y - 1) / 4 - (y - 1) / 100 + (y - 1) / 400
}

/// The number of a day, counted from year 1.
pub open spec fn day_number(y: int, m: int, d: int) -> int {
    days_before_year(y) + days_before_month(m) + (if m > 2 && is_leap(y) {
        1int
    } else {
        0
    }) + d - 1
}

/// The date exists.
pub open spec fn is_date(y: int, m: int, d: int) -> bool {
    1 <= m <= 12 && 1 <= d <= days_in_month(y, m)
}

/// The number of the first of January 1970.
pub open spec fn epoch_day() -> int {
    719_162
}

/// The date is that of the day on which `secs` after the epoch fall.
pub open spec fn falls_on(secs: int, y: int, m: int, d: int) -> bool {
    is_date(y, m, d) && day_number(y, m, d) == epoch_day() + secs / 86_400
}

/// A date and the time of day, as RFC 3339 writes them.
pub open spec fn rfc3339(y: int, m: int, d: int, secs: int) -> Seq<char> {
    let t = secs % 86_400;
    dec(y as nat) + "-"@ + dec_padded(m as nat, 2) + "-"@ + dec_padded(d as nat, 2) + "T"@
        + dec_padded((t / 3600) as nat, 2) + ":"@ + dec_padded((t % 3600 / 60) as nat, 2) + ":"@
        + dec_padded((t % 60) as nat, 2) + "Z"@
}

/// Days before year `k` of a period of 400 years that starts in March.
pub open spec fn march_start(k: int) -> int {
    365 * k + k / 4 - k / 100
}

proof fn lemma_year_of_era(doe: int, yoe: int)
    requires
        0 <= doe <= 146_096,
        yoe == (doe - doe / 1460 + doe / 36_524 - doe / 146_096) / 365,
    ensures
        0 <= yoe <= 399,
        0 <= doe - march_start(yoe) <= 365,
        doe - march_start(yoe) == 365 ==> (yoe + 1) % 4 == 0 && ((yoe + 1) % 100 != 0 || yoe
            == 399),
{
    let c = doe / 36_524;
    let r = doe % 36_524;
    assert(doe == 36_524 * c + r);
    assert(0 <= c <= 4);
    let f = doe / 1460;
    let z = doe / 146_096;
    assert(0 <= z <= 1);
    let n = doe - f + c - z;
    assert(n == 365 * yoe + n % 365);
    assert(1460 * f <= doe < 1460 * f + 1460);
}

proof fn lemma_month(doy: int, mp: int, d: int)
    requires
        0 <= doy <= 365,
        mp == (5 * doy + 2) / 153,
        d == doy - (153 * mp + 2) / 5 + 1,
    ensures
        0 <= mp <= 11,
        1 <= d <= 31,
        mp == 1 || mp == 3 || mp == 6 || mp == 8 ==> d <= 30,
        mp == 11 ==> d <= 29,
        mp == 11 && d == 29 ==> doy == 365,
        doy == (153 * mp + 2) / 5 + d - 1,
{
}

proof fn lemma_date(era: int, yoe: int, doy: int, mp: int, d: int, m: int, y: int)
    requires
        0 <= era,
        0 <= yoe <= 399,
        0 <= doy <= 365,
        doy == 365 ==> (yoe + 1) % 4 == 0 && ((yoe + 1) % 100 != 0 || yoe == 399),
        0 <= mp <= 11,
        1 <= d <= 31,
        mp == 1 || mp == 3 || mp == 6 || mp == 8 ==> d <= 30,
        mp == 11 ==> d <= 29,
        mp == 11 && d == 29 ==> doy == 365,
        doy == (153 * mp + 2) / 5 + d - 1,
        m == (if mp < 10 {
            mp + 3
        } else {
            mp - 9
        }),
        y == 400 * era + yoe + (if m <= 2 {
            1int
        } else {
            0
        }),
        y >= 1,
    ensures
        is_date(y, m, d),
        day_number(y, m, d) == 146_097 * era + march_start(yoe) + doy - 306,
{
    let k = if m <= 2 {
        yoe + 1
    } else {
        yoe
    };
    assert(y == 400 * era + k);
    assert(y % 4 == k % 4);
    assert(y % 100 == k % 100);
    assert(y % 400 == k % 400);
    assert((y - 1) / 4 == 100 * era + (k - 1) / 4);
    assert((y - 1) / 100 == 4 * era + (k - 1) / 100);
    assert((y - 1) / 400 == era + (k - 1) / 400);
}

/// A point in time, given in seconds since 1970, as RFC 3339 writes it; none before 1970.
pub fn chrono_rfc3339(unix: i64) -> (r: Option<String>)
    ensures
        match r {
            None => unix < 0,
            Some(s) => unix >= 0 && exists|y: int, m: int, d: int|
                #[trigger] falls_on(unix as int, y, m, d) && s@ == rfc3339(y, m, d, unix as int),
        },
{
    if unix < 0 {
        return None;
    }
    let secs: u64 = unix as u64;
    let t: u64 = secs % 86_400;
    let days: u64 = secs / 86_400 + 719_468;
    let era: u64 = days / 146_097;
    let doe: u64 = days % 146_097;
    let yoe: u64 = (doe - doe / 1460 + doe / 36_524 - doe / 146_096) / 365;
    proof {
        lemma_year_of_era(doe as int, yoe as int);
    }
    let doy: u64 = doe - (365 * yoe + yoe / 4 - yoe / 100);
    let mp: u64 = (5 * doy + 2) / 153;
    proof {
        lemma_month(doy as int, mp as int, doy as int - (153 * mp as int + 2) / 5 + 1);
    }
    let d: u64 = doy - (153 * mp + 2) / 5 + 1;
    let m: u64 = if mp < 10 {
        mp + 3
    } else {
        mp - 9
    };
    let y: u64 = yoe + era * 400 + (if m <= 2 {
        1
    } else {
        0
    });
    proof {
        assert(days == 146_097 * era + doe);
        assert(era >= 4);
        lemma_date(
            era as int,
            yoe as int,
            doy as int,
            mp as int,
            d as int,
            m as int,
            y as int,
        );
        assert(falls_on(unix as int, y as int, m as int, d as int));
    }
    let mut s = String::new();
    push_dec(&mut s, y);
    push_text(&mut s, "-");
    push_padded(&mut s, m, 2);
    push_text(&mut s, "-");
    push_padded(&mut s, d, 2);
    push_text(&mut s, "T");
    push_padded(&mut s, t / 3600, 2);
    push_text(&mut s, ":");
    push_padded(&mut s, t % 3600 / 60, 2);
    push_text(&mut s, ":");
    push_padded(&mut s, t % 60, 2);
    push_text(&mut s, "Z");
    assert(s@ =~= rfc3339(y as int, m as int, d as int, unix as int));
    Some(s)
}

/// The text `a` comes before `b`: at the first place at which they differ, it has the lesser
/// character.
pub open spec fn comes_before(a: Seq<char>, b: Seq<char>) -> bool {
    exists|k: int| #[trigger] differ_at(a, b, k)
}

/// The first place at which two texts differ is `k`, and `a` has the lesser character there.
pub open spec fn differ_at(a: Seq<char>, b: Seq<char>, k: int) -> bool {
    &&& 0 <= k < a.len()
    &&& k < b.len()
    &&& forall|j: int| 0 <= j < k ==> a[j] == b[j]
    &&& a[k] < b[k]
}

/// The last second of the year 9999.
pub open spec fn last_four_digit_second() -> int {
    253_402_300_799
}

proof fn lemma_year_step(y: int)
    ensures
        days_before_year(y + 1) == days_before_year(y) + (if is_leap(y) {
            366int
        } else {
            365
        }),
{
    assert(y / 4 == (y - 1) / 4 + (if y % 4 == 0 {
        1int
    } else {
        0
    }));
    assert(y / 100 == (y - 1) / 100 + (if y % 100 == 0 {
        1int
    } else {
        0
    }));
    assert(y / 400 == (y - 1) / 400 + (if y % 400 == 0 {
        1int
    } else {
        0
    }));
}

proof fn lemma_years_grow(y: int, z: int)
    requires
        y <= z,
    ensures
        days_before_year(y) <= days_before_year(z),
    decreases z - y,
{
    if y < z {
        lemma_years_grow(y, z - 1);
        lemma_year_step(z - 1);
    }
}

proof fn lemma_day_in_year(y: int, m: int, d: int)
    requires
        is_date(y, m, d),
    ensures
        days_before_year(y) <= day_number(y, m, d) < days_before_year(y + 1),
{
    lemma_year_step(y);
}

proof fn lemma_later_year(y: int, m: int, d: int, y2: int, m2: int, d2: int)
    requires
        is_date(y, m, d),
        is_date(y2, m2, d2),
        y < y2,
    ensures
        day_number(y, m, d) < day_number(y2, m2, d2),
{
    lemma_day_in_year(y, m, d);
    lemma_day_in_year(y2, m2, d2);
    lemma_years_grow(y + 1, y2);
}

proof fn lemma_later_month(y: int, m: int, d: int, m2: int, d2: int)
    requires
        is_date(y, m, d),
        is_date(y, m2, d2),
        m < m2,
    ensures
        day_number(y, m, d) < day_number(y, m2, d2),
{
}

// A later day has a later date, and a date between 1970 and 9999.
proof fn lemma_dates_in_order(
    a: int,
    ya: int,
    ma: int,
    da: int,
    b: int,
    yb: int,
    mb: int,
    db: int,
)
    requires
        a <= b,
        falls_on(a, ya, ma, da),
        falls_on(b, yb, mb, db),
    ensures
        ya < yb || (ya == yb && (ma < mb || (ma == mb && da <= db))),
        a / 86_400 == b / 86_400 ==> ya == yb && ma == mb && da == db,
        a / 86_400 < b / 86_400 ==> !(ya == yb && ma == mb && da == db),
{
    assert(a / 86_400 <= b / 86_400);
    if yb < ya {
        lemma_later_year(yb, mb, db, ya, ma, da);
    } else if ya < yb {
        lemma_later_year(ya, ma, da, yb, mb, db);
    } else if mb < ma {
        lemma_later_month(ya, mb, db, ma, da);
    } else if ma < mb {
        lemma_later_month(ya, ma, da, mb, db);
    }
}

proof fn lemma_four_digit_year(secs: int, y: int, m: int, d: int)
    requires
        0 <= secs <= last_four_digit_second(),
        falls_on(secs, y, m, d),
    ensures
        1970 <= y <= 9999,
{
    if y < 1970 {
        lemma_day_in_year(y, m, d);
        lemma_years_grow(y + 1, 1970);
        assert(days_before_year(1970) == 719_162);
    }
    if y > 9999 {
        lemma_day_in_year(y, m, d);
        lemma_years_grow(10_000, y);
        assert(days_before_year(10_000) == 3_652_059);
        assert(secs / 86_400 <= 2_932_896);
    }
}

proof fn lemma_two_digits(n: nat)
    requires
        n < 100,
    ensures
        dec_padded(n, 2) =~= seq![digit_char(n / 10), digit_char(n % 10)],
{
    reveal_with_fuel(dec_padded, 3);
}

proof fn lemma_four_digits(n: nat)
    requires
        1000 <= n <= 9999,
    ensures
        dec(n) =~= seq![
            digit_char(n / 1000),
            digit_char(n / 100 % 10),
            digit_char(n / 10 % 10),
            digit_char(n % 10),
        ],
{
    reveal_with_fuel(dec, 4);
    assert(n / 10 / 10 == n / 100);
    assert(n / 10 / 10 / 10 == n / 1000);
}

// The four digits of a number stand at the start of a text.
spec fn four_at_start(s: Seq<char>, n: int) -> bool {
    &&& s[0] == digit_char((n / 1000) as nat)
    &&& s[1] == digit_char((n / 100 % 10) as nat)
    &&& s[2] == digit_char((n / 10 % 10) as nat)
    &&& s[3] == digit_char((n % 10) as nat)
}

// The two digits of a number stand at a place in a text.
spec fn two_at(s: Seq<char>, at: int, n: int) -> bool {
    s[at] == digit_char((n / 10) as nat) && s[at + 1] == digit_char((n % 10) as nat)
}

// The twenty characters of a point in time.
spec fn shows(s: Seq<char>, y: int, m: int, d: int, hh: int, mm: int, ss: int) -> bool {
    &&& s.len() == 20
    &&& four_at_start(s, y)
    &&& s[4] == '-'
    &&& two_at(s, 5, m)
    &&& s[7] == '-'
    &&& two_at(s, 8, d)
    &&& s[10] == 'T'
    &&& two_at(s, 11, hh)
    &&& s[13] == ':'
    &&& two_at(s, 14, mm)
    &&& s[16] == ':'
    &&& two_at(s, 17, ss)
    &&& s[19] == 'Z'
}

proof fn lemma_twenty_characters(y: int, m: int, d: int, secs: int)
    requires
        1000 <= y <= 9999,
        0 <= m < 100,
        0 <= d < 100,
        0 <= secs,
    ensures
        shows(
            rfc3339(y, m, d, secs),
            y,
            m,
            d,
            secs % 86_400 / 3600,
            secs % 86_400 % 3600 / 60,
            secs % 86_400 % 60,
        ),
{
    let t = secs % 86_400;
    reveal_strlit("-");
    reveal_strlit("T");
    reveal_strlit(":");
    reveal_strlit("Z");
    lemma_four_digits(y as nat);
    lemma_two_digits(m as nat);
    lemma_two_digits(d as nat);
    lemma_two_digits((t / 3600) as nat);
    lemma_two_digits((t % 3600 / 60) as nat);
    lemma_two_digits((t % 60) as nat);
}

proof fn lemma_digit_order(p: int, q: int)
    requires
        0 <= p < q < 10,
    ensures
        digit_char(p as nat) < digit_char(q as nat),
{
}

// Texts that agree up to a number of two digits come in the order of the numbers.
proof fn lemma_two_decide(x: Seq<char>, z: Seq<char>, at: int, n: int, o: int)
    requires
        0 <= n < o < 100,
        0 <= at,
        at + 1 < x.len(),
        x.len() == z.len(),
        forall|j: int| 0 <= j < at ==> x[j] == z[j],
        two_at(x, at, n),
        two_at(z, at, o),
    ensures
        comes_before(x, z),
{
    if n / 10 != o / 10 {
        lemma_digit_order(n / 10, o / 10);
        assert(differ_at(x, z, at));
    } else {
        lemma_digit_order(n % 10, o % 10);
        assert(differ_at(x, z, at + 1));
    }
}

// The first digit at which two numbers of four digits differ decides which is less.
proof fn lemma_four_digit_order(n: int, o: int)
    requires
        1000 <= n < o <= 9999,
    ensures
        0 < n / 1000 <= o / 1000 < 10,
        n / 1000 == o / 1000 ==> 0 <= n / 100 % 10 <= o / 100 % 10 < 10,
        n / 1000 == o / 1000 && n / 100 % 10 == o / 100 % 10 ==> 0 <= n / 10 % 10 <= o / 10 % 10
            < 10,
        n / 1000 == o / 1000 && n / 100 % 10 == o / 100 % 10 && n / 10 % 10 == o / 10 % 10 ==> 0
            <= n % 10 < o % 10 < 10,
{
    let (a, b, c) = (n / 1000, n / 100, n / 10);
    let (p, q, r) = (o / 1000, o / 100, o / 10);
    assert(b / 10 == a && c / 10 == b);
    assert(q / 10 == p && r / 10 == q);
    assert(b == 10 * a + b % 10);
    assert(c == 10 * b + c % 10);
    assert(n == 10 * c + n % 10);
    assert(q == 10 * p + q % 10);
    assert(r == 10 * q + r % 10);
    assert(o == 10 * r + o % 10);
    assert(a <= p && b <= q && c <= r);
}

// Texts that start with a number of four digits come in the order of the numbers.
proof fn lemma_four_decide(x: Seq<char>, z: Seq<char>, n: int, o: int)
    requires
        1000 <= n < o <= 9999,
        x.len() == 20,
        z.len() == 20,
        four_at_start(x, n),
        four_at_start(z, o),
    ensures
        comes_before(x, z),
{
    lemma_four_digit_order(n, o);
    if n / 1000 != o / 1000 {
        lemma_digit_order(n / 1000, o / 1000);
        assert(differ_at(x, z, 0));
    } else if n / 100 % 10 != o / 100 % 10 {
        lemma_digit_order(n / 100 % 10, o / 100 % 10);
        assert(differ_at(x, z, 1));
    } else if n / 10 % 10 != o / 10 % 10 {
        lemma_digit_order(n / 10 % 10, o / 10 % 10);
        assert(differ_at(x, z, 2));
    } else {
        lemma_digit_order(n % 10, o % 10);
        assert(differ_at(x, z, 3));
    }
}

// Of two texts the first field that differs decides.
proof fn lemma_fields_decide(
    x: Seq<char>,
    z: Seq<char>,
    a: (int, int, int, int, int, int),
    b: (int, int, int, int, int, int),
)
    requires
        shows(x, a.0, a.1, a.2, a.3, a.4, a.5),
        shows(z, b.0, b.1, b.2, b.3, b.4, b.5),
        1000 <= a.0 <= 9999,
        1000 <= b.0 <= 9999,
        0 <= a.1 < 100 && 0 <= a.2 < 100 && 0 <= a.3 < 100 && 0 <= a.4 < 100 && 0 <= a.5 < 100,
        0 <= b.1 < 100 && 0 <= b.2 < 100 && 0 <= b.3 < 100 && 0 <= b.4 < 100 && 0 <= b.5 < 100,
        ({
            ||| a.0 < b.0
            ||| a.0 == b.0 && a.1 < b.1
            ||| a.0 == b.0 && a.1 == b.1 && a.2 < b.2
            ||| a.0 == b.0 && a.1 == b.1 && a.2 == b.2 && a.3 < b.3
            ||| a.0 == b.0 && a.1 == b.1 && a.2 == b.2 && a.3 == b.3 && a.4 < b.4
            ||| a.0 == b.0 && a.1 == b.1 && a.2 == b.2 && a.3 == b.3 && a.4 == b.4 && a.5 < b.5
        }),
    ensures
        comes_before(x, z),
{
    if a.0 < b.0 {
        lemma_four_decide(x, z, a.0, b.0);
    } else if a.1 < b.1 {
        lemma_two_decide(x, z, 5, a.1, b.1);
    } else if a.2 < b.2 {
        lemma_two_decide(x, z, 8, a.2, b.2);
    } else if a.3 < b.3 {
        lemma_two_decide(x, z, 11, a.3, b.3);
    } else if a.4 < b.4 {
        lemma_two_decide(x, z, 14, a.4, b.4);
    } else {
        lemma_two_decide(x, z, 17, a.5, b.5);
    }
}

// The time of day in hours, minutes and seconds comes in order.
proof fn lemma_times_in_order(s: int, t: int)
    requires
        0 <= s < t < 86_400,
    ensures
        ({
            ||| s / 3600 < t / 3600
            ||| s / 3600 == t / 3600 && s % 3600 / 60 < t % 3600 / 60
            ||| s / 3600 == t / 3600 && s % 3600 / 60 == t % 3600 / 60 && s % 60 < t % 60
        }),
{
    assert(s % 60 == s % 3600 % 60);
    assert(t % 60 == t % 3600 % 60);
}

/// Up to the year 9999 the text of a point in time has twenty characters, and a later time
/// has a later text; so different times have different texts.
pub proof fn law_later_times_print_later(
    a: int,
    ya: int,
    ma: int,
    da: int,
    b: int,
    yb: int,
    mb: int,
    db: int,
)
    requires
        0 <= a < b <= last_four_digit_second(),
        falls_on(a, ya, ma, da),
        falls_on(b, yb, mb, db),
    ensures
        rfc3339(ya, ma, da, a).len() == 20,
        rfc3339(yb, mb, db, b).len() == 20,
        comes_before(rfc3339(ya, ma, da, a), rfc3339(yb, mb, db, b)),
{
    lemma_four_digit_year(a, ya, ma, da);
    lemma_four_digit_year(b, yb, mb, db);
    lemma_dates_in_order(a, ya, ma, da, b, yb, mb, db);
    lemma_twenty_characters(ya, ma, da, a);
    lemma_twenty_characters(yb, mb, db, b);
    let s = a % 86_400;
    let t = b % 86_400;
    if a / 86_400 == b / 86_400 {
        lemma_times_in_order(s, t);
    }
    lemma_fields_decide(
        rfc3339(ya, ma, da, a),
        rfc3339(yb, mb, db, b),
        (ya, ma, da, s / 3600, s % 3600 / 60, s % 60),
        (yb, mb, db, t / 3600, t % 3600 / 60, t % 60),
    );
}

/// Days follow each other without a gap: the day after a date is the next day of the month, or
/// the first of the next month, or of the next year.
pub proof fn law_days_follow_each_other(y: int, m: int, d: int)
    requires
        is_date(y, m, d),
    ensures
        d < days_in_month(y, m) ==> day_number(y, m, d + 1) == day_number(y, m, d) + 1,
        d == days_in_month(y, m) && m < 12 ==> day_number(y, m + 1, 1) == day_number(y, m, d) + 1,
        d == days_in_month(y, m) && m == 12 ==> day_number(y + 1, 1, 1) == day_number(y, m, d) + 1,
{
    if m == 12 && d == 31 {
        let k = y - 1;
        assert((k + 1) / 4 - k / 4 == (if y % 4 == 0 {
            1int
        } else {
            0
        }));
        assert((k + 1) / 100 - k / 100 == (if y % 100 == 0 {
            1int
        } else {
            0
        }));
        assert((k + 1) / 400 - k / 400 == (if y % 400 == 0 {
            1int
        } else {
            0
        }));
    }
}

} // verus!
