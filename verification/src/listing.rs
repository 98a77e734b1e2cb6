//! The page that lists a folder without an `index.html`. Hidden names are left
//! out, as they are not served either.

use vstd::arithmetic::div_mod::{lemma_fundamental_div_mod, lemma_fundamental_div_mod_converse};
use vstd::prelude::*;

use crate::text;
use crate::text::{digits, escaped, zero_padded};

verus! {

// ---------------------------------------------------------------------------
// Dates
// ---------------------------------------------------------------------------

/// The year has 366 days.
pub open spec fn leap(y: int) -> bool {
    y % 4 == 0 && (y % 100 != 0 || y % 400 == 0)
}

/// The days of month `m` of year `y`.
pub open spec fn month_days(y: int, m: int) -> int {
    if m == 2 {
        if leap(y) {
            29
        } else {
            28
        }
    } else if m == 4 || m == 6 || m == 9 || m == 11 {
        30
    } else {
        31
    }
}

/// There is such a date.
pub open spec fn valid_date(y: int, m: int, d: int) -> bool {
    1 <= m <= 12 && 1 <= d <= month_days(y, m)
}

/// The days from 1 March of the year 0 to the first day of March of year `y`.
pub open spec fn years_days(y: int) -> int {
    365 * y + y / 4 - y / 100 + y / 400
}

/// The days from 1 March of the year 0 to the date.
pub open spec fn day_number(y: int, m: int, d: int) -> int {
    if m <= 2 {
        years_days(y - 1) + (153 * (m + 9) + 2) / 5 + d - 1
    } else {
        years_days(y) + (153 * (m - 3) + 2) / 5 + d - 1
    }
}

proof fn lemma_div_step(y: int, k: int)
    requires
        k >= 2,
    ensures
        (y + 1) % k == 0 ==> (y + 1) / k == y / k + 1,
        (y + 1) % k != 0 ==> (y + 1) / k == y / k,
{
    let q = y / k;
    let r = y % k;
    lemma_fundamental_div_mod(y, k);
    assert(k * q == q * k) by (nonlinear_arith);
    if r == k - 1 {
        assert((q + 1) * k == q * k + k) by (nonlinear_arith);
        lemma_fundamental_div_mod_converse(y + 1, k, q + 1, 0);
    } else {
        lemma_fundamental_div_mod_converse(y + 1, k, q, r + 1);
    }
}

proof fn lemma_year_step(y: int)
    ensures
        years_days(y + 1) - years_days(y) == if leap(y + 1) {
            366int
        } else {
            365int
        },
{
    lemma_div_step(y, 4);
    lemma_div_step(y, 100);
    lemma_div_step(y, 400);
    let n = y + 1;
    assert(n % 400 == 0 ==> n % 100 == 0);
    assert(n % 100 == 0 ==> n % 4 == 0);
}

/// The day after a date has the next number: within a month, from the last day of
/// a month to the first of the next, and from 31 December to 1 January.
pub proof fn lemma_days_follow(y: int, m: int, d: int)
    requires
        valid_date(y, m, d),
    ensures
        d < month_days(y, m) ==> day_number(y, m, d + 1) == day_number(y, m, d) + 1,
        d == month_days(y, m) && m < 12 ==> day_number(y, m + 1, 1) == day_number(y, m, d) + 1,
        d == month_days(y, m) && m == 12 ==> day_number(y + 1, 1, 1) == day_number(y, m, d) + 1,
{
    lemma_year_step(y - 1);
}

/// The year of a 400-year cycle that day `doe` of the cycle lies in.
pub open spec fn cycle_year(doe: int) -> int {
    (doe - doe / 1460 + doe / 36_524 - doe / 146_096) / 365
}

proof fn lemma_cycle_year(doe: int)
    requires
        0 <= doe <= 146_096,
    ensures
        0 <= cycle_year(doe) <= 399,
        365 * cycle_year(doe) + cycle_year(doe) / 4 - cycle_year(doe) / 100 <= doe,
        doe < 365 * (cycle_year(doe) + 1) + (cycle_year(doe) + 1) / 4 - (cycle_year(doe) + 1) / 100
            + (cycle_year(doe) + 1) / 400,
{
    let y = cycle_year(doe);
    let a = doe / 1460;
    let b = doe / 36_524;
    let c = doe / 146_096;
    assert(0 <= a <= 100 && 0 <= b <= 4 && 0 <= c <= 1);
    assert(365 * y <= doe - a + b - c < 365 * y + 365);
    assert(1460 * a <= doe < 1460 * a + 1460);
    assert(36_524 * b <= doe < 36_524 * b + 36_524);
    let q = y / 4;
    let h = y / 100;
    assert(4 * q <= y < 4 * q + 4);
    assert(100 * h <= y < 100 * h + 100);
    if b == 0 {
        assert(y <= 100);
    } else if b == 1 {
        assert(100 <= y <= 200);
    } else if b == 2 {
        assert(200 <= y <= 300);
    } else if b == 3 {
        assert(300 <= y <= 400);
    }
}

/// The date that lies `z` days after 1 March of the year 0.
pub fn days_to_ymd(z: i64) -> (r: (i64, u32, u32))
    requires
        z >= i64::MIN + 146_096,
    ensures
        valid_date(r.0 as int, r.1 as int, r.2 as int),
        day_number(r.0 as int, r.1 as int, r.2 as int) == z,
{
    let era: i64 = if z >= 0 {
        z / 146_097
    } else {
        -1 - (-1 - z) / 146_097
    };
    proof {
        lemma_era(z as int, era as int);
    }
    let doe: i64 = z - era * 146_097;
    let yoe: i64 = (doe - doe / 1460 + doe / 36_524 - doe / 146_096) / 365;
    proof {
        lemma_cycle_year(doe as int);
    }
    let doy: i64 = doe - (365 * yoe + yoe / 4 - yoe / 100);
    let mp: i64 = (5 * doy + 2) / 153;
    let d: u32 = (doy - (153 * mp + 2) / 5 + 1) as u32;
    let m: u32 = if mp < 10 {
        (mp + 3) as u32
    } else {
        (mp - 9) as u32
    };
    let y: i64 = yoe + era * 400;
    let year: i64 = if m <= 2 {
        y + 1
    } else {
        y
    };
    proof {
        lemma_civil(era as int, yoe as int, doy as int);
    }
    (year, m, d)
}

proof fn lemma_era(z: int, era: int)
    requires
        era == if z >= 0 {
            z / 146_097
        } else {
            -1 - (-1 - z) / 146_097
        },
    ensures
        0 <= z - era * 146_097 <= 146_096,
{
}

proof fn lemma_cycle_offset(era: int, yoe: int)
    requires
        0 <= yoe <= 399,
    ensures
        years_days(yoe + era * 400) == era * 146_097 + 365 * yoe + yoe / 4 - yoe / 100,
{
    let y = yoe + era * 400;
    lemma_fundamental_div_mod_converse(y, 4, yoe / 4 + era * 100, yoe % 4);
    lemma_fundamental_div_mod_converse(y, 100, yoe / 100 + era * 4, yoe % 100);
    lemma_fundamental_div_mod_converse(y, 400, era, yoe);
}

proof fn lemma_cycle_leap(era: int, yoe: int)
    requires
        0 <= yoe <= 399,
    ensures
        365 + (yoe + 1) / 4 - yoe / 4 - ((yoe + 1) / 100 - yoe / 100) + (yoe + 1) / 400 == if leap(
            yoe + era * 400 + 1,
        ) {
            366int
        } else {
            365int
        },
{
    lemma_year_step(yoe + era * 400);
    lemma_cycle_offset(era, yoe);
    if yoe < 399 {
        lemma_cycle_offset(era, yoe + 1);
    } else {
        assert(yoe + era * 400 + 1 == 0 + (era + 1) * 400);
        lemma_cycle_offset(era + 1, 0);
    }
}

proof fn lemma_civil(era: int, yoe: int, doy: int)
    requires
        0 <= yoe <= 399,
        0 <= doy,
        doy < 365 + (yoe + 1) / 4 - yoe / 4 - ((yoe + 1) / 100 - yoe / 100) + (yoe + 1) / 400,
    ensures
        ({
            let mp = (5 * doy + 2) / 153;
            let d = doy - (153 * mp + 2) / 5 + 1;
            let m = if mp < 10 {
                mp + 3
            } else {
                mp - 9
            };
            let y = yoe + era * 400;
            let year = if m <= 2 {
                y + 1
            } else {
                y
            };
            &&& 0 <= mp <= 11
            &&& valid_date(year, m, d)
            &&& day_number(year, m, d) == era * 146_097 + 365 * yoe + yoe / 4 - yoe / 100 + doy
        }),
{
    lemma_cycle_leap(era, yoe);
    lemma_cycle_offset(era, yoe);
    lemma_month_of(doy, yoe + era * 400);
}

proof fn lemma_month_of(doy: int, y: int)
    requires
        0 <= doy <= 365,
        doy == 365 ==> leap(y + 1),
    ensures
        ({
            let mp = (5 * doy + 2) / 153;
            let d = doy - (153 * mp + 2) / 5 + 1;
            let m = if mp < 10 {
                mp + 3
            } else {
                mp - 9
            };
            &&& 0 <= mp <= 11
            &&& m >= 3 ==> valid_date(y, m, d)
            &&& m <= 2 ==> valid_date(y + 1, m, d)
        }),
{
}

proof fn lemma_years_grow(a: int, b: int)
    requires
        a <= b,
    ensures
        years_days(a) <= years_days(b),
    decreases b - a,
{
    if a < b {
        lemma_years_grow(a, b - 1);
        lemma_year_step(b - 1);
    }
}

/// The year, counted from March, that a date lies in.
pub open spec fn march_year(y: int, m: int) -> int {
    if m <= 2 {
        y - 1
    } else {
        y
    }
}

proof fn lemma_in_march_year(y: int, m: int, d: int)
    requires
        valid_date(y, m, d),
    ensures
        years_days(march_year(y, m)) <= day_number(y, m, d) < years_days(march_year(y, m) + 1),
{
    lemma_year_step(march_year(y, m));
}

/// A day number belongs to one date.
pub proof fn lemma_one_date(y: int, m: int, d: int, y2: int, m2: int, d2: int)
    requires
        valid_date(y, m, d),
        valid_date(y2, m2, d2),
        day_number(y, m, d) == day_number(y2, m2, d2),
    ensures
        y == y2,
        m == m2,
        d == d2,
{
    let a = march_year(y, m);
    let b = march_year(y2, m2);
    lemma_in_march_year(y, m, d);
    lemma_in_march_year(y2, m2, d2);
    if a < b {
        lemma_years_grow(a + 1, b);
    }
    if b < a {
        lemma_years_grow(b + 1, a);
    }
}

/// The number of 1 January 1970.
pub const EPOCH_DAY: i64 = 719_468;

/// The epoch is 1 January 1970.
pub proof fn lemma_epoch_day()
    ensures
        valid_date(1970, 1, 1),
        day_number(1970, 1, 1) == EPOCH_DAY,
{
}

/// The date and the time of day in UTC `s` seconds after the epoch: year, month,
/// day, hour and minute. The year is taken modulo 2 to the 32nd.
pub open spec fn is_moment(s: u64, r: (u32, u32, u32, u32, u32)) -> bool {
    &&& exists|year: int|
        {
            &&& #[trigger] valid_date(year, r.1 as int, r.2 as int)
            &&& day_number(year, r.1 as int, r.2 as int) == EPOCH_DAY + s / 86_400
            &&& r.0 == year % 0x1_0000_0000
        }
    &&& r.3 == s % 86_400 / 3600
    &&& r.4 == s % 86_400 / 60 % 60
}

proof fn lemma_moment(s: u64, year: int, r: (u32, u32, u32, u32, u32))
    requires
        valid_date(year, r.1 as int, r.2 as int),
        day_number(year, r.1 as int, r.2 as int) == EPOCH_DAY + s / 86_400,
        r.0 == year % 0x1_0000_0000,
        r.3 == s % 86_400 / 3600,
        r.4 == s % 86_400 / 60 % 60,
    ensures
        is_moment(s, r),
{
}

/// The date and the time of day in UTC `s` seconds after the epoch.
pub fn epoch_to_ymdhm(s: u64) -> (r: (u32, u32, u32, u32, u32))
    ensures
        is_moment(s, r),
{
    let days: u64 = s / 86_400;
    let rem: u64 = s % 86_400;
    let hour: u32 = (rem / 3600) as u32;
    let minute: u32 = ((rem / 60) % 60) as u32;
    let (year, month, day): (i64, u32, u32) = days_to_ymd(EPOCH_DAY + days as i64);
    proof {
        lemma_year_not_negative(year as int, month as int, day as int);
    }
    let low: u32 = (year as u64 % 0x1_0000_0000) as u32;
    let r: (u32, u32, u32, u32, u32) = (low, month, day, hour, minute);
    proof {
        lemma_moment(s, year as int, r);
    }
    r
}

proof fn lemma_year_not_negative(y: int, m: int, d: int)
    requires
        valid_date(y, m, d),
        day_number(y, m, d) >= 0,
    ensures
        y >= 0,
{
    if y < 0 {
        assert(years_days(y) < 0 && years_days(y) <= -366 || y == -1);
    }
}

/// How a moment is written.
pub open spec fn moment_text(r: (u32, u32, u32, u32, u32)) -> Seq<char> {
    zero_padded(r.0 as nat, 4) + "-"@ + zero_padded(r.1 as nat, 2) + "-"@ + zero_padded(
        r.2 as nat,
        2,
    ) + " "@ + zero_padded(r.3 as nat, 2) + ":"@ + zero_padded(r.4 as nat, 2)
}

/// A number of seconds comes to one moment.
pub proof fn lemma_one_moment(
    s: u64,
    a: (u32, u32, u32, u32, u32),
    b: (u32, u32, u32, u32, u32),
)
    requires
        is_moment(s, a),
        is_moment(s, b),
    ensures
        a == b,
{
    let x = choose|year: int|
        {
            &&& #[trigger] valid_date(year, a.1 as int, a.2 as int)
            &&& day_number(year, a.1 as int, a.2 as int) == EPOCH_DAY + s / 86_400
            &&& a.0 == year % 0x1_0000_0000
        };
    let y = choose|year: int|
        {
            &&& #[trigger] valid_date(year, b.1 as int, b.2 as int)
            &&& day_number(year, b.1 as int, b.2 as int) == EPOCH_DAY + s / 86_400
            &&& b.0 == year % 0x1_0000_0000
        };
    lemma_one_date(x, a.1 as int, a.2 as int, y, b.1 as int, b.2 as int);
}

/// The moment `secs` seconds after the epoch.
pub open spec fn moment_of(secs: u64) -> (u32, u32, u32, u32, u32) {
    choose|t: (u32, u32, u32, u32, u32)| is_moment(secs, t)
}

/// Writes the moment `secs` seconds after the epoch in UTC as `YYYY-MM-DD HH:MM`.
pub fn format_time(secs: u64) -> (r: String)
    ensures
        r@ == moment_text(moment_of(secs)),
        is_moment(secs, moment_of(secs)),
{
    let t: (u32, u32, u32, u32, u32) = epoch_to_ymdhm(secs);
    let mut out: String = text::pad_zero(t.0 as u64, 4);
    out.append("-");
    out.append(text::pad_zero(t.1 as u64, 2).as_str());
    out.append("-");
    out.append(text::pad_zero(t.2 as u64, 2).as_str());
    out.append(" ");
    out.append(text::pad_zero(t.3 as u64, 2).as_str());
    out.append(":");
    out.append(text::pad_zero(t.4 as u64, 2).as_str());
    proof {
        lemma_one_moment(secs, t, moment_of(secs));
        assert(out@ =~= moment_text(t));
    }
    out
}

// ---------------------------------------------------------------------------
// Sizes
// ---------------------------------------------------------------------------

/// `n / d`, rounded to the nearest number, and to the even one of two as near.
pub open spec fn nearest(n: nat, d: nat) -> nat {
    let q = n / d;
    let r = n % d;
    if 2 * r > d || (2 * r == d && q % 2 == 1) {
        q + 1
    } else {
        q
    }
}

fn rounded(n: u128, d: u128) -> (r: u128)
    requires
        0 < d,
        d < 0x1_0000_0000_0000_0000_0000_0000,
        n < 0x1_0000_0000_0000_0000_0000_0000,
    ensures
        r == nearest(n as nat, d as nat),
        r <= n + 1,
{
    let q: u128 = n / d;
    let rest: u128 = n % d;
    proof {
        assert(q <= n) by (nonlinear_arith)
            requires
                q == n / d,
                d > 0,
        ;
    }
    if 2 * rest > d || (2 * rest == d && q % 2 == 1) {
        q + 1
    } else {
        q
    }
}

/// The distance between the numbers near `n` that 53 binary digits can write.
pub open spec fn spacing(n: nat) -> nat
    decreases n,
{
    if n < 0x20_0000_0000_0000 {
        1
    } else {
        2 * spacing(n / 2)
    }
}

/// The number nearest to `n` that 53 binary digits can write.
pub open spec fn in_53_bits(n: nat) -> nat {
    nearest(n, spacing(n)) * spacing(n)
}

/// The number nearest to `n` that 53 binary digits can write.
fn to_53_bits(n: u64) -> (r: u128)
    ensures
        r == in_53_bits(n as nat),
        r <= 0x1_0000_0000_0000_0000 * 2,
{
    let mut k: u64 = n;
    let mut step: u128 = 1;
    while k >= 0x20_0000_0000_0000
        invariant
            k * step <= n,
            1 <= step <= 4096,
            spacing(n as nat) == step * spacing(k as nat),
        decreases k,
    {
        proof {
            assert((k / 2) * (step * 2) <= k * step) by (nonlinear_arith)
                requires
                    k >= 0,
                    step >= 1,
            ;
            assert(step <= 2048) by (nonlinear_arith)
                requires
                    k * step <= n,
                    k >= 0x20_0000_0000_0000,
                    n <= 0xffff_ffff_ffff_ffff,
                    step >= 1,
            ;
            assert(step * spacing(k as nat) == (step * 2) * spacing((k / 2) as nat)) by (nonlinear_arith)
                requires
                    spacing(k as nat) == 2 * spacing((k / 2) as nat),
            ;
        }
        k = k / 2;
        step = step * 2;
    }
    let q: u128 = rounded(n as u128, step);
    proof {
        assert(spacing(n as nat) == step) by (nonlinear_arith)
            requires
                spacing(n as nat) == step * spacing(k as nat),
                spacing(k as nat) == 1,
        ;
        lemma_nearest_bound(n as nat, step as nat);
    }
    q * step
}

proof fn lemma_nearest_bound(n: nat, d: nat)
    requires
        d > 0,
    ensures
        nearest(n, d) * d <= n + d,
{
    lemma_fundamental_div_mod(n as int, d as int);
    let q = n / d;
    assert(d * q == q * d) by (nonlinear_arith);
    assert((q + 1) * d == q * d + d) by (nonlinear_arith);
}

/// A number of tenths with one digit behind the point.
pub open spec fn tenths_text(t: nat) -> Seq<char> {
    digits(t / 10) + "."@ + digits(t % 10)
}

/// A size in bytes, from 1024 on in larger units with one digit behind the point.
pub open spec fn size_text(n: nat) -> Seq<char> {
    if n >= 1_073_741_824 {
        tenths_text(nearest(in_53_bits(n) * 10, 1_073_741_824)) + " GB"@
    } else if n >= 1_048_576 {
        tenths_text(nearest(in_53_bits(n) * 10, 1_048_576)) + " MB"@
    } else if n >= 1024 {
        tenths_text(nearest(in_53_bits(n) * 10, 1024)) + " KB"@
    } else {
        digits(n) + " B"@
    }
}

fn in_tenths(n: u64, unit: u128) -> (r: String)
    requires
        1024 <= unit <= 1_073_741_824,
    ensures
        r@ == tenths_text(nearest(in_53_bits(n as nat) * 10, unit as nat)),
{
    let exact: u128 = to_53_bits(n) * 10;
    let t: u128 = rounded(exact, unit);
    proof {
        lemma_nearest_bound(exact as nat, unit as nat);
        assert(t <= 0x1_0000_0000_0000_0000) by (nonlinear_arith)
            requires
                t * unit <= exact + unit,
                exact <= 0x1_0000_0000_0000_0000 * 20,
                unit >= 1024,
        ;
    }
    let whole: String = text::decimal((t / 10) as u64);
    let tenth: String = text::decimal((t % 10) as u64);
    text::joined3(whole.as_str(), ".", tenth.as_str())
}

/// Writes a size in bytes for people.
pub fn format_size(n: u64) -> (r: String)
    ensures
        r@ == size_text(n as nat),
{
    if n >= 1_073_741_824 {
        let t: String = in_tenths(n, 1_073_741_824);
        text::joined(t.as_str(), " GB")
    } else if n >= 1_048_576 {
        let t: String = in_tenths(n, 1_048_576);
        text::joined(t.as_str(), " MB")
    } else if n >= 1024 {
        let t: String = in_tenths(n, 1024);
        text::joined(t.as_str(), " KB")
    } else {
        let t: String = text::decimal(n);
        text::joined(t.as_str(), " B")
    }
}

// ---------------------------------------------------------------------------
// Entries
// ---------------------------------------------------------------------------

/// What is known of a file or folder besides its name.
#[derive(Debug, Clone, Copy, PartialEq, Eq, Structural)]
pub struct Metadata {
    pub is_dir: bool,
    /// The size in bytes.
    pub len: u64,
    /// When it was last changed, in seconds.
    pub modified: u64,
}

/// An entry of a folder.
#[derive(Debug)]
pub struct Entry {
    pub name: String,
    /// The entry itself is a regular file, or could not be told.
    pub is_file: bool,
    /// None where it could not be looked at.
    pub metadata: Option<Metadata>,
}

/// The name is hidden.
pub open spec fn hidden(name: Seq<char>) -> bool {
    name.len() > 0 && name[0] == '.'
}

/// `a` does not come after `b`, character by character.
pub open spec fn text_le(a: Seq<char>, b: Seq<char>) -> bool
    decreases a.len(),
{
    if a.len() == 0 {
        true
    } else if b.len() == 0 {
        false
    } else if a[0] == b[0] {
        text_le(a.skip(1), b.skip(1))
    } else {
        a[0] < b[0]
    }
}

proof fn lemma_text_le_total(a: Seq<char>, b: Seq<char>)
    ensures
        text_le(a, b) || text_le(b, a),
    decreases a.len(),
{
    if a.len() > 0 && b.len() > 0 && a[0] == b[0] {
        lemma_text_le_total(a.skip(1), b.skip(1));
    }
}

proof fn lemma_text_le_transitive(a: Seq<char>, b: Seq<char>, c: Seq<char>)
    requires
        text_le(a, b),
        text_le(b, c),
    ensures
        text_le(a, c),
    decreases a.len(),
{
    if a.len() > 0 && a[0] == b[0] && b[0] == c[0] {
        lemma_text_le_transitive(a.skip(1), b.skip(1), c.skip(1));
    }
}

proof fn lemma_text_le_take(a: Seq<char>, b: Seq<char>, k: int)
    requires
        0 <= k <= a.len(),
        k <= b.len(),
        a.take(k) == b.take(k),
    ensures
        text_le(a, b) == text_le(a.skip(k), b.skip(k)),
    decreases k,
{
    if k > 0 {
        assert(a[0] == a.take(k)[0] && b[0] == b.take(k)[0]);
        assert(a.skip(1).take(k - 1) =~= a.take(k).skip(1));
        assert(b.skip(1).take(k - 1) =~= b.take(k).skip(1));
        lemma_text_le_take(a.skip(1), b.skip(1), k - 1);
        assert(a.skip(1).skip(k - 1) =~= a.skip(k));
        assert(b.skip(1).skip(k - 1) =~= b.skip(k));
    } else {
        assert(a.skip(0) =~= a);
        assert(b.skip(0) =~= b);
    }
}

/// Whether `a` does not come after `b`, character by character.
fn not_after(a: &str, b: &str) -> (r: bool)
    ensures
        r == text_le(a@, b@),
{
    let x = text::chars_of(a);
    let y = text::chars_of(b);
    let mut i: usize = 0;
    proof {
        assert(x@.take(0) =~= y@.take(0));
    }
    while i < x.len() && i < y.len() && x[i] == y[i]
        invariant
            0 <= i <= x.len(),
            i <= y.len(),
            x@.take(i as int) == y@.take(i as int),
        decreases x.len() - i,
    {
        proof {
            assert(x@.take(i + 1) =~= x@.take(i as int).push(x@[i as int]));
            assert(y@.take(i + 1) =~= y@.take(i as int).push(y@[i as int]));
        }
        i = i + 1;
    }
    proof {
        lemma_text_le_take(x@, y@, i as int);
    }
    if i >= x.len() {
        true
    } else if i >= y.len() {
        false
    } else {
        x[i] < y[i]
    }
}

/// Folders come before files, and names in order.
pub open spec fn entry_le(a: Entry, b: Entry) -> bool {
    if a.is_file == b.is_file {
        text_le(a.name@, b.name@)
    } else {
        b.is_file
    }
}

/// Entry `i` is listed before entry `j`; of two that are alike the first stays
/// first.
pub open spec fn listed_before(entries: Seq<Entry>, i: usize, j: usize) -> bool {
    entry_le(entries[i as int], entries[j as int]) && (entry_le(
        entries[j as int],
        entries[i as int],
    ) ==> i < j)
}

/// `order` holds the positions of the entries that are not hidden, each once, in
/// the order of the listing.
pub open spec fn is_order(entries: Seq<Entry>, order: Seq<usize>) -> bool {
    &&& forall|k: int|
        0 <= k < order.len() ==> (#[trigger] order[k]) < entries.len() && !hidden(
            entries[order[k] as int].name@,
        )
    &&& forall|k: int, l: int|
        0 <= k < l < order.len() ==> listed_before(entries, #[trigger] order[k], #[trigger] order[l])
    &&& forall|i: usize|
        i < entries.len() && !hidden(#[trigger] entries[i as int].name@) ==> order.contains(i)
}

fn entry_not_after(a: &Entry, b: &Entry) -> (r: bool)
    ensures
        r == entry_le(*a, *b),
{
    if a.is_file == b.is_file {
        not_after(a.name.as_str(), b.name.as_str())
    } else {
        b.is_file
    }
}

proof fn lemma_entry_le(a: Entry, b: Entry, c: Entry)
    ensures
        entry_le(a, b) || entry_le(b, a),
        entry_le(a, b) && entry_le(b, c) ==> entry_le(a, c),
{
    lemma_text_le_total(a.name@, b.name@);
    if text_le(a.name@, b.name@) && text_le(b.name@, c.name@) {
        lemma_text_le_transitive(a.name@, b.name@, c.name@);
    }
}

/// The positions of the entries that are not hidden, in the order of the listing.
pub fn listing_order(entries: &Vec<Entry>) -> (r: Vec<usize>)
    ensures
        is_order(entries@, r@),
{
    let mut out: Vec<usize> = Vec::new();
    let mut i: usize = 0;
    while i < entries.len()
        invariant
            0 <= i <= entries.len(),
            forall|k: int|
                0 <= k < out@.len() ==> (#[trigger] out@[k]) < i && !hidden(
                    entries@[out@[k] as int].name@,
                ),
            forall|k: int, l: int|
                0 <= k < l < out@.len() ==> listed_before(
                    entries@,
                    #[trigger] out@[k],
                    #[trigger] out@[l],
                ),
            forall|j: usize|
                j < i && !hidden(#[trigger] entries@[j as int].name@) ==> out@.contains(j),
        decreases entries.len() - i,
    {
        let ghost before = out@;
        let x = text::chars_of(entries[i].name.as_str());
        if x.len() == 0 || x[0] != '.' {
            let mut p: usize = out.len();
            while p > 0 && !entry_not_after(&entries[out[p - 1]], &entries[i])
                invariant
                    p <= out.len(),
                    i < entries.len(),
                    out@ == before,
                    forall|k: int| 0 <= k < out@.len() ==> (#[trigger] out@[k]) < i,
                    forall|k: int|
                        p <= k < out@.len() ==> !entry_le(
                            entries@[(#[trigger] out@[k]) as int],
                            entries@[i as int],
                        ),
                decreases p,
            {
                p = p - 1;
            }
            out.insert(p, i);
            proof {
                lemma_order_insert(entries@, before, p as int, i);
                assert(out@ =~= before.insert(p as int, i));
                assert forall|k: int| 0 <= k < out@.len() implies (#[trigger] out@[k]) < i + 1
                    && !hidden(entries@[out@[k] as int].name@) by {
                    if k < p {
                        assert(out@[k] == before[k]);
                    } else if k > p {
                        assert(out@[k] == before[k - 1]);
                    }
                }
                assert forall|j: usize|
                    j < i + 1 && !hidden(#[trigger] entries@[j as int].name@) implies out@.contains(
                    j,
                ) by {
                    if j == i {
                        assert(out@[p as int] == i);
                    } else {
                        let k = choose|k: int| 0 <= k < before.len() && before[k] == j;
                        if k < p {
                            assert(out@[k] == j);
                        } else {
                            assert(out@[k + 1] == j);
                        }
                    }
                }
            }
        }
        i = i + 1;
    }
    out
}

proof fn lemma_order_insert(entries: Seq<Entry>, before: Seq<usize>, p: int, i: usize)
    requires
        0 <= p <= before.len(),
        i < entries.len(),
        forall|k: int| 0 <= k < before.len() ==> (#[trigger] before[k]) < i,
        forall|k: int, l: int|
            0 <= k < l < before.len() ==> listed_before(
                entries,
                #[trigger] before[k],
                #[trigger] before[l],
            ),
        p > 0 ==> entry_le(entries[before[p - 1] as int], entries[i as int]),
        forall|k: int|
            p <= k < before.len() ==> !entry_le(
                entries[(#[trigger] before[k]) as int],
                entries[i as int],
            ),
    ensures
        forall|k: int, l: int|
            0 <= k < l < before.len() + 1 ==> listed_before(
                entries,
                #[trigger] before.insert(p, i)[k],
                #[trigger] before.insert(p, i)[l],
            ),
{
    let after = before.insert(p, i);
    assert forall|k: int, l: int| 0 <= k < l < after.len() implies listed_before(
        entries,
        #[trigger] after[k],
        #[trigger] after[l],
    ) by {
        if l == p {
            assert(after[k] == before[k]);
            if k < p - 1 {
                assert(listed_before(entries, before[k], before[p - 1]));
            }
            lemma_entry_le(
                entries[before[k] as int],
                entries[before[p - 1] as int],
                entries[i as int],
            );
        } else if k == p {
            assert(after[l] == before[l - 1]);
            lemma_entry_le(
                entries[i as int],
                entries[before[l - 1] as int],
                entries[i as int],
            );
        } else if l < p {
            assert(after[k] == before[k] && after[l] == before[l]);
        } else if k < p {
            assert(after[k] == before[k] && after[l] == before[l - 1]);
        } else {
            assert(after[k] == before[k - 1] && after[l] == before[l - 1]);
        }
    }
}

// ---------------------------------------------------------------------------
// The page
// ---------------------------------------------------------------------------

/// The name of an entry as it is shown: folders with a slash behind.
pub open spec fn display_name(name: Seq<char>, is_dir: bool) -> Seq<char> {
    if is_dir {
        name + "/"@
    } else {
        name
    }
}

/// The size of an entry as it is shown: folders have none.
pub open spec fn display_size(m: Metadata) -> Seq<char> {
    if m.is_dir {
        "-"@
    } else {
        size_text(m.len as nat)
    }
}

/// The table row of an entry, nothing where it could not be looked at.
pub open spec fn row_text(e: Entry) -> Seq<char> {
    match e.metadata {
        None => Seq::empty(),
        Some(m) => {
            let label = escaped(display_name(e.name@, m.is_dir), true);
            "<tr><td><a href=\""@ + label + "\">"@ + label + "</a></td><td>"@ + escaped(
                display_size(m),
                true,
            ) + "</td><td>"@ + moment_text(moment_of(m.modified)) + "</td></tr>"@
        },
    }
}

/// The table rows of the entries at these positions.
pub open spec fn rows_text(entries: Seq<Entry>, order: Seq<usize>) -> Seq<char>
    decreases order.len(),
{
    if order.len() == 0 {
        Seq::empty()
    } else {
        rows_text(entries, order.drop_last()) + row_text(entries[order.last() as int])
    }
}

/// The page of a folder at `url_prefix`.
pub open spec fn page_text(entries: Seq<Entry>, order: Seq<usize>, url_prefix: Seq<char>) -> Seq<
    char,
> {
    "<!doctype html><html><head><meta charset=\"utf-8\"><title>Index of "@ + escaped(
        url_prefix,
        true,
    ) + "</title><style>body{font:14px/1.4 monospace;padding:1em}"@
        + "a{text-decoration:none}td{padding:2px 1em}</style></head><body>"@ + "<h1>Index of "@
        + escaped(url_prefix, true) + "</h1><table>"@
        + "<tr><td><a href=\"../\">../</a></td><td></td><td></td></tr>"@ + rows_text(entries, order)
        + "</table></body></html>"@
}

/// The table row of an entry.
fn render_row(e: &Entry) -> (r: String)
    ensures
        r@ == row_text(*e),
{
    let m: Metadata = match e.metadata {
        None => {
            return String::new();
        },
        Some(m) => m,
    };
    let display: String = if m.is_dir {
        text::joined(e.name.as_str(), "/")
    } else {
        e.name.clone()
    };
    let size: String = if m.is_dir {
        text::owned("-")
    } else {
        format_size(m.len)
    };
    let label: String = text::escape(display.as_str(), true);
    let mut out: String = text::joined3("<tr><td><a href=\"", label.as_str(), "\">");
    out.append(label.as_str());
    out.append("</a></td><td>");
    out.append(text::escape(size.as_str(), true).as_str());
    out.append("</td><td>");
    out.append(format_time(m.modified).as_str());
    out.append("</td></tr>");
    out
}

/// Renders the page of a folder at `url_prefix`: hidden entries are left out,
/// folders come before files, and names are in order.
pub fn render(entries: &Vec<Entry>, url_prefix: &str) -> (r: String)
    ensures
        exists|order: Seq<usize>| #[trigger]
            is_order(entries@, order) && r@ == page_text(entries@, order, url_prefix@),
{
    let order: Vec<usize> = listing_order(entries);
    let prefix: String = text::escape(url_prefix, true);
    let mut html: String = text::owned(
        "<!doctype html><html><head><meta charset=\"utf-8\"><title>Index of ",
    );
    html.append(prefix.as_str());
    html.append("</title><style>body{font:14px/1.4 monospace;padding:1em}");
    html.append("a{text-decoration:none}td{padding:2px 1em}</style></head><body>");
    html.append("<h1>Index of ");
    html.append(prefix.as_str());
    html.append("</h1><table>");
    html.append("<tr><td><a href=\"../\">../</a></td><td></td><td></td></tr>");
    let ghost head = html@;
    let mut i: usize = 0;
    proof {
        assert(order@.take(0) =~= Seq::<usize>::empty());
        assert(html@ =~= head + rows_text(entries@, order@.take(0)));
    }
    while i < order.len()
        invariant
            0 <= i <= order.len(),
            is_order(entries@, order@),
            html@ == head + rows_text(entries@, order@.take(i as int)),
        decreases order.len() - i,
    {
        let row: String = render_row(&entries[order[i]]);
        html.append(row.as_str());
        proof {
            let done = order@.take(i + 1);
            assert(done.drop_last() =~= order@.take(i as int));
            assert(done.last() == order@[i as int]);
            assert(html@ =~= head + rows_text(entries@, done));
        }
        i = i + 1;
    }
    html.append("</table></body></html>");
    proof {
        assert(order@.take(i as int) =~= order@);
        assert(html@ =~= page_text(entries@, order@, url_prefix@));
    }
    html
}

/// A folder's entries have one order, and so one page.
pub proof fn lemma_one_order(entries: Seq<Entry>, a: Seq<usize>, b: Seq<usize>)
    requires
        is_order(entries, a),
        is_order(entries, b),
    ensures
        a == b,
{
    lemma_order_prefix(entries, a, b, a.len() as int);
    lemma_order_prefix(entries, b, a, b.len() as int);
    assert(a =~= b);
}

/// The first `n` positions of one order are those of the other.
proof fn lemma_order_prefix(entries: Seq<Entry>, a: Seq<usize>, b: Seq<usize>, n: int)
    requires
        is_order(entries, a),
        is_order(entries, b),
        0 <= n <= a.len(),
    ensures
        n <= b.len(),
        forall|i: int| 0 <= i < n ==> #[trigger] a[i] == b[i],
    decreases n,
{
    if n > 0 {
        lemma_order_prefix(entries, a, b, n - 1);
        let x = a[n - 1];
        assert(!hidden(entries[x as int].name@));
        assert(b.contains(x));
        let j = choose|j: int| 0 <= j < b.len() && b[j] == x;
        if j < n - 1 {
            assert(a[j] == b[j]);
            assert(listed_before(entries, a[j], a[n - 1]));
            assert(false);
        }
        let y = b[n - 1];
        assert(!hidden(entries[y as int].name@));
        assert(a.contains(y));
        let k = choose|k: int| 0 <= k < a.len() && a[k] == y;
        if k < n - 1 {
            assert(a[k] == b[k]);
            assert(listed_before(entries, b[k], b[n - 1]));
            assert(false);
        }
        if j > n - 1 {
            assert(listed_before(entries, b[n - 1], b[j]));
            if k > n - 1 {
                assert(listed_before(entries, a[n - 1], a[k]));
                assert(false);
            }
        }
    }
}

// ---------------------------------------------------------------------------
// What the page shows
// ---------------------------------------------------------------------------

/// The lengths of the months, and which years are leap years.
pub proof fn lemma_calendar(y: int)
    ensures
        y % 400 == 0 ==> month_days(y, 2) == 29,
        y % 100 == 0 && y % 400 != 0 ==> month_days(y, 2) == 28,
        y % 4 == 0 && y % 100 != 0 ==> month_days(y, 2) == 29,
        y % 4 != 0 ==> month_days(y, 2) == 28,
        month_days(y, 1) == 31 && month_days(y, 3) == 31 && month_days(y, 4) == 30 && month_days(
            y,
            5,
        ) == 31 && month_days(y, 6) == 30 && month_days(y, 7) == 31,
        month_days(y, 8) == 31 && month_days(y, 9) == 30 && month_days(y, 10) == 31 && month_days(
            y,
            11,
        ) == 30 && month_days(y, 12) == 31,
{
}

proof fn lemma_day_and_time(day: u64, hour: u64, minute: u64, second: u64, s: u64)
    requires
        hour < 24,
        minute < 60,
        second < 60,
        s == day * 86_400 + hour * 3600 + minute * 60 + second,
    ensures
        s / 86_400 == day,
        s % 86_400 / 3600 == hour,
        s % 86_400 / 60 % 60 == minute,
{
    let rest = hour * 3600 + minute * 60 + second;
    lemma_fundamental_div_mod_converse(s as int, 86_400, day as int, rest);
    lemma_fundamental_div_mod_converse(rest, 3600, hour as int, minute * 60 + second);
    lemma_fundamental_div_mod_converse(rest, 60, hour * 60 + minute, second as int);
}

/// The time of day at a moment is the hour and the minute that the seconds since
/// midnight come to.
pub proof fn lemma_time_of_day(
    day: u64,
    hour: u64,
    minute: u64,
    second: u64,
    s: u64,
    r: (u32, u32, u32, u32, u32),
)
    requires
        hour < 24,
        minute < 60,
        second < 60,
        s == day * 86_400 + hour * 3600 + minute * 60 + second,
        is_moment(s, r),
    ensures
        r.3 == hour,
        r.4 == minute,
{
    lemma_day_and_time(day, hour, minute, second, s);
}

/// The first day is 1 January 1970.
pub proof fn lemma_first_day(s: u64, r: (u32, u32, u32, u32, u32))
    requires
        s < 86_400,
        is_moment(s, r),
    ensures
        r.0 == 1970,
        r.1 == 1,
        r.2 == 1,
{
    let t = (1970u32, 1u32, 1u32, (s % 86_400 / 3600) as u32, (s % 86_400 / 60 % 60) as u32);
    lemma_epoch_day();
    assert(s / 86_400 == 0);
    lemma_moment(s, 1970, t);
    lemma_one_moment(s, t, r);
}

/// The date that follows a date.
pub open spec fn following(y: int, m: int, d: int) -> (int, int, int) {
    if d < month_days(y, m) {
        (y, m, d + 1)
    } else if m < 12 {
        (y, m + 1, 1)
    } else {
        (y + 1, 1, 1)
    }
}

proof fn lemma_following(y: int, m: int, d: int)
    requires
        valid_date(y, m, d),
    ensures
        ({
            let (a, b, c) = following(y, m, d);
            valid_date(a, b, c) && day_number(a, b, c) == day_number(y, m, d) + 1
        }),
{
    lemma_days_follow(y, m, d);
}

/// A day later it is the same time of the following date.
pub proof fn lemma_next_date(
    s: u64,
    later: u64,
    year: int,
    a: (u32, u32, u32, u32, u32),
    b: (u32, u32, u32, u32, u32),
)
    requires
        later == s + 86_400,
        0 <= year < 0xffff_ffff,
        a.0 == year,
        valid_date(year, a.1 as int, a.2 as int),
        day_number(year, a.1 as int, a.2 as int) == EPOCH_DAY + s / 86_400,
        is_moment(s, a),
        is_moment(later, b),
    ensures
        b.3 == a.3,
        b.4 == a.4,
        (b.0 as int, b.1 as int, b.2 as int) == following(year, a.1 as int, a.2 as int),
{
    lemma_following(year, a.1 as int, a.2 as int);
    let (y, m, d) = following(year, a.1 as int, a.2 as int);
    assert(0 <= y <= 0xffff_ffff && 1 <= m <= 12 && 1 <= d <= 31);
    let next = (y as u32, m as u32, d as u32, a.3, a.4);
    lemma_a_day_later(s, later);
    lemma_fundamental_div_mod_converse(y, 0x1_0000_0000, 0, y);
    lemma_moment(later, y, next);
    lemma_one_moment(later, next, b);
}

proof fn lemma_a_day_later(s: u64, later: u64)
    requires
        later == s + 86_400,
    ensures
        later / 86_400 == s / 86_400 + 1,
        later % 86_400 == s % 86_400,
{
}

/// A moment is written as year, month, day, hour and minute in that order, with signs
/// between, each in as many digits as it has.
pub proof fn lemma_moment_text(r: (u32, u32, u32, u32, u32))
    requires
        r.0 < 10_000,
        r.1 < 100,
        r.2 < 100,
        r.3 < 100,
        r.4 < 100,
    ensures
        ({
            let s = moment_text(r);
            &&& s.len() == 16
            &&& text::value(s.subrange(0, 4)) == r.0
            &&& s[4] == '-'
            &&& text::value(s.subrange(5, 7)) == r.1
            &&& s[7] == '-'
            &&& text::value(s.subrange(8, 10)) == r.2
            &&& s[10] == ' '
            &&& text::value(s.subrange(11, 13)) == r.3
            &&& s[13] == ':'
            &&& text::value(s.subrange(14, 16)) == r.4
        }),
{
    let s = moment_text(r);
    reveal_strlit("-");
    reveal_strlit(" ");
    reveal_strlit(":");
    let y = zero_padded(r.0 as nat, 4);
    let mo = zero_padded(r.1 as nat, 2);
    let d = zero_padded(r.2 as nat, 2);
    let h = zero_padded(r.3 as nat, 2);
    let mi = zero_padded(r.4 as nat, 2);
    text::lemma_zero_padded(r.0 as nat, 4);
    text::lemma_zero_padded(r.1 as nat, 2);
    text::lemma_zero_padded(r.2 as nat, 2);
    text::lemma_zero_padded(r.3 as nat, 2);
    text::lemma_zero_padded(r.4 as nat, 2);
    lemma_short_number(r.0 as nat);
    lemma_short_number(r.1 as nat);
    lemma_short_number(r.2 as nat);
    lemma_short_number(r.3 as nat);
    lemma_short_number(r.4 as nat);
    assert(s.subrange(0, 4) =~= y);
    assert(s.subrange(5, 7) =~= mo);
    assert(s.subrange(8, 10) =~= d);
    assert(s.subrange(11, 13) =~= h);
    assert(s.subrange(14, 16) =~= mi);
}

proof fn lemma_short_number(n: nat)
    ensures
        n < 100 ==> digits(n).len() <= 2,
        n < 10_000 ==> digits(n).len() <= 4,
{
    reveal_with_fuel(digits, 4);
}

/// Rounding goes to the nearest number, and to the even one of two as near.
pub proof fn lemma_nearest(n: nat, d: nat)
    requires
        d > 0,
    ensures
        2 * (nearest(n, d) * d - n) <= d,
        2 * (n - nearest(n, d) * d) <= d,
        2 * (nearest(n, d) * d - n) == d || 2 * (n - nearest(n, d) * d) == d ==> nearest(n, d) % 2
            == 0,
{
    lemma_fundamental_div_mod(n as int, d as int);
    let q = n / d;
    assert(d * q == q * d) by (nonlinear_arith);
    assert((q + 1) * d == q * d + d) by (nonlinear_arith);
}

/// A size below 1024 bytes is written exactly, and a larger one in the largest of the
/// units that it reaches, to the nearest tenth.
pub proof fn lemma_size_text(n: nat)
    requires
        n < 0x20_0000_0000_0000,
    ensures
        n < 1024 ==> size_text(n) == digits(n) + " B"@,
        1024 <= n < 1024 * 1024 ==> exists|t: nat|
            size_text(n) == #[trigger] tenths_text(t) + " KB"@ && -1024 <= 2 * (t * 1024 - 10 * n)
                <= 1024,
        1024 * 1024 <= n < 1024 * 1024 * 1024 ==> exists|t: nat|
            size_text(n) == #[trigger] tenths_text(t) + " MB"@ && -1_048_576 <= 2 * (t * 1_048_576
                - 10 * n) <= 1_048_576,
        1024 * 1024 * 1024 <= n ==> exists|t: nat|
            size_text(n) == #[trigger] tenths_text(t) + " GB"@ && -1_073_741_824 <= 2 * (t
                * 1_073_741_824 - 10 * n) <= 1_073_741_824,
{
    assert(spacing(n) == 1);
    assert(n / 1 == n && n % 1 == 0);
    assert(in_53_bits(n) == n);
    if n >= 1_073_741_824 {
        lemma_nearest(n * 10, 1_073_741_824);
        assert(size_text(n) == tenths_text(nearest(n * 10, 1_073_741_824)) + " GB"@);
    } else if n >= 1_048_576 {
        lemma_nearest(n * 10, 1_048_576);
        assert(size_text(n) == tenths_text(nearest(n * 10, 1_048_576)) + " MB"@);
    } else if n >= 1024 {
        lemma_nearest(n * 10, 1024);
        assert(size_text(n) == tenths_text(nearest(n * 10, 1024)) + " KB"@);
    }
}

/// Tenths are written with one digit behind the point.
pub proof fn lemma_tenths_text(whole: nat, tenth: nat)
    requires
        tenth < 10,
    ensures
        tenths_text(whole * 10 + tenth) == digits(whole) + seq!['.'] + digits(tenth),
{
    reveal_strlit(".");
    assert("."@ =~= seq!['.']);
}

/// A number of more than 53 binary digits is taken as one of 53 and as many zeros, the
/// nearest.
pub proof fn lemma_in_53_bits(n: nat)
    ensures
        n < 0x20_0000_0000_0000 ==> in_53_bits(n) == n,
        n >= 0x20_0000_0000_0000 ==> spacing(n) * 0x10_0000_0000_0000 <= n < spacing(n)
            * 0x20_0000_0000_0000,
        in_53_bits(n) == nearest(n, spacing(n)) * spacing(n),
        2 * (in_53_bits(n) - n) <= spacing(n),
        2 * (n - in_53_bits(n)) <= spacing(n),
{
    lemma_spacing(n);
    lemma_nearest(n, spacing(n));
    if n < 0x20_0000_0000_0000 {
        assert(n / 1 == n && n % 1 == 0);
    }
}

proof fn lemma_spacing(n: nat)
    ensures
        spacing(n) >= 1,
        n < 0x20_0000_0000_0000 ==> spacing(n) == 1,
        n >= 0x20_0000_0000_0000 ==> spacing(n) * 0x10_0000_0000_0000 <= n < spacing(n)
            * 0x20_0000_0000_0000,
    decreases n,
{
    if n >= 0x20_0000_0000_0000 {
        lemma_spacing(n / 2);
    }
}

/// Exactly the names that begin with a dot are hidden.
pub proof fn lemma_hidden_names(name: Seq<char>)
    ensures
        hidden(seq!['.'] + name),
        name.len() > 0 && name[0] != '.' ==> !hidden(name),
        !hidden(Seq::empty()),
{
}

/// Names are ordered by the first character in which they differ, and a name comes
/// before those that go on where it ends.
pub proof fn lemma_order_of_names(
    same: Seq<char>,
    x: char,
    a: Seq<char>,
    y: char,
    b: Seq<char>,
)
    requires
        x < y,
    ensures
        text_le(same + seq![x] + a, same + seq![y] + b),
        !text_le(same + seq![y] + b, same + seq![x] + a),
        text_le(same, same + seq![x] + a),
        !text_le(same + seq![x] + a, same),
        text_le(same, same),
{
    let p = same + seq![x] + a;
    let q = same + seq![y] + b;
    let k = same.len() as int;
    assert(p.take(k) =~= same && q.take(k) =~= same && same.take(k) =~= same);
    assert(p.skip(k) =~= seq![x] + a);
    assert(q.skip(k) =~= seq![y] + b);
    assert(same.skip(k) =~= Seq::<char>::empty());
    lemma_text_le_take(p, q, k);
    lemma_text_le_take(q, p, k);
    lemma_text_le_take(same, p, k);
    lemma_text_le_take(p, same, k);
    lemma_text_le_take(same, same, k);
}

/// The listing holds each entry that is not hidden once and no other: folders before
/// files, and the names of each in order.
pub proof fn lemma_what_the_listing_holds(entries: Seq<Entry>, order: Seq<usize>, i: usize)
    requires
        is_order(entries, order),
    ensures
        i < entries.len() && !(entries[i as int].name@.len() > 0 && entries[i as int].name@[0]
            == '.') ==> order.contains(i),
        order.contains(i) ==> i < entries.len() && !(entries[i as int].name@.len() > 0
            && entries[i as int].name@[0] == '.'),
        forall|k: int, l: int|
            0 <= k < l < order.len() ==> {
                let a = entries[#[trigger] order[k] as int];
                let b = entries[#[trigger] order[l] as int];
                &&& order[k] != order[l]
                &&& a.is_file ==> b.is_file
                &&& a.is_file == b.is_file ==> text_le(a.name@, b.name@)
            },
{
    if i < entries.len() && !hidden(entries[i as int].name@) {
        assert(order.contains(i));
    }
    if order.contains(i) {
        let k = choose|k: int| 0 <= k < order.len() && order[k] == i;
        assert(order[k] < entries.len());
    }
    assert forall|k: int, l: int| 0 <= k < l < order.len() implies {
        let a = entries[#[trigger] order[k] as int];
        let b = entries[#[trigger] order[l] as int];
        &&& order[k] != order[l]
        &&& a.is_file ==> b.is_file
        &&& a.is_file == b.is_file ==> text_le(a.name@, b.name@)
    } by {
        assert(listed_before(entries, order[k], order[l]));
    }
}

/// The row of an entry links to its name, with a slash behind it for a folder, and shows
/// its size and when it was changed; one that could not be looked at has none.
pub proof fn lemma_what_a_row_shows(e: Entry)
    ensures
        e.metadata is None ==> row_text(e).len() == 0,
        e.metadata matches Some(m) ==> {
            let label = if m.is_dir {
                escaped(e.name@ + seq!['/'], true)
            } else {
                escaped(e.name@, true)
            };
            let size = if m.is_dir {
                seq!['-']
            } else {
                escaped(size_text(m.len as nat), true)
            };
            row_text(e) == "<tr><td><a href=\""@ + label + "\">"@ + label + "</a></td><td>"@ + size
                + "</td><td>"@ + moment_text(moment_of(m.modified)) + "</td></tr>"@
        },
{
    reveal_strlit("/");
    reveal_strlit("-");
    assert("/"@ =~= seq!['/']);
    assert("-"@ =~= seq!['-']);
    text::lemma_escaped_one('-', true);
}

proof fn lemma_rows_of_two(entries: Seq<Entry>, order: Seq<usize>, k: int, l: int) -> (r: (
    Seq<char>,
    Seq<char>,
    Seq<char>,
))
    requires
        0 <= k < l < order.len(),
    ensures
        rows_text(entries, order) == r.0 + (row_text(entries[order[k] as int]) + (r.1 + row_text(
            entries[order[l] as int],
        ))) + r.2,
        r.0 == rows_text(entries, order.take(k)),
        r.1 == rows_text(entries, order.subrange(k + 1, l)),
        r.2 == rows_text(entries, order.skip(l + 1)),
{
    let row_k = row_text(entries[order[k] as int]);
    let row_l = row_text(entries[order[l] as int]);
    let a = order.take(k);
    let b = order.subrange(k + 1, l);
    let c = order.skip(l + 1);
    let x = seq![order[k]];
    let y = seq![order[l]];
    assert(order =~= a + x + b + y + c);
    lemma_rows_around(entries, a + x + b + y, c);
    lemma_rows_around(entries, a + x + b, y);
    lemma_rows_around(entries, a + x, b);
    lemma_rows_around(entries, a, x);
    lemma_one_row(entries, order[k]);
    lemma_one_row(entries, order[l]);
    let r = (rows_text(entries, a), rows_text(entries, b), rows_text(entries, c));
    assert(r.0 + row_k + r.1 + row_l + r.2 =~= r.0 + (row_k + (r.1 + row_l)) + r.2);
    r
}

proof fn lemma_page_around(entries: Seq<Entry>, order: Seq<usize>, url_prefix: Seq<char>) -> (r: (
    Seq<char>,
    Seq<char>,
))
    ensures
        page_text(entries, order, url_prefix) == r.0 + rows_text(entries, order) + r.1,
{
    let head = "<!doctype html><html><head><meta charset=\"utf-8\"><title>Index of "@ + escaped(
        url_prefix,
        true,
    ) + "</title><style>body{font:14px/1.4 monospace;padding:1em}"@
        + "a{text-decoration:none}td{padding:2px 1em}</style></head><body>"@ + "<h1>Index of "@
        + escaped(url_prefix, true) + "</h1><table>"@
        + "<tr><td><a href=\"../\">../</a></td><td></td><td></td></tr>"@;
    (head, "</table></body></html>"@)
}

proof fn lemma_around_three(a: Seq<char>, b: Seq<char>, c: Seq<char>, d: Seq<char>, e: Seq<char>)
    ensures
        a + b + c + d + e == a + (b + c) + (d + e),
        a + (b + c + d) + e == (a + b) + c + (d + e),
{
    assert(a + b + c + d + e =~= a + (b + c) + (d + e));
    assert(a + (b + c + d) + e =~= (a + b) + c + (d + e));
}

/// The page is headed by the URL path.
pub proof fn lemma_page_is_headed(entries: Seq<Entry>, order: Seq<usize>, url_prefix: Seq<char>)
    ensures
        text::holds(
            page_text(entries, order, url_prefix),
            "<h1>Index of "@ + escaped(url_prefix, true) + "</h1><table>"@,
        ),
{
    let title = "<!doctype html><html><head><meta charset=\"utf-8\"><title>Index of "@ + escaped(
        url_prefix,
        true,
    ) + "</title><style>body{font:14px/1.4 monospace;padding:1em}"@
        + "a{text-decoration:none}td{padding:2px 1em}</style></head><body>"@;
    let up = "<tr><td><a href=\"../\">../</a></td><td></td><td></td></tr>"@;
    let end = "</table></body></html>"@;
    let rows = rows_text(entries, order);
    let path = escaped(url_prefix, true);
    let heading = "<h1>Index of "@ + path + "</h1><table>"@;
    lemma_around_three(title, "<h1>Index of "@, path, "</h1><table>"@, up);
    assert(title + "<h1>Index of "@ + path + "</h1><table>"@ =~= title + heading);
    let page = title + heading + up + rows + end;
    assert(page == page_text(entries, order, url_prefix));
    assert(page =~= title + heading + (up + rows + end));
}

/// The page holds the rows of any two entries that are listed, the one listed first
/// before the other.
pub proof fn lemma_what_the_page_holds(
    entries: Seq<Entry>,
    order: Seq<usize>,
    url_prefix: Seq<char>,
    k: int,
    l: int,
)
    requires
        0 <= k < l < order.len(),
    ensures
        exists|between: Seq<char>|
            text::holds(
                page_text(entries, order, url_prefix),
                row_text(entries[order[k] as int]) + #[trigger] (between + row_text(
                    entries[order[l] as int],
                )),
            ),
{
    let (head, end) = lemma_page_around(entries, order, url_prefix);
    let (first, between, last) = lemma_rows_of_two(entries, order, k, l);
    let both = row_text(entries[order[k] as int]) + (between + row_text(entries[order[l] as int]));
    lemma_around_three(head, first, both, last, end);
    assert(text::holds(page_text(entries, order, url_prefix), both));
}

/// The rows of the page are those of the entries that are listed, one behind the other
/// and nothing between; every one of them is there.
pub proof fn lemma_page_holds_each_row(
    entries: Seq<Entry>,
    order: Seq<usize>,
    url_prefix: Seq<char>,
    k: int,
)
    requires
        0 <= k < order.len(),
    ensures
        text::holds(page_text(entries, order, url_prefix), row_text(entries[order[k] as int])),
        rows_text(entries, order) == rows_text(entries, order.take(k)) + row_text(
            entries[order[k] as int],
        ) + rows_text(entries, order.skip(k + 1)),
{
    let (head, end) = lemma_page_around(entries, order, url_prefix);
    let a = order.take(k);
    let x = seq![order[k]];
    let b = order.skip(k + 1);
    assert(order =~= a + x + b);
    lemma_rows_around(entries, a + x, b);
    lemma_rows_around(entries, a, x);
    lemma_one_row(entries, order[k]);
    lemma_around_three(
        head,
        rows_text(entries, a),
        row_text(entries[order[k] as int]),
        rows_text(entries, b),
        end,
    );
}

/// Rows stand one behind the other, each as it is.
pub proof fn lemma_rows_around(entries: Seq<Entry>, a: Seq<usize>, b: Seq<usize>)
    ensures
        rows_text(entries, a + b) == rows_text(entries, a) + rows_text(entries, b),
    decreases b.len(),
{
    if b.len() == 0 {
        assert(a + b =~= a);
        assert(rows_text(entries, a) + rows_text(entries, b) =~= rows_text(entries, a));
    } else {
        assert((a + b).drop_last() =~= a + b.drop_last());
        assert((a + b).last() == b.last());
        lemma_rows_around(entries, a, b.drop_last());
        let row = row_text(entries[b.last() as int]);
        assert(rows_text(entries, a) + rows_text(entries, b.drop_last()) + row =~= rows_text(
            entries,
            a,
        ) + (rows_text(entries, b.drop_last()) + row));
    }
}

/// One position makes one row.
pub proof fn lemma_one_row(entries: Seq<Entry>, i: usize)
    ensures
        rows_text(entries, seq![i]) == row_text(entries[i as int]),
{
    reveal_with_fuel(rows_text, 2);
    assert(seq![i].drop_last() =~= Seq::<usize>::empty());
    assert(seq![i].last() == i);
    assert(rows_text(entries, seq![i]) =~= row_text(entries[i as int]));
}

/// A size of any number of bytes from a gigabyte on is written in gigabytes, within half
/// a tenth and half the distance of the numbers that 53 binary digits can write.
pub proof fn lemma_large_size_text(n: nat)
    requires
        n >= 1_073_741_824,
    ensures
        exists|t: nat|
            size_text(n) == #[trigger] tenths_text(t) + " GB"@ && 2 * (t * 1_073_741_824 - 10 * n)
                <= 1_073_741_824 + 10 * spacing(n) && 2 * (10 * n - t * 1_073_741_824)
                <= 1_073_741_824 + 10 * spacing(n),
{
    lemma_in_53_bits(n);
    lemma_nearest(in_53_bits(n) * 10, 1_073_741_824);
    assert(size_text(n) == tenths_text(nearest(in_53_bits(n) * 10, 1_073_741_824)) + " GB"@);
}

} // verus!
