//! Lifetimes of registrations: parsing and rendering them, and deciding when a
//! hit on a registration is written to the registry.
//!
//! TTL strings accept human-friendly durations (`30s`, `5m`, `2h`, `24h`,
//! `7d`) plus the literal `never` in any case. Values without a unit and
//! durations under one second are rejected.

use std::collections::HashMap;
use vstd::arithmetic::div_mod::{
    lemma_div_non_zero, lemma_fundamental_div_mod, lemma_fundamental_div_mod_converse,
    lemma_small_mod,
};
use vstd::prelude::*;

use crate::text;
use crate::text::{first_index, is_digit, is_letter, is_space, trimmed};

verus! {

broadcast use vstd::std_specs::hash::group_hash_axioms;

/// Nanoseconds in a second.
pub const NANOS: u32 = 1_000_000_000;

/// A span of time in whole seconds and the nanoseconds beyond them.
#[derive(Debug, Clone, Copy, PartialEq, Eq, Structural)]
pub struct Duration {
    pub secs: u64,
    pub nanos: u32,
}

impl Duration {
    /// The nanoseconds are less than a second.
    pub open spec fn well_formed(self) -> bool {
        self.nanos < NANOS
    }

    /// The span in nanoseconds.
    pub open spec fn total(self) -> nat {
        (self.secs * NANOS + self.nanos) as nat
    }

    /// A span of whole seconds.
    pub fn from_secs(secs: u64) -> (r: Duration)
        ensures
            r.secs == secs,
            r.nanos == 0,
            r.well_formed(),
    {
        Duration { secs, nanos: 0 }
    }

    /// A span of milliseconds.
    pub fn from_millis(millis: u64) -> (r: Duration)
        ensures
            r.total() == millis * 1_000_000,
            r.well_formed(),
    {
        let rest: u32 = (millis % 1000) as u32;
        Duration { secs: millis / 1000, nanos: rest * 1_000_000 }
    }

    /// The whole seconds of the span.
    pub fn as_secs(&self) -> (r: u64)
        ensures
            r == self.secs,
    {
        self.secs
    }

    /// The span in nanoseconds.
    pub fn as_nanos(&self) -> (r: u128)
        ensures
            r == self.total(),
    {
        self.secs as u128 * 1_000_000_000 + self.nanos as u128
    }
}

/// Two well-formed spans of the same length are the same span.
pub proof fn lemma_total_injective(a: Duration, b: Duration)
    requires
        a.well_formed(),
        b.well_formed(),
        a.total() == b.total(),
    ensures
        a == b,
{
}

/// How long a registration lives without being hit.
#[derive(Debug, Clone, Copy, PartialEq, Eq, Structural)]
pub enum Ttl {
    Duration(Duration),
    Never,
}

// ---------------------------------------------------------------------------
// Duration text
// ---------------------------------------------------------------------------

/// What `humantime::parse_duration` makes of a text: the seconds and the
/// nanoseconds beyond them, or the message of its error.
pub uninterp spec fn humantime_duration(s: Seq<char>) -> Result<(u64, u32), Seq<char>>;

/// What `humantime::format_duration` writes for a span.
pub uninterp spec fn humantime_text(secs: u64, nanos: u32) -> Seq<char>;

/// A duration text that parses to the span `d`.
pub open spec fn span_view(d: Duration) -> Result<(u64, u32), Seq<char>> {
    Ok((d.secs, d.nanos))
}

/// A character that the name of a unit is made of.
pub open spec fn is_unit_char(c: char) -> bool {
    is_letter(c) || c == '\u{b5}'
}

/// The length of the first span written in `s`: it goes to the end of the first run
/// of unit characters. `seen` says that this run has begun.
pub open spec fn span_length(s: Seq<char>, seen: bool) -> nat
    decreases s.len(),
{
    if s.len() == 0 || (seen && !is_unit_char(s[0])) {
        0
    } else {
        1 + span_length(s.skip(1), seen || is_unit_char(s[0]))
    }
}

/// The text writes no more than one span.
pub open spec fn one_span(s: Seq<char>) -> bool {
    span_length(s, false) == s.len()
}

/// The first span of a text is one span.
pub proof fn lemma_first_span_is_one(s: Seq<char>, seen: bool)
    ensures
        span_length(s, seen) <= s.len(),
        span_length(s.take(span_length(s, seen) as int), seen) == span_length(s, seen),
    decreases s.len(),
{
    if s.len() > 0 && !(seen && !is_unit_char(s[0])) {
        let rest = s.skip(1);
        let open = seen || is_unit_char(s[0]);
        lemma_first_span_is_one(rest, open);
        let n = span_length(s, seen) as int;
        assert(s.take(n).skip(1) =~= rest.take(n - 1));
    }
}

/// One nanosecond more than the largest span there is.
pub const SPAN_LIMIT: u128 = 18_446_744_073_709_551_616_000_000_000;

/// The text of a span from its unit on.
pub open spec fn unit_name(span: Seq<char>) -> Seq<char>
    decreases span.len(),
{
    if span.len() == 0 || is_unit_char(span[0]) {
        span
    } else {
        unit_name(span.skip(1))
    }
}

/// The unit of the span is below the second.
pub open spec fn below_second(span: Seq<char>) -> bool {
    let unit = unit_name(span);
    ||| unit == "nanos"@ || unit == "nsec"@ || unit == "ns"@
    ||| unit == "usec"@ || unit == "us"@ || unit == "\u{b5}s"@
    ||| unit == "millis"@ || unit == "msec"@ || unit == "ms"@
}

/// The span without its fraction: what stands before the decimal point, and the
/// unit.
pub open spec fn whole_part(span: Seq<char>) -> Seq<char> {
    let point = first_index(span, '.');
    span.take(point) + unit_name(span.skip(point))
}

/// The span without its fraction is one span.
pub proof fn lemma_whole_part_is_one(s: Seq<char>, seen: bool)
    requires
        span_length(s, seen) == s.len(),
    ensures
        span_length(whole_part(s), seen) == whole_part(s).len(),
    decreases s.len(),
{
    text::lemma_first_index(s, '.');
    let point = first_index(s, '.');
    if s.len() == 0 {
        assert(whole_part(s) =~= s);
    } else if s[0] == '.' {
        assert(whole_part(s) =~= unit_name(s)) by {
            assert(s.skip(0) =~= s);
        }
        lemma_unit_is_one(s);
    } else {
        let rest = s.skip(1);
        assert(s.drop_first() =~= rest);
        lemma_whole_part_is_one(rest, seen || is_unit_char(s[0]));
        assert(rest.skip(point - 1) =~= s.skip(point));
        assert(whole_part(s) =~= seq![s[0]] + whole_part(rest));
        assert(whole_part(s).skip(1) =~= whole_part(rest));
    }
}

proof fn lemma_unit_is_one(s: Seq<char>)
    requires
        span_length(s, false) == s.len(),
    ensures
        span_length(unit_name(s), false) == unit_name(s).len(),
    decreases s.len(),
{
    if s.len() > 0 && !is_unit_char(s[0]) {
        lemma_unit_is_one(s.skip(1));
    }
}

/// What `humantime` says of a number that is too large.
pub open spec fn number_overflow() -> Seq<char> {
    "number is too large or cannot be represented without a lack of precision (values below 1ns are not supported)"@
}

/// The length in nanoseconds of what was read.
pub open spec fn nanos_of(read: (u64, u32)) -> nat {
    (read.0 * 1_000_000_000 + read.1) as nat
}

/// A part of a span brings the sum to the limit from within the last second.
pub open spec fn carries(sum: int, part: int) -> bool {
    &&& SPAN_LIMIT - 1_000_000_000 <= sum < SPAN_LIMIT
    &&& sum + part == SPAN_LIMIT
}

/// Of the spans written in `s`, taken one after the other on top of `sum`
/// nanoseconds, one carries to the limit: one with a unit below the second by what
/// stands before its decimal point, or any by its fraction.
pub open spec fn meets_limit(s: Seq<char>, sum: nat) -> bool
    decreases s.len(),
{
    if s.len() == 0 {
        false
    } else {
        proof {
            lemma_first_span_is_one(s, false);
        }
        let n = span_length(s, false) as int;
        let span = s.take(n);
        let rest = s.skip(n);
        if rest.len() > 0 && !is_digit(rest[0]) && !is_space(rest[0]) {
            false
        } else {
            match (humantime_duration(whole_part(span)), humantime_duration(span)) {
                (Ok(whole), Err(e)) => e == number_overflow() && below_second(span) && carries(
                    sum as int,
                    nanos_of(whole) as int,
                ),
                (Ok(whole), Ok(all)) => {
                    ||| below_second(span) && carries(sum as int, nanos_of(whole) as int)
                    ||| carries(
                        (sum + nanos_of(whole)) as int,
                        nanos_of(all) - nanos_of(whole),
                    )
                    ||| sum + nanos_of(all) < SPAN_LIMIT && meets_limit(rest, sum + nanos_of(all))
                },
                (Err(_), _) => false,
            }
        }
    }
}

/// The text writes two spans or more, and one of them carries to the limit.
pub open spec fn overruns(s: Seq<char>) -> bool {
    !one_span(s) && meets_limit(s, 0)
}

/// Calls `humantime::parse_duration`. Its result depends on the text alone, and
/// the nanoseconds of a span it returns are less than a second.
///
/// `humantime` adds up the spans in the text with checked arithmetic, but builds
/// each sum with `Duration::new`, which panics where exactly a second of
/// nanoseconds carries past the largest number of seconds. A single span never has
/// both. Of more, one then brings the sum to the limit from within the last second,
/// by its integer part where its unit is below the second, or by its fraction.
#[verifier::external_body]
fn parse_duration(s: &str) -> (r: Result<Duration, String>)
    requires
        !overruns(s@),
    ensures
        parsed_view(r) == humantime_duration(s@),
        r matches Ok(d) ==> d.well_formed(),
{
    match humantime::parse_duration(s) {
        Ok(d) => Ok(Duration { secs: d.as_secs(), nanos: d.subsec_nanos() }),
        Err(e) => Err(e.to_string()),
    }
}

/// Calls `humantime::format_duration` and renders what it returns. The text
/// depends on the span alone and parses back to it; it begins with a digit and
/// ends with a letter, and the spans in it add up to no more than the one given.
#[verifier::external_body]
fn format_duration(d: Duration) -> (r: String)
    requires
        d.well_formed(),
    ensures
        r@ == humantime_text(d.secs, d.nanos),
        humantime_duration(r@) == span_view(d),
        r@.len() > 0 && is_digit(r@[0]) && is_letter(r@.last()),
        !overruns(r@),
{
    humantime::format_duration(std::time::Duration::new(d.secs, d.nanos)).to_string()
}

// ---------------------------------------------------------------------------
// Ttl
// ---------------------------------------------------------------------------

/// The message for a lifetime that is empty, negative or under a second.
pub open spec fn not_positive() -> Seq<char> {
    "--ttl must be > 0 or 'never'"@
}

/// The message for a lifetime without a unit.
pub open spec fn no_unit() -> Seq<char> {
    "--ttl requires an explicit unit (e.g. 30s, 5m, 2h)"@
}

/// Every character of `s` is a digit or a minus sign.
pub open spec fn bare_number(s: Seq<char>) -> bool {
    forall|i: int| 0 <= i < s.len() ==> is_digit(#[trigger] s[i]) || s[i] == '-'
}

/// What a trimmed TTL text means where that is settled before any duration in
/// it is read.
pub open spec fn settled(t: Seq<char>) -> Option<Result<Ttl, Seq<char>>> {
    if t.len() == 0 {
        Some(Err(not_positive()))
    } else if text::small_text(t) == text::small_text("never"@) {
        Some(Ok(Ttl::Never))
    } else if bare_number(t) {
        Some(Err(no_unit()))
    } else if t[0] == '-' {
        Some(Err(not_positive()))
    } else {
        None
    }
}

/// What a duration read from a TTL text means.
pub open spec fn accepted(parsed: Result<(u64, u32), Seq<char>>) -> Result<Ttl, Seq<char>> {
    match parsed {
        Err(e) => Err("could not parse --ttl: "@ + e),
        Ok((secs, nanos)) => if secs == 0 {
            Err(not_positive())
        } else {
            Ok(Ttl::Duration(Duration { secs, nanos }))
        },
    }
}

/// The TTL text is settled at once, or no span in it carries to the limit.
pub open spec fn legible(s: Seq<char>) -> bool {
    settled(trimmed(s)) is None ==> !overruns(trimmed(s))
}

/// What the TTL text `s` means, given what the duration text in it parses to.
pub open spec fn ttl_meaning(s: Seq<char>, parsed: Result<(u64, u32), Seq<char>>) -> Result<
    Ttl,
    Seq<char>,
> {
    match settled(trimmed(s)) {
        Some(r) => r,
        None => accepted(parsed),
    }
}

/// The view of a parse result.
pub open spec fn ttl_view(r: Result<Ttl, String>) -> Result<Ttl, Seq<char>> {
    match r {
        Ok(t) => Ok(t),
        Err(e) => Err(e@),
    }
}

/// The view of a parsed duration.
pub open spec fn parsed_view(r: Result<Duration, String>) -> Result<(u64, u32), Seq<char>> {
    match r {
        Ok(d) => Ok((d.secs, d.nanos)),
        Err(e) => Err(e@),
    }
}

/// `secs` taken as a signed number of the same bits.
pub open spec fn signed_seconds(secs: u64) -> int {
    if secs <= i64::MAX {
        secs as int
    } else {
        secs - 0x1_0000_0000_0000_0000
    }
}

/// `secs` taken as a signed number of the same bits.
pub fn to_signed(secs: u64) -> (r: i64)
    ensures
        r == signed_seconds(secs),
{
    if secs <= 0x7fff_ffff_ffff_ffff {
        secs as i64
    } else {
        let back: i64 = (u64::MAX - secs) as i64;
        -1 - back
    }
}

/// Whether every character of `s` is a digit or a minus sign.
fn is_bare_number(s: &str) -> (r: bool)
    ensures
        r == bare_number(s@),
{
    let x = text::chars_of(s);
    let mut i: usize = 0;
    while i < x.len()
        invariant
            0 <= i <= x.len(),
            x@ == s@,
            forall|j: int| 0 <= j < i ==> is_digit(#[trigger] x@[j]) || x@[j] == '-',
        decreases x.len() - i,
    {
        if !text::digit(x[i]) && x[i] != '-' {
            return false;
        }
        i = i + 1;
    }
    true
}

impl Ttl {
    /// The duration of the lifetime, where there is one, is well formed.
    pub open spec fn well_formed(self) -> bool {
        self matches Ttl::Duration(d) ==> d.well_formed()
    }

    /// The lifetime in whole seconds, or nothing for `never`.
    pub fn as_seconds(&self) -> (r: Option<i64>)
        ensures
            match *self {
                Ttl::Duration(d) => r matches Some(n) && n == signed_seconds(d.secs),
                Ttl::Never => r is None,
            },
    {
        match self {
            Ttl::Duration(d) => Some(to_signed(d.secs)),
            Ttl::Never => None,
        }
    }

    /// The lifetime as text.
    pub open spec fn rendering(self) -> Seq<char> {
        match self {
            Ttl::Never => "never"@,
            Ttl::Duration(d) => humantime_text(d.secs, d.nanos),
        }
    }

    /// The lifetime as text.
    pub fn render(&self) -> (r: String)
        requires
            self.well_formed(),
        ensures
            r@ == self.rendering(),
            // A lifetime of at least a second reads back as itself.
            (*self matches Ttl::Duration(d) ==> d.secs > 0) ==> ttl_meaning(
                r@,
                humantime_duration(trimmed(r@)),
            ) == Ok::<Ttl, Seq<char>>(*self),
            legible(r@),
    {
        match self {
            Ttl::Never => {
                proof {
                    reveal_strlit("never");
                    text::lemma_trimmed_fixed("never"@);
                }
                text::owned("never")
            },
            Ttl::Duration(d) => {
                let s: String = format_duration(*d);
                proof {
                    lemma_duration_text_unsettled(s@);
                }
                s
            },
        }
    }

    /// What the TTL text `s` means where that is settled before any duration in
    /// it is read.
    pub fn settle(s: &str) -> (r: Option<Result<Ttl, String>>)
        ensures
            match r {
                Some(v) => settled(s@) == Some(ttl_view(v)),
                None => settled(s@) is None,
            },
    {
        let x = text::chars_of(s);
        if x.len() == 0 {
            return Some(Err(text::owned("--ttl must be > 0 or 'never'")));
        }
        if text::same_ignoring_case(s, "never") {
            return Some(Ok(Ttl::Never));
        }
        if is_bare_number(s) {
            return Some(Err(text::owned("--ttl requires an explicit unit (e.g. 30s, 5m, 2h)")));
        }
        if x[0] == '-' {
            return Some(Err(text::owned("--ttl must be > 0 or 'never'")));
        }
        None
    }

    /// What a duration read from a TTL text means.
    pub fn accept(parsed: Result<Duration, String>) -> (r: Result<Ttl, String>)
        ensures
            ttl_view(r) == accepted(parsed_view(parsed)),
    {
        match parsed {
            Err(e) => Err(text::joined("could not parse --ttl: ", e.as_str())),
            Ok(d) => {
                if d.as_secs() == 0 {
                    Err(text::owned("--ttl must be > 0 or 'never'"))
                } else {
                    Ok(Ttl::Duration(d))
                }
            },
        }
    }

    /// Reads a lifetime: `never`, or a duration with units of at least a second.
    pub fn from_str(s: &str) -> (r: Result<Ttl, String>)
        requires
            legible(s@),
        ensures
            ttl_view(r) == ttl_meaning(s@, humantime_duration(trimmed(s@))),
            r matches Ok(t) ==> t.well_formed(),
            r matches Ok(Ttl::Duration(d)) ==> d.secs > 0,
    {
        let t: String = text::trim(s);
        match Ttl::settle(t.as_str()) {
            Some(r) => r,
            None => {
                let parsed: Result<Duration, String> = parse_duration(t.as_str());
                Ttl::accept(parsed)
            },
        }
    }
}

/// The end of the span that begins at `from`.
fn span_end(x: &Vec<char>, from: usize) -> (to: usize)
    requires
        from <= x.len(),
    ensures
        from <= to <= x.len(),
        to - from == span_length(x@.skip(from as int), false),
{
    let mut seen: bool = false;
    let mut i: usize = from;
    while i < x.len()
        invariant
            from <= i <= x.len(),
            i - from + span_length(x@.skip(i as int), seen) == span_length(
                x@.skip(from as int),
                false,
            ),
        decreases x.len() - i,
    {
        let c: char = x[i];
        let unit: bool = text::letter(c) || c == '\u{b5}';
        proof {
            assert(x@.skip(i as int)[0] == c);
            assert(x@.skip(i as int).skip(1) =~= x@.skip(i + 1));
        }
        if seen && !unit {
            return i;
        }
        seen = seen || unit;
        i = i + 1;
    }
    i
}

/// The text of a span from its unit on.
fn unit_of(span: &Vec<char>, from: usize) -> (r: String)
    requires
        from <= span.len(),
    ensures
        r@ == unit_name(span@.skip(from as int)),
{
    let mut i: usize = from;
    while i < span.len() && !text::letter(span[i]) && span[i] != '\u{b5}'
        invariant
            from <= i <= span.len(),
            unit_name(span@.skip(i as int)) == unit_name(span@.skip(from as int)),
        decreases span.len() - i,
    {
        proof {
            assert(span@.skip(i as int).skip(1) =~= span@.skip(i + 1));
        }
        i = i + 1;
    }
    proof {
        assert(span@.subrange(i as int, span@.len() as int) =~= span@.skip(i as int));
    }
    text::text_between(span, i, span.len())
}

/// Whether the unit of the span is below the second.
fn is_below_second(span: &Vec<char>) -> (r: bool)
    ensures
        r == below_second(span@),
{
    proof {
        assert(span@.skip(0) =~= span@);
    }
    let name: String = unit_of(span, 0);
    let unit: &str = name.as_str();
    text::same(unit, "nanos") || text::same(unit, "nsec") || text::same(unit, "ns") || text::same(
        unit,
        "usec",
    ) || text::same(unit, "us") || text::same(unit, "\u{b5}s") || text::same(unit, "millis")
        || text::same(unit, "msec") || text::same(unit, "ms")
}

/// The span without its fraction.
fn without_fraction(span: &Vec<char>) -> (r: String)
    ensures
        r@ == whole_part(span@),
{
    let point: usize = text::find_char(span, '.');
    let before: String = text::text_between(span, 0, point);
    let unit: String = unit_of(span, point);
    proof {
        assert(span@.subrange(0, point as int) =~= span@.take(point as int));
    }
    text::joined(before.as_str(), unit.as_str())
}

fn is_carry(sum: u128, part: u128) -> (r: bool)
    requires
        sum < 2 * SPAN_LIMIT,
        part < 2 * SPAN_LIMIT,
    ensures
        r == carries(sum as int, part as int),
{
    SPAN_LIMIT - 1_000_000_000 <= sum && sum < SPAN_LIMIT && sum + part == SPAN_LIMIT
}

/// Whether the spans written in the text carry to the limit.
fn is_overrun(s: &str) -> (r: bool)
    ensures
        r == overruns(s@),
{
    let x = text::chars_of(s);
    proof {
        assert(x@.skip(0) =~= x@);
    }
    if span_end(&x, 0) == x.len() {
        return false;
    }
    let mut sum: u128 = 0;
    let mut i: usize = 0;
    while i < x.len()
        invariant
            0 <= i <= x.len(),
            sum < SPAN_LIMIT,
            x@ == s@,
            !one_span(s@),
            meets_limit(x@.skip(i as int), sum as nat) == meets_limit(x@, 0),
        decreases x.len() - i,
    {
        let j: usize = span_end(&x, i);
        let span: String = text::text_between(&x, i, j);
        let chars: Vec<char> = text::chars_of(span.as_str());
        let ghost rest = x@.skip(i as int);
        proof {
            lemma_first_span_is_one(rest, false);
            assert(rest.take(j - i) =~= x@.subrange(i as int, j as int));
            assert(rest.skip(j - i) =~= x@.skip(j as int));
            lemma_whole_part_is_one(span@, false);
        }
        if j < x.len() && !text::digit(x[j]) && !text::space(x[j]) {
            return false;
        }
        let before: String = without_fraction(&chars);
        let whole: u128 = match parse_duration(before.as_str()) {
            Err(_) => {
                return false;
            },
            Ok(d) => d.as_nanos(),
        };
        let by_whole: bool = is_below_second(&chars) && is_carry(sum, whole);
        let all: u128 = match parse_duration(span.as_str()) {
            Err(e) => {
                return by_whole && text::same(
                    e.as_str(),
                    "number is too large or cannot be represented without a lack of precision (values below 1ns are not supported)",
                );
            },
            Ok(d) => d.as_nanos(),
        };
        if by_whole {
            return true;
        }
        if sum + whole < SPAN_LIMIT && sum + whole >= SPAN_LIMIT - 1_000_000_000 && sum + all
            == SPAN_LIMIT {
            return true;
        }
        if sum + all >= SPAN_LIMIT {
            return false;
        }
        sum = sum + all;
        i = j;
    }
    false
}

/// Whether `Ttl::from_str` may read `s`.
pub fn readable(s: &str) -> (r: bool)
    ensures
        r == legible(s@),
{
    let t: String = text::trim(s);
    match Ttl::settle(t.as_str()) {
        Some(_) => true,
        None => !is_overrun(t.as_str()),
    }
}

/// The message for spans that carry to the limit.
pub open spec fn too_large() -> Seq<char> {
    "could not parse --ttl: "@ + number_overflow()
}

/// What any TTL text means, given what the duration text in it parses to: one in
/// which a span carries to the limit is refused like any other that is too large.
pub open spec fn ttl_reading(s: Seq<char>, parsed: Result<(u64, u32), Seq<char>>) -> Result<
    Ttl,
    Seq<char>,
> {
    if legible(s) {
        ttl_meaning(s, parsed)
    } else {
        Err(too_large())
    }
}

/// Reads a lifetime; text in which a span carries to the limit is refused.
pub fn parse_ttl(s: &str) -> (r: Result<Ttl, String>)
    ensures
        ttl_view(r) == ttl_reading(s@, humantime_duration(trimmed(s@))),
        r matches Ok(t) ==> t.well_formed(),
        r matches Ok(Ttl::Duration(d)) ==> d.secs > 0,
{
    if !readable(s) {
        return Err(
            text::joined(
                "could not parse --ttl: ",
                "number is too large or cannot be represented without a lack of precision (values below 1ns are not supported)",
            ),
        );
    }
    Ttl::from_str(s)
}

/// Text that begins with a digit and ends with a letter reads as a duration: it
/// is neither blank, nor `never`, nor a bare number, nor negative.
pub proof fn lemma_duration_text_unsettled(s: Seq<char>)
    requires
        s.len() > 0,
        is_digit(s[0]),
        is_letter(s.last()),
    ensures
        trimmed(s) == s,
        settled(s) is None,
{
    text::lemma_trimmed_fixed(s);
    reveal_strlit("never");
    assert(text::small_text(s)[0] == s[0]);
    assert(text::small_text("never"@)[0] == 'n');
    assert(!bare_number(s)) by {
        assert(!is_digit(s[s.len() - 1]));
    }
}

// ---------------------------------------------------------------------------
// Time left
// ---------------------------------------------------------------------------

/// The seconds that are shown for `s` seconds left: from an hour on whole minutes,
/// the nearest, and at least one second.
pub open spec fn shown_seconds(s: nat) -> nat {
    if s >= 3600 {
        (s + 30) / 60 * 60
    } else if s == 0 {
        1
    } else {
        s
    }
}

/// What is shown is within half a minute of the time left, and all of it below an
/// hour.
pub proof fn lemma_shown_is_close(s: nat)
    requires
        s > 0,
    ensures
        shown_seconds(s) > 0,
        s < 3600 ==> shown_seconds(s) == s,
        s >= 3600 ==> shown_seconds(s) % 60 == 0 && -30 <= shown_seconds(s) - s <= 30,
{
}

/// The span as it is shown: from an hour on whole minutes, the nearest, and at
/// least one second.
pub fn coarsen(d: Duration) -> (r: Duration)
    ensures
        r.secs == shown_seconds(d.secs as nat),
        r.nanos == 0,
{
    let s: u64 = d.as_secs();
    if s >= 3600 {
        let over: u64 = s % 60;
        if over >= 30 {
            Duration::from_secs(s - over + 60)
        } else {
            Duration::from_secs(s - over)
        }
    } else if s == 0 {
        Duration::from_secs(1)
    } else {
        Duration::from_secs(s)
    }
}

/// The seconds of a unit of duration text: a year, a month, a day, an hour, a minute
/// and a second.
pub open spec fn unit_seconds(k: int) -> nat {
    if k == 0 {
        31_557_600
    } else if k == 1 {
        2_630_016
    } else if k == 2 {
        86_400
    } else if k == 3 {
        3600
    } else if k == 4 {
        60
    } else {
        1
    }
}

/// The seconds that `n` units of `s` come to, the largest of those from unit `k` on
/// of which there are any.
pub open spec fn largest_units(s: nat, k: int, n: nat) -> nat
    decreases 6 - k,
{
    if k >= 6 || n == 0 {
        0
    } else if s >= unit_seconds(k) {
        (s - s % unit_seconds(k)) as nat + largest_units(
            s % unit_seconds(k),
            k + 1,
            (n - 1) as nat,
        )
    } else {
        largest_units(s, k + 1, n)
    }
}

fn unit_length(k: usize) -> (r: u64)
    ensures
        r == unit_seconds(k as int),
        r > 0,
{
    if k == 0 {
        31_557_600
    } else if k == 1 {
        2_630_016
    } else if k == 2 {
        86_400
    } else if k == 3 {
        3600
    } else if k == 4 {
        60
    } else {
        1
    }
}

/// The two largest units of the span of `s` seconds.
pub fn two_largest(s: u64) -> (r: u64)
    ensures
        r == largest_units(s as nat, 0, 2),
{
    let mut out: u64 = 0;
    let mut rest: u64 = s;
    let mut left: u32 = 2;
    let mut k: usize = 0;
    while k < 6 && left > 0
        invariant
            k <= 6,
            left <= 2,
            out + rest <= s,
            out + largest_units(rest as nat, k as int, left as nat) == largest_units(
                s as nat,
                0,
                2,
            ),
        decreases 6 - k,
    {
        let unit: u64 = unit_length(k);
        if rest >= unit {
            let below: u64 = rest % unit;
            out = out + (rest - below);
            rest = below;
            left = left - 1;
        }
        k = k + 1;
    }
    out
}

/// A number of seconds in years, months, days, hours, minutes and seconds.
pub open spec fn in_units(s: nat) -> Seq<nat> {
    let in_year = s % 31_557_600;
    let in_month = in_year % 2_630_016;
    let in_day = in_month % 86_400;
    seq![
        s / 31_557_600,
        in_year / 2_630_016,
        in_month / 86_400,
        in_day / 3600,
        in_day % 3600 / 60,
        in_day % 60,
    ]
}

/// How many of the units before `k` count.
pub open spec fn counted(units: Seq<nat>, k: int) -> nat
    decreases k,
{
    if k <= 0 {
        0
    } else if units[k - 1] > 0 {
        counted(units, k - 1) + 1
    } else {
        counted(units, k - 1)
    }
}

proof fn lemma_in_units(y: nat, m: nat, d: nat, h: nat, i: nat, s: nat)
    requires
        m * 2_630_016 + d * 86_400 + h * 3600 + i * 60 + s < 31_557_600,
        d * 86_400 + h * 3600 + i * 60 + s < 2_630_016,
        h * 3600 + i * 60 + s < 86_400,
        i * 60 + s < 3600,
        s < 60,
    ensures
        in_units(
            y * 31_557_600 + m * 2_630_016 + d * 86_400 + h * 3600 + i * 60 + s,
        ) == seq![y, m, d, h, i, s],
{
    let in_day = h * 3600 + i * 60 + s;
    let in_month = d * 86_400 + in_day;
    let in_year = m * 2_630_016 + in_month;
    lemma_fundamental_div_mod_converse(
        (y * 31_557_600 + in_year) as int,
        31_557_600,
        y as int,
        in_year as int,
    );
    lemma_fundamental_div_mod_converse(in_year as int, 2_630_016, m as int, in_month as int);
    lemma_fundamental_div_mod_converse(in_month as int, 86_400, d as int, in_day as int);
    lemma_fundamental_div_mod_converse(in_day as int, 3600, h as int, (i * 60 + s) as int);
    lemma_fundamental_div_mod_converse((i * 60 + s) as int, 60, i as int, s as int);
    assert(in_day % 60 == s);
}

/// How many of the unit at `k` are kept: all where fewer than two larger units
/// count, else none.
pub open spec fn kept(units: Seq<nat>, k: int) -> nat {
    if counted(units, k) < 2 {
        units[k]
    } else {
        0
    }
}

spec fn still_kept(units: Seq<nat>, k: int) -> nat {
    if counted(units, k) < 2 {
        (2 - counted(units, k)) as nat
    } else {
        0
    }
}

proof fn lemma_next_unit(units: Seq<nat>, k: int, r: nat)
    requires
        0 <= k < 6,
        units[k] == r / unit_seconds(k),
    ensures
        largest_units(r, k, still_kept(units, k)) == kept(units, k) * unit_seconds(k)
            + largest_units(r % unit_seconds(k), k + 1, still_kept(units, k + 1)),
        kept(units, k) * unit_seconds(k) + r % unit_seconds(k) <= r,
{
    let w = unit_seconds(k);
    let q = r / w;
    lemma_fundamental_div_mod(r as int, w as int);
    assert(w * q == q * w) by (nonlinear_arith);
    assert(0 * w == 0) by (nonlinear_arith);
    if r < w {
        lemma_small_mod(r, w);
        lemma_fundamental_div_mod_converse(r as int, w as int, 0, r as int);
    } else {
        lemma_div_non_zero(r as int, w as int);
    }
}

/// Of the units of a number of seconds the largest two that count are kept, and the
/// others fall away.
pub proof fn lemma_two_largest_units_are_kept(s: nat)
    ensures
        in_units(largest_units(s, 0, 2)) == Seq::new(6, |k: int| kept(in_units(s), k)),
{
    let u = in_units(s);
    let r1 = s % 31_557_600;
    let r2 = r1 % 2_630_016;
    let r3 = r2 % 86_400;
    let r4 = r3 % 3600;
    let r5 = r4 % 60;
    assert(r5 == r3 % 60);
    assert(r5 == r5 / 1 && r5 % 1 == 0);
    lemma_next_unit(u, 0, s);
    lemma_next_unit(u, 1, r1);
    lemma_next_unit(u, 2, r2);
    lemma_next_unit(u, 3, r3);
    lemma_next_unit(u, 4, r4);
    lemma_next_unit(u, 5, r5);
    assert(still_kept(u, 0) == 2);
    lemma_in_units(kept(u, 0), kept(u, 1), kept(u, 2), kept(u, 3), kept(u, 4), kept(u, 5));
    assert(in_units(largest_units(s, 0, 2)) =~= Seq::new(6, |k: int| kept(u, k)));
}

proof fn lemma_kept_are_two(u: Seq<nat>, v: Seq<nat>, n: int)
    requires
        0 <= n <= 6,
        u.len() == 6,
        v == Seq::new(6, |k: int| kept(u, k)),
    ensures
        counted(v, n) <= 2,
        counted(v, n) <= counted(u, n),
        counted(u, n) <= 2 ==> counted(v, n) == counted(u, n),
    decreases n,
{
    if n > 0 {
        lemma_kept_are_two(u, v, n - 1);
    }
}

/// At most two units are shown.
pub proof fn lemma_at_most_two_units_are_shown(s: nat)
    ensures
        counted(in_units(largest_units(s, 0, 2)), 6) <= 2,
{
    lemma_two_largest_units_are_kept(s);
    lemma_kept_are_two(in_units(s), in_units(largest_units(s, 0, 2)), 6);
}

/// How the time left until a registration expires is shown.
pub open spec fn expires_text(secs: Option<i64>) -> Seq<char> {
    match secs {
        None => "never"@,
        Some(s) => if s <= 0 {
            "expired"@
        } else {
            "in "@ + humantime_text(largest_units(shown_seconds(s as nat), 0, 2) as u64, 0)
        },
    }
}

/// Shows the seconds left until a registration expires in at most two units, as in
/// `in 23h 45m`; `never` where it does not expire and `expired` where none are left.
pub fn format_expires_in(secs: Option<i64>) -> (r: String)
    ensures
        r@ == expires_text(secs),
{
    match secs {
        None => text::owned("never"),
        Some(s) => {
            if s <= 0 {
                text::owned("expired")
            } else {
                let shown: Duration = coarsen(Duration::from_secs(s as u64));
                let cut: Duration = Duration::from_secs(two_largest(shown.as_secs()));
                let span: String = format_duration(cut);
                text::joined("in ", span.as_str())
            }
        },
    }
}

// ---------------------------------------------------------------------------
// Touch debouncing
// ---------------------------------------------------------------------------

/// The span within which hits on one registration are written once, unless the
/// registration's lifetime calls for a shorter one.
pub const DEFAULT_COALESCE_SECS: u64 = 30;

/// The nanoseconds within which hits on a registration of lifetime
/// `ttl_seconds` are written once: half the lifetime, at least a second and at
/// most `window`.
pub open spec fn coalesce_nanos(window: nat, ttl_seconds: i64) -> nat {
    let ttl = if ttl_seconds > 1 {
        ttl_seconds as nat
    } else {
        1
    };
    let half = ttl * 500_000_000;
    let bounded = if half > 1_000_000_000 {
        half
    } else {
        1_000_000_000
    };
    if window < bounded {
        window
    } else {
        bounded
    }
}

/// The span within which hits on a registration of lifetime `ttl_seconds` are
/// written once.
pub fn coalesce_window(default_window: Duration, ttl_seconds: i64) -> (r: Duration)
    requires
        default_window.well_formed(),
    ensures
        r.well_formed(),
        r.total() == coalesce_nanos(default_window.total(), ttl_seconds),
{
    let ttl: u64 = if ttl_seconds > 1 {
        ttl_seconds as u64
    } else {
        1
    };
    let half: Duration = Duration {
        secs: ttl / 2,
        nanos: if ttl % 2 == 1 {
            500_000_000
        } else {
            0
        },
    };
    let bounded: Duration = if half.secs >= 1 {
        half
    } else {
        Duration::from_secs(1)
    };
    if default_window.as_nanos() < bounded.as_nanos() {
        default_window
    } else {
        bounded
    }
}

/// The time from `earlier` to `now`, nothing where `now` comes first.
pub open spec fn elapsed(earlier: nat, now: nat) -> nat {
    if now > earlier {
        (now - earlier) as nat
    } else {
        0
    }
}

/// Whether a hit on a registration is written: its lifetime is finite, and it
/// was not written within the coalescing span before `now`.
pub open spec fn due(
    pending: Map<i64, u128>,
    window: nat,
    id: i64,
    ttl_seconds: Option<i64>,
    now: nat,
) -> bool {
    match ttl_seconds {
        None => false,
        Some(ttl) => !pending.dom().contains(id) || elapsed(pending[id] as nat, now)
            >= coalesce_nanos(window, ttl),
    }
}

/// When each registration was last written after a hit. Times are spans since a
/// common start.
pub struct TouchDebouncer {
    window: Duration,
    pending: HashMap<i64, u128>,
}

impl TouchDebouncer {
    /// The largest coalescing span, in nanoseconds.
    pub closed spec fn window(self) -> nat {
        self.window.total()
    }

    /// The time of the last write of each registration that has one on record.
    pub closed spec fn pending(self) -> Map<i64, u128> {
        self.pending@
    }

    /// The largest coalescing span is a well-formed span.
    pub closed spec fn well_formed(self) -> bool {
        self.window.well_formed()
    }

    /// A debouncer with nothing on record and the usual coalescing span.
    pub fn spawn() -> (r: TouchDebouncer)
        ensures
            r.well_formed(),
            r.window() == DEFAULT_COALESCE_SECS * NANOS,
            r.pending() == Map::<i64, u128>::empty(),
    {
        TouchDebouncer::spawn_with(Duration::from_secs(DEFAULT_COALESCE_SECS))
    }

    /// A debouncer with nothing on record.
    pub fn spawn_with(window: Duration) -> (r: TouchDebouncer)
        requires
            window.well_formed(),
        ensures
            r.well_formed(),
            r.window() == window.total(),
            r.pending() == Map::<i64, u128>::empty(),
    {
        TouchDebouncer { window, pending: HashMap::new() }
    }

    /// Takes note of a hit on registration `id` at `now` and says whether it is
    /// to be written.
    pub fn touch(&mut self, id: i64, ttl_seconds: Option<i64>, now: Duration) -> (r: bool)
        requires
            old(self).well_formed(),
        ensures
            final(self).well_formed(),
            final(self).window() == old(self).window(),
            r == due(old(self).pending(), old(self).window(), id, ttl_seconds, now.total()),
            final(self).pending() == if r {
                old(self).pending().insert(id, now.total() as u128)
            } else {
                old(self).pending()
            },
    {
        let ttl: i64 = match ttl_seconds {
            None => {
                return false;
            },
            Some(t) => t,
        };
        let at: u128 = now.as_nanos();
        let span: Duration = coalesce_window(self.window, ttl);
        let span_nanos: u128 = span.as_nanos();
        let write: bool = match self.pending.get(&id) {
            None => true,
            Some(t) => {
                let last: u128 = *t;
                if at >= last {
                    at - last >= span_nanos
                } else {
                    span_nanos == 0
                }
            },
        };
        if write {
            self.pending.insert(id, at);
        }
        write
    }

    /// The registrations with a write on record, each once, which are then
    /// forgotten.
    pub fn flush(&mut self) -> (r: Vec<i64>)
        requires
            old(self).well_formed(),
        ensures
            final(self).well_formed(),
            final(self).window() == old(self).window(),
            final(self).pending() == Map::<i64, u128>::empty(),
            r@.no_duplicates(),
            r@.to_set() == old(self).pending().dom(),
    {
        let ids: Vec<i64> = self.ids();
        self.pending.clear();
        ids
    }

    /// The registrations with a write on record, each once.
    fn ids(&self) -> (r: Vec<i64>)
        ensures
            r@.no_duplicates(),
            r@.to_set() == self.pending().dom(),
    {
        let mut out: Vec<i64> = Vec::new();
        for k in it: self.pending.keys()
            invariant
                out@ == it.seq().unref().take(it.index()),
                it.seq().unref().to_set() == self.pending@.dom(),
                it.seq().no_duplicates(),
                it.index() == it.seq().len() ==> out@ == it.seq().unref(),
        {
            proof {
                let all = it.seq().unref();
                assert(all.take(it.index() + 1) =~= all.take(it.index()).push(all[it.index()]));
                assert(all.take(all.len() as int) =~= all);
            }
            out.push(*k);
        }
        proof {
            assert(out@.to_set() =~= self.pending@.dom());
        }
        out
    }

    /// Forgets the writes that lie more than the largest coalescing span before
    /// `now`.
    pub fn sweep(&mut self, now: Duration)
        requires
            old(self).well_formed(),
        ensures
            final(self).well_formed(),
            final(self).window() == old(self).window(),
            forall|id: i64|
                final(self).pending().dom().contains(id) <==> (old(self).pending().dom().contains(
                    id,
                ) && old(self).pending()[id] + old(self).window() >= now.total()),
            forall|id: i64| #[trigger]
                final(self).pending().dom().contains(id) ==> final(self).pending()[id] == old(
                    self,
                ).pending()[id],
    {
        let ids: Vec<i64> = self.ids();
        let at: u128 = now.as_nanos();
        let span: u128 = self.window.as_nanos();
        let ghost before = self.pending@;
        let mut i: usize = 0;
        proof {
            assert forall|id: i64| before.dom().contains(id) implies ids@.contains(id) by {
                assert(ids@.to_set().contains(id));
            }
        }
        while i < ids.len()
            invariant
                0 <= i <= ids.len(),
                self.well_formed(),
                self.window == old(self).window,
                at == now.total(),
                span == self.window.total(),
                before == old(self).pending@,
                ids@.to_set() == before.dom(),
                ids@.no_duplicates(),
                forall|id: i64|
                    #![trigger self.pending@.dom().contains(id)]
                    self.pending@.dom().contains(id) <==> (before.dom().contains(id) && !(exists|
                        j: int,
                    | 0 <= j < i && #[trigger] ids@[j] == id && before[id] + span < at)),
                forall|id: i64| #[trigger]
                    self.pending@.dom().contains(id) ==> self.pending@[id] == before[id],
            decreases ids.len() - i,
        {
            let id: i64 = ids[i];
            let ghost here = self.pending@;
            proof {
                assert(ids@.to_set().contains(id)) by {
                    assert(ids@[i as int] == id);
                }
                assert(before.dom().contains(id));
                assert(here.dom().contains(id));
            }
            let stale: bool = match self.pending.get(&id) {
                None => false,
                Some(t) => {
                    let last: u128 = *t;
                    at > span && at - span > last
                },
            };
            if stale {
                self.pending.remove(&id);
            }
            i = i + 1;
            proof {
                assert forall|k: i64| #[trigger] self.pending@.dom().contains(k) <==> (
                before.dom().contains(k) && !(exists|j: int|
                    0 <= j < i && #[trigger] ids@[j] == k && before[k] + span < at)) by {
                    if k == id {
                        assert(ids@[i - 1] == k);
                    }
                    if exists|j: int| 0 <= j < i - 1 && #[trigger] ids@[j] == k && before[k] + span < at {
                        let j = choose|j: int| 0 <= j < i - 1 && #[trigger] ids@[j] == k && before[k] + span < at;
                        assert(0 <= j < i && ids@[j] == k);
                    }
                }
            }
        }
        proof {
            assert forall|id: i64| self.pending@.dom().contains(id) <==> (before.dom().contains(id)
                && before[id] + self.window.total() >= now.total()) by {
                if before.dom().contains(id) && before[id] + span < at {
                    assert(ids@.contains(id));
                    let j = choose|j: int| 0 <= j < ids@.len() && ids@[j] == id;
                    assert(0 <= j < i && ids@[j] == id);
                }
            }
        }
    }
}

/// Two hits on a registration closer together than its coalescing span are
/// written at most once.
pub proof fn lemma_hits_coalesce(
    pending: Map<i64, u128>,
    window: nat,
    id: i64,
    ttl: i64,
    first: u128,
    second: u128,
)
    requires
        first <= second,
        second - first < coalesce_nanos(window, ttl),
        due(pending, window, id, Some(ttl), first as nat),
    ensures
        !due(pending.insert(id, first), window, id, Some(ttl), second as nat),
{
}

/// A hit that is not written follows a write by less than half the lifetime, where
/// that is two seconds or more, and by less than the largest coalescing span.
pub proof fn lemma_drift_is_bounded(
    pending: Map<i64, u128>,
    window: nat,
    id: i64,
    ttl: i64,
    now: nat,
)
    requires
        ttl >= 2,
        !due(pending, window, id, Some(ttl), now),
    ensures
        pending.dom().contains(id),
        2 * (now - pending[id]) < ttl * NANOS,
        now - pending[id] < window,
{
}

/// A hit that is not written finds its registration live, where the last write set
/// the deadline one lifetime ahead. `epoch` is the registry's time when the times
/// of the hits are counted from.
pub proof fn lemma_hit_not_written_finds_it_live(
    pending: Map<i64, u128>,
    window: nat,
    id: i64,
    ttl: i64,
    now: nat,
    epoch: int,
)
    requires
        ttl >= 1,
        !due(pending, window, id, Some(ttl), now),
    ensures
        pending.dom().contains(id),
        epoch + now / 1_000_000_000 <= epoch + pending[id] as nat / 1_000_000_000 + ttl,
{
    let last = pending[id] as nat;
    if now > last {
        assert(now - last < coalesce_nanos(window, ttl));
    }
}

/// A registration that never expires is never written after a hit.
pub proof fn lemma_never_is_not_written(
    pending: Map<i64, u128>,
    window: nat,
    id: i64,
    now: nat,
)
    ensures
        !due(pending, window, id, None, now),
{
}

// ---------------------------------------------------------------------------
// What the texts mean and when hits are written
// ---------------------------------------------------------------------------

/// A span is its seconds, a thousand million nanoseconds each, and the nanoseconds
/// beyond them. Hits are written at most once in half a minute.
pub proof fn lemma_span_in_nanoseconds(d: Duration)
    ensures
        d.total() == d.secs * 1_000_000_000 + d.nanos,
        d.well_formed() <==> d.nanos < 1_000_000_000,
        DEFAULT_COALESCE_SECS == 30,
{
}

/// Seconds up to the largest signed number stay the same number.
pub proof fn lemma_seconds_stay_the_same(secs: u64)
    ensures
        secs <= i64::MAX ==> signed_seconds(secs) == secs,
        i64::MIN <= signed_seconds(secs) <= i64::MAX,
        (signed_seconds(secs) - secs) % 0x1_0000_0000_0000_0000 == 0,
{
}

/// The word `never` in any case, with white space around it or not, is a lifetime
/// without an end.
pub proof fn lemma_never_in_any_case(
    a: Seq<char>,
    word: Seq<char>,
    b: Seq<char>,
    parsed: Result<(u64, u32), Seq<char>>,
)
    requires
        forall|i: int| 0 <= i < a.len() ==> is_space(#[trigger] a[i]),
        forall|i: int| 0 <= i < b.len() ==> is_space(#[trigger] b[i]),
        word.len() == 5,
        word[0] == 'n' || word[0] == 'N',
        word[1] == 'e' || word[1] == 'E',
        word[2] == 'v' || word[2] == 'V',
        word[3] == 'e' || word[3] == 'E',
        word[4] == 'r' || word[4] == 'R',
    ensures
        ttl_reading(a + word + b, parsed) == Ok::<Ttl, Seq<char>>(Ttl::Never),
{
    text::lemma_trimmed_around(a, word, b);
    reveal_strlit("never");
    assert(text::small_text(word) =~= text::small_text("never"@));
}

/// Only the word `never` is a lifetime without an end.
pub proof fn lemma_only_never_is_never(s: Seq<char>, parsed: Result<(u64, u32), Seq<char>>)
    requires
        ttl_reading(s, parsed) == Ok::<Ttl, Seq<char>>(Ttl::Never),
    ensures
        trimmed(s).len() == 5,
        trimmed(s)[0] == 'n' || trimmed(s)[0] == 'N',
        trimmed(s)[1] == 'e' || trimmed(s)[1] == 'E',
        trimmed(s)[2] == 'v' || trimmed(s)[2] == 'V',
        trimmed(s)[3] == 'e' || trimmed(s)[3] == 'E',
        trimmed(s)[4] == 'r' || trimmed(s)[4] == 'R',
{
    let t = trimmed(s);
    reveal_strlit("never");
    let x = text::small_text(t);
    let y = text::small_text("never"@);
    assert(x == y);
    assert(x.len() == t.len() && y.len() == 5);
    assert(y[0] == 'n' && y[1] == 'e' && y[2] == 'v' && y[3] == 'e' && y[4] == 'r');
    assert(forall|i: int| 0 <= i < t.len() ==> x[i] == text::small(#[trigger] t[i]));
    assert(text::small(t[0]) == 'n' && text::small(t[1]) == 'e' && text::small(t[2]) == 'v'
        && text::small(t[3]) == 'e' && text::small(t[4]) == 'r');
}

/// Blank text, a number without a unit and negative text are refused, each with its
/// message.
pub proof fn lemma_refused_lifetimes(
    s: Seq<char>,
    a: Seq<char>,
    t: Seq<char>,
    b: Seq<char>,
    parsed: Result<(u64, u32), Seq<char>>,
)
    requires
        forall|i: int| 0 <= i < a.len() ==> is_space(#[trigger] a[i]),
        forall|i: int| 0 <= i < b.len() ==> is_space(#[trigger] b[i]),
        t.len() > 0,
        !is_space(t.last()),
    ensures
        ttl_reading(a + b, parsed) == Err::<Ttl, Seq<char>>("--ttl must be > 0 or 'never'"@),
        (forall|i: int| 0 <= i < t.len() ==> '0' <= #[trigger] t[i] <= '9') ==> ttl_reading(
            a + t + b,
            parsed,
        ) == Err::<Ttl, Seq<char>>("--ttl requires an explicit unit (e.g. 30s, 5m, 2h)"@),
        t[0] == '-' && (exists|i: int|
            0 <= i < t.len() && !('0' <= #[trigger] t[i] <= '9') && t[i] != '-') ==> ttl_reading(
            a + t + b,
            parsed,
        ) == Err::<Ttl, Seq<char>>("--ttl must be > 0 or 'never'"@),
{
    let none = Seq::<char>::empty();
    reveal_strlit("never");
    text::lemma_trimmed_around(a, none, b);
    assert(a + none + b =~= a + b);
    assert(text::small_text("never"@)[0] == 'n');
    assert(text::small_text(t)[0] == text::small(t[0]));
    if forall|i: int| 0 <= i < t.len() ==> '0' <= #[trigger] t[i] <= '9' {
        assert('0' <= t[0] <= '9');
        text::lemma_white_space(t[0]);
        text::lemma_trimmed_around(a, t, b);
        assert(bare_number(t));
    }
    if t[0] == '-' && (exists|i: int|
        0 <= i < t.len() && !('0' <= #[trigger] t[i] <= '9') && t[i] != '-') {
        text::lemma_white_space(t[0]);
        text::lemma_trimmed_around(a, t, b);
        let i = choose|i: int|
            0 <= i < t.len() && !('0' <= #[trigger] t[i] <= '9') && t[i] != '-';
        assert(!is_digit(t[i]));
        assert(!bare_number(t));
    }
}

/// Text that begins with a digit and ends with a letter, with white space around it or
/// not, is the span that it parses to, all of it; a span under a second is refused, and
/// so is text that does not parse, with the reason.
pub proof fn lemma_spans_are_taken_whole(
    a: Seq<char>,
    t: Seq<char>,
    b: Seq<char>,
    secs: u64,
    nanos: u32,
    e: Seq<char>,
)
    requires
        forall|i: int| 0 <= i < a.len() ==> is_space(#[trigger] a[i]),
        forall|i: int| 0 <= i < b.len() ==> is_space(#[trigger] b[i]),
        t.len() > 0,
        is_digit(t[0]),
        is_letter(t.last()),
        !overruns(t),
    ensures
        trimmed(a + t + b) == t,
        secs > 0 ==> ttl_reading(a + t + b, Ok((secs, nanos))) == Ok::<Ttl, Seq<char>>(
            Ttl::Duration(Duration { secs, nanos }),
        ),
        ttl_reading(a + t + b, Ok((0, nanos))) == Err::<Ttl, Seq<char>>(
            "--ttl must be > 0 or 'never'"@,
        ),
        ttl_reading(a + t + b, Err(e)) == Err::<Ttl, Seq<char>>("could not parse --ttl: "@ + e),
{
    lemma_duration_text_unsettled(t);
    text::lemma_white_space(t[0]);
    text::lemma_white_space(t.last());
    text::lemma_trimmed_around(a, t, b);
}

/// From an hour on the nearest whole minute is shown, the later of two that are as
/// near.
pub proof fn lemma_nearest_minute_is_shown(s: nat)
    ensures
        s == 0 ==> shown_seconds(s) == 1,
        0 < s < 3600 ==> shown_seconds(s) == s,
        s >= 3600 ==> shown_seconds(s) % 60 == 0 && s - 30 < shown_seconds(s) <= s + 30,
{
}

proof fn lemma_units_taken(q: nat, r: nat, k: int, n: nat)
    requires
        0 <= k < 6,
        n > 0,
        q > 0,
        r < unit_seconds(k),
    ensures
        largest_units(q * unit_seconds(k) + r, k, n) == q * unit_seconds(k) + largest_units(
            r,
            k + 1,
            (n - 1) as nat,
        ),
{
    let w = unit_seconds(k);
    let s = q * w + r;
    lemma_fundamental_div_mod_converse(s as int, w as int, q as int, r as int);
    assert(q * w >= w) by (nonlinear_arith)
        requires
            q > 0,
    ;
}

proof fn lemma_units_passed(s: nat, k: int, n: nat)
    requires
        0 <= k <= 4,
        forall|j: int| 0 <= j < k ==> s < #[trigger] unit_seconds(j),
    ensures
        largest_units(s, 0, n) == largest_units(s, k, n),
{
    reveal_with_fuel(largest_units, 6);
    assert(k > 0 ==> s < unit_seconds(0));
    assert(k > 1 ==> s < unit_seconds(1));
    assert(k > 2 ==> s < unit_seconds(2));
    assert(k > 3 ==> s < unit_seconds(3));
}

proof fn lemma_two_units(big: nat, small: nat, rest: nat, k: int)
    requires
        0 <= k <= 4,
        big >= 1,
        small >= 1,
        forall|j: int|
            0 <= j < k ==> big * unit_seconds(k) + small * unit_seconds(k + 1) + rest
                < #[trigger] unit_seconds(j),
        small * unit_seconds(k + 1) + rest < unit_seconds(k),
        rest < unit_seconds(k + 1),
    ensures
        largest_units(big * unit_seconds(k) + small * unit_seconds(k + 1) + rest, 0, 2) == big
            * unit_seconds(k) + small * unit_seconds(k + 1),
{
    let s = big * unit_seconds(k) + small * unit_seconds(k + 1) + rest;
    lemma_units_passed(s, k, 2);
    lemma_units_taken(big, small * unit_seconds(k + 1) + rest, k, 2);
    lemma_units_taken(small, rest, k + 1, 1);
}

/// The two largest units of a span are kept: of years and months, of months and days,
/// of days and hours, or of hours and minutes.
pub proof fn lemma_two_units_are_kept(big: nat, small: nat, rest: nat)
    requires
        big >= 1,
        small >= 1,
    ensures
        small * 2_630_016 + rest < 31_557_600 && rest < 2_630_016 ==> largest_units(
            big * 31_557_600 + small * 2_630_016 + rest,
            0,
            2,
        ) == big * 31_557_600 + small * 2_630_016,
        big * 2_630_016 + small * 86_400 + rest < 31_557_600 && small * 86_400 + rest < 2_630_016
            && rest < 86_400 ==> largest_units(big * 2_630_016 + small * 86_400 + rest, 0, 2) == big
            * 2_630_016 + small * 86_400,
        big * 86_400 + small * 3600 + rest < 2_630_016 && small * 3600 + rest < 86_400 && rest
            < 3600 ==> largest_units(big * 86_400 + small * 3600 + rest, 0, 2) == big * 86_400
            + small * 3600,
        big * 3600 + small * 60 + rest < 86_400 && small * 60 + rest < 3600 && rest < 60
            ==> largest_units(big * 3600 + small * 60 + rest, 0, 2) == big * 3600 + small * 60,
{
    if small * 2_630_016 + rest < 31_557_600 && rest < 2_630_016 {
        lemma_two_units(big, small, rest, 0);
    }
    if big * 2_630_016 + small * 86_400 + rest < 31_557_600 && small * 86_400 + rest < 2_630_016
        && rest < 86_400 {
        lemma_two_units(big, small, rest, 1);
    }
    if big * 86_400 + small * 3600 + rest < 2_630_016 && small * 3600 + rest < 86_400 && rest
        < 3600 {
        lemma_two_units(big, small, rest, 2);
    }
    if big * 3600 + small * 60 + rest < 86_400 && small * 60 + rest < 3600 && rest < 60 {
        lemma_two_units(big, small, rest, 3);
    }
}

/// A span below an hour is shown as it is, and so is one of whole hours below a day.
pub proof fn lemma_short_spans_are_kept(s: nat)
    ensures
        s < 3600 ==> largest_units(s, 0, 2) == s,
        s < 86_400 && s % 60 == 0 ==> largest_units(s, 0, 2) == s,
{
    reveal_with_fuel(largest_units, 7);
}

/// The time left is `never` without a deadline, `expired` where none is left, and below
/// an hour exactly the span that is left.
pub proof fn lemma_time_left(s: i64)
    ensures
        expires_text(None) == "never"@,
        s <= 0 ==> expires_text(Some(s)) == "expired"@,
        0 < s < 3600 ==> expires_text(Some(s)) == "in "@ + humantime_text(s as u64, 0),
        3600 <= s < 86_340 ==> exists|n: u64| #[trigger]
            humantime_text(n, 0) == expires_text(Some(s)).skip("in "@.len() as int) && n % 60 == 0
                && s - 30 < n <= s + 30,
{
    let shown = shown_seconds(s as nat);
    lemma_short_spans_are_kept(shown);
    if 3600 <= s < 86_340 {
        lemma_nearest_minute_is_shown(s as nat);
        assert(expires_text(Some(s)).skip("in "@.len() as int) =~= humantime_text(shown as u64, 0));
    }
}

/// Hits are written once in half the lifetime, at least a second and at most the usual
/// span.
pub proof fn lemma_coalescing_span(window: nat, ttl: i64)
    ensures
        coalesce_nanos(window, ttl) <= window,
        ttl >= 2 ==> 2 * coalesce_nanos(window, ttl) <= ttl * 1_000_000_000,
        ttl >= 2 ==> coalesce_nanos(window, ttl) == window || 2 * coalesce_nanos(window, ttl) == ttl
            * 1_000_000_000,
        ttl < 2 && window >= 1_000_000_000 ==> coalesce_nanos(window, ttl) == 1_000_000_000,
        ttl < 2 && window < 1_000_000_000 ==> coalesce_nanos(window, ttl) == window,
{
}

/// The first hit on a registration with a lifetime is written; a later one where the
/// usual span, or half the lifetime and at least a second, has gone by since the last
/// that was; and no other.
pub proof fn lemma_which_hits_are_written(
    pending: Map<i64, u128>,
    window: nat,
    id: i64,
    ttl: i64,
    now: nat,
)
    ensures
        !pending.dom().contains(id) ==> due(pending, window, id, Some(ttl), now),
        pending.dom().contains(id) && now >= pending[id] + window ==> due(
            pending,
            window,
            id,
            Some(ttl),
            now,
        ),
        pending.dom().contains(id) && ttl >= 2 && 2 * (now - pending[id]) >= ttl * 1_000_000_000
            ==> due(pending, window, id, Some(ttl), now),
        pending.dom().contains(id) && now >= pending[id] + 1_000_000_000 && ttl < 2 ==> due(
            pending,
            window,
            id,
            Some(ttl),
            now,
        ),
        pending.dom().contains(id) && pending[id] <= now < pending[id] + window && ttl >= 2 && 2 * (
        now - pending[id]) < ttl * 1_000_000_000 ==> !due(pending, window, id, Some(ttl), now),
        pending.dom().contains(id) && pending[id] <= now < pending[id] + window && now < pending[id]
            + 1_000_000_000 ==> !due(pending, window, id, Some(ttl), now),
        pending.dom().contains(id) && now < pending[id] && window > 0 ==> !due(
            pending,
            window,
            id,
            Some(ttl),
            now,
        ),
{
}

/// Text that is neither the word, nor blank, nor negative, nor a bare number is the span
/// that it parses to; where a span in it carries to the limit, it is too large.
pub proof fn lemma_any_span_text(
    a: Seq<char>,
    t: Seq<char>,
    b: Seq<char>,
    k: int,
    parsed: Result<(u64, u32), Seq<char>>,
)
    requires
        forall|i: int| 0 <= i < a.len() ==> is_space(#[trigger] a[i]),
        forall|i: int| 0 <= i < b.len() ==> is_space(#[trigger] b[i]),
        0 <= k < t.len(),
        !is_digit(t[k]),
        t[k] != '-',
        t[0] != '-',
        !is_space(t[0]),
        !is_space(t.last()),
        t.len() != 5 || (t[0] != 'n' && t[0] != 'N'),
    ensures
        !overruns(t) ==> ttl_reading(a + t + b, parsed) == match parsed {
            Ok((secs, nanos)) => if secs > 0 {
                Ok::<Ttl, Seq<char>>(Ttl::Duration(Duration { secs, nanos }))
            } else {
                Err::<Ttl, Seq<char>>("--ttl must be > 0 or 'never'"@)
            },
            Err(e) => Err::<Ttl, Seq<char>>("could not parse --ttl: "@ + e),
        },
        overruns(t) ==> ttl_reading(a + t + b, parsed) is Err,
{
    text::lemma_trimmed_around(a, t, b);
    reveal_strlit("never");
    assert(text::small_text("never"@).len() == 5 && text::small_text("never"@)[0] == 'n');
    assert(text::small_text(t).len() == t.len());
    assert(text::small_text(t)[0] == text::small(t[0]));
    assert(!bare_number(t)) by {
        assert(!is_digit(t[k]));
    }
}

/// The time left of a day or more is shown in its two largest units: days and hours,
/// months and days, or years and months, of the nearest minute.
pub proof fn lemma_long_time_left(s: i64, shown: nat, big: nat, small: nat, rest: nat)
    requires
        s >= 3600,
        shown % 60 == 0,
        s - 30 < shown <= s + 30,
        big >= 1,
        small >= 1,
    ensures
        shown == big * 86_400 + small * 3600 + rest && shown < 2_630_016 && small * 3600 + rest
            < 86_400 && rest < 3600 ==> expires_text(Some(s)) == "in "@ + humantime_text(
            (big * 86_400 + small * 3600) as u64,
            0,
        ),
        shown == big * 2_630_016 + small * 86_400 + rest && shown < 31_557_600 && small * 86_400
            + rest < 2_630_016 && rest < 86_400 ==> expires_text(Some(s)) == "in "@ + humantime_text(
            (big * 2_630_016 + small * 86_400) as u64,
            0,
        ),
        shown == big * 31_557_600 + small * 2_630_016 + rest && small * 2_630_016 + rest
            < 31_557_600 && rest < 2_630_016 ==> expires_text(Some(s)) == "in "@ + humantime_text(
            (big * 31_557_600 + small * 2_630_016) as u64,
            0,
        ),
{
    lemma_nearest_minute_is_shown(s as nat);
    let n = shown_seconds(s as nat);
    assert(n == shown) by {
        if n < shown {
            assert(shown - n >= 60);
        }
        if shown < n {
            assert(n - shown >= 60);
        }
    }
    lemma_two_units_are_kept(big, small, rest);
}

/// Whatever time is left, the text writes a span that is no longer than the time to the
/// nearest minute, in at most two units.
pub proof fn lemma_any_time_left(s: i64)
    requires
        s > 0,
    ensures
        exists|n: u64|
            expires_text(Some(s)) == "in "@ + #[trigger] humantime_text(n, 0) && n <= s + 30 && 2 * n
                > s - 30 && counted(in_units(n as nat), 6) <= 2,
{
    let shown = shown_seconds(s as nat);
    lemma_nearest_minute_is_shown(s as nat);
    let n = largest_units(shown, 0, 2);
    lemma_at_most_two_units_are_shown(shown);
    lemma_most_is_kept(shown, 0, 2);
    assert(s < 3600 ==> shown == s);
    assert(n <= shown && 2 * n >= shown);
    assert(n as u64 == n);
    assert(expires_text(Some(s)) == "in "@ + humantime_text(n as u64, 0));
}

proof fn lemma_most_is_kept(s: nat, k: int, n: nat)
    requires
        0 <= k <= 6,
    ensures
        largest_units(s, k, n) <= s,
        n > 0 && k < 6 ==> 2 * largest_units(s, k, n) >= s,
    decreases 6 - k,
{
    if k < 6 && n > 0 {
        let w = unit_seconds(k);
        lemma_fundamental_div_mod(s as int, w as int);
        if s >= w {
            lemma_most_is_kept(s % w, k + 1, (n - 1) as nat);
            lemma_div_non_zero(s as int, w as int);
            let q = s as int / w as int;
            assert(w * q >= w) by (nonlinear_arith)
                requires
                    q >= 1,
                    w > 0,
            ;
        } else {
            lemma_most_is_kept(s, k + 1, n);
        }
    }
}

} // verus!
