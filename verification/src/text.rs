//! Plain text operations, stated over sequences of characters.
//!
//! A string's view is the sequence of its characters, so every contract here
//! speaks of characters, never of bytes.

use vstd::prelude::*;

verus! {

/// `String::push` appends one character to the end of the string.
pub assume_specification[ String::push ](s: &mut String, c: char)
    ensures
        final(s)@ == old(s)@.push(c),
;

// ---------------------------------------------------------------------------
// Characters and strings
// ---------------------------------------------------------------------------

/// The characters of `s`, in order.
pub fn chars_of(s: &str) -> (r: Vec<char>)
    ensures
        r@ == s@,
{
    let mut out: Vec<char> = Vec::new();
    for c in it: s.chars()
        invariant
            out@ == s@.take(it.index()),
            it.seq() == s@,
    {
        proof {
            assert(s@.take(it.index() + 1) =~= s@.take(it.index()).push(s@[it.index()]));
        }
        out.push(c);
    }
    proof {
        assert(s@.take(s@.len() as int) =~= s@);
    }
    out
}

/// The string made of the characters `chars[from..to]`.
pub fn text_between(chars: &Vec<char>, from: usize, to: usize) -> (r: String)
    requires
        from <= to <= chars.len(),
    ensures
        r@ == chars@.subrange(from as int, to as int),
{
    let mut out: String = String::new();
    let mut i: usize = from;
    while i < to
        invariant
            from <= i <= to <= chars.len(),
            out@ == chars@.subrange(from as int, i as int),
        decreases to - i,
    {
        out.push(chars[i]);
        i = i + 1;
        proof {
            assert(chars@.subrange(from as int, i as int) =~= chars@.subrange(
                from as int,
                i - 1,
            ).push(chars@[i - 1]));
        }
    }
    out
}

/// A new string that holds the characters of `s`.
pub fn owned(s: &str) -> (r: String)
    ensures
        r@ == s@,
{
    s.to_owned()
}

/// `a` followed by `b`.
pub fn joined(a: &str, b: &str) -> (r: String)
    ensures
        r@ == a@ + b@,
{
    let mut out: String = a.to_owned();
    out.append(b);
    out
}

/// `a`, `b` and `c`, one after the other.
pub fn joined3(a: &str, b: &str, c: &str) -> (r: String)
    ensures
        r@ == a@ + b@ + c@,
{
    let mut out: String = a.to_owned();
    out.append(b);
    out.append(c);
    out
}

/// Whether two strings hold the same characters.
pub fn same(a: &str, b: &str) -> (r: bool)
    ensures
        r == (a@ == b@),
{
    let x = chars_of(a);
    let y = chars_of(b);
    if x.len() != y.len() {
        return false;
    }
    let r = starts_at(&x, 0, &y);
    proof {
        assert(x@.subrange(0, x@.len() as int) =~= x@);
    }
    r
}

/// Whether `part` stands in `chars` at position `at`.
pub fn starts_at(chars: &Vec<char>, at: usize, part: &Vec<char>) -> (r: bool)
    requires
        at + part.len() <= chars.len(),
    ensures
        r == (chars@.subrange(at as int, at + part@.len()) == part@),
{
    let mut i: usize = 0;
    while i < part.len()
        invariant
            0 <= i <= part.len(),
            at + part.len() <= chars.len(),
            forall|j: int| 0 <= j < i ==> chars@[at + j] == part@[j],
        decreases part.len() - i,
    {
        if chars[at + i] != part[i] {
            proof {
                assert(chars@.subrange(at as int, at + part@.len())[i as int] != part@[i as int]);
            }
            return false;
        }
        i = i + 1;
    }
    proof {
        assert(chars@.subrange(at as int, at + part@.len()) =~= part@);
    }
    true
}

/// `p` is a prefix of `s`.
pub open spec fn has_prefix(s: Seq<char>, p: Seq<char>) -> bool {
    p.len() <= s.len() && s.take(p.len() as int) == p
}

/// `p` is a suffix of `s`.
pub open spec fn has_suffix(s: Seq<char>, p: Seq<char>) -> bool {
    p.len() <= s.len() && s.skip(s.len() - p.len()) == p
}

/// Whether `s` begins with `p`.
pub fn starts_with(s: &str, p: &str) -> (r: bool)
    ensures
        r == has_prefix(s@, p@),
{
    let x = chars_of(s);
    let y = chars_of(p);
    if y.len() > x.len() {
        return false;
    }
    proof {
        assert(x@.subrange(0, y@.len() as int) =~= x@.take(y@.len() as int));
    }
    starts_at(&x, 0, &y)
}

/// Whether `s` ends with `p`.
pub fn ends_with(s: &str, p: &str) -> (r: bool)
    ensures
        r == has_suffix(s@, p@),
{
    let x = chars_of(s);
    let y = chars_of(p);
    if y.len() > x.len() {
        return false;
    }
    proof {
        assert(x@.subrange(x@.len() - y@.len(), x@.len() as int) =~= x@.skip(
            x@.len() - y@.len(),
        ));
    }
    starts_at(&x, x.len() - y.len(), &y)
}

/// What follows the prefix `p` in `s`, where `s` begins with `p`.
pub fn strip_prefix(s: &str, p: &str) -> (r: Option<String>)
    ensures
        r is Some <==> has_prefix(s@, p@),
        r matches Some(rest) ==> rest@ == s@.skip(p@.len() as int),
{
    if !starts_with(s, p) {
        return None;
    }
    let x = chars_of(s);
    let y = chars_of(p);
    proof {
        assert(x@.subrange(y@.len() as int, x@.len() as int) =~= s@.skip(p@.len() as int));
    }
    Some(text_between(&x, y.len(), x.len()))
}

/// The position of the first `c` in `s`, or the length of `s`.
pub open spec fn first_index(s: Seq<char>, c: char) -> int
    decreases s.len(),
{
    if s.len() == 0 || s[0] == c {
        0
    } else {
        1 + first_index(s.drop_first(), c)
    }
}

/// `first_index` finds the first `c`, and is the length where there is none.
pub proof fn lemma_first_index(s: Seq<char>, c: char)
    ensures
        0 <= first_index(s, c) <= s.len(),
        first_index(s, c) < s.len() ==> s[first_index(s, c)] == c,
        forall|j: int| 0 <= j < first_index(s, c) ==> s[j] != c,
        s.contains(c) <==> first_index(s, c) < s.len(),
    decreases s.len(),
{
    if s.len() > 0 && s[0] != c {
        let t = s.drop_first();
        lemma_first_index(t, c);
        assert forall|j: int| 0 <= j < first_index(s, c) implies s[j] != c by {
            if j > 0 {
                assert(s[j] == t[j - 1]);
            }
        }
        if s.contains(c) {
            let k = choose|k: int| 0 <= k < s.len() && s[k] == c;
            assert(t[k - 1] == c);
        }
    }
}

/// The position of the first `c` in `chars`, or the length of `chars`.
pub fn find_char(chars: &Vec<char>, c: char) -> (r: usize)
    ensures
        r as int == first_index(chars@, c),
        r <= chars.len(),
{
    let mut i: usize = 0;
    proof {
        assert(chars@.skip(0) =~= chars@);
    }
    while i < chars.len()
        invariant
            0 <= i <= chars.len(),
            first_index(chars@, c) == i + first_index(chars@.skip(i as int), c),
        decreases chars.len() - i,
    {
        if chars[i] == c {
            return i;
        }
        proof {
            assert(chars@.skip(i as int).drop_first() =~= chars@.skip(i + 1));
        }
        i = i + 1;
    }
    i
}

/// Whether `c` occurs in `s`.
pub fn contains_char(s: &str, c: char) -> (r: bool)
    ensures
        r == s@.contains(c),
{
    let x = chars_of(s);
    proof {
        lemma_first_index(x@, c);
    }
    find_char(&x, c) < x.len()
}

// ---------------------------------------------------------------------------
// Character classes
// ---------------------------------------------------------------------------

/// `c` is one of `0` to `9`.
pub open spec fn is_digit(c: char) -> bool {
    '0' <= c && c <= '9'
}

/// `c` is an ASCII letter.
pub open spec fn is_letter(c: char) -> bool {
    ('a' <= c && c <= 'z') || ('A' <= c && c <= 'Z')
}

/// `c` has the Unicode property White_Space.
pub open spec fn is_space(c: char) -> bool {
    ||| 0x9 <= c as u32 <= 0xd
    ||| c as u32 == 0x20
    ||| c as u32 == 0x85
    ||| c as u32 == 0xa0
    ||| c as u32 == 0x1680
    ||| 0x2000 <= c as u32 <= 0x200a
    ||| c as u32 == 0x2028
    ||| c as u32 == 0x2029
    ||| c as u32 == 0x202f
    ||| c as u32 == 0x205f
    ||| c as u32 == 0x3000
}

/// Whether `c` is a decimal digit.
pub fn digit(c: char) -> (r: bool)
    ensures
        r == is_digit(c),
{
    '0' <= c && c <= '9'
}

/// Whether `c` is an ASCII letter.
pub fn letter(c: char) -> (r: bool)
    ensures
        r == is_letter(c),
{
    ('a' <= c && c <= 'z') || ('A' <= c && c <= 'Z')
}

/// Whether `c` is white space.
pub fn space(c: char) -> (r: bool)
    ensures
        r == is_space(c),
{
    let u: u32 = c as u32;
    (0x9 <= u && u <= 0xd) || u == 0x20 || u == 0x85 || u == 0xa0 || u == 0x1680 || (0x2000 <= u
        && u <= 0x200a) || u == 0x2028 || u == 0x2029 || u == 0x202f || u == 0x205f || u == 0x3000
}

// ---------------------------------------------------------------------------
// Trimming
// ---------------------------------------------------------------------------

/// `s` without the characters at its start that `p` accepts.
pub open spec fn trim_start_by(s: Seq<char>, p: spec_fn(char) -> bool) -> Seq<char>
    decreases s.len(),
{
    if s.len() > 0 && p(s[0]) {
        trim_start_by(s.drop_first(), p)
    } else {
        s
    }
}

/// `s` without the characters at its end that `p` accepts.
pub open spec fn trim_end_by(s: Seq<char>, p: spec_fn(char) -> bool) -> Seq<char>
    decreases s.len(),
{
    if s.len() > 0 && p(s.last()) {
        trim_end_by(s.drop_last(), p)
    } else {
        s
    }
}

/// `s` without leading and trailing white space.
pub open spec fn trimmed(s: Seq<char>) -> Seq<char> {
    trim_end_by(trim_start_by(s, |c: char| is_space(c)), |c: char| is_space(c))
}

/// `s` without leading and trailing white space.
pub fn trim(s: &str) -> (r: String)
    ensures
        r@ == trimmed(s@),
{
    let chars = chars_of(s);
    let ghost p = |c: char| is_space(c);
    let mut from: usize = 0;
    proof {
        assert(chars@.skip(0) =~= chars@);
    }
    while from < chars.len() && space(chars[from])
        invariant
            from <= chars.len(),
            p == (|c: char| is_space(c)),
            trim_start_by(chars@, p) == trim_start_by(chars@.skip(from as int), p),
        decreases chars.len() - from,
    {
        proof {
            assert(p(chars@.skip(from as int)[0]));
            assert(chars@.skip(from as int).drop_first() =~= chars@.skip(from + 1));
        }
        from = from + 1;
    }
    let mut to: usize = chars.len();
    proof {
        assert(chars@.skip(from as int) =~= chars@.subrange(from as int, to as int));
    }
    while to > from && space(chars[to - 1])
        invariant
            from <= to <= chars.len(),
            p == (|c: char| is_space(c)),
            trim_end_by(trim_start_by(chars@, p), p) == trim_end_by(
                chars@.subrange(from as int, to as int),
                p,
            ),
        decreases to,
    {
        proof {
            assert(p(chars@.subrange(from as int, to as int).last()));
            assert(chars@.subrange(from as int, to as int).drop_last() =~= chars@.subrange(
                from as int,
                to - 1,
            ));
        }
        to = to - 1;
    }
    text_between(&chars, from, to)
}

/// Text whose first and last characters are no white space is left as it is.
pub proof fn lemma_trimmed_fixed(s: Seq<char>)
    requires
        s.len() > 0 ==> !is_space(s[0]) && !is_space(s.last()),
    ensures
        trimmed(s) == s,
{
}

// ---------------------------------------------------------------------------
// Case
// ---------------------------------------------------------------------------

/// `c` with an ASCII capital made small.
pub open spec fn small(c: char) -> char {
    if 'A' <= c && c <= 'Z' {
        (c as u32 + 32) as char
    } else {
        c
    }
}

/// `s` with every ASCII capital made small.
pub open spec fn small_text(s: Seq<char>) -> Seq<char> {
    s.map_values(|c: char| small(c))
}

/// `c` with an ASCII capital made small.
pub fn to_small(c: char) -> (r: char)
    ensures
        r == small(c),
{
    if 'A' <= c && c <= 'Z' {
        let u: u8 = c as u8;
        (u + 32) as char
    } else {
        c
    }
}

/// Whether `a` and `b` are equal once ASCII capitals are made small.
pub fn same_ignoring_case(a: &str, b: &str) -> (r: bool)
    ensures
        r == (small_text(a@) == small_text(b@)),
{
    let x = chars_of(a);
    let y = chars_of(b);
    if x.len() != y.len() {
        proof {
            assert(small_text(a@).len() != small_text(b@).len());
        }
        return false;
    }
    let mut i: usize = 0;
    while i < x.len()
        invariant
            0 <= i <= x.len(),
            x.len() == y.len(),
            x@ == a@,
            y@ == b@,
            forall|j: int| 0 <= j < i ==> small(x@[j]) == small(y@[j]),
        decreases x.len() - i,
    {
        if to_small(x[i]) != to_small(y[i]) {
            proof {
                assert(small_text(a@)[i as int] != small_text(b@)[i as int]);
            }
            return false;
        }
        i = i + 1;
    }
    proof {
        assert(small_text(a@) =~= small_text(b@));
    }
    true
}

// ---------------------------------------------------------------------------
// Numbers
// ---------------------------------------------------------------------------

/// The character that writes the digit `d`.
pub open spec fn digit_char(d: nat) -> char {
    ('0' as u32 + d) as char
}

/// The decimal digits of `n`, without leading zeros.
pub open spec fn digits(n: nat) -> Seq<char>
    decreases n,
{
    if n < 10 {
        seq![digit_char(n)]
    } else {
        digits(n / 10).push(digit_char(n % 10))
    }
}

/// The decimal digits of `n` behind a minus sign where `n` is negative.
pub open spec fn signed_digits(n: int) -> Seq<char> {
    if n < 0 {
        seq!['-'] + digits((-n) as nat)
    } else {
        digits(n as nat)
    }
}

/// `n` in decimal.
pub fn decimal(n: u64) -> (r: String)
    ensures
        r@ == digits(n as nat),
    decreases n,
{
    let mut out: String = if n < 10 {
        String::new()
    } else {
        decimal(n / 10)
    };
    let d: u8 = (n % 10) as u8;
    let c: char = (48 + d) as char;
    out.push(c);
    proof {
        assert(n < 10 ==> out@ =~= digits(n as nat));
    }
    out
}

/// `n` in decimal, with a minus sign where it is negative.
pub fn decimal_signed(n: i64) -> (r: String)
    ensures
        r@ == signed_digits(n as int),
{
    if n >= 0 {
        decimal(n as u64)
    } else {
        let m: u64 = if n == i64::MIN {
            9223372036854775808u64
        } else {
            (0 - n) as u64
        };
        let mut out: String = String::new();
        out.push('-');
        let rest: String = decimal(m);
        out.append(rest.as_str());
        proof {
            assert(out@ =~= seq!['-'] + digits(m as nat));
        }
        out
    }
}

/// Every character of `s` is a digit.
pub open spec fn all_digits(s: Seq<char>) -> bool {
    forall|i: int| 0 <= i < s.len() ==> is_digit(#[trigger] s[i])
}

/// The number that the digits `s` write in decimal.
pub open spec fn value(s: Seq<char>) -> nat
    decreases s.len(),
{
    if s.len() == 0 {
        0
    } else {
        value(s.drop_last()) * 10 + (s.last() as u32 - '0' as u32) as nat
    }
}

/// The digits of a number are digits, at least one, and they write the number.
pub proof fn lemma_digits(n: nat)
    ensures
        digits(n).len() >= 1,
        all_digits(digits(n)),
        value(digits(n)) == n,
    decreases n,
{
    let last = digit_char(n % 10);
    assert(is_digit(last));
    if n >= 10 {
        lemma_digits(n / 10);
        let front = digits(n / 10);
        assert(digits(n).drop_last() =~= front);
        assert forall|i: int| 0 <= i < digits(n).len() implies is_digit(
            #[trigger] digits(n)[i],
        ) by {
            if i < front.len() {
                assert(digits(n)[i] == front[i]);
            }
        }
    } else {
        assert(digits(n).drop_last() =~= Seq::<char>::empty());
        assert(value(Seq::<char>::empty()) == 0);
    }
}

/// Different numbers have different digits.
pub proof fn lemma_digits_injective(m: nat, n: nat)
    requires
        digits(m) == digits(n),
    ensures
        m == n,
{
    lemma_digits(m);
    lemma_digits(n);
}

/// Whether every character of `s` is a digit.
pub fn only_digits(s: &str) -> (r: bool)
    ensures
        r == all_digits(s@),
{
    let x = chars_of(s);
    let mut i: usize = 0;
    while i < x.len()
        invariant
            0 <= i <= x.len(),
            x@ == s@,
            forall|j: int| 0 <= j < i ==> is_digit(#[trigger] x@[j]),
        decreases x.len() - i,
    {
        if !digit(x[i]) {
            return false;
        }
        i = i + 1;
    }
    true
}

/// A prefix of digits writes no larger a number than the whole.
proof fn lemma_value_take(s: Seq<char>, k: int)
    requires
        0 <= k <= s.len(),
        all_digits(s),
    ensures
        value(s.take(k)) <= value(s),
    decreases s.len(),
{
    if k < s.len() {
        assert(s.drop_last().take(k) =~= s.take(k));
        assert(all_digits(s.drop_last()));
        lemma_value_take(s.drop_last(), k);
        assert(is_digit(s.last()));
    } else {
        assert(s.take(k) =~= s);
    }
}

/// The number that the digits of `s` write, where it fits in an `i64`.
pub fn parse_digits(s: &str) -> (r: Option<i64>)
    requires
        all_digits(s@),
    ensures
        r is Some <==> value(s@) <= i64::MAX,
        r matches Some(n) ==> n == value(s@),
{
    let x = chars_of(s);
    let mut n: i64 = 0;
    let mut i: usize = 0;
    while i < x.len()
        invariant
            0 <= i <= x.len(),
            x@ == s@,
            all_digits(s@),
            n == value(x@.take(i as int)),
        decreases x.len() - i,
    {
        let c: char = x[i];
        assert(is_digit(x@[i as int]));
        let u: u32 = c as u32;
        let d: i64 = (u - 48) as i64;
        proof {
            assert(x@.take(i + 1).drop_last() =~= x@.take(i as int));
            assert(x@.take(i + 1).last() == c);
            lemma_value_take(x@, i + 1);
        }
        match n.checked_mul(10) {
            None => {
                return None;
            },
            Some(m) => {
                match m.checked_add(d) {
                    None => {
                        return None;
                    },
                    Some(k) => {
                        n = k;
                    },
                }
            },
        }
        i = i + 1;
    }
    proof {
        assert(x@.take(x@.len() as int) =~= x@);
    }
    Some(n)
}

// ---------------------------------------------------------------------------
// Padding
// ---------------------------------------------------------------------------

/// `n` copies of `c`.
pub open spec fn copies(c: char, n: int) -> Seq<char> {
    Seq::new(
        if n > 0 {
            n as nat
        } else {
            0
        },
        |i: int| c,
    )
}

/// `s` with spaces behind it up to `width` characters.
pub open spec fn left_aligned(s: Seq<char>, width: int) -> Seq<char> {
    s + copies(' ', width - s.len())
}

/// The digits of `n` with zeros before them up to `width` characters.
pub open spec fn zero_padded(n: nat, width: int) -> Seq<char> {
    copies('0', width - digits(n).len()) + digits(n)
}

/// `s` with spaces behind it up to `width` characters.
pub fn align_left(s: &str, width: usize) -> (r: String)
    ensures
        r@ == left_aligned(s@, width as int),
{
    let x = chars_of(s);
    let mut out: String = s.to_owned();
    let mut n: usize = x.len();
    while n < width
        invariant
            x@ == s@,
            x.len() <= n,
            n <= width || n == x.len(),
            out@ == s@ + copies(' ', n - s@.len()),
        decreases width - n,
    {
        out.push(' ');
        proof {
            assert((s@ + copies(' ', n - s@.len())).push(' ') =~= s@ + copies(
                ' ',
                n + 1 - s@.len(),
            ));
        }
        n = n + 1;
    }
    proof {
        assert(out@ =~= left_aligned(s@, width as int));
    }
    out
}

/// `n` in decimal with zeros before it up to `width` characters.
pub fn pad_zero(n: u64, width: usize) -> (r: String)
    ensures
        r@ == zero_padded(n as nat, width as int),
{
    let body: String = decimal(n);
    let x = chars_of(body.as_str());
    let mut out: String = String::new();
    let mut k: usize = x.len();
    while k < width
        invariant
            x@ == digits(n as nat),
            x.len() <= k,
            k <= width || k == x.len(),
            out@ == copies('0', k - x@.len()),
        decreases width - k,
    {
        out.push('0');
        proof {
            assert(copies('0', k - x@.len()).push('0') =~= copies('0', k + 1 - x@.len()));
        }
        k = k + 1;
    }
    out.append(body.as_str());
    proof {
        assert(out@ =~= zero_padded(n as nat, width as int));
    }
    out
}

// ---------------------------------------------------------------------------
// Splitting
// ---------------------------------------------------------------------------

/// The views of a sequence of strings.
pub open spec fn views(v: Seq<String>) -> Seq<Seq<char>> {
    v.map_values(|x: String| x@)
}

/// The pieces of `s` between the separators `c`.
pub open spec fn split(s: Seq<char>, c: char) -> Seq<Seq<char>>
    decreases s.len(),
    via split_decreases
{
    let k = first_index(s, c);
    if k >= s.len() {
        seq![s]
    } else {
        seq![s.take(k)] + split(s.skip(k + 1), c)
    }
}

#[via_fn]
proof fn split_decreases(s: Seq<char>, c: char) {
    lemma_first_index(s, c);
}

/// The pieces of `s` between the separators `c`.
pub fn split_text(s: &str, c: char) -> (r: Vec<String>)
    ensures
        views(r@) == split(s@, c),
{
    let x = chars_of(s);
    let mut out: Vec<String> = Vec::new();
    let mut from: usize = 0;
    let mut i: usize = 0;
    proof {
        assert(x@.skip(0) =~= x@);
        assert(views(out@) =~= Seq::<Seq<char>>::empty());
        assert(views(out@) + split(x@, c) =~= split(x@, c));
    }
    while i < x.len()
        invariant
            from <= i <= x.len(),
            x@ == s@,
            views(out@) + split(x@.skip(from as int), c) == split(s@, c),
            forall|j: int| from <= j < i ==> x@[j] != c,
        decreases x.len() - i,
    {
        if x[i] == c {
            let ghost before = out@;
            let piece: String = text_between(&x, from, i);
            out.push(piece);
            proof {
                let rest = x@.skip(from as int);
                lemma_first_index(rest, c);
                assert(rest[i - from] == c);
                assert forall|j: int| 0 <= j < i - from implies rest[j] != c by {
                    assert(rest[j] == x@[from + j]);
                }
                assert(first_index(rest, c) == i - from);
                assert(rest.take(i - from) =~= x@.subrange(from as int, i as int));
                assert(rest.skip(i - from + 1) =~= x@.skip(i + 1));
                assert(views(out@) =~= views(before) + seq![rest.take(i - from)]);
                assert(views(out@) + split(x@.skip(i + 1), c) =~= views(before) + (seq![
                    rest.take(i - from),
                ] + split(x@.skip(i + 1), c)));
            }
            from = i + 1;
        }
        i = i + 1;
    }
    let ghost before = out@;
    let piece: String = text_between(&x, from, x.len());
    out.push(piece);
    proof {
        let rest = x@.skip(from as int);
        lemma_first_index(rest, c);
        assert forall|j: int| 0 <= j < rest.len() implies rest[j] != c by {
            assert(rest[j] == x@[from + j]);
        }
        assert(first_index(rest, c) == rest.len());
        assert(rest =~= x@.subrange(from as int, x@.len() as int));
        assert(views(out@) =~= views(before) + seq![rest]);
    }
    out
}

// ---------------------------------------------------------------------------
// HTML
// ---------------------------------------------------------------------------

/// How `c` is written in HTML text, and inside a quoted attribute where
/// `quotes` is set.
pub open spec fn escaped_char(c: char, quotes: bool) -> Seq<char> {
    if c == '&' {
        "&amp;"@
    } else if c == '<' {
        "&lt;"@
    } else if c == '>' {
        "&gt;"@
    } else if quotes && c == '"' {
        "&quot;"@
    } else {
        seq![c]
    }
}

/// `s` with the characters that mean something in HTML written as entities.
pub open spec fn escaped(s: Seq<char>, quotes: bool) -> Seq<char>
    decreases s.len(),
{
    if s.len() == 0 {
        Seq::empty()
    } else {
        escaped(s.drop_last(), quotes) + escaped_char(s.last(), quotes)
    }
}

/// `s` with the characters that mean something in HTML written as entities.
pub fn escape(s: &str, quotes: bool) -> (r: String)
    ensures
        r@ == escaped(s@, quotes),
{
    let x = chars_of(s);
    let mut out: String = String::new();
    let mut i: usize = 0;
    while i < x.len()
        invariant
            0 <= i <= x.len(),
            out@ == escaped(x@.take(i as int), quotes),
        decreases x.len() - i,
    {
        let c: char = x[i];
        let ghost before = out@;
        if c == '&' {
            out.append("&amp;");
        } else if c == '<' {
            out.append("&lt;");
        } else if c == '>' {
            out.append("&gt;");
        } else if quotes && c == '"' {
            out.append("&quot;");
        } else {
            out.push(c);
            proof {
                assert(out@ =~= before + seq![c]);
            }
        }
        proof {
            assert(x@.take(i + 1).drop_last() =~= x@.take(i as int));
            assert(x@.take(i + 1).last() == c);
        }
        i = i + 1;
    }
    proof {
        assert(x@.take(x@.len() as int) =~= x@);
    }
    out
}

/// Escaped text opens and closes no tag, and escaped with `quotes` it cannot
/// end a quoted attribute: it holds no `<`, no `>` and then no `"`.
pub proof fn lemma_escaped_is_inert(s: Seq<char>, quotes: bool)
    ensures
        !escaped(s, quotes).contains('<'),
        !escaped(s, quotes).contains('>'),
        quotes ==> !escaped(s, quotes).contains('"'),
    decreases s.len(),
{
    if s.len() > 0 {
        reveal_strlit("&amp;");
        reveal_strlit("&lt;");
        reveal_strlit("&gt;");
        reveal_strlit("&quot;");
        lemma_escaped_is_inert(s.drop_last(), quotes);
        let front = escaped(s.drop_last(), quotes);
        let back = escaped_char(s.last(), quotes);
        assert(!back.contains('<') && !back.contains('>') && (quotes ==> !back.contains('"')));
        assert forall|i: int| 0 <= i < (front + back).len() implies {
            &&& #[trigger] (front + back)[i] != '<'
            &&& (front + back)[i] != '>'
            &&& (quotes ==> (front + back)[i] != '"')
        } by {
            if i < front.len() {
                assert(front.contains(front[i]));
                assert((front + back)[i] == front[i]);
            } else {
                assert(back.contains(back[i - front.len()]));
                assert((front + back)[i] == back[i - front.len()]);
            }
        }
    }
}

// ---------------------------------------------------------------------------
// What the operations come to
// ---------------------------------------------------------------------------

/// What stands on both sides of a separator is split for itself: the pieces of the
/// one, then those of the other.
pub proof fn lemma_split_around(a: Seq<char>, b: Seq<char>, c: char)
    ensures
        split(a + seq![c] + b, c) == split(a, c) + split(b, c),
    decreases a.len(),
{
    let s = a + seq![c] + b;
    lemma_first_index(s, c);
    lemma_first_index(a, c);
    let k = first_index(s, c);
    let j = first_index(a, c);
    if j >= a.len() {
        assert(s[a.len() as int] == c);
        if k < a.len() {
            assert(s[k] == a[k]);
        }
        assert(k == a.len());
        assert(s.take(k) =~= a);
        assert(s.skip(k + 1) =~= b);
    } else {
        assert(s[j] == a[j]);
        if k < j {
            assert(s[k] == a[k]);
        }
        assert(k == j);
        assert(s.take(k) =~= a.take(j));
        let rest = a.skip(j + 1);
        assert(s.skip(k + 1) =~= rest + seq![c] + b);
        lemma_split_around(rest, b, c);
        assert(seq![a.take(j)] + (split(rest, c) + split(b, c)) =~= (seq![a.take(j)] + split(
            rest,
            c,
        )) + split(b, c));
    }
}

/// Text without a separator is one piece.
pub proof fn lemma_split_whole(s: Seq<char>, c: char)
    requires
        !s.contains(c),
    ensures
        split(s, c) == seq![s],
{
    lemma_first_index(s, c);
}

/// Splitting drops the separators and nothing else: the pieces with one separator
/// between each two are the text.
pub proof fn lemma_split_loses_nothing(s: Seq<char>, c: char)
    ensures
        split(s, c).len() >= 1,
        joined_by(split(s, c), c) == s,
    decreases s.len(),
{
    lemma_first_index(s, c);
    let k = first_index(s, c);
    if k < s.len() {
        let rest = s.skip(k + 1);
        lemma_split_loses_nothing(rest, c);
        let all = split(s, c);
        assert(all.drop_first() =~= split(rest, c));
        assert(all[0] == s.take(k));
        assert(s =~= s.take(k) + seq![c] + rest);
    } else {
        assert(seq![s].drop_first() =~= Seq::<Seq<char>>::empty());
    }
}

/// The pieces with one separator between each two.
pub open spec fn joined_by(pieces: Seq<Seq<char>>, c: char) -> Seq<char>
    decreases pieces.len(),
{
    if pieces.len() == 0 {
        Seq::empty()
    } else if pieces.len() == 1 {
        pieces[0]
    } else {
        pieces[0] + seq![c] + joined_by(pieces.drop_first(), c)
    }
}

proof fn lemma_trim_start_around(a: Seq<char>, s: Seq<char>, p: spec_fn(char) -> bool)
    requires
        forall|i: int| 0 <= i < a.len() ==> p(#[trigger] a[i]),
        s.len() > 0 ==> !p(s[0]),
    ensures
        trim_start_by(a + s, p) == s,
    decreases a.len(),
{
    if a.len() > 0 {
        assert((a + s)[0] == a[0]);
        assert((a + s).drop_first() =~= a.drop_first() + s);
        assert forall|i: int| 0 <= i < a.drop_first().len() implies p(
            #[trigger] a.drop_first()[i],
        ) by {
            assert(a.drop_first()[i] == a[i + 1]);
        }
        lemma_trim_start_around(a.drop_first(), s, p);
    } else {
        assert(a + s =~= s);
    }
}

proof fn lemma_trim_end_around(s: Seq<char>, b: Seq<char>, p: spec_fn(char) -> bool)
    requires
        forall|i: int| 0 <= i < b.len() ==> p(#[trigger] b[i]),
        s.len() > 0 ==> !p(s.last()),
    ensures
        trim_end_by(s + b, p) == s,
    decreases b.len(),
{
    if b.len() > 0 {
        assert((s + b).last() == b[b.len() - 1]);
        assert((s + b).drop_last() =~= s + b.drop_last());
        assert forall|i: int| 0 <= i < b.drop_last().len() implies p(
            #[trigger] b.drop_last()[i],
        ) by {
            assert(b.drop_last()[i] == b[i]);
        }
        lemma_trim_end_around(s, b.drop_last(), p);
    } else {
        assert(s + b =~= s);
    }
}

/// What `p` accepts is trimmed from both ends, and nothing else is.
pub proof fn lemma_trim_around(
    a: Seq<char>,
    s: Seq<char>,
    b: Seq<char>,
    p: spec_fn(char) -> bool,
)
    requires
        forall|i: int| 0 <= i < a.len() ==> p(#[trigger] a[i]),
        forall|i: int| 0 <= i < b.len() ==> p(#[trigger] b[i]),
        s.len() > 0 ==> !p(s[0]) && !p(s.last()),
    ensures
        trim_end_by(trim_start_by(a + s + b, p), p) == s,
{
    if s.len() > 0 {
        assert(a + s + b =~= a + (s + b));
        assert((s + b)[0] == s[0]);
        lemma_trim_start_around(a, s + b, p);
        lemma_trim_end_around(s, b, p);
    } else {
        let all = a + s + b;
        assert forall|i: int| 0 <= i < all.len() implies p(#[trigger] all[i]) by {
            if i < a.len() {
                assert(all[i] == a[i]);
            } else {
                assert(all[i] == b[i - a.len()]);
            }
        }
        lemma_trim_start_around(all, Seq::empty(), p);
        assert(all + Seq::<char>::empty() =~= all);
        assert(s =~= Seq::<char>::empty());
    }
}

/// Spaces, tabs and line ends are white space; visible ASCII is not.
pub proof fn lemma_white_space(c: char)
    ensures
        c == ' ' || c == '\t' || c == '\n' || c == '\r' ==> is_space(c),
        '!' <= c <= '~' ==> !is_space(c),
{
}

/// White space around text is trimmed, and the text between is left as it is.
pub proof fn lemma_trimmed_around(a: Seq<char>, s: Seq<char>, b: Seq<char>)
    requires
        forall|i: int| 0 <= i < a.len() ==> is_space(#[trigger] a[i]),
        forall|i: int| 0 <= i < b.len() ==> is_space(#[trigger] b[i]),
        s.len() > 0 ==> !is_space(s[0]) && !is_space(s.last()),
    ensures
        trimmed(a + s + b) == s,
{
    lemma_trim_around(a, s, b, |c: char| is_space(c));
}

/// The ten digits write the numbers below ten, a further digit counts ten times what
/// stands before it and itself, and a number has no zero in front.
pub proof fn lemma_decimal(n: nat)
    ensures
        n < 10 ==> digits(n) == seq![(0x30 + n) as char],
        n >= 10 ==> digits(n) == digits(n / 10) + digits(n % 10),
        n > 0 ==> digits(n)[0] != '0',
        value(digits(n)) == n,
    decreases n,
{
    lemma_digits(n);
    if n >= 10 {
        lemma_decimal(n / 10);
        lemma_digits(n / 10);
        assert(digits(n) =~= digits(n / 10) + digits(n % 10));
    }
}

/// A digit behind others makes their number ten times as large and adds its own.
pub proof fn lemma_value_grows(s: Seq<char>, d: nat)
    requires
        d < 10,
    ensures
        value(Seq::empty()) == 0,
        value(s.push((0x30 + d) as char)) == 10 * value(s) + d,
{
    assert(s.push((0x30 + d) as char).drop_last() =~= s);
}

/// A number below zero is written with a minus sign before the digits of its
/// opposite, and any other by its digits.
pub proof fn lemma_signed_decimal(n: nat)
    ensures
        signed_digits(n as int) == digits(n),
        n > 0 ==> signed_digits(-n) == seq!['-'] + digits(n),
{
}

/// Text that is aligned keeps its characters in front, and spaces follow up to the
/// width.
pub proof fn lemma_left_aligned(s: Seq<char>, width: nat)
    ensures
        has_prefix(left_aligned(s, width as int), s),
        left_aligned(s, width as int).len() == if s.len() < width {
            width
        } else {
            s.len()
        },
        forall|i: int|
            s.len() <= i < left_aligned(s, width as int).len() ==> #[trigger] left_aligned(
                s,
                width as int,
            )[i] == ' ',
{
    assert(left_aligned(s, width as int).take(s.len() as int) =~= s);
}

proof fn lemma_value_of_zeros(k: nat, s: Seq<char>)
    ensures
        value(copies('0', k as int) + s) == value(s),
    decreases s.len(), k,
{
    let t = copies('0', k as int) + s;
    if s.len() > 0 {
        assert(t.drop_last() =~= copies('0', k as int) + s.drop_last());
        assert(t.last() == s.last());
        lemma_value_of_zeros(k, s.drop_last());
    } else if k > 0 {
        assert(t.drop_last() =~= copies('0', k - 1) + s);
        assert(t.last() == '0');
        lemma_value_of_zeros((k - 1) as nat, s);
    } else {
        assert(t =~= s);
    }
}

/// A padded number still writes the number, in at least the width.
pub proof fn lemma_zero_padded(n: nat, width: nat)
    ensures
        value(zero_padded(n, width as int)) == n,
        all_digits(zero_padded(n, width as int)),
        zero_padded(n, width as int).len() == if digits(n).len() < width {
            width
        } else {
            digits(n).len()
        },
{
    lemma_digits(n);
    let k = if digits(n).len() < width {
        (width - digits(n).len()) as nat
    } else {
        0
    };
    assert(copies('0', width - digits(n).len()) =~= copies('0', k as int));
    lemma_value_of_zeros(k, digits(n));
    let t = zero_padded(n, width as int);
    assert forall|i: int| 0 <= i < t.len() implies is_digit(#[trigger] t[i]) by {
        if i >= k {
            assert(t[i] == digits(n)[i - k]);
        }
    }
}

/// Text is escaped piece by piece.
pub proof fn lemma_escaped_around(a: Seq<char>, b: Seq<char>, quotes: bool)
    ensures
        escaped(a + b, quotes) == escaped(a, quotes) + escaped(b, quotes),
    decreases b.len(),
{
    if b.len() == 0 {
        assert(a + b =~= a);
        assert(escaped(a, quotes) + escaped(b, quotes) =~= escaped(a, quotes));
    } else {
        assert((a + b).drop_last() =~= a + b.drop_last());
        assert((a + b).last() == b.last());
        lemma_escaped_around(a, b.drop_last(), quotes);
        assert(escaped(a, quotes) + escaped(b.drop_last(), quotes) + escaped_char(b.last(), quotes)
            =~= escaped(a, quotes) + (escaped(b.drop_last(), quotes) + escaped_char(
            b.last(),
            quotes,
        )));
    }
}

/// The characters that mean something in HTML are escaped by their entities, and
/// every other stands for itself.
pub proof fn lemma_escaped_one(c: char, quotes: bool)
    ensures
        c == '&' ==> escaped(seq![c], quotes) == "&amp;"@,
        c == '<' ==> escaped(seq![c], quotes) == "&lt;"@,
        c == '>' ==> escaped(seq![c], quotes) == "&gt;"@,
        c == '"' && quotes ==> escaped(seq![c], quotes) == "&quot;"@,
        c != '&' && c != '<' && c != '>' && !(c == '"' && quotes) ==> escaped(seq![c], quotes)
            == seq![c],
{
    reveal_with_fuel(escaped, 2);
    assert(seq![c].drop_last() =~= Seq::<char>::empty());
    assert(seq![c].last() == c);
    assert(escaped(seq![c], quotes) =~= escaped_char(c, quotes));
}

/// Text without such characters is not changed by escaping.
pub proof fn lemma_escaped_plain(s: Seq<char>, quotes: bool)
    requires
        forall|i: int|
            0 <= i < s.len() ==> #[trigger] s[i] != '&' && s[i] != '<' && s[i] != '>' && s[i] != '"',
    ensures
        escaped(s, quotes) == s,
    decreases s.len(),
{
    if s.len() > 0 {
        let front = s.drop_last();
        assert forall|i: int| 0 <= i < front.len() implies #[trigger] front[i] != '&' && front[i]
            != '<' && front[i] != '>' && front[i] != '"' by {
            assert(front[i] == s[i]);
        }
        lemma_escaped_plain(front, quotes);
        assert(s[s.len() - 1] == s.last());
        assert(front + seq![s.last()] =~= s);
    } else {
        assert(escaped(s, quotes) =~= s);
    }
}

/// The text holds the part somewhere.
pub open spec fn holds(s: Seq<char>, part: Seq<char>) -> bool {
    exists|a: Seq<char>, b: Seq<char>| s == #[trigger] (a + part + b)
}

/// A text holds what stands in it between two others.
pub proof fn lemma_holds(a: Seq<char>, part: Seq<char>, b: Seq<char>)
    ensures
        holds(a + part + b, part),
{
}

/// The characters that are white space, and no other is.
pub proof fn lemma_every_white_space(c: char)
    ensures
        is_space(c) <==> {
            ||| c == '\t' || c == '\n' || c == '\u{b}' || c == '\u{c}' || c == '\r' || c == ' '
            ||| c == '\u{85}' || c == '\u{a0}' || c == '\u{1680}' || c == '\u{2000}' || c
                == '\u{2001}' || c == '\u{2002}' || c == '\u{2003}'
            ||| c == '\u{2004}' || c == '\u{2005}' || c == '\u{2006}' || c == '\u{2007}' || c
                == '\u{2008}' || c == '\u{2009}' || c == '\u{200a}'
            ||| c == '\u{2028}' || c == '\u{2029}' || c == '\u{202f}' || c == '\u{205f}' || c
                == '\u{3000}'
        },
{
}

} // verus!
