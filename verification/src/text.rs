//! Character-level helpers shared by the parsers and formatters.
//!
//! Text is handled as sequences of `char`: a `&str` is unpacked once with
//! [`chars_of`], worked on as a `Vec<char>`, and packed again with
//! [`string_of`].

use vstd::prelude::*;

verus! {

/// `String::push` appends one character at the end of the string and leaves
/// the characters before it as they were.
pub assume_specification[ std::string::String::push ](s: &mut std::string::String, c: char)
    ensures
        final(s)@ == old(s)@.push(c),
;

/// `str == str` compares the two strings character by character.
pub assume_specification[ <str as PartialEq>::eq ](a: &str, b: &str) -> (r: bool)
    ensures
        r == (a@ == b@),
;

/// What `str::to_lowercase` gives for the text: the text with each
/// character in its lower case, by the rules of Unicode.
pub uninterp spec fn lowercased(s: Seq<char>) -> Seq<char>;

/// `str::to_lowercase` gives the lower case of the string as a new
/// string.
pub assume_specification[ str::to_lowercase ](s: &str) -> (r: std::string::String)
    ensures
        r@ == lowercased(s@),
;

/// Whether two strings hold the same characters.
pub fn str_eq(a: &str, b: &str) -> (r: bool)
    ensures
        r == (a@ == b@),
{
    *a == *b
}

/// The characters of `s`, in order.
pub fn chars_of(s: &str) -> (out: Vec<char>)
    ensures
        out@ == s@,
{
    let mut out: Vec<char> = Vec::new();
    for c in it: s.chars()
        invariant
            out@ == it.seq().take(it.index()),
    {
        out.push(c);
    }
    out
}

/// The string made of the characters of `v`, in order.
pub fn string_of(v: &Vec<char>) -> (out: String)
    ensures
        out@ == v@,
{
    let mut out = String::new();
    let mut i: usize = 0;
    while i < v.len()
        invariant
            i <= v.len(),
            out@ == v@.take(i as int),
        decreases v.len() - i,
    {
        out.push(v[i]);
        i += 1;
    }
    out
}

/// Whether `needle` occurs in `hay` starting exactly at index `at`.
pub open spec fn occurs_at(hay: Seq<char>, needle: Seq<char>, at: int) -> bool {
    &&& 0 <= at
    &&& at + needle.len() <= hay.len()
    &&& hay.subrange(at, at + needle.len()) == needle
}

/// Whether `needle` occurs anywhere in `hay`.
pub open spec fn contains_text(hay: Seq<char>, needle: Seq<char>) -> bool {
    exists|at: int| occurs_at(hay, needle, at)
}

/// Tests for an occurrence of `needle` in `hay` at index `at`.
pub fn matches_at(hay: &Vec<char>, needle: &Vec<char>, at: usize) -> (b: bool)
    ensures
        b == occurs_at(hay@, needle@, at as int),
{
    if needle.len() > hay.len() || at > hay.len() - needle.len() {
        return false;
    }
    let mut k: usize = 0;
    while k < needle.len()
        invariant
            k <= needle.len(),
            at + needle.len() <= hay.len(),
            forall|j: int| 0 <= j < k ==> hay@[at + j] == needle@[j],
        decreases needle.len() - k,
    {
        if hay[at + k] != needle[k] {
            proof {
                let sub = hay@.subrange(at as int, at + needle.len());
                assert(sub[k as int] == hay@[at + k]);
            }
            return false;
        }
        k += 1;
    }
    assert(hay@.subrange(at as int, at + needle.len()) =~= needle@);
    true
}

/// The index of the first occurrence of `needle` in `hay` at or after
/// `from`, if there is one.
pub fn find_text(hay: &Vec<char>, needle: &Vec<char>, from: usize) -> (r: Option<usize>)
    ensures
        match r {
            Some(at) => {
                &&& from <= at
                &&& occurs_at(hay@, needle@, at as int)
                &&& forall|j: int| from <= j < at ==> !occurs_at(hay@, needle@, j)
            },
            None => forall|j: int| from <= j ==> !occurs_at(hay@, needle@, j),
        },
{
    if needle.len() > hay.len() || from > hay.len() - needle.len() {
        return None;
    }
    let last: usize = hay.len() - needle.len();
    let mut at: usize = from;
    loop
        invariant
            from <= at <= last,
            last == hay.len() - needle.len(),
            forall|j: int| from <= j < at ==> !occurs_at(hay@, needle@, j),
        decreases last - at,
    {
        if matches_at(hay, needle, at) {
            return Some(at);
        }
        if at == last {
            return None;
        }
        at += 1;
    }
}

/// Whether `needle` occurs anywhere in `hay`.
pub fn contains(hay: &Vec<char>, needle: &Vec<char>) -> (b: bool)
    ensures
        b == contains_text(hay@, needle@),
{
    find_text(hay, needle, 0).is_some()
}

/// Whether the string `hay` holds the string `needle` somewhere.
pub fn str_contains(hay: &str, needle: &str) -> (b: bool)
    ensures
        b == contains_text(hay@, needle@),
{
    let h = chars_of(hay);
    let n = chars_of(needle);
    contains(&h, &n)
}

/// The decimal digit for a value below ten.
pub open spec fn digit_char(d: nat) -> char {
    if d == 0 {
        '0'
    } else if d == 1 {
        '1'
    } else if d == 2 {
        '2'
    } else if d == 3 {
        '3'
    } else if d == 4 {
        '4'
    } else if d == 5 {
        '5'
    } else if d == 6 {
        '6'
    } else if d == 7 {
        '7'
    } else if d == 8 {
        '8'
    } else {
        '9'
    }
}

/// The decimal numeral of `n`, without sign or leading zeros.
pub open spec fn decimal(n: nat) -> Seq<char>
    decreases n,
{
    if n < 10 {
        seq![digit_char(n)]
    } else {
        decimal(n / 10).push(digit_char(n % 10))
    }
}

fn digit_of(d: u64) -> (c: char)
    requires
        d < 10,
    ensures
        c == digit_char(d as nat),
{
    if d == 0 {
        '0'
    } else if d == 1 {
        '1'
    } else if d == 2 {
        '2'
    } else if d == 3 {
        '3'
    } else if d == 4 {
        '4'
    } else if d == 5 {
        '5'
    } else if d == 6 {
        '6'
    } else if d == 7 {
        '7'
    } else if d == 8 {
        '8'
    } else {
        '9'
    }
}

/// Appends the decimal numeral of `n` to `out`.
pub fn push_decimal(out: &mut Vec<char>, n: u64)
    ensures
        final(out)@ == old(out)@ + decimal(n as nat),
    decreases n,
{
    if n >= 10 {
        push_decimal(out, n / 10);
    }
    out.push(digit_of(n % 10));
    assert(out@ =~= old(out)@ + decimal(n as nat));
}

/// Appends the characters of `s` to `out`.
pub fn push_str(out: &mut Vec<char>, s: &str)
    ensures
        final(out)@ == old(out)@ + s@,
{
    let add = chars_of(s);
    push_all(out, &add);
}

/// Appends the characters of `add` to `out`.
pub fn push_all(out: &mut Vec<char>, add: &Vec<char>)
    ensures
        final(out)@ == old(out)@ + add@,
{
    let mut i: usize = 0;
    while i < add.len()
        invariant
            i <= add.len(),
            out@ == old(out)@ + add@.take(i as int),
        decreases add.len() - i,
    {
        out.push(add[i]);
        assert(add@.take(i + 1) =~= add@.take(i as int).push(add@[i as int]));
        assert(out@ =~= old(out)@ + add@.take(i + 1));
        i += 1;
    }
    assert(add@.take(add.len() as int) =~= add@);
}

/// The decimal numeral of `n`, with a minus sign before it when `n` is
/// below zero.
pub open spec fn signed_decimal(n: int) -> Seq<char> {
    if n < 0 {
        seq!['-'] + decimal((-n) as nat)
    } else {
        decimal(n as nat)
    }
}

/// Appends the decimal numeral of `n`, with its sign, to `out`.
pub fn push_signed(out: &mut Vec<char>, n: i64)
    ensures
        final(out)@ == old(out)@ + signed_decimal(n as int),
{
    if n < 0 {
        out.push('-');
        let magnitude: u64 = if n == i64::MIN {
            9223372036854775808u64
        } else {
            (-n) as u64
        };
        push_decimal(out, magnitude);
        assert(out@ =~= old(out)@ + signed_decimal(n as int));
    } else {
        push_decimal(out, n as u64);
    }
}

/// Whether `c` ends a line: a line feed or a carriage return.
pub open spec fn is_line_end(c: char) -> bool {
    c == '\n' || c == '\r'
}

/// `s` without the line ends that stand at its end.
pub open spec fn without_line_end(s: Seq<char>) -> Seq<char>
    decreases s.len(),
{
    if s.len() > 0 && is_line_end(s.last()) {
        without_line_end(s.drop_last())
    } else {
        s
    }
}

/// Takes the line ends off the end of `v`.
pub fn strip_line_end(v: &mut Vec<char>)
    ensures
        final(v)@ == without_line_end(old(v)@),
{
    while v.len() > 0 && (v[v.len() - 1] == '\n' || v[v.len() - 1] == '\r')
        invariant
            without_line_end(v@) == without_line_end(old(v)@),
        decreases v.len(),
    {
        let ghost before = v@;
        v.pop();
        assert(v@ =~= before.drop_last());
    }
}

/// Whether `c` is white space, as Unicode defines it.
pub open spec fn is_space(c: char) -> bool {
    let n = c as u32;
    ||| 0x09 <= n <= 0x0d
    ||| n == 0x20
    ||| n == 0x85
    ||| n == 0xa0
    ||| n == 0x1680
    ||| 0x2000 <= n <= 0x200a
    ||| n == 0x2028
    ||| n == 0x2029
    ||| n == 0x202f
    ||| n == 0x205f
    ||| n == 0x3000
}

/// Whether `s` holds nothing but white space.
pub open spec fn is_blank(s: Seq<char>) -> bool {
    forall|i: int| 0 <= i < s.len() ==> is_space(#[trigger] s[i])
}

fn space(c: char) -> (b: bool)
    ensures
        b == is_space(c),
{
    let n = c as u32;
    (0x09 <= n && n <= 0x0d) || n == 0x20 || n == 0x85 || n == 0xa0 || n == 0x1680 || (0x2000 <= n && n
        <= 0x200a) || n == 0x2028 || n == 0x2029 || n == 0x202f || n == 0x205f || n == 0x3000
}

/// Whether the string holds nothing but white space.
pub fn blank(s: &str) -> (b: bool)
    ensures
        b == is_blank(s@),
{
    let v = chars_of(s);
    let mut i: usize = 0;
    while i < v.len()
        invariant
            i <= v.len(),
            v@ == s@,
            forall|j: int| 0 <= j < i ==> is_space(#[trigger] v@[j]),
        decreases v.len() - i,
    {
        if !space(v[i]) {
            return false;
        }
        i += 1;
    }
    true
}

/// The last `cap` items of `s`, or all of `s` where it holds no more.
pub open spec fn last_items<T>(s: Seq<T>, cap: int) -> Seq<T> {
    if s.len() > cap && cap >= 0 {
        s.subrange(s.len() - cap, s.len() as int)
    } else {
        s
    }
}

/// Appends `item` to `v` and then drops from the front what is over `cap`
/// items.
pub fn push_capped<T>(v: &mut Vec<T>, item: T, cap: usize)
    ensures
        final(v)@ == last_items(old(v)@.push(item), cap as int),
{
    v.push(item);
    let ghost full = v@;
    while v.len() > cap
        invariant
            full == old(v)@.push(item),
            v@.len() <= full.len(),
            v@.len() == full.len() || v@.len() >= cap,
            v@ == full.subrange(full.len() - v@.len(), full.len() as int),
        decreases v.len(),
    {
        v.remove(0);
        assert(v@ =~= full.subrange(full.len() - v@.len(), full.len() as int));
    }
    assert(v@ =~= last_items(full, cap as int));
}

/// A copy of the list of strings.
pub fn clone_strings(v: &Vec<String>) -> (out: Vec<String>)
    ensures
        out.deep_view() == v.deep_view(),
        out@.len() == v@.len(),
{
    let mut out: Vec<String> = Vec::new();
    let mut i: usize = 0;
    while i < v.len()
        invariant
            i <= v.len(),
            out@.len() == i,
            forall|j: int| 0 <= j < i ==> out@[j]@ == v@[j]@,
        decreases v.len() - i,
    {
        out.push(v[i].clone());
        i += 1;
    }
    assert(out.deep_view() =~= v.deep_view());
    out
}

/// A copy of the string slice as an owned string.
pub fn owned(s: &str) -> (out: String)
    ensures
        out@ == s@,
{
    s.to_owned()
}

/// The last `width` decimal digits of `n`, with zeros in front where `n`
/// has fewer.
pub open spec fn padded(n: nat, width: nat) -> Seq<char>
    decreases width,
{
    if width == 0 {
        Seq::empty()
    } else {
        padded(n / 10, (width - 1) as nat).push(digit_char(n % 10))
    }
}

/// Ten to the power `places`.
pub open spec fn pow10(places: nat) -> nat
    decreases places,
{
    if places == 0 {
        1
    } else {
        10 * pow10((places - 1) as nat)
    }
}

/// The number `n / 10^places` written with a decimal point and `places`
/// digits behind it; without the point where `places` is nought.
pub open spec fn scaled_text(n: int, places: nat) -> Seq<char> {
    let magnitude = if n < 0 {
        (-n) as nat
    } else {
        n as nat
    };
    let sign = if n < 0 {
        seq!['-']
    } else {
        Seq::empty()
    };
    let whole = decimal(magnitude / pow10(places));
    if places == 0 {
        sign + whole
    } else {
        sign + whole + seq!['.'] + padded(magnitude % pow10(places), places)
    }
}

/// `n / unit` rounded to the nearest whole number, a half away from
/// nought, for a positive `unit`.
pub open spec fn rounded(n: int, unit: int) -> int {
    if n >= 0 {
        (n + unit / 2) / unit
    } else {
        -((-n + unit / 2) / unit)
    }
}

/// `n / unit` rounded to the nearest whole number.
pub fn round_to(n: i64, unit: u32) -> (q: i64)
    requires
        unit > 0,
    ensures
        q == rounded(n as int, unit as int),
{
    if unit == 1 {
        return n;
    }
    let half: u128 = (unit / 2) as u128;
    if n >= 0 {
        let x: u128 = n as u128 + half;
        proof {
            vstd::arithmetic::div_mod::lemma_div_is_ordered_by_denominator(x as int, 2, unit as int);
        }
        (x / unit as u128) as i64
    } else {
        let up: u128 = if n == i64::MIN {
            9223372036854775808u128
        } else {
            (-n) as u128
        };
        let x: u128 = up + half;
        proof {
            vstd::arithmetic::div_mod::lemma_div_is_ordered_by_denominator(x as int, 2, unit as int);
        }
        -((x / unit as u128) as i64)
    }
}

fn push_padded(out: &mut Vec<char>, n: u64, width: usize)
    ensures
        final(out)@ == old(out)@ + padded(n as nat, width as nat),
    decreases width,
{
    if width > 0 {
        push_padded(out, n / 10, width - 1);
        out.push(digit_of(n % 10));
        assert(out@ =~= old(out)@ + padded(n as nat, width as nat));
    } else {
        assert(out@ =~= old(out)@ + padded(n as nat, width as nat));
    }
}

fn power_of_ten(places: usize) -> (p: u64)
    requires
        places <= 18,
    ensures
        p == pow10(places as nat),
        1 <= p <= 1_000_000_000_000_000_000,
    decreases places,
{
    if places == 0 {
        1
    } else {
        let q = power_of_ten(places - 1);
        assert(q <= 100_000_000_000_000_000) by {
            lemma_pow10_bound((places - 1) as nat);
        }
        10 * q
    }
}

proof fn lemma_pow10_bound(places: nat)
    requires
        places <= 17,
    ensures
        pow10(places) <= 100_000_000_000_000_000,
{
    reveal_with_fuel(pow10, 19);
}

/// Appends the number `n / 10^places`, written with `places` digits
/// behind the decimal point, to `out`.
pub fn push_scaled(out: &mut Vec<char>, n: i64, places: usize)
    requires
        places <= 18,
    ensures
        final(out)@ == old(out)@ + scaled_text(n as int, places as nat),
{
    let magnitude: u64 = if n == i64::MIN {
        9223372036854775808u64
    } else if n < 0 {
        (-n) as u64
    } else {
        n as u64
    };
    if n < 0 {
        out.push('-');
    }
    let unit = power_of_ten(places);
    push_decimal(out, magnitude / unit);
    if places > 0 {
        out.push('.');
        push_padded(out, magnitude % unit, places);
    }
    assert(out@ =~= old(out)@ + scaled_text(n as int, places as nat));
}

/// `s` without a carriage return at its end.
pub open spec fn without_cr(s: Seq<char>) -> Seq<char> {
    if s.len() > 0 && s.last() == '\r' {
        s.drop_last()
    } else {
        s
    }
}

/// The lines of `s` that a line feed ends, each without the line feed and
/// without a carriage return before it.
pub open spec fn ended_lines(s: Seq<char>) -> Seq<Seq<char>>
    decreases s.len(),
{
    if s.len() == 0 {
        Seq::empty()
    } else if s.last() == '\n' {
        ended_lines(s.drop_last()).push(without_cr(open_line(s.drop_last())))
    } else {
        ended_lines(s.drop_last())
    }
}

/// What stands in `s` behind the last line feed.
pub open spec fn open_line(s: Seq<char>) -> Seq<char>
    decreases s.len(),
{
    if s.len() == 0 || s.last() == '\n' {
        Seq::empty()
    } else {
        open_line(s.drop_last()).push(s.last())
    }
}

/// The lines of `s`: what a line feed ends, and what stands behind the
/// last line feed unless that is nothing. A carriage return before a line
/// feed goes with the line feed.
pub open spec fn lines_of(s: Seq<char>) -> Seq<Seq<char>> {
    if open_line(s).len() > 0 {
        ended_lines(s).push(open_line(s))
    } else {
        ended_lines(s)
    }
}

/// The lines of the text.
pub fn split_lines(text: &str) -> (lines: Vec<String>)
    ensures
        lines.deep_view() == lines_of(text@),
{
    let v = chars_of(text);
    let mut lines: Vec<String> = Vec::new();
    let mut current: Vec<char> = Vec::new();
    let mut i: usize = 0;
    assert(v@.take(0) =~= Seq::empty());
    assert(lines.deep_view() =~= Seq::<Seq<char>>::empty());
    while i < v.len()
        invariant
            i <= v.len(),
            v@ == text@,
            lines.deep_view() == ended_lines(v@.take(i as int)),
            current@ == open_line(v@.take(i as int)),
        decreases v.len() - i,
    {
        assert(v@.take(i + 1).drop_last() =~= v@.take(i as int));
        let ghost before = lines.deep_view();
        if v[i] == '\n' {
            if current.len() > 0 && current[current.len() - 1] == '\r' {
                let ghost whole = current@;
                current.pop();
                assert(current@ =~= whole.drop_last());
            }
            let line = string_of(&current);
            lines.push(line);
            assert(lines.deep_view() =~= before.push(line@));
            current = Vec::new();
        } else {
            current.push(v[i]);
        }
        i += 1;
    }
    assert(v@.take(v.len() as int) =~= v@);
    if current.len() > 0 {
        let ghost before = lines.deep_view();
        let line = string_of(&current);
        lines.push(line);
        assert(lines.deep_view() =~= before.push(line@));
    }
    lines
}

/// The lines joined again, with a line feed between one and the next.
pub open spec fn joined(lines: Seq<Seq<char>>) -> Seq<char>
    decreases lines.len(),
{
    if lines.len() == 0 {
        Seq::empty()
    } else if lines.len() == 1 {
        lines[0]
    } else {
        joined(lines.drop_last()) + seq!['\n'] + lines.last()
    }
}

/// The lines from index `from` on, joined with a line feed between one
/// and the next.
pub fn join_lines(lines: &Vec<String>, from: usize) -> (text: String)
    requires
        from <= lines.len(),
    ensures
        text@ == joined(lines.deep_view().skip(from as int)),
{
    let ghost all = lines.deep_view().skip(from as int);
    let mut out: Vec<char> = Vec::new();
    let mut i: usize = from;
    assert(all.take(0) =~= Seq::empty());
    while i < lines.len()
        invariant
            from <= i <= lines.len(),
            all == lines.deep_view().skip(from as int),
            out@ == joined(all.take(i - from)),
        decreases lines.len() - i,
    {
        assert(all.take(i - from + 1).drop_last() =~= all.take(i - from));
        assert(all.take(i - from + 1).last() == lines@[i as int]@);
        if i > from {
            out.push('\n');
        }
        push_str(&mut out, lines[i].as_str());
        assert(out@ =~= joined(all.take(i - from + 1)));
        i += 1;
    }
    assert(all.take(lines.len() - from) =~= all);
    string_of(&out)
}

/// The value of the decimal digit `c`; ten or more for any other
/// character.
pub open spec fn digit_value(c: char) -> int {
    if '0' <= c && c <= '9' {
        c as int - '0' as int
    } else {
        10
    }
}

/// The number that the digits of `s` write, where `s` is made of decimal
/// digits only; nought for no digits.
pub open spec fn digits_value(s: Seq<char>) -> int
    decreases s.len(),
{
    if s.len() == 0 {
        0
    } else {
        digits_value(s.drop_last()) * 10 + digit_value(s.last())
    }
}

/// Whether `s` is made of decimal digits.
pub open spec fn all_digits(s: Seq<char>) -> bool {
    forall|i: int| 0 <= i < s.len() ==> digit_value(#[trigger] s[i]) < 10
}

/// The whole number that `s` writes: `s` is made of one decimal digit or
/// more and the number fits `i64`.
pub open spec fn whole_value(s: Seq<char>) -> Option<int> {
    if s.len() > 0 && all_digits(s) && digits_value(s) <= i64::MAX {
        Some(digits_value(s))
    } else {
        None
    }
}

proof fn lemma_digits_value_grows(s: Seq<char>)
    requires
        all_digits(s),
        s.len() > 0,
    ensures
        digits_value(s) >= digits_value(s.drop_last()),
        digits_value(s) >= 0,
        digits_value(s.drop_last()) >= 0,
    decreases s.len(),
{
    if s.len() > 1 {
        lemma_digits_value_grows(s.drop_last());
    }
    assert(digit_value(s.last()) < 10);
}

proof fn lemma_digits_value_monotone(s: Seq<char>, k: int)
    requires
        all_digits(s),
        0 <= k <= s.len(),
    ensures
        0 <= digits_value(s.take(k)) <= digits_value(s),
    decreases s.len() - k,
{
    if k < s.len() {
        lemma_digits_value_monotone(s, k + 1);
        assert(s.take(k + 1).drop_last() =~= s.take(k));
        assert(all_digits(s.take(k + 1))) by {
            assert forall|i: int| 0 <= i < k + 1 implies digit_value(#[trigger] s.take(k + 1)[i]) < 10 by {
                assert(s.take(k + 1)[i] == s[i]);
            }
        }
        lemma_digits_value_grows(s.take(k + 1));
    } else {
        assert(s.take(k) =~= s);
        if s.len() > 0 {
            lemma_digits_value_grows(s);
        }
    }
}

fn digit_at(c: char) -> (d: u8)
    ensures
        d == if digit_value(c) < 10 {
            digit_value(c)
        } else {
            10
        },
{
    if '0' <= c && c <= '9' {
        (c as u32 - '0' as u32) as u8
    } else {
        10
    }
}

/// The whole number that the text writes, if it writes one.
pub fn parse_whole(text: &str) -> (r: Option<i64>)
    ensures
        match r {
            Some(v) => whole_value(text@) == Some(v as int),
            None => whole_value(text@) is None,
        },
{
    let v = chars_of(text);
    if v.len() == 0 {
        return None;
    }
    let mut value: i64 = 0;
    let mut i: usize = 0;
    assert(v@.take(0) =~= Seq::empty());
    while i < v.len()
        invariant
            i <= v.len(),
            v@ == text@,
            all_digits(v@.take(i as int)),
            value == digits_value(v@.take(i as int)),
            0 <= value,
        decreases v.len() - i,
    {
        let d = digit_at(v[i]);
        assert(v@.take(i + 1).drop_last() =~= v@.take(i as int));
        if d >= 10 {
            assert(!all_digits(v@)) by {
                assert(digit_value(v@[i as int]) >= 10);
            }
            return None;
        }
        assert(all_digits(v@.take(i + 1))) by {
            assert forall|j: int| 0 <= j < i + 1 implies digit_value(#[trigger] v@.take(i + 1)[j]) < 10 by {
                if j < i {
                    assert(v@.take(i as int)[j] == v@.take(i + 1)[j]);
                }
            }
        }
        if value > (i64::MAX - d as i64) / 10 {
            proof {
                // the digits so far are worth too much already
                if all_digits(v@) {
                    lemma_digits_value_monotone(v@, i + 1);
                }
            }
            return None;
        }
        value = value * 10 + d as i64;
        i += 1;
    }
    assert(v@.take(v.len() as int) =~= v@);
    Some(value)
}

/// The index of the first full stop of `s`, or the length of `s` where
/// there is none.
pub open spec fn point_index(s: Seq<char>) -> int
    decreases s.len(),
{
    if s.len() == 0 {
        0
    } else if s[0] == '.' {
        0
    } else {
        1 + point_index(s.drop_first())
    }
}

/// The first six digits of `s` read as millionths, zeros standing in for
/// the digits that `s` lacks.
pub open spec fn millionths(s: Seq<char>) -> int {
    digits_value(s.take(if s.len() < 6 { s.len() as int } else { 6 })) * pow10(
        if s.len() < 6 {
            (6 - s.len()) as nat
        } else {
            0
        },
    )
}

/// The decimal number that `s` writes, in millionths: digits, of which a
/// full stop may part some, with one digit at least; what stands behind
/// the sixth digit after the full stop is dropped. None where `s` is not
/// of that form or the number does not fit `i64`.
pub open spec fn decimal_value(s: Seq<char>) -> Option<int> {
    let at = point_index(s);
    let whole = s.take(at);
    let part = if at < s.len() {
        s.skip(at + 1)
    } else {
        Seq::empty()
    };
    if whole.len() + part.len() > 0 && all_digits(whole) && all_digits(part) && digits_value(whole)
        * 1_000_000 + millionths(part) <= i64::MAX {
        Some(digits_value(whole) * 1_000_000 + millionths(part))
    } else {
        None
    }
}

/// Whether the characters of `v` from `from` up to `to` are decimal
/// digits.
fn digits_only(v: &Vec<char>, from: usize, to: usize) -> (b: bool)
    requires
        from <= to <= v.len(),
    ensures
        b == all_digits(v@.subrange(from as int, to as int)),
{
    let mut i: usize = from;
    while i < to
        invariant
            from <= i <= to <= v.len(),
            forall|j: int| from <= j < i ==> digit_value(#[trigger] v@[j]) < 10,
        decreases to - i,
    {
        if digit_at(v[i]) >= 10 {
            assert(v@.subrange(from as int, to as int)[i - from] == v@[i as int]);
            return false;
        }
        i += 1;
    }
    assert forall|j: int| 0 <= j < to - from implies digit_value(
        #[trigger] v@.subrange(from as int, to as int)[j],
    ) < 10 by {
        assert(v@.subrange(from as int, to as int)[j] == v@[from + j]);
    }
    true
}

/// The number that the digits of `v` from `from` up to `to` write, kept
/// at `cap` where it is more.
fn digits_capped(v: &Vec<char>, from: usize, to: usize, cap: u64) -> (n: u64)
    requires
        from <= to <= v.len(),
        all_digits(v@.subrange(from as int, to as int)),
        cap <= 1_000_000_000_000_000_000,
    ensures
        n == if digits_value(v@.subrange(from as int, to as int)) > cap {
            cap as int
        } else {
            digits_value(v@.subrange(from as int, to as int))
        },
{
    let ghost s = v@.subrange(from as int, to as int);
    let mut n: u64 = 0;
    let mut i: usize = from;
    assert(s.take(0) =~= Seq::empty());
    while i < to
        invariant
            from <= i <= to <= v.len(),
            s == v@.subrange(from as int, to as int),
            all_digits(s),
            cap <= 1_000_000_000_000_000_000,
            n <= cap,
            n == digits_value(s.take(i - from)),
        decreases to - i,
    {
        let d = digit_at(v[i]) as u64;
        assert(s.take(i - from + 1).drop_last() =~= s.take(i - from));
        assert(s.take(i - from + 1).last() == v@[i as int]);
        assert(digit_value(s[i - from]) < 10);
        if n * 10 + d > cap {
            proof {
                lemma_digits_value_monotone(s, i - from + 1);
            }
            return cap;
        }
        n = n * 10 + d;
        i += 1;
    }
    assert(s.take(to - from) =~= s);
    n
}

fn first_point(v: &Vec<char>) -> (at: usize)
    ensures
        at == point_index(v@),
        at <= v.len(),
{
    let mut i: usize = 0;
    assert(v@.skip(0) =~= v@);
    while i < v.len() && v[i] != '.'
        invariant
            i <= v.len(),
            point_index(v@) == i + point_index(v@.skip(i as int)),
        decreases v.len() - i,
    {
        assert(v@.skip(i as int).drop_first() =~= v@.skip(i + 1));
        assert(v@.skip(i as int)[0] == v@[i as int]);
        i += 1;
    }
    if i < v.len() {
        assert(v@.skip(i as int)[0] == v@[i as int]);
    }
    i
}

/// The decimal number that the text writes, in millionths, if it writes
/// one.
pub fn parse_decimal(text: &str) -> (r: Option<i64>)
    ensures
        match r {
            Some(v) => decimal_value(text@) == Some(v as int),
            None => decimal_value(text@) is None,
        },
{
    let v = chars_of(text);
    let at = first_point(&v);
    let part_from: usize = if at < v.len() {
        at + 1
    } else {
        at
    };
    let ghost whole = v@.take(at as int);
    let ghost part = if at < v@.len() {
        v@.skip(at + 1)
    } else {
        Seq::<char>::empty()
    };
    assert(whole =~= v@.subrange(0, at as int));
    assert(part =~= v@.subrange(part_from as int, v@.len() as int));
    if at + (v.len() - part_from) == 0 {
        return None;
    }
    if !digits_only(&v, 0, at) || !digits_only(&v, part_from, v.len()) {
        return None;
    }
    let shown: usize = if v.len() - part_from < 6 {
        v.len() - part_from
    } else {
        6
    };
    proof {
        assert(part.take(shown as int) =~= v@.subrange(part_from as int, part_from + shown));
        assert(all_digits(part.take(shown as int))) by {
            assert forall|j: int| 0 <= j < shown implies digit_value(#[trigger] part.take(shown as int)[j])
                < 10 by {
                assert(part.take(shown as int)[j] == part[j]);
            }
        }
        lemma_six_digits(part.take(shown as int));
    }
    let head = digits_capped(&v, part_from, part_from + shown, 999_999);
    let scale: u64 = if shown == 0 {
        1_000_000
    } else if shown == 1 {
        100_000
    } else if shown == 2 {
        10_000
    } else if shown == 3 {
        1_000
    } else if shown == 4 {
        100
    } else if shown == 5 {
        10
    } else {
        1
    };
    assert(scale == pow10((6 - shown) as nat)) by {
        reveal_with_fuel(pow10, 8);
    }
    let small: u64 = head * scale;
    assert(small == millionths(part));
    assert(small <= 999_999_000_000);
    let big = digits_capped(&v, 0, at, 10_000_000_000_000);
    if big >= 10_000_000_000_000 {
        return None;
    }
    let total: u64 = big * 1_000_000 + small;
    if total > i64::MAX as u64 {
        return None;
    }
    Some(total as i64)
}

proof fn lemma_six_digits(s: Seq<char>)
    requires
        all_digits(s),
        s.len() <= 6,
    ensures
        0 <= digits_value(s) <= 999_999,
        digits_value(s) * pow10((6 - s.len()) as nat) <= 999_999_000_000,
{
    reveal_with_fuel(digits_value, 8);
    reveal_with_fuel(pow10, 8);
    if s.len() >= 1 {
        assert(digit_value(s[s.len() - 1]) < 10);
        assert(s.drop_last().len() == s.len() - 1);
    }
    lemma_digits_bound(s);
    let n = digits_value(s);
    let p = pow10((6 - s.len()) as nat);
    assert(n * p <= 999_999_000_000) by (nonlinear_arith)
        requires
            0 <= n <= 999_999,
            0 <= p <= 1_000_000,
    ;
}

proof fn lemma_digits_bound(s: Seq<char>)
    requires
        all_digits(s),
        s.len() <= 6,
    ensures
        0 <= digits_value(s) < pow10(s.len()),
    decreases s.len(),
{
    reveal_with_fuel(pow10, 8);
    if s.len() > 0 {
        assert(all_digits(s.drop_last())) by {
            assert forall|i: int| 0 <= i < s.len() - 1 implies digit_value(#[trigger] s.drop_last()[i]) < 10 by {
                assert(s.drop_last()[i] == s[i]);
            }
        }
        lemma_digits_bound(s.drop_last());
        assert(digit_value(s.last()) < 10);
        assert(0 <= digit_value(s.last())) by {
            let c = s.last();
            assert('0' <= c && c <= '9');
        }
    }
}

/// The text of an optional string.
pub open spec fn opt_text(s: Option<String>) -> Option<Seq<char>> {
    match s {
        Some(text) => Some(text@),
        None => None,
    }
}

/// The texts of an optional list of strings.
pub open spec fn opt_texts(list: Option<Vec<String>>) -> Option<Seq<Seq<char>>> {
    match list {
        Some(items) => Some(items.deep_view()),
        None => None,
    }
}

/// A copy of the optional string.
pub fn clone_opt(s: &Option<String>) -> (out: Option<String>)
    ensures
        opt_text(out) == opt_text(*s),
{
    match s {
        Some(text) => Some(text.clone()),
        None => None,
    }
}

/// A copy of the optional list of strings.
pub fn clone_opt_strings(list: &Option<Vec<String>>) -> (out: Option<Vec<String>>)
    ensures
        opt_texts(out) == opt_texts(*list),
{
    match list {
        Some(items) => Some(clone_strings(items)),
        None => None,
    }
}

/// Whether `a` comes before `b`, or is `b`, in the order of a dictionary
/// whose letters are ordered by their code points. This is the order of
/// strings.
pub open spec fn lex_le(a: Seq<char>, b: Seq<char>) -> bool
    decreases a.len(),
{
    if a.len() == 0 {
        true
    } else if b.len() == 0 {
        false
    } else if a[0] != b[0] {
        a[0] < b[0]
    } else {
        lex_le(a.drop_first(), b.drop_first())
    }
}

/// Of two texts one comes before the other, or they are the same.
pub proof fn lemma_lex_total(a: Seq<char>, b: Seq<char>)
    ensures
        lex_le(a, b) || lex_le(b, a),
    decreases a.len(),
{
    if a.len() > 0 && b.len() > 0 && a[0] == b[0] {
        lemma_lex_total(a.drop_first(), b.drop_first());
    }
}

/// What comes before a text comes before every text that the text comes
/// before.
pub proof fn lemma_lex_transitive(a: Seq<char>, b: Seq<char>, c: Seq<char>)
    requires
        lex_le(a, b),
        lex_le(b, c),
    ensures
        lex_le(a, c),
    decreases a.len(),
{
    if a.len() > 0 && b.len() > 0 && c.len() > 0 {
        if a[0] == b[0] && b[0] == c[0] {
            lemma_lex_transitive(a.drop_first(), b.drop_first(), c.drop_first());
        }
    }
}

/// Whether each text of `s` comes before those behind it, or is the same.
pub open spec fn lex_sorted(s: Seq<Seq<char>>) -> bool {
    forall|i: int, j: int| 0 <= i < j < s.len() ==> lex_le(#[trigger] s[i], #[trigger] s[j])
}

/// Whether `a` comes before `b` or is `b`.
pub fn str_le(a: &str, b: &str) -> (r: bool)
    ensures
        r == lex_le(a@, b@),
{
    let x = chars_of(a);
    let y = chars_of(b);
    let mut i: usize = 0;
    assert(x@.skip(0) =~= x@);
    assert(y@.skip(0) =~= y@);
    while i < x.len() && i < y.len()
        invariant
            x@ == a@,
            y@ == b@,
            i <= x.len(),
            i <= y.len(),
            lex_le(x@, y@) == lex_le(x@.skip(i as int), y@.skip(i as int)),
        decreases x.len() - i,
    {
        assert(x@.skip(i as int)[0] == x@[i as int]);
        assert(y@.skip(i as int)[0] == y@[i as int]);
        if x[i] != y[i] {
            return x[i] < y[i];
        }
        assert(x@.skip(i as int).drop_first() =~= x@.skip(i + 1));
        assert(y@.skip(i as int).drop_first() =~= y@.skip(i + 1));
        i += 1;
    }
    i == x.len()
}

/// The strings in the order of strings. Nothing is added or lost.
pub fn sorted_strings(items: &Vec<String>) -> (out: Vec<String>)
    ensures
        lex_sorted(out.deep_view()),
        out.deep_view().to_multiset() == items.deep_view().to_multiset(),
        out@.len() == items@.len(),
{
    let ghost all = items.deep_view();
    let mut out: Vec<String> = Vec::new();
    let mut i: usize = 0;
    assert(all.take(0) =~= Seq::empty());
    assert(out.deep_view() =~= Seq::<Seq<char>>::empty());
    while i < items.len()
        invariant
            i <= items.len(),
            all == items.deep_view(),
            out@.len() == i,
            lex_sorted(out.deep_view()),
            out.deep_view().to_multiset() == all.take(i as int).to_multiset(),
        decreases items.len() - i,
    {
        let item = &items[i];
        let ghost before = out.deep_view();
        let mut at: usize = 0;
        while at < out.len() && str_le(out[at].as_str(), item.as_str())
            invariant
                at <= out@.len(),
                before == out.deep_view(),
                forall|j: int| 0 <= j < at ==> lex_le(#[trigger] before[j], item@),
            decreases out@.len() - at,
        {
            assert(before[at as int] == out@[at as int]@);
            at += 1;
        }
        proof {
            if at < out@.len() {
                assert(before[at as int] == out@[at as int]@);
                lemma_lex_total(before[at as int], item@);
            }
        }
        out.insert(at, item.clone());
        proof {
            let after = out.deep_view();
            assert(after =~= before.insert(at as int, item@));
            assert forall|a: int, b: int| 0 <= a < b < after.len() implies lex_le(
                #[trigger] after[a],
                #[trigger] after[b],
            ) by {
                if b < at {
                    assert(lex_le(before[a], before[b]));
                } else if b == at {
                    assert(lex_le(before[a], item@));
                } else if a < at {
                    assert(lex_le(before[a], before[b - 1]));
                } else if a == at {
                    if b - 1 > at {
                        assert(lex_le(before[at as int], before[b - 1]));
                        lemma_lex_transitive(item@, before[at as int], before[b - 1]);
                    }
                } else {
                    assert(lex_le(before[a - 1], before[b - 1]));
                }
            }
            assert(all.take(i + 1) =~= all.take(i as int).push(all[i as int]));
            vstd::seq_lib::to_multiset_build(all.take(i as int), all[i as int]);
            vstd::seq_lib::to_multiset_insert(before, at as int, item@);
        }
        i += 1;
    }
    assert(all.take(items.len() as int) =~= all);
    out
}

} // verus!
