//! Byte-level reading of the small text formats this crate understands:
//! words separated by blanks, lines, and numbers in decimal or hexadecimal.
//!
//! All functions work on bytes. Text that is handed over as `&str` is read
//! through its UTF-8 bytes; trimming knows the blank characters of Unicode
//! by their UTF-8 bytes.

use vstd::prelude::*;
use vstd::slice::{slice_subrange, slice_to_vec};

verus! {

/// Whether `b` is an ASCII blank: space, tab, line feed, form feed or
/// carriage return.
pub open spec fn is_blank(b: u8) -> bool {
    b == 0x20 || b == 0x09 || b == 0x0a || b == 0x0c || b == 0x0d
}

/// Executable form of [`is_blank`].
pub fn blank(b: u8) -> (r: bool)
    ensures
        r == is_blank(b),
{
    b == 0x20 || b == 0x09 || b == 0x0a || b == 0x0c || b == 0x0d
}

/// A copy of `bytes[from..to]`.
pub fn copy_range(bytes: &[u8], from: usize, to: usize) -> (v: Vec<u8>)
    requires
        from <= to <= bytes@.len(),
    ensures
        v@ == bytes@.subrange(from as int, to as int),
{
    slice_to_vec(slice_subrange(bytes, from, to))
}

/// Whether two byte strings are equal.
pub fn bytes_eq(a: &[u8], b: &[u8]) -> (r: bool)
    ensures
        r == (a@ == b@),
{
    if a.len() != b.len() {
        return false;
    }
    let mut i: usize = 0;
    while i < a.len()
        invariant
            i <= a.len(),
            a@.len() == b@.len(),
            a@.subrange(0, i as int) == b@.subrange(0, i as int),
        decreases a.len() - i,
    {
        if a[i] != b[i] {
            assert(a@[i as int] != b@[i as int]);
            return false;
        }
        assert(a@.subrange(0, i as int + 1) =~= a@.subrange(0, i as int).push(a@[i as int]));
        assert(b@.subrange(0, i as int + 1) =~= b@.subrange(0, i as int).push(b@[i as int]));
        i += 1;
    }
    assert(a@.subrange(0, i as int) =~= a@);
    assert(b@.subrange(0, i as int) =~= b@);
    true
}

/// Whether `bytes` begins with `prefix`.
pub open spec fn has_prefix(bytes: Seq<u8>, prefix: Seq<u8>) -> bool {
    prefix.len() <= bytes.len() && bytes.subrange(0, prefix.len() as int) == prefix
}

/// Executable form of [`has_prefix`].
pub fn starts_with(bytes: &[u8], prefix: &[u8]) -> (r: bool)
    ensures
        r == has_prefix(bytes@, prefix@),
{
    if prefix.len() > bytes.len() {
        return false;
    }
    bytes_eq(slice_subrange(bytes, 0, prefix.len()), prefix)
}

/// Whether `needle` occurs in `bytes` at position `at`.
pub open spec fn occurs_at(bytes: Seq<u8>, needle: Seq<u8>, at: int) -> bool {
    0 <= at && at + needle.len() <= bytes.len() && bytes.subrange(at, at + needle.len()) == needle
}

/// Whether `needle` occurs somewhere in `bytes`.
pub open spec fn has_infix(bytes: Seq<u8>, needle: Seq<u8>) -> bool {
    exists|at: int| occurs_at(bytes, needle, at)
}

/// The first position at or after `from` where `needle` occurs in `bytes`,
/// or the length of `bytes` if there is none. `needle` must not be empty.
pub fn find_from(bytes: &[u8], needle: &[u8], from: usize) -> (at: usize)
    requires
        needle@.len() > 0,
        from <= bytes@.len(),
    ensures
        from <= at <= bytes@.len(),
        at < bytes@.len() ==> occurs_at(bytes@, needle@, at as int),
        forall|k: int| from <= k < at ==> !occurs_at(bytes@, needle@, k),
{
    let mut i: usize = from;
    while i < bytes.len()
        invariant
            from <= i <= bytes.len(),
            needle@.len() > 0,
            forall|k: int| from <= k < i ==> !occurs_at(bytes@, needle@, k),
        decreases bytes.len() - i,
    {
        if needle.len() <= bytes.len() - i {
            if bytes_eq(slice_subrange(bytes, i, i + needle.len()), needle) {
                return i;
            }
        }
        i += 1;
    }
    i
}

/// Executable form of [`has_infix`] for a needle that is not empty.
pub fn contains(bytes: &[u8], needle: &[u8]) -> (r: bool)
    requires
        needle@.len() > 0,
    ensures
        r == has_infix(bytes@, needle@),
{
    let at: usize = find_from(bytes, needle, 0);
    if at < bytes.len() {
        true
    } else {
        assert forall|k: int| !occurs_at(bytes@, needle@, k) by {
            if 0 <= k < bytes@.len() {
            }
        }
        false
    }
}

/// Whether `b` is a blank character of one byte: an ASCII blank or a
/// vertical tab.
pub open spec fn is_space(b: u8) -> bool {
    is_blank(b) || b == 0x0b
}

/// Whether the bytes `a`, `b` spell a blank character of two bytes: the
/// next-line control or the no-break space.
pub open spec fn is_space_pair(a: u8, b: u8) -> bool {
    a == 0xc2 && (b == 0x85 || b == 0xa0)
}

/// Whether the bytes `a`, `b`, `c` spell a blank character of three bytes:
/// the ogham space mark, one of the spaces of fixed width, the line or the
/// paragraph separator, the narrow no-break space, the medium mathematical
/// space, or the ideographic space.
pub open spec fn is_space_triple(a: u8, b: u8, c: u8) -> bool {
    ||| a == 0xe1 && b == 0x9a && c == 0x80
    ||| a == 0xe2 && b == 0x80 && (0x80 <= c <= 0x8a || c == 0xa8 || c == 0xa9 || c == 0xaf)
    ||| a == 0xe2 && b == 0x81 && c == 0x9f
    ||| a == 0xe3 && b == 0x80 && c == 0x80
}

/// The number of bytes of the blank character that `s` begins with, or 0 if
/// it begins with none. In UTF-8 text the blank characters are those that
/// Unicode gives the property `White_Space`.
pub open spec fn space_at_start(s: Seq<u8>) -> int {
    if s.len() >= 1 && is_space(s[0]) {
        1
    } else if s.len() >= 2 && is_space_pair(s[0], s[1]) {
        2
    } else if s.len() >= 3 && is_space_triple(s[0], s[1], s[2]) {
        3
    } else {
        0
    }
}

/// The number of bytes of the blank character that `s` ends with, or 0 if
/// it ends with none.
pub open spec fn space_at_end(s: Seq<u8>) -> int {
    let n = s.len() as int;
    if n >= 1 && is_space(s[n - 1]) {
        1
    } else if n >= 2 && is_space_pair(s[n - 2], s[n - 1]) {
        2
    } else if n >= 3 && is_space_triple(s[n - 3], s[n - 2], s[n - 1]) {
        3
    } else {
        0
    }
}

/// `s` without the blank characters at its start.
pub open spec fn trim_start(s: Seq<u8>) -> Seq<u8>
    decreases s.len(),
{
    if space_at_start(s) > 0 {
        trim_start(s.skip(space_at_start(s)))
    } else {
        s
    }
}

/// `s` without the blank characters at its end.
pub open spec fn trim_end(s: Seq<u8>) -> Seq<u8>
    decreases s.len(),
{
    if space_at_end(s) > 0 {
        trim_end(s.take(s.len() - space_at_end(s)))
    } else {
        s
    }
}

/// `s` without the blank characters at either end.
pub open spec fn trimmed(s: Seq<u8>) -> Seq<u8> {
    trim_end(trim_start(s))
}

/// Executable form of [`is_space`].
fn space(b: u8) -> (r: bool)
    ensures
        r == is_space(b),
{
    blank(b) || b == 0x0b
}

/// Executable form of [`is_space_pair`].
fn space_pair(a: u8, b: u8) -> (r: bool)
    ensures
        r == is_space_pair(a, b),
{
    a == 0xc2 && (b == 0x85 || b == 0xa0)
}

/// Executable form of [`is_space_triple`].
fn space_triple(a: u8, b: u8, c: u8) -> (r: bool)
    ensures
        r == is_space_triple(a, b, c),
{
    (a == 0xe1 && b == 0x9a && c == 0x80) || (a == 0xe2 && b == 0x80 && ((0x80 <= c && c <= 0x8a)
        || c == 0xa8 || c == 0xa9 || c == 0xaf)) || (a == 0xe2 && b == 0x81 && c == 0x9f) || (a
        == 0xe3 && b == 0x80 && c == 0x80)
}

/// The number of bytes of the blank character that `bytes[from..to]` begins
/// with, or 0.
fn leading_space(bytes: &[u8], from: usize, to: usize) -> (n: usize)
    requires
        from <= to <= bytes@.len(),
    ensures
        n == space_at_start(bytes@.subrange(from as int, to as int)),
        n <= to - from,
{
    let len: usize = to - from;
    if len >= 1 && space(bytes[from]) {
        1
    } else if len >= 2 && space_pair(bytes[from], bytes[from + 1]) {
        2
    } else if len >= 3 && space_triple(bytes[from], bytes[from + 1], bytes[from + 2]) {
        3
    } else {
        0
    }
}

/// The number of bytes of the blank character that `bytes[from..to]` ends
/// with, or 0.
fn trailing_space(bytes: &[u8], from: usize, to: usize) -> (n: usize)
    requires
        from <= to <= bytes@.len(),
    ensures
        n == space_at_end(bytes@.subrange(from as int, to as int)),
        n <= to - from,
{
    let len: usize = to - from;
    if len >= 1 && space(bytes[to - 1]) {
        1
    } else if len >= 2 && space_pair(bytes[to - 2], bytes[to - 1]) {
        2
    } else if len >= 3 && space_triple(bytes[to - 3], bytes[to - 2], bytes[to - 1]) {
        3
    } else {
        0
    }
}

/// `bytes` without the blank characters at either end.
pub fn trim(bytes: &[u8]) -> (r: &[u8])
    ensures
        r@ == trimmed(bytes@),
{
    let end: usize = bytes.len();
    let mut from: usize = 0;
    assert(bytes@.subrange(0, end as int) =~= bytes@);
    loop
        invariant
            from <= end == bytes.len(),
            trim_start(bytes@) == trim_start(bytes@.subrange(from as int, end as int)),
        ensures
            trim_start(bytes@) == bytes@.subrange(from as int, end as int),
        decreases end - from,
    {
        let n: usize = leading_space(bytes, from, end);
        if n == 0 {
            break;
        }
        assert(bytes@.subrange(from as int, end as int).skip(n as int) =~= bytes@.subrange(
            from as int + n,
            end as int,
        ));
        from += n;
    }
    let mut to: usize = end;
    loop
        invariant
            from <= to <= bytes.len(),
            trimmed(bytes@) == trim_end(bytes@.subrange(from as int, to as int)),
        ensures
            trimmed(bytes@) == bytes@.subrange(from as int, to as int),
        decreases to,
    {
        let n: usize = trailing_space(bytes, from, to);
        if n == 0 {
            break;
        }
        assert(bytes@.subrange(from as int, to as int).take(to - from - n) =~= bytes@.subrange(
            from as int,
            to as int - n,
        ));
        to -= n;
    }
    slice_subrange(bytes, from, to)
}

/// The position of the first `b` in `s`, or the length of `s` if it holds
/// none.
pub open spec fn index_of(s: Seq<u8>, b: u8) -> int
    decreases s.len(),
{
    if s.len() == 0 || s[0] == b {
        0
    } else {
        1 + index_of(s.skip(1), b)
    }
}

/// The first `b` of `s` stands within `s`, and no `b` stands before it.
pub proof fn index_of_facts(s: Seq<u8>, b: u8)
    ensures
        0 <= index_of(s, b) <= s.len(),
        index_of(s, b) < s.len() ==> s[index_of(s, b)] == b,
        forall|k: int| 0 <= k < index_of(s, b) ==> s[k] != b,
    decreases s.len(),
{
    if s.len() > 0 && s[0] != b {
        index_of_facts(s.skip(1), b);
        assert forall|k: int| 0 <= k < index_of(s, b) implies s[k] != b by {
            if k > 0 {
                assert(s.skip(1)[k - 1] == s[k]);
            }
        }
    }
}

/// Executable form of [`index_of`].
pub fn position_of(bytes: &[u8], b: u8) -> (at: usize)
    ensures
        at == index_of(bytes@, b),
        at <= bytes@.len(),
{
    let mut i: usize = 0;
    assert(bytes@.skip(0) =~= bytes@);
    while i < bytes.len()
        invariant
            i <= bytes.len(),
            index_of(bytes@, b) == i + index_of(bytes@.skip(i as int), b),
        decreases bytes.len() - i,
    {
        if bytes[i] == b {
            return i;
        }
        assert(bytes@.skip(i as int).skip(1) =~= bytes@.skip(i as int + 1));
        i += 1;
    }
    i
}

/// `s` without every copy of `prefix` that it begins with.
pub open spec fn without_prefixes(s: Seq<u8>, prefix: Seq<u8>) -> Seq<u8>
    decreases s.len(),
{
    if prefix.len() > 0 && has_prefix(s, prefix) {
        without_prefixes(s.skip(prefix.len() as int), prefix)
    } else {
        s
    }
}

/// Executable form of [`without_prefixes`].
pub fn strip_prefixes<'a>(bytes: &'a [u8], prefix: &[u8]) -> (r: &'a [u8])
    ensures
        r@ == without_prefixes(bytes@, prefix@),
{
    if prefix.len() == 0 {
        return bytes;
    }
    let mut from: usize = 0;
    assert(bytes@.skip(0) =~= bytes@);
    loop
        invariant
            prefix@.len() > 0,
            from <= bytes.len(),
            without_prefixes(bytes@, prefix@) == without_prefixes(bytes@.skip(from as int), prefix@),
        decreases bytes.len() - from,
    {
        let rest = slice_subrange(bytes, from, bytes.len());
        assert(rest@ =~= bytes@.skip(from as int));
        if !starts_with(rest, prefix) {
            return rest;
        }
        assert(bytes@.skip(from as int).skip(prefix@.len() as int) =~= bytes@.skip(
            from as int + prefix@.len(),
        ));
        from += prefix.len();
    }
}

/// The first line of `s`: what stands before the first line feed, without
/// a carriage return that directly precedes that line feed.
pub open spec fn first_line(s: Seq<u8>) -> Seq<u8> {
    let n = index_of(s, 0x0a);
    let raw = s.take(n);
    if n < s.len() && n > 0 && raw.last() == 0x0d {
        raw.drop_last()
    } else {
        raw
    }
}

/// What follows the first line of `s`: what stands behind the first line
/// feed, or nothing if there is no line feed.
pub open spec fn after_first_line(s: Seq<u8>) -> Seq<u8> {
    let n = index_of(s, 0x0a);
    if n < s.len() {
        s.skip(n + 1)
    } else {
        Seq::<u8>::empty()
    }
}

/// Splits `bytes` into its first line and what follows it.
pub fn split_line(bytes: &[u8]) -> (r: (&[u8], &[u8]))
    ensures
        r.0@ == first_line(bytes@),
        r.1@ == after_first_line(bytes@),
        bytes@.len() > 0 ==> r.1@.len() < bytes@.len(),
{
    let n: usize = position_of(bytes, 0x0a);
    let stop: usize = if n < bytes.len() && n > 0 && bytes[n - 1] == 0x0d {
        n - 1
    } else {
        n
    };
    let line = slice_subrange(bytes, 0, stop);
    if n > 0 {
        assert(bytes@.take(n as int).drop_last() =~= bytes@.subrange(0, n as int - 1));
    }
    assert(bytes@.take(n as int) =~= bytes@.subrange(0, n as int));
    if n < bytes.len() {
        let rest = slice_subrange(bytes, n + 1, bytes.len());
        assert(rest@ =~= bytes@.skip(n as int + 1));
        (line, rest)
    } else {
        let rest = slice_subrange(bytes, n, n);
        assert(rest@ =~= Seq::<u8>::empty());
        (line, rest)
    }
}

/// The words of `bytes` that begin at or after `i`, where `start` is the
/// position at which the word around `i` began, or -1 between words.
pub open spec fn words_from(bytes: Seq<u8>, i: int, start: int) -> Seq<Seq<u8>>
    decreases bytes.len() - i,
{
    if i >= bytes.len() {
        if start >= 0 {
            seq![bytes.subrange(start, bytes.len() as int)]
        } else {
            Seq::<Seq<u8>>::empty()
        }
    } else if is_blank(bytes[i]) {
        let done = if start >= 0 {
            seq![bytes.subrange(start, i)]
        } else {
            Seq::<Seq<u8>>::empty()
        };
        done + words_from(bytes, i + 1, -1)
    } else {
        words_from(
            bytes,
            i + 1,
            if start >= 0 {
                start
            } else {
                i
            },
        )
    }
}

/// The maximal runs of bytes of `bytes` that are not blank, in order.
pub open spec fn words(bytes: Seq<u8>) -> Seq<Seq<u8>> {
    words_from(bytes, 0, -1)
}

/// The view of a list of byte strings.
pub open spec fn views(list: Seq<Vec<u8>>) -> Seq<Seq<u8>> {
    list.map_values(|v: Vec<u8>| v@)
}

/// Splits `bytes` into its blank-separated words.
pub fn split_words(bytes: &[u8]) -> (out: Vec<Vec<u8>>)
    ensures
        views(out@) == words(bytes@),
{
    let mut out: Vec<Vec<u8>> = Vec::new();
    let mut i: usize = 0;
    let mut start: Option<usize> = None;
    assert(views(out@) =~= Seq::<Seq<u8>>::empty());
    while i < bytes.len()
        invariant
            i <= bytes.len(),
            start matches Some(s) ==> s < i,
            views(out@) + words_from(
                bytes@,
                i as int,
                match start {
                    Some(s) => s as int,
                    None => -1,
                },
            ) == words(bytes@),
        decreases bytes.len() - i,
    {
        if blank(bytes[i]) {
            if let Some(s) = start {
                let word = copy_range(bytes, s, i);
                let ghost before = views(out@);
                out.push(word);
                assert(views(out@) =~= before + seq![bytes@.subrange(s as int, i as int)]);
                assert(views(out@) + words_from(bytes@, i as int + 1, -1) =~= before + (seq![
                    bytes@.subrange(s as int, i as int),
                ] + words_from(bytes@, i as int + 1, -1)));
            }
            start = None;
        } else {
            if start.is_none() {
                start = Some(i);
            }
        }
        i += 1;
    }
    if let Some(s) = start {
        let word = copy_range(bytes, s, i);
        let ghost before = views(out@);
        out.push(word);
        assert(views(out@) =~= before + seq![bytes@.subrange(s as int, i as int)]);
    } else {
        assert(views(out@) + Seq::<Seq<u8>>::empty() =~= views(out@));
    }
    out
}

/// The value of `b` as a digit, if it is one: `0`-`9`, `a`-`z` or `A`-`Z`
/// standing for 0 to 35.
pub open spec fn digit_of(b: u8) -> Option<nat> {
    if 0x30 <= b <= 0x39 {
        Some((b - 0x30) as nat)
    } else if 0x61 <= b <= 0x7a {
        Some((b - 0x61 + 10) as nat)
    } else if 0x41 <= b <= 0x5a {
        Some((b - 0x41 + 10) as nat)
    } else {
        None
    }
}

/// The number that `digits` spell in base `radix`, most significant digit
/// first, or `None` if a byte is not a digit of that base. No digits spell 0.
pub open spec fn digits_value(digits: Seq<u8>, radix: nat) -> Option<nat>
    decreases digits.len(),
{
    if digits.len() == 0 {
        Some(0)
    } else {
        match (digits_value(digits.drop_last(), radix), digit_of(digits.last())) {
            (Some(high), Some(d)) => if d < radix {
                Some(high * radix + d)
            } else {
                None
            },
            _ => None,
        }
    }
}

/// The number that `digits` spell in base `radix`, provided there is at
/// least one digit, all are digits of that base, and the number is no
/// greater than `max`.
pub open spec fn number(digits: Seq<u8>, radix: nat, max: nat) -> Option<nat> {
    if digits.len() == 0 {
        None
    } else {
        match digits_value(digits, radix) {
            Some(v) => if v <= max {
                Some(v)
            } else {
                None
            },
            None => None,
        }
    }
}

/// `bytes` without one leading plus sign.
pub open spec fn without_plus(bytes: Seq<u8>) -> Seq<u8> {
    if bytes.len() > 0 && bytes[0] == 0x2b {
        bytes.skip(1)
    } else {
        bytes
    }
}

/// An unsigned number as the standard library reads it: an optional plus
/// sign, then at least one digit of the base; no greater than `max`.
pub open spec fn unsigned(bytes: Seq<u8>, radix: nat, max: nat) -> Option<nat> {
    number(without_plus(bytes), radix, max)
}

/// A signed 64-bit decimal number as the standard library reads it: an
/// optional sign, then at least one decimal digit; within the range of `i64`.
pub open spec fn signed_decimal(bytes: Seq<u8>) -> Option<int> {
    if bytes.len() > 0 && bytes[0] == 0x2d {
        match number(bytes.skip(1), 10, 0x8000_0000_0000_0000) {
            Some(v) => Some(-(v as int)),
            None => None,
        }
    } else {
        match number(without_plus(bytes), 10, 0x7fff_ffff_ffff_ffff) {
            Some(v) => Some(v as int),
            None => None,
        }
    }
}

/// A prefix of digits spells a number no greater than the whole.
proof fn prefix_value_bound(digits: Seq<u8>, radix: nat, n: int)
    requires
        0 <= n <= digits.len(),
        digits_value(digits, radix).is_some(),
    ensures
        digits_value(digits.subrange(0, n), radix).is_some(),
        digits_value(digits.subrange(0, n), radix).unwrap() <= digits_value(
            digits,
            radix,
        ).unwrap(),
    decreases digits.len(),
{
    if n == digits.len() {
        assert(digits.subrange(0, n) =~= digits);
    } else {
        prefix_value_bound(digits.drop_last(), radix, n);
        assert(digits.drop_last().subrange(0, n) =~= digits.subrange(0, n));
        let high = digits_value(digits.drop_last(), radix).unwrap();
        let d = digit_of(digits.last()).unwrap();
        assert(high * radix + d >= high) by (nonlinear_arith)
            requires
                radix > d,
                d >= 0,
                high >= 0,
        ;
    }
}

/// A prefix with a byte that is no digit spoils the whole.
proof fn prefix_spoils(digits: Seq<u8>, radix: nat, n: int)
    requires
        0 <= n <= digits.len(),
        digits_value(digits.subrange(0, n), radix).is_none(),
    ensures
        digits_value(digits, radix).is_none(),
    decreases digits.len(),
{
    if n == digits.len() {
        assert(digits.subrange(0, n) =~= digits);
    } else {
        assert(digits.drop_last().subrange(0, n) =~= digits.subrange(0, n));
        prefix_spoils(digits.drop_last(), radix, n);
    }
}

/// The value of the digit `b` in a base up to 36, if it is one.
fn digit(b: u8) -> (r: Option<u64>)
    ensures
        r.is_some() == digit_of(b).is_some(),
        r matches Some(d) ==> d == digit_of(b).unwrap() && d < 36,
{
    if 0x30 <= b && b <= 0x39 {
        Some((b - 0x30) as u64)
    } else if 0x61 <= b && b <= 0x7a {
        Some((b - 0x61 + 10) as u64)
    } else if 0x41 <= b && b <= 0x5a {
        Some((b - 0x41 + 10) as u64)
    } else {
        None
    }
}

/// Reads `bytes[from..]` as a number in base `radix` that is no greater than
/// `max`.
pub fn parse_number(bytes: &[u8], from: usize, radix: u64, max: u64) -> (r: Option<u64>)
    requires
        from <= bytes@.len(),
        2 <= radix <= 36,
    ensures
        r.is_some() == number(bytes@.skip(from as int), radix as nat, max as nat).is_some(),
        r matches Some(v) ==> v == number(
            bytes@.skip(from as int),
            radix as nat,
            max as nat,
        ).unwrap(),
{
    let ghost digits = bytes@.skip(from as int);
    if from == bytes.len() {
        return None;
    }
    let mut acc: u64 = 0;
    let mut i: usize = from;
    assert(digits.subrange(0, 0) =~= Seq::<u8>::empty());
    while i < bytes.len()
        invariant
            from <= i <= bytes.len(),
            from < bytes.len(),
            2 <= radix <= 36,
            digits == bytes@.skip(from as int),
            digits_value(digits.subrange(0, i - from), radix as nat) == Some(acc as nat),
            acc <= max,
        decreases bytes.len() - i,
    {
        let ghost next = digits.subrange(0, i - from + 1);
        proof {
            assert(next.drop_last() =~= digits.subrange(0, i - from));
            assert(next.last() == bytes@[i as int]);
        }
        let d: u64 = match digit(bytes[i]) {
            Some(d) => d,
            None => {
                proof {
                    prefix_spoils(digits, radix as nat, i - from + 1);
                }
                return None;
            },
        };
        if d >= radix {
            proof {
                prefix_spoils(digits, radix as nat, i - from + 1);
            }
            return None;
        }
        // acc * radix + d <= max, without overflow
        if d > max || acc > (max - d) / radix {
            proof {
                assert(acc * radix + d > max) by (nonlinear_arith)
                    requires
                        acc > (max - d) / (radix as int) || d > max,
                        radix >= 2,
                        d >= 0,
                        acc >= 0,
                        max >= 0,
                ;
                if digits_value(digits, radix as nat).is_some() {
                    prefix_value_bound(digits, radix as nat, i - from + 1);
                }
            }
            return None;
        }
        assert(acc * radix + d <= max) by (nonlinear_arith)
            requires
                acc <= (max - d) / (radix as int),
                d <= max,
                radix >= 2,
                d >= 0,
                acc >= 0,
        ;
        acc = acc * radix + d;
        i += 1;
    }
    assert(digits.subrange(0, i - from) =~= digits);
    Some(acc)
}

/// Reads `bytes` as an unsigned number in base `radix` that is no greater
/// than `max`, with an optional leading plus sign.
pub fn parse_unsigned(bytes: &[u8], radix: u64, max: u64) -> (r: Option<u64>)
    requires
        2 <= radix <= 36,
    ensures
        r.is_some() == unsigned(bytes@, radix as nat, max as nat).is_some(),
        r matches Some(v) ==> v == unsigned(bytes@, radix as nat, max as nat).unwrap(),
{
    if bytes.len() > 0 && bytes[0] == 0x2b {
        parse_number(bytes, 1, radix, max)
    } else {
        assert(bytes@.skip(0) =~= bytes@);
        parse_number(bytes, 0, radix, max)
    }
}

/// Reads `bytes` as a signed decimal number in the range of `i64`.
pub fn parse_signed_decimal(bytes: &[u8]) -> (r: Option<i64>)
    ensures
        r.is_some() == signed_decimal(bytes@).is_some(),
        r matches Some(v) ==> v == signed_decimal(bytes@).unwrap(),
{
    if bytes.len() > 0 && bytes[0] == 0x2d {
        match parse_number(bytes, 1, 10, 0x8000_0000_0000_0000) {
            Some(v) => {
                if v == 0x8000_0000_0000_0000 {
                    Some(i64::MIN)
                } else {
                    Some(-(v as i64))
                }
            },
            None => None,
        }
    } else {
        match parse_unsigned(bytes, 10, 0x7fff_ffff_ffff_ffff) {
            Some(v) => Some(v as i64),
            None => None,
        }
    }
}

} // verus!
