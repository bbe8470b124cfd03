//! Text: decimal and hexadecimal numbers, trimming and searching.

use vstd::prelude::*;

verus! {

/// `String::push` appends one character.
pub assume_specification[ String::push ](s: &mut String, c: char)
    ensures
        final(s)@ == old(s)@.push(c),
;

/// The texts of a sequence of strings.
pub open spec fn texts(v: Seq<String>) -> Seq<Seq<char>> {
    Seq::new(v.len(), |i: int| v[i]@)
}

/// The texts of a sequence of string slices.
pub open spec fn slice_texts(v: Seq<&str>) -> Seq<Seq<char>> {
    Seq::new(v.len(), |i: int| v[i]@)
}

/// Appends owned copies of `items` to `out`.
pub fn push_all(out: &mut Vec<String>, items: &[&str])
    ensures
        texts(final(out)@) == texts(old(out)@) + slice_texts(items@),
{
    let ghost before = texts(out@);
    let len: usize = items.len();
    let mut i: usize = 0;
    while i < len
        invariant
            i <= len,
            len == items@.len(),
            texts(out@) == before + slice_texts(items@).take(i as int),
        decreases len - i,
    {
        let ghost was = out@;
        let item = items[i].to_string();
        out.push(item);
        assert(texts(out@) =~= texts(was).push(item@));
        assert(slice_texts(items@).take(i + 1) =~= slice_texts(items@).take(i as int).push(item@));
        i += 1;
    }
    assert(slice_texts(items@).take(len as int) =~= slice_texts(items@));
}

/// The character of a decimal digit.
pub open spec fn digit(d: nat) -> char {
    (48 + d) as char
}

/// The decimal notation of a number.
pub open spec fn decimal(n: nat) -> Seq<char>
    decreases n,
{
    if n < 10 {
        seq![digit(n)]
    } else {
        decimal(n / 10).push(digit(n % 10))
    }
}

/// Whether a character is a decimal digit.
pub open spec fn is_digit(c: char) -> bool {
    '0' <= c <= '9'
}

/// The number that a sequence of digits denotes.
pub open spec fn digits_value(s: Seq<char>) -> nat
    decreases s.len(),
{
    if s.len() == 0 {
        0
    } else {
        digits_value(s.drop_last()) * 10 + (s.last() as nat - 48) as nat
    }
}

/// Whether all characters are decimal digits, and there is one.
pub open spec fn is_number(s: Seq<char>) -> bool {
    s.len() > 0 && forall|i: int| 0 <= i < s.len() ==> is_digit(#[trigger] s[i])
}

/// Reading back what was written gives the number.
pub proof fn law_decimal_reads_back(n: nat)
    ensures
        is_number(decimal(n)),
        digits_value(decimal(n)) == n,
    decreases n,
{
    if n < 10 {
        assert(decimal(n).drop_last() =~= Seq::<char>::empty());
        assert(digits_value(Seq::<char>::empty()) == 0);
    } else {
        law_decimal_reads_back(n / 10);
        assert(decimal(n).drop_last() =~= decimal(n / 10));
    }
}

/// Appends the decimal notation of `n`.
pub fn push_decimal(out: &mut String, n: u64)
    ensures
        final(out)@ == old(out)@ + decimal(n as nat),
    decreases n,
{
    if n < 10 {
        let d: u8 = 48 + n as u8;
        out.push(d as char);
    } else {
        push_decimal(out, n / 10);
        let d: u8 = 48 + (n % 10) as u8;
        out.push(d as char);
    }
}

/// The characters of a text.
pub fn chars_of(s: &str) -> (res: Vec<char>)
    ensures
        res@ == s@,
{
    let mut out: Vec<char> = Vec::new();
    let len: usize = s.unicode_len();
    let mut i: usize = 0;
    while i < len
        invariant
            i <= len,
            len == s@.len(),
            out@ == s@.take(i as int),
        decreases len - i,
    {
        out.push(s.get_char(i));
        assert(s@.take(i + 1) =~= s@.take(i as int).push(s@[i as int]));
        i += 1;
    }
    assert(s@.take(len as int) =~= s@);
    out
}

/// The text of characters `from..to`.
pub fn string_of(chars: &Vec<char>, from: usize, to: usize) -> (res: String)
    requires
        from <= to <= chars@.len(),
    ensures
        res@ == chars@.subrange(from as int, to as int),
{
    let mut out = String::new();
    let mut i: usize = from;
    while i < to
        invariant
            from <= i <= to,
            to <= chars@.len(),
            out@ == chars@.subrange(from as int, i as int),
        decreases to - i,
    {
        out.push(chars[i]);
        i += 1;
        assert(out@ =~= chars@.subrange(from as int, i as int));
    }
    out
}

/// The number that a text denotes in decimal notation, a plus sign allowed in
/// front, if it is at most `max`.
pub open spec fn parsed(s: Seq<char>, max: nat) -> Option<nat> {
    let digits = if s.len() > 0 && s[0] == '+' {
        s.skip(1)
    } else {
        s
    };
    if is_number(digits) && digits_value(digits) <= max {
        Some(digits_value(digits))
    } else {
        None
    }
}

/// More digits never make a number smaller.
proof fn lemma_digits_value_grows(s: Seq<char>, i: int)
    requires
        0 <= i <= s.len(),
        forall|j: int| 0 <= j < s.len() ==> is_digit(#[trigger] s[j]),
    ensures
        digits_value(s.take(i)) <= digits_value(s),
    decreases s.len() - i,
{
    if i == s.len() {
        assert(s.take(i) =~= s);
    } else {
        lemma_digits_value_grows(s, i + 1);
        assert(s.take(i + 1).drop_last() =~= s.take(i));
    }
}

/// Reads an unsigned number of at most `max`.
pub fn parse_unsigned(s: &str, max: u64) -> (res: Option<u64>)
    ensures
        match res {
            Some(n) => parsed(s@, max as nat) == Some(n as nat),
            None => parsed(s@, max as nat) is None,
        },
{
    let chars = chars_of(s);
    let len: usize = chars.len();
    let start: usize = if len > 0 && chars[0] == '+' {
        1
    } else {
        0
    };
    let ghost digits = s@.skip(start as int);
    assert(s@.skip(0) =~= s@);
    if start == len {
        return None;
    }
    let mut value: u64 = 0;
    let mut i: usize = start;
    assert(digits.take(0) =~= Seq::empty());
    assert(digits_value(Seq::empty()) == 0);
    while i < len
        invariant
            start <= i <= len,
            chars@ == s@,
            len == s@.len(),
            digits == s@.skip(start as int),
            digits == if s@.len() > 0 && s@[0] == '+' {
                s@.skip(1)
            } else {
                s@
            },
            forall|j: int| 0 <= j < i - start ==> is_digit(#[trigger] digits[j]),
            value == digits_value(digits.take(i - start)),
            value <= max,
        decreases len - i,
    {
        let c = chars[i];
        assert(c == digits[i - start]);
        if !('0' <= c && c <= '9') {
            return None;
        }
        let ghost seen = digits.take(i + 1 - start);
        assert(seen.drop_last() =~= digits.take(i - start));
        let next: u128 = value as u128 * 10 + (c as u32 - 48) as u128;
        assert(next == digits_value(seen));
        if next > max as u128 {
            proof {
                if is_number(digits) {
                    lemma_digits_value_grows(digits, i + 1 - start);
                }
            }
            return None;
        }
        value = next as u64;
        i += 1;
    }
    assert(digits.take(len - start) =~= digits);
    Some(value)
}

/// The character of a hexadecimal digit.
pub open spec fn hex_digit(d: int) -> char {
    if d < 10 {
        (48 + d) as char
    } else {
        (87 + d) as char
    }
}

/// The hexadecimal notation of bytes: two lowercase digits each.
pub open spec fn hex(bytes: Seq<u8>) -> Seq<char> {
    Seq::new(
        bytes.len() * 2,
        |i: int|
            hex_digit(
                if i % 2 == 0 {
                    bytes[i / 2] as int / 16
                } else {
                    bytes[i / 2] as int % 16
                },
            ),
    )
}

/// Different bytes have different notations.
pub proof fn law_hex_is_injective(a: Seq<u8>, b: Seq<u8>)
    requires
        hex(a) == hex(b),
    ensures
        a == b,
{
    assert(hex(a).len() == a.len() * 2 && hex(b).len() == b.len() * 2);
    assert forall|i: int| 0 <= i < a.len() implies a[i] == b[i] by {
        assert(hex(a)[2 * i] == hex(b)[2 * i]);
        assert(hex(a)[2 * i + 1] == hex(b)[2 * i + 1]);
        let (x, y) = (a[i] as int, b[i] as int);
        assert((2 * i) / 2 == i && (2 * i + 1) / 2 == i);
        assert(hex(a)[2 * i] == hex_digit(x / 16) && hex(b)[2 * i] == hex_digit(y / 16));
        assert(hex(a)[2 * i + 1] == hex_digit(x % 16) && hex(b)[2 * i + 1] == hex_digit(y % 16));
        assert(x / 16 == y / 16 && x % 16 == y % 16);
    }
    assert(a =~= b);
}

/// The character of a hexadecimal digit.
fn hex_char(d: u8) -> (res: char)
    requires
        d < 16,
    ensures
        res == hex_digit(d as int),
{
    let c: u8 = if d < 10 {
        48 + d
    } else {
        87 + d
    };
    c as char
}

/// The hexadecimal notation of bytes.
pub fn hex_encode(bytes: &[u8]) -> (res: String)
    ensures
        res@ == hex(bytes@),
{
    let mut s = String::new();
    let len: usize = bytes.len();
    let mut i: usize = 0;
    while i < len
        invariant
            i <= len,
            len == bytes@.len(),
            s@ == hex(bytes@).take(2 * i),
        decreases len - i,
    {
        let b: u8 = bytes[i];
        s.push(hex_char(b / 16));
        s.push(hex_char(b % 16));
        assert(hex(bytes@)[2 * i] == hex_digit(b as int / 16));
        assert(hex(bytes@)[2 * i + 1] == hex_digit(b as int % 16));
        assert(s@ =~= hex(bytes@).take(2 * i + 2));
        i += 1;
    }
    assert(hex(bytes@).take(2 * len) =~= hex(bytes@));
    s
}

/// Whether `s` has `part` at `i`.
pub open spec fn has_at(s: Seq<char>, part: Seq<char>, i: int) -> bool {
    0 <= i && i + part.len() <= s.len() && s.subrange(i, i + part.len()) == part
}

/// `s` from `i` on with every occurrence of `from`, taken from the left and
/// without overlap, replaced by `to`.
pub open spec fn replaced_from(s: Seq<char>, from: Seq<char>, to: Seq<char>, i: int) -> Seq<char>
    decreases s.len() - i,
{
    if i >= s.len() {
        seq![]
    } else if from.len() > 0 && has_at(s, from, i) {
        to + replaced_from(s, from, to, i + from.len())
    } else {
        seq![s[i]] + replaced_from(s, from, to, i + 1)
    }
}

/// `s` with every occurrence of `from` replaced by `to`.
pub open spec fn replaced(s: Seq<char>, from: Seq<char>, to: Seq<char>) -> Seq<char> {
    replaced_from(s, from, to, 0)
}

/// Whether `chars` has `part` at `i`.
fn chars_have_at(chars: &Vec<char>, part: &Vec<char>, i: usize) -> (res: bool)
    requires
        i <= chars@.len(),
    ensures
        res == has_at(chars@, part@, i as int),
{
    let len: usize = chars.len();
    let n: usize = part.len();
    if n > len - i {
        return false;
    }
    let mut k: usize = 0;
    while k < n
        invariant
            k <= n,
            n == part@.len(),
            len == chars@.len(),
            i + n <= len,
            forall|j: int| 0 <= j < k ==> chars@[i + j] == #[trigger] part@[j],
        decreases n - k,
    {
        if chars[i + k] != part[k] {
            assert(chars@.subrange(i as int, i + n)[k as int] != part@[k as int]);
            return false;
        }
        k += 1;
    }
    assert(chars@.subrange(i as int, i + n) =~= part@);
    true
}

/// `s` with every occurrence of `from` replaced by `to`.
pub fn replace(s: &str, from: &str, to: &str) -> (res: String)
    requires
        from@.len() > 0,
    ensures
        res@ == replaced(s@, from@, to@),
{
    let chars = chars_of(s);
    let part = chars_of(from);
    let len: usize = chars.len();
    let n: usize = part.len();
    let mut out = String::new();
    let mut i: usize = 0;
    assert(out@ + replaced_from(s@, from@, to@, 0) =~= replaced(s@, from@, to@));
    while i < len
        invariant
            i <= len,
            len == chars@.len(),
            n == part@.len(),
            n > 0,
            chars@ == s@,
            part@ == from@,
            out@ + replaced_from(s@, from@, to@, i as int) == replaced(s@, from@, to@),
        decreases len - i,
    {
        let ghost before = out@;
        if chars_have_at(&chars, &part, i) {
            out.append(to);
            proof {
                let rest = replaced_from(s@, from@, to@, i + n);
                assert((before + to@) + rest =~= before + (to@ + rest));
            }
            i += n;
        } else {
            out.push(chars[i]);
            proof {
                let rest = replaced_from(s@, from@, to@, i + 1);
                assert(before.push(s@[i as int]) + rest =~= before + (seq![s@[i as int]] + rest));
            }
            i += 1;
        }
    }
    assert(replaced_from(s@, from@, to@, len as int) =~= seq![]);
    assert(out@ + seq![] =~= out@);
    out
}

/// `s` without the occurrences of `c` at its end.
pub open spec fn without_trailing(s: Seq<char>, c: char) -> Seq<char>
    decreases s.len(),
{
    if s.len() > 0 && s.last() == c {
        without_trailing(s.drop_last(), c)
    } else {
        s
    }
}

/// `s` without the occurrences of `c` at its end.
pub fn trim_end_matches(s: &str, c: char) -> (res: String)
    ensures
        res@ == without_trailing(s@, c),
{
    let chars = chars_of(s);
    let mut end: usize = chars.len();
    assert(s@.take(end as int) =~= s@);
    while end > 0 && chars[end - 1] == c
        invariant
            end <= chars@.len(),
            chars@ == s@,
            without_trailing(s@.take(end as int), c) == without_trailing(s@, c),
        decreases end,
    {
        assert(s@.take(end as int).drop_last() =~= s@.take(end - 1));
        end -= 1;
    }
    let res = string_of(&chars, 0, end);
    assert(res@ =~= s@.take(end as int));
    res
}

/// Whether a character has the Unicode property `White_Space`.
pub open spec fn is_white_space(c: char) -> bool {
    ||| '\u{9}' <= c <= '\u{d}'
    ||| c == ' '
    ||| c == '\u{85}'
    ||| c == '\u{a0}'
    ||| c == '\u{1680}'
    ||| '\u{2000}' <= c <= '\u{200a}'
    ||| c == '\u{2028}'
    ||| c == '\u{2029}'
    ||| c == '\u{202f}'
    ||| c == '\u{205f}'
    ||| c == '\u{3000}'
}

/// Whether a character has the Unicode property `White_Space`.
fn white_space(c: char) -> (res: bool)
    ensures
        res == is_white_space(c),
{
    ('\u{9}' <= c && c <= '\u{d}') || c == ' ' || c == '\u{85}' || c == '\u{a0}' || c == '\u{1680}'
        || ('\u{2000}' <= c && c <= '\u{200a}') || c == '\u{2028}' || c == '\u{2029}' || c
        == '\u{202f}' || c == '\u{205f}' || c == '\u{3000}'
}

/// Where the first character that is no white space stands; the length if
/// there is none.
pub open spec fn blank_prefix(s: Seq<char>) -> nat
    decreases s.len(),
{
    if s.len() > 0 && is_white_space(s[0]) {
        1 + blank_prefix(s.skip(1))
    } else {
        0
    }
}

/// `s` without the white space at its end.
pub open spec fn without_trailing_blanks(s: Seq<char>) -> Seq<char>
    decreases s.len(),
{
    if s.len() > 0 && is_white_space(s.last()) {
        without_trailing_blanks(s.drop_last())
    } else {
        s
    }
}

/// `s` without the white space at its ends.
pub open spec fn trimmed(s: Seq<char>) -> Seq<char> {
    without_trailing_blanks(s.skip(blank_prefix(s) as int))
}

/// Counting blanks stays within the text.
proof fn lemma_blank_prefix(s: Seq<char>, i: int)
    requires
        0 <= i <= s.len(),
        forall|j: int| 0 <= j < i ==> is_white_space(#[trigger] s[j]),
        i < s.len() ==> !is_white_space(s[i]),
    ensures
        blank_prefix(s) == i,
    decreases i,
{
    if i > 0 {
        assert(is_white_space(s[0]));
        assert forall|j: int| 0 <= j < i - 1 implies is_white_space(#[trigger] s.skip(1)[j]) by {
            assert(s.skip(1)[j] == s[j + 1]);
        }
        lemma_blank_prefix(s.skip(1), i - 1);
    }
}

/// `s` without the white space at its ends.
pub fn trim(s: &str) -> (res: String)
    ensures
        res@ == trimmed(s@),
{
    let chars = chars_of(s);
    let len: usize = chars.len();
    let mut start: usize = 0;
    while start < len && white_space(chars[start])
        invariant
            start <= len,
            len == chars@.len(),
            forall|j: int| 0 <= j < start ==> is_white_space(#[trigger] chars@[j]),
        decreases len - start,
    {
        start += 1;
    }
    proof {
        lemma_blank_prefix(s@, start as int);
    }
    let ghost rest = s@.skip(start as int);
    let mut end: usize = len;
    assert(rest.take(end - start) =~= rest);
    while end > start && white_space(chars[end - 1])
        invariant
            start <= end <= len,
            len == chars@.len(),
            chars@ == s@,
            rest == s@.skip(start as int),
            without_trailing_blanks(rest.take(end - start)) == without_trailing_blanks(rest),
        decreases end,
    {
        assert(rest.take(end - start).drop_last() =~= rest.take(end - start - 1));
        end -= 1;
    }
    let res = string_of(&chars, start, end);
    assert(res@ =~= rest.take(end - start));
    res
}

/// Whether a text holds nothing but white space.
pub fn is_blank(s: &str) -> (res: bool)
    ensures
        res == (trimmed(s@).len() == 0),
{
    trim(s).as_str().is_empty()
}

/// The parts of a text between the occurrences of a separator: one more than
/// there are separators.
pub open spec fn split(s: Seq<char>, sep: char) -> Seq<Seq<char>>
    decreases s.len(),
{
    if s.len() == 0 {
        seq![seq![]]
    } else {
        let before = split(s.drop_last(), sep);
        if s.last() == sep {
            before.push(seq![])
        } else {
            before.drop_last().push(before.last().push(s.last()))
        }
    }
}

/// The parts of a text between the occurrences of a separator.
pub fn split_on(s: &str, sep: char) -> (res: Vec<String>)
    ensures
        texts(res@) == split(s@, sep),
{
    let chars = chars_of(s);
    let len: usize = chars.len();
    let mut out: Vec<String> = Vec::new();
    let mut part = String::new();
    let mut i: usize = 0;
    assert(texts(out@).push(part@) =~= split(s@.take(0), sep));
    while i < len
        invariant
            i <= len,
            len == chars@.len(),
            chars@ == s@,
            texts(out@).push(part@) == split(s@.take(i as int), sep),
        decreases len - i,
    {
        let c = chars[i];
        let ghost before = texts(out@).push(part@);
        proof {
            assert(s@.take(i + 1).drop_last() =~= s@.take(i as int));
            assert(s@.take(i + 1).last() == c);
            assert(before.drop_last() =~= texts(out@));
            assert(before.last() == part@);
        }
        if c == sep {
            let ghost was = out@;
            let ghost done = part@;
            out.push(part);
            part = String::new();
            assert(texts(out@) =~= texts(was).push(done));
            assert(texts(out@).push(part@) =~= before.push(seq![]));
        } else {
            part.push(c);
        }
        i += 1;
    }
    let ghost was = out@;
    let ghost done = part@;
    out.push(part);
    assert(texts(out@) =~= texts(was).push(done));
    assert(s@.take(len as int) =~= s@);
    out
}

/// Whether `part` occurs in `s`.
pub open spec fn occurs(s: Seq<char>, part: Seq<char>) -> bool {
    exists|i: int| has_at(s, part, i)
}

/// Whether `part` occurs in `s`.
pub fn contains(s: &str, part: &str) -> (res: bool)
    ensures
        res == occurs(s@, part@),
{
    let chars = chars_of(s);
    let wanted = chars_of(part);
    let len: usize = chars.len();
    let mut i: usize = 0;
    let mut more = true;
    while more
        invariant
            i <= len,
            len == chars@.len(),
            chars@ == s@,
            wanted@ == part@,
            forall|j: int| 0 <= j < i ==> !#[trigger] has_at(s@, part@, j),
            !more ==> !has_at(s@, part@, i as int) && i == len,
        decreases len - i + if more {
            1int
        } else {
            0
        },
    {
        if chars_have_at(&chars, &wanted, i) {
            return true;
        }
        if i < len {
            i += 1;
        } else {
            more = false;
        }
    }
    false
}

/// The lowercase equivalent of a text.
pub uninterp spec fn lowercase(s: Seq<char>) -> Seq<char>;

/// An ASCII letter in lowercase; any other character as it is.
pub open spec fn ascii_lower(c: char) -> char {
    if 'A' <= c <= 'Z' {
        (c as int + 32) as char
    } else {
        c
    }
}

/// `str::to_lowercase`. The result depends on the text alone. Of a text that is
/// all ASCII it is the text with its letters in lowercase.
#[verifier::external_body]
pub(crate) fn to_lowercase(s: &str) -> (res: String)
    ensures
        res@ == lowercase(s@),
        (forall|i: int| 0 <= i < s@.len() ==> (#[trigger] s@[i] as int) < 128) ==> res@ == Seq::new(
            s@.len(),
            |i: int| ascii_lower(s@[i]),
        ),
{
    s.to_lowercase()
}

/// Whether a text holds nothing but white space.
pub open spec fn is_all_blank(s: Seq<char>) -> bool {
    forall|i: int| 0 <= i < s.len() ==> is_white_space(#[trigger] s[i])
}

/// The blanks that `blank_prefix` counts are blanks, and none follows them.
proof fn lemma_counted_blanks(s: Seq<char>)
    ensures
        blank_prefix(s) <= s.len(),
        is_all_blank(s.take(blank_prefix(s) as int)),
        blank_prefix(s) < s.len() ==> !is_white_space(s[blank_prefix(s) as int]),
    decreases s.len(),
{
    if s.len() > 0 && is_white_space(s[0]) {
        let rest = s.skip(1);
        lemma_counted_blanks(rest);
        let n = blank_prefix(rest) as int;
        assert forall|i: int| 0 <= i < n + 1 implies is_white_space(#[trigger] s.take(n + 1)[i]) by {
            if i > 0 {
                assert(rest.take(n)[i - 1] == s[i]);
            }
        }
        assert(n < rest.len() ==> rest[n] == s[n + 1]);
    }
}

/// What is cut off at the end is blank, and nothing blank is left there.
proof fn lemma_trailing_blanks(s: Seq<char>)
    ensures
        ({
            let t = without_trailing_blanks(s);
            &&& t.len() <= s.len()
            &&& t == s.take(t.len() as int)
            &&& is_all_blank(s.skip(t.len() as int))
            &&& t.len() > 0 ==> !is_white_space(t.last())
        }),
    decreases s.len(),
{
    if s.len() > 0 && is_white_space(s.last()) {
        let front = s.drop_last();
        lemma_trailing_blanks(front);
        let n = without_trailing_blanks(front).len() as int;
        assert(front.take(n) =~= s.take(n));
        assert forall|i: int| 0 <= i < s.len() - n implies is_white_space(#[trigger] s.skip(n)[i]) by {
            if i < s.len() - 1 - n {
                assert(front.skip(n)[i] == s[n + i]);
            }
        }
    } else {
        assert(s.take(s.len() as int) =~= s);
    }
}

/// Trimming cuts white space off both ends and nothing else: what is cut off is blank,
/// what is left neither begins nor ends with a blank, and nothing is left exactly where
/// all was blank.
pub proof fn law_trimming(s: Seq<char>)
    ensures
        exists|from: int, to: int|
            0 <= from <= to <= s.len() && trimmed(s) == #[trigger] s.subrange(from, to)
                && is_all_blank(s.take(from)) && is_all_blank(s.skip(to)),
        trimmed(s).len() > 0 ==> !is_white_space(trimmed(s)[0]) && !is_white_space(
            trimmed(s).last(),
        ),
        trimmed(s).len() == 0 <==> is_all_blank(s),
{
    lemma_counted_blanks(s);
    let from = blank_prefix(s) as int;
    let rest = s.skip(from);
    lemma_trailing_blanks(rest);
    let t = trimmed(s);
    let to = from + t.len();
    assert(rest.take(t.len() as int) =~= s.subrange(from, to));
    assert(rest.skip(t.len() as int) =~= s.skip(to));
    if t.len() > 0 {
        assert(t[0] == s[from]);
    }
    if t.len() == 0 {
        assert forall|i: int| 0 <= i < s.len() implies is_white_space(#[trigger] s[i]) by {
            if i < from {
                assert(s.take(from)[i] == s[i]);
            } else {
                assert(s.skip(to)[i - to] == s[i]);
            }
        }
    }
    if is_all_blank(s) && t.len() > 0 {
        assert(is_white_space(s[from]));
    }
}

/// Digits have their usual values, each place ten times the one after it, and what is
/// written begins with a zero only where the number is zero.
pub proof fn law_digits_are_decimal(s: Seq<char>, d: char, n: nat)
    requires
        '0' <= d <= '9',
    ensures
        digits_value(seq![]) == 0,
        digits_value(s.push(d)) == 10 * digits_value(s) + (d as int - '0' as int),
        decimal(n).len() >= 1,
        n > 0 ==> decimal(n)[0] != '0',
        is_digit(d),
{
    assert(s.push(d).drop_last() =~= s);
    lemma_no_leading_zero(n);
}

/// A number above zero does not begin with a zero.
proof fn lemma_no_leading_zero(n: nat)
    ensures
        decimal(n).len() >= 1,
        n > 0 ==> decimal(n)[0] != '0',
    decreases n,
{
    if n >= 10 {
        lemma_no_leading_zero(n / 10);
        assert(decimal(n)[0] == decimal(n / 10)[0]);
    }
}

/// A number that is written is read as that number, with or without a plus sign, exactly
/// where it is not too large. A text with anything but digits after the sign is no
/// number, and neither is one without digits.
pub proof fn law_numbers_are_read(n: nat, max: nat, s: Seq<char>, i: int)
    ensures
        parsed(decimal(n), max) == if n <= max {
            Some(n)
        } else {
            None
        },
        parsed(seq!['+'] + decimal(n), max) == parsed(decimal(n), max),
        0 < i < s.len() && !('0' <= s[i] <= '9') ==> parsed(s, max) is None,
        s.len() > 0 && s[0] != '+' && !('0' <= s[0] <= '9') ==> parsed(s, max) is None,
        s.len() == 0 || s == seq!['+'] ==> parsed(s, max) is None,
        parsed(s, max) matches Some(value) ==> value <= max,
{
    law_decimal_reads_back(n);
    let t = decimal(n);
    assert(is_digit(t[0]));
    assert((seq!['+'] + t).skip(1) =~= t);
    let digits = if s.len() > 0 && s[0] == '+' {
        s.skip(1)
    } else {
        s
    };
    if 0 < i < s.len() && !('0' <= s[i] <= '9') {
        if s[0] == '+' {
            assert(!is_digit(digits[i - 1]));
        } else {
            assert(!is_digit(digits[i]));
        }
    }
    if s.len() > 0 && s[0] != '+' && !('0' <= s[0] <= '9') {
        assert(!is_digit(digits[0]));
    }
    if s == seq!['+'] {
        assert(s.skip(1).len() == 0);
    }
}

/// The value of a hexadecimal digit.
pub open spec fn hex_value(c: char) -> int {
    if '0' <= c <= '9' {
        c as int - '0' as int
    } else {
        c as int - 'a' as int + 10
    }
}

/// Each byte is written as two digits, 0 to 9 and a to f, the upper half first.
pub proof fn law_hex_digits(bytes: Seq<u8>, i: int)
    requires
        0 <= i < bytes.len(),
    ensures
        hex(bytes).len() == 2 * bytes.len(),
        ({
            let (upper, lower) = (hex(bytes)[2 * i], hex(bytes)[2 * i + 1]);
            &&& '0' <= upper <= '9' || 'a' <= upper <= 'f'
            &&& '0' <= lower <= '9' || 'a' <= lower <= 'f'
            &&& 16 * hex_value(upper) + hex_value(lower) == bytes[i]
        }),
{
    assert((2 * i) / 2 == i && (2 * i + 1) / 2 == i);
    assert((2 * i) % 2 == 0 && (2 * i + 1) % 2 == 1);
}

/// A part occurs in a text exactly where the text is something, the part and something.
pub proof fn law_occurring(s: Seq<char>, part: Seq<char>, before: Seq<char>, after: Seq<char>)
    ensures
        occurs(before + part + after, part),
        occurs(s, part) ==> exists|i: int|
            0 <= i && i + part.len() <= s.len() && s == #[trigger] s.take(i) + part + s.skip(
                i + part.len(),
            ),
{
    let whole = before + part + after;
    let n = before.len() as int;
    assert(whole.subrange(n, n + part.len()) =~= part);
    assert(has_at(whole, part, n));
    if occurs(s, part) {
        let i = choose|i: int| has_at(s, part, i);
        assert(s =~= s.take(i) + s.subrange(i, i + part.len()) + s.skip(i + part.len()));
    }
}

/// A text without an occurrence from `i` on is not changed from there on.
proof fn lemma_nothing_replaced(s: Seq<char>, from: Seq<char>, to: Seq<char>, i: int)
    requires
        0 <= i <= s.len(),
        forall|j: int| i <= j ==> !#[trigger] has_at(s, from, j),
    ensures
        replaced_from(s, from, to, i) == s.skip(i),
    decreases s.len() - i,
{
    if i < s.len() {
        lemma_nothing_replaced(s, from, to, i + 1);
        assert(!has_at(s, from, i));
        assert(seq![s[i]] + s.skip(i + 1) =~= s.skip(i));
    } else {
        assert(s.skip(i) =~= seq![]);
    }
}

/// Replacing does not look at what was gone over.
proof fn lemma_replaced_of_rest(
    a: Seq<char>,
    b: Seq<char>,
    from: Seq<char>,
    to: Seq<char>,
    i: int,
)
    requires
        0 <= i <= b.len(),
    ensures
        replaced_from(a + b, from, to, a.len() + i) == replaced_from(b, from, to, i),
    decreases b.len() - i,
{
    let s = a + b;
    let n = a.len() as int;
    if i < b.len() {
        assert(has_at(s, from, n + i) == has_at(b, from, i)) by {
            if i + from.len() <= b.len() {
                assert(s.subrange(n + i, n + i + from.len()) =~= b.subrange(i, i + from.len()));
            }
        }
        if from.len() > 0 && has_at(b, from, i) {
            lemma_replaced_of_rest(a, b, from, to, i + from.len());
        } else {
            lemma_replaced_of_rest(a, b, from, to, i + 1);
        }
    }
}

/// Replacing changes a text exactly at the occurrences: a text without one stays as it
/// is, and one that begins with an occurrence begins with the replacement, and goes on
/// with the rest replaced likewise.
pub proof fn law_replacing(s: Seq<char>, from: Seq<char>, to: Seq<char>)
    requires
        from.len() > 0,
    ensures
        !occurs(s, from) ==> replaced(s, from, to) == s,
        replaced(from + s, from, to) == to + replaced(s, from, to),
        forall|c: char|
            !has_at(seq![c] + s, from, 0) ==> #[trigger] replaced(seq![c] + s, from, to) == seq![c]
                + replaced(s, from, to),
{
    if !occurs(s, from) {
        lemma_nothing_replaced(s, from, to, 0);
        assert(s.skip(0) =~= s);
    }
    assert((from + s).subrange(0, from.len() as int) =~= from);
    lemma_replaced_of_rest(from, s, from, to, 0);
    assert forall|c: char| !has_at(seq![c] + s, from, 0) implies #[trigger] replaced(
        seq![c] + s,
        from,
        to,
    ) == seq![c] + replaced(s, from, to) by {
        lemma_replaced_of_rest(seq![c], s, from, to, 0);
    }
}

/// Cutting a character off the end cuts off all of it there and nothing else.
pub proof fn law_trailing_is_cut_off(s: Seq<char>, c: char)
    ensures
        ({
            let t = without_trailing(s, c);
            &&& t.len() <= s.len()
            &&& t == s.take(t.len() as int)
            &&& t.len() > 0 ==> t.last() != c
            &&& forall|i: int| t.len() <= i < s.len() ==> #[trigger] s[i] == c
        }),
    decreases s.len(),
{
    if s.len() > 0 && s.last() == c {
        law_trailing_is_cut_off(s.drop_last(), c);
        let n = without_trailing(s, c).len() as int;
        assert(s.drop_last().take(n) =~= s.take(n));
        assert forall|i: int| n <= i < s.len() implies #[trigger] s[i] == c by {
            if i < s.len() - 1 {
                assert(s.drop_last()[i] == s[i]);
            }
        }
    } else {
        assert(s.take(s.len() as int) =~= s);
    }
}

/// Parts with a separator between each two.
pub open spec fn interleaved(parts: Seq<Seq<char>>, sep: char) -> Seq<char>
    decreases parts.len(),
{
    if parts.len() == 0 {
        seq![]
    } else if parts.len() == 1 {
        parts[0]
    } else {
        interleaved(parts.drop_last(), sep).push(sep) + parts.last()
    }
}

/// The parts of a text with the separator between them are the text, and none of them
/// holds a separator.
pub proof fn law_splitting(s: Seq<char>, sep: char)
    ensures
        split(s, sep).len() >= 1,
        interleaved(split(s, sep), sep) == s,
        forall|k: int| 0 <= k < split(s, sep).len() ==> !(#[trigger] split(s, sep)[k]).contains(sep),
    decreases s.len(),
{
    let parts = split(s, sep);
    if s.len() == 0 {
        assert(parts[0] =~= s);
    } else {
        let front = s.drop_last();
        law_splitting(front, sep);
        let before = split(front, sep);
        if s.last() == sep {
            assert(parts.drop_last() =~= before);
            assert(interleaved(parts, sep) =~= s);
            assert forall|k: int| 0 <= k < parts.len() implies !(#[trigger] parts[k]).contains(
                sep,
            ) by {
                if k < before.len() {
                    assert(parts[k] == before[k]);
                }
            }
        } else {
            let last = before.last();
            assert(parts.drop_last() =~= before.drop_last());
            assert(interleaved(parts, sep) =~= interleaved(before, sep).push(s.last()));
            assert(interleaved(parts, sep) =~= s);
            assert forall|k: int| 0 <= k < parts.len() implies !(#[trigger] parts[k]).contains(
                sep,
            ) by {
                if k < before.len() - 1 {
                    assert(parts[k] == before[k]);
                } else {
                    assert(parts[k] == last.push(s.last()));
                    assert(!before[before.len() - 1].contains(sep));
                    if parts[k].contains(sep) {
                        let j = choose|j: int| 0 <= j < parts[k].len() && parts[k][j] == sep;
                        assert(last[j] == sep);
                        assert(last.contains(sep));
                    }
                }
            }
        }
    }
}

/// The texts of strings are those of each, in their order.
pub proof fn law_texts(v: Seq<String>, w: Seq<&str>, i: int)
    ensures
        texts(v).len() == v.len(),
        slice_texts(w).len() == w.len(),
        0 <= i < v.len() ==> texts(v)[i] == v[i]@,
        0 <= i < w.len() ==> slice_texts(w)[i] == w[i]@,
{
}

/// Of ASCII, the space and the characters from tab to carriage return are white space, and
/// nothing else is. Beyond ASCII the next line, the spaces of every width, the separators of
/// lines and paragraphs and the ideographic space are.
pub proof fn law_white_space(c: char)
    ensures
        (c as int) < 128 ==> (is_white_space(c) <==> c == ' ' || c == '\t' || c == '\n' || c
            == '\u{b}' || c == '\u{c}' || c == '\r'),
        (c as int) >= 128 ==> (is_white_space(c) <==> c == '\u{85}' || c == '\u{a0}' || c
            == '\u{1680}' || (c as int) / 16 == 0x200 && (c as int) % 16 <= 10 || c == '\u{2028}'
            || c == '\u{2029}' || c == '\u{202f}' || c == '\u{205f}' || c == '\u{3000}'),
{
}

/// Splitting off what follows the last separator.
proof fn lemma_split_at_last(a: Seq<char>, b: Seq<char>, sep: char)
    requires
        !b.contains(sep),
    ensures
        split(a.push(sep) + b, sep) == split(a, sep).push(b),
    decreases b.len(),
{
    let s = a.push(sep) + b;
    if b.len() == 0 {
        assert(s.drop_last() =~= a);
        assert(b =~= seq![]);
    } else {
        let front = b.drop_last();
        assert(!front.contains(sep)) by {
            if front.contains(sep) {
                let j = choose|j: int| 0 <= j < front.len() && front[j] == sep;
                assert(b[j] == sep);
            }
        }
        lemma_split_at_last(a, front, sep);
        assert(s.drop_last() =~= a.push(sep) + front);
        assert(b[b.len() - 1] != sep);
        let before = split(s.drop_last(), sep);
        assert(before.drop_last() =~= split(a, sep));
        assert(front.push(b.last()) =~= b);
    }
}

/// A text without a separator is one part.
proof fn lemma_split_without(s: Seq<char>, sep: char)
    requires
        !s.contains(sep),
    ensures
        split(s, sep) == seq![s],
    decreases s.len(),
{
    if s.len() == 0 {
        assert(s =~= seq![]);
    } else {
        let front = s.drop_last();
        assert(!front.contains(sep)) by {
            if front.contains(sep) {
                let j = choose|j: int| 0 <= j < front.len() && front[j] == sep;
                assert(s[j] == sep);
            }
        }
        lemma_split_without(front, sep);
        assert(s[s.len() - 1] != sep);
        assert(front.push(s.last()) =~= s);
        assert(split(s, sep) =~= seq![s]);
    }
}

/// Parts that hold no separator are found again between the separators.
pub proof fn law_parts_are_found_again(parts: Seq<Seq<char>>, sep: char)
    requires
        parts.len() >= 1,
        forall|k: int| 0 <= k < parts.len() ==> !(#[trigger] parts[k]).contains(sep),
    ensures
        split(interleaved(parts, sep), sep) == parts,
    decreases parts.len(),
{
    if parts.len() == 1 {
        assert(!parts[0].contains(sep));
        lemma_split_without(parts[0], sep);
        assert(parts =~= seq![parts[0]]);
    } else {
        let front = parts.drop_last();
        assert forall|k: int| 0 <= k < front.len() implies !(#[trigger] front[k]).contains(sep) by {
            assert(front[k] == parts[k]);
        }
        law_parts_are_found_again(front, sep);
        assert(!parts[parts.len() - 1].contains(sep));
        lemma_split_at_last(interleaved(front, sep), parts.last(), sep);
        assert(front.push(parts.last()) =~= parts);
    }
}

/// A text that neither begins nor ends with white space is not trimmed.
pub proof fn law_nothing_to_trim(s: Seq<char>)
    requires
        s.len() > 0,
        !is_white_space(s[0]),
        !is_white_space(s.last()),
    ensures
        trimmed(s) == s,
{
    law_trimming(s);
    let (from, to) = choose|from: int, to: int|
        0 <= from <= to <= s.len() && trimmed(s) == #[trigger] s.subrange(from, to) && is_all_blank(
            s.take(from),
        ) && is_all_blank(s.skip(to));
    if from > 0 {
        assert(s.take(from)[0] == s[0]);
    }
    if to < s.len() {
        assert(s.skip(to)[s.len() - to - 1] == s.last());
    }
    assert(s.subrange(0, s.len() as int) =~= s);
}

/// A number in decimal notation holds neither a comma nor white space.
pub proof fn law_decimal_is_plain(n: nat, c: char)
    ensures
        !is_digit(c) ==> !decimal(n).contains(c),
        trimmed(decimal(n)) == decimal(n),
{
    law_decimal_reads_back(n);
    let s = decimal(n);
    assert(is_digit(s[0]));
    assert(is_digit(s[s.len() - 1]));
    law_nothing_to_trim(s);
    if !is_digit(c) && s.contains(c) {
        let i = choose|i: int| 0 <= i < s.len() && s[i] == c;
        assert(is_digit(s[i]));
    }
}

/// Texts are cut, trimmed, replaced and searched as they say: what is put together from parts is
/// split into them again, what is cut off is blank or the character, and what holds a part is
/// found to.
pub proof fn law_handling_texts(
    s: &str,
    c: char,
    trimmed_s: String,
    cut: String,
    blank: bool,
    part: &str,
    found: bool,
    parts: Vec<String>,
    chars: Vec<char>,
)
    requires
        call_ensures(trim, (s,), trimmed_s),
        call_ensures(trim_end_matches, (s, c), cut),
        call_ensures(is_blank, (s,), blank),
        call_ensures(contains, (s, part), found),
        call_ensures(split_on, (s, c), parts),
        call_ensures(chars_of, (s,), chars),
    ensures
        trimmed_s@.len() > 0 ==> !is_white_space(trimmed_s@[0]) && !is_white_space(
            trimmed_s@.last(),
        ),
        exists|from: int, to: int|
            0 <= from <= to <= s@.len() && trimmed_s@ == #[trigger] s@.subrange(from, to)
                && is_all_blank(s@.take(from)) && is_all_blank(s@.skip(to)),
        blank <==> is_all_blank(s@),
        cut@.len() <= s@.len(),
        cut@ == s@.take(cut@.len() as int),
        cut@.len() > 0 ==> cut@.last() != c,
        forall|i: int| cut@.len() <= i < s@.len() ==> #[trigger] s@[i] == c,
        found <==> exists|i: int|
            0 <= i && i + part@.len() <= s@.len() && s@ == #[trigger] s@.take(i) + part@ + s@.skip(
                i + part@.len(),
            ),
        interleaved(texts(parts@), c) == s@,
        forall|k: int| 0 <= k < parts@.len() ==> !(#[trigger] parts@[k])@.contains(c),
        chars@ == s@,
{
    law_trimming(s@);
    law_trailing_is_cut_off(s@, c);
    law_splitting(s@, c);
    law_occurring(s@, part@, seq![], seq![]);
    if exists|i: int|
        0 <= i && i + part@.len() <= s@.len() && s@ == #[trigger] s@.take(i) + part@ + s@.skip(
            i + part@.len(),
        ) {
        let i = choose|i: int|
            0 <= i && i + part@.len() <= s@.len() && s@ == #[trigger] s@.take(i) + part@ + s@.skip(
                i + part@.len(),
            );
        law_occurring(s@, part@, s@.take(i), s@.skip(i + part@.len()));
    }
    assert forall|k: int| 0 <= k < parts@.len() implies !(#[trigger] parts@[k])@.contains(c) by {
        assert(texts(parts@)[k] == parts@[k]@);
        assert(texts(parts@)[k] == split(s@, c)[k]);
    }
}

/// Numbers are written in decimal notation behind what is there, and read back where they are
/// small enough; bytes are written as two hexadecimal digits each.
pub proof fn law_writing_and_reading(
    out: &mut String,
    n: u64,
    s: &str,
    max: u64,
    res: Option<u64>,
    bytes: &[u8],
    digits: String,
    i: int,
)
    requires
        call_ensures(push_decimal, (out, n), ()),
        s@ == decimal(n as nat),
        call_ensures(parse_unsigned, (s, max), res),
        call_ensures(hex_encode, (bytes,), digits),
        0 <= i < bytes@.len(),
    ensures
        final(out)@ == old(out)@ + s@,
        n <= max ==> res == Some(n),
        n > max ==> res is None,
        digits@.len() == 2 * bytes@.len(),
        16 * hex_value(digits@[2 * i]) + hex_value(digits@[2 * i + 1]) == bytes@[i],
{
    law_numbers_are_read(n as nat, max as nat, seq![], 0);
    law_hex_digits(bytes@, i);
}

/// A text that is replaced where it stands first is replaced there, and a text without it stays.
pub proof fn law_substituting(
    s: &str,
    from: &str,
    to: &str,
    res: String,
    more: &str,
    more_res: String,
)
    requires
        from@.len() > 0,
        call_ensures(replace, (s, from, to), res),
        more@ == from@ + s@,
        call_ensures(replace, (more, from, to), more_res),
    ensures
        !occurs(s@, from@) ==> res@ == s@,
        more_res@ == to@ + res@,
{
    law_replacing(s@, from@, to@);
}

} // verus!
