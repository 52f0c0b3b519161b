//! Text building blocks over the characters and the bytes of a string.
use vstd::prelude::*;
use vstd::string::StringExecFns;

use crate::bytes::bytes_equal;

verus! {

/// The UTF-8 bytes of a text.
pub open spec fn utf8(s: Seq<char>) -> Seq<u8> {
    vstd::utf8::encode_utf8(s)
}

/// The decimal digits of `n`, without leading zeros.
pub open spec fn decimal(n: nat) -> Seq<char>
    decreases n,
{
    if n < 10 {
        seq![digit(n)]
    } else {
        decimal(n / 10).push(digit(n % 10))
    }
}

/// The digit that stands for `d`.
pub open spec fn digit(d: nat) -> char {
    (48 + d) as u8 as char
}

/// Two texts with the same bytes are the same.
pub proof fn utf8_injective(a: Seq<char>, b: Seq<char>)
    requires
        utf8(a) == utf8(b),
    ensures
        a == b,
{
    vstd::utf8::encode_utf8_decode_utf8(a);
    vstd::utf8::encode_utf8_decode_utf8(b);
}

/// Whether two texts are the same.
pub fn same_text(a: &str, b: &str) -> (r: bool)
    ensures
        r == (a@ == b@),
{
    let r = bytes_equal(a.as_bytes(), b.as_bytes());
    proof {
        if r {
            utf8_injective(a@, b@);
        }
    }
    r
}

fn digit_text(d: u64) -> (r: &'static str)
    requires
        d < 10,
    ensures
        r@ == seq![digit(d as nat)],
{
    proof {
        reveal_strlit("0");
        reveal_strlit("1");
        reveal_strlit("2");
        reveal_strlit("3");
        reveal_strlit("4");
        reveal_strlit("5");
        reveal_strlit("6");
        reveal_strlit("7");
        reveal_strlit("8");
        reveal_strlit("9");
    }
    let r = if d == 0 {
        "0"
    } else if d == 1 {
        "1"
    } else if d == 2 {
        "2"
    } else if d == 3 {
        "3"
    } else if d == 4 {
        "4"
    } else if d == 5 {
        "5"
    } else if d == 6 {
        "6"
    } else if d == 7 {
        "7"
    } else if d == 8 {
        "8"
    } else {
        "9"
    };
    assert(r@ =~= seq![digit(d as nat)]);
    r
}

/// Appends the decimal digits of `n`.
pub fn push_decimal(out: &mut String, n: u64)
    ensures
        final(out)@ == old(out)@ + decimal(n as nat),
    decreases n,
{
    if n < 10 {
        out.append(digit_text(n));
    } else {
        push_decimal(out, n / 10);
        out.append(digit_text(n % 10));
    }
    assert(out@ =~= old(out)@ + decimal(n as nat));
}

/// The last `width` decimal digits of `n`, with leading zeros.
pub open spec fn padded(n: nat, width: nat) -> Seq<char>
    decreases width,
{
    if width == 0 {
        Seq::empty()
    } else {
        padded(n / 10, (width - 1) as nat).push(digit(n % 10))
    }
}

/// Appends the last `width` decimal digits of `n`, with leading zeros.
pub fn push_padded(out: &mut String, n: u64, width: usize)
    ensures
        final(out)@ == old(out)@ + padded(n as nat, width as nat),
    decreases width,
{
    if width > 0 {
        push_padded(out, n / 10, width - 1);
        out.append(digit_text(n % 10));
    }
    assert(out@ =~= old(out)@ + padded(n as nat, width as nat));
}

/// Whether a character is a decimal digit.
pub open spec fn is_digit(c: char) -> bool {
    48 <= c as u32 <= 57
}

/// A decimal digit is an ASCII character.
pub proof fn digits_are_ascii(c: char)
    requires
        is_digit(c),
    ensures
        '0' <= c <= '9',
        c as u8 == c as u32,
{
}

/// The number that decimal digits stand for.
pub open spec fn decimal_value(s: Seq<char>) -> nat
    decreases s.len(),
{
    if s.len() == 0 {
        0
    } else {
        decimal_value(s.drop_last()) * 10 + (s.last() as u32 - 48) as nat
    }
}

/// The digits of a number: what is left without a plus sign before it.
pub open spec fn without_plus(t: Seq<char>) -> Seq<char> {
    if t.len() > 0 && t[0] == '+' {
        t.drop_first()
    } else {
        t
    }
}

/// The 64-bit number that a text stands for: decimal digits, at least one, with or without a plus
/// sign before them.
pub open spec fn parsed_u64(t: Seq<char>) -> Option<u64> {
    let d = without_plus(t);
    if d.len() > 0 && (forall|i: int| 0 <= i < d.len() ==> is_digit(#[trigger] d[i]))
        && decimal_value(d) <= u64::MAX {
        Some(decimal_value(d) as u64)
    } else {
        None
    }
}

proof fn value_grows(s: Seq<char>, n: int)
    requires
        0 <= n <= s.len(),
        forall|i: int| 0 <= i < s.len() ==> is_digit(#[trigger] s[i]),
    ensures
        decimal_value(s.take(n)) <= decimal_value(s),
    decreases s.len(),
{
    if n < s.len() {
        assert(s.drop_last().take(n) =~= s.take(n));
        assert forall|i: int| 0 <= i < s.drop_last().len() implies is_digit(
            #[trigger] s.drop_last()[i],
        ) by {
            assert(is_digit(s[i]));
        }
        value_grows(s.drop_last(), n);
        assert(is_digit(s[s.len() - 1]));
    } else {
        assert(s.take(n) =~= s);
    }
}

/// Reads a 64-bit number from the characters of a text.
pub fn parse_u64_chars(chars: &[char]) -> (r: Option<u64>)
    ensures
        r == parsed_u64(chars@),
{
    let start: usize = if chars.len() > 0 && chars[0] == '+' {
        1
    } else {
        0
    };
    let ghost d = without_plus(chars@);
    assert(d =~= chars@.skip(start as int));
    if start == chars.len() {
        return None;
    }
    let mut value: u64 = 0;
    let mut i: usize = start;
    while i < chars.len()
        invariant
            start <= i <= chars@.len(),
            start < chars@.len(),
            d == chars@.skip(start as int),
            d == without_plus(chars@),
            forall|k: int| 0 <= k < i - start ==> is_digit(#[trigger] d[k]),
            value == decimal_value(d.take(i - start)),
        decreases chars@.len() - i,
    {
        let c: u32 = chars[i] as u32;
        assert(d[i - start] == chars@[i as int]);
        assert(d.take(i - start + 1).drop_last() =~= d.take(i - start));
        if c < 48 || c > 57 {
            assert(!is_digit(d[i - start]));
            return None;
        }
        let v: u64 = (c - 48) as u64;
        assert(decimal_value(d.take(i - start + 1)) == value * 10 + v);
        if value > 0x1999_9999_9999_9999 || value * 10 > u64::MAX - v {
            proof {
                if forall|k: int| 0 <= k < d.len() ==> is_digit(#[trigger] d[k]) {
                    value_grows(d, i - start + 1);
                }
            }
            return None;
        }
        value = value * 10 + v;
        i += 1;
    }
    assert(d.take(i - start) =~= d);
    Some(value)
}

/// Reads a 64-bit number.
pub fn parse_u64(t: &str) -> (r: Option<u64>)
    ensures
        r == parsed_u64(t@),
{
    let chars = to_chars(t);
    parse_u64_chars(chars.as_slice())
}

/// Decimal digits stand for the number again.
pub proof fn decimal_is_read_back(n: nat)
    ensures
        forall|i: int| 0 <= i < decimal(n).len() ==> is_digit(#[trigger] decimal(n)[i]),
        decimal_value(decimal(n)) == n,
    decreases n,
{
    reveal_with_fuel(decimal_value, 2);
    if n >= 10 {
        decimal_is_read_back(n / 10);
        assert(decimal(n).drop_last() =~= decimal(n / 10));
    } else {
        assert(decimal(n).drop_last() =~= Seq::empty());
    }
}

/// Padded digits stand for the number again, as long as it has no more digits than are kept.
pub proof fn padded_is_read_back(n: nat, width: nat)
    requires
        n < vstd::arithmetic::power::pow(10, width),
    ensures
        padded(n, width).len() == width,
        forall|i: int| 0 <= i < width ==> is_digit(#[trigger] padded(n, width)[i]),
        decimal_value(padded(n, width)) == n,
    decreases width,
{
    reveal(vstd::arithmetic::power::pow);
    if width > 0 {
        let w = (width - 1) as nat;
        assert(vstd::arithmetic::power::pow(10, width) == 10 * vstd::arithmetic::power::pow(10, w));
        padded_is_read_back(n / 10, w);
        assert(padded(n, width).drop_last() =~= padded(n / 10, w));
    }
}

/// An ASCII capital letter's small letter; any other byte itself.
pub open spec fn ascii_lower(b: u8) -> u8 {
    if 65 <= b <= 90 {
        (b + 32) as u8
    } else {
        b
    }
}

/// Whether two texts differ at most in the case of ASCII letters.
pub open spec fn same_ignoring_ascii_case(a: Seq<char>, b: Seq<char>) -> bool {
    let x = utf8(a);
    let y = utf8(b);
    x.len() == y.len() && forall|i: int|
        0 <= i < x.len() ==> ascii_lower(#[trigger] x[i]) == ascii_lower(y[i])
}

fn lower(b: u8) -> (r: u8)
    ensures
        r == ascii_lower(b),
{
    if 65 <= b && b <= 90 {
        b + 32
    } else {
        b
    }
}

/// Whether two texts differ at most in the case of ASCII letters.
pub fn equal_ignoring_ascii_case(a: &str, b: &str) -> (r: bool)
    ensures
        r == same_ignoring_ascii_case(a@, b@),
{
    let x = a.as_bytes();
    let y = b.as_bytes();
    if x.len() != y.len() {
        return false;
    }
    let mut i: usize = 0;
    while i < x.len()
        invariant
            i <= x@.len(),
            x@.len() == y@.len(),
            x@ == utf8(a@),
            y@ == utf8(b@),
            forall|j: int| 0 <= j < i ==> ascii_lower(#[trigger] x@[j]) == ascii_lower(y@[j]),
        decreases x@.len() - i,
    {
        if lower(x[i]) != lower(y[i]) {
            assert(ascii_lower(x@[i as int]) != ascii_lower(y@[i as int]));
            return false;
        }
        i += 1;
    }
    true
}

/// Whether the bytes of `word` stand at place `i` of `data`, with the ASCII capitals of `data`
/// made small.
pub open spec fn lowered_word_at(data: Seq<u8>, word: Seq<u8>, i: int) -> bool {
    &&& 0 <= i
    &&& i + word.len() <= data.len()
    &&& forall|k: int| 0 <= k < word.len() ==> ascii_lower(data[i + k]) == #[trigger] word[k]
}

/// Whether a text, with its ASCII capitals made small, contains a word.
pub open spec fn contains_lowered(text: Seq<char>, word: Seq<char>) -> bool {
    exists|i: int| #[trigger] lowered_word_at(utf8(text), utf8(word), i)
}

/// Whether a text, with its ASCII capitals made small, contains a word.
pub fn lowered_contains(text: &str, word: &str) -> (r: bool)
    ensures
        r == contains_lowered(text@, word@),
{
    let data = text.as_bytes();
    let w = word.as_bytes();
    if w.len() > data.len() {
        return false;
    }
    let mut i: usize = 0;
    while i <= data.len() - w.len()
        invariant
            data@ == utf8(text@),
            w@ == utf8(word@),
            w@.len() <= data@.len(),
            i <= data@.len() - w@.len() + 1,
            forall|j: int| 0 <= j < i ==> !#[trigger] lowered_word_at(data@, w@, j),
        decreases data@.len() - w@.len() + 1 - i,
    {
        let mut k: usize = 0;
        while k < w.len() && lower(data[i + k]) == w[k]
            invariant
                i + w@.len() <= data.len(),
                k <= w@.len(),
                forall|j: int| 0 <= j < k ==> ascii_lower(data@[i + j]) == #[trigger] w@[j],
            decreases w@.len() - k,
        {
            k += 1;
        }
        if k == w.len() {
            assert(lowered_word_at(data@, w@, i as int));
            return true;
        }
        assert(ascii_lower(data@[i + k]) != w@[k as int]);
        assert(!lowered_word_at(data@, w@, i as int));
        if i == data.len() - w.len() {
            assert forall|j: int| !#[trigger] lowered_word_at(data@, w@, j) by {}
            return false;
        }
        i += 1;
    }
    false
}

/// Whether `word` stands at place `i` of a text.
pub open spec fn word_at(t: Seq<char>, word: Seq<char>, i: int) -> bool {
    &&& 0 <= i
    &&& i + word.len() <= t.len()
    &&& t.subrange(i, i + word.len()) == word
}

/// Whether a text contains a word.
pub open spec fn contains_word(t: Seq<char>, word: Seq<char>) -> bool {
    exists|i: int| #[trigger] word_at(t, word, i)
}

/// Where, from place `i` on, a word first stands in a text.
pub open spec fn first_word_from(t: Seq<char>, word: Seq<char>, i: int) -> Option<int>
    decreases t.len() - i + 1,
{
    if i < 0 || i + word.len() > t.len() {
        None
    } else if t.subrange(i, i + word.len()) == word {
        Some(i)
    } else {
        first_word_from(t, word, i + 1)
    }
}

/// A text with each occurrence of a word, from left to right, replaced by another.
pub open spec fn replaced(t: Seq<char>, word: Seq<char>, by: Seq<char>) -> Seq<char>
    decreases t.len(),
{
    match first_word_from(t, word, 0) {
        Some(i) => if word.len() > 0 && 0 <= i && i + word.len() <= t.len() {
            t.take(i) + by + replaced(t.skip((i + word.len()) as int), word, by)
        } else {
            t
        },
        None => t,
    }
}

/// Whether a character is the given one.
pub open spec fn is_char(c: char) -> spec_fn(char) -> bool {
    |x: char| x == c
}

/// The parts of a text before and after the first occurrence of a character.
pub open spec fn split_at_first(t: Seq<char>, c: char) -> Option<(Seq<char>, Seq<char>)> {
    match crate::search::first_index(t, is_char(c)) {
        Some(i) => Some((t.take(i), t.skip(i + 1))),
        None => None,
    }
}

/// A text without the given character at its end.
pub open spec fn trimmed_end(t: Seq<char>, c: char) -> Seq<char>
    decreases t.len(),
{
    if t.len() > 0 && t.last() == c {
        trimmed_end(t.drop_last(), c)
    } else {
        t
    }
}

proof fn first_word_is_first(t: Seq<char>, word: Seq<char>, i: int)
    requires
        0 <= i,
    ensures
        match first_word_from(t, word, i) {
            Some(k) => i <= k && word_at(t, word, k) && forall|j: int|
                i <= j < k ==> !#[trigger] word_at(t, word, j),
            None => forall|j: int| i <= j ==> !#[trigger] word_at(t, word, j),
        },
    decreases t.len() - i + 1,
{
    if i + word.len() <= t.len() && t.subrange(i, i + word.len()) != word {
        first_word_is_first(t, word, i + 1);
    }
}

/// The characters of a text.
pub fn to_chars(t: &str) -> (r: Vec<char>)
    ensures
        r@ == t@,
{
    let mut out: Vec<char> = Vec::new();
    let n: usize = t.unicode_len();
    let mut rest = t.chars();
    let mut i: usize = 0;
    while i < n
        invariant
            n == t@.len(),
            i <= n,
            out@ == t@.take(i as int),
            vstd::std_specs::iter::IteratorSpec::remaining(&rest) == t@.skip(i as int),
        decreases n - i,
    {
        match rest.next() {
            Some(c) => {
                out.push(c);
            },
            None => {},
        }
        i += 1;
    }
    out
}

/// Where a word first stands in a text.
pub fn find_word(t: &str, word: &str) -> (r: Option<usize>)
    ensures
        match r {
            Some(i) => first_word_from(t@, word@, 0) == Some(i as int) && i + word@.len()
                <= t@.len(),
            None => first_word_from(t@, word@, 0) is None,
        },
        r is Some == contains_word(t@, word@),
{
    let chars = to_chars(t);
    let w = to_chars(word);
    proof {
        first_word_is_first(t@, word@, 0);
    }
    if w.len() > chars.len() {
        return None;
    }
    let last: usize = chars.len() - w.len();
    let mut i: usize = 0;
    loop
        invariant
            chars@ == t@,
            w@ == word@,
            w.len() <= chars.len(),
            last == chars.len() - w.len(),
            i <= last,
            first_word_from(t@, word@, 0) == first_word_from(t@, word@, i as int),
            contains_word(t@, word@) == (first_word_from(t@, word@, 0) is Some),
        decreases last - i,
    {
        let mut k: usize = 0;
        while k < w.len() && chars[i + k] == w[k]
            invariant
                i + w.len() <= chars.len(),
                k <= w.len(),
                forall|j: int| 0 <= j < k ==> chars@[i + j] == #[trigger] w@[j],
            decreases w.len() - k,
        {
            k += 1;
        }
        if k == w.len() {
            assert(t@.subrange(i as int, i + word@.len()) =~= word@);
            return Some(i);
        }
        assert(t@.subrange(i as int, i + word@.len())[k as int] != word@[k as int]);
        if i == last {
            assert(first_word_from(t@, word@, i + 1) is None);
            return None;
        }
        i += 1;
    }
}

/// Whether a text contains a word.
pub fn text_contains(t: &str, word: &str) -> (r: bool)
    ensures
        r == contains_word(t@, word@),
{
    find_word(t, word).is_some()
}

/// Replaces each occurrence of a word, from left to right, by another.
pub fn replace_word(t: &str, word: &str, by: &str) -> (r: String)
    requires
        word@.len() > 0,
    ensures
        r@ == replaced(t@, word@, by@),
    decreases t@.len(),
{
    match find_word(t, word) {
        Some(i) => {
            let n: usize = t.unicode_len();
            let m: usize = word.unicode_len();
            let mut out = t.substring_char(0, i).to_owned();
            assert(t@.subrange(0, i as int) =~= t@.take(i as int));
            out.append(by);
            let rest = t.substring_char(i + m, n);
            assert(rest@ =~= t@.skip((i + word@.len()) as int));
            let tail = replace_word(rest, word, by);
            out.append(tail.as_str());
            out
        },
        None => t.to_owned(),
    }
}

/// Splits a text at the first occurrence of a character.
pub fn split_once(t: &str, c: char) -> (r: Option<(&str, &str)>)
    ensures
        match split_at_first(t@, c) {
            Some((a, b)) => r matches Some((x, y)) && x@ == a && y@ == b,
            None => r is None,
        },
{
    let chars = to_chars(t);
    let f = |x: &char| -> (b: bool)
        ensures
            b == is_char(c)(*x),
        { *x == c };
    match crate::search::find_first(chars.as_slice(), f, Ghost(is_char(c))) {
        Some(i) => {
            let n: usize = t.unicode_len();
            let head = t.substring_char(0, i);
            let tail = t.substring_char(i + 1, n);
            assert(head@ =~= t@.take(i as int));
            assert(tail@ =~= t@.skip(i + 1));
            Some((head, tail))
        },
        None => None,
    }
}

/// Leaves out the given character at the end of a text.
pub fn trim_end(t: &str, c: char) -> (r: &str)
    ensures
        r@ == trimmed_end(t@, c),
{
    let chars = to_chars(t);
    let mut n: usize = chars.len();
    assert(t@.take(n as int) =~= t@);
    while n > 0 && chars[n - 1] == c
        invariant
            chars@ == t@,
            n <= chars.len(),
            trimmed_end(t@.take(n as int), c) == trimmed_end(t@, c),
        decreases n,
    {
        assert(t@.take(n as int).drop_last() =~= t@.take(n - 1));
        n -= 1;
    }
    let r = t.substring_char(0, n);
    assert(r@ =~= t@.take(n as int));
    r
}

/// What follows `prefix` in a text that starts with it.
pub fn strip_prefix<'a>(t: &'a str, prefix: &str) -> (r: Option<&'a str>)
    ensures
        r is Some == prefix@.is_prefix_of(t@),
        r matches Some(rest) ==> prefix@ + rest@ == t@,
{
    let n: usize = t.unicode_len();
    let m: usize = prefix.unicode_len();
    if m > n {
        return None;
    }
    if same_text(t.substring_char(0, m), prefix) {
        let rest = t.substring_char(m, n);
        assert(prefix@ + rest@ =~= t@);
        Some(rest)
    } else {
        None
    }
}

/// Whether a character is white space.
pub uninterp spec fn white_space(c: char) -> bool;

/// `char::is_whitespace`: whether a character is white space, a function of the character alone.
#[verifier::external_body]
fn is_white_space(c: char) -> (r: bool)
    ensures
        r == white_space(c),
{
    c.is_whitespace()
}

/// A text without the white space before it.
pub open spec fn trimmed_left(s: Seq<char>) -> Seq<char>
    decreases s.len(),
{
    if s.len() > 0 && white_space(s[0]) {
        trimmed_left(s.drop_first())
    } else {
        s
    }
}

/// A text without the white space after it.
pub open spec fn trimmed_right(s: Seq<char>) -> Seq<char>
    decreases s.len(),
{
    if s.len() > 0 && white_space(s.last()) {
        trimmed_right(s.drop_last())
    } else {
        s
    }
}

/// Leaves out the white space before and after a text.
pub fn trim(t: &str) -> (r: &str)
    ensures
        r@ == trimmed_right(trimmed_left(t@)),
{
    let chars = to_chars(t);
    let mut a: usize = 0;
    assert(t@.skip(0) =~= t@);
    while a < chars.len() && is_white_space(chars[a])
        invariant
            chars@ == t@,
            a <= chars@.len(),
            trimmed_left(t@.skip(a as int)) == trimmed_left(t@),
        decreases chars@.len() - a,
    {
        assert(t@.skip(a as int).drop_first() =~= t@.skip(a + 1));
        a += 1;
    }
    let ghost left = trimmed_left(t@);
    assert(left == t@.skip(a as int));
    let mut b: usize = chars.len();
    assert(left.take(b - a) =~= left);
    while b > a && is_white_space(chars[b - 1])
        invariant
            chars@ == t@,
            a <= b <= chars@.len(),
            left == t@.skip(a as int),
            trimmed_right(left.take(b - a)) == trimmed_right(left),
        decreases b,
    {
        assert(left.take(b - a).drop_last() =~= left.take(b - 1 - a));
        assert(left.take(b - a).last() == chars@[b - 1]);
        b -= 1;
    }
    assert(left.take(b - a).len() == b - a);
    if b > a {
        assert(left.take(b - a).last() == chars@[b - 1]);
    }
    let r = t.substring_char(a, b);
    assert(r@ =~= left.take(b - a));
    r
}

/// Where the last word of a text starts, or its end where it ends in white space.
pub open spec fn word_start(s: Seq<char>) -> int
    decreases s.len(),
{
    if s.len() == 0 || white_space(s.last()) {
        s.len() as int
    } else {
        word_start(s.drop_last())
    }
}

/// The words of a text: what stands between white space.
pub open spec fn words(s: Seq<char>) -> Seq<Seq<char>>
    decreases s.len(),
{
    if s.len() == 0 {
        Seq::empty()
    } else if white_space(s.last()) {
        words(s.drop_last())
    } else {
        let k = word_start(s.drop_last());
        if 0 <= k < s.len() {
            words(s.take(k)).push(s.skip(k))
        } else {
            Seq::empty()
        }
    }
}

/// The texts of a list of characters.
pub open spec fn char_texts(v: Seq<Vec<char>>) -> Seq<Seq<char>> {
    v.map_values(|x: Vec<char>| x@)
}

proof fn word_start_is_within(s: Seq<char>)
    ensures
        0 <= word_start(s) <= s.len(),
        word_start(s) < s.len() ==> s.len() > 0 && !white_space(s.last()),
        word_start(s) > 0 && word_start(s) < s.len() ==> white_space(s[word_start(s) - 1]),
        s.len() > 0 && !white_space(s.last()) ==> word_start(s) == word_start(s.drop_last())
            && word_start(s) < s.len(),
    decreases s.len(),
{
    if s.len() > 0 && !white_space(s.last()) {
        word_start_is_within(s.drop_last());
        let k = word_start(s.drop_last());
        if k == s.len() - 1 && k > 0 {
            assert(white_space(s.drop_last().last()));
        }
    }
}

proof fn last_word_is_a_word(s: Seq<char>)
    ensures
        word_start(s) < s.len() ==> words(s) == words(s.take(word_start(s))).push(
            s.skip(word_start(s)),
        ),
{
    word_start_is_within(s);
}

/// Splits a text into words.
pub fn split_words(s: &[char]) -> (r: Vec<Vec<char>>)
    ensures
        char_texts(r@) == words(s@),
{
    let mut out: Vec<Vec<char>> = Vec::new();
    let mut word: Vec<char> = Vec::new();
    let mut i: usize = 0;
    assert(char_texts(out@) =~= words(s@.take(0)));
    while i < s.len()
        invariant
            i <= s@.len(),
            word_start(s@.take(i as int)) == i - word@.len(),
            0 <= i - word@.len(),
            word@ == s@.take(i as int).skip(i - word@.len()),
            char_texts(out@) == words(s@.take(i - word@.len())),
        decreases s@.len() - i,
    {
        let c: char = s[i];
        let ghost t = s@.take(i as int);
        let ghost u = s@.take(i + 1);
        let ghost k = i - word@.len();
        proof {
            assert(u.drop_last() =~= t);
            assert(u.last() == c);
            word_start_is_within(t);
            word_start_is_within(u);
            assert(t.take(k) =~= s@.take(k));
        }
        if is_white_space(c) {
            if word.len() > 0 {
                let ghost before = out@;
                let ghost w = word@;
                proof {
                    last_word_is_a_word(t);
                    assert(words(t) == words(s@.take(k)).push(w));
                }
                out.push(word);
                word = Vec::new();
                assert(char_texts(out@) =~= char_texts(before).push(w));
            } else {
                assert(s@.take(k) =~= t);
            }
            assert(words(u) == words(t));
            assert(u =~= s@.take(i + 1 - 0));
        } else {
            word.push(c);
            assert(word@ =~= u.skip(k));
        }
        i += 1;
    }
    proof {
        assert(s@.take(i as int) =~= s@);
        last_word_is_a_word(s@);
        word_start_is_within(s@);
        assert(s@.take(i - word@.len()) == s@.take(word_start(s@)));
    }
    if word.len() > 0 {
        let ghost before = out@;
        let ghost w = word@;
        out.push(word);
        assert(char_texts(out@) =~= char_texts(before).push(w));
    }
    out
}

/// A line without the carriage return at its end.
pub open spec fn without_return(s: Seq<char>) -> Seq<char> {
    if s.len() > 0 && s.last() == '\r' {
        s.drop_last()
    } else {
        s
    }
}

/// The lines of a text that end in a line feed, without their ends.
pub open spec fn ended_lines(s: Seq<char>) -> Seq<Seq<char>>
    decreases s.len(),
{
    if s.len() == 0 {
        Seq::empty()
    } else if s.last() == '\n' {
        ended_lines(s.drop_last()).push(without_return(open_line(s.drop_last())))
    } else {
        ended_lines(s.drop_last())
    }
}

/// What follows the last line feed of a text.
pub open spec fn open_line(s: Seq<char>) -> Seq<char>
    decreases s.len(),
{
    if s.len() == 0 || s.last() == '\n' {
        Seq::empty()
    } else {
        open_line(s.drop_last()).push(s.last())
    }
}

/// The lines of a text. A line ends in a line feed, or in a carriage return and a line feed; the
/// last one need not.
pub open spec fn lines(s: Seq<char>) -> Seq<Seq<char>> {
    if open_line(s).len() > 0 {
        ended_lines(s).push(open_line(s))
    } else {
        ended_lines(s)
    }
}

/// Splits a text into lines.
pub fn split_lines(t: &str) -> (r: Vec<Vec<char>>)
    ensures
        char_texts(r@) == lines(t@),
{
    let chars = to_chars(t);
    let mut out: Vec<Vec<char>> = Vec::new();
    let mut line: Vec<char> = Vec::new();
    let mut i: usize = 0;
    assert(char_texts(out@) =~= ended_lines(t@.take(0)));
    while i < chars.len()
        invariant
            chars@ == t@,
            i <= chars@.len(),
            line@ == open_line(t@.take(i as int)),
            char_texts(out@) == ended_lines(t@.take(i as int)),
        decreases chars@.len() - i,
    {
        let c: char = chars[i];
        assert(t@.take(i + 1).drop_last() =~= t@.take(i as int));
        if c == '\n' {
            if line.len() > 0 && line[line.len() - 1] == '\r' {
                let _ = line.pop();
            }
            let ghost before = out@;
            let ghost l = line@;
            assert(l =~= without_return(open_line(t@.take(i as int))));
            out.push(line);
            assert(char_texts(out@) =~= char_texts(before).push(l));
            line = Vec::new();
        } else {
            line.push(c);
        }
        i += 1;
    }
    assert(t@.take(i as int) =~= t@);
    if line.len() > 0 {
        let ghost before = out@;
        let ghost l = line@;
        out.push(line);
        assert(char_texts(out@) =~= char_texts(before).push(l));
    }
    out
}

/// Whether a line starts with a word.
pub fn line_starts_with(line: &[char], word: &str) -> (r: bool)
    ensures
        r == word@.is_prefix_of(line@),
{
    let w = to_chars(word);
    if line.len() < w.len() {
        return false;
    }
    let mut i: usize = 0;
    while i < w.len()
        invariant
            w@ == word@,
            i <= w@.len() <= line@.len(),
            forall|k: int| 0 <= k < i ==> w@[k] == line@[k],
        decreases w@.len() - i,
    {
        if w[i] != line[i] {
            assert(word@[i as int] != line@.subrange(0, word@.len() as int)[i as int]);
            return false;
        }
        i += 1;
    }
    assert(word@ =~= line@.subrange(0, word@.len() as int));
    true
}

/// A text is split at the first place where the character stands: the parts and the character
/// make up the text, and the first part does not hold it.
pub proof fn parts_make_up_the_text(t: Seq<char>, c: char, a: Seq<char>, b: Seq<char>)
    ensures
        split_at_first(t, c) == Some((a, b)) <==> t == a.push(c) + b && (forall|i: int|
            0 <= i < a.len() ==> #[trigger] a[i] != c),
        split_at_first(t, c) is None <==> forall|i: int| 0 <= i < t.len() ==> #[trigger] t[i] != c,
{
    crate::search::first_index_is_first(t, is_char(c));
    match crate::search::first_index(t, is_char(c)) {
        Some(i) => {
            assert(is_char(c)(t[i]));
            assert(t =~= t.take(i).push(c) + t.skip(i + 1));
            assert forall|j: int| 0 <= j < i implies #[trigger] t.take(i)[j] != c by {
                assert(!is_char(c)(t[j]));
            }
        },
        None => {
            assert forall|j: int| 0 <= j < t.len() implies #[trigger] t[j] != c by {
                assert(!is_char(c)(t[j]));
            }
        },
    }
    if t == a.push(c) + b && (forall|i: int| 0 <= i < a.len() ==> #[trigger] a[i] != c) {
        let n = a.len() as int;
        assert(t[n] == c);
        assert forall|j: int| 0 <= j < n implies !is_char(c)(#[trigger] t[j]) by {
            assert(t[j] == a[j]);
        }
        crate::search::first_index_is(t, is_char(c), n);
        assert(t.take(n) =~= a);
        assert(t.skip(n + 1) =~= b);
    }
}

/// What is trimmed away at an end is that character, and nothing of it is left there.
pub proof fn trimming_takes_one_character_away(t: Seq<char>, c: char)
    ensures
        trimmed_end(t, c).is_prefix_of(t),
        forall|i: int| trimmed_end(t, c).len() <= i < t.len() ==> #[trigger] t[i] == c,
        trimmed_end(t, c).len() > 0 ==> trimmed_end(t, c).last() != c,
    decreases t.len(),
{
    if t.len() > 0 && t.last() == c {
        trimming_takes_one_character_away(t.drop_last(), c);
        assert forall|i: int| trimmed_end(t, c).len() <= i < t.len() implies #[trigger] t[i]
            == c by {
            if i < t.len() - 1 {
                assert(t.drop_last()[i] == c);
            }
        }
    }
}

/// Of white space at the ends nothing is left, and nothing else is taken away: `from` is where
/// what is left begins.
pub proof fn trimming_takes_white_space_away(t: Seq<char>) -> (from: int)
    ensures
        ({
            let r = trimmed_right(trimmed_left(t));
            &&& 0 <= from <= from + r.len() <= t.len()
            &&& t.subrange(from, from + r.len()) == r
            &&& forall|i: int| 0 <= i < from ==> white_space(#[trigger] t[i])
            &&& forall|i: int| from + r.len() <= i < t.len() ==> white_space(#[trigger] t[i])
            &&& r.len() > 0 ==> !white_space(r[0]) && !white_space(r.last())
        }),
    decreases t.len(),
{
    if t.len() > 0 && white_space(t[0]) {
        let rest = t.drop_first();
        let k = trimming_takes_white_space_away(rest);
        let r = trimmed_right(trimmed_left(t));
        assert(t.subrange(k + 1, k + 1 + r.len()) =~= rest.subrange(k, k + r.len()));
        assert forall|i: int| 0 <= i < k + 1 implies white_space(#[trigger] t[i]) by {
            if i > 0 {
                assert(white_space(rest[i - 1]));
            }
        }
        assert forall|i: int| k + 1 + r.len() <= i < t.len() implies white_space(
            #[trigger] t[i],
        ) by {
            assert(white_space(rest[i - 1]));
        }
        k + 1
    } else {
        right_end_is_trimmed(t);
        0
    }
}

proof fn right_end_is_trimmed(t: Seq<char>)
    ensures
        trimmed_right(t).len() <= t.len(),
        t.subrange(0, trimmed_right(t).len() as int) == trimmed_right(t),
        forall|i: int| trimmed_right(t).len() <= i < t.len() ==> white_space(#[trigger] t[i]),
        trimmed_right(t).len() > 0 ==> !white_space(trimmed_right(t).last()),
    decreases t.len(),
{
    if t.len() > 0 && white_space(t.last()) {
        let s = t.drop_last();
        right_end_is_trimmed(s);
        let n = trimmed_right(t).len() as int;
        assert(t.subrange(0, n) =~= s.subrange(0, n));
        assert forall|i: int| n <= i < t.len() implies white_space(#[trigger] t[i]) by {
            if i < s.len() {
                assert(white_space(s[i]));
            }
        }
    } else {
        assert(t.subrange(0, t.len() as int) =~= t);
    }
}

/// A number is read from its digits, with or without a plus sign before them. What holds anything
/// else, or nothing, is no number.
pub proof fn numbers_are_read_from_digits(n: u64, t: Seq<char>, i: int)
    ensures
        parsed_u64(decimal(n as nat)) == Some(n),
        parsed_u64(seq!['+'] + decimal(n as nat)) == Some(n),
        t.len() == 0 ==> parsed_u64(t) is None,
        0 < i < t.len() && !('0' <= t[i] <= '9') ==> parsed_u64(t) is None,
        t.len() > 0 && t[0] != '+' && !('0' <= t[0] <= '9') ==> parsed_u64(t) is None,
{
    let d = decimal(n as nat);
    decimal_is_read_back(n as nat);
    assert(is_digit(d[0]));
    assert(without_plus(d) == d);
    let p = seq!['+'] + d;
    assert(p[0] == '+');
    assert(without_plus(p) =~= d);
    if 0 < i < t.len() && !('0' <= t[i] <= '9') {
        let w = without_plus(t);
        let k = if t[0] == '+' { i - 1 } else { i };
        assert(w[k] == t[i]);
        if is_digit(w[k]) {
            digits_are_ascii(w[k]);
        }
    }
    if t.len() > 0 && t[0] != '+' && !('0' <= t[0] <= '9') {
        assert(without_plus(t)[0] == t[0]);
        if is_digit(t[0]) {
            digits_are_ascii(t[0]);
        }
    }
}

/// Two texts are the same but for the case of ASCII letters, or they are not, whichever is looked
/// at first; and a text is the same as itself.
pub proof fn case_does_not_count(a: Seq<char>, b: Seq<char>, i: int)
    ensures
        same_ignoring_ascii_case(a, a),
        same_ignoring_ascii_case(a, b) <==> same_ignoring_ascii_case(b, a),
        same_ignoring_ascii_case(a, b) && 0 <= i < utf8(a).len() ==> utf8(a)[i] == utf8(b)[i]
            || utf8(a)[i] == utf8(b)[i] + 32 && 97 <= utf8(a)[i] <= 122 || utf8(b)[i] == utf8(a)[i]
            + 32 && 97 <= utf8(b)[i] <= 122,
        forall|c: u8| 65 <= c <= 90 ==> #[trigger] ascii_lower(c) == c + 32,
        forall|c: u8| c < 65 || c > 90 ==> #[trigger] ascii_lower(c) == c,
{
    let x = utf8(a);
    let y = utf8(b);
    if same_ignoring_ascii_case(a, b) {
        assert forall|k: int| 0 <= k < y.len() implies ascii_lower(#[trigger] y[k]) == ascii_lower(
            x[k],
        ) by {
            assert(ascii_lower(x[k]) == ascii_lower(y[k]));
        }
        if 0 <= i < x.len() {
            assert(ascii_lower(x[i]) == ascii_lower(y[i]));
        }
    }
    if same_ignoring_ascii_case(b, a) {
        assert forall|k: int| 0 <= k < x.len() implies ascii_lower(#[trigger] x[k]) == ascii_lower(
            y[k],
        ) by {
            assert(ascii_lower(y[k]) == ascii_lower(x[k]));
        }
    }
}

/// What holds the word is replaced where the word stands first, and then in what follows; what
/// does not hold it stays.
pub proof fn words_are_replaced_from_the_left(
    a: Seq<char>,
    word: Seq<char>,
    b: Seq<char>,
    by: Seq<char>,
)
    requires
        word.len() > 0,
        forall|j: int| 0 <= j < a.len() ==> !#[trigger] word_at(a + word + b, word, j),
    ensures
        replaced(a + word + b, word, by) == a + by + replaced(b, word, by),
        !contains_word(b, word) ==> replaced(b, word, by) == b,
{
    let t = a + word + b;
    let n = a.len() as int;
    first_word_is_first(t, word, 0);
    assert(t.subrange(n, n + word.len()) =~= word);
    assert(word_at(t, word, n));
    let k = first_word_from(t, word, 0)->0;
    assert(k == n) by {
        if k < n {
            assert(!word_at(t, word, k));
        }
    }
    assert(t.take(n) =~= a);
    assert(t.skip(n + word.len()) =~= b);
    first_word_is_first(b, word, 0);
    if let Some(m) = first_word_from(b, word, 0) {
        assert(word_at(b, word, m));
    }
}

proof fn word_starts_behind_a_gap(a: Seq<char>, gap: char, b: Seq<char>)
    requires
        white_space(gap),
    ensures
        word_start(a.push(gap) + b) == a.len() + 1 + word_start(b),
    decreases b.len(),
{
    let s = a.push(gap) + b;
    if b.len() == 0 {
        assert(s =~= a.push(gap));
    } else {
        assert(s.last() == b.last());
        assert(s.drop_last() =~= a.push(gap) + b.drop_last());
        word_starts_behind_a_gap(a, gap, b.drop_last());
    }
}

/// White space parts a text: its words are those before the gap and then those behind it.
pub proof fn words_stand_between_gaps(a: Seq<char>, gap: char, b: Seq<char>)
    requires
        white_space(gap),
    ensures
        words(a.push(gap) + b) == words(a) + words(b),
    decreases b.len(),
{
    let s = a.push(gap) + b;
    if b.len() == 0 {
        assert(s =~= a.push(gap));
        assert(a.push(gap).drop_last() =~= a);
        assert(words(b) =~= Seq::<Seq<char>>::empty());
        assert(words(a) + words(b) =~= words(a));
    } else {
        assert(s.last() == b.last());
        assert(s.drop_last() =~= a.push(gap) + b.drop_last());
        if white_space(b.last()) {
            words_stand_between_gaps(a, gap, b.drop_last());
        } else {
            word_starts_behind_a_gap(a, gap, b.drop_last());
            word_start_is_within(b.drop_last());
            let k = word_start(b.drop_last());
            let m = a.len() + 1 + k;
            words_stand_between_gaps(a, gap, b.take(k));
            assert(s.take(m) =~= a.push(gap) + b.take(k));
            assert(s.skip(m) =~= b.skip(k));
            assert((words(a) + words(b.take(k))).push(b.skip(k)) =~= words(a) + words(
                b.take(k),
            ).push(b.skip(k)));
        }
    }
}

proof fn whole_words_start_first(t: Seq<char>)
    requires
        forall|i: int| 0 <= i < t.len() ==> !white_space(#[trigger] t[i]),
    ensures
        word_start(t) == 0,
    decreases t.len(),
{
    if t.len() > 0 {
        let s = t.drop_last();
        assert(!white_space(t[t.len() - 1]));
        assert forall|i: int| 0 <= i < s.len() implies !white_space(#[trigger] s[i]) by {
            assert(!white_space(t[i]));
        }
        whole_words_start_first(s);
    }
}

/// A text without white space is one word, and an empty one has none.
pub proof fn texts_without_gaps_are_words(t: Seq<char>)
    requires
        forall|i: int| 0 <= i < t.len() ==> !white_space(#[trigger] t[i]),
    ensures
        t.len() > 0 ==> words(t) == seq![t],
        t.len() == 0 ==> words(t).len() == 0,
{
    if t.len() > 0 {
        let s = t.drop_last();
        assert forall|i: int| 0 <= i < s.len() implies !white_space(#[trigger] s[i]) by {
            assert(!white_space(t[i]));
        }
        whole_words_start_first(s);
        assert(!white_space(t[t.len() - 1]));
        assert(t.take(0).len() == 0);
        assert(words(t.take(0)) =~= Seq::<Seq<char>>::empty());
        assert(t.skip(0) =~= t);
        assert(words(t) =~= seq![t]);
    }
}

proof fn lines_end_where_they_end(a: Seq<char>, b: Seq<char>)
    ensures
        ended_lines(a.push('\n') + b) == ended_lines(a.push('\n')) + ended_lines(b),
        open_line(a.push('\n') + b) == open_line(b),
    decreases b.len(),
{
    let s = a.push('\n') + b;
    if b.len() == 0 {
        assert(s =~= a.push('\n'));
        assert(ended_lines(b) =~= Seq::<Seq<char>>::empty());
        assert(ended_lines(a.push('\n')) + ended_lines(b) =~= ended_lines(a.push('\n')));
    } else {
        let c = b.drop_last();
        lines_end_where_they_end(a, c);
        assert(s.last() == b.last());
        assert(s.drop_last() =~= a.push('\n') + c);
        if b.last() == '\n' {
            let l = without_return(open_line(c));
            assert((ended_lines(a.push('\n')) + ended_lines(c)).push(l) =~= ended_lines(
                a.push('\n'),
            ) + ended_lines(c).push(l));
        }
    }
}

proof fn texts_without_ends_are_open(a: Seq<char>)
    requires
        forall|i: int| 0 <= i < a.len() ==> #[trigger] a[i] != '\n',
    ensures
        open_line(a) == a,
        ended_lines(a).len() == 0,
    decreases a.len(),
{
    if a.len() > 0 {
        let b = a.drop_last();
        assert(a[a.len() - 1] != '\n');
        assert forall|i: int| 0 <= i < b.len() implies #[trigger] b[i] != '\n' by {
            assert(a[i] != '\n');
        }
        texts_without_ends_are_open(b);
        assert(b.push(a.last()) =~= a);
    } else {
        assert(open_line(a) =~= a);
    }
}

/// A text is parted into lines at the ends of lines. A carriage return before the end is not part
/// of the line; what is left at the end is a line where there is anything left.
pub proof fn texts_are_parted_into_lines(a: Seq<char>, b: Seq<char>)
    requires
        forall|i: int| 0 <= i < a.len() ==> #[trigger] a[i] != '\n',
    ensures
        lines(a.push('\n') + b) == seq![
            if a.len() > 0 && a.last() == '\r' {
                a.drop_last()
            } else {
                a
            },
        ] + lines(b),
        a.len() > 0 ==> lines(a) == seq![a],
        a.len() == 0 ==> lines(a).len() == 0,
{
    texts_without_ends_are_open(a);
    lines_end_where_they_end(a, b);
    let first = without_return(a);
    assert(a.push('\n').drop_last() =~= a);
    assert(ended_lines(a.push('\n')) =~= seq![first]);
    if open_line(b).len() > 0 {
        assert((seq![first] + ended_lines(b)).push(open_line(b)) =~= seq![first] + ended_lines(
            b,
        ).push(open_line(b)));
    }
    assert(lines(a.push('\n') + b) =~= seq![first] + lines(b));
    if a.len() > 0 {
        assert(lines(a) =~= seq![a]);
    }
}

} // verus!
