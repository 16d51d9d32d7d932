//! Text primitives: searching, replacing, trimming and reading numbers, each with a
//! mathematical statement of what it does on sequences of characters.
use vstd::prelude::*;
use vstd::utf8::{decode_utf8, valid_utf8};

verus! {

/// `String::push`, which appends one character to the end of the string.
pub assume_specification[ String::push ](s: &mut String, c: char)
    ensures
        final(s)@ == old(s)@.push(c),
;

/// Turns bytes into text with `String::from_utf8`, which gives the text that the bytes encode, and
/// refuses bytes that are not valid UTF-8.
#[verifier::external_body]
pub(crate) fn text_of_bytes(bytes: Vec<u8>) -> (text: Option<String>)
    ensures
        match text {
            Some(decoded) => valid_utf8(bytes@) && decoded@ == decode_utf8(bytes@),
            None => !valid_utf8(bytes@),
        },
{
    String::from_utf8(bytes).ok()
}

/// Whether `pattern` stands in `text` at position `at`.
pub open spec fn matches_at(text: Seq<char>, pattern: Seq<char>, at: int) -> bool {
    &&& 0 <= at
    &&& at + pattern.len() <= text.len()
    &&& text.subrange(at, at + pattern.len()) == pattern
}

/// Whether `pattern` stands anywhere in `text`.
pub open spec fn has_substring(text: Seq<char>, pattern: Seq<char>) -> bool {
    exists|at: int| #[trigger] matches_at(text, pattern, at)
}

/// `text` with every occurrence of `pattern` replaced by `by`: occurrences are taken from left to
/// right and do not overlap. An empty pattern replaces nothing.
pub open spec fn replaced(text: Seq<char>, pattern: Seq<char>, by: Seq<char>) -> Seq<char>
    decreases text.len(),
{
    if pattern.len() == 0 || text.len() < pattern.len() {
        text
    } else if matches_at(text, pattern, 0) {
        by + replaced(text.skip(pattern.len() as int), pattern, by)
    } else {
        seq![text[0]] + replaced(text.skip(1), pattern, by)
    }
}

/// Whether `c` is one of the ten ASCII digits.
pub open spec fn is_digit(c: char) -> bool {
    '0' <= c <= '9'
}

/// The value of an ASCII digit.
pub open spec fn digit_value(c: char) -> nat {
    (c as nat - '0' as nat) as nat
}

/// The number that a sequence of decimal digits writes, most significant digit first.
pub open spec fn digits_value(digits: Seq<char>) -> nat
    decreases digits.len(),
{
    if digits.len() == 0 {
        0
    } else {
        digits_value(digits.drop_last()) * 10 + digit_value(digits.last())
    }
}

/// Whether `text` is one or more decimal digits and nothing else.
pub open spec fn all_digits(text: Seq<char>) -> bool {
    text.len() > 0 && forall|i: int| 0 <= i < text.len() ==> is_digit(#[trigger] text[i])
}

/// The digits of a number that may be written with a leading plus sign.
pub open spec fn without_plus(text: Seq<char>) -> Seq<char> {
    if text.len() > 0 && text[0] == '+' {
        text.skip(1)
    } else {
        text
    }
}

/// The unsigned 32-bit number that `text` writes: decimal digits, at least one, with an optional
/// plus sign before them. Nothing else is a number, and neither is a value that does not fit.
pub open spec fn u32_of_text(text: Seq<char>) -> Option<u32> {
    let digits = without_plus(text);
    if all_digits(digits) && digits_value(digits) <= u32::MAX {
        Some(digits_value(digits) as u32)
    } else {
        None
    }
}

/// The character for a decimal digit.
pub open spec fn digit_char(d: nat) -> char {
    ('0' as nat + d) as char
}

/// The decimal digits of `n`, without leading zeros.
pub open spec fn decimal(n: nat) -> Seq<char>
    decreases n,
{
    if n < 10 {
        seq![digit_char(n)]
    } else {
        decimal(n / 10).push(digit_char(n % 10))
    }
}

/// The characters with the Unicode `White_Space` property.
pub open spec fn is_space(c: char) -> bool {
    let u = c as u32;
    ||| 0x09 <= u <= 0x0d
    ||| u == 0x20
    ||| u == 0x85
    ||| u == 0xa0
    ||| u == 0x1680
    ||| 0x2000 <= u <= 0x200a
    ||| u == 0x2028
    ||| u == 0x2029
    ||| u == 0x202f
    ||| u == 0x205f
    ||| u == 0x3000
}

/// `inner` is what is left of `text` when the white space at both ends is taken off.
pub open spec fn trimmed_to(text: Seq<char>, inner: Seq<char>) -> bool {
    &&& inner.len() > 0 ==> !is_space(inner[0]) && !is_space(inner.last())
    &&& exists|from: int, to: int| #[trigger] trimmed_range(text, from, to)
        && inner == text.subrange(from, to)
}

/// Everything in `text` outside `from..to` is white space.
pub open spec fn trimmed_range(text: Seq<char>, from: int, to: int) -> bool {
    &&& 0 <= from <= to <= text.len()
    &&& forall|i: int| 0 <= i < from ==> is_space(#[trigger] text[i])
    &&& forall|i: int| to <= i < text.len() ==> is_space(#[trigger] text[i])
}

/// A letter of the basic alphabet in lower case, and any other character as it is.
pub open spec fn lower_char(c: char) -> char {
    if 'A' <= c <= 'Z' {
        ((c as u8 + 32) as u8) as char
    } else {
        c
    }
}

/// `text` with the letters of the basic alphabet in lower case.
pub open spec fn lower(text: Seq<char>) -> Seq<char> {
    text.map_values(|c: char| lower_char(c))
}

/// The characters of a string.
pub fn chars_of(s: &str) -> (chars: Vec<char>)
    ensures
        chars@ == s@,
{
    let mut chars: Vec<char> = Vec::new();
    for c in iter: s.chars()
        invariant
            iter.seq() == s@,
            chars@ == s@.take(iter.index() as int),
    {
        chars.push(c);
    }
    chars
}

/// The string made of the characters `chars[from..to]`.
pub fn string_of(chars: &Vec<char>, from: usize, to: usize) -> (s: String)
    requires
        from <= to <= chars@.len(),
    ensures
        s@ == chars@.subrange(from as int, to as int),
{
    let mut s = String::new();
    let mut i: usize = from;
    while i < to
        invariant
            from <= i <= to <= chars@.len(),
            s@ == chars@.subrange(from as int, i as int),
        decreases to - i,
    {
        s.push(chars[i]);
        i += 1;
    }
    s
}

/// Whether `pattern` stands in `text` at position `at`.
pub fn stands_at(text: &Vec<char>, pattern: &Vec<char>, at: usize) -> (r: bool)
    requires
        at <= text@.len(),
    ensures
        r == matches_at(text@, pattern@, at as int),
{
    let len: usize = text.len();
    if len - at < pattern.len() {
        return false;
    }
    let mut i: usize = 0;
    while i < pattern.len()
        invariant
            i <= pattern@.len(),
            len == text@.len(),
            at + pattern@.len() <= len,
            forall|k: int| 0 <= k < i ==> text@[at + k] == pattern@[k],
        decreases pattern@.len() - i,
    {
        if text[at + i] != pattern[i] {
            proof {
                assert(text@.subrange(at as int, at + pattern@.len())[i as int] != pattern@[i as int]);
            }
            return false;
        }
        i += 1;
    }
    assert(text@.subrange(at as int, at + pattern@.len()) =~= pattern@);
    true
}

/// Whether two strings are the same.
pub fn same(a: &str, b: &str) -> (r: bool)
    ensures
        r == (a@ == b@),
{
    let left = chars_of(a);
    let right = chars_of(b);
    if left.len() != right.len() {
        return false;
    }
    let r = stands_at(&left, &right, 0);
    assert(left@.subrange(0, right@.len() as int) =~= left@);
    r
}

/// A letter of the basic alphabet in lower case, and any other character as it is.
fn to_lower(c: char) -> (r: char)
    ensures
        r == lower_char(c),
{
    if 'A' <= c && c <= 'Z' {
        (c as u8 + 32) as char
    } else {
        c
    }
}

/// Whether `text` is `word`, which is in lower case, whatever the case of its letters.
pub fn same_in_lower_case(text: &str, word: &str) -> (r: bool)
    ensures
        r == (lower(text@) == word@),
{
    let left = chars_of(text);
    let right = chars_of(word);
    if left.len() != right.len() {
        assert(lower(text@).len() != word@.len());
        return false;
    }
    let mut i: usize = 0;
    while i < left.len()
        invariant
            i <= left@.len(),
            left@ == text@,
            right@ == word@,
            left@.len() == right@.len(),
            forall|k: int| 0 <= k < i ==> lower(text@)[k] == #[trigger] word@[k],
        decreases left@.len() - i,
    {
        if to_lower(left[i]) != right[i] {
            assert(lower(text@)[i as int] != word@[i as int]);
            return false;
        }
        i += 1;
    }
    assert(lower(text@) =~= word@);
    true
}

/// Whether `text` starts with `prefix`.
pub fn starts_with(text: &str, prefix: &str) -> (r: bool)
    ensures
        r == matches_at(text@, prefix@, 0),
{
    stands_at(&chars_of(text), &chars_of(prefix), 0)
}

/// Whether `pattern` stands anywhere in `text`.
pub fn contains(text: &str, pattern: &str) -> (r: bool)
    ensures
        r == has_substring(text@, pattern@),
{
    let chars = chars_of(text);
    let wanted = chars_of(pattern);
    let mut at: usize = 0;
    while at < chars.len()
        invariant
            at <= chars@.len(),
            chars@ == text@,
            wanted@ == pattern@,
            forall|k: int| 0 <= k < at ==> !#[trigger] matches_at(text@, pattern@, k),
        decreases chars@.len() - at,
    {
        if stands_at(&chars, &wanted, at) {
            return true;
        }
        at += 1;
    }
    stands_at(&chars, &wanted, at)
}

/// `text` with every occurrence of `pattern` replaced by `by`.
pub fn replace(text: &str, pattern: &str, by: &str) -> (r: String)
    ensures
        r@ == replaced(text@, pattern@, by@),
{
    let chars = chars_of(text);
    let pattern = chars_of(pattern);
    let mut out = String::new();
    let mut at: usize = 0;
    assert(chars@.skip(0) =~= chars@);
    if pattern.len() == 0 {
        return text.to_owned();
    }
    while chars.len() - at >= pattern.len()
        invariant
            0 < pattern@.len(),
            at <= chars@.len(),
            replaced(chars@, pattern@, by@) == out@ + replaced(chars@.skip(at as int), pattern@, by@),
        decreases chars@.len() - at,
    {
        let ghost rest = chars@.skip(at as int);
        proof {
            assert(rest.subrange(0, pattern@.len() as int) =~= chars@.subrange(at as int, at + pattern@.len()));
        }
        if stands_at(&chars, &pattern, at) {
            out.append(by);
            at += pattern.len();
            assert(rest.skip(pattern@.len() as int) =~= chars@.skip(at as int));
        } else {
            out.push(chars[at]);
            at += 1;
            assert(rest.skip(1) =~= chars@.skip(at as int));
        }
        assert(replaced(chars@, pattern@, by@) =~= out@ + replaced(chars@.skip(at as int), pattern@, by@));
    }
    while at < chars.len()
        invariant
            at <= chars@.len(),
            replaced(chars@, pattern@, by@) == out@ + chars@.skip(at as int),
        decreases chars@.len() - at,
    {
        out.push(chars[at]);
        at += 1;
        assert(replaced(chars@, pattern@, by@) =~= out@ + chars@.skip(at as int));
    }
    assert(out@ + chars@.skip(at as int) =~= out@);
    out
}

/// Digits further to the right never make a number smaller.
proof fn lemma_digits_value_grows(digits: Seq<char>, k: int)
    requires
        0 <= k <= digits.len(),
    ensures
        digits_value(digits.take(k)) <= digits_value(digits),
    decreases digits.len() - k,
{
    if k < digits.len() {
        assert(digits.take(k + 1).drop_last() =~= digits.take(k));
        lemma_digits_value_grows(digits, k + 1);
    } else {
        assert(digits.take(k) =~= digits);
    }
}

/// Reads an unsigned 32-bit number.
pub fn parse_u32(text: &str) -> (r: Option<u32>)
    ensures
        r == u32_of_text(text@),
{
    let chars = chars_of(text);
    let start: usize = if chars.len() > 0 && chars[0] == '+' { 1 } else { 0 };
    let ghost digits = without_plus(text@);
    assert(digits =~= chars@.skip(start as int));
    if chars.len() == start {
        return None;
    }
    let mut value: u32 = 0;
    let mut i: usize = start;
    assert(digits.take(0) =~= Seq::<char>::empty());
    while i < chars.len()
        invariant
            start <= i <= chars@.len(),
            start < chars@.len(),
            digits == chars@.skip(start as int),
            digits == without_plus(text@),
            forall|k: int| 0 <= k < i - start ==> is_digit(#[trigger] digits[k]),
            value == digits_value(digits.take(i - start)),
        decreases chars@.len() - i,
    {
        let c = chars[i];
        let ghost k = i - start;
        assert(digits[k] == c);
        if !('0' <= c && c <= '9') {
            return None;
        }
        let digit: u32 = c as u32 - '0' as u32;
        proof {
            assert(digits.take(k + 1).drop_last() =~= digits.take(k));
            lemma_digits_value_grows(digits, k + 1);
        }
        let next: u64 = value as u64 * 10 + digit as u64;
        if next > u32::MAX as u64 {
            return None;
        }
        value = next as u32;
        i += 1;
    }
    assert(digits.take(chars@.len() - start) =~= digits);
    Some(value)
}

/// The decimal digits of `n`.
pub fn decimal_of(n: u32) -> (s: String)
    ensures
        s@ == decimal(n as nat),
    decreases n,
{
    let mut s = if n < 10 { String::new() } else { decimal_of(n / 10) };
    let digit = ascii_digit(n % 10);
    s.push(digit);
    assert(n < 10 ==> s@ =~= seq![digit_char(n as nat)]);
    s
}

/// The character for a decimal digit.
fn ascii_digit(d: u32) -> (c: char)
    requires
        d < 10,
    ensures
        c == digit_char(d as nat),
{
    let code: u8 = 48 + d as u8;
    code as char
}

/// Whether `c` is white space.
pub fn is_white_space(c: char) -> (r: bool)
    ensures
        r == is_space(c),
{
    let u = c as u32;
    (0x09 <= u && u <= 0x0d) || u == 0x20 || u == 0x85 || u == 0xa0 || u == 0x1680 || (0x2000 <= u
        && u <= 0x200a) || u == 0x2028 || u == 0x2029 || u == 0x202f || u == 0x205f || u == 0x3000
}

/// `text` without the white space at its two ends.
pub fn trim(text: &str) -> (r: String)
    ensures
        trimmed_to(text@, r@),
{
    let chars = chars_of(text);
    let mut from: usize = 0;
    while from < chars.len() && is_white_space(chars[from])
        invariant
            from <= chars@.len(),
            forall|i: int| 0 <= i < from ==> is_space(#[trigger] chars@[i]),
        decreases chars@.len() - from,
    {
        from += 1;
    }
    let mut to: usize = chars.len();
    while from < to && is_white_space(chars[to - 1])
        invariant
            from <= to <= chars@.len(),
            forall|i: int| to <= i < chars@.len() ==> is_space(#[trigger] chars@[i]),
        decreases to,
    {
        to -= 1;
    }
    assert(trimmed_range(chars@, from as int, to as int));
    string_of(&chars, from, to)
}

/// Trimming has one answer.
pub proof fn trimming_is_unique(text: Seq<char>, a: Seq<char>, b: Seq<char>)
    requires
        trimmed_to(text, a),
        trimmed_to(text, b),
    ensures
        a == b,
{
    let (f1, t1) = choose|from: int, to: int| #[trigger] trimmed_range(text, from, to) && a
        == text.subrange(from, to);
    let (f2, t2) = choose|from: int, to: int| #[trigger] trimmed_range(text, from, to) && b
        == text.subrange(from, to);
    if a.len() > 0 {
        assert(a[0] == text[f1] && a.last() == text[t1 - 1]);
        assert(f2 <= f1 && t1 <= t2);
        assert(b.len() > 0);
        assert(b[0] == text[f2] && b.last() == text[t2 - 1]);
    } else if b.len() > 0 {
        assert(b[0] == text[f2]);
        assert(f1 <= f2 < t1);
    }
    assert(a =~= b);
}

/// A text holds a pattern if and only if it is something, the pattern, and something.
pub proof fn holding_is_being_cut_around(text: &str, pattern: &str, found: bool)
    requires
        call_ensures(contains, (text, pattern), found),
    ensures
        found <==> exists|before: Seq<char>, after: Seq<char>|
            text@ == #[trigger] (before + pattern@ + after),
{
    if found {
        let at = choose|at: int| #[trigger] matches_at(text@, pattern@, at);
        let before = text@.take(at);
        let after = text@.skip(at + pattern@.len());
        assert(text@ =~= before + pattern@ + after);
    }
    if exists|before: Seq<char>, after: Seq<char>| text@ == #[trigger] (before + pattern@ + after) {
        let (before, after) = choose|before: Seq<char>, after: Seq<char>|
            text@ == #[trigger] (before + pattern@ + after);
        let at = before.len() as int;
        assert(text@.subrange(at, at + pattern@.len()) =~= pattern@);
        assert(matches_at(text@, pattern@, at));
    }
}

/// A text starts with a prefix if and only if it is the prefix and something.
pub proof fn starting_is_being_continued(text: &str, prefix: &str, starts: bool)
    requires
        call_ensures(starts_with, (text, prefix), starts),
    ensures
        starts <==> exists|rest: Seq<char>| text@ == #[trigger] (prefix@ + rest),
{
    if starts {
        let rest = text@.skip(prefix@.len() as int);
        assert(text@.subrange(0, prefix@.len() as int) == prefix@);
        assert(text@ =~= prefix@ + rest);
    }
    if exists|rest: Seq<char>| text@ == #[trigger] (prefix@ + rest) {
        let rest = choose|rest: Seq<char>| text@ == #[trigger] (prefix@ + rest);
        assert(text@.subrange(0, prefix@.len() as int) =~= prefix@);
    }
}

/// Two texts are the same if and only if they have the same characters, one for one.
pub proof fn sameness_is_of_every_character(a: &str, b: &str, r: bool)
    requires
        call_ensures(same, (a, b), r),
    ensures
        r <==> a@.len() == b@.len() && forall|i: int| 0 <= i < a@.len() ==> #[trigger] a@[i] == b@[i],
{
    if a@.len() == b@.len() && forall|i: int| 0 <= i < a@.len() ==> #[trigger] a@[i] == b@[i] {
        assert(a@ =~= b@);
    }
}

/// Letters count the same in either case, and every other character only as itself.
pub proof fn case_of_letters_does_not_matter(text: &str, word: &str, r: bool)
    requires
        call_ensures(same_in_lower_case, (text, word), r),
    ensures
        r <==> text@.len() == word@.len() && forall|i: int|
            0 <= i < text@.len() ==> (if 'A' <= #[trigger] text@[i] <= 'Z' {
                word@[i] as int == text@[i] as int + 32
            } else {
                word@[i] == text@[i]
            }),
{
    let given = text@;
    assert forall|c: char| 'A' <= c <= 'Z' implies (#[trigger] lower_char(c)) as int == c as int
        + 32 by {}
    if r {
        assert forall|i: int| 0 <= i < given.len() implies (if 'A' <= #[trigger] given[i] <= 'Z' {
            word@[i] as int == given[i] as int + 32
        } else {
            word@[i] == given[i]
        }) by {
            assert(lower(given)[i] == word@[i]);
        }
    }
    if given.len() == word@.len() && forall|i: int|
        0 <= i < given.len() ==> (if 'A' <= #[trigger] given[i] <= 'Z' {
            word@[i] as int == given[i] as int + 32
        } else {
            word@[i] == given[i]
        }) {
        assert forall|i: int| 0 <= i < given.len() implies lower(given)[i] == word@[i] by {
            let c = given[i];
            if 'A' <= c <= 'Z' {
                assert(lower_char(c) as int == word@[i] as int);
            }
        }
        assert(lower(given) =~= word@);
    }
}

/// Where a pattern first stands it is replaced, what is before it stays, and so on behind it. A text
/// without the pattern stays as it is.
pub proof fn first_occurrence_is_replaced(
    before: Seq<char>,
    pattern: Seq<char>,
    after: Seq<char>,
    by: Seq<char>,
)
    requires
        pattern.len() > 0,
        forall|at: int|
            0 <= at < before.len() ==> !#[trigger] matches_at(before + pattern + after, pattern, at),
    ensures
        replaced(before + pattern + after, pattern, by) == before + by + replaced(
            after,
            pattern,
            by,
        ),
    decreases before.len(),
{
    let text = before + pattern + after;
    if before.len() == 0 {
        assert(text.subrange(0, pattern.len() as int) =~= pattern);
        assert(matches_at(text, pattern, 0));
        assert(text.skip(pattern.len() as int) =~= after);
        assert(before + by + replaced(after, pattern, by) =~= by + replaced(after, pattern, by));
    } else {
        let rest = before.skip(1);
        let less = rest + pattern + after;
        assert(text.skip(1) =~= less);
        assert(!matches_at(text, pattern, 0));
        assert forall|at: int| 0 <= at < rest.len() implies !#[trigger] matches_at(
            less,
            pattern,
            at,
        ) by {
            if matches_at(less, pattern, at) {
                assert(text.subrange(at + 1, at + 1 + pattern.len()) =~= less.subrange(
                    at,
                    at + pattern.len(),
                ));
                assert(matches_at(text, pattern, at + 1));
            }
        }
        first_occurrence_is_replaced(rest, pattern, after, by);
        assert(text[0] == before[0]);
        assert(seq![text[0]] + (rest + by + replaced(after, pattern, by)) =~= before + by + replaced(
            after,
            pattern,
            by,
        ));
    }
}

/// A text in which the pattern does not stand stays as it is.
pub proof fn nothing_to_replace(text: Seq<char>, pattern: Seq<char>, by: Seq<char>)
    requires
        !has_substring(text, pattern),
    ensures
        replaced(text, pattern, by) == text,
    decreases text.len(),
{
    if pattern.len() > 0 && text.len() >= pattern.len() {
        assert(!matches_at(text, pattern, 0));
        if has_substring(text.skip(1), pattern) {
            let at = choose|at: int| #[trigger] matches_at(text.skip(1), pattern, at);
            assert(text.subrange(at + 1, at + 1 + pattern.len()) =~= text.skip(1).subrange(
                at,
                at + pattern.len(),
            ));
            assert(matches_at(text, pattern, at + 1));
        }
        nothing_to_replace(text.skip(1), pattern, by);
        assert(seq![text[0]] + text.skip(1) =~= text);
    }
}

/// Replacing gives the replaced text.
pub proof fn replacing_a_pattern(text: &str, pattern: &str, by: &str, r: String)
    requires
        call_ensures(replace, (text, pattern, by), r),
        pattern@.len() > 0,
    ensures
        !has_substring(text@, pattern@) ==> r@ == text@,
        forall|before: Seq<char>, after: Seq<char>|
            text@ == #[trigger] (before + pattern@ + after) && (forall|at: int|
                0 <= at < before.len() ==> !#[trigger] matches_at(text@, pattern@, at)) ==> r@
                == before + by@ + replaced(after, pattern@, by@),
{
    if !has_substring(text@, pattern@) {
        nothing_to_replace(text@, pattern@, by@);
    }
    assert forall|before: Seq<char>, after: Seq<char>|
        text@ == #[trigger] (before + pattern@ + after) && (forall|at: int|
            0 <= at < before.len() ==> !#[trigger] matches_at(text@, pattern@, at)) implies r@
        == before + by@ + replaced(after, pattern@, by@) by {
        first_occurrence_is_replaced(before, pattern@, after, by@);
    }
}

/// What a digit more does to a number: it is ten times the number and the digit, where that still
/// fits. Anything but a digit makes it no number.
pub proof fn number_grows_by_its_last_digit(shorter: &str, longer: &str, a: Option<u32>, b: Option<u32>)
    requires
        call_ensures(parse_u32, (shorter,), a),
        call_ensures(parse_u32, (longer,), b),
        longer@.len() > 0,
        shorter@ == longer@.drop_last(),
    ensures
        a matches Some(n) ==> ({
            let c = longer@.last() as int;
            let value = 10 * n as int + (c - 48);
            b == (if 48 <= c <= 57 && value <= u32::MAX {
                Some(value as u32)
            } else {
                None::<u32>
            })
        }),
        !(48 <= longer@.last() as int <= 57) ==> b is None,
        longer@.len() == 1 ==> b == (if 48 <= longer@[0] as int <= 57 {
            Some((longer@[0] as int - 48) as u32)
        } else {
            None::<u32>
        }),
        b is Some && shorter@.len() > 0 && shorter@ != seq!['+'] ==> a is Some,
        longer@.len() == 2 && longer@[0] == '+' ==> b == (if 48 <= longer@[1] as int <= 57 {
            Some((longer@[1] as int - 48) as u32)
        } else {
            None::<u32>
        }),
{
    let digits = without_plus(longer@);
    let fewer = without_plus(shorter@);
    if longer@.len() == 1 {
        assert(shorter@ =~= Seq::empty());
        assert(fewer =~= Seq::empty());
        if longer@[0] == '+' {
            assert(digits =~= Seq::empty());
        } else {
            assert(digits.drop_last() =~= Seq::empty());
            assert(digits_value(digits.drop_last()) == 0);
            if is_digit(longer@[0]) {
                assert(all_digits(digits));
            } else {
                assert(!is_digit(digits[0]));
            }
        }
    } else {
        assert(digits.last() == longer@.last());
        assert(digits.drop_last() =~= fewer);
        assert(digits_value(digits) == digits_value(fewer) * 10 + digit_value(digits.last()));
        assert(digits[digits.len() - 1] == digits.last());
        if all_digits(fewer) && is_digit(digits.last()) {
            assert forall|i: int| 0 <= i < digits.len() implies is_digit(#[trigger] digits[i]) by {
                if i < fewer.len() {
                    assert(digits[i] == fewer[i]);
                }
            }
        }
        if all_digits(digits) && fewer.len() > 0 {
            assert forall|i: int| 0 <= i < fewer.len() implies is_digit(#[trigger] fewer[i]) by {
                assert(fewer[i] == digits[i]);
            }
        }
        if longer@.len() == 2 && longer@[0] == '+' {
            assert(fewer =~= Seq::empty());
            assert(digits_value(fewer) == 0);
            assert(digits =~= seq![longer@[1]]);
        }
        if fewer.len() == 0 && shorter@.len() > 0 {
            assert(shorter@ =~= seq!['+']);
        }
    }
}

/// Writing a number out and reading it back gives the number.
pub proof fn reading_gives_back_what_was_written(n: u32, written: String, text: &str, r: Option<u32>)
    requires
        call_ensures(decimal_of, (n,), written),
        text@ == written@,
        call_ensures(parse_u32, (text,), r),
    ensures
        r == Some(n),
        written@.len() > 1 ==> written@[0] != '0',
{
    lemma_decimal_value(n as nat);
}

/// The digits of a number write it, without a leading zero.
pub(crate) proof fn lemma_decimal_value(n: nat)
    ensures
        all_digits(decimal(n)),
        digits_value(decimal(n)) == n,
        without_plus(decimal(n)) == decimal(n),
        decimal(n).len() > 1 ==> decimal(n)[0] != '0',
        n > 0 ==> decimal(n)[0] != '0',
    decreases n,
{
    if n >= 10 {
        lemma_decimal_value(n / 10);
        assert(decimal(n).drop_last() =~= decimal(n / 10));
        assert(decimal(n)[0] == decimal(n / 10)[0]);
    } else {
        assert(decimal(n).drop_last() =~= Seq::empty());
        assert(digits_value(decimal(n).drop_last()) == 0);
    }
}

/// What is left of a text after trimming is what stands between the white space at its ends.
pub proof fn trimming_takes_off_the_ends(text: &str, r: String)
    requires
        call_ensures(trim, (text,), r),
    ensures
        forall|before: Seq<char>, inner: Seq<char>, after: Seq<char>|
            text@ == #[trigger] (before + inner + after) && (forall|i: int|
                0 <= i < before.len() ==> is_space(#[trigger] before[i])) && (forall|i: int|
                0 <= i < after.len() ==> is_space(#[trigger] after[i])) && (inner.len() > 0 ==> !is_space(
                inner[0],
            ) && !is_space(inner.last())) ==> r@ == inner,
{
    assert forall|before: Seq<char>, inner: Seq<char>, after: Seq<char>|
        text@ == #[trigger] (before + inner + after) && (forall|i: int|
            0 <= i < before.len() ==> is_space(#[trigger] before[i])) && (forall|i: int|
            0 <= i < after.len() ==> is_space(#[trigger] after[i])) && (inner.len() > 0 ==> !is_space(
            inner[0],
        ) && !is_space(inner.last())) implies r@ == inner by {
        let from = before.len() as int;
        let to = from + inner.len();
        assert(text@.subrange(from, to) =~= inner);
        assert forall|i: int| to <= i < text@.len() implies is_space(#[trigger] text@[i]) by {
            assert(text@[i] == after[i - to]);
        }
        assert forall|i: int| 0 <= i < from implies is_space(#[trigger] text@[i]) by {
            assert(text@[i] == before[i]);
        }
        assert(trimmed_range(text@, from, to));
        trimming_is_unique(text@, r@, inner);
    }
}

/// Which characters are white space: the twenty-five code points that are.
pub proof fn white_space_is_this(c: char, r: bool)
    requires
        call_ensures(is_white_space, (c,), r),
    ensures
        r == is_space(c),
        r <==> set![
            9u32, 10, 11, 12, 13, 32, 0x85, 0xa0, 0x1680, 0x2000, 0x2001, 0x2002, 0x2003, 0x2004,
            0x2005, 0x2006, 0x2007, 0x2008, 0x2009, 0x200a, 0x2028, 0x2029, 0x202f, 0x205f, 0x3000,
        ].contains(c as u32),
{
}

} // verus!
