//! Text as a sequence of characters: numerals, white space, case and search.

use vstd::prelude::*;

verus! {

/// `String::push` appends the given character to the end of the string.
pub assume_specification[ String::push ](s: &mut String, c: char)
    ensures
        final(s)@ == old(s)@.push(c),
;

/// The texts of a sequence of strings.
pub open spec fn texts(list: Seq<String>) -> Seq<Seq<char>> {
    list.map_values(|s: String| s@)
}

/// The text of an optional string.
pub open spec fn optional_text(text: Option<String>) -> Option<Seq<char>> {
    match text {
        Some(t) => Some(t@),
        None => None,
    }
}

/// The digit that stands for `d` in bases up to sixteen, in lower case.
pub open spec fn digit(d: nat) -> char {
    if d < 10 {
        (48 + d) as char
    } else {
        (87 + d) as char
    }
}

/// The shortest numeral of `n` in the given base.
pub open spec fn numeral(n: nat, base: nat) -> Seq<char>
    decreases n,
{
    if n < base || base < 2 {
        seq![digit(n)]
    } else {
        proof {
            assert(n / base < n) by (nonlinear_arith)
                requires
                    n >= base,
                    base >= 2,
            ;
        }
        numeral(n / base, base).push(digit(n % base))
    }
}

/// The decimal numeral of `n`.
pub open spec fn decimal(n: nat) -> Seq<char> {
    numeral(n, 10)
}

/// The hexadecimal numeral of `n`, in lower case and without a prefix.
pub open spec fn hexadecimal(n: nat) -> Seq<char> {
    numeral(n, 16)
}

/// The number that a sequence of decimal digits stands for.
pub open spec fn digits_value(digits: Seq<char>) -> nat
    decreases digits.len(),
{
    if digits.len() == 0 {
        0
    } else {
        digits_value(digits.drop_last()) * 10 + (digits.last() as nat - 48) as nat
    }
}

/// Whether `c` is one of the ten decimal digits.
pub open spec fn is_digit(c: char) -> bool {
    '0' <= c <= '9'
}

/// Whether `c` is a hexadecimal digit in lower case.
pub open spec fn is_hex_digit(c: char) -> bool {
    '0' <= c <= '9' || 'a' <= c <= 'f'
}

/// Whether `text` is one or more decimal digits and nothing else.
pub open spec fn all_digits(text: Seq<char>) -> bool {
    text.len() > 0 && forall|i: int| 0 <= i < text.len() ==> is_digit(#[trigger] text[i])
}

/// `text` without the plus sign that it may begin with.
pub open spec fn unsigned_part(text: Seq<char>) -> Seq<char> {
    if text.len() > 0 && text[0] == '+' {
        text.skip(1)
    } else {
        text
    }
}

/// A number as a person types it: an optional plus sign, then one or more
/// decimal digits and nothing else.
pub open spec fn parsed_number(text: Seq<char>) -> Option<nat> {
    if all_digits(unsigned_part(text)) {
        Some(digits_value(unsigned_part(text)))
    } else {
        None
    }
}

/// `parsed_number` where the number fits the machine.
pub open spec fn parsed_usize(text: Seq<char>) -> Option<usize> {
    match parsed_number(text) {
        Some(n) => if n <= usize::MAX {
            Some(n as usize)
        } else {
            None
        },
        None => None,
    }
}

/// Whether `c` has the Unicode property White_Space.
pub open spec fn is_white_space(c: char) -> bool {
    ||| '\u{9}' <= c <= '\u{d}'
    ||| c == ' '
    ||| c == '\u{85}'
    ||| c == '\u{a0}'
    ||| c == '\u{1680}'
    ||| '\u{2000}' <= c <= '\u{200a}'
    ||| c == '\u{2028}'
    ||| c == '\u{2029}'
    ||| c == '\u{202f}'
    ||| c == '\u{205f}'
    ||| c == '\u{3000}'
}

/// `text` without the white space that it begins with.
pub open spec fn trimmed_start(text: Seq<char>) -> Seq<char>
    decreases text.len(),
{
    if text.len() > 0 && is_white_space(text[0]) {
        trimmed_start(text.skip(1))
    } else {
        text
    }
}

/// `text` without the white space that it ends with.
pub open spec fn trimmed_end(text: Seq<char>) -> Seq<char>
    decreases text.len(),
{
    if text.len() > 0 && is_white_space(text.last()) {
        trimmed_end(text.drop_last())
    } else {
        text
    }
}

/// `text` without the white space around it.
pub open spec fn trimmed(text: Seq<char>) -> Seq<char> {
    trimmed_end(trimmed_start(text))
}

/// `c` in lower case where it is an ASCII letter, and `c` itself otherwise.
pub open spec fn ascii_lower(c: char) -> char {
    if 'A' <= c <= 'Z' {
        (c as u32 + 32) as char
    } else {
        c
    }
}

/// `c` in upper case where it is an ASCII letter, and `c` itself otherwise.
pub open spec fn ascii_upper(c: char) -> char {
    if 'a' <= c <= 'z' {
        (c as u32 - 32) as char
    } else {
        c
    }
}

/// `text` with its ASCII letters in lower case.
pub open spec fn ascii_lowered(text: Seq<char>) -> Seq<char> {
    text.map_values(|c: char| ascii_lower(c))
}

/// Whether `part` occurs in `text` at position `at`.
pub open spec fn occurs_at(text: Seq<char>, part: Seq<char>, at: int) -> bool {
    0 <= at && at + part.len() <= text.len() && text.subrange(at, at + part.len()) == part
}

/// Whether `part` occurs anywhere in `text`.
pub open spec fn has_part(text: Seq<char>, part: Seq<char>) -> bool {
    exists|at: int| occurs_at(text, part, at)
}

/// The characters of `s`, in order.
pub fn to_chars(s: &str) -> (chars: Vec<char>)
    ensures
        chars@ == s@,
{
    let mut out: Vec<char> = Vec::new();
    for c in it: s.chars()
        invariant
            it.seq() == s@,
            out@ == s@.take(it.index() as int),
    {
        out.push(c);
        assert(s@.take(it.index() as int + 1) == s@.take(it.index() as int).push(c));
    }
    assert(s@.take(s@.len() as int) == s@);
    out
}

/// The string of the characters from `from` up to `to`.
pub fn from_chars(chars: &Vec<char>, from: usize, to: usize) -> (s: String)
    requires
        from <= to <= chars@.len(),
    ensures
        s@ == chars@.subrange(from as int, to as int),
{
    let mut out = String::new();
    let mut i: usize = from;
    while i < to
        invariant
            from <= i <= to <= chars@.len(),
            out@ == chars@.subrange(from as int, i as int),
        decreases to - i,
    {
        out.push(chars[i]);
        assert(chars@.subrange(from as int, i as int + 1) == chars@.subrange(
            from as int,
            i as int,
        ).push(chars@[i as int]));
        i = i + 1;
    }
    out
}

/// Whether the two texts are the same.
pub fn same_text(a: &str, b: &str) -> (same: bool)
    ensures
        same == (a@ == b@),
{
    a.to_owned() == b.to_owned()
}

/// Whether `list` holds `text`.
pub fn has_text(list: &Vec<String>, text: &str) -> (found: bool)
    ensures
        found == texts(list@).contains(text@),
{
    let mut i: usize = 0;
    while i < list.len()
        invariant
            i <= list@.len(),
            forall|j: int| 0 <= j < i ==> (#[trigger] list@[j])@ != text@,
        decreases list@.len() - i,
    {
        if same_text(list[i].as_str(), text) {
            assert(texts(list@)[i as int] == text@);
            return true;
        }
        i = i + 1;
    }
    assert forall|j: int| 0 <= j < texts(list@).len() implies texts(list@)[j] != text@ by {
        assert(list@[j]@ != text@);
    }
    false
}

fn digit_char(d: u8) -> (c: char)
    requires
        d < 16,
    ensures
        c == digit(d as nat),
{
    if d < 10 {
        (48 + d) as char
    } else {
        (87 + d) as char
    }
}

fn numeral_text(n: u128, base: u8) -> (s: String)
    requires
        base == 10 || base == 16,
    ensures
        s@ == numeral(n as nat, base as nat),
{
    let mut rest: u128 = n;
    let mut low: Vec<char> = Vec::new();
    let wide: u128 = base as u128;
    while rest >= wide
        invariant
            wide == base,
            base == 10 || base == 16,
            numeral(n as nat, base as nat) == numeral(rest as nat, base as nat) + low@.reverse(),
        decreases rest,
    {
        let ghost before = low@;
        let d: u8 = (rest % wide) as u8;
        low.push(digit_char(d));
        assert(low@.reverse() == seq![digit(d as nat)] + before.reverse());
        assert(numeral(rest as nat, base as nat) == numeral(
            rest as nat / base as nat,
            base as nat,
        ).push(digit(rest as nat % base as nat)));
        assert(numeral(rest as nat / base as nat, base as nat).push(digit(d as nat))
            + before.reverse() == numeral(rest as nat / base as nat, base as nat)
            + low@.reverse());
        rest = rest / wide;
    }
    let mut out = String::new();
    out.push(digit_char(rest as u8));
    assert(out@ == numeral(rest as nat, base as nat));
    let ghost head = out@;
    let mut i: usize = low.len();
    assert(low@.reverse().take(0) == Seq::<char>::empty());
    assert(head + low@.reverse().take(0) == head);
    while i > 0
        invariant
            i <= low@.len(),
            out@ == head + low@.reverse().take(low@.len() - i),
        decreases i,
    {
        i = i - 1;
        out.push(low[i as usize]);
        assert(low@.reverse().take(low@.len() - i) == low@.reverse().take(
            low@.len() - i - 1,
        ).push(low@[i as int]));
    }
    assert(low@.reverse().take(low@.len() as int) == low@.reverse());
    out
}

/// The decimal numeral of `n`.
pub fn decimal_text(n: u128) -> (s: String)
    ensures
        s@ == decimal(n as nat),
{
    numeral_text(n, 10)
}

/// The hexadecimal numeral of `n`, in lower case and without a prefix.
pub fn hexadecimal_text(n: u128) -> (s: String)
    ensures
        s@ == hexadecimal(n as nat),
{
    numeral_text(n, 16)
}

proof fn lemma_digits_value_grows(digits: Seq<char>, n: int)
    requires
        0 <= n <= digits.len(),
    ensures
        digits_value(digits.take(n)) <= digits_value(digits),
    decreases digits.len() - n,
{
    if n == digits.len() {
        assert(digits.take(n) == digits);
    } else {
        lemma_digits_value_grows(digits, n + 1);
        assert(digits.take(n + 1).drop_last() == digits.take(n));
    }
}

/// Reads a number: an optional plus sign, then decimal digits. Nothing comes
/// of any other text, nor of a number that does not fit.
pub fn parse_usize(text: &str) -> (number: Option<usize>)
    ensures
        number == parsed_usize(text@),
{
    let chars: Vec<char> = to_chars(text);
    let start: usize = if chars.len() > 0 && chars[0] == '+' {
        1
    } else {
        0
    };
    let ghost digits = unsigned_part(text@);
    if chars.len() == start {
        return None;
    }
    let mut value: usize = 0;
    let mut i: usize = start;
    while i < chars.len()
        invariant
            start <= i <= chars@.len(),
            chars@ == text@,
            digits == unsigned_part(text@),
            digits.len() > 0,
            start == if text@.len() > 0 && text@[0] == '+' { 1int } else { 0int },
            forall|j: int| 0 <= j < i - start ==> is_digit(#[trigger] digits[j]),
            value == digits_value(digits.take(i - start)),
        decreases chars@.len() - i,
    {
        let c: char = chars[i];
        assert(digits[i - start] == c);
        if !('0' <= c && c <= '9') {
            assert(!is_digit(digits[i - start]));
            return None;
        }
        let d: usize = c as usize - 48;
        proof {
            assert(digits.take(i - start + 1).drop_last() == digits.take(i - start));
            assert(digits_value(digits.take(i - start + 1)) == value * 10 + d);
            lemma_digits_value_grows(digits, i - start + 1);
        }
        if value > (usize::MAX - d) / 10 {
            return None;
        }
        value = value * 10 + d;
        i = i + 1;
    }
    assert(digits.take(digits.len() as int) == digits);
    Some(value)
}

fn white_space(c: char) -> (white: bool)
    ensures
        white == is_white_space(c),
{
    ('\u{9}' <= c && c <= '\u{d}') || c == ' ' || c == '\u{85}' || c == '\u{a0}' || c == '\u{1680}'
        || ('\u{2000}' <= c && c <= '\u{200a}') || c == '\u{2028}' || c == '\u{2029}' || c
        == '\u{202f}' || c == '\u{205f}' || c == '\u{3000}'
}

/// `text` without the white space around it.
pub fn trim(text: &str) -> (out: String)
    ensures
        out@ == trimmed(text@),
{
    let chars: Vec<char> = to_chars(text);
    let mut from: usize = 0;
    assert(chars@.skip(0) == chars@);
    while from < chars.len() && white_space(chars[from])
        invariant
            from <= chars@.len(),
            trimmed_start(chars@) == trimmed_start(chars@.skip(from as int)),
        decreases chars@.len() - from,
    {
        assert(chars@.skip(from as int).skip(1) == chars@.skip(from as int + 1));
        from = from + 1;
    }
    assert(trimmed_start(chars@) == chars@.skip(from as int));
    let mut to: usize = chars.len();
    assert(chars@.skip(from as int) == chars@.subrange(from as int, to as int));
    while to > from && white_space(chars[to - 1])
        invariant
            from <= to <= chars@.len(),
            trimmed_start(chars@) == chars@.skip(from as int),
            trimmed_end(chars@.skip(from as int)) == trimmed_end(
                chars@.subrange(from as int, to as int),
            ),
        decreases to,
    {
        assert(chars@.subrange(from as int, to as int).drop_last() == chars@.subrange(
            from as int,
            to - 1,
        ));
        to = to - 1;
    }
    from_chars(&chars, from, to)
}

fn lower_char(c: char) -> (low: char)
    ensures
        low == ascii_lower(c),
{
    if 'A' <= c && c <= 'Z' {
        (c as u8 + 32) as char
    } else {
        c
    }
}

/// `c` in upper case where it is an ASCII letter, and `c` itself otherwise.
pub(crate) fn upper_char(c: char) -> (out: char)
    ensures
        out == ascii_upper(c),
{
    if 'a' <= c && c <= 'z' {
        (c as u8 - 32) as char
    } else {
        c
    }
}

/// `text` with its ASCII letters in lower case.
pub fn lower(text: &str) -> (out: String)
    ensures
        out@ == ascii_lowered(text@),
{
    let chars: Vec<char> = to_chars(text);
    let mut out = String::new();
    let mut i: usize = 0;
    while i < chars.len()
        invariant
            i <= chars@.len(),
            out@ == ascii_lowered(chars@.take(i as int)),
        decreases chars@.len() - i,
    {
        out.push(lower_char(chars[i]));
        assert(ascii_lowered(chars@.take(i as int + 1)) == ascii_lowered(chars@.take(i as int)).push(
            ascii_lower(chars@[i as int]),
        ));
        i = i + 1;
    }
    assert(chars@.take(chars@.len() as int) == chars@);
    out
}

/// Whether the two texts are the same but for the case of ASCII letters.
pub fn same_but_for_case(a: &str, b: &str) -> (same: bool)
    ensures
        same == (ascii_lowered(a@) == ascii_lowered(b@)),
{
    lower(a) == lower(b)
}

fn part_at(text: &Vec<char>, part: &Vec<char>, at: usize) -> (found: bool)
    requires
        at + part.len() <= text.len(),
    ensures
        found == occurs_at(text@, part@, at as int),
{
    let mut i: usize = 0;
    while i < part.len()
        invariant
            i <= part@.len(),
            at + part.len() <= text.len(),
            forall|j: int| 0 <= j < i ==> text@[at + j] == #[trigger] part@[j],
        decreases part@.len() - i,
    {
        if text[at + i] != part[i] {
            assert(text@.subrange(at as int, at + part@.len())[i as int] != part@[i as int]);
            return false;
        }
        i = i + 1;
    }
    assert(text@.subrange(at as int, at + part@.len()) == part@);
    true
}

/// Whether `part` occurs in `text`.
pub fn contains(text: &str, part: &str) -> (found: bool)
    ensures
        found == has_part(text@, part@),
{
    let text_chars: Vec<char> = to_chars(text);
    let part_chars: Vec<char> = to_chars(part);
    if part_chars.len() > text_chars.len() {
        return false;
    }
    let last: usize = text_chars.len() - part_chars.len();
    let mut at: usize = 0;
    while at <= last
        invariant
            text_chars@ == text@,
            part_chars@ == part@,
            last + part@.len() == text@.len(),
            at <= last + 1,
            forall|k: int| 0 <= k < at ==> !occurs_at(text@, part@, k),
        decreases last + 1 - at,
    {
        if part_at(&text_chars, &part_chars, at) {
            return true;
        }
        if at == last {
            return false;
        }
        at = at + 1;
    }
    false
}

/// Whether `text` ends in `part`.
pub fn ends_in(text: &str, part: &str) -> (found: bool)
    ensures
        found == part@.is_suffix_of(text@),
{
    let text_chars: Vec<char> = to_chars(text);
    let part_chars: Vec<char> = to_chars(part);
    if part_chars.len() > text_chars.len() {
        return false;
    }
    let at: usize = text_chars.len() - part_chars.len();
    assert(at + part@.len() == text@.len());
    part_at(&text_chars, &part_chars, at)
}

proof fn lemma_digit_injective(a: nat, b: nat)
    requires
        a < 16,
        b < 16,
        digit(a) == digit(b),
    ensures
        a == b,
{
}

/// No two numbers share a numeral.
pub proof fn lemma_numeral_injective(a: nat, b: nat, base: nat)
    requires
        2 <= base <= 16,
        numeral(a, base) == numeral(b, base),
    ensures
        a == b,
    decreases a,
{
    let x = numeral(a, base);
    if a < base && b < base {
        assert(x[0] == digit(a));
        lemma_digit_injective(a, b);
    } else if a < base || b < base {
        lemma_numeral_length(a, base);
        lemma_numeral_length(b, base);
    } else {
        assert(x.last() == digit(a % base));
        assert(x.last() == digit(b % base));
        assert(x.drop_last() == numeral(a / base, base));
        assert(x.drop_last() == numeral(b / base, base));
        assert(a / base < a) by (nonlinear_arith)
            requires
                a >= base,
                base >= 2,
        ;
        lemma_digit_injective(a % base, b % base);
        lemma_numeral_injective(a / base, b / base, base);
        vstd::arithmetic::div_mod::lemma_fundamental_div_mod(a as int, base as int);
        vstd::arithmetic::div_mod::lemma_fundamental_div_mod(b as int, base as int);
    }
}

proof fn lemma_numeral_length(n: nat, base: nat)
    requires
        2 <= base <= 16,
    ensures
        n < base ==> numeral(n, base).len() == 1,
        n >= base ==> numeral(n, base).len() > 1,
    decreases n,
{
    if n >= base {
        assert(n / base < n) by (nonlinear_arith)
            requires
                n >= base,
                base >= 2,
        ;
        lemma_numeral_length(n / base, base);
    }
}

/// A numeral holds digits and nothing else.
pub proof fn lemma_numeral_digits(n: nat, base: nat)
    requires
        2 <= base <= 16,
    ensures
        numeral(n, base).len() > 0,
        forall|i: int| 0 <= i < numeral(n, base).len() ==> is_hex_digit(#[trigger] numeral(n, base)[i]),
    decreases n,
{
    if n >= base {
        assert(n / base < n) by (nonlinear_arith)
            requires
                n >= base,
                base >= 2,
        ;
        lemma_numeral_digits(n / base, base);
        let shorter = numeral(n / base, base);
        assert forall|i: int| 0 <= i < numeral(n, base).len() implies is_hex_digit(
            #[trigger] numeral(n, base)[i],
        ) by {
            if i < shorter.len() {
                assert(numeral(n, base)[i] == shorter[i]);
            }
        }
    }
}

/// A number is read back from its decimal numeral.
pub proof fn lemma_number_read_back(n: nat)
    ensures
        all_digits(decimal(n)),
        digits_value(decimal(n)) == n,
        parsed_number(decimal(n)) == Some(n),
        trimmed(decimal(n)) == decimal(n),
    decreases n,
{
    if n >= 10 {
        lemma_number_read_back(n / 10);
        let shorter = decimal(n / 10);
        let last = digit(n % 10);
        assert(decimal(n) == shorter.push(last));
        assert(decimal(n).drop_last() == shorter);
        assert forall|i: int| 0 <= i < decimal(n).len() implies is_digit(
            #[trigger] decimal(n)[i],
        ) by {
            if i < shorter.len() {
                assert(decimal(n)[i] == shorter[i]);
            }
        }
    } else {
        let none = Seq::<char>::empty();
        assert(decimal(n).drop_last() == none);
        assert(digits_value(none) == 0);
    }
    assert(is_digit(decimal(n)[0]));
    assert(is_digit(decimal(n).last()));
}

/// The number that a digit of a base up to sixteen stands for.
pub open spec fn digit_value(c: char) -> nat {
    if '0' <= c <= '9' {
        (c as nat - '0' as nat) as nat
    } else {
        (c as nat - 'a' as nat + 10) as nat
    }
}

/// The number that a sequence of digits stands for in a base: each digit counts by the
/// power of the base that its place has.
pub open spec fn numeral_value(digits: Seq<char>, base: nat) -> nat
    decreases digits.len(),
{
    if digits.len() == 0 {
        0
    } else {
        digit_value(digits[0]) * vstd::arithmetic::power::pow(
            base as int,
            (digits.len() - 1) as nat,
        ) as nat + numeral_value(digits.skip(1), base)
    }
}

/// A digit at the end of a numeral counts one, and all before it count the base.
proof fn lemma_numeral_value_push(digits: Seq<char>, last: char, base: nat)
    requires
        base >= 2,
    ensures
        numeral_value(digits.push(last), base) == numeral_value(digits, base) * base + digit_value(
            last,
        ),
    decreases digits.len(),
{
    let whole = digits.push(last);
    vstd::arithmetic::power::lemma_pow0(base as int);
    if digits.len() == 0 {
        let none = Seq::<char>::empty();
        assert(digits == none);
        assert(whole.skip(1) == none);
        assert(numeral_value(none, base) == 0);
        assert(whole[0] == last);
        assert(digit_value(last) * 1 == digit_value(last));
        assert(0 * base == 0);
    } else {
        let n = (digits.len() - 1) as nat;
        let first = digit_value(digits[0]);
        let power = vstd::arithmetic::power::pow(base as int, n);
        let rest = numeral_value(digits.skip(1), base);
        assert(whole.skip(1) == digits.skip(1).push(last));
        lemma_numeral_value_push(digits.skip(1), last, base);
        vstd::arithmetic::power::lemma_pow_positive(base as int, n);
        vstd::arithmetic::power::lemma_pow_positive(base as int, n + 1);
        assert(vstd::arithmetic::power::pow(base as int, n + 1) == base * power) by {
            vstd::arithmetic::power::lemma_pow_adds(base as int, 1, n);
            vstd::arithmetic::power::lemma_pow1(base as int);
        }
        assert(first * (base * power) + (rest * base + digit_value(last)) == (first * power + rest)
            * base + digit_value(last)) by (nonlinear_arith);
        assert(whole[0] == digits[0]);
        assert(numeral_value(whole, base) == first * (base * power) as nat + numeral_value(
            whole.skip(1),
            base,
        ));
        assert(numeral_value(digits, base) == first * power as nat + rest);
    }
}

/// The numeral of a number stands for that number, and is the shortest that does: it
/// begins with a zero only where it is zero.
pub proof fn lemma_numeral_read_back(n: nat, base: nat)
    requires
        2 <= base <= 16,
    ensures
        numeral_value(numeral(n, base), base) == n,
        numeral(n, base).len() > 1 ==> numeral(n, base)[0] != '0',
        numeral(n, base)[0] == '0' ==> n == 0,
    decreases n,
{
    if n < base {
        let none = Seq::<char>::empty();
        lemma_numeral_value_push(none, digit(n), base);
        assert(none.push(digit(n)) == numeral(n, base));
        assert(numeral_value(none, base) == 0);
        assert(0 * base == 0);
    } else {
        assert(n / base < n && n / base > 0) by (nonlinear_arith)
            requires
                n >= base,
                base >= 2,
        ;
        lemma_numeral_read_back(n / base, base);
        lemma_numeral_length(n / base, base);
        lemma_numeral_value_push(numeral(n / base, base), digit(n % base), base);
        vstd::arithmetic::div_mod::lemma_fundamental_div_mod(n as int, base as int);
        assert((n / base) * base == base * (n / base)) by (nonlinear_arith);
    }
}

/// A number that a person types is read as its digits say: leading zeros and one plus sign
/// before them do not count. Text with anything else in it is no number.
pub proof fn lemma_number_as_typed(digits: Seq<char>, c: char, text: Seq<char>)
    requires
        all_digits(digits),
    ensures
        parsed_number(digits) == Some(digits_value(digits)),
        parsed_number(seq!['+'] + digits) == Some(digits_value(digits)),
        parsed_number(seq!['0'] + digits) == parsed_number(digits),
        is_digit(c) ==> parsed_number(digits.push(c)) == Some(
            digits_value(digits) * 10 + (c as nat - '0' as nat) as nat,
        ),
        !is_digit(c) ==> parsed_number(digits.push(c)) is None,
        text.len() == 0 ==> parsed_number(text) is None,
        parsed_number(text) is Some ==> forall|i: int|
            0 < i < text.len() ==> is_digit(#[trigger] text[i]),
{
    assert(is_digit(digits[0]));
    let signed = seq!['+'] + digits;
    assert(signed.skip(1) == digits);
    let more = digits.push(c);
    assert(more.drop_last() == digits);
    assert(more[0] == digits[0]);
    if is_digit(c) {
        assert forall|i: int| 0 <= i < more.len() implies is_digit(#[trigger] more[i]) by {
            if i < digits.len() {
                assert(more[i] == digits[i]);
            }
        }
    } else {
        assert(!is_digit(more[digits.len() as int]));
    }
    let zeroed = seq!['0'] + digits;
    lemma_leading_zero(digits);
    assert forall|i: int| 0 <= i < zeroed.len() implies is_digit(#[trigger] zeroed[i]) by {
        if i > 0 {
            assert(zeroed[i] == digits[i - 1]);
        }
    }
    if parsed_number(text) is Some {
        let part = unsigned_part(text);
        assert forall|i: int| 0 < i < text.len() implies is_digit(#[trigger] text[i]) by {
            if text[0] == '+' {
                assert(is_digit(part[i - 1]));
            } else {
                assert(is_digit(part[i]));
            }
        }
    }
}

proof fn lemma_leading_zero(digits: Seq<char>)
    ensures
        digits_value(seq!['0'] + digits) == digits_value(digits),
    decreases digits.len(),
{
    let zeroed = seq!['0'] + digits;
    if digits.len() == 0 {
        assert(zeroed.drop_last() == Seq::<char>::empty());
        assert(digits_value(Seq::<char>::empty()) == 0);
    } else {
        lemma_leading_zero(digits.drop_last());
        assert(zeroed.drop_last() == seq!['0'] + digits.drop_last());
    }
}

/// White space around a text does not count, however much there is of it, and what is
/// between stays as it is, with the white space in it.
pub proof fn lemma_trimmed_between(before: Seq<char>, text: Seq<char>, after: Seq<char>)
    requires
        forall|i: int| 0 <= i < before.len() ==> is_white_space(#[trigger] before[i]),
        forall|i: int| 0 <= i < after.len() ==> is_white_space(#[trigger] after[i]),
        text.len() > 0 ==> !is_white_space(text[0]) && !is_white_space(text.last()),
    ensures
        trimmed(before + text + after) == text,
    decreases before.len() + after.len(),
{
    let whole = before + text + after;
    if before.len() > 0 {
        assert(is_white_space(before[0]));
        let rest = before.skip(1);
        assert forall|i: int| 0 <= i < rest.len() implies is_white_space(#[trigger] rest[i]) by {
            assert(rest[i] == before[i + 1]);
        }
        assert(whole.skip(1) == rest + text + after);
        assert(whole[0] == before[0]);
        lemma_trimmed_between(rest, text, after);
    } else if text.len() > 0 {
        assert(whole == text + after);
        assert(whole[0] == text[0]);
        lemma_trimmed_end(text, after);
    } else if after.len() > 0 {
        assert(whole == after);
        let rest = after.skip(1);
        assert(is_white_space(after[0]));
        assert forall|i: int| 0 <= i < rest.len() implies is_white_space(#[trigger] rest[i]) by {
            assert(rest[i] == after[i + 1]);
        }
        lemma_trimmed_between(before, text, rest);
        assert(before + text + rest == rest);
    } else {
        assert(whole == text);
    }
}

proof fn lemma_trimmed_end(text: Seq<char>, after: Seq<char>)
    requires
        forall|i: int| 0 <= i < after.len() ==> is_white_space(#[trigger] after[i]),
        text.len() > 0,
        !is_white_space(text.last()),
    ensures
        trimmed_end(text + after) == text,
    decreases after.len(),
{
    if after.len() > 0 {
        assert(is_white_space(after[after.len() - 1]));
        let rest = after.drop_last();
        assert forall|i: int| 0 <= i < rest.len() implies is_white_space(#[trigger] rest[i]) by {
            assert(rest[i] == after[i]);
        }
        assert((text + after).drop_last() == text + rest);
        assert((text + after).last() == after.last());
        lemma_trimmed_end(text, rest);
    } else {
        assert(text + after == text);
    }
}

/// Lowering a text changes its capital letters alone, each to the small letter of the same
/// place in the alphabet, and a text that was lowered stays as it is.
pub proof fn lemma_lowered(text: Seq<char>, i: int)
    requires
        0 <= i < text.len(),
    ensures
        ascii_lowered(text).len() == text.len(),
        'A' <= text[i] <= 'Z' ==> ascii_lowered(text)[i] as int - 'a' as int == text[i] as int
            - 'A' as int,
        !('A' <= text[i] <= 'Z') ==> ascii_lowered(text)[i] == text[i],
        ascii_lowered(ascii_lowered(text)) == ascii_lowered(text),
{
    let low = ascii_lowered(text);
    assert forall|k: int| 0 <= k < low.len() implies ascii_lower(#[trigger] low[k]) == low[k] by {
        assert(low[k] == ascii_lower(text[k]));
    }
    assert(ascii_lowered(low) == low);
}

/// A part occurs in every text that has something before and after it, and where it occurs
/// the text is of that form.
pub proof fn lemma_part_between(before: Seq<char>, part: Seq<char>, after: Seq<char>, text: Seq<char>)
    ensures
        has_part(before + part + after, part),
        has_part(text, part) ==> exists|at: int|
            0 <= at <= text.len() - part.len() && text == #[trigger] text.take(at) + part + text.skip(
                at + part.len(),
            ),
{
    let whole = before + part + after;
    let at = before.len() as int;
    assert(whole.subrange(at, at + part.len()) == part);
    assert(occurs_at(whole, part, at));
    if has_part(text, part) {
        let at = choose|at: int| occurs_at(text, part, at);
        let found = text.subrange(at, at + part.len());
        assert(text == text.take(at) + found + text.skip(at + part.len()));
    }
}

/// Decimal digits stand for the same number wherever numbers are read.
pub proof fn lemma_decimal_digits_value(digits: Seq<char>)
    requires
        forall|i: int| 0 <= i < digits.len() ==> is_digit(#[trigger] digits[i]),
    ensures
        digits_value(digits) == numeral_value(digits, 10),
    decreases digits.len(),
{
    if digits.len() > 0 {
        let before = digits.drop_last();
        assert forall|i: int| 0 <= i < before.len() implies is_digit(#[trigger] before[i]) by {
            assert(before[i] == digits[i]);
        }
        lemma_decimal_digits_value(before);
        lemma_numeral_value_push(before, digits.last(), 10);
        assert(before.push(digits.last()) == digits);
        assert(is_digit(digits[digits.len() - 1]));
    }
}

/// White space is the space, the five control characters from the tab to the carriage
/// return, and the characters of Unicode that are spaces or end a line. A letter, a
/// digit and a mark of ASCII is none.
pub proof fn lemma_white_space(c: char)
    ensures
        (c as int) < 128 ==> is_white_space(c) == (c == ' ' || c == '\t' || c == '\n' || c == '\u{b}'
            || c == '\u{c}' || c == '\r'),
        c as int >= 128 ==> is_white_space(c) == (c as int == 0x85 || c as int == 0xa0 || c as int
            == 0x1680 || 0x2000 <= c as int <= 0x200a || c as int == 0x2028 || c as int == 0x2029
            || c as int == 0x202f || c as int == 0x205f || c as int == 0x3000),
{
}

/// A list of texts has the text of each string, and nothing else.
pub proof fn lemma_texts(list: Seq<String>, i: int)
    requires
        0 <= i < list.len(),
    ensures
        texts(list).len() == list.len(),
        texts(list)[i] == list[i]@,
        optional_text(Some(list[i])) == Some(list[i]@),
        optional_text(None) is None,
{
}

} // verus!
