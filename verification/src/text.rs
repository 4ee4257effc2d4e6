//! Text as sequences of characters: literals at a position, delimited runs,
//! and decimal numbers.
//!
//! Strategy text is read from a character buffer by position. The functions
//! here are the scanner's vocabulary, each paired with the spec function that
//! says what it finds.

use vstd::prelude::*;

verus! {

/// `String::push` of the standard library, which appends one character to a
/// string: the string afterwards is the string before with the character at
/// its end. Taken on trust.
pub assume_specification[ String::push ](s: &mut String, c: char)
    ensures
        final(s)@ == old(s)@.push(c),
;

/// The characters of a string, in order.
pub fn chars_of(s: &str) -> (chars: Vec<char>)
    ensures
        chars@ == s@,
{
    let mut chars: Vec<char> = Vec::new();
    for c in it: s.chars()
        invariant
            it.seq() == s@,
            chars@ == it.seq().take(it.index() as int),
    {
        chars.push(c);
    }
    chars
}

/// The text between two positions of a buffer.
pub(crate) fn text_of(chars: &[char], from: usize, to: usize) -> (text: String)
    requires
        from <= to <= chars.len(),
    ensures
        text@ == chars@.subrange(from as int, to as int),
{
    let mut text = String::new();
    let mut i: usize = from;
    while i < to
        invariant
            from <= i <= to <= chars.len(),
            text@ == chars@.subrange(from as int, i as int),
        decreases to - i,
    {
        text.push(chars[i]);
        assert(chars@.subrange(from as int, i + 1) == chars@.subrange(from as int, i as int).push(
            chars@[i as int],
        ));
        i += 1;
    }
    text
}

/// `lit` stands in `s` at position `pos`.
pub open spec fn occurs_at(s: Seq<char>, pos: int, lit: Seq<char>) -> bool {
    &&& 0 <= pos
    &&& pos + lit.len() <= s.len()
    &&& s.subrange(pos, pos + lit.len()) == lit
}

/// Tests whether a literal stands at a position of the buffer.
pub(crate) fn looking_at(chars: &[char], pos: usize, lit: &str) -> (found: bool)
    requires
        pos <= chars.len(),
    ensures
        found == occurs_at(chars@, pos as int, lit@),
{
    let mut i: usize = pos;
    for c in it: lit.chars()
        invariant
            it.seq() == lit@,
            pos <= i <= chars.len(),
            i == pos + it.index(),
            chars@.subrange(pos as int, i as int) == lit@.take(it.index() as int),
    {
        if i >= chars.len() {
            return false;
        }
        if chars[i] != c {
            assert(!occurs_at(chars@, pos as int, lit@)) by {
                if occurs_at(chars@, pos as int, lit@) {
                    assert(chars@.subrange(pos as int, pos + lit@.len())[i - pos] == lit@[i - pos]);
                }
            }
            return false;
        }
        assert(chars@.subrange(pos as int, i + 1) == chars@.subrange(pos as int, i as int).push(
            chars@[i as int],
        ));
        assert(lit@.take(it.index() + 1) == lit@.take(it.index() as int).push(c));
        i += 1;
    }
    assert(lit@.take(lit@.len() as int) == lit@);
    true
}

/// Tests whether two given characters stand at a position of the buffer, one
/// behind the other.
pub(crate) fn looking_at_two(chars: &[char], pos: usize, a: char, b: char) -> (found: bool)
    requires
        pos <= chars.len(),
    ensures
        found == occurs_at(chars@, pos as int, seq![a, b]),
{
    if chars.len() - pos < 2 {
        return false;
    }
    let found = chars[pos] == a && chars[pos + 1] == b;
    proof {
        let two = chars@.subrange(pos as int, pos + 2);
        assert(two[0] == chars@[pos as int] && two[1] == chars@[pos + 1]);
        if found {
            assert(two == seq![a, b]);
        } else {
            assert(seq![a, b][0] == a && seq![a, b][1] == b);
        }
    }
    found
}

/// Tests whether the text between two positions is exactly a literal.
pub(crate) fn text_is(chars: &[char], from: usize, to: usize, lit: &str) -> (same: bool)
    requires
        from <= to <= chars.len(),
    ensures
        same == (chars@.subrange(from as int, to as int) == lit@),
{
    if !looking_at(chars, from, lit) {
        assert(chars@.subrange(from as int, to as int) != lit@) by {
            if chars@.subrange(from as int, to as int) == lit@ {
                assert(to - from == lit@.len());
            }
        }
        return false;
    }
    let n = lit.unicode_len();
    n == to - from
}

/// The character that writes the decimal digit `d`.
pub open spec fn digit_char(d: nat) -> char {
    (48 + d) as char
}

/// `c` is one of the ten decimal digits.
pub open spec fn is_digit(c: char) -> bool {
    48 <= c as int <= 57
}

/// The number that a decimal digit stands for.
pub open spec fn digit_value(c: char) -> nat {
    (c as int - 48) as nat
}

/// Every character of `s` is a decimal digit.
pub open spec fn all_digits(s: Seq<char>) -> bool {
    forall|i: int| 0 <= i < s.len() ==> is_digit(#[trigger] s[i])
}

/// The shortest decimal writing of `n`: no sign, no leading zero.
pub open spec fn decimal(n: nat) -> Seq<char>
    decreases n,
{
    if n < 10 {
        seq![digit_char(n)]
    } else {
        decimal(n / 10).push(digit_char(n % 10))
    }
}

/// The number that a string of decimal digits writes; leading zeros count for
/// nothing, and the empty string writes zero.
pub open spec fn number(s: Seq<char>) -> nat
    decreases s.len(),
{
    if s.len() == 0 {
        0
    } else {
        number(s.drop_last()) * 10 + digit_value(s.last())
    }
}

/// Reading a number's decimal writing gives the number back.
pub(crate) proof fn lemma_decimal_reads_back(n: nat)
    ensures
        decimal(n).len() >= 1,
        all_digits(decimal(n)),
        number(decimal(n)) == n,
    decreases n,
{
    if n < 10 {
        assert(decimal(n).drop_last() == Seq::<char>::empty());
        assert(number(decimal(n).drop_last()) == 0);
    } else {
        lemma_decimal_reads_back(n / 10);
        assert(decimal(n).drop_last() == decimal(n / 10));
    }
}

/// A prefix of a digit string writes no more than the whole string.
pub(crate) proof fn lemma_number_grows(s: Seq<char>, k: int)
    requires
        0 <= k <= s.len(),
    ensures
        number(s.take(k)) <= number(s),
    decreases s.len(),
{
    if k < s.len() {
        lemma_number_grows(s.drop_last(), k);
        assert(s.drop_last().take(k) == s.take(k));
    } else {
        assert(s.take(k) == s);
    }
}

/// Appends the decimal writing of `n` to a string.
pub fn push_decimal(out: &mut String, n: u64)
    ensures
        final(out)@ == old(out)@ + decimal(n as nat),
    decreases n,
{
    if n >= 10 {
        push_decimal(out, n / 10);
    }
    let d: u8 = (n % 10) as u8;
    out.push((48u8 + d) as char);
    assert(final(out)@ == old(out)@ + decimal(n as nat));
}

/// Reads the digit string between two positions as a number, unless the
/// number exceeds `limit`.
pub(crate) fn read_number(chars: &[char], from: usize, to: usize, limit: u64) -> (value: Option<u64>)
    requires
        from <= to <= chars.len(),
        all_digits(chars@.subrange(from as int, to as int)),
    ensures
        value == if number(chars@.subrange(from as int, to as int)) <= limit {
            Some(number(chars@.subrange(from as int, to as int)) as u64)
        } else {
            None
        },
{
    let ghost digits = chars@.subrange(from as int, to as int);
    let mut value: u64 = 0;
    let mut i: usize = from;
    while i < to
        invariant
            from <= i <= to <= chars.len(),
            digits == chars@.subrange(from as int, to as int),
            all_digits(digits),
            value == number(digits.take(i - from)),
            value <= limit,
        decreases to - i,
    {
        let c = chars[i];
        assert(c == digits[i - from]);
        let d: u64 = (c as u32 - 48) as u64;
        proof {
            let next = digits.take(i - from + 1);
            assert(next.drop_last() == digits.take(i - from));
            assert(next.last() == c);
            assert(number(next) == value * 10 + d);
            lemma_number_grows(digits, i - from + 1);
        }
        if d > limit || value > (limit - d) / 10 {
            return None;
        }
        value = value * 10 + d;
        i += 1;
    }
    assert(digits.take(to - from) == digits);
    Some(value)
}

/// `c` stands in `s` at position `at`.
pub open spec fn stands(s: Seq<char>, at: int, c: char) -> bool {
    0 <= at < s.len() && s[at] == c
}

/// `c` is a blank: a space, a tab, a line feed or a carriage return.
pub open spec fn is_blank(c: char) -> bool {
    c == ' ' || c == '\t' || c == '\n' || c == '\r'
}

/// The number of blanks that stand in a row from `pos` on.
pub open spec fn blank_len(s: Seq<char>, pos: int) -> nat
    decreases s.len() - pos,
{
    if 0 <= pos < s.len() && is_blank(s[pos]) {
        1 + blank_len(s, pos + 1)
    } else {
        0
    }
}

/// The number of decimal digits that stand in a row from `pos` on.
pub open spec fn digits_len(s: Seq<char>, pos: int) -> nat
    decreases s.len() - pos,
{
    if 0 <= pos < s.len() && is_digit(s[pos]) {
        1 + digits_len(s, pos + 1)
    } else {
        0
    }
}

/// The number of characters from `pos` on before the first `a` or `b`, or
/// before the end of the text where neither follows.
pub open spec fn run_len(s: Seq<char>, pos: int, a: char, b: char) -> nat
    decreases s.len() - pos,
{
    if 0 <= pos < s.len() && s[pos] != a && s[pos] != b {
        1 + run_len(s, pos + 1, a, b)
    } else {
        0
    }
}

/// `s` holds neither `a` nor `b`.
pub open spec fn free_of(s: Seq<char>, a: char, b: char) -> bool {
    forall|i: int| 0 <= i < s.len() ==> #[trigger] s[i] != a && s[i] != b
}

/// `c` is a letter, a digit or a hyphen: a character of which names are made.
pub open spec fn is_word(c: char) -> bool {
    ||| 'a' <= c <= 'z'
    ||| 'A' <= c <= 'Z'
    ||| '0' <= c <= '9'
    ||| c == '-'
}

/// Every character of `s` is a letter, a digit or a hyphen.
pub open spec fn all_word(s: Seq<char>) -> bool {
    forall|i: int| 0 <= i < s.len() ==> is_word(#[trigger] s[i])
}

/// Steps over blanks.
pub(crate) fn skip_blanks(chars: &[char], pos: usize) -> (end: usize)
    requires
        pos <= chars.len(),
    ensures
        end == pos + blank_len(chars@, pos as int),
        end <= chars.len(),
{
    let mut i: usize = pos;
    while i < chars.len() && (chars[i] == ' ' || chars[i] == '\t' || chars[i] == '\n' || chars[i]
        == '\r')
        invariant
            pos <= i <= chars.len(),
            pos + blank_len(chars@, pos as int) == i + blank_len(chars@, i as int),
        decreases chars.len() - i,
    {
        i += 1;
    }
    i
}

/// Steps over decimal digits.
pub(crate) fn skip_digits(chars: &[char], pos: usize) -> (end: usize)
    requires
        pos <= chars.len(),
    ensures
        end == pos + digits_len(chars@, pos as int),
        end <= chars.len(),
        all_digits(chars@.subrange(pos as int, end as int)),
{
    let mut i: usize = pos;
    while i < chars.len() && '0' <= chars[i] && chars[i] <= '9'
        invariant
            pos <= i <= chars.len(),
            pos + digits_len(chars@, pos as int) == i + digits_len(chars@, i as int),
            all_digits(chars@.subrange(pos as int, i as int)),
        decreases chars.len() - i,
    {
        assert(chars@.subrange(pos as int, i + 1) == chars@.subrange(pos as int, i as int).push(
            chars@[i as int],
        ));
        i += 1;
    }
    i
}

/// Steps over a run of characters other than `a` and `b`.
pub(crate) fn skip_run(chars: &[char], pos: usize, a: char, b: char) -> (end: usize)
    requires
        pos <= chars.len(),
    ensures
        end == pos + run_len(chars@, pos as int, a, b),
        end <= chars.len(),
{
    let mut i: usize = pos;
    while i < chars.len() && chars[i] != a && chars[i] != b
        invariant
            pos <= i <= chars.len(),
            pos + run_len(chars@, pos as int, a, b) == i + run_len(chars@, i as int, a, b),
        decreases chars.len() - i,
    {
        i += 1;
    }
    i
}

/// A run ends inside the text, holds neither delimiter, and stops at a
/// delimiter or at the end of the text.
pub(crate) proof fn lemma_run(s: Seq<char>, pos: int, a: char, b: char)
    requires
        0 <= pos <= s.len(),
    ensures
        pos + run_len(s, pos, a, b) <= s.len(),
        free_of(s.subrange(pos, pos + run_len(s, pos, a, b)), a, b),
        pos + run_len(s, pos, a, b) == s.len() || stands(s, pos + run_len(s, pos, a, b), a)
            || stands(s, pos + run_len(s, pos, a, b), b),
    decreases s.len() - pos,
{
    if pos < s.len() && s[pos] != a && s[pos] != b {
        lemma_run(s, pos + 1, a, b);
        let n = run_len(s, pos, a, b);
        assert forall|i: int| 0 <= i < n implies #[trigger] s.subrange(pos, pos + n)[i] != a
            && s.subrange(pos, pos + n)[i] != b by {
            if i > 0 {
                assert(s.subrange(pos, pos + n)[i] == s.subrange(pos + 1, pos + n)[i - 1]);
            }
        }
    }
}

/// Where a text free of both delimiters stands before a delimiter or the end,
/// the run is exactly that text.
pub(crate) proof fn lemma_run_exact(s: Seq<char>, pos: int, t: Seq<char>, a: char, b: char)
    requires
        occurs_at(s, pos, t),
        free_of(t, a, b),
        pos + t.len() == s.len() || stands(s, pos + t.len(), a) || stands(s, pos + t.len(), b),
    ensures
        run_len(s, pos, a, b) == t.len(),
    decreases t.len(),
{
    if t.len() > 0 {
        assert(s[pos] == s.subrange(pos, pos + t.len())[0]);
        assert(s[pos] == t[0]);
        let rest = t.drop_first();
        assert(s.subrange(pos + 1, pos + 1 + rest.len()) == rest) by {
            assert forall|i: int| 0 <= i < rest.len() implies s.subrange(
                pos + 1,
                pos + 1 + rest.len(),
            )[i] == rest[i] by {
                assert(s.subrange(pos, pos + t.len())[i + 1] == t[i + 1]);
            }
        }
        assert forall|i: int| 0 <= i < rest.len() implies #[trigger] rest[i] != a && rest[i]
            != b by {
            assert(rest[i] == t[i + 1]);
        }
        lemma_run_exact(s, pos + 1, rest, a, b);
    }
}

/// The digits that stand in a row stop at the end of the text or before a
/// character that is no digit.
pub(crate) proof fn lemma_digits_stop(s: Seq<char>, pos: int)
    requires
        0 <= pos <= s.len(),
    ensures
        pos + digits_len(s, pos) == s.len() || !is_digit(s[pos + digits_len(s, pos)]),
    decreases s.len() - pos,
{
    if pos < s.len() && is_digit(s[pos]) {
        lemma_digits_stop(s, pos + 1);
    }
}

/// Where a digit string stands before something that is no digit, the digits
/// in a row are exactly that string.
pub(crate) proof fn lemma_digits_exact(s: Seq<char>, pos: int, t: Seq<char>)
    requires
        occurs_at(s, pos, t),
        all_digits(t),
        pos + t.len() == s.len() || !is_digit(s[pos + t.len()]),
    ensures
        digits_len(s, pos) == t.len(),
    decreases t.len(),
{
    if t.len() > 0 {
        assert(s[pos] == s.subrange(pos, pos + t.len())[0]);
        assert(s[pos] == t[0]);
        let rest = t.drop_first();
        assert(s.subrange(pos + 1, pos + 1 + rest.len()) == rest) by {
            assert forall|i: int| 0 <= i < rest.len() implies s.subrange(
                pos + 1,
                pos + 1 + rest.len(),
            )[i] == rest[i] by {
                assert(s.subrange(pos, pos + t.len())[i + 1] == t[i + 1]);
            }
        }
        assert forall|i: int| 0 <= i < rest.len() implies is_digit(#[trigger] rest[i]) by {
            assert(rest[i] == t[i + 1]);
        }
        lemma_digits_exact(s, pos + 1, rest);
    }
}

/// A one-character text stands where the character stands.
pub(crate) proof fn lemma_occurs_char(s: Seq<char>, at: int, c: char)
    ensures
        occurs_at(s, at, seq![c]) <==> stands(s, at, c),
{
    if occurs_at(s, at, seq![c]) {
        assert(s.subrange(at, at + 1)[0] == seq![c][0]);
    }
    if stands(s, at, c) {
        assert(s.subrange(at, at + 1) == seq![c]);
    }
}

/// A text of word characters holds no punctuation.
pub(crate) proof fn lemma_word_is_free(s: Seq<char>, a: char, b: char)
    requires
        all_word(s),
        !is_word(a),
        !is_word(b),
    ensures
        free_of(s, a, b),
{
}

/// A text stands at a position exactly where its two halves stand one behind
/// the other.
pub(crate) proof fn lemma_occurs_split(s: Seq<char>, pos: int, a: Seq<char>, b: Seq<char>)
    ensures
        occurs_at(s, pos, a + b) <==> occurs_at(s, pos, a) && occurs_at(s, pos + a.len(), b),
{
    let n = a.len() as int;
    let m = b.len() as int;
    if occurs_at(s, pos, a + b) {
        let whole = s.subrange(pos, pos + n + m);
        assert(s.subrange(pos, pos + n) == a) by {
            assert forall|i: int| 0 <= i < n implies s.subrange(pos, pos + n)[i] == a[i] by {
                assert(whole[i] == (a + b)[i]);
            }
        }
        assert(s.subrange(pos + n, pos + n + m) == b) by {
            assert forall|i: int| 0 <= i < m implies s.subrange(pos + n, pos + n + m)[i]
                == b[i] by {
                assert(whole[n + i] == (a + b)[n + i]);
            }
        }
    }
    if occurs_at(s, pos, a) && occurs_at(s, pos + n, b) {
        assert(s.subrange(pos, pos + n + m) == a + b) by {
            assert forall|i: int| 0 <= i < n + m implies s.subrange(pos, pos + n + m)[i] == (a
                + b)[i] by {
                if i < n {
                    assert(s.subrange(pos, pos + n)[i] == a[i]);
                } else {
                    assert(s.subrange(pos + n, pos + n + m)[i - n] == b[i - n]);
                }
            }
        }
    }
}

} // verus!
