//! Plain text as a sequence of characters: comparing, trimming and decimal numbers.

use vstd::prelude::*;
use vstd::string::*;

verus! {

/// A space or a tab.
pub open spec fn is_hspace(c: char) -> bool {
    c == ' ' || c == '\t'
}

/// A space, a tab or a newline.
pub open spec fn is_hspace_or_newline(c: char) -> bool {
    is_hspace(c) || c == '\n'
}

/// An ASCII decimal digit.
pub open spec fn is_digit(c: char) -> bool {
    '0' <= c <= '9'
}

/// `s` holds nothing but digits, and at least one of them.
pub open spec fn is_number(s: Seq<char>) -> bool {
    s.len() > 0 && forall|i: int| 0 <= i < s.len() ==> is_digit(#[trigger] s[i])
}

/// The number that the digits of `s` stand for, most significant first.
pub open spec fn number_value(s: Seq<char>) -> nat
    decreases s.len(),
{
    if s.len() == 0 {
        0
    } else {
        number_value(s.drop_last()) * 10 + (s.last() as nat - '0' as nat) as nat
    }
}

/// The digit that stands for `d`.
pub open spec fn digit_char(d: nat) -> char {
    (('0' as nat) + d) as char
}

/// The decimal notation of `n`, without leading zeros.
pub open spec fn decimal(n: nat) -> Seq<char>
    decreases n,
{
    if n < 10 {
        seq![digit_char(n)]
    } else {
        decimal(n / 10).push(digit_char(n % 10))
    }
}

/// `s` without the spaces and tabs that it starts with.
pub open spec fn without_leading_hspace(s: Seq<char>) -> Seq<char>
    decreases s.len(),
{
    if s.len() > 0 && is_hspace(s[0]) {
        without_leading_hspace(s.drop_first())
    } else {
        s
    }
}

/// `s` without the spaces, tabs and newlines that it ends with.
pub open spec fn without_trailing_space(s: Seq<char>) -> Seq<char>
    decreases s.len(),
{
    if s.len() > 0 && is_hspace_or_newline(s.last()) {
        without_trailing_space(s.drop_last())
    } else {
        s
    }
}

/// `part` stands in `s` at `at`.
pub open spec fn occurs_at(s: Seq<char>, part: Seq<char>, at: int) -> bool {
    0 <= at && at + part.len() <= s.len() && s.subrange(at, at + part.len()) == part
}

/// `s` holds no newline from `from` up to `to`.
pub open spec fn no_newline(s: Seq<char>, from: int, to: int) -> bool {
    forall|i: int| from <= i < to ==> #[trigger] s[i] != '\n'
}

/// Decimal notation loses nothing: reading back the digits of `n` gives `n`.
pub proof fn decimal_reads_back(n: nat)
    ensures
        is_number(decimal(n)),
        number_value(decimal(n)) == n,
    decreases n,
{
    reveal_with_fuel(number_value, 2);
    if n < 10 {
        assert(decimal(n).drop_last() =~= Seq::<char>::empty());
        assert(decimal(n).last() == digit_char(n));
    } else {
        decimal_reads_back(n / 10);
        assert(decimal(n).drop_last() =~= decimal(n / 10));
        assert(decimal(n).last() == digit_char(n % 10));
    }
}

/// Two numbers with the same decimal notation are the same number.
pub proof fn decimal_is_injective(m: nat, n: nat)
    requires
        decimal(m) == decimal(n),
    ensures
        m == n,
{
    decimal_reads_back(m);
    decimal_reads_back(n);
}

/// The characters of `s`.
pub fn chars_of(s: &str) -> (chars: Vec<char>)
    ensures
        chars@ == s@,
{
    let mut chars: Vec<char> = Vec::new();
    for c in iter: s.chars()
        invariant
            iter.seq() == s@,
            chars@ == s@.take(iter.index() as int),
    {
        chars.push(c);
    }
    assert(s@.take(s@.len() as int) =~= s@);
    chars
}

/// Whether the two strings hold the same characters.
pub fn same_text(a: &str, b: &str) -> (same: bool)
    ensures
        same == (a@ == b@),
{
    let x = chars_of(a);
    let y = chars_of(b);
    assert(a@.len() == b@.len() ==> a@.subrange(0, b@.len() as int) =~= a@);
    x.len() == y.len() && literal_at(&x, 0, b)
}

/// Whether `part` stands in `chars` at `at`.
pub fn literal_at(chars: &Vec<char>, at: usize, part: &str) -> (found: bool)
    requires
        at <= chars.len(),
    ensures
        found == occurs_at(chars@, part@, at as int),
{
    let wanted = chars_of(part);
    if wanted.len() > chars.len() - at {
        return false;
    }
    let mut i: usize = 0;
    while i < wanted.len()
        invariant
            i <= wanted.len(),
            wanted@ == part@,
            at + wanted.len() <= chars.len(),
            forall|j: int| 0 <= j < i ==> chars[at + j] == wanted[j],
        decreases wanted.len() - i,
    {
        if chars[at + i] != wanted[i] {
            assert(chars@.subrange(at as int, at + part@.len())[i as int] != part@[i as int]);
            return false;
        }
        i = i + 1;
    }
    assert(chars@.subrange(at as int, at + part@.len()) =~= part@);
    true
}

/// Whether no newline stands in `chars` from `from` on.
pub fn newline_free(chars: &Vec<char>, from: usize) -> (free: bool)
    requires
        from <= chars.len(),
    ensures
        free == no_newline(chars@, from as int, chars@.len() as int),
{
    let mut i: usize = from;
    while i < chars.len()
        invariant
            from <= i <= chars.len(),
            no_newline(chars@, from as int, i as int),
        decreases chars.len() - i,
    {
        if chars[i] == '\n' {
            return false;
        }
        i = i + 1;
    }
    true
}

/// The end of the run of digits that starts at `from`.
pub fn digits_end(chars: &Vec<char>, from: usize) -> (end: usize)
    requires
        from <= chars.len(),
    ensures
        from <= end <= chars.len(),
        forall|i: int| from <= i < end ==> is_digit(#[trigger] chars[i]),
        end < chars.len() ==> !is_digit(chars[end as int]),
{
    let mut i: usize = from;
    while i < chars.len() && '0' <= chars[i] && chars[i] <= '9'
        invariant
            from <= i <= chars.len(),
            forall|j: int| from <= j < i ==> is_digit(#[trigger] chars[j]),
        decreases chars.len() - i,
    {
        i = i + 1;
    }
    i
}

/// The number written in `chars` from `from` up to `to`, if it is no more than `limit`.
pub fn parse_number(chars: &Vec<char>, from: usize, to: usize, limit: u64) -> (number: Option<u64>)
    requires
        from <= to <= chars.len(),
        is_number(chars@.subrange(from as int, to as int)),
    ensures
        ({
            let value = number_value(chars@.subrange(from as int, to as int));
            number == if value <= limit { Some(value as u64) } else { None::<u64> }
        }),
{
    let ghost text = chars@.subrange(from as int, to as int);
    let mut value: u64 = 0;
    let mut i: usize = from;
    while i < to
        invariant
            from <= i <= to <= chars.len(),
            text == chars@.subrange(from as int, to as int),
            is_number(text),
            value == number_value(text.take(i - from)),
            value <= limit,
        decreases to - i,
    {
        proof {
            assert(text.take(i - from + 1).drop_last() =~= text.take(i - from));
            assert(text.take(i - from + 1).last() == text[i - from]);
            assert(is_digit(text[i - from]));
            prefix_value_is_no_greater(text, i - from + 1);
        }
        let digit: u64 = chars[i] as u64 - '0' as u64;
        if value > limit / 10 || digit > limit - value * 10 {
            return None;
        }
        value = value * 10 + digit;
        i = i + 1;
    }
    assert(text.take(to - from) =~= text);
    Some(value)
}

/// The number that a run of digits starts with is no greater than the whole.
proof fn prefix_value_is_no_greater(s: Seq<char>, n: int)
    requires
        0 <= n <= s.len(),
        forall|i: int| 0 <= i < s.len() ==> is_digit(#[trigger] s[i]),
    ensures
        number_value(s.take(n)) <= number_value(s),
    decreases s.len(),
{
    if n == s.len() {
        assert(s.take(n) =~= s);
    } else {
        prefix_value_is_no_greater(s.drop_last(), n);
        assert(s.drop_last().take(n) =~= s.take(n));
    }
}

/// The digit for `d`, as a string.
fn digit_text(d: u64) -> (text: &'static str)
    requires
        d < 10,
    ensures
        text@ == seq![digit_char(d as nat)],
{
    proof {
        reveal_strlit("0");
        reveal_strlit("1");
        reveal_strlit("2");
        reveal_strlit("3");
        reveal_strlit("4");
        reveal_strlit("5");
        reveal_strlit("6");
        reveal_strlit("7");
        reveal_strlit("8");
        reveal_strlit("9");
    }
    let text = match d {
        0 => "0",
        1 => "1",
        2 => "2",
        3 => "3",
        4 => "4",
        5 => "5",
        6 => "6",
        7 => "7",
        8 => "8",
        _ => "9",
    };
    assert(text@ =~= seq![digit_char(d as nat)]);
    text
}

/// The decimal notation of `n`.
pub fn decimal_text(n: u64) -> (text: String)
    ensures
        text@ == decimal(n as nat),
    decreases n,
{
    if n < 10 {
        digit_text(n).to_owned()
    } else {
        let mut text = decimal_text(n / 10);
        text.append(digit_text(n % 10));
        assert(text@ =~= decimal((n / 10) as nat).push(digit_char((n % 10) as nat)));
        text
    }
}

/// The characters with the Unicode property `White_Space`.
pub open spec fn is_white_space(c: char) -> bool {
    ||| '\u{9}' <= c <= '\u{d}'
    ||| c == ' ' || c == '\u{85}' || c == '\u{a0}' || c == '\u{1680}'
    ||| '\u{2000}' <= c <= '\u{200a}'
    ||| c == '\u{2028}' || c == '\u{2029}' || c == '\u{202f}' || c == '\u{205f}' || c == '\u{3000}'
}

/// Whether the character has the Unicode property `White_Space`.
pub fn is_whitespace(c: char) -> (whitespace: bool)
    ensures
        whitespace == is_white_space(c),
{
    '\u{9}' <= c && c <= '\u{d}' || c == ' ' || c == '\u{85}' || c == '\u{a0}' || c == '\u{1680}'
        || '\u{2000}' <= c && c <= '\u{200a}' || c == '\u{2028}' || c == '\u{2029}' || c
        == '\u{202f}' || c == '\u{205f}' || c == '\u{3000}'
}

// === What holds of all texts ===

/// Nothing but spaces and tabs is taken off the start of a text, and no space or tab is left there.
pub proof fn only_leading_hspace_goes(s: Seq<char>)
    ensures
        ({
            let rest = without_leading_hspace(s);
            let cut = s.len() - rest.len();
            &&& cut >= 0
            &&& rest == s.skip(cut)
            &&& forall|i: int| 0 <= i < cut ==> #[trigger] s[i] == ' ' || s[i] == '\t'
            &&& rest.len() > 0 ==> rest[0] != ' ' && rest[0] != '\t'
        }),
    decreases s.len(),
{
    if s.len() > 0 && is_hspace(s[0]) {
        let tail = s.drop_first();
        only_leading_hspace_goes(tail);
        let rest = without_leading_hspace(s);
        let cut = s.len() - rest.len();
        assert(rest =~= s.skip(cut));
        assert forall|i: int| 0 <= i < cut implies #[trigger] s[i] == ' ' || s[i] == '\t' by {
            if i > 0 {
                assert(tail[i - 1] == s[i]);
            }
        }
    } else {
        assert(s.skip(0) =~= s);
    }
}

/// Nothing but spaces, tabs and newlines is taken off the end of a text, and none is left there.
pub proof fn only_trailing_space_goes(s: Seq<char>)
    ensures
        ({
            let rest = without_trailing_space(s);
            &&& rest.len() <= s.len()
            &&& rest == s.take(rest.len() as int)
            &&& forall|i: int|
                rest.len() <= i < s.len() ==> #[trigger] s[i] == ' ' || s[i] == '\t' || s[i] == '\n'
            &&& rest.len() > 0 ==> rest.last() != ' ' && rest.last() != '\t' && rest.last() != '\n'
        }),
    decreases s.len(),
{
    if s.len() > 0 && is_hspace_or_newline(s.last()) {
        let front = s.drop_last();
        only_trailing_space_goes(front);
        let rest = without_trailing_space(s);
        assert(rest =~= s.take(rest.len() as int));
        assert forall|i: int| rest.len() <= i < s.len() implies #[trigger] s[i] == ' ' || s[i]
            == '\t' || s[i] == '\n' by {
            if i < front.len() {
                assert(front[i] == s[i]);
            }
        }
    } else {
        assert(s.take(s.len() as int) =~= s);
    }
}

/// A part stands in a text where its characters do, one by one.
pub proof fn a_part_stands_where_its_characters_do(s: Seq<char>, part: Seq<char>, at: int)
    ensures
        occurs_at(s, part, at) <==> {
            &&& 0 <= at
            &&& at + part.len() <= s.len()
            &&& forall|i: int| 0 <= i < part.len() ==> s[at + i] == #[trigger] part[i]
        },
{
    if 0 <= at && at + part.len() <= s.len() {
        let there = s.subrange(at, at + part.len());
        assert forall|i: int| 0 <= i < part.len() implies there[i] == s[at + i] by {}
        if forall|i: int| 0 <= i < part.len() ==> s[at + i] == #[trigger] part[i] {
            assert(there =~= part);
        }
    }
}

/// A number is made of the characters from `0` to `9`, and each stands for as much as it says.
pub proof fn digits_stand_for_themselves(s: Seq<char>, d: nat)
    requires
        d < 10,
    ensures
        is_number(s) <==> s.len() > 0 && forall|i: int|
            0 <= i < s.len() ==> '0' <= #[trigger] s[i] && s[i] <= '9',
        number_value(seq![(48 + d) as char]) == d,
        decimal(d) == seq![(48 + d) as char],
{
    reveal_with_fuel(number_value, 2);
    let one = seq![(48 + d) as char];
    assert(one.drop_last() =~= Seq::<char>::empty());
    assert(number_value(one.drop_last()) == 0);
}

/// What stands before other digits counts ten times as much for each of them.
pub proof fn numbers_are_decimal(a: Seq<char>, b: Seq<char>)
    ensures
        number_value(a + b) == number_value(a) * vstd::arithmetic::power::pow(10, b.len()) + number_value(b),
    decreases b.len(),
{
    vstd::arithmetic::power::lemma_pow0(10);
    if b.len() == 0 {
        assert(a + b =~= a);
    } else {
        let rest = b.drop_last();
        numbers_are_decimal(a, rest);
        assert((a + b).drop_last() =~= a + rest);
        assert((a + b).last() == b.last());
        let n = number_value(a) as int;
        let p = vstd::arithmetic::power::pow(10, rest.len());
        assert(vstd::arithmetic::power::pow(10, b.len()) == 10 * p) by {
            reveal(vstd::arithmetic::power::pow);
        }
        assert((n * p) * 10 == n * (10 * p)) by (nonlinear_arith);
    }
}

/// Decimal notation starts with a zero only if that is all.
pub proof fn decimal_has_no_leading_zero(n: nat)
    ensures
        decimal(n)[0] == '0' ==> n == 0 && decimal(n).len() == 1,
    decreases n,
{
    if n >= 10 {
        decimal_has_no_leading_zero(n / 10);
        decimal_reads_back(n / 10);
        assert(decimal(n)[0] == decimal(n / 10)[0]);
    }
}

} // verus!
