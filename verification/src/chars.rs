//! Character classification and string building used by the parser.

use itertools::Itertools;
use vstd::prelude::*;

verus! {

/// Unicode's `White_Space` property of a character: the tab, line feed,
/// vertical tab, form feed and carriage return, the space, the next-line
/// character, the no-break spaces, the Ogham space mark, the en quad to the
/// hair space, the line and paragraph separators, the medium mathematical
/// space and the ideographic space.
pub open spec fn char_is_whitespace(c: char) -> bool {
    ||| '\u{9}' <= c <= '\u{d}'
    ||| c == ' '
    ||| c == '\u{85}'
    ||| c == '\u{a0}'
    ||| c == '\u{1680}'
    ||| '\u{2000}' <= c <= '\u{200a}'
    ||| c == '\u{2028}'
    ||| c == '\u{2029}'
    ||| c == '\u{202f}'
    ||| c == '\u{205f}'
    ||| c == '\u{3000}'
}

/// Unicode's `Lowercase` property of a character.
pub uninterp spec fn char_is_lowercase(c: char) -> bool;

/// Unicode's `Uppercase` property of a character.
pub uninterp spec fn char_is_uppercase(c: char) -> bool;

/// Whether the character has Unicode's `White_Space` property (as std's
/// `char::is_whitespace`).
pub(crate) fn is_whitespace(c: char) -> (b: bool)
    ensures
        b == char_is_whitespace(c),
{
    ('\u{9}' <= c && c <= '\u{d}') || c == ' ' || c == '\u{85}' || c == '\u{a0}' || c
        == '\u{1680}' || ('\u{2000}' <= c && c <= '\u{200a}') || c == '\u{2028}' || c
        == '\u{2029}' || c == '\u{202f}' || c == '\u{205f}' || c == '\u{3000}'
}

/// Calls std's `char::is_lowercase`, which reports Unicode's `Lowercase`
/// property; the contract only ties the result to that property by name.
#[verifier::external_body]
pub(crate) fn is_lowercase(c: char) -> (b: bool)
    ensures
        b == char_is_lowercase(c),
{
    c.is_lowercase()
}

/// Calls std's `char::is_uppercase`, which reports Unicode's `Uppercase`
/// property; the contract only ties the result to that property by name.
#[verifier::external_body]
pub(crate) fn is_uppercase(c: char) -> (b: bool)
    ensures
        b == char_is_uppercase(c),
{
    c.is_uppercase()
}

/// ASCII digits `0` to `9`.
pub open spec fn spec_is_ascii_digit(c: char) -> bool {
    '0' <= c <= '9'
}

/// ASCII letters and digits.
pub open spec fn spec_is_ascii_alphanumeric(c: char) -> bool {
    ('0' <= c <= '9') || ('a' <= c <= 'z') || ('A' <= c <= 'Z')
}

/// Whether the character is an ASCII digit (as std's `char::is_ascii_digit`).
pub fn is_ascii_digit(c: char) -> (b: bool)
    ensures
        b == spec_is_ascii_digit(c),
{
    '0' <= c && c <= '9'
}

/// Whether the character is an ASCII letter or digit (as std's
/// `char::is_ascii_alphanumeric`).
pub fn is_ascii_alphanumeric(c: char) -> (b: bool)
    ensures
        b == spec_is_ascii_alphanumeric(c),
{
    ('0' <= c && c <= '9') || ('a' <= c && c <= 'z') || ('A' <= c && c <= 'Z')
}

/// Joins the characters into a string with itertools' `join` and an empty
/// separator; itertools documents `join` as concatenating the `Display` form
/// of each element with the separator in between, and a character displays
/// as itself.
#[verifier::external_body]
pub(crate) fn join_chars(chars: Vec<char>) -> (s: String)
    ensures
        s@ == chars@,
{
    chars.into_iter().join("")
}

/// What Unicode maps the character to in lowercase (possibly several
/// characters).
pub uninterp spec fn char_lowercase(c: char) -> Seq<char>;

/// What Unicode maps the character to in uppercase (possibly several
/// characters).
pub uninterp spec fn char_uppercase(c: char) -> Seq<char>;

/// Collects std's `char::to_lowercase`, which yields the Unicode lowercase
/// mapping of the character (a function of the character alone); the contract
/// names that mapping.
#[verifier::external_body]
pub(crate) fn to_lowercase(c: char) -> (res: Vec<char>)
    ensures
        res@ == char_lowercase(c),
{
    c.to_lowercase().collect()
}

/// Collects std's `char::to_uppercase`, which yields the Unicode uppercase
/// mapping of the character (a function of the character alone); the contract
/// names that mapping.
#[verifier::external_body]
pub(crate) fn to_uppercase(c: char) -> (res: Vec<char>)
    ensures
        res@ == char_uppercase(c),
{
    c.to_uppercase().collect()
}

/// The decimal digit of a number below ten.
pub open spec fn digit_char(d: nat) -> char {
    if d == 0 {
        '0'
    } else if d == 1 {
        '1'
    } else if d == 2 {
        '2'
    } else if d == 3 {
        '3'
    } else if d == 4 {
        '4'
    } else if d == 5 {
        '5'
    } else if d == 6 {
        '6'
    } else if d == 7 {
        '7'
    } else if d == 8 {
        '8'
    } else {
        '9'
    }
}

/// The decimal digits of the number, most significant first, without leading
/// zeros.
pub open spec fn decimal(n: nat) -> Seq<char>
    decreases n,
{
    if n < 10 {
        seq![digit_char(n)]
    } else {
        decimal(n / 10).push(digit_char(n % 10))
    }
}

fn digit(d: usize) -> (c: char)
    requires
        d < 10,
    ensures
        c == digit_char(d as nat),
{
    match d {
        0 => '0',
        1 => '1',
        2 => '2',
        3 => '3',
        4 => '4',
        5 => '5',
        6 => '6',
        7 => '7',
        8 => '8',
        _ => '9',
    }
}

fn push_decimal(out: &mut Vec<char>, n: usize)
    ensures
        final(out)@ == old(out)@ + decimal(n as nat),
    decreases n,
{
    if n >= 10 {
        push_decimal(out, n / 10);
    }
    let ghost mid = out@;
    out.push(digit(n % 10));
    proof {
        if n >= 10 {
            assert(out@ =~= old(out)@ + decimal(n as nat));
        } else {
            assert(out@ =~= old(out)@ + decimal(n as nat));
        }
    }
}

/// The number in decimal (as std writes a `usize` with `Display` or
/// `Debug`).
pub fn decimal_text(n: usize) -> (res: String)
    ensures
        res@ == decimal(n as nat),
{
    let mut chars: Vec<char> = Vec::new();
    push_decimal(&mut chars, n);
    proof {
        assert(chars@ =~= decimal(n as nat));
    }
    join_chars(chars)
}

/// Different numbers have different decimal digits.
pub proof fn lemma_decimal_injective(n: nat, m: nat)
    requires
        decimal(n) == decimal(m),
    ensures
        n == m,
    decreases n,
{
    let a = decimal(n);
    let b = decimal(m);
    if n >= 10 {
        lemma_decimal_nonempty(n / 10);
    }
    if m >= 10 {
        lemma_decimal_nonempty(m / 10);
    }
    assert(a.last() == digit_char(n % 10));
    assert(b.last() == digit_char(m % 10));
    assert(n % 10 == m % 10);
    if n < 10 && m < 10 {
    } else if n >= 10 && m >= 10 {
        assert(a.drop_last() =~= decimal(n / 10));
        assert(b.drop_last() =~= decimal(m / 10));
        lemma_decimal_injective(n / 10, m / 10);
    } else {
        assert(a.len() != b.len());
    }
}

/// A decimal has at least one digit.
proof fn lemma_decimal_nonempty(n: nat)
    ensures
        decimal(n).len() >= 1,
    decreases n,
{
    if n >= 10 {
        lemma_decimal_nonempty(n / 10);
    }
}

} // verus!
