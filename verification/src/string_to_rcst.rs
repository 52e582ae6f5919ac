//! The indentation-first parser from source text to the raw concrete syntax
//! tree.
//!
//! All parsers take the remaining input and return the input that remains
//! after what they consumed. The parser is indentation-first: indentation is
//! more important than parentheses, brackets, etc. If some part of a
//! definition can't be parsed, all the surrounding code still has a chance to
//! be parsed properly.
//!
//! Each parser `f` has a mathematical counterpart `spec_f` over character
//! sequences; the executable parser's result is exactly the model's result.

use crate::chars::{
    char_is_lowercase, char_is_uppercase, char_is_whitespace, is_ascii_alphanumeric,
    is_ascii_digit, is_lowercase, is_uppercase, is_whitespace, join_chars,
    spec_is_ascii_alphanumeric, spec_is_ascii_digit,
};
use crate::rcst::{
    is_ml, is_ml_seq, lemma_rvs, lemma_rvs_add, lemma_rvs_push, rcsts_are_multiline, rv, rvs,
    spec_wrap, Rcst, RcstError, SpecRcst,
};
use crate::grammar::{
    assignment_ok, body_ok, call_ok, expression_ok, lambda_ok, lambda_parameters_ok,
    lemma_assignment_ok_unfold, lemma_body_ok_unfold, lemma_call_ok_unfold,
    lemma_expression_ok_unfold, lemma_lambda_ok_unfold, lemma_lambda_parameters_ok_unfold,
    lemma_parenthesized_ok_unfold, lemma_run_of_expressions_ok_unfold, lemma_run_rest_ok_unfold,
    lemma_struct_field_ok_unfold, lemma_struct_fields_ok_unfold, lemma_struct_ok_unfold,
    parenthesized_ok, run_of_expressions_ok, run_rest_ok, struct_field_ok, struct_fields_ok,
    struct_ok, lemma_assignment_unfold, lemma_body_unfold, lemma_call_unfold, lemma_expression_unfold,
    lemma_lambda_parameters_unfold, lemma_lambda_unfold, lemma_parenthesized_unfold,
    lemma_run_of_expressions_unfold, lemma_run_rest_unfold, lemma_struct_field_unfold,
    lemma_struct_fields_unfold, lemma_struct_unfold, spec_assignment, spec_body, spec_call,
    spec_expression, spec_lambda, spec_lambda_parameters, spec_parenthesized,
    spec_run_of_expressions, spec_run_rest, spec_struct, spec_struct_field, spec_struct_fields,
};
use vstd::prelude::*;
use vstd::slice::slice_subrange;

verus! {

// ----------------------------------------------------------------------------
// Sequences of characters.

/// `t` is what remains of `s` after dropping a prefix.
pub open spec fn is_suffix(t: Seq<char>, s: Seq<char>) -> bool {
    t.len() <= s.len() && t == s.subrange(s.len() - t.len(), s.len() as int)
}

pub proof fn lemma_suffix_refl(s: Seq<char>)
    ensures
        is_suffix(s, s),
{
    assert(s == s.subrange(0, s.len() as int));
}

pub proof fn lemma_suffix_trans(a: Seq<char>, b: Seq<char>, c: Seq<char>)
    requires
        is_suffix(a, b),
        is_suffix(b, c),
    ensures
        is_suffix(a, c),
{
    assert(a =~= c.subrange(c.len() - a.len(), c.len() as int));
}

pub proof fn lemma_suffix_skip(s: Seq<char>, n: int)
    requires
        0 <= n <= s.len(),
    ensures
        is_suffix(s.skip(n), s),
        s.skip(n).len() == s.len() - n,
{
}

/// The length of the longest prefix of `s` whose characters satisfy `p`.
pub open spec fn span(s: Seq<char>, p: spec_fn(char) -> bool) -> nat
    decreases s.len(),
{
    if s.len() > 0 && p(s[0]) {
        1 + span(s.skip(1), p)
    } else {
        0
    }
}

pub proof fn lemma_span(s: Seq<char>, p: spec_fn(char) -> bool)
    ensures
        span(s, p) <= s.len(),
        forall|j: int| 0 <= j < span(s, p) ==> p(#[trigger] s[j]),
        span(s, p) < s.len() ==> !p(s[span(s, p) as int]),
    decreases s.len(),
{
    if s.len() > 0 && p(s[0]) {
        lemma_span(s.skip(1), p);
        assert forall|j: int| 0 <= j < span(s, p) implies p(#[trigger] s[j]) by {
            if j > 0 {
                assert(s[j] == s.skip(1)[j - 1]);
            }
        }
    }
}

/// One more matching character extends the span by one.
pub proof fn lemma_span_step(s: Seq<char>, p: spec_fn(char) -> bool, i: int)
    requires
        0 <= i < s.len(),
        p(s[i]),
    ensures
        span(s.skip(i), p) == 1 + span(s.skip(i + 1), p),
{
    assert(s.skip(i).skip(1) =~= s.skip(i + 1));
}

/// A non-matching character ends the span.
pub proof fn lemma_span_stop(s: Seq<char>, p: spec_fn(char) -> bool, i: int)
    requires
        0 <= i <= s.len(),
        i == s.len() || !p(s[i]),
    ensures
        span(s.skip(i), p) == 0,
{
}

// ----------------------------------------------------------------------------
// Results.

/// The model of a parser result: the remaining input and the node.
pub open spec fn pr_view<'a>(r: Option<(&'a [char], Rcst)>) -> Option<(Seq<char>, SpecRcst)> {
    match r {
        Some((i, x)) => Some((i@, rv(x))),
        None => None,
    }
}

/// The remaining input of a successful parse is a suffix of the input.
pub open spec fn pr_suffix<'a>(r: Option<(&'a [char], Rcst)>, s: Seq<char>) -> bool {
    match r {
        Some((i, _)) => is_suffix(i@, s),
        None => true,
    }
}

/// A successful parse consumed at least one character.
pub open spec fn pr_progress<'a>(r: Option<(&'a [char], Rcst)>, s: Seq<char>) -> bool {
    match r {
        Some((i, _)) => i@.len() < s.len(),
        None => true,
    }
}

// ----------------------------------------------------------------------------
// Literals and punctuation.

/// What remains after the literal, if the input starts with it.
pub open spec fn spec_literal(s: Seq<char>, lit: Seq<char>) -> Option<Seq<char>> {
    if lit.len() <= s.len() && s.subrange(0, lit.len() as int) == lit {
        Some(s.skip(lit.len() as int))
    } else {
        None
    }
}

/// Consumes the literal if the input starts with it.
pub fn literal<'a>(input: &'a [char], lit: &[char]) -> (res: Option<&'a [char]>)
    ensures
        match res {
            Some(r) => spec_literal(input@, lit@) == Some(r@) && is_suffix(r@, input@),
            None => spec_literal(input@, lit@) is None,
        },
{
    if lit.len() > input.len() {
        return None;
    }
    let mut i: usize = 0;
    while i < lit.len()
        invariant
            lit.len() <= input.len(),
            i <= lit.len(),
            forall|j: int| 0 <= j < i ==> input@[j] == lit@[j],
        decreases lit.len() - i,
    {
        if input[i] != lit[i] {
            proof {
                assert(input@.subrange(0, lit.len() as int)[i as int] != lit@[i as int]);
            }
            return None;
        }
        i = i + 1;
    }
    proof {
        assert(input@.subrange(0, lit.len() as int) =~= lit@);
        lemma_suffix_skip(input@, lit.len() as int);
    }
    Some(slice_subrange(input, lit.len(), input.len()))
}

/// A token that is a fixed literal.
pub open spec fn spec_token(s: Seq<char>, lit: Seq<char>, r: SpecRcst) -> Option<
    (Seq<char>, SpecRcst),
> {
    match spec_literal(s, lit) {
        Some(i) => Some((i, r)),
        None => None,
    }
}

pub open spec fn spec_equals_sign(s: Seq<char>) -> Option<(Seq<char>, SpecRcst)> {
    spec_token(s, seq!['='], SpecRcst::EqualsSign)
}

pub open spec fn spec_comma(s: Seq<char>) -> Option<(Seq<char>, SpecRcst)> {
    spec_token(s, seq![','], SpecRcst::Comma)
}

pub open spec fn spec_colon(s: Seq<char>) -> Option<(Seq<char>, SpecRcst)> {
    spec_token(s, seq![':'], SpecRcst::Colon)
}

pub open spec fn spec_opening_bracket(s: Seq<char>) -> Option<(Seq<char>, SpecRcst)> {
    spec_token(s, seq!['['], SpecRcst::OpeningBracket)
}

pub open spec fn spec_closing_bracket(s: Seq<char>) -> Option<(Seq<char>, SpecRcst)> {
    spec_token(s, seq![']'], SpecRcst::ClosingBracket)
}

pub open spec fn spec_opening_parenthesis(s: Seq<char>) -> Option<(Seq<char>, SpecRcst)> {
    spec_token(s, seq!['('], SpecRcst::OpeningParenthesis)
}

pub open spec fn spec_closing_parenthesis(s: Seq<char>) -> Option<(Seq<char>, SpecRcst)> {
    spec_token(s, seq![')'], SpecRcst::ClosingParenthesis)
}

pub open spec fn spec_opening_curly_brace(s: Seq<char>) -> Option<(Seq<char>, SpecRcst)> {
    spec_token(s, seq!['{'], SpecRcst::OpeningCurlyBrace)
}

pub open spec fn spec_closing_curly_brace(s: Seq<char>) -> Option<(Seq<char>, SpecRcst)> {
    spec_token(s, seq!['}'], SpecRcst::ClosingCurlyBrace)
}

pub open spec fn spec_arrow(s: Seq<char>) -> Option<(Seq<char>, SpecRcst)> {
    spec_token(s, seq!['-', '>'], SpecRcst::Arrow)
}

pub open spec fn spec_double_quote(s: Seq<char>) -> Option<(Seq<char>, SpecRcst)> {
    spec_token(s, seq!['"'], SpecRcst::DoubleQuote)
}

pub open spec fn spec_octothorpe(s: Seq<char>) -> Option<(Seq<char>, SpecRcst)> {
    spec_token(s, seq!['#'], SpecRcst::Octothorpe)
}

/// Consumes a fixed literal and returns the given token for it.
fn token<'a>(input: &'a [char], lit: &[char], r: Rcst) -> (res: Option<(&'a [char], Rcst)>)
    ensures
        pr_view(res) == spec_token(input@, lit@, rv(r)),
        pr_suffix(res, input@),
{
    let input = literal(input, lit)?;
    Some((input, r))
}

pub fn equals_sign<'a>(input: &'a [char]) -> (res: Option<(&'a [char], Rcst)>)
    ensures
        pr_view(res) == spec_equals_sign(input@),
        pr_suffix(res, input@),
{
    let lit = ['='];
    proof {
        assert(lit@ =~= seq!['=']);
    }
    token(input, &lit, Rcst::EqualsSign)
}

pub fn comma<'a>(input: &'a [char]) -> (res: Option<(&'a [char], Rcst)>)
    ensures
        pr_view(res) == spec_comma(input@),
        pr_suffix(res, input@),
{
    let lit = [','];
    proof {
        assert(lit@ =~= seq![',']);
    }
    token(input, &lit, Rcst::Comma)
}

pub fn colon<'a>(input: &'a [char]) -> (res: Option<(&'a [char], Rcst)>)
    ensures
        pr_view(res) == spec_colon(input@),
        pr_suffix(res, input@),
{
    let lit = [':'];
    proof {
        assert(lit@ =~= seq![':']);
    }
    token(input, &lit, Rcst::Colon)
}

pub fn opening_bracket<'a>(input: &'a [char]) -> (res: Option<(&'a [char], Rcst)>)
    ensures
        pr_view(res) == spec_opening_bracket(input@),
        pr_suffix(res, input@),
{
    let lit = ['['];
    proof {
        assert(lit@ =~= seq!['[']);
    }
    token(input, &lit, Rcst::OpeningBracket)
}

pub fn closing_bracket<'a>(input: &'a [char]) -> (res: Option<(&'a [char], Rcst)>)
    ensures
        pr_view(res) == spec_closing_bracket(input@),
        pr_suffix(res, input@),
{
    let lit = [']'];
    proof {
        assert(lit@ =~= seq![']']);
    }
    token(input, &lit, Rcst::ClosingBracket)
}

pub fn opening_parenthesis<'a>(input: &'a [char]) -> (res: Option<(&'a [char], Rcst)>)
    ensures
        pr_view(res) == spec_opening_parenthesis(input@),
        pr_suffix(res, input@),
{
    let lit = ['('];
    proof {
        assert(lit@ =~= seq!['(']);
    }
    token(input, &lit, Rcst::OpeningParenthesis)
}

pub fn closing_parenthesis<'a>(input: &'a [char]) -> (res: Option<(&'a [char], Rcst)>)
    ensures
        pr_view(res) == spec_closing_parenthesis(input@),
        pr_suffix(res, input@),
{
    let lit = [')'];
    proof {
        assert(lit@ =~= seq![')']);
    }
    token(input, &lit, Rcst::ClosingParenthesis)
}

pub fn opening_curly_brace<'a>(input: &'a [char]) -> (res: Option<(&'a [char], Rcst)>)
    ensures
        pr_view(res) == spec_opening_curly_brace(input@),
        pr_suffix(res, input@),
{
    let lit = ['{'];
    proof {
        assert(lit@ =~= seq!['{']);
    }
    token(input, &lit, Rcst::OpeningCurlyBrace)
}

pub fn closing_curly_brace<'a>(input: &'a [char]) -> (res: Option<(&'a [char], Rcst)>)
    ensures
        pr_view(res) == spec_closing_curly_brace(input@),
        pr_suffix(res, input@),
{
    let lit = ['}'];
    proof {
        assert(lit@ =~= seq!['}']);
    }
    token(input, &lit, Rcst::ClosingCurlyBrace)
}

pub fn arrow<'a>(input: &'a [char]) -> (res: Option<(&'a [char], Rcst)>)
    ensures
        pr_view(res) == spec_arrow(input@),
        pr_suffix(res, input@),
{
    let lit = ['-', '>'];
    proof {
        assert(lit@ =~= seq!['-', '>']);
    }
    token(input, &lit, Rcst::Arrow)
}

pub fn double_quote<'a>(input: &'a [char]) -> (res: Option<(&'a [char], Rcst)>)
    ensures
        pr_view(res) == spec_double_quote(input@),
        pr_suffix(res, input@),
{
    let lit = ['"'];
    proof {
        assert(lit@ =~= seq!['"']);
    }
    token(input, &lit, Rcst::DoubleQuote)
}

pub fn octothorpe<'a>(input: &'a [char]) -> (res: Option<(&'a [char], Rcst)>)
    ensures
        pr_view(res) == spec_octothorpe(input@),
        pr_suffix(res, input@),
{
    let lit = ['#'];
    proof {
        assert(lit@ =~= seq!['#']);
    }
    token(input, &lit, Rcst::Octothorpe)
}

// ----------------------------------------------------------------------------
// Words: identifiers, symbols, and ints.

/// The punctuation that ends a word: `=:,(){}[]->`.
pub open spec fn is_meaningful_punctuation(c: char) -> bool {
    c == '=' || c == ':' || c == ',' || c == '(' || c == ')' || c == '{' || c == '}' || c == '['
        || c == ']' || c == '-' || c == '>'
}

/// Characters that can be part of a word.
pub open spec fn spec_is_word_char(c: char) -> bool {
    !char_is_whitespace(c) && !is_meaningful_punctuation(c)
}

pub open spec fn word_pred() -> spec_fn(char) -> bool {
    |c: char| spec_is_word_char(c)
}

/// A word: the longest non-empty run of characters that are neither
/// whitespace nor meaningful punctuation. Returns the rest and the word.
pub open spec fn spec_word(s: Seq<char>) -> Option<(Seq<char>, Seq<char>)> {
    let n = span(s, word_pred());
    if n == 0 {
        None
    } else {
        Some((s.skip(n as int), s.take(n as int)))
    }
}

fn is_word_char(c: char) -> (b: bool)
    ensures
        b == spec_is_word_char(c),
{
    !(is_whitespace(c) || c == '=' || c == ':' || c == ',' || c == '(' || c == ')' || c == '{'
        || c == '}' || c == '[' || c == ']' || c == '-' || c == '>')
}

/// The characters of the word at the start of the input.
fn word_chars<'a>(input: &'a [char]) -> (res: Option<(&'a [char], Vec<char>)>)
    ensures
        match res {
            Some((r, w)) => spec_word(input@) == Some((r@, w@)) && is_suffix(r@, input@)
                && w@.len() > 0 && r@.len() < input@.len(),
            None => spec_word(input@) is None,
        },
{
    proof {
        lemma_span(input@, word_pred());
        assert(input@.skip(0) =~= input@);
    }
    let mut chars: Vec<char> = Vec::new();
    let mut i: usize = 0;
    while i < input.len() && is_word_char(input[i])
        invariant
            i <= input.len(),
            chars@ == input@.take(i as int),
            span(input@, word_pred()) == i + span(input@.skip(i as int), word_pred()),
        decreases input.len() - i,
    {
        proof {
            lemma_span_step(input@, word_pred(), i as int);
        }
        chars.push(input[i]);
        i = i + 1;
        proof {
            assert(chars@ =~= input@.take(i as int));
        }
    }
    proof {
        lemma_span_stop(input@, word_pred(), i as int);
        lemma_suffix_skip(input@, i as int);
    }
    if chars.len() == 0 {
        None
    } else {
        Some((slice_subrange(input, i, input.len()), chars))
    }
}

/// "Word" refers to a number of characters that are not separated by
/// whitespace or significant punctuation. Identifiers, symbols, and ints are
/// words. Words may be invalid because they contain non-ascii or
/// non-alphanumeric characters – for example, the word `Magic✨` is an invalid
/// identifier or symbol.
pub fn word<'a>(input: &'a [char]) -> (res: Option<(&'a [char], String)>)
    ensures
        match res {
            Some((r, w)) => spec_word(input@) == Some((r@, w@)) && is_suffix(r@, input@),
            None => spec_word(input@) is None,
        },
{
    let (input, chars) = word_chars(input)?;
    Some((input, join_chars(chars)))
}

pub open spec fn all_ascii_alphanumeric(w: Seq<char>) -> bool {
    forall|i: int| 0 <= i < w.len() ==> spec_is_ascii_alphanumeric(#[trigger] w[i])
}

pub open spec fn all_ascii_digits(w: Seq<char>) -> bool {
    forall|i: int| 0 <= i < w.len() ==> spec_is_ascii_digit(#[trigger] w[i])
}

fn chars_are_ascii_alphanumeric(w: &Vec<char>) -> (b: bool)
    ensures
        b == all_ascii_alphanumeric(w@),
{
    let mut i: usize = 0;
    while i < w.len()
        invariant
            i <= w.len(),
            forall|j: int| 0 <= j < i ==> spec_is_ascii_alphanumeric(#[trigger] w@[j]),
        decreases w.len() - i,
    {
        if !is_ascii_alphanumeric(w[i]) {
            return false;
        }
        i = i + 1;
    }
    true
}

fn chars_are_ascii_digits(w: &Vec<char>) -> (b: bool)
    ensures
        b == all_ascii_digits(w@),
{
    let mut i: usize = 0;
    while i < w.len()
        invariant
            i <= w.len(),
            forall|j: int| 0 <= j < i ==> spec_is_ascii_digit(#[trigger] w@[j]),
        decreases w.len() - i,
    {
        if !is_ascii_digit(w[i]) {
            return false;
        }
        i = i + 1;
    }
    true
}

/// An identifier: a word starting with a lowercase letter.
pub open spec fn spec_identifier(s: Seq<char>) -> Option<(Seq<char>, SpecRcst)> {
    match spec_word(s) {
        None => None,
        Some((rest, w)) => if char_is_lowercase(w[0]) {
            if all_ascii_alphanumeric(w) {
                Some((rest, SpecRcst::Identifier(w)))
            } else {
                Some(
                    (
                        rest,
                        SpecRcst::Error {
                            unparsable_input: w,
                            error: RcstError::IdentifierContainsNonAlphanumericAscii,
                        },
                    ),
                )
            }
        } else {
            None
        },
    }
}

/// A symbol: a word starting with an uppercase letter.
pub open spec fn spec_symbol(s: Seq<char>) -> Option<(Seq<char>, SpecRcst)> {
    match spec_word(s) {
        None => None,
        Some((rest, w)) => if char_is_uppercase(w[0]) {
            if all_ascii_alphanumeric(w) {
                Some((rest, SpecRcst::Symbol(w)))
            } else {
                Some(
                    (
                        rest,
                        SpecRcst::Error {
                            unparsable_input: w,
                            error: RcstError::SymbolContainsNonAlphanumericAscii,
                        },
                    ),
                )
            }
        } else {
            None
        },
    }
}

/// The value of a decimal digit.
pub open spec fn digit_value(c: char) -> nat {
    ((c as u32) - ('0' as u32)) as nat
}

/// The value of a sequence of decimal digits.
pub open spec fn digits_value(w: Seq<char>) -> nat
    decreases w.len(),
{
    if w.len() == 0 {
        0
    } else {
        digits_value(w.subrange(0, w.len() - 1)) * 10 + digit_value(w[w.len() - 1])
    }
}

/// An int: a word starting with an ASCII digit.
pub open spec fn spec_int(s: Seq<char>) -> Option<(Seq<char>, SpecRcst)> {
    match spec_word(s) {
        None => None,
        Some((rest, w)) => if spec_is_ascii_digit(w[0]) {
            if all_ascii_digits(w) {
                Some((rest, SpecRcst::Int(digits_value(w))))
            } else {
                Some(
                    (
                        rest,
                        SpecRcst::Error {
                            unparsable_input: w,
                            error: RcstError::IntContainsNonDigits,
                        },
                    ),
                )
            }
        } else {
            None
        },
    }
}

/// The word at the start of the input, if it is made of digits only, has a
/// value that fits into 64 bits.
pub open spec fn int_fits(s: Seq<char>) -> bool {
    match spec_word(s) {
        Some((_, w)) => all_ascii_digits(w) ==> digits_value(w) <= u64::MAX,
        None => true,
    }
}

/// Every position of the input satisfies `int_fits`: no digit word of the
/// input is too large for 64 bits.
pub open spec fn ints_fit(s: Seq<char>) -> bool {
    forall|i: int| 0 <= i <= s.len() ==> #[trigger] int_fits(s.skip(i))
}

pub proof fn lemma_ints_fit_suffix(t: Seq<char>, s: Seq<char>)
    requires
        ints_fit(s),
        is_suffix(t, s),
    ensures
        ints_fit(t),
{
    let k = s.len() - t.len();
    assert forall|i: int| 0 <= i <= t.len() implies #[trigger] int_fits(t.skip(i)) by {
        assert(t.skip(i) =~= s.skip(k + i));
        assert(int_fits(s.skip(k + i)));
    }
}

proof fn lemma_digits_value_prefix(w: Seq<char>, i: int)
    requires
        0 <= i <= w.len(),
    ensures
        digits_value(w.subrange(0, i)) <= digits_value(w),
    decreases w.len() - i,
{
    if i < w.len() {
        let t = w.subrange(0, i + 1);
        lemma_digits_value_prefix(w, i + 1);
        assert(t.subrange(0, t.len() - 1) =~= w.subrange(0, i));
        let a = digits_value(w.subrange(0, i));
        assert(a <= a * 10) by (nonlinear_arith);
    } else {
        assert(w.subrange(0, i) =~= w);
    }
}

pub fn identifier<'a>(input: &'a [char]) -> (res: Option<(&'a [char], Rcst)>)
    ensures
        pr_view(res) == spec_identifier(input@),
        pr_suffix(res, input@),
        pr_progress(res, input@),
{
    let (input, w) = word_chars(input)?;
    if is_lowercase(w[0]) {
        if chars_are_ascii_alphanumeric(&w) {
            Some((input, Rcst::Identifier(join_chars(w))))
        } else {
            Some(
                (
                    input,
                    Rcst::Error {
                        unparsable_input: join_chars(w),
                        error: RcstError::IdentifierContainsNonAlphanumericAscii,
                    },
                ),
            )
        }
    } else {
        None
    }
}

pub fn symbol<'a>(input: &'a [char]) -> (res: Option<(&'a [char], Rcst)>)
    ensures
        pr_view(res) == spec_symbol(input@),
        pr_suffix(res, input@),
        pr_progress(res, input@),
{
    let (input, w) = word_chars(input)?;
    if is_uppercase(w[0]) {
        if chars_are_ascii_alphanumeric(&w) {
            Some((input, Rcst::Symbol(join_chars(w))))
        } else {
            Some(
                (
                    input,
                    Rcst::Error {
                        unparsable_input: join_chars(w),
                        error: RcstError::SymbolContainsNonAlphanumericAscii,
                    },
                ),
            )
        }
    } else {
        None
    }
}

/// The value of a non-empty sequence of ASCII digits that fits into 64 bits.
fn parse_digits(w: &Vec<char>) -> (v: u64)
    requires
        all_ascii_digits(w@),
        digits_value(w@) <= u64::MAX,
    ensures
        v == digits_value(w@),
{
    let mut v: u64 = 0;
    let mut i: usize = 0;
    while i < w.len()
        invariant
            i <= w.len(),
            all_ascii_digits(w@),
            digits_value(w@) <= u64::MAX,
            v == digits_value(w@.subrange(0, i as int)),
        decreases w.len() - i,
    {
        proof {
            let t = w@.subrange(0, i + 1);
            assert(t.subrange(0, t.len() - 1) =~= w@.subrange(0, i as int));
            lemma_digits_value_prefix(w@, i + 1);
            assert(spec_is_ascii_digit(w@[i as int]));
        }
        let d = (w[i] as u32) - ('0' as u32);
        v = v * 10 + (d as u64);
        i = i + 1;
    }
    proof {
        assert(w@.subrange(0, w.len() as int) =~= w@);
    }
    v
}

pub fn integer<'a>(input: &'a [char]) -> (res: Option<(&'a [char], Rcst)>)
    requires
        int_fits(input@),
    ensures
        pr_view(res) == spec_int(input@),
        pr_suffix(res, input@),
        pr_progress(res, input@),
{
    let (input, w) = word_chars(input)?;
    if is_ascii_digit(w[0]) {
        if chars_are_ascii_digits(&w) {
            let value = parse_digits(&w);
            Some((input, Rcst::Int(value)))
        } else {
            Some(
                (
                    input,
                    Rcst::Error {
                        unparsable_input: join_chars(w),
                        error: RcstError::IntContainsNonDigits,
                    },
                ),
            )
        }
    } else {
        None
    }
}

// ----------------------------------------------------------------------------
// Whitespace and comments.

pub open spec fn single_line_whitespace_pred() -> spec_fn(char) -> bool {
    |c: char| c == ' ' || (char_is_whitespace(c) && c != '\n')
}

pub open spec fn all_spaces(w: Seq<char>) -> bool {
    forall|i: int| 0 <= i < w.len() ==> #[trigger] w[i] == ' '
}

/// Whitespace on the current line: spaces are fine, any other whitespace
/// except newlines is consumed too but reported as an error.
pub open spec fn spec_single_line_whitespace(s: Seq<char>) -> (Seq<char>, SpecRcst) {
    let n = span(s, single_line_whitespace_pred());
    let w = s.take(n as int);
    (
        s.skip(n as int),
        if all_spaces(w) {
            SpecRcst::Whitespace(w)
        } else {
            SpecRcst::Error { unparsable_input: w, error: RcstError::WeirdWhitespace }
        },
    )
}

pub fn single_line_whitespace<'a>(input: &'a [char]) -> (res: (&'a [char], Rcst))
    ensures
        (res.0@, rv(res.1)) == spec_single_line_whitespace(input@),
        is_suffix(res.0@, input@),
{
    proof {
        lemma_span(input@, single_line_whitespace_pred());
        assert(input@.skip(0) =~= input@);
    }
    let mut chars: Vec<char> = Vec::new();
    let mut has_error = false;
    let mut i: usize = 0;
    while i < input.len() && (input[i] == ' ' || (is_whitespace(input[i]) && input[i] != '\n'))
        invariant
            i <= input.len(),
            chars@ == input@.take(i as int),
            has_error == !all_spaces(chars@),
            span(input@, single_line_whitespace_pred()) == i + span(
                input@.skip(i as int),
                single_line_whitespace_pred(),
            ),
        decreases input.len() - i,
    {
        proof {
            lemma_span_step(input@, single_line_whitespace_pred(), i as int);
        }
        let c = input[i];
        if c != ' ' {
            has_error = true;
        }
        chars.push(c);
        i = i + 1;
        proof {
            assert(chars@ =~= input@.take(i as int));
            if c != ' ' {
                assert(chars@[i - 1] != ' ');
            }
        }
    }
    proof {
        lemma_span_stop(input@, single_line_whitespace_pred(), i as int);
        lemma_suffix_skip(input@, i as int);
    }
    let whitespace = join_chars(chars);
    let rest = slice_subrange(input, i, input.len());
    if has_error {
        (rest, Rcst::Error { unparsable_input: whitespace, error: RcstError::WeirdWhitespace })
    } else {
        (rest, Rcst::Whitespace(whitespace))
    }
}

pub open spec fn not_newline_pred() -> spec_fn(char) -> bool {
    |c: char| c != '\n'
}

/// A comment: an octothorpe and the rest of the line.
pub open spec fn spec_comment(s: Seq<char>) -> Option<(Seq<char>, SpecRcst)> {
    match spec_octothorpe(s) {
        None => None,
        Some((t, o)) => {
            let n = span(t, not_newline_pred());
            Some(
                (
                    t.skip(n as int),
                    SpecRcst::Comment { octothorpe: Box::new(o), comment: t.take(n as int) },
                ),
            )
        },
    }
}

pub fn comment<'a>(input: &'a [char]) -> (res: Option<(&'a [char], Rcst)>)
    ensures
        pr_view(res) == spec_comment(input@),
        pr_suffix(res, input@),
        pr_progress(res, input@),
{
    let (input0, octothorpe) = octothorpe(input)?;
    proof {
        lemma_span(input0@, not_newline_pred());
        assert(input0@.skip(0) =~= input0@);
    }
    let mut chars: Vec<char> = Vec::new();
    let mut i: usize = 0;
    while i < input0.len() && input0[i] != '\n'
        invariant
            i <= input0.len(),
            chars@ == input0@.take(i as int),
            span(input0@, not_newline_pred()) == i + span(
                input0@.skip(i as int),
                not_newline_pred(),
            ),
        decreases input0.len() - i,
    {
        proof {
            lemma_span_step(input0@, not_newline_pred(), i as int);
        }
        chars.push(input0[i]);
        i = i + 1;
        proof {
            assert(chars@ =~= input0@.take(i as int));
        }
    }
    proof {
        lemma_span_stop(input0@, not_newline_pred(), i as int);
        lemma_suffix_skip(input0@, i as int);
        lemma_suffix_trans(input0@.skip(i as int), input0@, input@);
    }
    Some(
        (
            slice_subrange(input0, i, input0.len()),
            Rcst::Comment { octothorpe: Box::new(octothorpe), comment: join_chars(chars) },
        ),
    )
}

/// How many characters of leading indentation cover `need` columns, and
/// whether any of them is whitespace other than a space. A space counts as one
/// column, a tab as two, any other whitespace as one. `None` if a character
/// that is not whitespace (or the end of the input) comes first.
pub open spec fn indentation_count(s: Seq<char>, need: int) -> Option<(nat, bool)>
    decreases s.len(),
{
    if need <= 0 {
        Some((0, false))
    } else if s.len() == 0 {
        None
    } else {
        let c = s[0];
        let (is_weird, bonus) = if c == ' ' {
            (false, 1int)
        } else if c == '\t' {
            (true, 2int)
        } else {
            (true, 1int)
        };
        if c == ' ' || c == '\t' || char_is_whitespace(c) {
            match indentation_count(s.skip(1), need - bonus) {
                Some((n, w)) => Some((n + 1, w || is_weird)),
                None => None,
            }
        } else {
            None
        }
    }
}

pub proof fn lemma_indentation_count(s: Seq<char>, need: int)
    ensures
        indentation_count(s, need) matches Some((n, _)) ==> n <= s.len(),
    decreases s.len(),
{
    if need > 0 && s.len() > 0 {
        let c = s[0];
        let bonus = if c == '\t' {
            2int
        } else {
            1int
        };
        lemma_indentation_count(s.skip(1), need - bonus);
    }
}

/// Extends a count of the rest of the input by the `i` characters already
/// consumed.
pub open spec fn extend_count(r: Option<(nat, bool)>, i: nat, weird: bool) -> Option<
    (nat, bool),
> {
    match r {
        Some((n, w)) => Some((n + i, w || weird)),
        None => None,
    }
}

/// Leading indentation of `indentation` levels, two columns each.
pub open spec fn spec_leading_indentation(s: Seq<char>, indentation: nat) -> Option<
    (Seq<char>, SpecRcst),
> {
    match indentation_count(s, 2 * indentation as int) {
        None => None,
        Some((n, weird)) => {
            let w = s.take(n as int);
            Some(
                (
                    s.skip(n as int),
                    if weird {
                        SpecRcst::Error {
                            unparsable_input: w,
                            error: RcstError::WeirdWhitespaceInIndentation,
                        }
                    } else {
                        SpecRcst::Whitespace(w)
                    },
                ),
            )
        },
    }
}

/// The leading indentation's characters, whether any of them is weird, and the
/// rest of the input.
fn leading_indentation_chars<'a>(input: &'a [char], indentation: usize) -> (res: Option<
    (&'a [char], Vec<char>, bool),
>)
    requires
        indentation <= usize::MAX / 4,
    ensures
        match res {
            Some((r, w, weird)) => indentation_count(input@, 2 * indentation as int) == Some(
                (w@.len(), weird),
            ) && w@ == input@.take(w@.len() as int) && r@ == input@.skip(w@.len() as int)
                && is_suffix(r@, input@),
            None => indentation_count(input@, 2 * indentation as int) is None,
        },
{
    let need = 2 * indentation;
    let mut chars: Vec<char> = Vec::new();
    let mut has_weird_whitespace = false;
    let mut indent_in_spaces: usize = 0;
    let mut i: usize = 0;
    proof {
        assert(input@.skip(0) =~= input@);
    }
    while indent_in_spaces < need
        invariant
            need == 2 * indentation,
            indentation <= usize::MAX / 4,
            i <= input.len(),
            indent_in_spaces <= need + 1,
            chars@ == input@.take(i as int),
            indentation_count(input@, need as int) == extend_count(
                indentation_count(input@.skip(i as int), need - indent_in_spaces),
                i as nat,
                has_weird_whitespace,
            ),
        decreases input.len() - i,
    {
        if i >= input.len() {
            return None;
        }
        let c = input[i];
        let (is_weird, indent_bonus): (bool, usize) = if c == ' ' {
            (false, 1)
        } else if c == '\t' {
            (true, 2)
        } else if is_whitespace(c) {
            (true, 1)
        } else {
            return None;
        };
        proof {
            assert(input@.skip(i as int).skip(1) =~= input@.skip(i + 1));
        }
        chars.push(c);
        has_weird_whitespace = has_weird_whitespace || is_weird;
        indent_in_spaces = indent_in_spaces + indent_bonus;
        i = i + 1;
        proof {
            assert(chars@ =~= input@.take(i as int));
        }
    }
    proof {
        lemma_suffix_skip(input@, i as int);
    }
    Some((slice_subrange(input, i, input.len()), chars, has_weird_whitespace))
}

pub fn leading_indentation<'a>(input: &'a [char], indentation: usize) -> (res: Option<
    (&'a [char], Rcst),
>)
    requires
        indentation <= usize::MAX / 4,
    ensures
        pr_view(res) == spec_leading_indentation(input@, indentation as nat),
        pr_suffix(res, input@),
{
    let (input, chars, has_weird_whitespace) = leading_indentation_chars(input, indentation)?;
    let whitespace = join_chars(chars);
    if has_weird_whitespace {
        Some(
            (
                input,
                Rcst::Error {
                    unparsable_input: whitespace,
                    error: RcstError::WeirdWhitespaceInIndentation,
                },
            ),
        )
    } else {
        Some((input, Rcst::Whitespace(whitespace)))
    }
}

pub open spec fn newline_pred() -> spec_fn(char) -> bool {
    |c: char| c == '\n'
}

/// `k` newline nodes.
pub open spec fn newlines(k: nat) -> Seq<SpecRcst> {
    Seq::new(k, |i: int| SpecRcst::Newline)
}

pub proof fn lemma_comment_shrinks(s: Seq<char>)
    ensures
        spec_comment(s) matches Some((t, _)) ==> t.len() < s.len(),
{
    if spec_comment(s) is Some {
        let t = s.skip(1);
        lemma_span(t, not_newline_pred());
    }
}

/// A comment at the start, if comments are allowed.
pub open spec fn comment_step(s: Seq<char>, also_comments: bool) -> (Seq<char>, Seq<SpecRcst>) {
    if also_comments {
        match spec_comment(s) {
            Some((i, c)) => (i, seq![c]),
            None => (s, Seq::<SpecRcst>::empty()),
        }
    } else {
        (s, Seq::<SpecRcst>::empty())
    }
}

/// The part of `whitespaces_and_newlines` after the first line's whitespace:
/// a comment (if allowed), then newlines, but only if enough indentation
/// follows them.
pub open spec fn spec_whitespace_lines(s: Seq<char>, indentation: nat, also_comments: bool) -> (
    Seq<char>,
    Seq<SpecRcst>,
)
    decreases s.len(),
{
    let (s1, comment_parts) = comment_step(s, also_comments);
    let k = span(s1, newline_pred());
    if k == 0 {
        (s1, comment_parts)
    } else {
        let t = s1.skip(k as int);
        match indentation_count(t, 2 * indentation as int) {
            None => (s1, comment_parts),
            Some((n, _)) => {
                proof {
                    lemma_comment_shrinks(s);
                    lemma_span(s1, newline_pred());
                    lemma_indentation_count(t, 2 * indentation as int);
                }
                let (r, p) = spec_whitespace_lines(t.skip(n as int), indentation, also_comments);
                (
                    r,
                    comment_parts + newlines(k) + seq![SpecRcst::Whitespace(t.take(n as int))]
                        + p,
                )
            },
        }
    }
}

pub open spec fn is_empty_whitespace(r: SpecRcst) -> bool {
    match r {
        SpecRcst::Whitespace(w) => w.len() == 0,
        _ => false,
    }
}

/// The nodes without empty whitespace.
pub open spec fn drop_empty_whitespace(s: Seq<SpecRcst>) -> Seq<SpecRcst>
    decreases s.len(),
{
    if s.len() == 0 {
        s
    } else {
        let init = drop_empty_whitespace(s.subrange(0, s.len() - 1));
        if is_empty_whitespace(s[s.len() - 1]) {
            init
        } else {
            init.push(s[s.len() - 1])
        }
    }
}

/// Consumes all leading whitespace (including newlines) and comments that are
/// still within the given indentation. Won't consume newlines before a lower
/// or higher indentation.
pub open spec fn spec_whitespaces_and_newlines(
    s: Seq<char>,
    indentation: nat,
    also_comments: bool,
) -> (Seq<char>, Seq<SpecRcst>) {
    let (s1, w) = spec_single_line_whitespace(s);
    let (r, p) = spec_whitespace_lines(s1, indentation, also_comments);
    (r, drop_empty_whitespace(seq![w] + p))
}

/// Unfolds `spec_whitespace_lines` once.
pub proof fn lemma_whitespace_lines_unfold(s: Seq<char>, indentation: nat, also_comments: bool)
    ensures
        ({
            let (s1, cp) = comment_step(s, also_comments);
            let k = span(s1, newline_pred());
            let t = s1.skip(k as int);
            let r = spec_whitespace_lines(s, indentation, also_comments);
            &&& k == 0 ==> r == (s1, cp)
            &&& k > 0 && indentation_count(t, 2 * indentation as int) is None ==> r == (s1, cp)
            &&& k > 0 ==> (indentation_count(t, 2 * indentation as int) matches Some((n, _)) ==> r
                == (
                spec_whitespace_lines(t.skip(n as int), indentation, also_comments).0,
                cp + newlines(k) + seq![SpecRcst::Whitespace(t.take(n as int))]
                    + spec_whitespace_lines(t.skip(n as int), indentation, also_comments).1,
            ))
        }),
{
}

/// The number of newlines at the start of the input.
fn count_newlines(input: &[char]) -> (k: usize)
    ensures
        k == span(input@, newline_pred()),
        k <= input@.len(),
{
    let mut k: usize = 0;
    proof {
        lemma_span(input@, newline_pred());
        assert(input@.skip(0) =~= input@);
    }
    while k < input.len() && input[k] == '\n'
        invariant
            k <= input.len(),
            span(input@, newline_pred()) == k + span(input@.skip(k as int), newline_pred()),
        decreases input.len() - k,
    {
        proof {
            lemma_span_step(input@, newline_pred(), k as int);
        }
        k = k + 1;
    }
    proof {
        lemma_span_stop(input@, newline_pred(), k as int);
    }
    k
}

/// Appends `k` newline nodes.
fn push_newlines(parts: &mut Vec<Rcst>, k: usize)
    ensures
        rvs(final(parts)@) == rvs(old(parts)@) + newlines(k as nat),
{
    let ghost start = parts@;
    let mut j: usize = 0;
    proof {
        assert(rvs(start) + newlines(0) =~= rvs(start));
    }
    while j < k
        invariant
            j <= k,
            rvs(parts@) == rvs(start) + newlines(j as nat),
        decreases k - j,
    {
        proof {
            lemma_rvs_push(parts@, Rcst::Newline);
            assert(rvs(start) + newlines(j as nat) + seq![SpecRcst::Newline] =~= rvs(start)
                + newlines((j + 1) as nat));
        }
        parts.push(Rcst::Newline);
        j = j + 1;
    }
}

/// The text of a leaf that holds consumed characters as they were.
fn leaf_text(r: &Rcst) -> (s: String)
    requires
        rv(*r) matches SpecRcst::Whitespace(_) || rv(*r) matches SpecRcst::Error { .. },
    ensures
        rv(*r) matches SpecRcst::Whitespace(w) ==> s@ == w,
        rv(*r) matches SpecRcst::Error { unparsable_input, .. } ==> s@ == unparsable_input,
{
    match r {
        Rcst::Whitespace(w) => w.clone(),
        Rcst::Error { unparsable_input, .. } => unparsable_input.clone(),
        _ => String::new(),
    }
}

/// Keeps all nodes but empty whitespace.
fn drop_empty_whitespace_exec(parts: Vec<Rcst>) -> (res: Vec<Rcst>)
    ensures
        rvs(res@) == drop_empty_whitespace(rvs(parts@)),
{
    let ghost orig = parts@;
    let n = parts.len();
    let mut parts = parts;
    let mut res: Vec<Rcst> = Vec::new();
    let mut i: usize = 0;
    proof {
        assert(orig.len() == n);
        lemma_rvs(orig);
        assert(rvs(orig).subrange(0, 0) =~= Seq::<SpecRcst>::empty());
        assert(orig.skip(0) =~= orig);
    }
    while parts.len() > 0
        invariant
            i <= orig.len(),
            orig.len() <= usize::MAX,
            parts@ == orig.skip(i as int),
            rvs(orig).len() == orig.len(),
            forall|j: int| 0 <= j < orig.len() ==> #[trigger] rvs(orig)[j] == rv(orig[j]),
            rvs(res@) == drop_empty_whitespace(rvs(orig).subrange(0, i as int)),
        decreases parts.len(),
    {
        proof {
            assert(parts@.len() == orig.len() - i);
        }
        let part = parts.remove(0);
        proof {
            assert(part == orig[i as int]);
            let t = rvs(orig).subrange(0, i + 1);
            assert(t.subrange(0, t.len() - 1) =~= rvs(orig).subrange(0, i as int));
            assert(parts@ =~= orig.skip(i + 1));
        }
        let keep = match &part {
            Rcst::Whitespace(ws) => !ws.as_str().is_empty(),
            _ => true,
        };
        if keep {
            proof {
                lemma_rvs_push(res@, part);
            }
            res.push(part);
        }
        i = i + 1;
    }
    proof {
        assert(rvs(orig).subrange(0, orig.len() as int) =~= rvs(orig));
    }
    res
}

#[verifier::rlimit(40)]
pub fn whitespaces_and_newlines<'a>(
    input: &'a [char],
    indentation: usize,
    also_comments: bool,
) -> (res: (&'a [char], Vec<Rcst>))
    requires
        indentation <= usize::MAX / 4,
    ensures
        (res.0@, rvs(res.1@)) == spec_whitespaces_and_newlines(
            input@,
            indentation as nat,
            also_comments,
        ),
        is_suffix(res.0@, input@),
{
    let ghost orig = input@;
    let mut parts: Vec<Rcst> = Vec::new();
    let (input1, whitespace) = single_line_whitespace(input);
    let ghost w0 = rv(whitespace);
    let ghost s1 = input1@;
    parts.push(whitespace);
    let mut input = input1;
    proof {
        lemma_rvs_push(Seq::<Rcst>::empty(), parts@[0]);
        assert(Seq::<Rcst>::empty().push(parts@[0]) =~= parts@);
        assert(rvs(Seq::<Rcst>::empty()) =~= Seq::<SpecRcst>::empty());
        lemma_suffix_refl(input1@);
    }
    loop
        invariant_except_break
            indentation <= usize::MAX / 4,
            is_suffix(input@, s1),
            is_suffix(s1, orig),
            spec_whitespace_lines(s1, indentation as nat, also_comments).0
                == spec_whitespace_lines(input@, indentation as nat, also_comments).0,
            seq![w0] + spec_whitespace_lines(s1, indentation as nat, also_comments).1 == rvs(
                parts@,
            ) + spec_whitespace_lines(input@, indentation as nat, also_comments).1,
        ensures
            spec_whitespace_lines(s1, indentation as nat, also_comments).0 == input@,
            seq![w0] + spec_whitespace_lines(s1, indentation as nat, also_comments).1 == rvs(
                parts@,
            ),
            is_suffix(input@, s1),
        decreases input.len(),
    {
        let ghost at_start = input@;
        let ghost parts_at_start = parts@;
        proof {
            lemma_whitespace_lines_unfold(at_start, indentation as nat, also_comments);
        }
        if also_comments {
            if let Some((i, c)) = comment(input) {
                proof {
                    lemma_rvs_push(parts@, c);
                    lemma_suffix_trans(i@, input@, s1);
                }
                input = i;
                parts.push(c);
            }
        }
        let ghost after_comment = input@;
        let ghost comment_parts = comment_step(at_start, also_comments).1;
        proof {
            assert(after_comment == comment_step(at_start, also_comments).0);
            assert(rvs(parts@) =~= rvs(parts_at_start) + comment_parts);
        }
        // We only consume newlines if there is sufficient indentation coming after.
        let k = count_newlines(input);
        if k == 0 {
            proof {
                assert(rvs(parts@) + Seq::<SpecRcst>::empty() =~= rvs(parts@));
                assert(rvs(parts_at_start) + comment_parts =~= rvs(parts_at_start)
                    + comment_step(at_start, also_comments).1);
            }
            break;
        }
        let new_input = slice_subrange(input, k, input.len());
        match leading_indentation(new_input, indentation) {
            Some((new_input, whitespace)) => {
                let text = leaf_text(&whitespace);
                let ghost with_comment = parts@;
                push_newlines(&mut parts, k);
                let ghost with_newlines = parts@;
                parts.push(Rcst::Whitespace(text));
                proof {
                    lemma_rvs_push(with_newlines, parts@[parts@.len() - 1]);
                    assert(parts@ =~= with_newlines.push(parts@[parts@.len() - 1]));
                    lemma_indentation_count(after_comment.skip(k as int), 2 * indentation as int);
                    lemma_suffix_skip(after_comment, k as int);
                    lemma_suffix_trans(new_input@, after_comment.skip(k as int), after_comment);
                    lemma_suffix_trans(new_input@, after_comment, s1);
                    let step = comment_parts + newlines(k as nat) + seq![rv(parts@[parts@.len() - 1])];
                    assert(rvs(parts@) =~= rvs(parts_at_start) + step);
                    let rest = spec_whitespace_lines(new_input@, indentation as nat, also_comments).1;
                    assert(spec_whitespace_lines(at_start, indentation as nat, also_comments).1
                        =~= step + rest);
                    assert(rvs(parts_at_start) + (step + rest) =~= rvs(parts@) + rest);
                }
                input = new_input;
            },
            None => {
                proof {
                    assert(rvs(parts@) + Seq::<SpecRcst>::empty() =~= rvs(parts@));
                }
                break;
            },
        }
    }
    let parts = drop_empty_whitespace_exec(parts);
    proof {
        lemma_suffix_trans(input@, s1, orig);
    }
    (input, parts)
}

// ----------------------------------------------------------------------------
// Lengths: no parser makes its input longer.

pub proof fn lemma_single_line_whitespace_len(s: Seq<char>)
    ensures
        spec_single_line_whitespace(s).0.len() <= s.len(),
        is_suffix(spec_single_line_whitespace(s).0, s),
{
    lemma_span(s, single_line_whitespace_pred());
    lemma_suffix_skip(s, span(s, single_line_whitespace_pred()) as int);
}

pub proof fn lemma_whitespace_lines_len(s: Seq<char>, indentation: nat, also_comments: bool)
    ensures
        spec_whitespace_lines(s, indentation, also_comments).0.len() <= s.len(),
    decreases s.len(),
{
    lemma_comment_shrinks(s);
    let (s1, _) = comment_step(s, also_comments);
    lemma_span(s1, newline_pred());
    let k = span(s1, newline_pred());
    if k > 0 {
        let t = s1.skip(k as int);
        lemma_indentation_count(t, 2 * indentation as int);
        if let Some((n, _)) = indentation_count(t, 2 * indentation as int) {
            lemma_whitespace_lines_len(t.skip(n as int), indentation, also_comments);
        }
    }
}

pub proof fn lemma_whitespaces_and_newlines_len(s: Seq<char>, indentation: nat, also_comments: bool)
    ensures
        spec_whitespaces_and_newlines(s, indentation, also_comments).0.len() <= s.len(),
{
    lemma_single_line_whitespace_len(s);
    lemma_whitespace_lines_len(spec_single_line_whitespace(s).0, indentation, also_comments);
}

pub proof fn lemma_token_len(s: Seq<char>, lit: Seq<char>, r: SpecRcst)
    ensures
        spec_token(s, lit, r) matches Some((i, _)) ==> i.len() == s.len() - lit.len(),
{
}

pub proof fn lemma_leading_indentation_len(s: Seq<char>, indentation: nat)
    ensures
        spec_leading_indentation(s, indentation) matches Some((i, _)) ==> i.len() <= s.len(),
{
    lemma_indentation_count(s, 2 * indentation as int);
}

// ----------------------------------------------------------------------------
// Texts.

pub open spec fn empty_error(error: RcstError) -> SpecRcst {
    SpecRcst::Error { unparsable_input: Seq::empty(), error }
}

/// The rest of a text after its opening quote: the parts, the closing quote
/// (or an error), and the remaining input. `line` holds the characters of the
/// current line read so far.
pub open spec fn spec_text_rest(s: Seq<char>, indentation: nat, line: Seq<char>) -> (
    Seq<char>,
    Seq<SpecRcst>,
    SpecRcst,
)
    decreases s.len(),
{
    if s.len() == 0 {
        (
            s,
            seq![SpecRcst::TextPart(line)],
            empty_error(RcstError::TextDoesNotEndUntilInputEnds),
        )
    } else if s[0] == '"' {
        (s.skip(1), seq![SpecRcst::TextPart(line)], SpecRcst::DoubleQuote)
    } else if s[0] == '\n' {
        let (i, whitespace) = spec_whitespaces_and_newlines(s, indentation + 1, false);
        let parts = seq![SpecRcst::TextPart(line)] + whitespace;
        if i.len() > 0 && i[0] == '\n' {
            (i, parts, empty_error(RcstError::TextNotSufficientlyIndented))
        } else if i.len() < s.len() {
            let (r, p, closing) = spec_text_rest(i, indentation, Seq::empty());
            (r, parts + p, closing)
        } else {
            (i, parts, SpecRcst::DoubleQuote)
        }
    } else {
        spec_text_rest(s.skip(1), indentation, line.push(s[0]))
    }
}

/// A text in double quotes. A line break in a text continues it on the next
/// line if that line is indented more than the text's indentation.
pub open spec fn spec_text(s: Seq<char>, indentation: nat) -> Option<(Seq<char>, SpecRcst)> {
    match spec_double_quote(s) {
        None => None,
        Some((t, opening_quote)) => {
            let (r, parts, closing_quote) = spec_text_rest(t, indentation, Seq::empty());
            Some(
                (
                    r,
                    SpecRcst::Text {
                        opening_quote: Box::new(opening_quote),
                        parts,
                        closing_quote: Box::new(closing_quote),
                    },
                ),
            )
        },
    }
}

// ----------------------------------------------------------------------------
// Expressions.

/// The first of two alternatives that succeeds.
pub open spec fn or_else(a: Option<(Seq<char>, SpecRcst)>, b: Option<(Seq<char>, SpecRcst)>) -> Option<
    (Seq<char>, SpecRcst),
> {
    if a is Some {
        a
    } else {
        b
    }
}

/// The result, if its remaining input is no longer than `s`.
pub open spec fn clamp_le(r: Option<(Seq<char>, SpecRcst)>, s: Seq<char>) -> Option<
    (Seq<char>, SpecRcst),
> {
    match r {
        Some((i, x)) => if i.len() <= s.len() {
            r
        } else {
            None
        },
        None => None,
    }
}

/// The result, if its remaining input is shorter than `s`.
pub open spec fn clamp_lt(r: Option<(Seq<char>, SpecRcst)>, s: Seq<char>) -> Option<
    (Seq<char>, SpecRcst),
> {
    match r {
        Some((i, x)) => if i.len() < s.len() {
            r
        } else {
            None
        },
        None => None,
    }
}

/// A word that is none of the others, reported as unexpected punctuation.
pub open spec fn spec_word_error(s: Seq<char>) -> Option<(Seq<char>, SpecRcst)> {
    match spec_word(s) {
        Some((r, w)) => Some(
            (r, SpecRcst::Error { unparsable_input: w, error: RcstError::UnexpectedPunctuation }),
        ),
        None => None,
    }
}

/// Closing punctuation that a run of expressions takes as a further element.
pub open spec fn spec_run_fallback(s: Seq<char>) -> Option<(Seq<char>, SpecRcst)> {
    or_else(spec_closing_curly_brace(s), spec_arrow(s))
}

/// Punctuation that a body takes as an element of its own.
pub open spec fn spec_body_fallback(s: Seq<char>) -> Option<(Seq<char>, SpecRcst)> {
    or_else(
        spec_colon(s),
        or_else(
            spec_comma(s),
            or_else(spec_closing_parenthesis(s), or_else(spec_closing_bracket(s), spec_arrow(s))),
        ),
    )
}

/// Attaches whitespace to the last field, or to the opening bracket if there
/// are no fields yet.
pub open spec fn wrap_last_or(fields: Seq<SpecRcst>, opening: SpecRcst, whitespace: Seq<SpecRcst>) -> (
    Seq<SpecRcst>,
    SpecRcst,
) {
    if fields.len() == 0 {
        (fields, spec_wrap(opening, whitespace))
    } else {
        (
            fields.update(fields.len() - 1, spec_wrap(fields[fields.len() - 1], whitespace)),
            opening,
        )
    }
}

/// The indentation of fields after whitespace: one level deeper than the
/// struct once a line break occurred.
pub open spec fn next_fields_indentation(whitespace: Seq<SpecRcst>, indentation: nat, current: nat) -> nat {
    if is_ml_seq(whitespace) {
        indentation + 1
    } else {
        current
    }
}

/// Parsing a whole source: its body, and the input that remains unparsed as
/// an error.
pub open spec fn spec_rcst(s: Seq<char>) -> Seq<SpecRcst> {
    let (rest, rcsts) = spec_body(s, 0);
    if rest.len() > 0 {
        rcsts.push(SpecRcst::Error { unparsable_input: rest, error: RcstError::UnparsedRest })
    } else {
        rcsts
    }
}

// ----------------------------------------------------------------------------
// Executable parsers of nested constructs.

/// Indentation levels stay far below the integer limit: each level of
/// nesting consumes input.
pub open spec fn indentation_ok(indentation: nat, s: Seq<char>) -> bool {
    indentation + 4 * s.len() + 32 <= usize::MAX / 4
}

/// A condition on the source that the parser can check before it starts:
/// the source is not too long, and every run of digits in it fits into 64
/// bits, so no int the parser reads is too large.
pub open spec fn input_ok(indentation: nat, s: Seq<char>) -> bool {
    indentation_ok(indentation, s) && ints_fit(s)
}

/// The parser's requirements carry over to a later part of the input: the
/// bound on the indentation, and that every run of digits fits.
pub proof fn lemma_parse_ok_suffix(indentation: nat, t: Seq<char>, s: Seq<char>, target: nat)
    requires
        indentation_ok(indentation, s),
        is_suffix(t, s),
        target <= indentation + 4 * (s.len() - t.len()),
    ensures
        indentation_ok(target, t),
        ints_fit(s) ==> ints_fit(t),
{
    if ints_fit(s) {
        lemma_ints_fit_suffix(t, s);
    }
}

pub fn text<'a>(input: &'a [char], indentation: usize) -> (res: Option<(&'a [char], Rcst)>)
    requires
        indentation_ok(indentation as nat, input@),
    ensures
        pr_view(res) == spec_text(input@, indentation as nat),
        pr_suffix(res, input@),
        pr_progress(res, input@),
{
    let ghost orig = input@;
    let (mut input, opening_quote) = double_quote(input)?;
    let ghost t = input@;
    let ghost orig_len = t.len() + 1;
    let mut line: Vec<char> = Vec::new();
    let mut parts: Vec<Rcst> = Vec::new();
    proof {
        assert(rvs(parts@) =~= Seq::<SpecRcst>::empty());
        assert(Seq::<char>::empty() =~= line@);
        lemma_suffix_refl(t);
    }
    let mut closing_quote = Rcst::DoubleQuote;
    loop
        invariant_except_break
            indentation_ok(indentation as nat, t),
            t.len() < orig_len,
            is_suffix(input@, t),
            spec_text_rest(t, indentation as nat, Seq::empty()).0 == spec_text_rest(
                input@,
                indentation as nat,
                line@,
            ).0,
            spec_text_rest(t, indentation as nat, Seq::empty()).2 == spec_text_rest(
                input@,
                indentation as nat,
                line@,
            ).2,
            spec_text_rest(t, indentation as nat, Seq::empty()).1 == rvs(parts@)
                + spec_text_rest(input@, indentation as nat, line@).1,
        ensures
            spec_text_rest(t, indentation as nat, Seq::empty()) == (
                input@,
                rvs(parts@),
                rv(closing_quote),
            ),
            is_suffix(input@, t),
        decreases input.len(),
    {
        if input.len() == 0 {
            let part = Rcst::TextPart(join_chars(line));
            proof {
                lemma_rvs_push(parts@, part);
            }
            parts.push(part);
            closing_quote = Rcst::Error {
                unparsable_input: join_chars(Vec::new()),
                error: RcstError::TextDoesNotEndUntilInputEnds,
            };
            break;
        }
        let c = input[0];
        if c == '"' {
            proof {
                lemma_suffix_skip(input@, 1);
                lemma_suffix_trans(input@.skip(1), input@, t);
            }
            input = slice_subrange(input, 1, input.len());
            let part = Rcst::TextPart(join_chars(line));
            proof {
                lemma_rvs_push(parts@, part);
            }
            parts.push(part);
            closing_quote = Rcst::DoubleQuote;
            break;
        } else if c == '\n' {
            let ghost at_start = input@;
            let part = Rcst::TextPart(join_chars(line));
            line = Vec::new();
            proof {
                lemma_rvs_push(parts@, part);
            }
            parts.push(part);
            let (i, whitespace) = whitespaces_and_newlines(input, indentation + 1, false);
            let ghost before = parts@;
            let mut whitespace = whitespace;
            let ghost w = whitespace@;
            parts.append(&mut whitespace);
            proof {
                lemma_rvs_add(before, w);
                lemma_suffix_trans(i@, input@, t);
            }
            input = i;
            if input.len() > 0 && input[0] == '\n' {
                closing_quote = Rcst::Error {
                    unparsable_input: join_chars(Vec::new()),
                    error: RcstError::TextNotSufficientlyIndented,
                };
                break;
            }
            proof {
                if input@.len() == at_start.len() {
                    assert(input@ =~= at_start);
                }
                assert(Seq::<char>::empty() =~= line@);
            }
        } else {
            proof {
                lemma_suffix_skip(input@, 1);
                lemma_suffix_trans(input@.skip(1), input@, t);
            }
            line.push(c);
            input = slice_subrange(input, 1, input.len());
        }
    }
    proof {
        lemma_suffix_trans(input@, t, orig);
    }
    Some(
        (
            input,
            Rcst::Text {
                opening_quote: Box::new(opening_quote),
                parts,
                closing_quote: Box::new(closing_quote),
            },
        ),
    )
}

pub proof fn lemma_rvs_skip1(s: Seq<Rcst>)
    requires
        s.len() >= 1,
    ensures
        rvs(s.skip(1)) == rvs(s).skip(1),
        rvs(s)[0] == rv(s[0]),
{
    lemma_rvs(s);
    lemma_rvs(s.skip(1));
    assert(rvs(s.skip(1)) =~= rvs(s).skip(1));
}

/// The characters of a slice, as a vector.
fn chars_to_vec(s: &[char]) -> (v: Vec<char>)
    ensures
        v@ == s@,
{
    let mut v: Vec<char> = Vec::new();
    let mut i: usize = 0;
    while i < s.len()
        invariant
            i <= s.len(),
            v@ == s@.take(i as int),
        decreases s.len() - i,
    {
        v.push(s[i]);
        i = i + 1;
        proof {
            assert(v@ =~= s@.take(i as int));
        }
    }
    proof {
        assert(s@.take(s.len() as int) =~= s@);
    }
    v
}

fn word_error<'a>(input: &'a [char]) -> (res: Option<(&'a [char], Rcst)>)
    ensures
        pr_view(res) == spec_word_error(input@),
        pr_suffix(res, input@),
        pr_progress(res, input@),
{
    let (input, chars) = word_chars(input)?;
    Some(
        (
            input,
            Rcst::Error {
                unparsable_input: join_chars(chars),
                error: RcstError::UnexpectedPunctuation,
            },
        ),
    )
}

fn run_fallback<'a>(input: &'a [char]) -> (res: Option<(&'a [char], Rcst)>)
    ensures
        pr_view(res) == spec_run_fallback(input@),
        pr_suffix(res, input@),
        pr_progress(res, input@),
{
    if let Some(r) = closing_curly_brace(input) {
        return Some(r);
    }
    arrow(input)
}

fn body_fallback<'a>(input: &'a [char]) -> (res: Option<(&'a [char], Rcst)>)
    ensures
        pr_view(res) == spec_body_fallback(input@),
        pr_suffix(res, input@),
        pr_progress(res, input@),
{
    if let Some(r) = colon(input) {
        return Some(r);
    }
    if let Some(r) = comma(input) {
        return Some(r);
    }
    if let Some(r) = closing_parenthesis(input) {
        return Some(r);
    }
    if let Some(r) = closing_bracket(input) {
        return Some(r);
    }
    arrow(input)
}

pub fn expression<'a>(input: &'a [char], indentation: usize, allow_call_and_assignment: bool) -> (res:
    Option<(&'a [char], Rcst)>)
    requires
        indentation_ok(indentation as nat, input@),
        ints_fit(input@) || expression_ok(input@, indentation as nat, allow_call_and_assignment),
    ensures
        pr_view(res) == spec_expression(input@, indentation as nat, allow_call_and_assignment),
        pr_suffix(res, input@),
        pr_progress(res, input@),
    decreases input@.len(),
        if allow_call_and_assignment {
            9nat
        } else {
            3nat
        },
{
    proof {
        lemma_expression_unfold(input@, indentation as nat, allow_call_and_assignment);
        lemma_expression_ok_unfold(input@, indentation as nat, allow_call_and_assignment);
    }
    proof {
        assert(input@.skip(0) =~= input@);
        assert(int_fits(input@.skip(0)));
    }
    if let Some(r) = integer(input) {
        return Some(r);
    }
    if let Some(r) = text(input, indentation) {
        return Some(r);
    }
    if let Some(r) = symbol(input) {
        return Some(r);
    }
    if let Some(r) = struct_(input, indentation) {
        return Some(r);
    }
    if let Some(r) = parenthesized(input, indentation) {
        return Some(r);
    }
    if let Some(r) = lambda(input, indentation) {
        return Some(r);
    }
    if allow_call_and_assignment {
        if let Some(r) = assignment(input, indentation) {
            return Some(r);
        }
        if let Some(r) = call(input, indentation) {
            return Some(r);
        }
    }
    if let Some(r) = identifier(input) {
        return Some(r);
    }
    word_error(input)
}

/// Multiple expressions that are occurring one after another.
pub fn run_of_expressions<'a>(input: &'a [char], indentation: usize) -> (res: Option<
    (&'a [char], Vec<Rcst>),
>)
    requires
        indentation_ok(indentation as nat, input@),
        ints_fit(input@) || run_of_expressions_ok(input@, indentation as nat),
    ensures
        match res {
            Some((r, es)) => spec_run_of_expressions(input@, indentation as nat) == Some(
                (r@, rvs(es@)),
            ) && is_suffix(r@, input@) && r@.len() < input@.len() && es@.len() >= 1,
            None => spec_run_of_expressions(input@, indentation as nat) is None,
        },
    decreases input@.len(), 5nat,
{
    proof {
        lemma_run_of_expressions_unfold(input@, indentation as nat);
        lemma_run_of_expressions_ok_unfold(input@, indentation as nat);
    }
    let (first_rest, first) = expression(input, indentation, false)?;
    let ghost i0 = first_rest@;
    let ghost e0 = rv(first);
    let mut expressions: Vec<Rcst> = Vec::new();
    expressions.push(first);
    let mut rest = first_rest;
    let mut has_multiline_whitespace = false;
    proof {
        lemma_rvs_push(Seq::<Rcst>::empty(), expressions@[0]);
        assert(Seq::<Rcst>::empty().push(expressions@[0]) =~= expressions@);
        assert(rvs(Seq::<Rcst>::empty()) =~= Seq::<SpecRcst>::empty());
        lemma_suffix_refl(i0);
    }
    loop
        invariant_except_break
            indentation_ok(indentation as nat, input@),
            ints_fit(input@) || run_rest_ok(rest@, indentation as nat, has_multiline_whitespace),
            is_suffix(i0, input@),
            i0.len() < input@.len(),
            is_suffix(rest@, i0),
            expressions@.len() >= 1,
            spec_run_rest(i0, indentation as nat, false).0 == spec_run_rest(
                rest@,
                indentation as nat,
                has_multiline_whitespace,
            ).0,
            seq![e0] + spec_run_rest(i0, indentation as nat, false).1 == rvs(expressions@)
                + spec_run_rest(rest@, indentation as nat, has_multiline_whitespace).1,
        ensures
            is_suffix(rest@, i0),
            i0.len() < input@.len(),
            expressions@.len() >= 1,
            spec_run_rest(i0, indentation as nat, false).0 == rest@,
            seq![e0] + spec_run_rest(i0, indentation as nat, false).1 == rvs(expressions@),
        decreases rest@.len(),
    {
        let ghost at_start = rest@;
        let ghost ml_at_start = has_multiline_whitespace;
        proof {
            lemma_run_rest_unfold(at_start, indentation as nat, ml_at_start);
            lemma_run_rest_ok_unfold(at_start, indentation as nat, ml_at_start);
            lemma_suffix_trans(rest@, i0, input@);
            lemma_parse_ok_suffix(indentation as nat, rest@, input@, indentation as nat + 1);
        }
        let (after_whitespace, whitespace) = whitespaces_and_newlines(rest, indentation + 1, true);
        let is_multiline = rcsts_are_multiline(&whitespace);
        let ml = has_multiline_whitespace || is_multiline;
        let inner = if ml {
            indentation + 1
        } else {
            indentation
        };
        proof {
            lemma_suffix_trans(after_whitespace@, rest@, input@);
            lemma_parse_ok_suffix(indentation as nat, after_whitespace@, input@, inner as nat);
            assert(after_whitespace@.len() < input@.len());
        }
        let next = match expression(after_whitespace, inner, ml) {
            Some(x) => Some(x),
            None => run_fallback(after_whitespace),
        };
        match next {
            None => {
                proof {
                    assert(rvs(expressions@) + Seq::<SpecRcst>::empty() =~= rvs(expressions@));
                }
                break;
            },
            Some((after_expression, e)) => {
                proof {
                    lemma_rvs_push(expressions@, e);
                    lemma_suffix_trans(after_expression@, after_whitespace@, rest@);
                    lemma_suffix_trans(after_expression@, rest@, i0);
                    let tail = spec_run_rest(after_expression@, indentation as nat, ml).1;
                    assert(spec_run_rest(at_start, indentation as nat, ml_at_start).1 =~= seq![
                        rv(e),
                    ] + tail);
                    assert(rvs(expressions@) + (seq![rv(e)] + tail) =~= rvs(expressions@).push(
                        rv(e),
                    ) + tail);
                }
                expressions.push(e);
                rest = after_expression;
                has_multiline_whitespace = ml;
            },
        }
    }
    proof {
        lemma_suffix_trans(rest@, i0, input@);
    }
    Some((rest, expressions))
}

pub fn call<'a>(input: &'a [char], indentation: usize) -> (res: Option<(&'a [char], Rcst)>)
    requires
        indentation_ok(indentation as nat, input@),
        ints_fit(input@) || call_ok(input@, indentation as nat),
    ensures
        pr_view(res) == spec_call(input@, indentation as nat),
        pr_suffix(res, input@),
        pr_progress(res, input@),
    decreases input@.len(), 7nat,
{
    proof {
        lemma_call_unfold(input@, indentation as nat);
        lemma_call_ok_unfold(input@, indentation as nat);
    }
    let (rest, mut expressions) = run_of_expressions(input, indentation)?;
    proof {
        lemma_rvs(expressions@);
    }
    if expressions.len() < 2 {
        return None;
    }
    let ghost all = expressions@;
    proof {
        lemma_rvs_skip1(all);
    }
    let name = expressions.remove(0);
    proof {
        assert(expressions@ =~= all.skip(1));
    }
    Some((rest, Rcst::Call { name: Box::new(name), arguments: expressions }))
}

pub fn assignment<'a>(input: &'a [char], indentation: usize) -> (res: Option<(&'a [char], Rcst)>)
    requires
        indentation_ok(indentation as nat, input@),
        ints_fit(input@) || assignment_ok(input@, indentation as nat),
    ensures
        pr_view(res) == spec_assignment(input@, indentation as nat),
        pr_suffix(res, input@),
        pr_progress(res, input@),
    decreases input@.len(), 7nat,
{
    proof {
        lemma_assignment_unfold(input@, indentation as nat);
        lemma_assignment_ok_unfold(input@, indentation as nat);
    }
    let (after_signature, mut signature) = run_of_expressions(input, indentation)?;
    proof {
        lemma_parse_ok_suffix(indentation as nat, after_signature@, input@, indentation as nat + 1);
    }
    let (after_whitespace, _whitespace) = whitespaces_and_newlines(
        after_signature,
        indentation + 1,
        true,
    );
    let ghost all = signature@;
    proof {
        lemma_rvs_skip1(all);
    }
    let name = signature.remove(0);
    proof {
        assert(signature@ =~= all.skip(1));
    }
    let parameters = signature;
    let (after_equals_sign, equals) = equals_sign(after_whitespace)?;
    proof {
        lemma_suffix_trans(after_whitespace@, after_signature@, input@);
        lemma_suffix_trans(after_equals_sign@, after_whitespace@, input@);
        lemma_parse_ok_suffix(indentation as nat, after_equals_sign@, input@, indentation as nat + 1);
    }
    let (after_more_whitespace, more_whitespace) = whitespaces_and_newlines(
        after_equals_sign,
        indentation,
        true,
    );
    proof {
        lemma_suffix_trans(after_more_whitespace@, after_equals_sign@, input@);
    }
    let is_multiline = name.is_multiline() || rcsts_are_multiline(&parameters)
        || rcsts_are_multiline(&more_whitespace);
    if is_multiline {
        let (after_indentation, _indentation) = leading_indentation(after_more_whitespace, 1)?;
        proof {
            lemma_suffix_trans(after_indentation@, after_more_whitespace@, input@);
            lemma_parse_ok_suffix(
                indentation as nat,
                after_indentation@,
                input@,
                indentation as nat + 1,
            );
            assert(after_indentation@.len() < input@.len());
        }
        let (after_body, body) = body(after_indentation, indentation + 1);
        proof {
            lemma_suffix_trans(after_body@, after_indentation@, input@);
        }
        let rest = if body.len() == 0 {
            after_equals_sign
        } else {
            after_body
        };
        Some(
            (
                rest,
                Rcst::Assignment {
                    name: Box::new(name),
                    parameters,
                    equals_sign: Box::new(equals),
                    body,
                },
            ),
        )
    } else {
        proof {
            lemma_parse_ok_suffix(
                indentation as nat,
                after_more_whitespace@,
                input@,
                indentation as nat,
            );
            assert(after_more_whitespace@.len() < input@.len());
        }
        let (rest, body) = match expression(after_more_whitespace, indentation, true) {
            Some((after_expression, e)) => {
                let mut body: Vec<Rcst> = Vec::new();
                proof {
                    lemma_rvs_push(body@, e);
                    assert(rvs(Seq::<Rcst>::empty()) =~= Seq::<SpecRcst>::empty());
                    lemma_suffix_trans(after_expression@, after_more_whitespace@, input@);
                }
                body.push(e);
                (after_expression, body)
            },
            None => {
                let body: Vec<Rcst> = Vec::new();
                proof {
                    assert(rvs(body@) =~= Seq::<SpecRcst>::empty());
                }
                (after_equals_sign, body)
            },
        };
        Some(
            (
                rest,
                Rcst::Assignment {
                    name: Box::new(name),
                    parameters,
                    equals_sign: Box::new(equals),
                    body,
                },
            ),
        )
    }
}

/// Attaches whitespace to the last field, or to the opening bracket if there
/// are no fields yet; returns the opening bracket.
fn wrap_last_or_exec(fields: &mut Vec<Rcst>, opening: Rcst, whitespace: Vec<Rcst>) -> (res: Rcst)
    ensures
        (rvs(final(fields)@), rv(res)) == wrap_last_or(
            rvs(old(fields)@),
            rv(opening),
            rvs(whitespace@),
        ),
{
    proof {
        lemma_rvs(old(fields)@);
    }
    if fields.len() == 0 {
        opening.wrap_in_whitespace(whitespace)
    } else {
        let last = fields.pop().unwrap();
        let wrapped = last.wrap_in_whitespace(whitespace);
        proof {
            lemma_rvs_push(fields@, wrapped);
            lemma_rvs(fields@.push(wrapped));
            assert(rvs(fields@.push(wrapped)) =~= rvs(old(fields)@).update(
                old(fields)@.len() - 1,
                spec_wrap(rv(last), rvs(whitespace@)),
            ));
        }
        fields.push(wrapped);
        opening
    }
}

/// An error node for a missing part, with no input.
fn missing(error: RcstError) -> (res: Rcst)
    ensures
        rv(res) == empty_error(error),
{
    Rcst::Error { unparsable_input: join_chars(Vec::new()), error }
}

/// One field of a struct, starting at its key.
#[verifier::rlimit(40)]
fn struct_field<'a>(input: &'a [char], indentation: usize, fields_indentation: usize) -> (res:
    Option<(&'a [char], usize, Rcst)>)
    requires
        indentation_ok(indentation as nat + 2, input@),
        ints_fit(input@) || struct_field_ok(
            input@,
            indentation as nat,
            fields_indentation as nat,
        ),
        fields_indentation <= indentation + 1,
    ensures
        match res {
            Some((r, fi, f)) => spec_struct_field(
                input@,
                indentation as nat,
                fields_indentation as nat,
            ) == Some((r@, fi as nat, rv(f))) && is_suffix(r@, input@) && r@.len() < input@.len()
                && fi <= indentation + 1,
            None => spec_struct_field(input@, indentation as nat, fields_indentation as nat) is None,
        },
    decreases input@.len(), 11nat,
{
    proof {
        lemma_struct_field_unfold(input@, indentation as nat, fields_indentation as nat);
        lemma_struct_field_ok_unfold(input@, indentation as nat, fields_indentation as nat);
    }
    let ghost ind2 = indentation as nat + 2;
    let mut fi = fields_indentation;
    proof {
        lemma_suffix_refl(input@);
    }
    // The key itself.
    let (after_key, key, has_key) = match expression(input, fi, true) {
        Some((after_key, key)) => (after_key, key, true),
        None => (input, missing(RcstError::StructFieldMissesKey), false),
    };
    proof {
        lemma_parse_ok_suffix(ind2, after_key@, input@, ind2);
    }
    // Whitespace between key and colon.
    let (after_ws3, whitespace) = whitespaces_and_newlines(after_key, fi + 1, true);
    if rcsts_are_multiline(&whitespace) {
        fi = indentation + 1;
    }
    let key = key.wrap_in_whitespace(whitespace);
    proof {
        lemma_suffix_refl(after_ws3@);
    }
    // Colon.
    let (after_colon, colon, has_colon) = match colon(after_ws3) {
        Some((after_colon, colon)) => (after_colon, colon, true),
        None => (after_ws3, missing(RcstError::StructFieldMissesColon), false),
    };
    proof {
        lemma_suffix_trans(after_ws3@, after_key@, input@);
        lemma_suffix_trans(after_colon@, after_ws3@, input@);
        lemma_parse_ok_suffix(ind2, after_colon@, input@, ind2);
    }
    // Whitespace between colon and value.
    let (after_ws5, whitespace) = whitespaces_and_newlines(after_colon, fi + 1, true);
    if rcsts_are_multiline(&whitespace) {
        fi = indentation + 1;
    }
    let colon = colon.wrap_in_whitespace(whitespace);
    proof {
        lemma_suffix_trans(after_ws5@, after_colon@, input@);
        lemma_parse_ok_suffix(ind2, after_ws5@, input@, fi as nat + 1);
        lemma_suffix_refl(after_ws5@);
    }
    // Value.
    let (after_value, value, has_value) = match expression(after_ws5, fi + 1, true) {
        Some((after_value, value)) => (after_value, value, true),
        None => (after_ws5, missing(RcstError::StructFieldMissesValue), false),
    };
    proof {
        lemma_suffix_trans(after_value@, after_ws5@, input@);
        lemma_parse_ok_suffix(ind2, after_value@, input@, ind2);
    }
    // Whitespace between value and comma.
    let (after_ws7, whitespace) = whitespaces_and_newlines(after_value, fi + 1, true);
    if rcsts_are_multiline(&whitespace) {
        fi = indentation + 1;
    }
    let value = value.wrap_in_whitespace(whitespace);
    proof {
        lemma_suffix_refl(after_ws7@);
    }
    // Comma.
    let (rest, comma) = match comma(after_ws7) {
        Some((after_comma, comma)) => (after_comma, Some(Box::new(comma))),
        None => (after_ws7, None),
    };
    proof {
        lemma_suffix_trans(after_ws7@, after_value@, input@);
        lemma_suffix_trans(rest@, after_ws7@, input@);
    }
    if !has_key && !has_colon && !has_value && comma.is_none() {
        return None;
    }
    Some(
        (
            rest,
            fi,
            Rcst::StructField {
                key: Box::new(key),
                colon: Box::new(colon),
                value: Box::new(value),
                comma,
            },
        ),
    )
}

pub fn struct_<'a>(input: &'a [char], indentation: usize) -> (res: Option<(&'a [char], Rcst)>)
    requires
        indentation_ok(indentation as nat, input@),
        ints_fit(input@) || struct_ok(input@, indentation as nat),
    ensures
        pr_view(res) == spec_struct(input@, indentation as nat),
        pr_suffix(res, input@),
        pr_progress(res, input@),
    decreases input@.len(), 1nat,
{
    proof {
        lemma_struct_unfold(input@, indentation as nat);
        lemma_struct_ok_unfold(input@, indentation as nat);
    }
    let (after_opening, opening_bracket) = opening_bracket(input)?;
    let ghost t = after_opening@;
    let ghost ob0 = rv(opening_bracket);
    let mut opening = opening_bracket;
    let mut fields: Vec<Rcst> = Vec::new();
    let mut fields_indentation = indentation;
    let mut rest = after_opening;
    proof {
        assert(rvs(fields@) =~= Seq::<SpecRcst>::empty());
        lemma_suffix_refl(t);
    }
    loop
        invariant_except_break
            indentation_ok(indentation as nat, input@),
            is_suffix(t, input@),
            t.len() < input@.len(),
            is_suffix(rest@, t),
            fields_indentation <= indentation + 1,
            ints_fit(input@) || struct_fields_ok(rest@, indentation as nat, fields_indentation as nat),
            spec_struct_fields(t, indentation as nat, indentation as nat, Seq::empty(), ob0)
                == spec_struct_fields(
                rest@,
                indentation as nat,
                fields_indentation as nat,
                rvs(fields@),
                rv(opening),
            ),
        ensures
            is_suffix(rest@, t),
            t.len() < input@.len(),
            spec_struct_fields(t, indentation as nat, indentation as nat, Seq::empty(), ob0) == (
                rest@,
                rvs(fields@),
                rv(opening),
            ),
        decreases rest@.len(),
    {
        let ghost at_start = rest@;
        proof {
            lemma_struct_fields_unfold(
                at_start,
                indentation as nat,
                fields_indentation as nat,
                rvs(fields@),
                rv(opening),
            );
            lemma_struct_fields_ok_unfold(at_start, indentation as nat, fields_indentation as nat);
            lemma_suffix_trans(rest@, t, input@);
            lemma_parse_ok_suffix(indentation as nat, rest@, input@, indentation as nat + 1);
        }
        // Whitespace before the key goes to the previous field.
        let (after_whitespace, whitespace) = whitespaces_and_newlines(rest, indentation + 1, true);
        if rcsts_are_multiline(&whitespace) {
            fields_indentation = indentation + 1;
        }
        opening = wrap_last_or_exec(&mut fields, opening, whitespace);
        proof {
            lemma_suffix_trans(after_whitespace@, rest@, input@);
            lemma_parse_ok_suffix(
                indentation as nat,
                after_whitespace@,
                input@,
                indentation as nat + 2,
            );
            assert(after_whitespace@.len() < input@.len());
        }
        match struct_field(after_whitespace, indentation, fields_indentation) {
            None => {
                break;
            },
            Some((after_field, fi, field)) => {
                proof {
                    lemma_rvs_push(fields@, field);
                    lemma_suffix_trans(after_field@, after_whitespace@, rest@);
                    lemma_suffix_trans(after_field@, rest@, t);
                }
                fields.push(field);
                fields_indentation = fi;
                rest = after_field;
            },
        }
    }
    proof {
        lemma_suffix_trans(rest@, t, input@);
        lemma_parse_ok_suffix(indentation as nat, rest@, input@, indentation as nat);
    }
    let (after_whitespace, whitespace) = whitespaces_and_newlines(rest, indentation, true);
    match closing_bracket(after_whitespace) {
        Some((after_closing, closing_bracket)) => {
            opening = wrap_last_or_exec(&mut fields, opening, whitespace);
            proof {
                lemma_suffix_trans(after_whitespace@, rest@, input@);
                lemma_suffix_trans(after_closing@, after_whitespace@, input@);
            }
            Some(
                (
                    after_closing,
                    Rcst::Struct {
                        opening_bracket: Box::new(opening),
                        fields,
                        closing_bracket: Box::new(closing_bracket),
                    },
                ),
            )
        },
        None => Some(
            (
                rest,
                Rcst::Struct {
                    opening_bracket: Box::new(opening),
                    fields,
                    closing_bracket: Box::new(missing(RcstError::StructNotClosed)),
                },
            ),
        ),
    }
}

#[verifier::rlimit(40)]
pub fn parenthesized<'a>(input: &'a [char], indentation: usize) -> (res: Option<(&'a [char], Rcst)>)
    requires
        indentation_ok(indentation as nat, input@),
        ints_fit(input@) || parenthesized_ok(input@, indentation as nat),
    ensures
        pr_view(res) == spec_parenthesized(input@, indentation as nat),
        pr_suffix(res, input@),
        pr_progress(res, input@),
    decreases input@.len(), 1nat,
{
    proof {
        lemma_parenthesized_unfold(input@, indentation as nat);
        lemma_parenthesized_ok_unfold(input@, indentation as nat);
    }
    let (after_opening, opening) = opening_parenthesis(input)?;
    proof {
        lemma_parse_ok_suffix(indentation as nat, after_opening@, input@, indentation as nat + 1);
    }
    let (after_whitespace, whitespace) = whitespaces_and_newlines(
        after_opening,
        indentation + 1,
        true,
    );
    let inner_indentation = if rcsts_are_multiline(&whitespace) {
        indentation + 1
    } else {
        indentation
    };
    let opening = opening.wrap_in_whitespace(whitespace);
    proof {
        lemma_suffix_trans(after_whitespace@, after_opening@, input@);
        lemma_parse_ok_suffix(
            indentation as nat,
            after_whitespace@,
            input@,
            inner_indentation as nat,
        );
        assert(after_whitespace@.len() < input@.len());
        lemma_suffix_refl(after_whitespace@);
    }
    let (after_inner, inner) = match expression(after_whitespace, inner_indentation, true) {
        Some((after_inner, inner)) => (after_inner, inner),
        None => (after_whitespace, missing(RcstError::ExpressionExpectedAfterOpeningParenthesis)),
    };
    proof {
        lemma_suffix_trans(after_inner@, after_whitespace@, input@);
        lemma_parse_ok_suffix(indentation as nat, after_inner@, input@, indentation as nat);
    }
    let (after_whitespace2, whitespace) = whitespaces_and_newlines(after_inner, indentation, true);
    let inner = inner.wrap_in_whitespace(whitespace);
    proof {
        lemma_suffix_trans(after_whitespace2@, after_inner@, input@);
        lemma_suffix_refl(after_whitespace2@);
    }
    let (rest, closing) = match closing_parenthesis(after_whitespace2) {
        Some((after_closing, closing)) => (after_closing, closing),
        None => (after_whitespace2, missing(RcstError::ParenthesisNotClosed)),
    };
    proof {
        lemma_suffix_trans(rest@, after_whitespace2@, input@);
    }
    Some(
        (
            rest,
            Rcst::Parenthesized {
                opening_parenthesis: Box::new(opening),
                inner: Box::new(inner),
                closing_parenthesis: Box::new(closing),
            },
        ),
    )
}

pub fn lambda<'a>(input: &'a [char], indentation: usize) -> (res: Option<(&'a [char], Rcst)>)
    requires
        indentation_ok(indentation as nat, input@),
        ints_fit(input@) || lambda_ok(input@, indentation as nat),
    ensures
        pr_view(res) == spec_lambda(input@, indentation as nat),
        pr_suffix(res, input@),
        pr_progress(res, input@),
    decreases input@.len(), 1nat,
{
    proof {
        lemma_lambda_unfold(input@, indentation as nat);
        lemma_lambda_ok_unfold(input@, indentation as nat);
    }
    let (after_opening, opening_curly_brace) = opening_curly_brace(input)?;
    let ghost t = after_opening@;
    let mut rest = after_opening;
    let mut parameters: Vec<Rcst> = Vec::new();
    proof {
        assert(rvs(parameters@) =~= Seq::<SpecRcst>::empty());
        lemma_suffix_refl(t);
    }
    loop
        invariant_except_break
            indentation_ok(indentation as nat, input@),
            is_suffix(t, input@),
            t.len() < input@.len(),
            is_suffix(rest@, t),
            ints_fit(input@) || lambda_parameters_ok(rest@, indentation as nat),
            ints_fit(input@) || lambda_ok(input@, indentation as nat),
            spec_opening_curly_brace(input@) == Some((t, rv(opening_curly_brace))),
            spec_lambda_parameters(t, indentation as nat).0 == spec_lambda_parameters(
                rest@,
                indentation as nat,
            ).0,
            spec_lambda_parameters(t, indentation as nat).1 == rvs(parameters@)
                + spec_lambda_parameters(rest@, indentation as nat).1,
        ensures
            is_suffix(rest@, t),
            t.len() < input@.len(),
            spec_lambda_parameters(t, indentation as nat) == (rest@, rvs(parameters@)),
        decreases rest@.len(),
    {
        let ghost at_start = rest@;
        proof {
            lemma_lambda_parameters_unfold(at_start, indentation as nat);
            lemma_lambda_parameters_ok_unfold(at_start, indentation as nat);
            lemma_suffix_trans(rest@, t, input@);
            lemma_parse_ok_suffix(indentation as nat, rest@, input@, indentation as nat + 1);
        }
        let (after_whitespace, _whitespace) = whitespaces_and_newlines(
            rest,
            indentation + 1,
            true,
        );
        proof {
            lemma_suffix_trans(after_whitespace@, at_start, t);
            lemma_suffix_trans(after_whitespace@, t, input@);
            lemma_parse_ok_suffix(
                indentation as nat,
                after_whitespace@,
                input@,
                indentation as nat + 1,
            );
            assert(after_whitespace@.len() < input@.len());
        }
        rest = after_whitespace;
        match expression(after_whitespace, indentation + 1, false) {
            Some((after_parameter, parameter)) => {
                proof {
                    lemma_rvs_push(parameters@, parameter);
                    lemma_suffix_trans(after_parameter@, after_whitespace@, t);
                    let tail = spec_lambda_parameters(after_parameter@, indentation as nat).1;
                    assert(spec_lambda_parameters(at_start, indentation as nat).1 =~= seq![
                        rv(parameter),
                    ] + tail);
                    assert(rvs(parameters@) + (seq![rv(parameter)] + tail) =~= rvs(
                        parameters@,
                    ).push(rv(parameter)) + tail);
                }
                rest = after_parameter;
                parameters.push(parameter);
            },
            None => {
                proof {
                    assert(rvs(parameters@) + Seq::<SpecRcst>::empty() =~= rvs(parameters@));
                }
                break;
            },
        }
    }
    let (after_arrow, parameters_and_arrow) = match arrow(rest) {
        Some((after_arrow, arrow)) => {
            proof {
                lemma_suffix_trans(after_arrow@, rest@, t);
            }
            (after_arrow, Some((parameters, Box::new(arrow))))
        },
        None => {
            proof {
                lemma_suffix_refl(t);
            }
            (after_opening, None)
        },
    };
    proof {
        lemma_suffix_trans(after_arrow@, t, input@);
        lemma_parse_ok_suffix(indentation as nat, after_arrow@, input@, indentation as nat + 1);
    }
    let (after_whitespace, _whitespace) = whitespaces_and_newlines(
        after_arrow,
        indentation + 1,
        true,
    );
    proof {
        lemma_suffix_trans(after_whitespace@, after_arrow@, input@);
        lemma_parse_ok_suffix(
            indentation as nat,
            after_whitespace@,
            input@,
            indentation as nat + 1,
        );
        assert(after_whitespace@.len() < input@.len());
    }
    let (after_body, body) = body(after_whitespace, indentation + 1);
    let mut rest = if body.len() > 0 {
        after_body
    } else {
        after_arrow
    };
    proof {
        lemma_suffix_trans(after_body@, after_whitespace@, input@);
        lemma_parse_ok_suffix(indentation as nat, after_body@, input@, indentation as nat);
    }
    let (after_whitespace2, _whitespace) = whitespaces_and_newlines(after_body, indentation, true);
    let closing_curly_brace = match closing_curly_brace(after_whitespace2) {
        Some((after_closing, closing_curly_brace)) => {
            proof {
                lemma_suffix_trans(after_whitespace2@, after_body@, input@);
                lemma_suffix_trans(after_closing@, after_whitespace2@, input@);
            }
            rest = after_closing;
            closing_curly_brace
        },
        None => missing(RcstError::CurlyBraceNotClosed),
    };
    Some(
        (
            rest,
            Rcst::Lambda {
                opening_curly_brace: Box::new(opening_curly_brace),
                parameters_and_arrow,
                body,
                closing_curly_brace: Box::new(closing_curly_brace),
            },
        ),
    )
}

/// A body: expressions (and stray punctuation) on lines of the given
/// indentation, with the whitespace between them.
pub fn body<'a>(input: &'a [char], indentation: usize) -> (res: (&'a [char], Vec<Rcst>))
    requires
        indentation_ok(indentation as nat, input@),
        ints_fit(input@) || body_ok(input@, indentation as nat),
    ensures
        (res.0@, rvs(res.1@)) == spec_body(input@, indentation as nat),
        is_suffix(res.0@, input@),
    decreases input@.len(), 13nat,
{
    let mut rest = input;
    let mut expressions: Vec<Rcst> = Vec::new();
    proof {
        assert(rvs(expressions@) =~= Seq::<SpecRcst>::empty());
        lemma_suffix_refl(input@);
    }
    loop
        invariant_except_break
            indentation_ok(indentation as nat, input@),
            is_suffix(rest@, input@),
            ints_fit(input@) || body_ok(rest@, indentation as nat),
            spec_body(input@, indentation as nat).0 == spec_body(rest@, indentation as nat).0,
            spec_body(input@, indentation as nat).1 == rvs(expressions@) + spec_body(
                rest@,
                indentation as nat,
            ).1,
        ensures
            is_suffix(rest@, input@),
            spec_body(input@, indentation as nat) == (rest@, rvs(expressions@)),
        decreases rest@.len(),
    {
        let ghost at_start = rest@;
        proof {
            lemma_body_unfold(at_start, indentation as nat);
            lemma_body_ok_unfold(at_start, indentation as nat);
            lemma_parse_ok_suffix(indentation as nat, rest@, input@, indentation as nat);
        }
        let (after_whitespace, whitespace) = whitespaces_and_newlines(rest, indentation, true);
        let mut new_expressions = whitespace;
        let (after_unexpected, unexpected_whitespace) = single_line_whitespace(after_whitespace);
        proof {
            lemma_span(after_whitespace@, single_line_whitespace_pred());
            lemma_suffix_trans(after_unexpected@, after_whitespace@, at_start);
            lemma_suffix_trans(after_unexpected@, at_start, input@);
        }
        let mut inner = indentation;
        match unexpected_whitespace {
            Rcst::Whitespace(whitespace) => {
                let n = whitespace.as_str().unicode_len();
                if n != 0 {
                    inner = indentation + n / 2;
                    let error = Rcst::Error {
                        unparsable_input: whitespace,
                        error: RcstError::TooMuchWhitespace,
                    };
                    proof {
                        lemma_rvs_push(new_expressions@, error);
                    }
                    new_expressions.push(error);
                }
            },
            other => {
                proof {
                    lemma_rvs_push(new_expressions@, other);
                }
                new_expressions.push(other);
            },
        }
        proof {
            lemma_parse_ok_suffix(indentation as nat, after_unexpected@, input@, inner as nat);
        }
        let next = match expression(after_unexpected, inner, true) {
            Some(x) => Some(x),
            None => body_fallback(after_unexpected),
        };
        match next {
            Some((after_expression, e)) => {
                proof {
                    lemma_rvs_push(new_expressions@, e);
                    lemma_suffix_trans(after_expression@, after_unexpected@, input@);
                    lemma_suffix_trans(after_expression@, after_unexpected@, at_start);
                }
                new_expressions.push(e);
                let ghost before = expressions@;
                let ghost added = new_expressions@;
                expressions.append(&mut new_expressions);
                proof {
                    lemma_rvs_add(before, added);
                    let tail = spec_body(after_expression@, indentation as nat).1;
                    assert(rvs(before) + (rvs(added) + tail) =~= rvs(before) + rvs(added) + tail);
                }
                rest = after_expression;
            },
            None => {
                proof {
                    assert(rvs(expressions@) + Seq::<SpecRcst>::empty() =~= rvs(expressions@));
                }
                break;
            },
        }
    }
    (rest, expressions)
}

/// Parses a whole source text: its body and, if some input remains unparsed,
/// an error holding that rest. The source must not be too long for the
/// machine's integers, and no int that the parser reads may be too large for
/// 64 bits (such an int stops the parse); the latter holds in particular if
/// every run of digits in the source fits.
pub fn rcst(source: &[char]) -> (res: Vec<Rcst>)
    requires
        indentation_ok(0, source@),
        ints_fit(source@) || body_ok(source@, 0),
    ensures
        rvs(res@) == spec_rcst(source@),
{
    let (rest, mut rcsts) = body(source, 0);
    if rest.len() != 0 {
        let error = Rcst::Error {
            unparsable_input: join_chars(chars_to_vec(rest)),
            error: RcstError::UnparsedRest,
        };
        proof {
            lemma_rvs_push(rcsts@, error);
        }
        rcsts.push(error);
    }
    rcsts
}

/// Whether a non-empty sequence of ASCII digits has a value that fits into
/// 64 bits.
fn digits_fit(w: &Vec<char>) -> (b: bool)
    requires
        all_ascii_digits(w@),
    ensures
        b == (digits_value(w@) <= u64::MAX),
{
    let mut v: u64 = 0;
    let mut i: usize = 0;
    while i < w.len()
        invariant
            i <= w.len(),
            all_ascii_digits(w@),
            v == digits_value(w@.subrange(0, i as int)),
        decreases w.len() - i,
    {
        proof {
            let t = w@.subrange(0, i + 1);
            assert(t.subrange(0, t.len() - 1) =~= w@.subrange(0, i as int));
            assert(spec_is_ascii_digit(w@[i as int]));
        }
        let d = ((w[i] as u32) - ('0' as u32)) as u64;
        if v > (u64::MAX - d) / 10 {
            proof {
                assert(v * 10 + d > u64::MAX) by (nonlinear_arith)
                    requires
                        v > (u64::MAX - d) / 10,
                        d <= 9,
                ;
                lemma_digits_value_prefix(w@, i + 1);
            }
            return false;
        }
        proof {
            assert(v * 10 + d <= u64::MAX) by (nonlinear_arith)
                requires
                    v <= (u64::MAX - d) / 10,
                    d <= 9,
            ;
        }
        v = v * 10 + d;
        i = i + 1;
    }
    proof {
        assert(w@.subrange(0, w.len() as int) =~= w@);
    }
    true
}

/// Whether the word at the start of the input, if made of digits only, fits
/// into 64 bits.
fn int_fits_exec(input: &[char]) -> (b: bool)
    ensures
        b == int_fits(input@),
{
    match word_chars(input) {
        Some((_, w)) => {
            if chars_are_ascii_digits(&w) {
                digits_fit(&w)
            } else {
                true
            }
        },
        None => true,
    }
}

/// Whether the source passes the check that `rcst` can take it: it is not too
/// long for the machine's integers, and every run of digits in it fits into
/// 64 bits (this rejects too large runs of digits also where the parser never
/// reads them as ints, such as in comments).
pub fn is_parsable(source: &[char]) -> (b: bool)
    ensures
        b == input_ok(0, source@),
{
    if source.len() > (usize::MAX / 4 - 32) / 4 {
        return false;
    }
    let mut i: usize = 0;
    while i <= source.len()
        invariant
            i <= source.len() + 1,
            source.len() <= (usize::MAX / 4 - 32) / 4,
            forall|j: int| 0 <= j < i ==> #[trigger] int_fits(source@.skip(j)),
        decreases source.len() + 1 - i,
    {
        let rest = slice_subrange(source, i, source.len());
        proof {
            assert(rest@ =~= source@.skip(i as int));
        }
        if !int_fits_exec(rest) {
            return false;
        }
        i = i + 1;
    }
    true
}

/// Parses a whole source text if it passes `is_parsable`, and says so if
/// not.
pub fn try_rcst(source: &[char]) -> (res: Option<Vec<Rcst>>)
    ensures
        match res {
            Some(rcsts) => input_ok(0, source@) && rvs(rcsts@) == spec_rcst(source@),
            None => !input_ok(0, source@),
        },
{
    if is_parsable(source) {
        Some(rcst(source))
    } else {
        None
    }
}

} // verus!
