//! The grammar of the nested constructs of the string-to-RCST parser:
//! expressions, runs of expressions, calls, assignments, structs,
//! parenthesized expressions, lambdas and bodies.
//!
//! These definitions are mutually recursive. Each `spec_f` is closed and
//! equals its `f_step`, which is open and defines it one level deep in terms
//! of the other `spec_` functions; `lemma_f_unfold` states that equation
//! outside this module. Proofs about the parser thus unfold exactly the
//! levels they need.

use crate::rcst::{is_ml, is_ml_seq, spec_wrap, RcstError, SpecRcst};
use crate::string_to_rcst::{
    clamp_le, clamp_lt, empty_error, lemma_leading_indentation_len, lemma_single_line_whitespace_len,
    lemma_token_len, lemma_whitespaces_and_newlines_len, next_fields_indentation, or_else,
    spec_arrow, spec_body_fallback, spec_closing_bracket, spec_closing_curly_brace,
    spec_closing_parenthesis, spec_colon, spec_comma, spec_equals_sign, spec_identifier, spec_int,
    spec_leading_indentation, spec_opening_bracket, spec_opening_curly_brace,
    spec_opening_parenthesis, spec_run_fallback, spec_single_line_whitespace, spec_symbol,
    spec_text, spec_whitespaces_and_newlines, spec_word_error, wrap_last_or, int_fits,
};
use vstd::prelude::*;

verus! {

/// An expression. Calls and assignments are only parsed if allowed.
pub closed spec fn spec_expression(s: Seq<char>, indentation: nat, allow_call_and_assignment: bool) -> Option<(Seq<char>, SpecRcst)>
    decreases s.len(),
        if allow_call_and_assignment {
            9nat
        } else {
            3nat
        },
{
    expression_step(s, indentation, allow_call_and_assignment)
}

/// The definition of [`spec_expression`], unfolded one level.
pub open spec fn expression_step(s: Seq<char>, indentation: nat, allow_call_and_assignment: bool) -> Option<(Seq<char>, SpecRcst)>
    decreases s.len(),
        if allow_call_and_assignment {
            8nat
        } else {
            2nat
        },
{
    or_else(
        spec_int(s),
        or_else(
            spec_text(s, indentation),
            or_else(
                spec_symbol(s),
                or_else(
                    spec_struct(s, indentation),
                    or_else(
                        spec_parenthesized(s, indentation),
                        or_else(
                            spec_lambda(s, indentation),
                            or_else(
                                if allow_call_and_assignment {
                                    spec_assignment(s, indentation)
                                } else {
                                    None
                                },
                                or_else(
                                    if allow_call_and_assignment {
                                        spec_call(s, indentation)
                                    } else {
                                        None
                                    },
                                    or_else(spec_identifier(s), spec_word_error(s)),
                                ),
                            ),
                        ),
                    ),
                ),
            ),
        ),
    )
}

pub proof fn lemma_expression_unfold(s: Seq<char>, indentation: nat, allow_call_and_assignment: bool)
    ensures
        spec_expression(s, indentation, allow_call_and_assignment) == expression_step(s, indentation, allow_call_and_assignment),
{
}

/// Multiple expressions that are occurring one after another. The whitespace
/// between them is not kept.
pub closed spec fn spec_run_of_expressions(s: Seq<char>, indentation: nat) -> Option<(Seq<char>, Seq<SpecRcst>)>
    decreases s.len(), 5nat,
{
    run_of_expressions_step(s, indentation)
}

/// The definition of [`spec_run_of_expressions`], unfolded one level.
pub open spec fn run_of_expressions_step(s: Seq<char>, indentation: nat) -> Option<(Seq<char>, Seq<SpecRcst>)>
    decreases s.len(), 4nat,
{
    match clamp_lt(spec_expression(s, indentation, false), s) {
        None => None,
        Some((i, e)) => {
            let (r, es) = spec_run_rest(i, indentation, false);
            Some((r, seq![e] + es))
        },
    }
}

pub proof fn lemma_run_of_expressions_unfold(s: Seq<char>, indentation: nat)
    ensures
        spec_run_of_expressions(s, indentation) == run_of_expressions_step(s, indentation),
{
}

/// The expressions of a run after its first one. Once whitespace with a line
/// break separated two of them, the rest may be calls and assignments and is
/// indented one level deeper.
pub closed spec fn spec_run_rest(s: Seq<char>, indentation: nat, has_multiline_whitespace: bool) -> (Seq<char>, Seq<SpecRcst>)
    decreases s.len(), 11nat,
{
    run_rest_step(s, indentation, has_multiline_whitespace)
}

/// The definition of [`spec_run_rest`], unfolded one level.
pub open spec fn run_rest_step(s: Seq<char>, indentation: nat, has_multiline_whitespace: bool) -> (Seq<char>, Seq<SpecRcst>)
    decreases s.len(), 10nat,
{
    let (i, whitespace) = spec_whitespaces_and_newlines(s, indentation + 1, true);
    let ml = has_multiline_whitespace || is_ml_seq(whitespace);
    let inner = if ml {
        indentation + 1
    } else {
        indentation
    };
    proof {
        lemma_whitespaces_and_newlines_len(s, indentation + 1, true);
    }
    match clamp_lt(or_else(spec_expression(i, inner, ml), spec_run_fallback(i)), s) {
        None => (s, Seq::empty()),
        Some((i2, e)) => {
            let (r, es) = spec_run_rest(i2, indentation, ml);
            (r, seq![e] + es)
        },
    }
}

pub proof fn lemma_run_rest_unfold(s: Seq<char>, indentation: nat, has_multiline_whitespace: bool)
    ensures
        spec_run_rest(s, indentation, has_multiline_whitespace) == run_rest_step(s, indentation, has_multiline_whitespace),
{
}

/// A call: a run of at least two expressions, the first being the callee.
pub closed spec fn spec_call(s: Seq<char>, indentation: nat) -> Option<(Seq<char>, SpecRcst)>
    decreases s.len(), 7nat,
{
    call_step(s, indentation)
}

/// The definition of [`spec_call`], unfolded one level.
pub open spec fn call_step(s: Seq<char>, indentation: nat) -> Option<(Seq<char>, SpecRcst)>
    decreases s.len(), 6nat,
{
    match spec_run_of_expressions(s, indentation) {
        None => None,
        Some((i, es)) => if es.len() < 2 {
            None
        } else {
            Some((i, SpecRcst::Call { name: Box::new(es[0]), arguments: es.skip(1) }))
        },
    }
}

pub proof fn lemma_call_unfold(s: Seq<char>, indentation: nat)
    ensures
        spec_call(s, indentation) == call_step(s, indentation),
{
}

/// An assignment: a run of expressions (the name and the parameters), an
/// equals sign, and a body. The whitespace around the equals sign is not
/// kept. If the name, the parameters or the whitespace after the equals sign
/// span several lines, the body is an indented block; otherwise it is a
/// single expression.
pub closed spec fn spec_assignment(s: Seq<char>, indentation: nat) -> Option<(Seq<char>, SpecRcst)>
    decreases s.len(), 7nat,
{
    assignment_step(s, indentation)
}

/// The definition of [`spec_assignment`], unfolded one level.
pub open spec fn assignment_step(s: Seq<char>, indentation: nat) -> Option<(Seq<char>, SpecRcst)>
    decreases s.len(), 6nat,
{
    match spec_run_of_expressions(s, indentation) {
        None => None,
        Some((i, signature)) => if signature.len() == 0 || i.len() > s.len() {
            None
        } else {
            let (i1, whitespace) = spec_whitespaces_and_newlines(i, indentation + 1, true);
            let name = signature[0];
            let parameters = signature.skip(1);
            proof {
                lemma_whitespaces_and_newlines_len(i, indentation + 1, true);
            }
            match spec_equals_sign(i1) {
                None => None,
                Some((i2, equals_sign)) => {
                    let (i3, more_whitespace) = spec_whitespaces_and_newlines(i2, indentation, true);
                    proof {
                        lemma_whitespaces_and_newlines_len(i2, indentation, true);
                    }
                    if is_ml(name) || is_ml_seq(parameters) || is_ml_seq(more_whitespace) {
                        match spec_leading_indentation(i3, 1) {
                            None => None,
                            Some((i4, _)) => {
                                proof {
                                    lemma_leading_indentation_len(i3, 1);
                                }
                                let (i5, body) = spec_body(i4, indentation + 1);
                                Some(
                                    (
                                        if body.len() == 0 {
                                            i2
                                        } else {
                                            i5
                                        },
                                        SpecRcst::Assignment {
                                            name: Box::new(name),
                                            parameters,
                                            equals_sign: Box::new(equals_sign),
                                            body,
                                        },
                                    ),
                                )
                            },
                        }
                    } else {
                        let (i4, body) = match spec_expression(i3, indentation, true) {
                            Some((i4, e)) => (i4, seq![e]),
                            None => (i2, Seq::empty()),
                        };
                        Some(
                            (
                                i4,
                                SpecRcst::Assignment {
                                    name: Box::new(name),
                                    parameters,
                                    equals_sign: Box::new(equals_sign),
                                    body,
                                },
                            ),
                        )
                    }
                },
            }
        },
    }
}

pub proof fn lemma_assignment_unfold(s: Seq<char>, indentation: nat)
    ensures
        spec_assignment(s, indentation) == assignment_step(s, indentation),
{
}

/// One field of a struct, starting at its key: the key, the colon and the
/// value (each missing part is an error, and each part takes the whitespace
/// after it) and an optional comma. Returns the remaining input and the
/// indentation of the fields after it, or nothing if not a single part of a
/// field is there.
pub closed spec fn spec_struct_field(s: Seq<char>, indentation: nat, fields_indentation: nat) -> Option<(Seq<char>, nat, SpecRcst)>
    decreases s.len(), 11nat,
{
    struct_field_step(s, indentation, fields_indentation)
}

/// The definition of [`spec_struct_field`], unfolded one level.
pub open spec fn struct_field_step(s: Seq<char>, indentation: nat, fields_indentation: nat) -> Option<(Seq<char>, nat, SpecRcst)>
    decreases s.len(), 10nat,
{
    // The key itself.
    let (i2, key, has_key) = match clamp_le(spec_expression(s, fields_indentation, true), s) {
        Some((i, k)) => (i, k, true),
        None => (s, empty_error(RcstError::StructFieldMissesKey), false),
    };
    // Whitespace between key and colon.
    let (i3, ws3) = spec_whitespaces_and_newlines(i2, fields_indentation + 1, true);
    let fi3 = next_fields_indentation(ws3, indentation, fields_indentation);
    let key = spec_wrap(key, ws3);
    proof {
        lemma_whitespaces_and_newlines_len(i2, fields_indentation + 1, true);
    }
    // Colon.
    let (i4, colon, has_colon) = match spec_colon(i3) {
        Some((i, c)) => (i, c, true),
        None => (i3, empty_error(RcstError::StructFieldMissesColon), false),
    };
    proof {
        lemma_token_len(i3, seq![':'], SpecRcst::Colon);
    }
    // Whitespace between colon and value.
    let (i5, ws5) = spec_whitespaces_and_newlines(i4, fi3 + 1, true);
    let fi5 = next_fields_indentation(ws5, indentation, fi3);
    let colon = spec_wrap(colon, ws5);
    proof {
        lemma_whitespaces_and_newlines_len(i4, fi3 + 1, true);
    }
    // Value.
    let (i6, value, has_value) = match clamp_le(spec_expression(i5, fi5 + 1, true), s) {
        Some((i, v)) => (i, v, true),
        None => (i5, empty_error(RcstError::StructFieldMissesValue), false),
    };
    // Whitespace between value and comma.
    let (i7, ws7) = spec_whitespaces_and_newlines(i6, fi5 + 1, true);
    let fi7 = next_fields_indentation(ws7, indentation, fi5);
    let value = spec_wrap(value, ws7);
    // Comma.
    let (i8, comma) = match spec_comma(i7) {
        Some((i, c)) => (i, Some(Box::new(c))),
        None => (i7, None),
    };
    if !has_key && !has_colon && !has_value && comma is None {
        None
    } else {
        Some(
            (
                i8,
                fi7,
                SpecRcst::StructField {
                    key: Box::new(key),
                    colon: Box::new(colon),
                    value: Box::new(value),
                    comma,
                },
            ),
        )
    }
}

pub proof fn lemma_struct_field_unfold(s: Seq<char>, indentation: nat, fields_indentation: nat)
    ensures
        spec_struct_field(s, indentation, fields_indentation) == struct_field_step(s, indentation, fields_indentation),
{
}

/// The fields of a struct, from just after the opening bracket (or the last
/// field). The whitespace before each field goes to the previous field (or to
/// the opening bracket). Returns the remaining input, the fields, and the
/// opening bracket.
pub closed spec fn spec_struct_fields(s: Seq<char>, indentation: nat, fields_indentation: nat, fields: Seq<SpecRcst>, opening: SpecRcst) -> (Seq<char>, Seq<SpecRcst>, SpecRcst)
    decreases s.len(), 13nat,
{
    struct_fields_step(s, indentation, fields_indentation, fields, opening)
}

/// The definition of [`spec_struct_fields`], unfolded one level.
pub open spec fn struct_fields_step(s: Seq<char>, indentation: nat, fields_indentation: nat, fields: Seq<SpecRcst>, opening: SpecRcst) -> (Seq<char>, Seq<SpecRcst>, SpecRcst)
    decreases s.len(), 12nat,
{
    let (i1, ws1) = spec_whitespaces_and_newlines(s, indentation + 1, true);
    let fi1 = next_fields_indentation(ws1, indentation, fields_indentation);
    let (fields1, opening1) = wrap_last_or(fields, opening, ws1);
    proof {
        lemma_whitespaces_and_newlines_len(s, indentation + 1, true);
    }
    match spec_struct_field(i1, indentation, fi1) {
        None => (s, fields1, opening1),
        Some((i8, fi8, field)) => if i8.len() < s.len() {
            spec_struct_fields(i8, indentation, fi8, fields1.push(field), opening1)
        } else {
            (s, fields1, opening1)
        },
    }
}

pub proof fn lemma_struct_fields_unfold(s: Seq<char>, indentation: nat, fields_indentation: nat, fields: Seq<SpecRcst>, opening: SpecRcst)
    ensures
        spec_struct_fields(s, indentation, fields_indentation, fields, opening) == struct_fields_step(s, indentation, fields_indentation, fields, opening),
{
}

/// A struct: fields with keys and values in brackets.
pub closed spec fn spec_struct(s: Seq<char>, indentation: nat) -> Option<(Seq<char>, SpecRcst)>
    decreases s.len(), 1nat,
{
    struct_step(s, indentation)
}

/// The definition of [`spec_struct`], unfolded one level.
pub open spec fn struct_step(s: Seq<char>, indentation: nat) -> Option<(Seq<char>, SpecRcst)>
    decreases s.len(), 0nat,
{
    match spec_opening_bracket(s) {
        None => None,
        Some((t, opening_bracket)) => {
            let (outer, fields, opening) = spec_struct_fields(
                t,
                indentation,
                indentation,
                Seq::empty(),
                opening_bracket,
            );
            let (ni, whitespace) = spec_whitespaces_and_newlines(outer, indentation, true);
            match spec_closing_bracket(ni) {
                Some((i, closing_bracket)) => {
                    let (fields, opening) = wrap_last_or(fields, opening, whitespace);
                    Some(
                        (
                            i,
                            SpecRcst::Struct {
                                opening_bracket: Box::new(opening),
                                fields,
                                closing_bracket: Box::new(closing_bracket),
                            },
                        ),
                    )
                },
                None => Some(
                    (
                        outer,
                        SpecRcst::Struct {
                            opening_bracket: Box::new(opening),
                            fields,
                            closing_bracket: Box::new(empty_error(RcstError::StructNotClosed)),
                        },
                    ),
                ),
            }
        },
    }
}

pub proof fn lemma_struct_unfold(s: Seq<char>, indentation: nat)
    ensures
        spec_struct(s, indentation) == struct_step(s, indentation),
{
}

/// An expression in parentheses.
pub closed spec fn spec_parenthesized(s: Seq<char>, indentation: nat) -> Option<(Seq<char>, SpecRcst)>
    decreases s.len(), 1nat,
{
    parenthesized_step(s, indentation)
}

/// The definition of [`spec_parenthesized`], unfolded one level.
pub open spec fn parenthesized_step(s: Seq<char>, indentation: nat) -> Option<(Seq<char>, SpecRcst)>
    decreases s.len(), 0nat,
{
    match spec_opening_parenthesis(s) {
        None => None,
        Some((t, opening)) => {
            let (i1, ws1) = spec_whitespaces_and_newlines(t, indentation + 1, true);
            let inner_indentation = if is_ml_seq(ws1) {
                indentation + 1
            } else {
                indentation
            };
            let opening = spec_wrap(opening, ws1);
            proof {
                lemma_whitespaces_and_newlines_len(t, indentation + 1, true);
            }
            let (i2, inner) = match spec_expression(i1, inner_indentation, true) {
                Some((i, e)) => (i, e),
                None => (i1, empty_error(RcstError::ExpressionExpectedAfterOpeningParenthesis)),
            };
            let (i3, ws3) = spec_whitespaces_and_newlines(i2, indentation, true);
            let inner = spec_wrap(inner, ws3);
            let (i4, closing) = match spec_closing_parenthesis(i3) {
                Some((i, c)) => (i, c),
                None => (i3, empty_error(RcstError::ParenthesisNotClosed)),
            };
            Some(
                (
                    i4,
                    SpecRcst::Parenthesized {
                        opening_parenthesis: Box::new(opening),
                        inner: Box::new(inner),
                        closing_parenthesis: Box::new(closing),
                    },
                ),
            )
        },
    }
}

pub proof fn lemma_parenthesized_unfold(s: Seq<char>, indentation: nat)
    ensures
        spec_parenthesized(s, indentation) == parenthesized_step(s, indentation),
{
}

/// The parameters of a lambda: expressions separated by whitespace. Returns
/// the input after the whitespace following the last parameter.
pub closed spec fn spec_lambda_parameters(s: Seq<char>, indentation: nat) -> (Seq<char>, Seq<SpecRcst>)
    decreases s.len(), 11nat,
{
    lambda_parameters_step(s, indentation)
}

/// The definition of [`spec_lambda_parameters`], unfolded one level.
pub open spec fn lambda_parameters_step(s: Seq<char>, indentation: nat) -> (Seq<char>, Seq<SpecRcst>)
    decreases s.len(), 10nat,
{
    let (i, _) = spec_whitespaces_and_newlines(s, indentation + 1, true);
    proof {
        lemma_whitespaces_and_newlines_len(s, indentation + 1, true);
    }
    match clamp_lt(spec_expression(i, indentation + 1, false), s) {
        None => (i, Seq::empty()),
        Some((i2, p)) => {
            let (r, ps) = spec_lambda_parameters(i2, indentation);
            (r, seq![p] + ps)
        },
    }
}

pub proof fn lemma_lambda_parameters_unfold(s: Seq<char>, indentation: nat)
    ensures
        spec_lambda_parameters(s, indentation) == lambda_parameters_step(s, indentation),
{
}

/// A lambda: curly braces around optional parameters with an arrow, and a
/// body. The whitespace inside the braces (outside the body) is not kept.
pub closed spec fn spec_lambda(s: Seq<char>, indentation: nat) -> Option<(Seq<char>, SpecRcst)>
    decreases s.len(), 1nat,
{
    lambda_step(s, indentation)
}

/// The definition of [`spec_lambda`], unfolded one level.
pub open spec fn lambda_step(s: Seq<char>, indentation: nat) -> Option<(Seq<char>, SpecRcst)>
    decreases s.len(), 0nat,
{
    match spec_opening_curly_brace(s) {
        None => None,
        Some((t, opening)) => {
            let (ip, parameters) = spec_lambda_parameters(t, indentation);
            let (input, parameters_and_arrow) = match spec_arrow(ip) {
                Some((i, a)) => (i, Some((parameters, Box::new(a)))),
                None => (t, None),
            };
            if input.len() <= t.len() {
                let (i1, _) = spec_whitespaces_and_newlines(input, indentation + 1, true);
                proof {
                    lemma_whitespaces_and_newlines_len(input, indentation + 1, true);
                }
                let (i2, body) = spec_body(i1, indentation + 1);
                let input = if body.len() > 0 {
                    i2
                } else {
                    input
                };
                let (i3, _) = spec_whitespaces_and_newlines(i2, indentation, true);
                let (input, closing) = match spec_closing_curly_brace(i3) {
                    Some((i, c)) => (i, c),
                    None => (input, empty_error(RcstError::CurlyBraceNotClosed)),
                };
                Some(
                    (
                        input,
                        SpecRcst::Lambda {
                            opening_curly_brace: Box::new(opening),
                            parameters_and_arrow,
                            body,
                            closing_curly_brace: Box::new(closing),
                        },
                    ),
                )
            } else {
                None
            }
        },
    }
}

pub proof fn lemma_lambda_unfold(s: Seq<char>, indentation: nat)
    ensures
        spec_lambda(s, indentation) == lambda_step(s, indentation),
{
}

/// A body: expressions (and stray punctuation) on lines of the given
/// indentation, with the whitespace between them as elements of their own.
/// More leading whitespace than expected is reported and raises the
/// indentation of that line's expression.
pub closed spec fn spec_body(s: Seq<char>, indentation: nat) -> (Seq<char>, Seq<SpecRcst>)
    decreases s.len(), 13nat,
{
    body_step(s, indentation)
}

/// The definition of [`spec_body`], unfolded one level.
pub open spec fn body_step(s: Seq<char>, indentation: nat) -> (Seq<char>, Seq<SpecRcst>)
    decreases s.len(), 12nat,
{
    let (s1, whitespace) = spec_whitespaces_and_newlines(s, indentation, true);
    let (s2, unexpected) = spec_single_line_whitespace(s1);
    let (inner, new) = match unexpected {
        SpecRcst::Whitespace(w) => if w.len() > 0 {
            (
                indentation + w.len() / 2,
                whitespace.push(
                    SpecRcst::Error { unparsable_input: w, error: RcstError::TooMuchWhitespace },
                ),
            )
        } else {
            (indentation, whitespace)
        },
        _ => (indentation, whitespace.push(unexpected)),
    };
    proof {
        lemma_whitespaces_and_newlines_len(s, indentation, true);
        lemma_single_line_whitespace_len(s1);
    }
    match clamp_lt(or_else(spec_expression(s2, inner, true), spec_body_fallback(s2)), s) {
        None => (s, Seq::empty()),
        Some((s3, e)) => {
            let (r, rest) = spec_body(s3, indentation);
            (r, new.push(e) + rest)
        },
    }
}

pub proof fn lemma_body_unfold(s: Seq<char>, indentation: nat)
    ensures
        spec_body(s, indentation) == body_step(s, indentation),
{
}

// ----------------------------------------------------------------------------
// Which inputs the parsers take.
//
// The parser of ints stops the whole parse when a run of digits is too large
// for 64 bits. Each `X_ok` below says that no int that the parser of `X`
// reads, at any input it reaches from this one, is too large; it follows
// the parser's steps exactly, alternatives that fail included.

/// No int that the expression parser reads is too large.
pub closed spec fn expression_ok(s: Seq<char>, indentation: nat, allow_call_and_assignment: bool) -> bool
    decreases s.len(),
        if allow_call_and_assignment {
            9nat
        } else {
            3nat
        },
{
    expression_ok_step(s, indentation, allow_call_and_assignment)
}

/// The definition of [`expression_ok`], unfolded one level.
pub open spec fn expression_ok_step(s: Seq<char>, indentation: nat, allow_call_and_assignment: bool) -> bool
    decreases s.len(),
        if allow_call_and_assignment {
            8nat
        } else {
            2nat
        },
{
    &&& int_fits(s)
    &&& spec_int(s) is None && spec_text(s, indentation) is None && spec_symbol(s) is None
        ==> struct_ok(s, indentation)
    &&& spec_int(s) is None && spec_text(s, indentation) is None && spec_symbol(s) is None
        && spec_struct(s, indentation) is None ==> parenthesized_ok(s, indentation)
    &&& spec_int(s) is None && spec_text(s, indentation) is None && spec_symbol(s) is None
        && spec_struct(s, indentation) is None && spec_parenthesized(s, indentation) is None
        ==> lambda_ok(s, indentation)
    &&& allow_call_and_assignment && spec_int(s) is None && spec_text(s, indentation) is None
        && spec_symbol(s) is None && spec_struct(s, indentation) is None && spec_parenthesized(
        s,
        indentation,
    ) is None && spec_lambda(s, indentation) is None ==> assignment_ok(s, indentation)
    &&& allow_call_and_assignment && spec_int(s) is None && spec_text(s, indentation) is None
        && spec_symbol(s) is None && spec_struct(s, indentation) is None && spec_parenthesized(
        s,
        indentation,
    ) is None && spec_lambda(s, indentation) is None && spec_assignment(s, indentation) is None
        ==> call_ok(s, indentation)
}

pub proof fn lemma_expression_ok_unfold(s: Seq<char>, indentation: nat, allow_call_and_assignment: bool)
    ensures
        expression_ok(s, indentation, allow_call_and_assignment) == expression_ok_step(s, indentation, allow_call_and_assignment),
{
}

/// No int that the parser of a run of expressions reads is too large.
pub closed spec fn run_of_expressions_ok(s: Seq<char>, indentation: nat) -> bool
    decreases s.len(), 5nat,
{
    run_of_expressions_ok_step(s, indentation)
}

/// The definition of [`run_of_expressions_ok`], unfolded one level.
pub open spec fn run_of_expressions_ok_step(s: Seq<char>, indentation: nat) -> bool
    decreases s.len(), 4nat,
{
    &&& expression_ok(s, indentation, false)
    &&& match clamp_lt(spec_expression(s, indentation, false), s) {
        None => true,
        Some((i, _)) => run_rest_ok(i, indentation, false),
    }
}

pub proof fn lemma_run_of_expressions_ok_unfold(s: Seq<char>, indentation: nat)
    ensures
        run_of_expressions_ok(s, indentation) == run_of_expressions_ok_step(s, indentation),
{
}

/// No int that the parser of the rest of a run reads is too large.
pub closed spec fn run_rest_ok(s: Seq<char>, indentation: nat, has_multiline_whitespace: bool) -> bool
    decreases s.len(), 11nat,
{
    run_rest_ok_step(s, indentation, has_multiline_whitespace)
}

/// The definition of [`run_rest_ok`], unfolded one level.
pub open spec fn run_rest_ok_step(s: Seq<char>, indentation: nat, has_multiline_whitespace: bool) -> bool
    decreases s.len(), 10nat,
{
    let (i, whitespace) = spec_whitespaces_and_newlines(s, indentation + 1, true);
    let ml = has_multiline_whitespace || is_ml_seq(whitespace);
    let inner = if ml {
        indentation + 1
    } else {
        indentation
    };
    proof {
        lemma_whitespaces_and_newlines_len(s, indentation + 1, true);
    }
    &&& expression_ok(i, inner, ml)
    &&& match clamp_lt(or_else(spec_expression(i, inner, ml), spec_run_fallback(i)), s) {
        None => true,
        Some((i2, _)) => run_rest_ok(i2, indentation, ml),
    }
}

pub proof fn lemma_run_rest_ok_unfold(s: Seq<char>, indentation: nat, has_multiline_whitespace: bool)
    ensures
        run_rest_ok(s, indentation, has_multiline_whitespace) == run_rest_ok_step(s, indentation, has_multiline_whitespace),
{
}

/// No int that the call parser reads is too large.
pub closed spec fn call_ok(s: Seq<char>, indentation: nat) -> bool
    decreases s.len(), 7nat,
{
    call_ok_step(s, indentation)
}

/// The definition of [`call_ok`], unfolded one level.
pub open spec fn call_ok_step(s: Seq<char>, indentation: nat) -> bool
    decreases s.len(), 6nat,
{
    run_of_expressions_ok(s, indentation)
}

pub proof fn lemma_call_ok_unfold(s: Seq<char>, indentation: nat)
    ensures
        call_ok(s, indentation) == call_ok_step(s, indentation),
{
}

/// No int that the assignment parser reads is too large.
pub closed spec fn assignment_ok(s: Seq<char>, indentation: nat) -> bool
    decreases s.len(), 7nat,
{
    assignment_ok_step(s, indentation)
}

/// The definition of [`assignment_ok`], unfolded one level.
pub open spec fn assignment_ok_step(s: Seq<char>, indentation: nat) -> bool
    decreases s.len(), 6nat,
{
    &&& run_of_expressions_ok(s, indentation)
    &&& match spec_run_of_expressions(s, indentation) {
        None => true,
        Some((i, signature)) => if signature.len() == 0 || i.len() > s.len() {
            true
        } else {
            let (i1, _) = spec_whitespaces_and_newlines(i, indentation + 1, true);
            let name = signature[0];
            let parameters = signature.skip(1);
            proof {
                lemma_whitespaces_and_newlines_len(i, indentation + 1, true);
            }
            match spec_equals_sign(i1) {
                None => true,
                Some((i2, _)) => {
                    let (i3, more_whitespace) = spec_whitespaces_and_newlines(i2, indentation, true);
                    proof {
                        lemma_whitespaces_and_newlines_len(i2, indentation, true);
                    }
                    if is_ml(name) || is_ml_seq(parameters) || is_ml_seq(more_whitespace) {
                        match spec_leading_indentation(i3, 1) {
                            None => true,
                            Some((i4, _)) => {
                                proof {
                                    lemma_leading_indentation_len(i3, 1);
                                }
                                body_ok(i4, indentation + 1)
                            },
                        }
                    } else {
                        expression_ok(i3, indentation, true)
                    }
                },
            }
        },
    }
}

pub proof fn lemma_assignment_ok_unfold(s: Seq<char>, indentation: nat)
    ensures
        assignment_ok(s, indentation) == assignment_ok_step(s, indentation),
{
}

/// No int that the parser of a struct field reads is too large.
pub closed spec fn struct_field_ok(s: Seq<char>, indentation: nat, fields_indentation: nat) -> bool
    decreases s.len(), 11nat,
{
    struct_field_ok_step(s, indentation, fields_indentation)
}

/// The definition of [`struct_field_ok`], unfolded one level.
pub open spec fn struct_field_ok_step(s: Seq<char>, indentation: nat, fields_indentation: nat) -> bool
    decreases s.len(), 10nat,
{
    let i2 = match clamp_le(spec_expression(s, fields_indentation, true), s) {
        Some((i, _)) => i,
        None => s,
    };
    let (i3, ws3) = spec_whitespaces_and_newlines(i2, fields_indentation + 1, true);
    let fi3 = next_fields_indentation(ws3, indentation, fields_indentation);
    proof {
        lemma_whitespaces_and_newlines_len(i2, fields_indentation + 1, true);
    }
    let i4 = match spec_colon(i3) {
        Some((i, _)) => i,
        None => i3,
    };
    proof {
        lemma_token_len(i3, seq![':'], SpecRcst::Colon);
    }
    let (i5, ws5) = spec_whitespaces_and_newlines(i4, fi3 + 1, true);
    let fi5 = next_fields_indentation(ws5, indentation, fi3);
    proof {
        lemma_whitespaces_and_newlines_len(i4, fi3 + 1, true);
    }
    &&& expression_ok(s, fields_indentation, true)
    &&& expression_ok(i5, fi5 + 1, true)
}

pub proof fn lemma_struct_field_ok_unfold(s: Seq<char>, indentation: nat, fields_indentation: nat)
    ensures
        struct_field_ok(s, indentation, fields_indentation) == struct_field_ok_step(s, indentation, fields_indentation),
{
}

/// No int that the parser of a struct's fields reads is too large.
pub closed spec fn struct_fields_ok(s: Seq<char>, indentation: nat, fields_indentation: nat) -> bool
    decreases s.len(), 13nat,
{
    struct_fields_ok_step(s, indentation, fields_indentation)
}

/// The definition of [`struct_fields_ok`], unfolded one level.
pub open spec fn struct_fields_ok_step(s: Seq<char>, indentation: nat, fields_indentation: nat) -> bool
    decreases s.len(), 12nat,
{
    let (i1, ws1) = spec_whitespaces_and_newlines(s, indentation + 1, true);
    let fi1 = next_fields_indentation(ws1, indentation, fields_indentation);
    proof {
        lemma_whitespaces_and_newlines_len(s, indentation + 1, true);
    }
    &&& struct_field_ok(i1, indentation, fi1)
    &&& match spec_struct_field(i1, indentation, fi1) {
        None => true,
        Some((i8, fi8, _)) => if i8.len() < s.len() {
            struct_fields_ok(i8, indentation, fi8)
        } else {
            true
        },
    }
}

pub proof fn lemma_struct_fields_ok_unfold(s: Seq<char>, indentation: nat, fields_indentation: nat)
    ensures
        struct_fields_ok(s, indentation, fields_indentation) == struct_fields_ok_step(s, indentation, fields_indentation),
{
}

/// No int that the struct parser reads is too large.
pub closed spec fn struct_ok(s: Seq<char>, indentation: nat) -> bool
    decreases s.len(), 1nat,
{
    struct_ok_step(s, indentation)
}

/// The definition of [`struct_ok`], unfolded one level.
pub open spec fn struct_ok_step(s: Seq<char>, indentation: nat) -> bool
    decreases s.len(), 0nat,
{
    match spec_opening_bracket(s) {
        None => true,
        Some((t, _)) => struct_fields_ok(t, indentation, indentation),
    }
}

pub proof fn lemma_struct_ok_unfold(s: Seq<char>, indentation: nat)
    ensures
        struct_ok(s, indentation) == struct_ok_step(s, indentation),
{
}

/// No int that the parser of parenthesized expressions reads is too large.
pub closed spec fn parenthesized_ok(s: Seq<char>, indentation: nat) -> bool
    decreases s.len(), 1nat,
{
    parenthesized_ok_step(s, indentation)
}

/// The definition of [`parenthesized_ok`], unfolded one level.
pub open spec fn parenthesized_ok_step(s: Seq<char>, indentation: nat) -> bool
    decreases s.len(), 0nat,
{
    match spec_opening_parenthesis(s) {
        None => true,
        Some((t, _)) => {
            let (i1, ws1) = spec_whitespaces_and_newlines(t, indentation + 1, true);
            let inner_indentation = if is_ml_seq(ws1) {
                indentation + 1
            } else {
                indentation
            };
            proof {
                lemma_whitespaces_and_newlines_len(t, indentation + 1, true);
            }
            expression_ok(i1, inner_indentation, true)
        },
    }
}

pub proof fn lemma_parenthesized_ok_unfold(s: Seq<char>, indentation: nat)
    ensures
        parenthesized_ok(s, indentation) == parenthesized_ok_step(s, indentation),
{
}

/// No int that the parser of a lambda's parameters reads is too large.
pub closed spec fn lambda_parameters_ok(s: Seq<char>, indentation: nat) -> bool
    decreases s.len(), 11nat,
{
    lambda_parameters_ok_step(s, indentation)
}

/// The definition of [`lambda_parameters_ok`], unfolded one level.
pub open spec fn lambda_parameters_ok_step(s: Seq<char>, indentation: nat) -> bool
    decreases s.len(), 10nat,
{
    let (i, _) = spec_whitespaces_and_newlines(s, indentation + 1, true);
    proof {
        lemma_whitespaces_and_newlines_len(s, indentation + 1, true);
    }
    &&& expression_ok(i, indentation + 1, false)
    &&& match clamp_lt(spec_expression(i, indentation + 1, false), s) {
        None => true,
        Some((i2, _)) => lambda_parameters_ok(i2, indentation),
    }
}

pub proof fn lemma_lambda_parameters_ok_unfold(s: Seq<char>, indentation: nat)
    ensures
        lambda_parameters_ok(s, indentation) == lambda_parameters_ok_step(s, indentation),
{
}

/// No int that the lambda parser reads is too large.
pub closed spec fn lambda_ok(s: Seq<char>, indentation: nat) -> bool
    decreases s.len(), 1nat,
{
    lambda_ok_step(s, indentation)
}

/// The definition of [`lambda_ok`], unfolded one level.
pub open spec fn lambda_ok_step(s: Seq<char>, indentation: nat) -> bool
    decreases s.len(), 0nat,
{
    match spec_opening_curly_brace(s) {
        None => true,
        Some((t, _)) => {
            let (ip, _) = spec_lambda_parameters(t, indentation);
            let input = match spec_arrow(ip) {
                Some((i, _)) => i,
                None => t,
            };
            &&& lambda_parameters_ok(t, indentation)
            &&& input.len() <= t.len() ==> {
                let (i1, _) = spec_whitespaces_and_newlines(input, indentation + 1, true);
                proof {
                    lemma_whitespaces_and_newlines_len(input, indentation + 1, true);
                }
                body_ok(i1, indentation + 1)
            }
        },
    }
}

pub proof fn lemma_lambda_ok_unfold(s: Seq<char>, indentation: nat)
    ensures
        lambda_ok(s, indentation) == lambda_ok_step(s, indentation),
{
}

/// No int that the body parser reads is too large.
pub closed spec fn body_ok(s: Seq<char>, indentation: nat) -> bool
    decreases s.len(), 13nat,
{
    body_ok_step(s, indentation)
}

/// The definition of [`body_ok`], unfolded one level.
pub open spec fn body_ok_step(s: Seq<char>, indentation: nat) -> bool
    decreases s.len(), 12nat,
{
    let (s1, whitespace) = spec_whitespaces_and_newlines(s, indentation, true);
    let (s2, unexpected) = spec_single_line_whitespace(s1);
    let inner = match unexpected {
        SpecRcst::Whitespace(w) => if w.len() > 0 {
            indentation + w.len() / 2
        } else {
            indentation
        },
        _ => indentation,
    };
    proof {
        lemma_whitespaces_and_newlines_len(s, indentation, true);
        lemma_single_line_whitespace_len(s1);
    }
    &&& expression_ok(s2, inner, true)
    &&& match clamp_lt(or_else(spec_expression(s2, inner, true), spec_body_fallback(s2)), s) {
        None => true,
        Some((s3, _)) => body_ok(s3, indentation),
    }
}

pub proof fn lemma_body_ok_unfold(s: Seq<char>, indentation: nat)
    ensures
        body_ok(s, indentation) == body_ok_step(s, indentation),
{
}

} // verus!
