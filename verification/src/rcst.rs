//! The raw concrete syntax tree (RCST): what the string-to-RCST parser builds.
//!
//! Every node has an executable form ([`Rcst`]) and a mathematical model
//! ([`SpecRcst`]) that the parser's contracts speak of.

use vstd::prelude::*;

verus! {

/// The errors that the parser records inside the tree instead of failing.
#[derive(Clone, Copy, Debug, PartialEq, Eq, Hash, Structural)]
pub enum RcstError {
    CurlyBraceNotClosed,
    ExpressionExpectedAfterOpeningParenthesis,
    IdentifierContainsNonAlphanumericAscii,
    IntContainsNonDigits,
    ParenthesisNotClosed,
    StructFieldMissesColon,
    StructFieldMissesKey,
    StructFieldMissesValue,
    StructNotClosed,
    SymbolContainsNonAlphanumericAscii,
    TextDoesNotEndUntilInputEnds,
    TextNotSufficientlyIndented,
    TooMuchWhitespace,
    UnexpectedPunctuation,
    UnparsedRest,
    WeirdWhitespace,
    WeirdWhitespaceInIndentation,
}

/// A node of the raw concrete syntax tree.
#[derive(Debug, PartialEq, Eq)]
pub enum Rcst {
    EqualsSign,
    Comma,
    Colon,
    OpeningParenthesis,
    ClosingParenthesis,
    OpeningBracket,
    ClosingBracket,
    OpeningCurlyBrace,
    ClosingCurlyBrace,
    Arrow,
    DoubleQuote,
    Octothorpe,
    Whitespace(String),
    Newline,
    Comment { octothorpe: Box<Rcst>, comment: String },
    TrailingWhitespace { child: Box<Rcst>, whitespace: Vec<Rcst> },
    Identifier(String),
    Symbol(String),
    Int(u64),
    Text { opening_quote: Box<Rcst>, parts: Vec<Rcst>, closing_quote: Box<Rcst> },
    TextPart(String),
    Parenthesized {
        opening_parenthesis: Box<Rcst>,
        inner: Box<Rcst>,
        closing_parenthesis: Box<Rcst>,
    },
    Call { name: Box<Rcst>, arguments: Vec<Rcst> },
    Struct { opening_bracket: Box<Rcst>, fields: Vec<Rcst>, closing_bracket: Box<Rcst> },
    StructField {
        key: Box<Rcst>,
        colon: Box<Rcst>,
        value: Box<Rcst>,
        comma: Option<Box<Rcst>>,
    },
    Lambda {
        opening_curly_brace: Box<Rcst>,
        parameters_and_arrow: Option<(Vec<Rcst>, Box<Rcst>)>,
        body: Vec<Rcst>,
        closing_curly_brace: Box<Rcst>,
    },
    Assignment {
        name: Box<Rcst>,
        parameters: Vec<Rcst>,
        equals_sign: Box<Rcst>,
        body: Vec<Rcst>,
    },
    Error { unparsable_input: String, error: RcstError },
}

/// The mathematical model of an RCST node: texts are character sequences,
/// children are sequences, and integers are unbounded.
pub enum SpecRcst {
    EqualsSign,
    Comma,
    Colon,
    OpeningParenthesis,
    ClosingParenthesis,
    OpeningBracket,
    ClosingBracket,
    OpeningCurlyBrace,
    ClosingCurlyBrace,
    Arrow,
    DoubleQuote,
    Octothorpe,
    Whitespace(Seq<char>),
    Newline,
    Comment { octothorpe: Box<SpecRcst>, comment: Seq<char> },
    TrailingWhitespace { child: Box<SpecRcst>, whitespace: Seq<SpecRcst> },
    Identifier(Seq<char>),
    Symbol(Seq<char>),
    Int(nat),
    Text { opening_quote: Box<SpecRcst>, parts: Seq<SpecRcst>, closing_quote: Box<SpecRcst> },
    TextPart(Seq<char>),
    Parenthesized {
        opening_parenthesis: Box<SpecRcst>,
        inner: Box<SpecRcst>,
        closing_parenthesis: Box<SpecRcst>,
    },
    Call { name: Box<SpecRcst>, arguments: Seq<SpecRcst> },
    Struct {
        opening_bracket: Box<SpecRcst>,
        fields: Seq<SpecRcst>,
        closing_bracket: Box<SpecRcst>,
    },
    StructField {
        key: Box<SpecRcst>,
        colon: Box<SpecRcst>,
        value: Box<SpecRcst>,
        comma: Option<Box<SpecRcst>>,
    },
    Lambda {
        opening_curly_brace: Box<SpecRcst>,
        parameters_and_arrow: Option<(Seq<SpecRcst>, Box<SpecRcst>)>,
        body: Seq<SpecRcst>,
        closing_curly_brace: Box<SpecRcst>,
    },
    Assignment {
        name: Box<SpecRcst>,
        parameters: Seq<SpecRcst>,
        equals_sign: Box<SpecRcst>,
        body: Seq<SpecRcst>,
    },
    Error { unparsable_input: Seq<char>, error: RcstError },
}

/// The model of an executable node.
pub open spec fn rv(r: Rcst) -> SpecRcst
    decreases r,
{
    match r {
        Rcst::EqualsSign => SpecRcst::EqualsSign,
        Rcst::Comma => SpecRcst::Comma,
        Rcst::Colon => SpecRcst::Colon,
        Rcst::OpeningParenthesis => SpecRcst::OpeningParenthesis,
        Rcst::ClosingParenthesis => SpecRcst::ClosingParenthesis,
        Rcst::OpeningBracket => SpecRcst::OpeningBracket,
        Rcst::ClosingBracket => SpecRcst::ClosingBracket,
        Rcst::OpeningCurlyBrace => SpecRcst::OpeningCurlyBrace,
        Rcst::ClosingCurlyBrace => SpecRcst::ClosingCurlyBrace,
        Rcst::Arrow => SpecRcst::Arrow,
        Rcst::DoubleQuote => SpecRcst::DoubleQuote,
        Rcst::Octothorpe => SpecRcst::Octothorpe,
        Rcst::Whitespace(w) => SpecRcst::Whitespace(w@),
        Rcst::Newline => SpecRcst::Newline,
        Rcst::Comment { octothorpe, comment } => SpecRcst::Comment {
            octothorpe: Box::new(rv(*octothorpe)),
            comment: comment@,
        },
        Rcst::TrailingWhitespace { child, whitespace } => SpecRcst::TrailingWhitespace {
            child: Box::new(rv(*child)),
            whitespace: rvs(whitespace@),
        },
        Rcst::Identifier(s) => SpecRcst::Identifier(s@),
        Rcst::Symbol(s) => SpecRcst::Symbol(s@),
        Rcst::Int(v) => SpecRcst::Int(v as nat),
        Rcst::Text { opening_quote, parts, closing_quote } => SpecRcst::Text {
            opening_quote: Box::new(rv(*opening_quote)),
            parts: rvs(parts@),
            closing_quote: Box::new(rv(*closing_quote)),
        },
        Rcst::TextPart(s) => SpecRcst::TextPart(s@),
        Rcst::Parenthesized { opening_parenthesis, inner, closing_parenthesis } =>
            SpecRcst::Parenthesized {
            opening_parenthesis: Box::new(rv(*opening_parenthesis)),
            inner: Box::new(rv(*inner)),
            closing_parenthesis: Box::new(rv(*closing_parenthesis)),
        },
        Rcst::Call { name, arguments } => SpecRcst::Call {
            name: Box::new(rv(*name)),
            arguments: rvs(arguments@),
        },
        Rcst::Struct { opening_bracket, fields, closing_bracket } => SpecRcst::Struct {
            opening_bracket: Box::new(rv(*opening_bracket)),
            fields: rvs(fields@),
            closing_bracket: Box::new(rv(*closing_bracket)),
        },
        Rcst::StructField { key, colon, value, comma } => SpecRcst::StructField {
            key: Box::new(rv(*key)),
            colon: Box::new(rv(*colon)),
            value: Box::new(rv(*value)),
            comma: match comma {
                Some(c) => Some(Box::new(rv(*c))),
                None => None,
            },
        },
        Rcst::Lambda { opening_curly_brace, parameters_and_arrow, body, closing_curly_brace } =>
            SpecRcst::Lambda {
            opening_curly_brace: Box::new(rv(*opening_curly_brace)),
            parameters_and_arrow: match parameters_and_arrow {
                Some((ps, a)) => Some((rvs(ps@), Box::new(rv(*a)))),
                None => None,
            },
            body: rvs(body@),
            closing_curly_brace: Box::new(rv(*closing_curly_brace)),
        },
        Rcst::Assignment { name, parameters, equals_sign, body } => SpecRcst::Assignment {
            name: Box::new(rv(*name)),
            parameters: rvs(parameters@),
            equals_sign: Box::new(rv(*equals_sign)),
            body: rvs(body@),
        },
        Rcst::Error { unparsable_input, error } => SpecRcst::Error {
            unparsable_input: unparsable_input@,
            error,
        },
    }
}

/// The model of a sequence of executable nodes, element by element.
pub open spec fn rvs(s: Seq<Rcst>) -> Seq<SpecRcst>
    decreases s,
{
    if s.len() == 0 {
        Seq::empty()
    } else {
        rvs(s.subrange(0, s.len() - 1)).push(rv(s[s.len() - 1]))
    }
}


/// `rvs` maps element by element.
pub proof fn lemma_rvs(s: Seq<Rcst>)
    ensures
        rvs(s).len() == s.len(),
        forall|i: int| 0 <= i < s.len() ==> #[trigger] rvs(s)[i] == rv(s[i]),
    decreases s.len(),
{
    if s.len() > 0 {
        lemma_rvs(s.subrange(0, s.len() - 1));
    }
}

/// `rvs` of a pushed sequence.
pub proof fn lemma_rvs_push(s: Seq<Rcst>, x: Rcst)
    ensures
        rvs(s.push(x)) == rvs(s).push(rv(x)),
{
    assert(s.push(x).subrange(0, s.len() as int) =~= s);
}

/// `rvs` of a concatenation.
pub proof fn lemma_rvs_add(a: Seq<Rcst>, b: Seq<Rcst>)
    ensures
        rvs(a + b) == rvs(a) + rvs(b),
{
    lemma_rvs(a);
    lemma_rvs(b);
    lemma_rvs(a + b);
    assert(rvs(a + b) =~= rvs(a) + rvs(b));
}

/// Whether a character sequence contains a line break.
pub open spec fn has_newline(s: Seq<char>) -> bool {
    exists|i: int| 0 <= i < s.len() && s[i] == '\n'
}

/// Whether a node spans more than one line: it contains a newline node or a
/// text with a line break.
pub open spec fn is_ml(r: SpecRcst) -> bool
    decreases r,
{
    match r {
        SpecRcst::Whitespace(w) => has_newline(w),
        SpecRcst::Newline => true,
        SpecRcst::Comment { octothorpe, comment } => is_ml(*octothorpe) || has_newline(comment),
        SpecRcst::TrailingWhitespace { child, whitespace } => is_ml(*child) || is_ml_seq(
            whitespace,
        ),
        SpecRcst::Identifier(s) => has_newline(s),
        SpecRcst::Symbol(s) => has_newline(s),
        SpecRcst::Int(_) => false,
        SpecRcst::Text { opening_quote, parts, closing_quote } => is_ml(*opening_quote)
            || is_ml_seq(parts) || is_ml(*closing_quote),
        SpecRcst::TextPart(s) => has_newline(s),
        SpecRcst::Parenthesized { opening_parenthesis, inner, closing_parenthesis } => is_ml(
            *opening_parenthesis,
        ) || is_ml(*inner) || is_ml(*closing_parenthesis),
        SpecRcst::Call { name, arguments } => is_ml(*name) || is_ml_seq(arguments),
        SpecRcst::Struct { opening_bracket, fields, closing_bracket } => is_ml(*opening_bracket)
            || is_ml_seq(fields) || is_ml(*closing_bracket),
        SpecRcst::StructField { key, colon, value, comma } => is_ml(*key) || is_ml(*colon)
            || is_ml(*value) || match comma {
            Some(c) => is_ml(*c),
            None => false,
        },
        SpecRcst::Lambda { opening_curly_brace, parameters_and_arrow, body, closing_curly_brace } =>
            is_ml(*opening_curly_brace) || match parameters_and_arrow {
            Some((ps, a)) => is_ml_seq(ps) || is_ml(*a),
            None => false,
        } || is_ml_seq(body) || is_ml(*closing_curly_brace),
        SpecRcst::Assignment { name, parameters, equals_sign, body } => is_ml(*name) || is_ml_seq(
            parameters,
        ) || is_ml(*equals_sign) || is_ml_seq(body),
        SpecRcst::Error { unparsable_input, .. } => has_newline(unparsable_input),
        _ => false,
    }
}

/// Whether any node of the sequence spans more than one line.
pub open spec fn is_ml_seq(s: Seq<SpecRcst>) -> bool
    decreases s,
{
    if s.len() == 0 {
        false
    } else {
        is_ml_seq(s.subrange(0, s.len() - 1)) || is_ml(s[s.len() - 1])
    }
}

/// Attaching trailing whitespace to a node: nothing to attach keeps the node;
/// a node that already carries trailing whitespace gets the new whitespace
/// appended; any other node gets wrapped.
pub open spec fn spec_wrap(r: SpecRcst, whitespace: Seq<SpecRcst>) -> SpecRcst {
    if whitespace.len() == 0 {
        r
    } else {
        match r {
            SpecRcst::TrailingWhitespace { child, whitespace: own } =>
                SpecRcst::TrailingWhitespace { child, whitespace: own + whitespace },
            _ => SpecRcst::TrailingWhitespace { child: Box::new(r), whitespace },
        }
    }
}

impl Rcst {
    /// Attaches trailing whitespace to this node.
    pub fn wrap_in_whitespace(self, whitespace: Vec<Rcst>) -> (res: Rcst)
        ensures
            rv(res) == spec_wrap(rv(self), rvs(whitespace@)),
    {
        proof {
            lemma_rvs(whitespace@);
        }
        if whitespace.len() != 0 {
            match self {
                Rcst::TrailingWhitespace { child, whitespace: own } => {
                    let mut own = own;
                    let mut whitespace = whitespace;
                    let ghost o = own@;
                    let ghost w = whitespace@;
                    own.append(&mut whitespace);
                    proof {
                        lemma_rvs_add(o, w);
                    }
                    Rcst::TrailingWhitespace { child, whitespace: own }
                },
                other => Rcst::TrailingWhitespace { child: Box::new(other), whitespace },
            }
        } else {
            self
        }
    }

    /// Whether this node spans more than one line.
    pub fn is_multiline(&self) -> (b: bool)
        ensures
            b == is_ml(rv(*self)),
        decreases self,
    {
        match self {
            Rcst::Whitespace(w) => str_has_newline(w.as_str()),
            Rcst::Newline => true,
            Rcst::Comment { octothorpe, comment } => octothorpe.is_multiline() || str_has_newline(
                comment.as_str(),
            ),
            Rcst::TrailingWhitespace { child, whitespace } => child.is_multiline()
                || rcsts_are_multiline(whitespace),
            Rcst::Identifier(s) => str_has_newline(s.as_str()),
            Rcst::Symbol(s) => str_has_newline(s.as_str()),
            Rcst::Int(_) => false,
            Rcst::Text { opening_quote, parts, closing_quote } => opening_quote.is_multiline()
                || rcsts_are_multiline(parts) || closing_quote.is_multiline(),
            Rcst::TextPart(s) => str_has_newline(s.as_str()),
            Rcst::Parenthesized { opening_parenthesis, inner, closing_parenthesis } =>
                opening_parenthesis.is_multiline() || inner.is_multiline()
                || closing_parenthesis.is_multiline(),
            Rcst::Call { name, arguments } => name.is_multiline() || rcsts_are_multiline(
                arguments,
            ),
            Rcst::Struct { opening_bracket, fields, closing_bracket } =>
                opening_bracket.is_multiline() || rcsts_are_multiline(fields)
                || closing_bracket.is_multiline(),
            Rcst::StructField { key, colon, value, comma } => key.is_multiline()
                || colon.is_multiline() || value.is_multiline() || match comma {
                Some(c) => c.is_multiline(),
                None => false,
            },
            Rcst::Lambda { opening_curly_brace, parameters_and_arrow, body, closing_curly_brace } =>
                opening_curly_brace.is_multiline() || match parameters_and_arrow {
                Some((ps, a)) => rcsts_are_multiline(ps) || a.is_multiline(),
                None => false,
            } || rcsts_are_multiline(body) || closing_curly_brace.is_multiline(),
            Rcst::Assignment { name, parameters, equals_sign, body } => name.is_multiline()
                || rcsts_are_multiline(parameters) || equals_sign.is_multiline()
                || rcsts_are_multiline(body),
            Rcst::Error { unparsable_input, .. } => str_has_newline(unparsable_input.as_str()),
            _ => false,
        }
    }
}

/// Whether any of the nodes spans more than one line.
pub fn rcsts_are_multiline(v: &Vec<Rcst>) -> (b: bool)
    ensures
        b == is_ml_seq(rvs(v@)),
    decreases v,
{
    let mut i: usize = 0;
    let mut b = false;
    while i < v.len()
        invariant
            i <= v.len(),
            b == is_ml_seq(rvs(v@.subrange(0, i as int))),
        decreases v.len() - i,
    {
        proof {
            assert(v@.subrange(0, i + 1) =~= v@.subrange(0, i as int).push(v@[i as int]));
            lemma_rvs_push(v@.subrange(0, i as int), v@[i as int]);
            let t = rvs(v@.subrange(0, i as int)).push(rv(v@[i as int]));
            assert(t.subrange(0, t.len() - 1) =~= rvs(v@.subrange(0, i as int)));
        }
        let m = v[i].is_multiline();
        b = b || m;
        i = i + 1;
    }
    proof {
        assert(v@.subrange(0, v.len() as int) =~= v@);
    }
    b
}

/// Whether the text contains a line break.
pub fn str_has_newline(s: &str) -> (b: bool)
    ensures
        b == has_newline(s@),
{
    let n = s.unicode_len();
    let mut i: usize = 0;
    while i < n
        invariant
            n == s@.len(),
            i <= n,
            forall|j: int| 0 <= j < i ==> s@[j] != '\n',
        decreases n - i,
    {
        if s.get_char(i) == '\n' {
            return true;
        }
        i = i + 1;
    }
    false
}

} // verus!
