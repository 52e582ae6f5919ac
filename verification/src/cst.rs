//! The concrete syntax tree (CST): the raw tree with an ID and a source span
//! for every node. Printing a CST gives back the source text it was parsed
//! from, whitespace and comments included.

use crate::chars::join_chars;
use crate::rcst::RcstError;
use core::ops::Range;
use vstd::prelude::*;

verus! {

/// The errors that the front end's CST records instead of failing.
#[derive(Clone, Debug, Eq, Hash, PartialEq, Structural)]
pub enum CstError {
    BinaryBarMissesRight,
    CurlyBraceNotClosed,
    IdentifierContainsNonAlphanumericAscii,
    IntContainsNonDigits,
    ListItemMissesValue,
    ListNotClosed,
    MatchCaseMissesArrow,
    MatchCaseMissesBody,
    MatchMissesCases,
    OpeningParenthesisMissesExpression,
    OrPatternMissesRight,
    ParenthesisNotClosed,
    StructFieldMissesColon,
    StructFieldMissesKey,
    StructFieldMissesValue,
    StructNotClosed,
    SymbolContainsNonAlphanumericAscii,
    TextInterpolationMissesExpression,
    TextInterpolationNotClosed,
    TextNotClosed,
    TextNotSufficientlyIndented,
    TooMuchWhitespace,
    UnexpectedCharacters,
    UnparsedRest,
    WeirdWhitespace,
    WeirdWhitespaceInIndentation,
}

/// The ID of a CST node.
#[derive(Clone, Copy, Debug, PartialEq, Eq, Structural, PartialOrd, Ord, Hash)]
pub struct Id(pub usize);

/// A node: its ID, the span of the source it was parsed from, and its kind.
#[derive(Debug, PartialEq, Eq)]
pub struct Cst {
    pub id: Id,
    pub span: Range<usize>,
    pub kind: CstKind,
}

/// What a node is.
#[derive(Debug, PartialEq, Eq)]
pub enum CstKind {
    EqualsSign,
    Comma,
    Colon,
    OpeningParenthesis,
    ClosingParenthesis,
    OpeningBracket,
    ClosingBracket,
    OpeningCurlyBrace,
    ClosingCurlyBrace,
    Arrow,
    DoubleQuote,
    Octothorpe,
    Whitespace(String),
    Newline(String),
    Comment { octothorpe: Box<Cst>, comment: String },
    TrailingWhitespace { child: Box<Cst>, whitespace: Vec<Cst> },
    Identifier(String),
    Symbol(String),
    Int { value: u64, string: String },
    Text { opening_quote: Box<Cst>, parts: Vec<Cst>, closing_quote: Box<Cst> },
    TextPart(String),
    Parenthesized { opening_parenthesis: Box<Cst>, inner: Box<Cst>, closing_parenthesis: Box<Cst> },
    Call { name: Box<Cst>, arguments: Vec<Cst> },
    Struct { opening_bracket: Box<Cst>, fields: Vec<Cst>, closing_bracket: Box<Cst> },
    StructField { key: Box<Cst>, colon: Box<Cst>, value: Box<Cst>, comma: Option<Box<Cst>> },
    Lambda {
        opening_curly_brace: Box<Cst>,
        parameters_and_arrow: Option<(Vec<Cst>, Box<Cst>)>,
        body: Vec<Cst>,
        closing_curly_brace: Box<Cst>,
    },
    Assignment { name: Box<Cst>, parameters: Vec<Cst>, equals_sign: Box<Cst>, body: Vec<Cst> },
    Error { unparsable_input: String, error: RcstError },
}

/// The mathematical model of a CST node: texts are character sequences and
/// children are sequences.
pub struct SpecCst {
    pub id: Id,
    pub start: usize,
    pub end: usize,
    pub kind: SpecCstKind,
}

pub enum SpecCstKind {
    EqualsSign,
    Comma,
    Colon,
    OpeningParenthesis,
    ClosingParenthesis,
    OpeningBracket,
    ClosingBracket,
    OpeningCurlyBrace,
    ClosingCurlyBrace,
    Arrow,
    DoubleQuote,
    Octothorpe,
    Whitespace(Seq<char>),
    Newline(Seq<char>),
    Comment { octothorpe: Box<SpecCst>, comment: Seq<char> },
    TrailingWhitespace { child: Box<SpecCst>, whitespace: Seq<SpecCst> },
    Identifier(Seq<char>),
    Symbol(Seq<char>),
    Int { value: u64, string: Seq<char> },
    Text { opening_quote: Box<SpecCst>, parts: Seq<SpecCst>, closing_quote: Box<SpecCst> },
    TextPart(Seq<char>),
    Parenthesized {
        opening_parenthesis: Box<SpecCst>,
        inner: Box<SpecCst>,
        closing_parenthesis: Box<SpecCst>,
    },
    Call { name: Box<SpecCst>, arguments: Seq<SpecCst> },
    Struct { opening_bracket: Box<SpecCst>, fields: Seq<SpecCst>, closing_bracket: Box<SpecCst> },
    StructField {
        key: Box<SpecCst>,
        colon: Box<SpecCst>,
        value: Box<SpecCst>,
        comma: Option<Box<SpecCst>>,
    },
    Lambda {
        opening_curly_brace: Box<SpecCst>,
        parameters_and_arrow: Option<(Seq<SpecCst>, Box<SpecCst>)>,
        body: Seq<SpecCst>,
        closing_curly_brace: Box<SpecCst>,
    },
    Assignment {
        name: Box<SpecCst>,
        parameters: Seq<SpecCst>,
        equals_sign: Box<SpecCst>,
        body: Seq<SpecCst>,
    },
    Error { unparsable_input: Seq<char>, error: RcstError },
}

/// The model of a node.
pub open spec fn cv(c: Cst) -> SpecCst
    decreases c,
{
    SpecCst {
        id: c.id,
        start: c.span.start,
        end: c.span.end,
        kind: match c.kind {
            CstKind::EqualsSign => SpecCstKind::EqualsSign,
            CstKind::Comma => SpecCstKind::Comma,
            CstKind::Colon => SpecCstKind::Colon,
            CstKind::OpeningParenthesis => SpecCstKind::OpeningParenthesis,
            CstKind::ClosingParenthesis => SpecCstKind::ClosingParenthesis,
            CstKind::OpeningBracket => SpecCstKind::OpeningBracket,
            CstKind::ClosingBracket => SpecCstKind::ClosingBracket,
            CstKind::OpeningCurlyBrace => SpecCstKind::OpeningCurlyBrace,
            CstKind::ClosingCurlyBrace => SpecCstKind::ClosingCurlyBrace,
            CstKind::Arrow => SpecCstKind::Arrow,
            CstKind::DoubleQuote => SpecCstKind::DoubleQuote,
            CstKind::Octothorpe => SpecCstKind::Octothorpe,
            CstKind::Whitespace(w) => SpecCstKind::Whitespace(w@),
            CstKind::Newline(n) => SpecCstKind::Newline(n@),
            CstKind::Comment { octothorpe, comment } => SpecCstKind::Comment {
                octothorpe: Box::new(cv(*octothorpe)),
                comment: comment@,
            },
            CstKind::TrailingWhitespace { child, whitespace } => SpecCstKind::TrailingWhitespace {
                child: Box::new(cv(*child)),
                whitespace: cvs(whitespace@),
            },
            CstKind::Identifier(s) => SpecCstKind::Identifier(s@),
            CstKind::Symbol(s) => SpecCstKind::Symbol(s@),
            CstKind::Int { value, string } => SpecCstKind::Int { value, string: string@ },
            CstKind::Text { opening_quote, parts, closing_quote } => SpecCstKind::Text {
                opening_quote: Box::new(cv(*opening_quote)),
                parts: cvs(parts@),
                closing_quote: Box::new(cv(*closing_quote)),
            },
            CstKind::TextPart(s) => SpecCstKind::TextPart(s@),
            CstKind::Parenthesized { opening_parenthesis, inner, closing_parenthesis } =>
                SpecCstKind::Parenthesized {
                opening_parenthesis: Box::new(cv(*opening_parenthesis)),
                inner: Box::new(cv(*inner)),
                closing_parenthesis: Box::new(cv(*closing_parenthesis)),
            },
            CstKind::Call { name, arguments } => SpecCstKind::Call {
                name: Box::new(cv(*name)),
                arguments: cvs(arguments@),
            },
            CstKind::Struct { opening_bracket, fields, closing_bracket } => SpecCstKind::Struct {
                opening_bracket: Box::new(cv(*opening_bracket)),
                fields: cvs(fields@),
                closing_bracket: Box::new(cv(*closing_bracket)),
            },
            CstKind::StructField { key, colon, value, comma } => SpecCstKind::StructField {
                key: Box::new(cv(*key)),
                colon: Box::new(cv(*colon)),
                value: Box::new(cv(*value)),
                comma: match comma {
                    Some(c) => Some(Box::new(cv(*c))),
                    None => None,
                },
            },
            CstKind::Lambda {
                opening_curly_brace,
                parameters_and_arrow,
                body,
                closing_curly_brace,
            } => SpecCstKind::Lambda {
                opening_curly_brace: Box::new(cv(*opening_curly_brace)),
                parameters_and_arrow: match parameters_and_arrow {
                    Some((ps, a)) => Some((cvs(ps@), Box::new(cv(*a)))),
                    None => None,
                },
                body: cvs(body@),
                closing_curly_brace: Box::new(cv(*closing_curly_brace)),
            },
            CstKind::Assignment { name, parameters, equals_sign, body } =>
                SpecCstKind::Assignment {
                name: Box::new(cv(*name)),
                parameters: cvs(parameters@),
                equals_sign: Box::new(cv(*equals_sign)),
                body: cvs(body@),
            },
            CstKind::Error { unparsable_input, error } => SpecCstKind::Error {
                unparsable_input: unparsable_input@,
                error,
            },
        },
    }
}

/// The model of a sequence of nodes, element by element.
pub open spec fn cvs(s: Seq<Cst>) -> Seq<SpecCst>
    decreases s,
{
    if s.len() == 0 {
        Seq::empty()
    } else {
        cvs(s.subrange(0, s.len() - 1)).push(cv(s[s.len() - 1]))
    }
}

/// `cvs` maps element by element.
pub proof fn lemma_cvs(s: Seq<Cst>)
    ensures
        cvs(s).len() == s.len(),
        forall|i: int| 0 <= i < s.len() ==> #[trigger] cvs(s)[i] == cv(s[i]),
    decreases s.len(),
{
    if s.len() > 0 {
        lemma_cvs(s.subrange(0, s.len() - 1));
    }
}

/// `cvs` of a pushed sequence.
pub proof fn lemma_cvs_push(s: Seq<Cst>, x: Cst)
    ensures
        cvs(s.push(x)) == cvs(s).push(cv(x)),
{
    assert(s.push(x).subrange(0, s.len() as int) =~= s);
}

// ----------------------------------------------------------------------------
// The source text of a tree.

/// The source text of a node.
pub open spec fn cst_text(c: SpecCst) -> Seq<char>
    decreases c,
{
    match c.kind {
        SpecCstKind::EqualsSign => seq!['='],
        SpecCstKind::Comma => seq![','],
        SpecCstKind::Colon => seq![':'],
        SpecCstKind::OpeningParenthesis => seq!['('],
        SpecCstKind::ClosingParenthesis => seq![')'],
        SpecCstKind::OpeningBracket => seq!['['],
        SpecCstKind::ClosingBracket => seq![']'],
        SpecCstKind::OpeningCurlyBrace => seq!['{'],
        SpecCstKind::ClosingCurlyBrace => seq!['}'],
        SpecCstKind::Arrow => seq!['-', '>'],
        SpecCstKind::DoubleQuote => seq!['"'],
        SpecCstKind::Octothorpe => seq!['#'],
        SpecCstKind::Whitespace(w) => w,
        SpecCstKind::Newline(n) => n,
        SpecCstKind::Comment { octothorpe, comment } => cst_text(*octothorpe) + comment,
        SpecCstKind::TrailingWhitespace { child, whitespace } => cst_text(*child) + csts_text(
            whitespace,
        ),
        SpecCstKind::Identifier(s) => s,
        SpecCstKind::Symbol(s) => s,
        SpecCstKind::Int { string, .. } => string,
        SpecCstKind::Text { opening_quote, parts, closing_quote } => cst_text(*opening_quote)
            + csts_text(parts) + cst_text(*closing_quote),
        SpecCstKind::TextPart(s) => s,
        SpecCstKind::Parenthesized { opening_parenthesis, inner, closing_parenthesis } =>
            cst_text(*opening_parenthesis) + cst_text(*inner) + cst_text(*closing_parenthesis),
        SpecCstKind::Call { name, arguments } => cst_text(*name) + csts_text(arguments),
        SpecCstKind::Struct { opening_bracket, fields, closing_bracket } => cst_text(
            *opening_bracket,
        ) + csts_text(fields) + cst_text(*closing_bracket),
        SpecCstKind::StructField { key, colon, value, comma } => cst_text(*key) + cst_text(*colon)
            + cst_text(*value) + match comma {
            Some(c) => cst_text(*c),
            None => Seq::empty(),
        },
        SpecCstKind::Lambda {
            opening_curly_brace,
            parameters_and_arrow,
            body,
            closing_curly_brace,
        } => cst_text(*opening_curly_brace) + match parameters_and_arrow {
            Some((ps, a)) => csts_text(ps) + cst_text(*a),
            None => Seq::empty(),
        } + csts_text(body) + cst_text(*closing_curly_brace),
        SpecCstKind::Assignment { name, parameters, equals_sign, body } => cst_text(*name)
            + csts_text(parameters) + cst_text(*equals_sign) + csts_text(body),
        SpecCstKind::Error { unparsable_input, .. } => unparsable_input,
    }
}

/// The source text of nodes one after another.
pub open spec fn csts_text(s: Seq<SpecCst>) -> Seq<char>
    decreases s,
{
    if s.len() == 0 {
        Seq::empty()
    } else {
        csts_text(s.subrange(0, s.len() - 1)) + cst_text(s[s.len() - 1])
    }
}

/// Appends the characters of the text.
fn push_str(out: &mut Vec<char>, s: &str)
    ensures
        final(out)@ == old(out)@ + s@,
{
    let n = s.unicode_len();
    let mut i: usize = 0;
    while i < n
        invariant
            n == s@.len(),
            i <= n,
            out@ == old(out)@ + s@.take(i as int),
        decreases n - i,
    {
        out.push(s.get_char(i));
        i = i + 1;
        proof {
            assert(out@ =~= old(out)@ + s@.take(i as int));
        }
    }
    proof {
        assert(s@.take(n as int) =~= s@);
    }
}

/// Appends the characters of a literal.
fn push_chars(out: &mut Vec<char>, chars: &[char])
    ensures
        final(out)@ == old(out)@ + chars@,
{
    let mut i: usize = 0;
    while i < chars.len()
        invariant
            i <= chars.len(),
            out@ == old(out)@ + chars@.take(i as int),
        decreases chars.len() - i,
    {
        out.push(chars[i]);
        i = i + 1;
        proof {
            assert(out@ =~= old(out)@ + chars@.take(i as int));
        }
    }
    proof {
        assert(chars@.take(chars.len() as int) =~= chars@);
    }
}

impl Cst {
    /// Appends the source text of this node.
    fn write_to(&self, out: &mut Vec<char>)
        ensures
            final(out)@ == old(out)@ + cst_text(cv(*self)),
        decreases self,
    {
        match &self.kind {
            CstKind::EqualsSign => push_chars(out, &['=']),
            CstKind::Comma => push_chars(out, &[',']),
            CstKind::Colon => push_chars(out, &[':']),
            CstKind::OpeningParenthesis => push_chars(out, &['(']),
            CstKind::ClosingParenthesis => push_chars(out, &[')']),
            CstKind::OpeningBracket => push_chars(out, &['[']),
            CstKind::ClosingBracket => push_chars(out, &[']']),
            CstKind::OpeningCurlyBrace => push_chars(out, &['{']),
            CstKind::ClosingCurlyBrace => push_chars(out, &['}']),
            CstKind::Arrow => push_chars(out, &['-', '>']),
            CstKind::DoubleQuote => push_chars(out, &['"']),
            CstKind::Octothorpe => push_chars(out, &['#']),
            CstKind::Whitespace(w) => push_str(out, w.as_str()),
            CstKind::Newline(n) => push_str(out, n.as_str()),
            CstKind::Comment { octothorpe, comment } => {
                octothorpe.write_to(out);
                push_str(out, comment.as_str());
            },
            CstKind::TrailingWhitespace { child, whitespace } => {
                child.write_to(out);
                write_all(whitespace, out);
            },
            CstKind::Identifier(s) => push_str(out, s.as_str()),
            CstKind::Symbol(s) => push_str(out, s.as_str()),
            CstKind::Int { string, .. } => push_str(out, string.as_str()),
            CstKind::Text { opening_quote, parts, closing_quote } => {
                opening_quote.write_to(out);
                write_all(parts, out);
                closing_quote.write_to(out);
            },
            CstKind::TextPart(s) => push_str(out, s.as_str()),
            CstKind::Parenthesized { opening_parenthesis, inner, closing_parenthesis } => {
                opening_parenthesis.write_to(out);
                inner.write_to(out);
                closing_parenthesis.write_to(out);
            },
            CstKind::Call { name, arguments } => {
                name.write_to(out);
                write_all(arguments, out);
            },
            CstKind::Struct { opening_bracket, fields, closing_bracket } => {
                opening_bracket.write_to(out);
                write_all(fields, out);
                closing_bracket.write_to(out);
            },
            CstKind::StructField { key, colon, value, comma } => {
                key.write_to(out);
                colon.write_to(out);
                value.write_to(out);
                if let Some(comma) = comma {
                    comma.write_to(out);
                }
            },
            CstKind::Lambda {
                opening_curly_brace,
                parameters_and_arrow,
                body,
                closing_curly_brace,
            } => {
                opening_curly_brace.write_to(out);
                if let Some((parameters, arrow)) = parameters_and_arrow {
                    write_all(parameters, out);
                    arrow.write_to(out);
                }
                write_all(body, out);
                closing_curly_brace.write_to(out);
            },
            CstKind::Assignment { name, parameters, equals_sign, body } => {
                name.write_to(out);
                write_all(parameters, out);
                equals_sign.write_to(out);
                write_all(body, out);
            },
            CstKind::Error { unparsable_input, .. } => push_str(out, unparsable_input.as_str()),
        }
    }

    /// The source text of this node, as it was parsed.
    pub fn to_string(&self) -> (res: String)
        ensures
            res@ == cst_text(cv(*self)),
    {
        let mut out: Vec<char> = Vec::new();
        self.write_to(&mut out);
        proof {
            assert(out@ =~= cst_text(cv(*self)));
        }
        join_chars(out)
    }
}

/// Appends the source text of the nodes one after another.
fn write_all(csts: &Vec<Cst>, out: &mut Vec<char>)
    ensures
        final(out)@ == old(out)@ + csts_text(cvs(csts@)),
    decreases csts,
{
    let mut i: usize = 0;
    while i < csts.len()
        invariant
            i <= csts.len(),
            out@ == old(out)@ + csts_text(cvs(csts@.subrange(0, i as int))),
        decreases csts.len() - i,
    {
        proof {
            assert(csts@.subrange(0, i + 1) =~= csts@.subrange(0, i as int).push(csts@[i as int]));
            lemma_cvs_push(csts@.subrange(0, i as int), csts@[i as int]);
            let t = cvs(csts@.subrange(0, i as int)).push(cv(csts@[i as int]));
            assert(t.subrange(0, t.len() - 1) =~= cvs(csts@.subrange(0, i as int)));
        }
        csts[i].write_to(out);
        i = i + 1;
        proof {
            assert(out@ =~= old(out)@ + csts_text(cvs(csts@.subrange(0, i as int))));
        }
    }
    proof {
        assert(csts@.subrange(0, csts.len() as int) =~= csts@);
    }
}

// ----------------------------------------------------------------------------
// Spans and whitespace.

/// The span that makes sense to display in an editor: for a call or an
/// assignment, the span of its name; for a node with trailing whitespace, the
/// span of the node itself.
pub open spec fn display_span_of(c: SpecCst) -> (usize, usize)
    decreases c,
{
    match c.kind {
        SpecCstKind::TrailingWhitespace { child, .. } => display_span_of(*child),
        SpecCstKind::Call { name, .. } => display_span_of(*name),
        SpecCstKind::Assignment { name, .. } => display_span_of(*name),
        _ => (c.start, c.end),
    }
}

/// Whitespace, line breaks and comments, possibly with trailing whitespace.
pub open spec fn is_whitespace_node(c: SpecCst) -> bool
    decreases c,
{
    match c.kind {
        SpecCstKind::Whitespace(_) | SpecCstKind::Newline(_) | SpecCstKind::Comment { .. } => true,
        SpecCstKind::TrailingWhitespace { child, .. } => is_whitespace_node(*child),
        _ => false,
    }
}

impl Cst {
    /// Returns a span that makes sense to display in the editor.
    ///
    /// For example, if a call contains errors, we want to only underline the
    /// name of the called function itself, not everything including arguments.
    pub fn display_span(&self) -> (res: Range<usize>)
        ensures
            (res.start, res.end) == display_span_of(cv(*self)),
        decreases self,
    {
        match &self.kind {
            CstKind::TrailingWhitespace { child, .. } => child.display_span(),
            CstKind::Call { name, .. } => name.display_span(),
            CstKind::Assignment { name, .. } => name.display_span(),
            _ => Range { start: self.span.start, end: self.span.end },
        }
    }

    /// Whether this node is whitespace, a line break or a comment.
    pub fn is_whitespace(&self) -> (res: bool)
        ensures
            res == is_whitespace_node(cv(*self)),
        decreases self,
    {
        match &self.kind {
            CstKind::Whitespace(_) | CstKind::Newline(_) | CstKind::Comment { .. } => true,
            CstKind::TrailingWhitespace { child, .. } => child.is_whitespace(),
            _ => false,
        }
    }
}

// ----------------------------------------------------------------------------
// Copies.

/// A copy of the node and everything below it.
fn clone_cst(c: &Cst) -> (res: Cst)
    ensures
        cv(res) == cv(*c),
    decreases c,
{
    let kind = match &c.kind {
        CstKind::EqualsSign => CstKind::EqualsSign,
        CstKind::Comma => CstKind::Comma,
        CstKind::Colon => CstKind::Colon,
        CstKind::OpeningParenthesis => CstKind::OpeningParenthesis,
        CstKind::ClosingParenthesis => CstKind::ClosingParenthesis,
        CstKind::OpeningBracket => CstKind::OpeningBracket,
        CstKind::ClosingBracket => CstKind::ClosingBracket,
        CstKind::OpeningCurlyBrace => CstKind::OpeningCurlyBrace,
        CstKind::ClosingCurlyBrace => CstKind::ClosingCurlyBrace,
        CstKind::Arrow => CstKind::Arrow,
        CstKind::DoubleQuote => CstKind::DoubleQuote,
        CstKind::Octothorpe => CstKind::Octothorpe,
        CstKind::Whitespace(w) => CstKind::Whitespace(w.clone()),
        CstKind::Newline(n) => CstKind::Newline(n.clone()),
        CstKind::Comment { octothorpe, comment } => CstKind::Comment {
            octothorpe: Box::new(clone_cst(octothorpe)),
            comment: comment.clone(),
        },
        CstKind::TrailingWhitespace { child, whitespace } => CstKind::TrailingWhitespace {
            child: Box::new(clone_cst(child)),
            whitespace: clone_csts(whitespace),
        },
        CstKind::Identifier(s) => CstKind::Identifier(s.clone()),
        CstKind::Symbol(s) => CstKind::Symbol(s.clone()),
        CstKind::Int { value, string } => CstKind::Int { value: *value, string: string.clone() },
        CstKind::Text { opening_quote, parts, closing_quote } => CstKind::Text {
            opening_quote: Box::new(clone_cst(opening_quote)),
            parts: clone_csts(parts),
            closing_quote: Box::new(clone_cst(closing_quote)),
        },
        CstKind::TextPart(s) => CstKind::TextPart(s.clone()),
        CstKind::Parenthesized { opening_parenthesis, inner, closing_parenthesis } =>
            CstKind::Parenthesized {
            opening_parenthesis: Box::new(clone_cst(opening_parenthesis)),
            inner: Box::new(clone_cst(inner)),
            closing_parenthesis: Box::new(clone_cst(closing_parenthesis)),
        },
        CstKind::Call { name, arguments } => CstKind::Call {
            name: Box::new(clone_cst(name)),
            arguments: clone_csts(arguments),
        },
        CstKind::Struct { opening_bracket, fields, closing_bracket } => CstKind::Struct {
            opening_bracket: Box::new(clone_cst(opening_bracket)),
            fields: clone_csts(fields),
            closing_bracket: Box::new(clone_cst(closing_bracket)),
        },
        CstKind::StructField { key, colon, value, comma } => CstKind::StructField {
            key: Box::new(clone_cst(key)),
            colon: Box::new(clone_cst(colon)),
            value: Box::new(clone_cst(value)),
            comma: match comma {
                Some(comma) => Some(Box::new(clone_cst(comma))),
                None => None,
            },
        },
        CstKind::Lambda { opening_curly_brace, parameters_and_arrow, body, closing_curly_brace } =>
            CstKind::Lambda {
            opening_curly_brace: Box::new(clone_cst(opening_curly_brace)),
            parameters_and_arrow: match parameters_and_arrow {
                Some((parameters, arrow)) => Some(
                    (clone_csts(parameters), Box::new(clone_cst(arrow))),
                ),
                None => None,
            },
            body: clone_csts(body),
            closing_curly_brace: Box::new(clone_cst(closing_curly_brace)),
        },
        CstKind::Assignment { name, parameters, equals_sign, body } => CstKind::Assignment {
            name: Box::new(clone_cst(name)),
            parameters: clone_csts(parameters),
            equals_sign: Box::new(clone_cst(equals_sign)),
            body: clone_csts(body),
        },
        CstKind::Error { unparsable_input, error } => CstKind::Error {
            unparsable_input: unparsable_input.clone(),
            error: *error,
        },
    };
    Cst { id: c.id, span: Range { start: c.span.start, end: c.span.end }, kind }
}

/// Copies of the nodes.
fn clone_csts(v: &Vec<Cst>) -> (res: Vec<Cst>)
    ensures
        cvs(res@) == cvs(v@),
    decreases v,
{
    let mut res: Vec<Cst> = Vec::new();
    let mut i: usize = 0;
    proof {
        assert(v@.subrange(0, 0) =~= Seq::<Cst>::empty());
        assert(res@ =~= Seq::<Cst>::empty());
    }
    while i < v.len()
        invariant
            i <= v.len(),
            cvs(res@) == cvs(v@.subrange(0, i as int)),
        decreases v.len() - i,
    {
        let c = clone_cst(&v[i]);
        proof {
            lemma_cvs_push(res@, c);
            lemma_cvs_push(v@.subrange(0, i as int), v@[i as int]);
            assert(v@.subrange(0, i + 1) =~= v@.subrange(0, i as int).push(v@[i as int]));
        }
        res.push(c);
        i = i + 1;
    }
    proof {
        assert(v@.subrange(0, v.len() as int) =~= v@);
    }
    res
}

impl Clone for Cst {
    fn clone(&self) -> (res: Self)
        ensures
            cv(res) == cv(*self),
    {
        clone_cst(self)
    }
}

// ----------------------------------------------------------------------------
// Dropping whitespace and comments.

/// The node without the whitespace and comments inside it: trailing
/// whitespace is dropped, and so is every whitespace or comment node in the
/// node's lists of children.
pub open spec fn spec_unwrap(c: SpecCst) -> SpecCst
    decreases c,
{
    match c.kind {
        SpecCstKind::TrailingWhitespace { child, .. } => spec_unwrap(*child),
        SpecCstKind::Text { opening_quote, parts, closing_quote } => SpecCst {
            id: c.id,
            start: c.start,
            end: c.end,
            kind: SpecCstKind::Text {
                opening_quote: Box::new(spec_unwrap(*opening_quote)),
                parts: spec_unwrap_all(parts),
                closing_quote: Box::new(spec_unwrap(*closing_quote)),
            },
        },
        SpecCstKind::Parenthesized { opening_parenthesis, inner, closing_parenthesis } =>
            SpecCst {
            id: c.id,
            start: c.start,
            end: c.end,
            kind: SpecCstKind::Parenthesized {
                opening_parenthesis: Box::new(spec_unwrap(*opening_parenthesis)),
                inner: Box::new(spec_unwrap(*inner)),
                closing_parenthesis: Box::new(spec_unwrap(*closing_parenthesis)),
            },
        },
        SpecCstKind::Call { name, arguments } => SpecCst {
            id: c.id,
            start: c.start,
            end: c.end,
            kind: SpecCstKind::Call {
                name: Box::new(spec_unwrap(*name)),
                arguments: spec_unwrap_all(arguments),
            },
        },
        SpecCstKind::Struct { opening_bracket, fields, closing_bracket } => SpecCst {
            id: c.id,
            start: c.start,
            end: c.end,
            kind: SpecCstKind::Struct {
                opening_bracket: Box::new(spec_unwrap(*opening_bracket)),
                fields: spec_unwrap_all(fields),
                closing_bracket: Box::new(spec_unwrap(*closing_bracket)),
            },
        },
        SpecCstKind::StructField { key, colon, value, comma } => SpecCst {
            id: c.id,
            start: c.start,
            end: c.end,
            kind: SpecCstKind::StructField {
                key: Box::new(spec_unwrap(*key)),
                colon: Box::new(spec_unwrap(*colon)),
                value: Box::new(spec_unwrap(*value)),
                comma: match comma {
                    Some(comma) => Some(Box::new(spec_unwrap(*comma))),
                    None => None,
                },
            },
        },
        SpecCstKind::Lambda {
            opening_curly_brace,
            parameters_and_arrow,
            body,
            closing_curly_brace,
        } => SpecCst {
            id: c.id,
            start: c.start,
            end: c.end,
            kind: SpecCstKind::Lambda {
                opening_curly_brace: Box::new(spec_unwrap(*opening_curly_brace)),
                parameters_and_arrow: match parameters_and_arrow {
                    Some((parameters, arrow)) => Some(
                        (spec_unwrap_all(parameters), Box::new(spec_unwrap(*arrow))),
                    ),
                    None => None,
                },
                body: spec_unwrap_all(body),
                closing_curly_brace: Box::new(spec_unwrap(*closing_curly_brace)),
            },
        },
        SpecCstKind::Assignment { name, parameters, equals_sign, body } => SpecCst {
            id: c.id,
            start: c.start,
            end: c.end,
            kind: SpecCstKind::Assignment {
                name: Box::new(spec_unwrap(*name)),
                parameters: spec_unwrap_all(parameters),
                equals_sign: Box::new(spec_unwrap(*equals_sign)),
                body: spec_unwrap_all(body),
            },
        },
        _ => c,
    }
}

/// The nodes that are not whitespace or comments, each without the whitespace
/// and comments inside it.
pub open spec fn spec_unwrap_all(s: Seq<SpecCst>) -> Seq<SpecCst>
    decreases s,
{
    if s.len() == 0 {
        Seq::empty()
    } else {
        let init = spec_unwrap_all(s.subrange(0, s.len() - 1));
        let last = s[s.len() - 1];
        if is_whitespace_node(last) {
            init
        } else {
            init.push(spec_unwrap(last))
        }
    }
}

fn unwrap_cst(c: &Cst) -> (res: Cst)
    ensures
        cv(res) == spec_unwrap(cv(*c)),
    decreases c,
{
    let kind = match &c.kind {
        CstKind::TrailingWhitespace { child, .. } => {
            return unwrap_cst(child);
        },
        CstKind::Text { opening_quote, parts, closing_quote } => CstKind::Text {
            opening_quote: Box::new(unwrap_cst(opening_quote)),
            parts: unwrap_csts(parts),
            closing_quote: Box::new(unwrap_cst(closing_quote)),
        },
        CstKind::Parenthesized { opening_parenthesis, inner, closing_parenthesis } =>
            CstKind::Parenthesized {
            opening_parenthesis: Box::new(unwrap_cst(opening_parenthesis)),
            inner: Box::new(unwrap_cst(inner)),
            closing_parenthesis: Box::new(unwrap_cst(closing_parenthesis)),
        },
        CstKind::Call { name, arguments } => CstKind::Call {
            name: Box::new(unwrap_cst(name)),
            arguments: unwrap_csts(arguments),
        },
        CstKind::Struct { opening_bracket, fields, closing_bracket } => CstKind::Struct {
            opening_bracket: Box::new(unwrap_cst(opening_bracket)),
            fields: unwrap_csts(fields),
            closing_bracket: Box::new(unwrap_cst(closing_bracket)),
        },
        CstKind::StructField { key, colon, value, comma } => CstKind::StructField {
            key: Box::new(unwrap_cst(key)),
            colon: Box::new(unwrap_cst(colon)),
            value: Box::new(unwrap_cst(value)),
            comma: match comma {
                Some(comma) => Some(Box::new(unwrap_cst(comma))),
                None => None,
            },
        },
        CstKind::Lambda { opening_curly_brace, parameters_and_arrow, body, closing_curly_brace } =>
            CstKind::Lambda {
            opening_curly_brace: Box::new(unwrap_cst(opening_curly_brace)),
            parameters_and_arrow: match parameters_and_arrow {
                Some((parameters, arrow)) => Some(
                    (unwrap_csts(parameters), Box::new(unwrap_cst(arrow))),
                ),
                None => None,
            },
            body: unwrap_csts(body),
            closing_curly_brace: Box::new(unwrap_cst(closing_curly_brace)),
        },
        CstKind::Assignment { name, parameters, equals_sign, body } => CstKind::Assignment {
            name: Box::new(unwrap_cst(name)),
            parameters: unwrap_csts(parameters),
            equals_sign: Box::new(unwrap_cst(equals_sign)),
            body: unwrap_csts(body),
        },
        _ => {
            return clone_cst(c);
        },
    };
    Cst { id: c.id, span: Range { start: c.span.start, end: c.span.end }, kind }
}

fn unwrap_csts(v: &Vec<Cst>) -> (res: Vec<Cst>)
    ensures
        cvs(res@) == spec_unwrap_all(cvs(v@)),
    decreases v,
{
    let mut res: Vec<Cst> = Vec::new();
    let mut i: usize = 0;
    proof {
        assert(v@.subrange(0, 0) =~= Seq::<Cst>::empty());
        assert(res@ =~= Seq::<Cst>::empty());
    }
    while i < v.len()
        invariant
            i <= v.len(),
            cvs(res@) == spec_unwrap_all(cvs(v@.subrange(0, i as int))),
        decreases v.len() - i,
    {
        proof {
            lemma_cvs_push(v@.subrange(0, i as int), v@[i as int]);
            assert(v@.subrange(0, i + 1) =~= v@.subrange(0, i as int).push(v@[i as int]));
            let t = cvs(v@.subrange(0, i as int)).push(cv(v@[i as int]));
            assert(t.subrange(0, t.len() - 1) =~= cvs(v@.subrange(0, i as int)));
        }
        if !v[i].is_whitespace() {
            let c = unwrap_cst(&v[i]);
            proof {
                lemma_cvs_push(res@, c);
            }
            res.push(c);
        }
        i = i + 1;
    }
    proof {
        assert(v@.subrange(0, v.len() as int) =~= v@);
    }
    res
}

/// Dropping the whitespace and comments of a tree.
pub trait UnwrapWhitespaceAndComment: Sized {
    fn unwrap_whitespace_and_comment(&self) -> Self;
}

impl UnwrapWhitespaceAndComment for Cst {
    fn unwrap_whitespace_and_comment(&self) -> (res: Self)
        ensures
            cv(res) == spec_unwrap(cv(*self)),
    {
        unwrap_cst(self)
    }
}

impl UnwrapWhitespaceAndComment for Vec<Cst> {
    fn unwrap_whitespace_and_comment(&self) -> (res: Self)
        ensures
            cvs(res@) == spec_unwrap_all(cvs(self@)),
    {
        unwrap_csts(self)
    }
}

// ----------------------------------------------------------------------------
// Finding nodes.

/// The key by which sibling nodes are ordered: their IDs, or the start of
/// their spans.
pub open spec fn node_key(c: SpecCst, by_start: bool) -> int {
    if by_start {
        c.start as int
    } else {
        c.id.0 as int
    }
}

/// The nodes are ordered by their keys.
pub open spec fn keys_sorted(s: Seq<SpecCst>, by_start: bool) -> bool {
    forall|i: int, j: int|
        0 <= i <= j < s.len() ==> node_key(s[i], by_start) <= node_key(s[j], by_start)
}

/// Every list of children in the tree is ordered by the key.
pub open spec fn tree_sorted(c: SpecCst, by_start: bool) -> bool
    decreases c,
{
    match c.kind {
        SpecCstKind::Comment { octothorpe, .. } => tree_sorted(*octothorpe, by_start),
        SpecCstKind::TrailingWhitespace { child, whitespace } => tree_sorted(*child, by_start)
            && forest_sorted(whitespace, by_start),
        SpecCstKind::Text { opening_quote, parts, closing_quote } => tree_sorted(
            *opening_quote,
            by_start,
        ) && forest_sorted(parts, by_start) && tree_sorted(*closing_quote, by_start),
        SpecCstKind::Parenthesized { opening_parenthesis, inner, closing_parenthesis } =>
            tree_sorted(*opening_parenthesis, by_start) && tree_sorted(*inner, by_start)
            && tree_sorted(*closing_parenthesis, by_start),
        SpecCstKind::Call { name, arguments } => tree_sorted(*name, by_start) && forest_sorted(
            arguments,
            by_start,
        ),
        SpecCstKind::Struct { opening_bracket, fields, closing_bracket } => tree_sorted(
            *opening_bracket,
            by_start,
        ) && forest_sorted(fields, by_start) && tree_sorted(*closing_bracket, by_start),
        SpecCstKind::StructField { key, colon, value, comma } => tree_sorted(*key, by_start)
            && tree_sorted(*colon, by_start) && tree_sorted(*value, by_start) && match comma {
            Some(c) => tree_sorted(*c, by_start),
            None => true,
        },
        SpecCstKind::Lambda {
            opening_curly_brace,
            parameters_and_arrow,
            body,
            closing_curly_brace,
        } => tree_sorted(*opening_curly_brace, by_start) && match parameters_and_arrow {
            Some((ps, a)) => forest_sorted(ps, by_start) && tree_sorted(*a, by_start),
            None => true,
        } && forest_sorted(body, by_start) && tree_sorted(*closing_curly_brace, by_start),
        SpecCstKind::Assignment { name, parameters, equals_sign, body } => tree_sorted(
            *name,
            by_start,
        ) && forest_sorted(parameters, by_start) && tree_sorted(*equals_sign, by_start)
            && forest_sorted(body, by_start),
        _ => true,
    }
}

/// The nodes are ordered by the key, and so is every tree among them.
pub open spec fn forest_sorted(s: Seq<SpecCst>, by_start: bool) -> bool
    decreases s,
{
    keys_sorted(s, by_start) && (s.len() > 0 ==> forest_sorted(s.subrange(0, s.len() - 1), by_start)
        && tree_sorted(s[s.len() - 1], by_start))
}

/// The index of the last node whose key is at most `key`.
pub open spec fn last_at_most(s: Seq<SpecCst>, key: int, by_start: bool) -> Option<int>
    decreases s.len(),
{
    if s.len() == 0 {
        None
    } else if node_key(s[s.len() - 1], by_start) <= key {
        Some(s.len() - 1)
    } else {
        last_at_most(s.subrange(0, s.len() - 1), key, by_start)
    }
}

pub proof fn lemma_last_at_most(s: Seq<SpecCst>, key: int, by_start: bool)
    ensures
        last_at_most(s, key, by_start) matches Some(i) ==> 0 <= i < s.len() && node_key(
            s[i],
            by_start,
        ) <= key,
    decreases s.len(),
{
    if s.len() > 0 && node_key(s[s.len() - 1], by_start) > key {
        let t = s.subrange(0, s.len() - 1);
        lemma_last_at_most(t, key, by_start);
        if let Some(i) = last_at_most(t, key, by_start) {
            assert(t[i] == s[i]);
        }
    }
}

/// If the keys before `lo` are at most `key` and those from `lo` on are
/// greater, the last node whose key is at most `key` is the one before `lo`.
proof fn lemma_last_at_most_split(s: Seq<SpecCst>, key: int, by_start: bool, lo: int)
    requires
        0 <= lo <= s.len(),
        forall|j: int| 0 <= j < lo ==> node_key(#[trigger] s[j], by_start) <= key,
        forall|j: int| lo <= j < s.len() ==> node_key(#[trigger] s[j], by_start) > key,
    ensures
        last_at_most(s, key, by_start) == if lo == 0 {
            None::<int>
        } else {
            Some(lo - 1)
        },
    decreases s.len(),
{
    if s.len() > 0 && lo < s.len() {
        let t = s.subrange(0, s.len() - 1);
        assert forall|j: int| 0 <= j < lo implies node_key(#[trigger] t[j], by_start) <= key by {
            assert(t[j] == s[j]);
        }
        assert forall|j: int| lo <= j < t.len() implies node_key(#[trigger] t[j], by_start)
            > key by {
            assert(t[j] == s[j]);
        }
        lemma_last_at_most_split(t, key, by_start, lo);
    }
}

/// The first of two results that is there.
pub open spec fn first_some(a: Option<SpecCst>, b: Option<SpecCst>) -> Option<SpecCst> {
    if a is Some {
        a
    } else {
        b
    }
}

/// The model of a found node.
pub open spec fn found(r: Option<&Cst>) -> Option<SpecCst> {
    match r {
        Some(c) => Some(cv(*c)),
        None => None,
    }
}

/// The node with the given ID: this node, or the first found among its
/// children. Among a list of children, only the last one whose ID is at most
/// the wanted one is searched.
pub open spec fn spec_find(c: SpecCst, id: Id) -> Option<SpecCst>
    decreases c,
{
    if id == c.id {
        Some(c)
    } else {
        match c.kind {
            SpecCstKind::Comment { octothorpe, .. } => spec_find(*octothorpe, id),
            SpecCstKind::TrailingWhitespace { child, whitespace } => first_some(
                spec_find(*child, id),
                spec_find_in(whitespace, id),
            ),
            SpecCstKind::Text { opening_quote, parts, closing_quote } => first_some(
                first_some(spec_find(*opening_quote, id), spec_find_in(parts, id)),
                spec_find(*closing_quote, id),
            ),
            SpecCstKind::Parenthesized { opening_parenthesis, inner, closing_parenthesis } =>
                first_some(
                first_some(spec_find(*opening_parenthesis, id), spec_find(*inner, id)),
                spec_find(*closing_parenthesis, id),
            ),
            SpecCstKind::Call { name, arguments } => first_some(
                spec_find(*name, id),
                spec_find_in(arguments, id),
            ),
            SpecCstKind::Struct { opening_bracket, fields, closing_bracket } => first_some(
                first_some(spec_find(*opening_bracket, id), spec_find_in(fields, id)),
                spec_find(*closing_bracket, id),
            ),
            SpecCstKind::StructField { key, colon, value, comma } => first_some(
                first_some(
                    first_some(spec_find(*key, id), spec_find(*colon, id)),
                    spec_find(*value, id),
                ),
                match comma {
                    Some(c) => spec_find(*c, id),
                    None => None,
                },
            ),
            SpecCstKind::Lambda {
                opening_curly_brace,
                parameters_and_arrow,
                body,
                closing_curly_brace,
            } => first_some(
                first_some(
                    first_some(
                        spec_find(*opening_curly_brace, id),
                        match parameters_and_arrow {
                            Some((ps, a)) => first_some(spec_find_in(ps, id), spec_find(*a, id)),
                            None => None,
                        },
                    ),
                    spec_find_in(body, id),
                ),
                spec_find(*closing_curly_brace, id),
            ),
            SpecCstKind::Assignment { name, parameters, equals_sign, body } => first_some(
                first_some(
                    first_some(spec_find(*name, id), spec_find_in(parameters, id)),
                    spec_find(*equals_sign, id),
                ),
                spec_find_in(body, id),
            ),
            _ => None,
        }
    }
}

/// The node with the given ID among the nodes: searched for in the last node
/// whose ID is at most the wanted one.
pub open spec fn spec_find_in(s: Seq<SpecCst>, id: Id) -> Option<SpecCst>
    decreases s,
{
    match last_at_most(s, id.0 as int, false) {
        Some(i) => {
            proof {
                lemma_last_at_most(s, id.0 as int, false);
            }
            spec_find(s[i], id)
        },
        None => None,
    }
}

/// The innermost node whose span contains the offset: found among the
/// children that are searched, or else this node if its span contains it.
/// Among a list of children, only the last one starting at or before the
/// offset is searched.
pub open spec fn spec_find_by_offset(c: SpecCst, offset: usize) -> Option<SpecCst>
    decreases c,
{
    let inner = match c.kind {
        SpecCstKind::Comment { octothorpe, .. } => spec_find_by_offset(*octothorpe, offset),
        SpecCstKind::TrailingWhitespace { child, .. } => spec_find_by_offset(*child, offset),
        SpecCstKind::Parenthesized { inner, .. } => spec_find_by_offset(*inner, offset),
        SpecCstKind::Call { name, arguments } => first_some(
            spec_find_by_offset(*name, offset),
            spec_find_in_by_offset(arguments, offset),
        ),
        SpecCstKind::Struct { opening_bracket, fields, closing_bracket } => first_some(
            first_some(
                spec_find_by_offset(*opening_bracket, offset),
                spec_find_in_by_offset(fields, offset),
            ),
            spec_find_by_offset(*closing_bracket, offset),
        ),
        SpecCstKind::StructField { key, colon, value, comma } => first_some(
            first_some(
                first_some(spec_find_by_offset(*key, offset), spec_find_by_offset(*colon, offset)),
                spec_find_by_offset(*value, offset),
            ),
            match comma {
                Some(c) => spec_find_by_offset(*c, offset),
                None => None,
            },
        ),
        SpecCstKind::Lambda { body, .. } => spec_find_in_by_offset(body, offset),
        SpecCstKind::Assignment { name, parameters, equals_sign, body } => first_some(
            first_some(
                first_some(
                    spec_find_by_offset(*name, offset),
                    spec_find_in_by_offset(parameters, offset),
                ),
                spec_find_by_offset(*equals_sign, offset),
            ),
            spec_find_in_by_offset(body, offset),
        ),
        _ => None,
    };
    first_some(
        inner,
        if c.start <= offset < c.end {
            Some(c)
        } else {
            None
        },
    )
}

/// The innermost node containing the offset, searched for in the last node
/// that starts at or before it.
pub open spec fn spec_find_in_by_offset(s: Seq<SpecCst>, offset: usize) -> Option<SpecCst>
    decreases s,
{
    match last_at_most(s, offset as int, true) {
        Some(i) => {
            proof {
                lemma_last_at_most(s, offset as int, true);
            }
            spec_find_by_offset(s[i], offset)
        },
        None => None,
    }
}

/// The index of the last node whose key is at most `key`, by binary search.
fn last_index_at_most(csts: &Vec<Cst>, key: usize, by_start: bool) -> (res: Option<usize>)
    ensures
        res matches Some(i) ==> i < csts@.len(),
        keys_sorted(cvs(csts@), by_start) ==> match res {
            Some(i) => last_at_most(cvs(csts@), key as int, by_start) == Some(i as int),
            None => last_at_most(cvs(csts@), key as int, by_start) is None,
        },
{
    let ghost s = cvs(csts@);
    proof {
        lemma_cvs(csts@);
    }
    let mut lo: usize = 0;
    let mut hi: usize = csts.len();
    while lo < hi
        invariant
            lo <= hi <= csts@.len(),
            s == cvs(csts@),
            s.len() == csts@.len(),
            forall|i: int| 0 <= i < csts@.len() ==> #[trigger] s[i] == cv(csts@[i]),
            keys_sorted(s, by_start) ==> forall|j: int|
                0 <= j < lo ==> node_key(#[trigger] s[j], by_start) <= key,
            keys_sorted(s, by_start) ==> forall|j: int|
                hi <= j < s.len() ==> node_key(#[trigger] s[j], by_start) > key,
        decreases hi - lo,
    {
        let mid = lo + (hi - lo) / 2;
        let k = if by_start {
            csts[mid].span.start
        } else {
            csts[mid].id.0
        };
        proof {
            assert(s[mid as int] == cv(csts@[mid as int]));
            assert(k as int == node_key(s[mid as int], by_start));
        }
        if k <= key {
            lo = mid + 1;
        } else {
            hi = mid;
        }
    }
    proof {
        if keys_sorted(s, by_start) {
            lemma_last_at_most_split(s, key as int, by_start, lo as int);
        }
    }
    if lo == 0 {
        None
    } else {
        Some(lo - 1)
    }
}

impl Cst {
    pub fn first_id(&self) -> (res: Option<Id>)
        ensures
            res == Some(self.id),
    {
        Some(self.id)
    }

    pub fn first_offset(&self) -> (res: Option<usize>)
        ensures
            res == Some(self.span.start),
    {
        Some(self.span.start)
    }

    /// The node with the given ID. Whatever is found has that ID; if the
    /// children of every node are ordered by ID, the result is exactly
    /// [`spec_find`].
    pub fn find(&self, id: Id) -> (res: Option<&Cst>)
        ensures
            res matches Some(r) ==> r.id == id,
            tree_sorted(cv(*self), false) ==> found(res) == spec_find(cv(*self), id),
        decreases self,
    {
        if id == self.id {
            return Some(self);
        }
        match &self.kind {
            CstKind::Comment { octothorpe, .. } => octothorpe.find(id),
            CstKind::TrailingWhitespace { child, whitespace } => match child.find(id) {
                Some(r) => Some(r),
                None => find_in(whitespace, id),
            },
            CstKind::Text { opening_quote, parts, closing_quote } => match opening_quote.find(id) {
                Some(r) => Some(r),
                None => match find_in(parts, id) {
                    Some(r) => Some(r),
                    None => closing_quote.find(id),
                },
            },
            CstKind::Parenthesized { opening_parenthesis, inner, closing_parenthesis } => match
                opening_parenthesis.find(id) {
                Some(r) => Some(r),
                None => match inner.find(id) {
                    Some(r) => Some(r),
                    None => closing_parenthesis.find(id),
                },
            },
            CstKind::Call { name, arguments } => match name.find(id) {
                Some(r) => Some(r),
                None => find_in(arguments, id),
            },
            CstKind::Struct { opening_bracket, fields, closing_bracket } => match
                opening_bracket.find(id) {
                Some(r) => Some(r),
                None => match find_in(fields, id) {
                    Some(r) => Some(r),
                    None => closing_bracket.find(id),
                },
            },
            CstKind::StructField { key, colon, value, comma } => match key.find(id) {
                Some(r) => Some(r),
                None => match colon.find(id) {
                    Some(r) => Some(r),
                    None => match value.find(id) {
                        Some(r) => Some(r),
                        None => match comma {
                            Some(comma) => comma.find(id),
                            None => None,
                        },
                    },
                },
            },
            CstKind::Lambda {
                opening_curly_brace,
                parameters_and_arrow,
                body,
                closing_curly_brace,
            } => match opening_curly_brace.find(id) {
                Some(r) => Some(r),
                None => {
                    let in_parameters = match parameters_and_arrow {
                        Some((parameters, arrow)) => match find_in(parameters, id) {
                            Some(r) => Some(r),
                            None => arrow.find(id),
                        },
                        None => None,
                    };
                    match in_parameters {
                        Some(r) => Some(r),
                        None => match find_in(body, id) {
                            Some(r) => Some(r),
                            None => closing_curly_brace.find(id),
                        },
                    }
                },
            },
            CstKind::Assignment { name, parameters, equals_sign, body } => match name.find(id) {
                Some(r) => Some(r),
                None => match find_in(parameters, id) {
                    Some(r) => Some(r),
                    None => match equals_sign.find(id) {
                        Some(r) => Some(r),
                        None => find_in(body, id),
                    },
                },
            },
            _ => None,
        }
    }

    /// The innermost node whose span contains the offset. Whatever is found
    /// contains it; if the children of every node are ordered by where they
    /// start, the result is exactly [`spec_find_by_offset`].
    pub fn find_by_offset(&self, offset: usize) -> (res: Option<&Cst>)
        ensures
            res matches Some(r) ==> r.span.start <= offset < r.span.end,
            tree_sorted(cv(*self), true) ==> found(res) == spec_find_by_offset(
                cv(*self),
                offset,
            ),
        decreases self,
    {
        let inner = match &self.kind {
            CstKind::Comment { octothorpe, .. } => octothorpe.find_by_offset(offset),
            CstKind::TrailingWhitespace { child, .. } => child.find_by_offset(offset),
            CstKind::Parenthesized { inner, .. } => inner.find_by_offset(offset),
            CstKind::Call { name, arguments } => match name.find_by_offset(offset) {
                Some(r) => Some(r),
                None => find_in_by_offset(arguments, offset),
            },
            CstKind::Struct { opening_bracket, fields, closing_bracket } => match
                opening_bracket.find_by_offset(offset) {
                Some(r) => Some(r),
                None => match find_in_by_offset(fields, offset) {
                    Some(r) => Some(r),
                    None => closing_bracket.find_by_offset(offset),
                },
            },
            CstKind::StructField { key, colon, value, comma } => match key.find_by_offset(offset) {
                Some(r) => Some(r),
                None => match colon.find_by_offset(offset) {
                    Some(r) => Some(r),
                    None => match value.find_by_offset(offset) {
                        Some(r) => Some(r),
                        None => match comma {
                            Some(comma) => comma.find_by_offset(offset),
                            None => None,
                        },
                    },
                },
            },
            CstKind::Lambda { body, .. } => find_in_by_offset(body, offset),
            CstKind::Assignment { name, parameters, equals_sign, body } => match
                name.find_by_offset(offset) {
                Some(r) => Some(r),
                None => match find_in_by_offset(parameters, offset) {
                    Some(r) => Some(r),
                    None => match equals_sign.find_by_offset(offset) {
                        Some(r) => Some(r),
                        None => find_in_by_offset(body, offset),
                    },
                },
            },
            _ => None,
        };
        match inner {
            Some(r) => Some(r),
            None => if self.span.start <= offset && offset < self.span.end {
                Some(self)
            } else {
                None
            },
        }
    }
}

/// The ID of the first node.
pub fn first_id_in(csts: &Vec<Cst>) -> (res: Option<Id>)
    ensures
        res == if csts@.len() == 0 {
            None
        } else {
            Some(csts@[0].id)
        },
{
    if csts.len() == 0 {
        None
    } else {
        Some(csts[0].id)
    }
}

/// Where the first node starts.
pub fn first_offset_in(csts: &Vec<Cst>) -> (res: Option<usize>)
    ensures
        res == if csts@.len() == 0 {
            None
        } else {
            Some(csts@[0].span.start)
        },
{
    if csts.len() == 0 {
        None
    } else {
        Some(csts[0].span.start)
    }
}

/// The node with the given ID among the nodes, which are ordered by ID.
pub fn find_in(csts: &Vec<Cst>, id: Id) -> (res: Option<&Cst>)
    ensures
        res matches Some(r) ==> r.id == id,
        forest_sorted(cvs(csts@), false) ==> found(res) == spec_find_in(cvs(csts@), id),
    decreases csts,
{
    proof {
        lemma_cvs(csts@);
        lemma_forest_sorted(cvs(csts@), false);
    }
    match last_index_at_most(csts, id.0, false) {
        Some(i) => csts[i].find(id),
        None => None,
    }
}

/// The innermost node containing the offset among the nodes, which are
/// ordered by where they start.
pub fn find_in_by_offset(csts: &Vec<Cst>, offset: usize) -> (res: Option<&Cst>)
    ensures
        res matches Some(r) ==> r.span.start <= offset < r.span.end,
        forest_sorted(cvs(csts@), true) ==> found(res) == spec_find_in_by_offset(
            cvs(csts@),
            offset,
        ),
    decreases csts,
{
    proof {
        lemma_cvs(csts@);
        lemma_forest_sorted(cvs(csts@), true);
    }
    match last_index_at_most(csts, offset, true) {
        Some(i) => csts[i].find_by_offset(offset),
        None => None,
    }
}

/// A sorted forest's trees are sorted.
pub proof fn lemma_forest_sorted(s: Seq<SpecCst>, by_start: bool)
    ensures
        forest_sorted(s, by_start) ==> forall|i: int|
            0 <= i < s.len() ==> tree_sorted(#[trigger] s[i], by_start),
    decreases s.len(),
{
    if s.len() > 0 {
        let t = s.subrange(0, s.len() - 1);
        lemma_forest_sorted(t, by_start);
        if forest_sorted(s, by_start) {
            assert forall|i: int| 0 <= i < s.len() implies tree_sorted(#[trigger] s[i], by_start) by {
                if i < s.len() - 1 {
                    assert(t[i] == s[i]);
                }
            }
        }
    }
}

/// The node with the given ID in a source's tree, as the CST database answers
/// it: such a node must be there.
pub fn find_cst(csts: &Vec<Cst>, id: Id) -> (res: Cst)
    requires
        forest_sorted(cvs(csts@), false),
        spec_find_in(cvs(csts@), id) is Some,
    ensures
        Some(cv(res)) == spec_find_in(cvs(csts@), id),
        res.id == id,
{
    let found = find_in(csts, id);
    clone_cst(found.unwrap())
}

/// The innermost node containing the offset in a source's tree, as the CST
/// database answers it: such a node must be there.
pub fn find_cst_by_offset(csts: &Vec<Cst>, offset: usize) -> (res: Cst)
    requires
        forest_sorted(cvs(csts@), true),
        spec_find_in_by_offset(cvs(csts@), offset) is Some,
    ensures
        Some(cv(res)) == spec_find_in_by_offset(cvs(csts@), offset),
        res.span.start <= offset < res.span.end,
{
    let found = find_in_by_offset(csts, offset);
    clone_cst(found.unwrap())
}

// ----------------------------------------------------------------------------
// Laws.

/// Dropping whitespace and comments keeps whether a node is whitespace, and
/// dropping them a second time changes nothing.
pub proof fn lemma_unwrap_idempotent(c: SpecCst)
    ensures
        is_whitespace_node(spec_unwrap(c)) == is_whitespace_node(c),
        spec_unwrap(spec_unwrap(c)) == spec_unwrap(c),
    decreases c,
{
    match c.kind {
        SpecCstKind::TrailingWhitespace { child, .. } => {
            lemma_unwrap_idempotent(*child);
        },
        SpecCstKind::Text { opening_quote, parts, closing_quote } => {
            lemma_unwrap_idempotent(*opening_quote);
            lemma_unwrap_all_idempotent(parts);
            lemma_unwrap_idempotent(*closing_quote);
        },
        SpecCstKind::Parenthesized { opening_parenthesis, inner, closing_parenthesis } => {
            lemma_unwrap_idempotent(*opening_parenthesis);
            lemma_unwrap_idempotent(*inner);
            lemma_unwrap_idempotent(*closing_parenthesis);
        },
        SpecCstKind::Call { name, arguments } => {
            lemma_unwrap_idempotent(*name);
            lemma_unwrap_all_idempotent(arguments);
        },
        SpecCstKind::Struct { opening_bracket, fields, closing_bracket } => {
            lemma_unwrap_idempotent(*opening_bracket);
            lemma_unwrap_all_idempotent(fields);
            lemma_unwrap_idempotent(*closing_bracket);
        },
        SpecCstKind::StructField { key, colon, value, comma } => {
            lemma_unwrap_idempotent(*key);
            lemma_unwrap_idempotent(*colon);
            lemma_unwrap_idempotent(*value);
            if let Some(comma) = comma {
                lemma_unwrap_idempotent(*comma);
            }
        },
        SpecCstKind::Lambda {
            opening_curly_brace,
            parameters_and_arrow,
            body,
            closing_curly_brace,
        } => {
            lemma_unwrap_idempotent(*opening_curly_brace);
            if let Some((parameters, arrow)) = parameters_and_arrow {
                lemma_unwrap_all_idempotent(parameters);
                lemma_unwrap_idempotent(*arrow);
            }
            lemma_unwrap_all_idempotent(body);
            lemma_unwrap_idempotent(*closing_curly_brace);
        },
        SpecCstKind::Assignment { name, parameters, equals_sign, body } => {
            lemma_unwrap_idempotent(*name);
            lemma_unwrap_all_idempotent(parameters);
            lemma_unwrap_idempotent(*equals_sign);
            lemma_unwrap_all_idempotent(body);
        },
        _ => {},
    }
}

/// Dropping whitespace and comments from nodes leaves no whitespace or
/// comment among them, and dropping them a second time changes nothing.
pub proof fn lemma_unwrap_all_idempotent(s: Seq<SpecCst>)
    ensures
        forall|i: int|
            0 <= i < spec_unwrap_all(s).len() ==> !is_whitespace_node(
                #[trigger] spec_unwrap_all(s)[i],
            ),
        spec_unwrap_all(spec_unwrap_all(s)) == spec_unwrap_all(s),
    decreases s,
{
    if s.len() > 0 {
        let init = s.subrange(0, s.len() - 1);
        let last = s[s.len() - 1];
        lemma_unwrap_all_idempotent(init);
        lemma_unwrap_idempotent(last);
        let u = spec_unwrap_all(init);
        if !is_whitespace_node(last) {
            let t = u.push(spec_unwrap(last));
            assert(t.subrange(0, t.len() - 1) =~= u);
            assert(spec_unwrap_all(t) == spec_unwrap_all(u).push(spec_unwrap(spec_unwrap(last))));
        }
    }
}

/// The node holds no trailing whitespace: it is no trailing-whitespace node,
/// nor is any node in its fields or lists, and its lists hold no whitespace
/// or comment nodes. (Comments and other tokens count as leaves.)
pub open spec fn is_unwrapped(c: SpecCst) -> bool
    decreases c,
{
    match c.kind {
        SpecCstKind::TrailingWhitespace { .. } => false,
        SpecCstKind::Text { opening_quote, parts, closing_quote } => is_unwrapped(*opening_quote)
            && all_unwrapped(parts) && is_unwrapped(*closing_quote),
        SpecCstKind::Parenthesized { opening_parenthesis, inner, closing_parenthesis } =>
            is_unwrapped(*opening_parenthesis) && is_unwrapped(*inner) && is_unwrapped(
            *closing_parenthesis,
        ),
        SpecCstKind::Call { name, arguments } => is_unwrapped(*name) && all_unwrapped(arguments),
        SpecCstKind::Struct { opening_bracket, fields, closing_bracket } => is_unwrapped(
            *opening_bracket,
        ) && all_unwrapped(fields) && is_unwrapped(*closing_bracket),
        SpecCstKind::StructField { key, colon, value, comma } => is_unwrapped(*key) && is_unwrapped(
            *colon,
        ) && is_unwrapped(*value) && match comma {
            Some(comma) => is_unwrapped(*comma),
            None => true,
        },
        SpecCstKind::Lambda {
            opening_curly_brace,
            parameters_and_arrow,
            body,
            closing_curly_brace,
        } => is_unwrapped(*opening_curly_brace) && match parameters_and_arrow {
            Some((parameters, arrow)) => all_unwrapped(parameters) && is_unwrapped(*arrow),
            None => true,
        } && all_unwrapped(body) && is_unwrapped(*closing_curly_brace),
        SpecCstKind::Assignment { name, parameters, equals_sign, body } => is_unwrapped(*name)
            && all_unwrapped(parameters) && is_unwrapped(*equals_sign) && all_unwrapped(body),
        _ => true,
    }
}

/// None of the nodes is whitespace or a comment, and each holds no trailing
/// whitespace.
pub open spec fn all_unwrapped(s: Seq<SpecCst>) -> bool
    decreases s,
{
    s.len() > 0 ==> {
        &&& all_unwrapped(s.subrange(0, s.len() - 1))
        &&& !is_whitespace_node(s[s.len() - 1])
        &&& is_unwrapped(s[s.len() - 1])
    }
}

/// Dropping whitespace and comments leaves no trailing whitespace anywhere in
/// the node and no whitespace or comment in its lists; a node that is not
/// trailing whitespace keeps its ID and span.
pub proof fn lemma_unwrap_leaves_no_whitespace(c: SpecCst)
    ensures
        is_unwrapped(spec_unwrap(c)),
        !(c.kind is TrailingWhitespace) ==> spec_unwrap(c).id == c.id && spec_unwrap(c).start
            == c.start && spec_unwrap(c).end == c.end,
    decreases c,
{
    match c.kind {
        SpecCstKind::TrailingWhitespace { child, .. } => {
            lemma_unwrap_leaves_no_whitespace(*child);
        },
        SpecCstKind::Text { opening_quote, parts, closing_quote } => {
            lemma_unwrap_leaves_no_whitespace(*opening_quote);
            lemma_unwrap_all_leaves_no_whitespace(parts);
            lemma_unwrap_leaves_no_whitespace(*closing_quote);
        },
        SpecCstKind::Parenthesized { opening_parenthesis, inner, closing_parenthesis } => {
            lemma_unwrap_leaves_no_whitespace(*opening_parenthesis);
            lemma_unwrap_leaves_no_whitespace(*inner);
            lemma_unwrap_leaves_no_whitespace(*closing_parenthesis);
        },
        SpecCstKind::Call { name, arguments } => {
            lemma_unwrap_leaves_no_whitespace(*name);
            lemma_unwrap_all_leaves_no_whitespace(arguments);
        },
        SpecCstKind::Struct { opening_bracket, fields, closing_bracket } => {
            lemma_unwrap_leaves_no_whitespace(*opening_bracket);
            lemma_unwrap_all_leaves_no_whitespace(fields);
            lemma_unwrap_leaves_no_whitespace(*closing_bracket);
        },
        SpecCstKind::StructField { key, colon, value, comma } => {
            lemma_unwrap_leaves_no_whitespace(*key);
            lemma_unwrap_leaves_no_whitespace(*colon);
            lemma_unwrap_leaves_no_whitespace(*value);
            if let Some(comma) = comma {
                lemma_unwrap_leaves_no_whitespace(*comma);
            }
        },
        SpecCstKind::Lambda {
            opening_curly_brace,
            parameters_and_arrow,
            body,
            closing_curly_brace,
        } => {
            lemma_unwrap_leaves_no_whitespace(*opening_curly_brace);
            if let Some((parameters, arrow)) = parameters_and_arrow {
                lemma_unwrap_all_leaves_no_whitespace(parameters);
                lemma_unwrap_leaves_no_whitespace(*arrow);
            }
            lemma_unwrap_all_leaves_no_whitespace(body);
            lemma_unwrap_leaves_no_whitespace(*closing_curly_brace);
        },
        SpecCstKind::Assignment { name, parameters, equals_sign, body } => {
            lemma_unwrap_leaves_no_whitespace(*name);
            lemma_unwrap_all_leaves_no_whitespace(parameters);
            lemma_unwrap_leaves_no_whitespace(*equals_sign);
            lemma_unwrap_all_leaves_no_whitespace(body);
        },
        _ => {},
    }
}

/// Dropping whitespace and comments from nodes leaves nodes that hold none.
pub proof fn lemma_unwrap_all_leaves_no_whitespace(s: Seq<SpecCst>)
    ensures
        all_unwrapped(spec_unwrap_all(s)),
    decreases s,
{
    if s.len() > 0 {
        let init = s.subrange(0, s.len() - 1);
        let last = s[s.len() - 1];
        lemma_unwrap_all_leaves_no_whitespace(init);
        let u = spec_unwrap_all(init);
        if !is_whitespace_node(last) {
            lemma_unwrap_leaves_no_whitespace(last);
            lemma_unwrap_idempotent(last);
            let t = u.push(spec_unwrap(last));
            assert(t.subrange(0, t.len() - 1) =~= u);
        }
    }
}

// ----------------------------------------------------------------------------
// What finding by offset gives.

/// The node's span contains the offset.
pub open spec fn spans_offset(c: SpecCst, offset: usize) -> bool {
    c.start <= offset < c.end
}

/// The child of a list that a search for the offset looks at (the last one
/// starting at or before it) does not contain the offset.
pub open spec fn list_misses(s: Seq<SpecCst>, offset: usize) -> bool {
    match last_at_most(s, offset as int, true) {
        Some(i) => !spans_offset(s[i], offset),
        None => true,
    }
}

/// The node contains the offset, and none of the children that a search
/// looks into does: a comment's octothorpe, the child of trailing
/// whitespace, what parentheses enclose, a call's name and arguments, a
/// struct's brackets and fields, a field's parts, a lambda's body, and an
/// assignment's name, parameters, equals sign and body.
pub open spec fn innermost_at(c: SpecCst, offset: usize) -> bool {
    &&& spans_offset(c, offset)
    &&& match c.kind {
        SpecCstKind::Comment { octothorpe, .. } => !spans_offset(*octothorpe, offset),
        SpecCstKind::TrailingWhitespace { child, .. } => !spans_offset(*child, offset),
        SpecCstKind::Parenthesized { inner, .. } => !spans_offset(*inner, offset),
        SpecCstKind::Call { name, arguments } => !spans_offset(*name, offset) && list_misses(
            arguments,
            offset,
        ),
        SpecCstKind::Struct { opening_bracket, fields, closing_bracket } => !spans_offset(
            *opening_bracket,
            offset,
        ) && list_misses(fields, offset) && !spans_offset(*closing_bracket, offset),
        SpecCstKind::StructField { key, colon, value, comma } => !spans_offset(*key, offset)
            && !spans_offset(*colon, offset) && !spans_offset(*value, offset) && match comma {
            Some(c) => !spans_offset(*c, offset),
            None => true,
        },
        SpecCstKind::Lambda { body, .. } => list_misses(body, offset),
        SpecCstKind::Assignment { name, parameters, equals_sign, body } => !spans_offset(
            *name,
            offset,
        ) && list_misses(parameters, offset) && !spans_offset(*equals_sign, offset)
            && list_misses(body, offset),
        _ => true,
    }
}

/// Finding by offset gives the innermost node that contains the offset: it
/// finds a node whenever the tree's root contains the offset, and what it
/// finds contains the offset while none of the children it searches does.
pub proof fn lemma_find_by_offset_innermost(c: SpecCst, offset: usize)
    ensures
        spec_find_by_offset(c, offset) matches Some(n) ==> innermost_at(n, offset),
        spans_offset(c, offset) ==> spec_find_by_offset(c, offset) is Some,
    decreases c,
{
    match c.kind {
        SpecCstKind::Comment { octothorpe, .. } => {
            lemma_find_by_offset_innermost(*octothorpe, offset);
        },
        SpecCstKind::TrailingWhitespace { child, .. } => {
            lemma_find_by_offset_innermost(*child, offset);
        },
        SpecCstKind::Parenthesized { inner, .. } => {
            lemma_find_by_offset_innermost(*inner, offset);
        },
        SpecCstKind::Call { name, arguments } => {
            lemma_find_by_offset_innermost(*name, offset);
            lemma_find_in_by_offset_innermost(arguments, offset);
        },
        SpecCstKind::Struct { opening_bracket, fields, closing_bracket } => {
            lemma_find_by_offset_innermost(*opening_bracket, offset);
            lemma_find_in_by_offset_innermost(fields, offset);
            lemma_find_by_offset_innermost(*closing_bracket, offset);
        },
        SpecCstKind::StructField { key, colon, value, comma } => {
            lemma_find_by_offset_innermost(*key, offset);
            lemma_find_by_offset_innermost(*colon, offset);
            lemma_find_by_offset_innermost(*value, offset);
            if let Some(c) = comma {
                lemma_find_by_offset_innermost(*c, offset);
            }
        },
        SpecCstKind::Lambda { body, .. } => {
            lemma_find_in_by_offset_innermost(body, offset);
        },
        SpecCstKind::Assignment { name, parameters, equals_sign, body } => {
            lemma_find_by_offset_innermost(*name, offset);
            lemma_find_in_by_offset_innermost(parameters, offset);
            lemma_find_by_offset_innermost(*equals_sign, offset);
            lemma_find_in_by_offset_innermost(body, offset);
        },
        _ => {},
    }
}

/// Finding by offset among nodes gives the innermost node that contains the
/// offset, or nothing when the node it looks at does not contain it.
pub proof fn lemma_find_in_by_offset_innermost(s: Seq<SpecCst>, offset: usize)
    ensures
        spec_find_in_by_offset(s, offset) matches Some(n) ==> innermost_at(n, offset),
        spec_find_in_by_offset(s, offset) is None ==> list_misses(s, offset),
    decreases s,
{
    lemma_last_at_most(s, offset as int, true);
    if let Some(i) = last_at_most(s, offset as int, true) {
        lemma_find_by_offset_innermost(s[i], offset);
    }
}

} // verus!
