//! The text of whitespace, newlines and comments.
//!
//! The parser keeps whitespace, newlines and comments as nodes, together
//! with what was unparsable among them, so that nothing of the source is
//! lost.

use crate::rcst::SpecRcst;
use crate::string_to_rcst::{
    comment_step, drop_empty_whitespace, indentation_count, is_empty_whitespace,
    lemma_comment_shrinks, lemma_indentation_count, lemma_span, newline_pred, newlines,
    not_newline_pred, single_line_whitespace_pred, span, spec_comment, spec_single_line_whitespace,
    spec_whitespace_lines, spec_whitespaces_and_newlines,
};
use vstd::prelude::*;

verus! {

/// The source text of a whitespace, newline, comment or error node.
pub open spec fn trivia_text(r: SpecRcst) -> Seq<char> {
    match r {
        SpecRcst::Whitespace(w) => w,
        SpecRcst::Newline => seq!['\n'],
        SpecRcst::Comment { comment, .. } => seq!['#'] + comment,
        SpecRcst::Error { unparsable_input, .. } => unparsable_input,
        _ => Seq::empty(),
    }
}

/// The source texts of the nodes, one after another.
pub open spec fn trivia_texts(parts: Seq<SpecRcst>) -> Seq<char>
    decreases parts.len(),
{
    if parts.len() == 0 {
        Seq::empty()
    } else {
        trivia_texts(parts.drop_last()) + trivia_text(parts.last())
    }
}

proof fn lemma_trivia_texts_append(a: Seq<SpecRcst>, b: Seq<SpecRcst>)
    ensures
        trivia_texts(a + b) == trivia_texts(a) + trivia_texts(b),
    decreases b.len(),
{
    if b.len() == 0 {
        assert(a + b =~= a);
        assert(trivia_texts(a) + trivia_texts(b) =~= trivia_texts(a));
    } else {
        lemma_trivia_texts_append(a, b.drop_last());
        assert((a + b).drop_last() =~= a + b.drop_last());
        assert((a + b).last() == b.last());
        assert(trivia_texts(a + b) =~= trivia_texts(a) + trivia_texts(b));
    }
}

proof fn lemma_trivia_texts_single(x: SpecRcst)
    ensures
        trivia_texts(seq![x]) == trivia_text(x),
{
    assert(seq![x].drop_last() =~= Seq::<SpecRcst>::empty());
    assert(trivia_texts(Seq::<SpecRcst>::empty()) =~= Seq::<char>::empty());
    assert(trivia_texts(seq![x]) =~= trivia_text(x));
}

proof fn lemma_drop_empty_whitespace_text(s: Seq<SpecRcst>)
    ensures
        trivia_texts(drop_empty_whitespace(s)) == trivia_texts(s),
    decreases s.len(),
{
    if s.len() > 0 {
        let init = s.subrange(0, s.len() - 1);
        assert(init =~= s.drop_last());
        lemma_drop_empty_whitespace_text(init);
        let x = s[s.len() - 1];
        if is_empty_whitespace(x) {
            assert(trivia_text(x) =~= Seq::<char>::empty());
            assert(trivia_texts(s) =~= trivia_texts(init));
        } else {
            let d = drop_empty_whitespace(init);
            assert(d.push(x).drop_last() =~= d);
        }
    }
}

/// `k` newline nodes are `k` newline characters.
proof fn lemma_newlines_text(k: nat)
    ensures
        trivia_texts(newlines(k)) == Seq::new(k, |i: int| '\n'),
    decreases k,
{
    if k > 0 {
        lemma_newlines_text((k - 1) as nat);
        assert(newlines(k).drop_last() =~= newlines((k - 1) as nat));
        assert(trivia_texts(newlines(k)) =~= Seq::new(k, |i: int| '\n'));
    }
}

proof fn lemma_single_line_whitespace_lossless(s: Seq<char>)
    ensures
        trivia_text(spec_single_line_whitespace(s).1) + spec_single_line_whitespace(s).0 == s,
{
    let n = span(s, single_line_whitespace_pred());
    lemma_span(s, single_line_whitespace_pred());
    assert(s.take(n as int) + s.skip(n as int) =~= s);
}

proof fn lemma_comment_step_lossless(s: Seq<char>, also_comments: bool)
    ensures
        trivia_texts(comment_step(s, also_comments).1) + comment_step(s, also_comments).0 == s,
{
    let (r, p) = comment_step(s, also_comments);
    if also_comments && spec_comment(s) is Some {
        let t = s.skip(1);
        let n = span(t, not_newline_pred());
        lemma_span(t, not_newline_pred());
        assert(s.subrange(0, 1) == seq!['#']);
        let c = SpecRcst::Comment {
            octothorpe: Box::new(SpecRcst::Octothorpe),
            comment: t.take(n as int),
        };
        assert(p == seq![c]);
        lemma_trivia_texts_single(c);
        assert(seq!['#'] + t.take(n as int) + t.skip(n as int) =~= s);
    } else {
        assert(trivia_texts(p) + r =~= s);
    }
}

/// A line break step: the newlines and the indentation after them.
proof fn lemma_line_break_text(
    cp: Seq<SpecRcst>,
    s1: Seq<char>,
    k: nat,
    n: nat,
    p: Seq<SpecRcst>,
    r: Seq<char>,
)
    requires
        k <= s1.len(),
        forall|j: int| 0 <= j < k ==> #[trigger] s1[j] == '\n',
        n <= s1.skip(k as int).len(),
        trivia_texts(p) + r == s1.skip(k as int).skip(n as int),
    ensures
        trivia_texts(
            cp + newlines(k) + seq![SpecRcst::Whitespace(s1.skip(k as int).take(n as int))] + p,
        ) + r == trivia_texts(cp) + s1,
{
    let t = s1.skip(k as int);
    let w = seq![SpecRcst::Whitespace(t.take(n as int))];
    lemma_trivia_texts_append(cp, newlines(k));
    lemma_trivia_texts_append(cp + newlines(k), w);
    lemma_trivia_texts_append(cp + newlines(k) + w, p);
    lemma_newlines_text(k);
    lemma_trivia_texts_single(SpecRcst::Whitespace(t.take(n as int)));
    assert(s1.take(k as int) =~= Seq::new(k, |i: int| '\n'));
    assert(t.take(n as int) + t.skip(n as int) =~= t);
    assert(s1.take(k as int) + t =~= s1);
    assert(trivia_texts(cp + newlines(k) + w + p) + r =~= trivia_texts(cp) + (s1.take(k as int)
        + (t.take(n as int) + (trivia_texts(p) + r))));
}

proof fn lemma_whitespace_lines_lossless(s: Seq<char>, indentation: nat, also_comments: bool)
    ensures
        trivia_texts(spec_whitespace_lines(s, indentation, also_comments).1)
            + spec_whitespace_lines(s, indentation, also_comments).0 == s,
    decreases s.len(),
{
    let s1 = comment_step(s, also_comments).0;
    let cp = comment_step(s, also_comments).1;
    lemma_comment_step_lossless(s, also_comments);
    let k = span(s1, newline_pred());
    lemma_span(s1, newline_pred());
    if k > 0 {
        let t = s1.skip(k as int);
        if let Some((n, _)) = indentation_count(t, 2 * indentation as int) {
            lemma_comment_shrinks(s);
            lemma_indentation_count(t, 2 * indentation as int);
            let rest = t.skip(n as int);
            lemma_whitespace_lines_lossless(rest, indentation, also_comments);
            let r = spec_whitespace_lines(rest, indentation, also_comments).0;
            let p = spec_whitespace_lines(rest, indentation, also_comments).1;
            assert forall|j: int| 0 <= j < k implies #[trigger] s1[j] == '\n' by {
                assert(newline_pred()(s1[j]));
            }
            lemma_line_break_text(cp, s1, k, n, p, r);
        }
    }
}

/// Whitespace, newlines and comments lose nothing: the texts of the nodes
/// that `whitespaces_and_newlines` returns, followed by the rest of the
/// input, are the input.
pub proof fn lemma_whitespaces_and_newlines_lossless(
    s: Seq<char>,
    indentation: nat,
    also_comments: bool,
)
    ensures
        trivia_texts(spec_whitespaces_and_newlines(s, indentation, also_comments).1)
            + spec_whitespaces_and_newlines(s, indentation, also_comments).0 == s,
{
    let (s1, w) = spec_single_line_whitespace(s);
    lemma_single_line_whitespace_lossless(s);
    let (r, p) = spec_whitespace_lines(s1, indentation, also_comments);
    lemma_whitespace_lines_lossless(s1, indentation, also_comments);
    lemma_trivia_texts_append(seq![w], p);
    lemma_drop_empty_whitespace_text(seq![w] + p);
    lemma_trivia_texts_single(w);
    assert(trivia_texts(seq![w] + p) + r =~= trivia_text(w) + (trivia_texts(p) + r));
}

} // verus!
