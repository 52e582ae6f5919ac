use candy::cst::{
    find_cst, find_cst_by_offset, find_in, find_in_by_offset, first_id_in, first_offset_in, Cst,
    CstKind, Id, UnwrapWhitespaceAndComment,
};
use candy::rcst::RcstError;

fn node(id: usize, start: usize, end: usize, kind: CstKind) -> Cst {
    Cst { id: Id(id), span: start..end, kind }
}

/// `foo bar # hi` followed by `\n` and `baz`: a call of `foo` with `bar`
/// (which carries a trailing comment) and `baz`, numbered in pre-order.
fn sample() -> Cst {
    let foo = node(1, 0, 3, CstKind::Identifier("foo".to_string()));
    let space = node(2, 3, 4, CstKind::Whitespace(" ".to_string()));
    let bar = node(4, 4, 7, CstKind::Identifier("bar".to_string()));
    let comment = node(
        6,
        8,
        12,
        CstKind::Comment {
            octothorpe: Box::new(node(7, 8, 9, CstKind::Octothorpe)),
            comment: " hi".to_string(),
        },
    );
    let bar_with_whitespace = node(
        3,
        4,
        12,
        CstKind::TrailingWhitespace {
            child: Box::new(bar),
            whitespace: vec![node(5, 7, 8, CstKind::Whitespace(" ".to_string())), comment],
        },
    );
    let newline = node(8, 12, 13, CstKind::Newline("\n".to_string()));
    let baz = node(9, 13, 16, CstKind::Identifier("baz".to_string()));
    node(
        0,
        0,
        16,
        CstKind::Call {
            name: Box::new(foo),
            arguments: vec![space, bar_with_whitespace, newline, baz],
        },
    )
}

#[test]
fn printing_gives_back_the_source() {
    assert_eq!(sample().to_string(), "foo bar # hi\nbaz");
    let lambda = node(
        0,
        0,
        9,
        CstKind::Lambda {
            opening_curly_brace: Box::new(node(1, 0, 1, CstKind::OpeningCurlyBrace)),
            parameters_and_arrow: Some((
                vec![node(2, 1, 2, CstKind::Identifier("a".to_string()))],
                Box::new(node(3, 2, 4, CstKind::Arrow)),
            )),
            body: vec![node(4, 4, 6, CstKind::Int { value: 42, string: "42".to_string() })],
            closing_curly_brace: Box::new(node(
                5,
                6,
                7,
                CstKind::Error {
                    unparsable_input: "".to_string(),
                    error: RcstError::CurlyBraceNotClosed,
                },
            )),
        },
    );
    assert_eq!(lambda.to_string(), "{a->42");
}

#[test]
fn display_span_of_a_call_is_the_name() {
    assert_eq!(sample().display_span(), 0..3);
    let comma = node(4, 4, 5, CstKind::Comma);
    assert_eq!(comma.display_span(), 4..5);
    let bar = sample();
    if let CstKind::Call { arguments, .. } = &bar.kind {
        assert_eq!(arguments[1].display_span(), 4..7);
    }
}

#[test]
fn whitespace_nodes() {
    assert!(node(0, 0, 1, CstKind::Whitespace(" ".to_string())).is_whitespace());
    assert!(node(0, 0, 1, CstKind::Newline("\n".to_string())).is_whitespace());
    assert!(!node(0, 0, 1, CstKind::Comma).is_whitespace());
}

#[test]
fn unwrapping_drops_whitespace_and_comments() {
    let unwrapped = sample().unwrap_whitespace_and_comment();
    let expected = node(
        0,
        0,
        16,
        CstKind::Call {
            name: Box::new(node(1, 0, 3, CstKind::Identifier("foo".to_string()))),
            arguments: vec![
                node(4, 4, 7, CstKind::Identifier("bar".to_string())),
                node(9, 13, 16, CstKind::Identifier("baz".to_string())),
            ],
        },
    );
    assert_eq!(unwrapped, expected);
    assert_eq!(unwrapped.unwrap_whitespace_and_comment(), expected);
    let list = vec![sample(), node(10, 16, 17, CstKind::Whitespace(" ".to_string()))];
    assert_eq!(list.unwrap_whitespace_and_comment(), vec![expected]);
}

#[test]
fn cloning_copies_the_whole_tree() {
    let tree = sample();
    assert_eq!(tree.clone(), tree);
}

#[test]
fn finding_nodes_by_id() {
    let tree = sample();
    assert_eq!(tree.first_id(), Some(Id(0)));
    assert_eq!(tree.first_offset(), Some(0));
    assert_eq!(tree.find(Id(0)).map(|c| c.id), Some(Id(0)));
    assert_eq!(tree.find(Id(4)).map(|c| c.to_string()), Some("bar".to_string()));
    assert_eq!(tree.find(Id(3)).map(|c| c.to_string()), Some("bar # hi".to_string()));
    assert_eq!(tree.find(Id(7)).map(|c| c.to_string()), Some("#".to_string()));
    assert_eq!(tree.find(Id(9)).map(|c| c.to_string()), Some("baz".to_string()));
    assert_eq!(tree.find(Id(42)), None);
    let forest = vec![tree];
    assert_eq!(first_id_in(&forest), Some(Id(0)));
    assert_eq!(first_offset_in(&forest), Some(0));
    assert_eq!(find_in(&forest, Id(5)).map(|c| c.to_string()), Some(" ".to_string()));
    assert_eq!(find_cst(&forest, Id(8)).to_string(), "\n");
    assert_eq!(first_id_in(&vec![]), None);
}

#[test]
fn finding_nodes_by_offset() {
    let tree = sample();
    assert_eq!(tree.find_by_offset(1).map(|c| c.id), Some(Id(1)));
    assert_eq!(tree.find_by_offset(5).map(|c| c.id), Some(Id(4)));
    // The comment is not searched inside trailing whitespace, so the node
    // carrying it is found.
    assert_eq!(tree.find_by_offset(10).map(|c| c.id), Some(Id(3)));
    assert_eq!(tree.find_by_offset(14).map(|c| c.id), Some(Id(9)));
    assert_eq!(tree.find_by_offset(16), None);
    let forest = vec![tree];
    assert_eq!(find_in_by_offset(&forest, 3).map(|c| c.id), Some(Id(2)));
    assert_eq!(find_cst_by_offset(&forest, 12).id, Id(8));
}
