use candy_frontend::cst::{
    Cst, CstData, CstKind, Id, IsMultiline, TreeWithIds, UnwrapWhitespaceAndComment,
};
use candy_frontend::position::Offset;

fn node(id: usize, start: usize, end: usize, kind: CstKind) -> Cst {
    Cst { data: CstData { id: Id(id), span: Offset(start)..Offset(end) }, kind }
}

/// `(a b)` with the items' trailing whitespace, numbered in source order.
fn list() -> Cst {
    let opening = node(1, 0, 1, CstKind::OpeningParenthesis);
    let a = node(
        2,
        1,
        3,
        CstKind::TrailingWhitespace {
            child: Box::new(node(3, 1, 2, CstKind::Identifier("a".to_string()))),
            whitespace: vec![node(4, 2, 3, CstKind::Whitespace(" ".to_string()))],
        },
    );
    let b = node(5, 3, 4, CstKind::Identifier("b".to_string()));
    let closing = node(6, 4, 5, CstKind::ClosingParenthesis);
    node(
        0,
        0,
        5,
        CstKind::List {
            opening_parenthesis: Box::new(opening),
            items: vec![a, b],
            closing_parenthesis: Box::new(closing),
        },
    )
}

#[test]
fn cst_text_is_the_source() {
    assert_eq!(list().to_string(), "(a b)");
    assert_eq!(list().kind.to_string(), "(a b)");
    let comment = node(
        0,
        0,
        4,
        CstKind::Comment {
            octothorpe: Box::new(node(1, 0, 1, CstKind::Octothorpe)),
            comment: " hi".to_string(),
        },
    );
    assert_eq!(comment.to_string(), "# hi");
}

#[test]
fn cst_multiline_means_a_line_break() {
    assert!(!list().is_multiline());
    assert!(list().is_singleline());
    let broken = node(
        0,
        0,
        2,
        CstKind::TrailingWhitespace {
            child: Box::new(node(1, 0, 1, CstKind::Identifier("a".to_string()))),
            whitespace: vec![node(2, 1, 2, CstKind::Newline("\n".to_string()))],
        },
    );
    assert!(broken.is_multiline());
    assert!("a\nb".is_multiline());
    assert!(!"ab".is_multiline());
}

#[test]
fn cst_unwrapping_drops_whitespace() {
    let unwrapped = list().unwrap_whitespace_and_comment();
    assert_eq!(unwrapped.to_string(), "(ab)");
    match &unwrapped.kind {
        CstKind::List { items, .. } => {
            assert_eq!(items.len(), 2);
            assert_eq!(items[0].data.id, Id(3));
        }
        _ => panic!("expected a list"),
    }
}

#[test]
fn cst_find_by_id() {
    let tree = list();
    assert_eq!(tree.find(Id(0)).unwrap().data.id, Id(0));
    assert_eq!(tree.find(Id(3)).unwrap().to_string(), "a");
    assert_eq!(tree.find(Id(5)).unwrap().to_string(), "b");
    assert_eq!(tree.find(Id(6)).unwrap().to_string(), ")");
    assert!(tree.find(Id(9)).is_none());
    let trees = vec![list()];
    assert_eq!(trees.find(Id(4)).unwrap().to_string(), " ");
}

#[test]
fn cst_find_by_offset() {
    let tree = list();
    assert_eq!(tree.find_by_offset(Offset(1)).unwrap().data.id, Id(3));
    assert_eq!(tree.find_by_offset(Offset(2)).unwrap().data.id, Id(3));
    assert_eq!(tree.find_by_offset(Offset(3)).unwrap().data.id, Id(5));
    assert_eq!(tree.find_by_offset(Offset(4)).unwrap().data.id, Id(5));
    assert_eq!(tree.find_by_offset(Offset(0)).unwrap().data.id, Id(1));
    assert!(tree.find_by_offset(Offset(5)).is_none());
}

#[test]
fn cst_children_in_order() {
    let tree = list();
    let children = tree.kind.children();
    assert_eq!(children.len(), 4);
    assert_eq!(children[0].data.id, Id(1));
    assert_eq!(children[1].data.id, Id(2));
    assert_eq!(children[3].data.id, Id(6));
    assert!(CstKind::Whitespace(" ".to_string()).is_whitespace_or_comment());
    assert!(!CstKind::Identifier("a".to_string()).is_whitespace_or_comment());
}

#[test]
fn cst_multiline_matches_line_feeds_in_text() {
    let broken = node(
        0,
        0,
        3,
        CstKind::TrailingWhitespace {
            child: Box::new(node(1, 0, 1, CstKind::Identifier("a".to_string()))),
            whitespace: vec![
                node(2, 1, 2, CstKind::Whitespace(" ".to_string())),
                node(3, 2, 3, CstKind::Newline("\n".to_string())),
            ],
        },
    );
    assert_eq!(broken.is_multiline(), broken.to_string().contains('\n'));
    assert_eq!(list().is_multiline(), list().to_string().contains('\n'));
    let error = node(
        0,
        0,
        3,
        CstKind::Error {
            unparsable_input: "a\nb".to_string(),
            error: candy_frontend::cst::CstError::UnexpectedCharacters,
        },
    );
    assert!(error.is_multiline());
}

#[test]
fn cst_unwrapping_twice_changes_nothing_more() {
    let once = list().unwrap_whitespace_and_comment();
    let twice = once.unwrap_whitespace_and_comment();
    assert_eq!(once.to_string(), twice.to_string());
    assert_eq!(once.kind.children().len(), twice.kind.children().len());
}
