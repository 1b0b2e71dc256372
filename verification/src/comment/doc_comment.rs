use super::blocks::{blocks, blocks_with_end, spec_blocks, top_level_leaves_empty_line};
use super::blocks::no_line_holds_url;
use super::rcst::{rcst_texts, Rcst};
use super::rcst_view::rcst_views;
use super::string_to_rcst::{lines_measure, lines_text, no_line_ends_in_backslash, rest_of_line};
use crate::cst::{clone_cst, clone_csts, lemma_views_index, views, Cst, CstKind, CstKindView, CstView};
use crate::text::{chars_of, string_from_chars, string_views};
use vstd::prelude::*;

verus! {

/// Whether a node can be part of the comment that a module starts with:
/// whitespace, a line break or a comment.
pub open spec fn is_comment_part(cst: CstView) -> bool {
    cst.kind is Whitespace || cst.kind is Newline || cst.kind is Comment
}

/// How many of the nodes, from the first on, can be parts of a comment.
pub open spec fn comment_part_count(csts: Seq<CstView>) -> nat
    decreases csts.len(),
{
    if csts.len() > 0 && is_comment_part(csts[0]) {
        1 + comment_part_count(csts.drop_first())
    } else {
        0
    }
}

proof fn lemma_comment_part_count(csts: Seq<CstView>, i: int)
    requires
        0 <= i <= csts.len(),
        forall|j: int| 0 <= j < i ==> is_comment_part(#[trigger] csts[j]),
        i == csts.len() || !is_comment_part(csts[i]),
    ensures
        comment_part_count(csts) == i,
    decreases i,
{
    if i > 0 {
        assert forall|j: int| 0 <= j < i - 1 implies is_comment_part(
            #[trigger] csts.drop_first()[j],
        ) by {
            assert(csts.drop_first()[j] == csts[j + 1]);
        }
        lemma_comment_part_count(csts.drop_first(), i - 1);
    }
}

/// Whether a node is whitespace, a line break or a comment.
fn can_be_comment_part(cst: &Cst) -> (result: bool)
    ensures
        result == is_comment_part(cst@),
{
    match &cst.kind {
        CstKind::Whitespace(_) | CstKind::Newline(_) | CstKind::Comment { .. } => true,
        _ => false,
    }
}

/// The nodes that a module starts with, as long as they can be parts of its
/// comment.
pub fn leading_comment_parts(csts: &Vec<Cst>) -> (result: Vec<Cst>)
    ensures
        views(result@) == views(csts@.take(comment_part_count(views(csts@)) as int)),
{
    let mut result: Vec<Cst> = Vec::new();
    let mut i: usize = 0;
    proof {
        assert(csts@.take(0) =~= Seq::<Cst>::empty());
    }
    while i < csts.len() && can_be_comment_part(&csts[i])
        invariant
            i <= csts.len(),
            views(result@) == views(csts@.take(i as int)),
            forall|j: int| 0 <= j < i ==> is_comment_part(#[trigger] views(csts@)[j]),
        decreases csts.len() - i,
    {
        proof {
            lemma_views_index(csts@, i as int);
        }
        let ghost before = result@;
        result.push(clone_cst(&csts[i]));
        proof {
            assert(result@.drop_last() == before);
            assert(csts@.take(i + 1).drop_last() =~= csts@.take(i as int));
        }
        i = i + 1;
    }
    proof {
        if i < csts.len() {
            lemma_views_index(csts@, i as int);
        }
        crate::cst::lemma_views_len(csts@);
        lemma_comment_part_count(views(csts@), i as int);
    }
    result
}

/// A comment's text as a line of a doc comment: without one leading space.
pub open spec fn comment_line(comment: Seq<char>) -> Seq<char> {
    if comment.len() > 0 && comment[0] == ' ' {
        comment.drop_first()
    } else {
        comment
    }
}

/// The lines of the comments among nodes, in order; line breaks give none.
pub open spec fn comment_lines_of(csts: Seq<CstView>) -> Seq<Seq<char>>
    decreases csts.len(),
{
    if csts.len() == 0 {
        Seq::empty()
    } else {
        let before = comment_lines_of(csts.drop_last());
        match csts.last().kind {
            CstKindView::Comment { comment, .. } => before.push(comment_line(comment)),
            _ => before,
        }
    }
}

/// Whether nodes are comments and line breaks, and nothing else.
pub open spec fn are_comments_and_newlines(csts: Seq<CstView>) -> bool {
    forall|i: int| 0 <= i < csts.len() ==> (#[trigger] csts[i]).kind is Comment || csts[i].kind is Newline
}

/// The lines of a doc comment, from the comments and line breaks that hold
/// it: each comment gives a line, without one leading space.
pub fn comment_lines(csts: &Vec<Cst>) -> (result: Vec<String>)
    requires
        are_comments_and_newlines(views(csts@)),
    ensures
        string_views(result@) == comment_lines_of(views(csts@)),
{
    let mut result: Vec<String> = Vec::new();
    let mut i: usize = 0;
    proof {
        assert(views(csts@.take(0)) =~= Seq::<CstView>::empty());
        assert(string_views(result@) =~= Seq::<Seq<char>>::empty());
    }
    while i < csts.len()
        invariant
            i <= csts.len(),
            are_comments_and_newlines(views(csts@)),
            string_views(result@) == comment_lines_of(views(csts@.take(i as int))),
        decreases csts.len() - i,
    {
        proof {
            lemma_views_index(csts@, i as int);
            assert(csts@.take(i + 1).drop_last() =~= csts@.take(i as int));
            assert(csts@.take(i + 1).last() == csts@[i as int]);
            assert(views(csts@.take(i + 1)).drop_last() == views(csts@.take(i as int)));
        }
        match &csts[i].kind {
            CstKind::Comment { comment, .. } => {
                let chars = chars_of(comment.as_str());
                let line = if chars.len() > 0 && chars[0] == ' ' {
                    rest_of_line(&chars, 1)
                } else {
                    string_from_chars(&chars)
                };
                proof {
                    assert(line@ == comment_line(comment@));
                }
                let ghost before = result@;
                result.push(line);
                proof {
                    assert(string_views(result@) =~= string_views(before).push(line@));
                }
            },
            CstKind::Newline(_) => {},
            _ => {
                proof {
                    assert(views(csts@)[i as int].kind is Comment || views(csts@)[i as int].kind is Newline);
                }
            },
        }
        i = i + 1;
    }
    proof {
        assert(csts@.take(csts.len() as int) =~= csts@);
    }
    result
}

/// The nodes that hold the comment of an assignment: the whitespace after
/// its assignment sign, if there is any.
pub open spec fn assignment_comment_parts_of(cst: CstView) -> Seq<CstView> {
    match cst.kind {
        CstKindView::Assignment { assignment_sign, .. } => match assignment_sign.kind {
            CstKindView::TrailingWhitespace { whitespace, .. } => whitespace,
            _ => Seq::empty(),
        },
        _ => Seq::empty(),
    }
}

/// The nodes that hold the comment of an assignment.
pub fn assignment_comment_parts(cst: &Cst) -> (result: Vec<Cst>)
    requires
        cst@.kind is Assignment,
    ensures
        views(result@) == assignment_comment_parts_of(cst@),
{
    match &cst.kind {
        CstKind::Assignment { left, assignment_sign, body } => {
            proof {
                assert(cst@.kind == CstKindView::Assignment {
                    left: Box::new(left.tree_view()),
                    assignment_sign: Box::new(assignment_sign.tree_view()),
                    body: views(body@),
                });
                assert(assignment_sign.tree_view().kind == assignment_sign.kind.tree_view());
            }
            match &assignment_sign.kind {
                CstKind::TrailingWhitespace { child, whitespace } => {
                    proof {
                        assert(assignment_sign.kind.tree_view() == CstKindView::TrailingWhitespace {
                            child: Box::new(child.tree_view()),
                            whitespace: views(whitespace@),
                        });
                    }
                    clone_csts(whitespace)
                },
                _ => {
                    let result: Vec<Cst> = Vec::new();
                    proof {
                        assert(views(result@) =~= Seq::<CstView>::empty());
                        assert(!(assignment_sign.kind.tree_view() is TrailingWhitespace));
                    }
                    result
                },
            }
        },
        _ => {
            let result: Vec<Cst> = Vec::new();
            result
        },
    }
}

/// The syntax tree of a doc comment, from its lines: its blocks, with all
/// lines taken. Where no line ends in a backslash or holds `http://` or
/// `https://`, the tree keeps the text of the lines, joined by line feeds.
pub fn comment_rcsts(lines: Vec<String>) -> (result: Vec<Rcst>)
    requires
        lines.len() > 0,
        lines_measure(string_views(lines@)) <= usize::MAX,
        spec_blocks(string_views(lines@), 0) is Some,
        top_level_leaves_empty_line(string_views(lines@)),
    ensures
        spec_blocks(string_views(lines@), 0) == Some(
            (Seq::<Seq<char>>::empty(), rcst_views(result@)),
        ),
        no_line_ends_in_backslash(string_views(lines@)) && no_line_holds_url(
            string_views(lines@),
        ) ==> rcst_texts(result@) == lines_text(string_views(lines@)),
{
    match blocks(lines, 0) {
        Some((rest, rcsts)) => {
            proof {
                assert(string_views(rest@) =~= Seq::<Seq<char>>::empty());
                assert(lines_text(Seq::<Seq<char>>::empty()) =~= Seq::<char>::empty());
                assert(rcst_texts(rcsts@) + Seq::<char>::empty() =~= rcst_texts(rcsts@));
            }
            rcsts
        },
        None => Vec::new(),
    }
}

/// The syntax tree of a doc comment, where its lines make one: nothing where
/// there are no lines, where no block starts them, or where the blocks and the
/// whitespace after them do not leave exactly one empty line.
pub fn try_comment_rcsts(lines: Vec<String>) -> (result: Option<Vec<Rcst>>)
    requires
        lines_measure(string_views(lines@)) <= usize::MAX,
    ensures
        match result {
            Some(rcsts) => {
                &&& lines.len() > 0
                &&& top_level_leaves_empty_line(string_views(lines@))
                &&& spec_blocks(string_views(lines@), 0) == Some(
                    (Seq::<Seq<char>>::empty(), rcst_views(rcsts@)),
                )
            },
            None => !(lines.len() > 0 && top_level_leaves_empty_line(string_views(lines@))
                && spec_blocks(string_views(lines@), 0) is Some),
        },
{
    if lines.len() == 0 {
        return None;
    }
    let ghost views_of_lines = string_views(lines@);
    match blocks_with_end(lines, 0) {
        (Some((rest, rcsts)), true) => {
            proof {
                assert(string_views(rest@) =~= Seq::<Seq<char>>::empty());
            }
            Some(rcsts)
        },
        _ => None,
    }
}

} // verus!
